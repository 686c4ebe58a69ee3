//! How a node is written, and which nodes read back as they were written.
use vstd::prelude::*;

use crate::link::LinkView;
use crate::text::{before_first, decimal, digit, joined, lemma_find_char};

verus! {

/// Each pair as `key=value`.
pub open spec fn assignments(pairs: Seq<(Seq<char>, Seq<char>)>) -> Seq<Seq<char>> {
    Seq::new(pairs.len(), |i: int| pairs[i].0 + "="@ + pairs[i].1)
}

/// The text of a node.
pub open spec fn node_text(
    id: Seq<char>,
    host: Seq<char>,
    port: u16,
    pairs: Seq<(Seq<char>, Seq<char>)>,
    fragment: Option<Seq<char>>,
) -> Seq<char> {
    let base = "vless://"@ + id + "@"@ + host + ":"@ + decimal(port as nat);
    let full = if pairs.len() == 0 {
        base
    } else {
        base + "?"@ + joined(assignments(pairs), "&"@)
    };
    match fragment {
        Some(fragment) => full + "#"@ + fragment,
        None => full,
    }
}

/// The text of a link that names a host and a port.
pub open spec fn link_text(link: LinkView) -> Seq<char> {
    node_text(link.username, link.host->0, link.port->0, link.query, link.fragment)
}

/// The characters that mean nothing in a URL but themselves.
pub open spec fn word_char(c: char) -> bool {
    ||| 'A' <= c && c <= 'Z'
    ||| 'a' <= c && c <= 'z'
    ||| '0' <= c && c <= '9'
    ||| c == '.'
    ||| c == '_'
    ||| c == '~'
    ||| c == '-'
}

/// The characters of an ordinary link: none of them is ever encoded in a query or a fragment.
pub open spec fn plain_char(c: char) -> bool {
    word_char(c) || c == ':' || c == '/' || c == '?' || c == '#' || c == '@' || c == '&' || c == '='
}

/// The characters of a user, who may hold encoded ones.
pub open spec fn user_char(c: char) -> bool {
    word_char(c) || c == '&' || c == '%'
}

/// The characters of a host.
pub open spec fn host_char(c: char) -> bool {
    word_char(c) || c == '&' || c == '='
}

/// The characters of a key.
pub open spec fn key_char(c: char) -> bool {
    word_char(c) || c == ':' || c == '/' || c == '?' || c == '@'
}

/// The characters of a value.
pub open spec fn value_char(c: char) -> bool {
    key_char(c) || c == '='
}

/// Whether a text is an ordinary one.
pub open spec fn plain_text(s: Seq<char>) -> bool {
    forall|i: int| 0 <= i < s.len() ==> plain_char(#[trigger] s[i])
}

/// Whether a text is an ordinary user.
pub open spec fn plain_user(s: Seq<char>) -> bool {
    forall|i: int| 0 <= i < s.len() ==> user_char(#[trigger] s[i])
}

/// Whether a text is an ordinary host.
pub open spec fn plain_host(s: Seq<char>) -> bool {
    s.len() > 0 && forall|i: int| 0 <= i < s.len() ==> host_char(#[trigger] s[i])
}

/// Whether a pair is an ordinary parameter.
pub open spec fn plain_pair(pair: (Seq<char>, Seq<char>)) -> bool {
    &&& forall|i: int| 0 <= i < pair.0.len() ==> key_char(#[trigger] pair.0[i])
    &&& forall|i: int| 0 <= i < pair.1.len() ==> value_char(#[trigger] pair.1[i])
}

/// Whether all pairs are ordinary parameters.
pub open spec fn plain_query(query: Seq<(Seq<char>, Seq<char>)>) -> bool {
    forall|i: int| 0 <= i < query.len() ==> plain_pair(#[trigger] query[i])
}

/// Whether the parts of a link are ordinary ones.
pub open spec fn plain_parts(link: LinkView) -> bool {
    &&& plain_user(link.username)
    &&& link.host matches Some(host) ==> plain_host(host)
    &&& plain_query(link.query)
    &&& link.fragment matches Some(fragment) ==> plain_text(fragment)
}

/// The length from which on the parser's counts and offsets may not hold a text.
pub const TEXT_LIMIT: usize = 0x7fff_ffff;

/// Whether a link is a VLESS link of ordinary parts, with a user, a host and a port, and short
/// enough: when it is written, it reads back as it is.
pub open spec fn reads_back(link: LinkView) -> bool {
    &&& link.scheme == "vless"@
    &&& plain_parts(link)
    &&& link.username.len() > 0
    &&& link.host is Some
    &&& link.port is Some
    &&& link_text(link).len() < TEXT_LIMIT
}

/// Whether a text is that of a link that reads back.
pub open spec fn is_plain_node(text: Seq<char>) -> bool {
    exists|link: LinkView| reads_back(link) && #[trigger] link_text(link) == text
}

/// The link that a text is that of.
pub open spec fn plain_node(text: Seq<char>) -> LinkView {
    choose|link: LinkView| reads_back(link) && #[trigger] link_text(link) == text
}

/// Whether a character stands nowhere in a text.
pub open spec fn lacks(s: Seq<char>, c: char) -> bool {
    forall|i: int| 0 <= i < s.len() ==> (#[trigger] s[i]) != c
}

/// What follows a text: nothing, or a mark and a part.
spec fn marked(c: char, part: Option<Seq<char>>) -> Seq<char> {
    match part {
        Some(part) => seq![c] + part,
        None => Seq::empty(),
    }
}

/// The first mark tells where a text without it ends and what follows.
proof fn lemma_cut(
    a: Seq<char>,
    x: Option<Seq<char>>,
    b: Seq<char>,
    y: Option<Seq<char>>,
    c: char,
)
    requires
        lacks(a, c),
        lacks(b, c),
        a + marked(c, x) == b + marked(c, y),
    ensures
        a == b,
        x == y,
{
    let s = a + marked(c, x);
    let t = b + marked(c, y);
    if x is Some {
        assert(s[a.len() as int] == c);
    }
    if y is Some {
        assert(t[b.len() as int] == c);
    }
    if a.len() < b.len() {
        assert(t[a.len() as int] == b[a.len() as int]);
    }
    if b.len() < a.len() {
        assert(s[b.len() as int] == a[b.len() as int]);
    }
    assert(a.len() == b.len());
    assert(s.take(a.len() as int) =~= a);
    assert(t.take(b.len() as int) =~= b);
    match (x, y) {
        (Some(p), Some(q)) => {
            assert(s.skip(a.len() as int + 1) =~= p);
            assert(t.skip(b.len() as int + 1) =~= q);
        },
        _ => {},
    }
}

/// A number is told by its decimal text.
proof fn lemma_decimal_injective(m: nat, n: nat)
    requires
        decimal(m) == decimal(n),
    ensures
        m == n,
    decreases m,
{
    lemma_decimal_digits(m);
    lemma_decimal_digits(n);
    if m >= 10 {
        assert(decimal(m).drop_last() =~= decimal(m / 10));
    }
    if n >= 10 {
        assert(decimal(n).drop_last() =~= decimal(n / 10));
    }
    assert(decimal(m).last() == digit(m % 10));
    assert(decimal(n).last() == digit(n % 10));
    if m >= 10 && n >= 10 {
        lemma_decimal_injective(m / 10, n / 10);
    } else if m >= 10 {
        lemma_decimal_digits(m / 10);
        assert(decimal(m).len() > 1);
    } else if n >= 10 {
        lemma_decimal_digits(n / 10);
        assert(decimal(n).len() > 1);
    }
}

/// A decimal text holds a digit, and nothing but digits.
proof fn lemma_decimal_digits(n: nat)
    ensures
        decimal(n).len() > 0,
        forall|i: int|
            0 <= i < decimal(n).len() ==> '0' <= #[trigger] decimal(n)[i] && decimal(n)[i] <= '9',
    decreases n,
{
    if n >= 10 {
        lemma_decimal_digits(n / 10);
        assert forall|i: int| 0 <= i < decimal(n).len() implies '0' <= #[trigger] decimal(n)[i]
            && decimal(n)[i] <= '9' by {
            if i < decimal(n / 10).len() {
                assert(decimal(n)[i] == decimal(n / 10)[i]);
            }
        }
    }
}

/// Whether a character stands in none of the texts.
spec fn all_lack(parts: Seq<Seq<char>>, c: char) -> bool {
    forall|i: int| 0 <= i < parts.len() ==> lacks(#[trigger] parts[i], c)
}

/// Texts without the separator are told by what they are joined to.
proof fn lemma_joined_injective(a: Seq<Seq<char>>, b: Seq<Seq<char>>, separator: Seq<char>, c: char)
    requires
        separator == seq![c],
        a.len() > 0,
        b.len() > 0,
        all_lack(a, c),
        all_lack(b, c),
        joined(a, separator) == joined(b, separator),
    ensures
        a == b,
    decreases a.len(),
{
    let s = joined(a, separator);
    let front = joined(a.drop_last(), separator);
    let back = joined(b.drop_last(), separator);
    let x = a.last();
    let y = b.last();
    assert(a[a.len() - 1] == x && b[b.len() - 1] == y);
    if a.len() > 1 {
        assert(s[front.len() as int] == c);
        assert(s.skip(front.len() as int + 1) =~= x);
        assert(s.take(front.len() as int) =~= front);
    }
    if b.len() > 1 {
        assert(s[back.len() as int] == c);
        assert(s.skip(back.len() as int + 1) =~= y);
        assert(s.take(back.len() as int) =~= back);
    }
    if a.len() == 1 && b.len() == 1 {
        assert(a =~= b);
    } else if a.len() == 1 {
        assert(a[0][back.len() as int] == c);
    } else if b.len() == 1 {
        assert(b[0][front.len() as int] == c);
    } else {
        if front.len() < back.len() {
            assert(x[back.len() - front.len() - 1] == s[back.len() as int]);
        }
        if back.len() < front.len() {
            assert(y[front.len() - back.len() - 1] == s[front.len() as int]);
        }
        assert(all_lack(a.drop_last(), c)) by {
            assert forall|i: int| 0 <= i < a.len() - 1 implies lacks(#[trigger] a.drop_last()[i], c)
                by {
                assert(a.drop_last()[i] == a[i]);
            }
        }
        assert(all_lack(b.drop_last(), c)) by {
            assert forall|i: int| 0 <= i < b.len() - 1 implies lacks(#[trigger] b.drop_last()[i], c)
                by {
                assert(b.drop_last()[i] == b[i]);
            }
        }
        lemma_joined_injective(a.drop_last(), b.drop_last(), separator, c);
        assert(a =~= a.drop_last().push(x));
        assert(b =~= b.drop_last().push(y));
    }
}

/// What is joined lacks what its parts and the separator lack.
proof fn lemma_joined_lacks(parts: Seq<Seq<char>>, separator: Seq<char>, c: char)
    requires
        all_lack(parts, c),
        lacks(separator, c),
    ensures
        lacks(joined(parts, separator), c),
    decreases parts.len(),
{
    if parts.len() == 1 {
        assert(lacks(parts[0], c));
    } else if parts.len() > 1 {
        let front = parts.drop_last();
        assert(all_lack(front, c)) by {
            assert forall|i: int| 0 <= i < front.len() implies lacks(#[trigger] front[i], c) by {
                assert(front[i] == parts[i]);
            }
        }
        lemma_joined_lacks(front, separator, c);
        assert(lacks(parts[parts.len() - 1], c));
    }
}

/// Ordinary parameters, written, hold no character but those of values.
proof fn lemma_assignments_lack(pairs: Seq<(Seq<char>, Seq<char>)>, c: char)
    requires
        plain_query(pairs),
        !value_char(c),
    ensures
        all_lack(assignments(pairs), c),
{
    reveal_strlit("=");
    assert forall|i: int| 0 <= i < pairs.len() implies lacks(
        #[trigger] assignments(pairs)[i],
        c,
    ) by {
        assert(plain_pair(pairs[i]));
        let s = assignments(pairs)[i];
        assert(s == pairs[i].0 + "="@ + pairs[i].1);
        assert forall|k: int| 0 <= k < s.len() implies (#[trigger] s[k]) != c by {
            if k < pairs[i].0.len() {
                assert(s[k] == pairs[i].0[k]);
            } else if k > pairs[i].0.len() {
                assert(s[k] == pairs[i].1[k - pairs[i].0.len() - 1]);
            }
        }
    }
}

/// Ordinary parameters are told by how they are written.
proof fn lemma_assignments_injective(
    a: Seq<(Seq<char>, Seq<char>)>,
    b: Seq<(Seq<char>, Seq<char>)>,
)
    requires
        plain_query(a),
        plain_query(b),
        assignments(a) == assignments(b),
    ensures
        a == b,
{
    reveal_strlit("=");
    assert("="@ =~= seq!['=']);
    assert(a.len() == assignments(a).len() && b.len() == assignments(b).len());
    assert forall|i: int| 0 <= i < a.len() implies a[i] == b[i] by {
        assert(plain_pair(a[i]) && plain_pair(b[i]));
        assert(assignments(a)[i] =~= a[i].0 + marked('=', Some(a[i].1)));
        assert(assignments(b)[i] =~= b[i].0 + marked('=', Some(b[i].1)));
        lemma_cut(a[i].0, Some(a[i].1), b[i].0, Some(b[i].1), '=');
    }
    assert(a =~= b);
}

/// The query of a node, where it has one.
spec fn query_part(pairs: Seq<(Seq<char>, Seq<char>)>) -> Option<Seq<char>> {
    if pairs.len() == 0 {
        None
    } else {
        Some(joined(assignments(pairs), "&"@))
    }
}

/// The text of a node, part by part from the back.
proof fn lemma_node_text(link: LinkView)
    requires
        reads_back(link),
    ensures
        ({
            let number = decimal(link.port->0 as nat) + marked('?', query_part(link.query));
            let address = link.host->0 + marked(':', Some(number + marked('#', link.fragment)));
            link_text(link) == "vless://"@ + (link.username + marked('@', Some(address)))
        }),
{
    reveal_strlit("@");
    reveal_strlit(":");
    reveal_strlit("?");
    reveal_strlit("#");
    let number = decimal(link.port->0 as nat) + marked('?', query_part(link.query));
    let address = link.host->0 + marked(':', Some(number + marked('#', link.fragment)));
    assert("@"@ =~= seq!['@'] && ":"@ =~= seq![':'] && "?"@ =~= seq!['?'] && "#"@ =~= seq!['#']);
    assert(link_text(link) =~= "vless://"@ + (link.username + marked('@', Some(address))));
}

/// A link that reads back is told by its text.
pub proof fn lemma_reads_back(a: LinkView, b: LinkView)
    requires
        reads_back(a),
        reads_back(b),
        link_text(a) == link_text(b),
    ensures
        a == b,
{
    let p = decimal(a.port->0 as nat) + marked('?', query_part(a.query));
    let q = decimal(b.port->0 as nat) + marked('?', query_part(b.query));
    let x = a.host->0 + marked(':', Some(p + marked('#', a.fragment)));
    let y = b.host->0 + marked(':', Some(q + marked('#', b.fragment)));
    lemma_node_text(a);
    lemma_node_text(b);
    let n = "vless://"@.len() as int;
    assert(link_text(a).skip(n) =~= a.username + marked('@', Some(x)));
    assert(link_text(b).skip(n) =~= b.username + marked('@', Some(y)));
    lemma_cut(a.username, Some(x), b.username, Some(y), '@');
    let u = p + marked('#', a.fragment);
    let v = q + marked('#', b.fragment);
    lemma_cut(a.host->0, Some(u), b.host->0, Some(v), ':');
    lemma_number_lacks(a);
    lemma_number_lacks(b);
    lemma_cut(p, a.fragment, q, b.fragment, '#');
    lemma_decimal_digits(a.port->0 as nat);
    lemma_decimal_digits(b.port->0 as nat);
    lemma_cut(
        decimal(a.port->0 as nat),
        query_part(a.query),
        decimal(b.port->0 as nat),
        query_part(b.query),
        '?',
    );
    lemma_decimal_injective(a.port->0 as nat, b.port->0 as nat);
    if a.query.len() > 0 {
        reveal_strlit("&");
        assert("&"@ =~= seq!['&']);
        lemma_assignments_lack(a.query, '&');
        lemma_assignments_lack(b.query, '&');
        lemma_joined_injective(assignments(a.query), assignments(b.query), "&"@, '&');
        lemma_assignments_injective(a.query, b.query);
    } else {
        assert(a.query =~= b.query);
    }
}

/// The port and the query of a node hold no mark of a fragment.
proof fn lemma_number_lacks(link: LinkView)
    requires
        reads_back(link),
    ensures
        lacks(decimal(link.port->0 as nat) + marked('?', query_part(link.query)), '#'),
{
    reveal_strlit("&");
    lemma_decimal_digits(link.port->0 as nat);
    lemma_assignments_lack(link.query, '#');
    lemma_joined_lacks(assignments(link.query), "&"@, '#');
}

/// What stands before the name of a link that reads back is that link without its name.
pub proof fn lemma_head(link: LinkView)
    requires
        reads_back(link),
    ensures
        before_first(link_text(link), '#') == link_text(LinkView { fragment: None, ..link }),
        is_plain_node(link_text(LinkView { fragment: None, ..link })),
{
    reveal_strlit("vless://");
    let bare = LinkView { fragment: None, ..link };
    let number = decimal(link.port->0 as nat) + marked('?', query_part(link.query));
    let text = link_text(link);
    let head = link_text(bare);
    reveal_strlit("#");
    assert(text =~= head + marked('#', link.fragment));
    assert(reads_back(bare));
    lemma_node_text(bare);
    lemma_number_lacks(bare);
    assert(number + marked('#', None) =~= number);
    assert(lacks(head, '#'));
    if link.fragment is Some {
        assert(text[head.len() as int] == '#');
    }
    assert forall|j: int| 0 <= j < head.len() implies text[j] != '#' by {
        assert(text[j] == head[j]);
    }
    lemma_find_char(text, '#', head.len());
    assert(text.take(head.len() as int) =~= head);
}

/// A link that reads back, written, holds no character but those of an ordinary text and `%`.
pub proof fn lemma_link_text_lacks(link: LinkView, c: char)
    requires
        reads_back(link),
        !plain_char(c),
        c != '%',
    ensures
        lacks(link_text(link), c),
{
    reveal_strlit("vless://");
    reveal_strlit("&");
    let query = joined(assignments(link.query), "&"@);
    let number = decimal(link.port->0 as nat) + marked('?', query_part(link.query));
    let rest = number + marked('#', link.fragment);
    let address = link.host->0 + marked(':', Some(rest));
    lemma_node_text(link);
    lemma_decimal_digits(link.port->0 as nat);
    lemma_assignments_lack(link.query, c);
    lemma_joined_lacks(assignments(link.query), "&"@, c);
    assert(lacks(query, c));
    assert(lacks(number, c));
    assert(lacks(rest, c)) by {
        if let Some(fragment) = link.fragment {
            assert(plain_text(fragment));
        }
    }
    assert(lacks(address, c));
    assert(lacks(link.username, c));
    assert(lacks(link.username + marked('@', Some(address)), c));
    assert(lacks("vless://"@, c));
}

} // verus!
