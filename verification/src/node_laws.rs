//! Which links are usable nodes, and what a node keeps of its link, in terms of the link.
use vstd::prelude::*;
use vstd::utf8::encode_utf8;

use crate::link::{opt_link, opt_text, parsed_link, LinkParts, LinkView};
use crate::node::assignments;
use crate::order::precedes;
use crate::params::{gathered, listing, pair_texts, value_of};
use crate::query::{gives, law_gathered, law_listing, leaves_out};
use crate::text::{before_first, decimal, joined, lemma_replaced_same, lemma_trimmed_core};
use crate::text::{replaced, trimmed, white_space};
use crate::text_laws::{law_joined, law_replaced};
use crate::vless_collector::{checked, network_of, node_params, notice_of, report_of};
use crate::vless_collector::{security_of, trimmed_pairs, validated, verdict};
use crate::vless_collector::{NodeRejection, Rejection};

verus! {

/// The outcome of a check says what the strings in it say.
pub proof fn law_verdict_says(outcome: Result<String, NodeRejection>)
    ensures
        outcome matches Ok(node) ==> verdict(outcome) == Ok::<Seq<char>, Rejection>(node@),
        outcome matches Err(reason) ==> verdict(outcome) == Err::<Seq<char>, Rejection>(
            match reason {
                NodeRejection::ShortUuid => Rejection::ShortUuid,
                NodeRejection::EmptyHost => Rejection::EmptyHost,
                NodeRejection::UnknownSecurity(s) => Rejection::UnknownSecurity(s@),
                NodeRejection::UnknownNetwork(n) => Rejection::UnknownNetwork(n@),
                NodeRejection::MissingRealityPbk => Rejection::MissingRealityPbk,
                NodeRejection::UrlParseError => Rejection::UrlParseError,
            },
        ),
{
}

/// A link says what its parts say, and an optional text or link what is in it.
pub proof fn law_link_says(link: LinkParts, text: Option<String>, found: Option<LinkParts>)
    ensures
        link@.scheme == link.scheme@,
        link@.username == link.username@,
        link@.host == opt_text(link.host),
        link@.port == link.port,
        link@.query == pair_texts(link.query@),
        link@.fragment == opt_text(link.fragment),
        opt_text(text) == match text {
            Some(s) => Some(s@),
            None => None,
        },
        opt_link(found) == match found {
            Some(parts) => Some(parts@),
            None => None,
        },
{
}

/// The pairs of a query without the white space around keys and values.
pub open spec fn tidied(query: Seq<(Seq<char>, Seq<char>)>) -> Seq<(Seq<char>, Seq<char>)> {
    Seq::new(query.len(), |i: int| (trimmed(query[i].0), trimmed(query[i].1)))
}

/// Whether a node keeps this value for this key: the last one that the query gives, but `tcp` for
/// the transport `raw`.
pub open spec fn keeps(
    query: Seq<(Seq<char>, Seq<char>)>,
    key: Seq<char>,
    value: Seq<char>,
) -> bool {
    ||| gives(tidied(query), key, value) && !(key == "type"@ && value == "raw"@)
    ||| key == "type"@ && value == "tcp"@ && gives(tidied(query), "type"@, "raw"@)
}

/// The pairs as a query.
pub open spec fn spelled_query(pairs: Seq<(Seq<char>, Seq<char>)>) -> Seq<char>
    decreases pairs.len(),
{
    if pairs.len() == 0 {
        Seq::empty()
    } else {
        let first = pairs[0].0 + seq!['='] + pairs[0].1;
        if pairs.len() == 1 {
            first
        } else {
            first + seq!['&'] + spelled_query(pairs.drop_first())
        }
    }
}

/// A link spelled out.
pub open spec fn spelled(link: LinkView, pairs: Seq<(Seq<char>, Seq<char>)>) -> Seq<char> {
    let port: nat = match link.port {
        Some(port) => port as nat,
        None => 443,
    };
    "vless://"@ + link.username + seq!['@'] + link.host->0 + seq![':'] + decimal(port) + (
    if pairs.len() > 0 {
        seq!['?'] + spelled_query(pairs)
    } else {
        Seq::empty()
    }) + match link.fragment {
        Some(fragment) => seq!['#'] + fragment,
        None => Seq::empty(),
    }
}

/// Both ways to spell a query are the same.
proof fn lemma_spelled_query(pairs: Seq<(Seq<char>, Seq<char>)>)
    ensures
        spelled_query(pairs) == joined(assignments(pairs), "&"@),
    decreases pairs.len(),
{
    reveal_strlit("=");
    reveal_strlit("&");
    assert("="@ =~= seq!['=']);
    assert("&"@ =~= seq!['&']);
    let all = assignments(pairs);
    if pairs.len() > 1 {
        let rest = pairs.drop_first();
        lemma_spelled_query(rest);
        assert(all =~= seq![all[0]] + assignments(rest));
        law_joined(seq![all[0]], assignments(rest), "&"@);
        assert(spelled_query(pairs) =~= joined(all, "&"@));
    } else if pairs.len() == 1 {
        assert(spelled_query(pairs) =~= all[0]);
    } else {
        assert(all =~= Seq::empty());
    }
}

/// The parameters of a node are those that it keeps.
proof fn lemma_keeps(link: LinkView, key: Seq<char>, value: Seq<char>)
    ensures
        value_of(node_params(link), key) == Some(value) <==> keeps(link.query, key, value),
        listing(node_params(link)).contains((key, value)) <==> keeps(link.query, key, value),
{
    let pairs = tidied(link.query);
    assert(pairs =~= trimmed_pairs(link.query));
    reveal_strlit("raw");
    reveal_strlit("tcp");
    assert("raw"@[0] != "tcp"@[0]);
    law_gathered(pairs, key, value);
    law_gathered(pairs, "type"@, "raw"@);
    let m = gathered(pairs);
    if value_of(m, "type"@) == Some("raw"@) {
        let more = pairs.push(("type"@, "tcp"@));
        assert(more.drop_last() =~= pairs);
        assert(gathered(more) == node_params(link));
        law_listing(more, key, value, 0, 0);
        law_gathered(more, key, value);
    } else {
        law_listing(pairs, key, value, 0, 0);
    }
}

/// An accepted node is its link spelled out: the same user, host and name, the port or 443, and
/// each parameter of the link with its last value, the keys in order. No key is added or lost, and
/// no value changes but `raw` for the transport, which is `tcp`.
pub proof fn law_node_keeps_its_link(link: LinkView)
    requires
        checked(link) is Ok,
    ensures
        exists|pairs: Seq<(Seq<char>, Seq<char>)>|
            checked(link) == Ok::<Seq<char>, Rejection>(#[trigger] spelled(link, pairs)) && (forall|
                key: Seq<char>,
                value: Seq<char>,
            |
                #![trigger keeps(link.query, key, value)]
                pairs.contains((key, value)) <==> keeps(link.query, key, value)) && (forall|
                i: int,
                j: int,
            |
                0 <= i < j < pairs.len() ==> precedes(
                    (#[trigger] pairs[i]).0,
                    (#[trigger] pairs[j]).0,
                )),
{
    let pairs = listing(node_params(link));
    reveal_strlit("@");
    reveal_strlit(":");
    reveal_strlit("?");
    reveal_strlit("#");
    assert("@"@ =~= seq!['@'] && ":"@ =~= seq![':'] && "?"@ =~= seq!['?'] && "#"@ =~= seq!['#']);
    lemma_spelled_query(pairs);
    assert(checked(link)->Ok_0 =~= spelled(link, pairs));
    assert forall|key: Seq<char>, value: Seq<char>|
        #![trigger keeps(link.query, key, value)]
        pairs.contains((key, value)) <==> keeps(link.query, key, value) by {
        lemma_keeps(link, key, value);
    }
    let tidy = tidied(link.query);
    assert(tidy =~= trimmed_pairs(link.query));
    assert forall|i: int, j: int| 0 <= i < j < pairs.len() implies precedes(
        (#[trigger] pairs[i]).0,
        (#[trigger] pairs[j]).0,
    ) by {
        if value_of(gathered(tidy), "type"@) == Some("raw"@) {
            let more = tidy.push(("type"@, "tcp"@));
            assert(more.drop_last() =~= tidy);
            assert(gathered(more) == node_params(link));
            law_listing(more, "type"@, "tcp"@, i, j);
        } else {
            law_listing(tidy, "type"@, "tcp"@, i, j);
        }
    }
}

/// Whether the query switches this key on.
pub open spec fn turns_on(query: Seq<(Seq<char>, Seq<char>)>, key: Seq<char>) -> bool {
    gives(tidied(query), key, "true"@) || gives(tidied(query), key, "1"@)
}

/// Whether this is the security layer that the query asks for: the last one that it gives, and
/// `none` where that is empty or there is none.
pub open spec fn asks_security(query: Seq<(Seq<char>, Seq<char>)>, security: Seq<char>) -> bool {
    ||| gives(tidied(query), "security"@, security) && security.len() > 0
    ||| security == "none"@ && (leaves_out(tidied(query), "security"@) || exists|s: Seq<char>|
        s.len() == 0 && #[trigger] gives(tidied(query), "security"@, s))
}

/// Whether this is the transport that the query asks for: the last one that it gives, with `tcp`
/// for `raw` and where there is none.
pub open spec fn asks_network(query: Seq<(Seq<char>, Seq<char>)>, network: Seq<char>) -> bool {
    ||| gives(tidied(query), "type"@, network) && network != "raw"@
    ||| network == "tcp"@ && (leaves_out(tidied(query), "type"@) || gives(
        tidied(query),
        "type"@,
        "raw"@,
    ))
}

/// What the query asks for is what the check goes by.
proof fn lemma_asks(link: LinkView, security: Seq<char>, network: Seq<char>)
    requires
        asks_security(link.query, security),
        asks_network(link.query, network),
    ensures
        security_of(node_params(link)) == security,
        network_of(node_params(link)) == network,
{
    let pairs = tidied(link.query);
    assert(pairs =~= trimmed_pairs(link.query));
    reveal_strlit("type");
    reveal_strlit("security");
    assert("type"@.len() != "security"@.len());
    law_gathered(pairs, "type"@, network);
    law_gathered(pairs, "type"@, "raw"@);
    law_gathered(pairs, "security"@, security);
    let m = gathered(pairs);
    assert(value_of(node_params(link), "security"@) == value_of(m, "security"@));
    if !(gives(pairs, "security"@, security) && security.len() > 0) {
        if !leaves_out(pairs, "security"@) {
            let s = choose|s: Seq<char>|
                s.len() == 0 && #[trigger] gives(pairs, "security"@, s);
            law_gathered(pairs, "security"@, s);
        }
    }
}

/// A link is refused for the first of these that holds, and accepted where none does: another
/// scheme, a user of less than 30 bytes, no host, certificate checks turned off, a security layer
/// other than `tls`, `reality` and `none`, a transport other than the six known ones, and Reality
/// without a public key.
pub proof fn law_check(link: LinkView, security: Seq<char>, network: Seq<char>)
    requires
        asks_security(link.query, security),
        asks_network(link.query, network),
    ensures
        ({
            let refused = |reason: Rejection| checked(link) == Err::<Seq<char>, Rejection>(reason);
            if link.scheme != "vless"@ {
                refused(Rejection::UrlParseError)
            } else if encode_utf8(link.username).len() < 30 {
                refused(Rejection::ShortUuid)
            } else if link.host is None {
                refused(Rejection::EmptyHost)
            } else if turns_on(link.query, "allowInsecure"@) || turns_on(
                link.query,
                "insecure"@,
            ) {
                refused(Rejection::UrlParseError)
            } else if security != "tls"@ && security != "reality"@ && security != "none"@ {
                refused(Rejection::UnknownSecurity(security))
            } else if network != "tcp"@ && network != "ws"@ && network != "grpc"@ && network
                != "h2"@ && network != "xhttp"@ && network != "httpupgrade"@ {
                refused(Rejection::UnknownNetwork(network))
            } else if security == "reality"@ && leaves_out(tidied(link.query), "pbk"@) {
                refused(Rejection::MissingRealityPbk)
            } else {
                checked(link) is Ok
            }
        }),
{
    let pairs = tidied(link.query);
    assert(pairs =~= trimmed_pairs(link.query));
    lemma_asks(link, security, network);
    law_gathered(pairs, "allowInsecure"@, "true"@);
    law_gathered(pairs, "allowInsecure"@, "1"@);
    law_gathered(pairs, "insecure"@, "true"@);
    law_gathered(pairs, "insecure"@, "1"@);
    law_gathered(pairs, "pbk"@, "1"@);
    reveal_strlit("type");
    reveal_strlit("pbk");
    assert("type"@.len() != "pbk"@.len());
    assert(node_params(link).contains_key("pbk"@) == gathered(pairs).contains_key("pbk"@));
}

/// Every query asks for a security layer and a transport.
pub proof fn law_something_is_asked(query: Seq<(Seq<char>, Seq<char>)>)
    ensures
        exists|security: Seq<char>| asks_security(query, security),
        exists|network: Seq<char>| asks_network(query, network),
{
    let pairs = tidied(query);
    let m = gathered(pairs);
    law_gathered(pairs, "security"@, m["security"@]);
    law_gathered(pairs, "type"@, m["type"@]);
    if leaves_out(pairs, "security"@) || m["security"@].len() == 0 {
        assert(asks_security(query, "none"@));
    } else {
        assert(asks_security(query, m["security"@]));
    }
    if leaves_out(pairs, "type"@) || m["type"@] == "raw"@ {
        assert(asks_network(query, "tcp"@));
    } else {
        assert(asks_network(query, m["type"@]));
    }
}

/// A text is checked as the link that it is when escaped ampersands are read and outer white space
/// is removed, and refused where that is no link.
pub proof fn law_text_is_checked_as_link(uri: Seq<char>)
    ensures
        validated(uri) == match parsed_link(trimmed(replaced(uri, "&amp;"@, "&"@))) {
            Some(link) => checked(link),
            None => Err(Rejection::UrlParseError),
        },
{
}

/// White space around a link does not matter, and a link without a semicolon is checked as it is.
pub proof fn law_white_space_does_not_count(before: Seq<char>, uri: Seq<char>, after: Seq<char>)
    requires
        forall|i: int| 0 <= i < before.len() ==> white_space(#[trigger] before[i]),
        forall|i: int| 0 <= i < after.len() ==> white_space(#[trigger] after[i]),
        forall|i: int| 0 <= i < uri.len() ==> (#[trigger] uri[i]) != ';',
        uri.len() > 0 ==> !white_space(uri[0]) && !white_space(uri[uri.len() - 1]),
    ensures
        validated(before + uri + after) == validated(uri),
        parsed_link(uri) matches Some(link) ==> validated(uri) == checked(link),
{
    reveal_strlit("&amp;");
    assert("&amp;"@[4] == ';');
    let all = before + uri + after;
    assert forall|i: int| 0 <= i < all.len() implies (#[trigger] all[i]) != ';' by {
        if i < before.len() {
            assert(white_space(before[i]));
        } else if i < before.len() + uri.len() {
            assert(all[i] == uri[i - before.len()]);
        } else {
            assert(white_space(after[i - before.len() - uri.len()]));
        }
    }
    lemma_replaced_same(all, "&amp;"@, "&"@, 4);
    lemma_replaced_same(uri, "&amp;"@, "&"@, 4);
    lemma_trimmed_core(before, uri, after);
    lemma_trimmed_core(Seq::empty(), uri, Seq::empty());
    assert(Seq::<char>::empty() + uri + Seq::<char>::empty() =~= uri);
}

/// An escaped ampersand is an ampersand.
pub proof fn law_escaped_ampersand(a: Seq<char>, b: Seq<char>)
    requires
        forall|i: int| 0 <= i < a.len() ==> (#[trigger] a[i]) != ';',
        forall|i: int| 0 <= i < b.len() ==> (#[trigger] b[i]) != ';',
    ensures
        validated(a + "&amp;"@ + b) == validated(a + "&"@ + b),
{
    reveal_strlit("&amp;");
    reveal_strlit("&");
    let from = "&amp;"@;
    let s = a + from + b;
    let t = a + "&"@ + b;
    assert(from[4] == ';' && from[0] == '&' && from.len() == 5);
    assert forall|k: int| 0 <= k < a.len() implies #[trigger] s.subrange(k, k + from.len())
        != from by {
        if s.subrange(k, k + from.len()) == from {
            assert(s.subrange(k, k + from.len())[4] == s[k + 4]);
            if k + 4 >= a.len() {
                let back = a.len() - k;
                assert(s.subrange(k, k + from.len())[back] == s[k + back]);
                assert(from[1] != '&' && from[2] != '&' && from[3] != '&');
                assert(s[k + back] == '&');
            }
        }
    }
    law_replaced(a, from, b, "&"@);
    lemma_replaced_same(b, from, "&"@, 4);
    lemma_replaced_same(t, from, "&"@, 4);
}

/// A report names the rejection and what was not known.
pub proof fn law_report(s: Seq<char>, line: Seq<char>, rejection: Rejection)
    ensures
        report_of(Rejection::UnknownSecurity(s)) == "UNKNOWN_SECURITY("@ + s + ")"@,
        report_of(Rejection::UnknownNetwork(s)) == "UNKNOWN_NETWORK("@ + s + ")"@,
        notice_of(rejection, line) == "REJECTED ["@ + report_of(rejection) + "]: "@ + before_first(
            line,
            '#',
        ),
{
}

} // verus!
