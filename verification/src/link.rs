//! Links: the parts of a URL that the rest of the library reads.
use url::Url;
use vstd::prelude::*;

use crate::node::{is_plain_node, plain_node, plain_parts, plain_text};
use crate::params::pair_texts;
use crate::text::{after_first, before_first, stands_at};

verus! {

/// A parsed URL, as plain values.
#[derive(Debug)]
pub struct LinkParts {
    /// The scheme, such as `vless`.
    pub scheme: String,
    /// The user, empty where the URL names none.
    pub username: String,
    /// The host, where there is one.
    pub host: Option<String>,
    /// The port, where the URL gives one.
    pub port: Option<u16>,
    /// The decoded key and value of each item of the query, in order.
    pub query: Vec<(String, String)>,
    /// What stands after `#`, as it is written.
    pub fragment: Option<String>,
}

/// What a `LinkParts` holds.
pub struct LinkView {
    pub scheme: Seq<char>,
    pub username: Seq<char>,
    pub host: Option<Seq<char>>,
    pub port: Option<u16>,
    pub query: Seq<(Seq<char>, Seq<char>)>,
    pub fragment: Option<Seq<char>>,
}

/// The text in an optional string.
pub open spec fn opt_text(s: Option<String>) -> Option<Seq<char>> {
    match s {
        Some(s) => Some(s@),
        None => None,
    }
}

impl View for LinkParts {
    type V = LinkView;

    open spec fn view(&self) -> LinkView {
        LinkView {
            scheme: self.scheme@,
            username: self.username@,
            host: opt_text(self.host),
            port: self.port,
            query: pair_texts(self.query@),
            fragment: opt_text(self.fragment),
        }
    }
}

/// The view of an optional link.
pub open spec fn opt_link(link: Option<LinkParts>) -> Option<LinkView> {
    match link {
        Some(link) => Some(link@),
        None => None,
    }
}

/// What a text that is not an ordinary node is as a URL; `None` where it is none.
pub uninterp spec fn url_parts(text: Seq<char>) -> Option<LinkView>;

/// What a text is as a URL; `None` where it is none. An ordinary node reads as it was written.
pub open spec fn parsed_link(text: Seq<char>) -> Option<LinkView> {
    if is_plain_node(text) {
        Some(plain_node(text))
    } else {
        url_parts(text)
    }
}

/// Calls `url::Url::parse` and reads the parts of the URL off the result with its getters:
/// `scheme`, `username`, `host_str`, `port`, `query_pairs` and `fragment`. All of them depend
/// on the text alone. A node of ordinary parts has no character that the parser encodes, decodes
/// or trims, so that it reads back the parts that it was written from. In a VLESS link of ordinary
/// characters all parts are ordinary: only the user can hold encoded ones, for `=` and `@`. What
/// else it makes of a text is named and not stated.
#[verifier::external_body]
pub(crate) fn parse_link(text: &str) -> (link: Option<LinkParts>)
    ensures
        opt_link(link) == if is_plain_node(text@) {
            Some(plain_node(text@))
        } else {
            url_parts(text@)
        },
        plain_text(text@) ==> match link {
            Some(link) => link.scheme@ == "vless"@ ==> plain_parts(link@),
            None => true,
        },
{
    let url = Url::parse(text).ok()?;
    Some(LinkParts {
        scheme: url.scheme().to_string(),
        username: url.username().to_string(),
        host: url.host_str().map(str::to_string),
        port: url.port(),
        query: url.query_pairs().into_owned().collect(),
        fragment: url.fragment().map(str::to_string),
    })
}

/// Whether the part of a link before its fragment reads the same with and without one: a VLESS
/// link whose user does not begin with `@` or with what is skipped, that ends in no white space or
/// control character, and that is short enough for offsets of 32 bits when each character takes
/// twelve bytes.
pub open spec fn plain_head(head: Seq<char>) -> bool {
    let scheme = "vless://"@;
    &&& stands_at(head, scheme, 0)
    &&& scheme.len() < head.len() < 0x1000_0000
    &&& head[scheme.len() as int] != '@'
    &&& head[scheme.len() as int] > ' '
    &&& head.last() > ' '
}

/// A URL in its normal form without its fragment, given what stands before the first `#` and
/// whether what follows has to be told apart from the end; `None` where the text is no URL.
pub uninterp spec fn bare_link(head: Seq<char>, marked: bool) -> Option<Seq<char>>;

/// What identifies a link: its normal form without its fragment.
pub open spec fn fingerprint_of(text: Seq<char>) -> Option<Seq<char>> {
    let head = before_first(text, '#');
    if is_plain_node(head) {
        Some(head)
    } else {
        bare_link(head, after_first(text, '#') is Some || plain_head(head))
    }
}

/// Calls `url::Url::parse`, `set_fragment(None)` on the result, and takes its text. The parser
/// starts the fragment at the first `#` and never looks back from it, so that the outcome
/// depends only on what stands before it. An ordinary node is in its normal form there. Of a plain
/// head it makes the same whether a fragment
/// follows or not; another may end in characters that are trimmed only at the end of a text, or
/// hold an empty user that is refused only before a `#`. It fails exactly where the text is no
/// URL.
#[verifier::external_body]
pub(crate) fn fingerprint(text: &str) -> (bare: Option<String>)
    ensures
        opt_text(bare) == if is_plain_node(before_first(text@, '#')) {
            Some(before_first(text@, '#'))
        } else {
            bare_link(
                before_first(text@, '#'),
                after_first(text@, '#') is Some || plain_head(before_first(text@, '#')),
            )
        },
        bare is Some <==> parsed_link(text@) is Some,
{
    let mut url = Url::parse(text).ok()?;
    url.set_fragment(None);
    Some(url.to_string())
}

} // verus!
