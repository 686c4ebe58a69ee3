//! Checks links: which are usable VLESS nodes, and how such a node is written.
use vstd::prelude::*;
use vstd::utf8::encode_utf8;

use crate::link::{fingerprint_of, opt_text, parse_link, parsed_link, LinkParts, LinkView};
use crate::node::{assignments, key_char, link_text, node_text, plain_char, plain_node};
use crate::node::{lemma_head, lemma_link_text_lacks, lemma_reads_back};
use crate::node::{plain_pair, plain_parts, plain_query, plain_text, reads_back, value_char};
use crate::node::TEXT_LIMIT;
use crate::params::{gathered, lemma_listing_of_gathered, listing, pair_texts, sorted, value_of};
use crate::params::{lemma_listing_from, Params};
use crate::text::{before_first, replaced, stands_at, texts, trimmed};
use crate::text::{lemma_replaced_same, lemma_trimmed_ends, lemma_trimmed_same, white_space};
use crate::text::{join, replace_text, same_text, split_first, to_decimal, trim};

verus! {

/// Why a link is no usable node.
#[derive(Debug, PartialEq, Eq)]
pub enum NodeRejection {
    /// The user is too short for an identifier.
    ShortUuid,
    /// The link names no host.
    EmptyHost,
    /// A security layer that is not known.
    UnknownSecurity(String),
    /// A transport that is not known.
    UnknownNetwork(String),
    /// A Reality node without a public key.
    MissingRealityPbk,
    /// No link at all, a link of another scheme, or one that turns certificate checks off.
    UrlParseError,
}

/// What a `NodeRejection` says.
pub enum Rejection {
    ShortUuid,
    EmptyHost,
    UnknownSecurity(Seq<char>),
    UnknownNetwork(Seq<char>),
    MissingRealityPbk,
    UrlParseError,
}

impl View for NodeRejection {
    type V = Rejection;

    open spec fn view(&self) -> Rejection {
        match self {
            NodeRejection::ShortUuid => Rejection::ShortUuid,
            NodeRejection::EmptyHost => Rejection::EmptyHost,
            NodeRejection::UnknownSecurity(s) => Rejection::UnknownSecurity(s@),
            NodeRejection::UnknownNetwork(n) => Rejection::UnknownNetwork(n@),
            NodeRejection::MissingRealityPbk => Rejection::MissingRealityPbk,
            NodeRejection::UrlParseError => Rejection::UrlParseError,
        }
    }
}

/// How a rejection is reported.
pub open spec fn report_of(rejection: Rejection) -> Seq<char> {
    match rejection {
        Rejection::ShortUuid => "UUID_TOO_SHORT"@,
        Rejection::EmptyHost => "EMPTY_HOST"@,
        Rejection::UnknownSecurity(s) => "UNKNOWN_SECURITY("@ + s + ")"@,
        Rejection::UnknownNetwork(n) => "UNKNOWN_NETWORK("@ + n + ")"@,
        Rejection::MissingRealityPbk => "REALITY_MISSING_PBK"@,
        Rejection::UrlParseError => "URL_PARSE_ERROR"@,
    }
}

impl NodeRejection {
    /// The rejection as a report names it.
    pub fn to_report(&self) -> (report: String)
        ensures
            report@ == report_of(self@),
    {
        match self {
            NodeRejection::ShortUuid => "UUID_TOO_SHORT".to_owned(),
            NodeRejection::EmptyHost => "EMPTY_HOST".to_owned(),
            NodeRejection::UnknownSecurity(s) => {
                "UNKNOWN_SECURITY(".to_owned().concat(s.as_str()).concat(")")
            },
            NodeRejection::UnknownNetwork(n) => {
                "UNKNOWN_NETWORK(".to_owned().concat(n.as_str()).concat(")")
            },
            NodeRejection::MissingRealityPbk => "REALITY_MISSING_PBK".to_owned(),
            NodeRejection::UrlParseError => "URL_PARSE_ERROR".to_owned(),
        }
    }
}

/// What is said of a link that is no usable node: why, and the link without its name.
pub open spec fn notice_of(rejection: Rejection, line: Seq<char>) -> Seq<char> {
    "REJECTED ["@ + report_of(rejection) + "]: "@ + before_first(line, '#')
}

/// Says why a link is no usable node.
pub fn rejection_notice(reason: &NodeRejection, line: &str) -> (notice: String)
    ensures
        notice@ == notice_of(reason@, line@),
{
    let (raw_uri, _) = split_first(line, '#');
    "REJECTED [".to_owned().concat(reason.to_report().as_str()).concat("]: ").concat(
        raw_uri.as_str(),
    )
}

/// The outcome of a check, as texts.
pub open spec fn verdict(outcome: Result<String, NodeRejection>) -> Result<Seq<char>, Rejection> {
    match outcome {
        Ok(node) => Ok(node@),
        Err(rejection) => Err(rejection@),
    }
}

/// The shortest user, in bytes, that can be an identifier.
pub const MIN_ID_BYTES: usize = 30;

/// The port of a node that names none.
pub const DEFAULT_PORT: u16 = 443;

/// The pairs with the white space at the ends of keys and values removed.
pub open spec fn trimmed_pairs(pairs: Seq<(Seq<char>, Seq<char>)>) -> Seq<
    (Seq<char>, Seq<char>),
> {
    Seq::new(pairs.len(), |i: int| (trimmed(pairs[i].0), trimmed(pairs[i].1)))
}

/// Whether `key` is switched on.
pub open spec fn switched_on(m: Map<Seq<char>, Seq<char>>, key: Seq<char>) -> bool {
    value_of(m, key) == Some("true"@) || value_of(m, key) == Some("1"@)
}

/// Whether a node asks its client not to check certificates.
pub open spec fn insecure(m: Map<Seq<char>, Seq<char>>) -> bool {
    switched_on(m, "allowInsecure"@) || switched_on(m, "insecure"@)
}

/// The parameters with the transport `raw` under its usual name.
pub open spec fn with_usual_transport(m: Map<Seq<char>, Seq<char>>) -> Map<Seq<char>, Seq<char>> {
    if value_of(m, "type"@) == Some("raw"@) {
        m.insert("type"@, "tcp"@)
    } else {
        m
    }
}

/// The security layer of a node.
pub open spec fn security_of(m: Map<Seq<char>, Seq<char>>) -> Seq<char> {
    match value_of(m, "security"@) {
        Some(s) => if s.len() > 0 {
            s
        } else {
            "none"@
        },
        None => "none"@,
    }
}

/// The transport of a node.
pub open spec fn network_of(m: Map<Seq<char>, Seq<char>>) -> Seq<char> {
    match value_of(m, "type"@) {
        Some(n) => n,
        None => "tcp"@,
    }
}

/// The security layers that a node may have.
pub open spec fn known_security(s: Seq<char>) -> bool {
    s == "tls"@ || s == "reality"@ || s == "none"@
}

/// The transports that a node may have.
pub open spec fn known_network(n: Seq<char>) -> bool {
    n == "tcp"@ || n == "ws"@ || n == "grpc"@ || n == "h2"@ || n == "xhttp"@ || n
        == "httpupgrade"@
}

/// The port of a link.
pub open spec fn port_of(port: Option<u16>) -> u16 {
    match port {
        Some(port) => port,
        None => DEFAULT_PORT,
    }
}

/// The parameters of a link, as a node has them.
pub open spec fn node_params(link: LinkView) -> Map<Seq<char>, Seq<char>> {
    with_usual_transport(gathered(trimmed_pairs(link.query)))
}

/// What the check says of a link.
pub open spec fn checked(link: LinkView) -> Result<Seq<char>, Rejection> {
    let params = node_params(link);
    let security = security_of(params);
    let network = network_of(params);
    if link.scheme != "vless"@ {
        Err(Rejection::UrlParseError)
    } else if encode_utf8(link.username).len() < MIN_ID_BYTES {
        Err(Rejection::ShortUuid)
    } else if link.host is None {
        Err(Rejection::EmptyHost)
    } else if insecure(gathered(trimmed_pairs(link.query))) {
        Err(Rejection::UrlParseError)
    } else if !known_security(security) {
        Err(Rejection::UnknownSecurity(security))
    } else if !known_network(network) {
        Err(Rejection::UnknownNetwork(network))
    } else if security == "reality"@ && !params.contains_key("pbk"@) {
        Err(Rejection::MissingRealityPbk)
    } else {
        Ok(
            node_text(
                link.username,
                link.host->0,
                port_of(link.port),
                listing(params),
                link.fragment,
            ),
        )
    }
}

/// The link in a text: HTML-escaped ampersands read, and outer white space removed.
pub open spec fn sanitized(uri: Seq<char>) -> Seq<char> {
    trimmed(replaced(uri, "&amp;"@, "&"@))
}

/// What the check says of a text, given what it is as a URL.
pub open spec fn checked_link(link: Option<LinkView>) -> Result<Seq<char>, Rejection> {
    match link {
        Some(link) => checked(link),
        None => Err(Rejection::UrlParseError),
    }
}

/// What the check says of a text.
pub open spec fn validated(uri: Seq<char>) -> Result<Seq<char>, Rejection> {
    checked_link(parsed_link(sanitized(uri)))
}

/// Whether `key` is switched on.
fn is_switched_on(params: &Params, key: &str) -> (on: bool)
    ensures
        on == switched_on(params@, key@),
{
    match params.get(key) {
        Some(v) => same_text(v, "true") || same_text(v, "1"),
        None => false,
    }
}

/// Writes the pairs as `key=value`.
fn write_assignments(pairs: &Vec<(String, String)>) -> (parts: Vec<String>)
    ensures
        texts(parts@) == assignments(pair_texts(pairs@)),
{
    let mut parts: Vec<String> = Vec::new();
    let mut i: usize = 0;
    while i < pairs.len()
        invariant
            i <= pairs.len(),
            parts@.len() == i,
            forall|j: int|
                0 <= j < i ==> (#[trigger] parts@[j])@ == pairs@[j].0@ + "="@ + pairs@[j].1@,
        decreases pairs.len() - i,
    {
        let part = pairs[i].0.clone().concat("=").concat(pairs[i].1.as_str());
        parts.push(part);
        i += 1;
    }
    assert(texts(parts@) =~= assignments(pair_texts(pairs@)));
    parts
}

/// Writes a node.
fn write_node(
    id: &str,
    host: &str,
    port: u16,
    pairs: &Vec<(String, String)>,
    fragment: &Option<String>,
) -> (node: String)
    ensures
        node@ == node_text(id@, host@, port, pair_texts(pairs@), opt_text(*fragment)),
{
    let number = to_decimal(port as u128);
    let mut node = "vless://".to_owned().concat(id).concat("@").concat(host).concat(":").concat(
        number.as_str(),
    );
    if pairs.len() > 0 {
        let query = join(&write_assignments(pairs), "&");
        node = node.concat("?").concat(query.as_str());
    }
    match fragment {
        Some(fragment) => node.concat("#").concat(fragment.as_str()),
        None => node,
    }
}

/// Removes the white space at the ends of keys and values.
fn trim_pairs(pairs: &Vec<(String, String)>) -> (out: Vec<(String, String)>)
    ensures
        pair_texts(out@) == trimmed_pairs(pair_texts(pairs@)),
{
    let mut out: Vec<(String, String)> = Vec::new();
    let mut i: usize = 0;
    while i < pairs.len()
        invariant
            i <= pairs.len(),
            out@.len() == i,
            forall|j: int|
                0 <= j < i ==> (#[trigger] out@[j]).0@ == trimmed(pairs@[j].0@) && out@[j].1@
                    == trimmed(pairs@[j].1@),
        decreases pairs.len() - i,
    {
        out.push((trim(pairs[i].0.as_str()), trim(pairs[i].1.as_str())));
        i += 1;
    }
    assert(pair_texts(out@) =~= trimmed_pairs(pair_texts(pairs@)));
    out
}

/// Whether the security layer is known.
fn is_known_security(s: &str) -> (known: bool)
    ensures
        known == known_security(s@),
{
    same_text(s, "tls") || same_text(s, "reality") || same_text(s, "none")
}

/// Whether the transport is known.
fn is_known_network(n: &str) -> (known: bool)
    ensures
        known == known_network(n@),
{
    same_text(n, "tcp") || same_text(n, "ws") || same_text(n, "grpc") || same_text(n, "h2")
        || same_text(n, "xhttp") || same_text(n, "httpupgrade")
}

/// Checks a parsed link and writes it as a node: the parameters in the order of their keys, the
/// port spelled out.
pub fn check_link(link: &LinkParts) -> (outcome: Result<String, NodeRejection>)
    ensures
        verdict(outcome) == checked(link@),
{
    if !same_text(link.scheme.as_str(), "vless") {
        return Err(NodeRejection::UrlParseError);
    }
    if link.username.as_str().as_bytes().len() < MIN_ID_BYTES {
        return Err(NodeRejection::ShortUuid);
    }
    let host = match &link.host {
        Some(host) => host,
        None => {
            return Err(NodeRejection::EmptyHost);
        },
    };
    let mut params = Params::gather(&trim_pairs(&link.query));
    if is_switched_on(&params, "allowInsecure") || is_switched_on(&params, "insecure") {
        return Err(NodeRejection::UrlParseError);
    }
    let raw = match params.get("type") {
        Some(n) => same_text(n, "raw"),
        None => false,
    };
    if raw {
        params.set("type", "tcp");
    }
    assert(params@ == node_params(link@));
    let security = match params.get("security") {
        Some(s) => if s.is_empty() {
            "none"
        } else {
            s
        },
        None => "none",
    };
    if !is_known_security(security) {
        return Err(NodeRejection::UnknownSecurity(security.to_owned()));
    }
    let network = match params.get("type") {
        Some(n) => n,
        None => "tcp",
    };
    if !is_known_network(network) {
        return Err(NodeRejection::UnknownNetwork(network.to_owned()));
    }
    if same_text(security, "reality") && params.get("pbk").is_none() {
        return Err(NodeRejection::MissingRealityPbk);
    }
    let port: u16 = match link.port {
        Some(port) => port,
        None => DEFAULT_PORT,
    };
    Ok(
        write_node(
            link.username.as_str(),
            host.as_str(),
            port,
            params.entries(),
            &link.fragment,
        ),
    )
}

/// Checks a text and writes the node that it links to. Where the text is an ordinary one, the
/// node is accepted again, and written as it is.
pub fn validate_vless_node(uri: &str) -> (outcome: Result<String, NodeRejection>)
    ensures
        verdict(outcome) == validated(uri@),
        plain_text(uri@) ==> match outcome {
            Ok(node) => node@.len() < TEXT_LIMIT ==> validated(node@) == Ok::<
                Seq<char>,
                Rejection,
            >(node@),
            Err(_) => true,
        },
{
    proof {
        reveal_strlit("&amp;");
    }
    let sanitized_uri = trim(replace_text(uri, "&amp;", "&").as_str());
    match parse_link(sanitized_uri.as_str()) {
        Some(link) => {
            let outcome = check_link(&link);
            proof {
                if plain_text(uri@) {
                    lemma_plain_sanitized(uri@);
                    if checked(link@) is Ok && checked(link@)->Ok_0.len() < TEXT_LIMIT {
                        law_plain_node_reads_back(link@);
                    }
                }
            }
            outcome
        },
        None => Err(NodeRejection::UrlParseError),
    }
}

/// A link is accepted exactly where it is a VLESS link with an identifier and a host that leaves
/// certificate checks on, names a known security layer and a known transport, and, for Reality,
/// a public key; what it is then written as begins with the scheme.
pub proof fn law_accepted(link: LinkView)
    ensures
        checked(link) is Ok <==> {
            &&& link.scheme == "vless"@
            &&& encode_utf8(link.username).len() >= MIN_ID_BYTES
            &&& link.host is Some
            &&& !insecure(node_params(link))
            &&& known_security(security_of(node_params(link)))
            &&& known_network(network_of(node_params(link)))
            &&& security_of(node_params(link)) == "reality"@ ==> node_params(link).contains_key(
                "pbk"@,
            )
        },
        checked(link) matches Ok(node) ==> stands_at(node, "vless://"@, 0),
{
    let m = gathered(trimmed_pairs(link.query));
    reveal_strlit("type");
    reveal_strlit("allowInsecure");
    reveal_strlit("insecure");
    assert("type"@.len() == 4 && "allowInsecure"@.len() == 13 && "insecure"@.len() == 8);
    assert(insecure(m) == insecure(node_params(link)));
    if let Ok(node) = checked(link) {
        let tail = node.skip("vless://"@.len() as int);
        assert(node.subrange(0, "vless://"@.len() as int) =~= "vless://"@);
    }
}

/// A node lists its parameters in the order of their keys, each key once, with the value that
/// the link gives it last.
pub proof fn law_parameters_in_order(link: LinkView)
    ensures
        sorted(listing(node_params(link))),
        gathered(listing(node_params(link))) == node_params(link),
{
    let pairs = trimmed_pairs(link.query);
    if value_of(gathered(pairs), "type"@) == Some("raw"@) {
        let more = pairs.push(("type"@, "tcp"@));
        assert(more.drop_last() =~= pairs);
        lemma_listing_of_gathered(more);
    } else {
        lemma_listing_of_gathered(pairs);
    }
}

/// Links that differ only in how their queries give the same parameters are one node.
pub proof fn law_query_order_is_free(a: LinkView, b: LinkView)
    requires
        a == (LinkView { query: a.query, ..b }),
        gathered(trimmed_pairs(a.query)) == gathered(trimmed_pairs(b.query)),
    ensures
        checked(a) == checked(b),
{
}

/// A node never carries the transport under the name `raw`.
pub proof fn law_no_raw_transport(link: LinkView)
    ensures
        value_of(node_params(link), "type"@) != Some("raw"@),
{
    reveal_strlit("raw");
    reveal_strlit("tcp");
    assert("raw"@[0] != "tcp"@[0]);
}

/// The link that an accepted link is written as: its parameters in order, its port spelled out.
pub open spec fn normal_form(link: LinkView) -> LinkView {
    LinkView { port: Some(port_of(link.port)), query: listing(node_params(link)), ..link }
}

/// The pairs that give a node its parameters.
spec fn node_pairs(link: LinkView) -> Seq<(Seq<char>, Seq<char>)> {
    let pairs = trimmed_pairs(link.query);
    if value_of(gathered(pairs), "type"@) == Some("raw"@) {
        pairs.push(("type"@, "tcp"@))
    } else {
        pairs
    }
}

/// The parameters of a node are gathered from its pairs.
proof fn lemma_node_pairs(link: LinkView)
    ensures
        gathered(node_pairs(link)) == node_params(link),
{
    let pairs = trimmed_pairs(link.query);
    assert(pairs.push(("type"@, "tcp"@)).drop_last() =~= pairs);
}

/// The words for the usual transport have no white space at their ends.
proof fn lemma_transport_words()
    ensures
        trimmed("type"@) == "type"@,
        trimmed("tcp"@) == "tcp"@,
        plain_pair(("type"@, "tcp"@)),
{
    reveal_strlit("type");
    reveal_strlit("tcp");
    lemma_trimmed_same("type"@);
    lemma_trimmed_same("tcp"@);
}

/// The listed parameters have no white space at their ends.
proof fn lemma_listed_trimmed(link: LinkView)
    ensures
        trimmed_pairs(listing(node_params(link))) == listing(node_params(link)),
{
    let list = listing(node_params(link));
    let pairs = node_pairs(link);
    lemma_node_pairs(link);
    assert forall|i: int| 0 <= i < list.len() implies trimmed_pairs(list)[i] == list[i] by {
        lemma_listing_from(pairs, i);
        let k = choose|k: int| 0 <= k < pairs.len() && pairs[k] == list[i];
        if k < link.query.len() {
            lemma_trimmed_ends(link.query[k].0);
            lemma_trimmed_ends(link.query[k].1);
            lemma_trimmed_same(list[i].0);
            lemma_trimmed_same(list[i].1);
        } else {
            lemma_transport_words();
        }
    }
    assert(trimmed_pairs(list) =~= list);
}

/// A node that was accepted and written is its own normal form: checked again, it is accepted and
/// written as it is.
pub proof fn law_node_is_its_own_normal_form(link: LinkView)
    requires
        checked(link) is Ok,
    ensures
        checked(normal_form(link)) == checked(link),
{
    let again = normal_form(link);
    let params = node_params(link);
    law_accepted(link);
    law_parameters_in_order(link);
    law_no_raw_transport(link);
    lemma_listed_trimmed(link);
    assert(gathered(trimmed_pairs(again.query)) == params);
    assert(node_params(again) == params);
}

/// The parameters of a link with ordinary ones are ordinary.
proof fn lemma_listed_plain(link: LinkView)
    requires
        plain_query(link.query),
    ensures
        plain_query(listing(node_params(link))),
{
    let list = listing(node_params(link));
    let pairs = node_pairs(link);
    lemma_node_pairs(link);
    lemma_transport_words();
    assert forall|i: int| 0 <= i < list.len() implies plain_pair(#[trigger] list[i]) by {
        lemma_listing_from(pairs, i);
        let k = choose|k: int| 0 <= k < pairs.len() && pairs[k] == list[i];
        if k < link.query.len() {
            let pair = link.query[k];
            assert(plain_pair(pair));
            if pair.0.len() > 0 {
                assert(key_char(pair.0[0]) && key_char(pair.0[pair.0.len() - 1]));
            }
            if pair.1.len() > 0 {
                assert(value_char(pair.1[0]) && value_char(pair.1[pair.1.len() - 1]));
            }
            lemma_trimmed_same(pair.0);
            lemma_trimmed_same(pair.1);
        }
    }
}

/// An ordinary text is read as it is.
proof fn lemma_plain_sanitized(uri: Seq<char>)
    requires
        plain_text(uri),
    ensures
        sanitized(uri) == uri,
{
    reveal_strlit("&amp;");
    assert("&amp;"@[4] == ';');
    lemma_replaced_same(uri, "&amp;"@, "&"@, 4);
    if uri.len() > 0 {
        assert(plain_char(uri[0]) && plain_char(uri[uri.len() - 1]));
    }
    lemma_trimmed_same(uri);
}

/// The normal form of an accepted link of ordinary parts is what its node is written from.
proof fn lemma_normal_form_reads_back(link: LinkView)
    requires
        plain_parts(link),
        checked(link) is Ok,
        checked(link)->Ok_0.len() < TEXT_LIMIT,
    ensures
        reads_back(normal_form(link)),
        link_text(normal_form(link)) == checked(link)->Ok_0,
{
    lemma_listed_plain(link);
    assert(encode_utf8(Seq::<char>::empty()).len() == 0);
    assert(link.username.len() > 0) by {
        if link.username.len() == 0 {
            assert(link.username =~= Seq::<char>::empty());
        }
    }
    assert(link_text(normal_form(link)) == checked(link)->Ok_0);
}

/// An accepted link of ordinary parts, written as a node, reads back in its normal form, and is
/// accepted again and written as it is.
pub proof fn law_plain_node_reads_back(link: LinkView)
    requires
        plain_parts(link),
        checked(link) is Ok,
        checked(link)->Ok_0.len() < TEXT_LIMIT,
    ensures
        parsed_link(checked(link)->Ok_0) == Some(normal_form(link)),
        validated(checked(link)->Ok_0) == checked(link),
{
    let node = checked(link)->Ok_0;
    let again = normal_form(link);
    law_node_is_its_own_normal_form(link);
    lemma_normal_form_reads_back(link);
    lemma_reads_back(again, plain_node(node));
    reveal_strlit("&amp;");
    assert("&amp;"@[4] == ';');
    lemma_link_text_lacks(again, ';');
    lemma_replaced_same(node, "&amp;"@, "&"@, 4);
    if node.len() > 0 {
        if white_space(node[0]) {
            lemma_link_text_lacks(again, node[0]);
        }
        if white_space(node[node.len() - 1]) {
            lemma_link_text_lacks(again, node[node.len() - 1]);
        }
    }
    lemma_trimmed_same(node);
}

/// What identifies an accepted link of ordinary parts is what is written of it before its name.
pub proof fn law_plain_node_is_its_own_fingerprint(link: LinkView)
    requires
        plain_parts(link),
        checked(link) is Ok,
        checked(link)->Ok_0.len() < TEXT_LIMIT,
    ensures
        fingerprint_of(checked(link)->Ok_0) == Some(before_first(checked(link)->Ok_0, '#')),
{
    let node = checked(link)->Ok_0;
    let again = normal_form(link);
    lemma_normal_form_reads_back(link);
    lemma_head(again);
}

} // verus!
