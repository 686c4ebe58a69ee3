//! What a configuration holds, field by field, in terms of the link that it is made for.
use vstd::prelude::*;

use crate::config_builder::{link_config, path_of, server_name, value_or};
use crate::encoding::percent_decoded;
use crate::json::Json;
use crate::link::LinkView;
use crate::params::gathered;
use crate::query::{gives, gives_or, law_gathered, leaves_out};

verus! {

/// The value of a key in a document.
pub open spec fn at(document: Option<Json>, key: Seq<char>) -> Option<Json> {
    match document {
        Some(Json::Object(fields)) => if fields.contains_key(key) {
            Some(fields[key])
        } else {
            None
        },
        _ => None,
    }
}

/// The item at `i` in a list of `n`.
pub open spec fn item(document: Option<Json>, i: int, n: nat) -> Option<Json> {
    match document {
        Some(Json::List(items)) => if items.len() == n {
            Some(items[i])
        } else {
            None
        },
        _ => None,
    }
}

/// A text in a document.
pub open spec fn says(text: Seq<char>) -> Option<Json> {
    Some(Json::Text(text))
}

/// A number in a document.
pub open spec fn counts(number: nat) -> Option<Json> {
    Some(Json::Number(number))
}

/// A flag in a document.
pub open spec fn flags(flag: bool) -> Option<Json> {
    Some(Json::Bool(flag))
}

/// Whether an object has these fields and no others.
pub open spec fn has_fields(document: Option<Json>, keys: Set<Seq<char>>) -> bool {
    match document {
        Some(Json::Object(fields)) => fields.dom() == keys,
        _ => false,
    }
}

/// The way out through the node.
pub open spec fn way_out(link: LinkView, listen_port: u16) -> Option<Json> {
    item(at(Some(link_config(link, listen_port)), "outbounds"@), 0, 2)
}

/// The transport layer of the way out.
pub open spec fn transport(link: LinkView, listen_port: u16) -> Option<Json> {
    at(way_out(link, listen_port), "streamSettings"@)
}

/// The server of the way out.
pub open spec fn server(link: LinkView, listen_port: u16) -> Option<Json> {
    item(at(at(way_out(link, listen_port), "settings"@), "vnext"@), 0, 1)
}

/// The host that a link names, or what stands for none.
pub open spec fn named_host(link: LinkView) -> Seq<char> {
    match link.host {
        Some(host) => host,
        None => "0.0.0.0"@,
    }
}

/// The words of a whole configuration are told apart.
proof fn lemma_outline_words()
    ensures
        "log"@.len() == 3 && "log"@[0] == 'l',
        "dns"@.len() == 3 && "dns"@[0] == 'd',
        "inbounds"@.len() == 8,
        "outbounds"@.len() == 9,
        "routing"@.len() == 7,
        "tag"@.len() == 3 && "tag"@[0] == 't',
        "protocol"@.len() == 8 && "protocol"@[0] == 'p',
        "settings"@.len() == 8 && "settings"@[0] == 's' && "settings"@[1] == 'e',
        "streamSettings"@.len() == 14,
        "mux"@.len() == 3 && "mux"@[0] == 'm',
        "listen"@.len() == 6,
        "port"@.len() == 4 && "port"@[0] == 'p',
        "sniffing"@.len() == 8 && "sniffing"@[0] == 's' && "sniffing"@[1] == 'n',
        "auth"@.len() == 4,
        "udp"@.len() == 3,
        "enabled"@.len() == 7 && "enabled"@[0] == 'e',
        "destOverride"@.len() == 12,
        "servers"@.len() == 7 && "servers"@[0] == 's',
        "queryStrategy"@.len() == 13,
        "domainStrategy"@.len() == 14,
        "rules"@.len() == 5,
        "type"@.len() == 4 && "type"@[0] == 't',
        "outboundTag"@.len() == 11,
        "network"@.len() == 7 && "network"@[0] == 'n',
        "address"@.len() == 7,
        "users"@.len() == 5,
        "id"@.len() == 2,
        "encryption"@.len() == 10,
        "flow"@.len() == 4,
{
    reveal_strlit("log");
    reveal_strlit("dns");
    reveal_strlit("inbounds");
    reveal_strlit("outbounds");
    reveal_strlit("routing");
    reveal_strlit("tag");
    reveal_strlit("protocol");
    reveal_strlit("settings");
    reveal_strlit("streamSettings");
    reveal_strlit("mux");
    reveal_strlit("listen");
    reveal_strlit("port");
    reveal_strlit("sniffing");
    reveal_strlit("auth");
    reveal_strlit("udp");
    reveal_strlit("enabled");
    reveal_strlit("destOverride");
    reveal_strlit("servers");
    reveal_strlit("queryStrategy");
    reveal_strlit("domainStrategy");
    reveal_strlit("rules");
    reveal_strlit("type");
    reveal_strlit("outboundTag");
    reveal_strlit("network");
    reveal_strlit("address");
    reveal_strlit("users");
    reveal_strlit("id");
    reveal_strlit("encryption");
    reveal_strlit("flow");
}

/// A configuration has five sections, takes traffic in on the port asked for alone, and lets it out
/// through the node.
pub proof fn law_config_outline(link: LinkView, listen_port: u16)
    ensures
        ({
            let config = Some(link_config(link, listen_port));
            let inbound = item(at(config, "inbounds"@), 0, 1);
            let out = way_out(link, listen_port);
            &&& has_fields(
                config,
                set!["log"@, "dns"@, "inbounds"@, "outbounds"@, "routing"@],
            )
            &&& has_fields(
                inbound,
                set!["listen"@, "port"@, "protocol"@, "settings"@, "sniffing"@],
            )
            &&& at(inbound, "port"@) == counts(listen_port as nat)
            &&& at(inbound, "listen"@) == says("127.0.0.1"@)
            &&& at(inbound, "protocol"@) == says("socks"@)
            &&& has_fields(
                out,
                set!["tag"@, "protocol"@, "settings"@, "streamSettings"@, "mux"@],
            )
            &&& at(out, "tag"@) == says("proxy"@)
            &&& at(out, "protocol"@) == says("vless"@)
        }),
{
    lemma_outline_words();
}

/// Whatever the link and the port: nothing is logged, names are looked up at two servers, the way
/// in takes SOCKS without a password and looks into what passes, the ways out do not share
/// connections, and name queries go out apart from all else.
pub proof fn law_config_frame(link: LinkView, listen_port: u16)
    ensures
        ({
            let config = Some(link_config(link, listen_port));
            let log = at(config, "log"@);
            let dns = at(config, "dns"@);
            let way_in = at(item(at(config, "inbounds"@), 0, 1), "settings"@);
            let sniffing = at(item(at(config, "inbounds"@), 0, 1), "sniffing"@);
            let mux = at(way_out(link, listen_port), "mux"@);
            let queries = item(at(config, "outbounds"@), 1, 2);
            &&& has_fields(log, set!["loglevel"@]) && at(log, "loglevel"@) == says("none"@)
            &&& has_fields(dns, set!["servers"@, "queryStrategy"@])
            &&& at(dns, "queryStrategy"@) == says("UseIPv4"@)
            &&& item(at(dns, "servers"@), 0, 2) == says("1.1.1.1"@)
            &&& item(at(dns, "servers"@), 1, 2) == says("8.8.8.8"@)
            &&& has_fields(way_in, set!["auth"@, "udp"@])
            &&& at(way_in, "auth"@) == says("noauth"@) && at(way_in, "udp"@) == flags(true)
            &&& has_fields(sniffing, set!["enabled"@, "destOverride"@])
            &&& at(sniffing, "enabled"@) == flags(true)
            &&& item(at(sniffing, "destOverride"@), 0, 3) == says("http"@)
            &&& item(at(sniffing, "destOverride"@), 1, 3) == says("tls"@)
            &&& item(at(sniffing, "destOverride"@), 2, 3) == says("quic"@)
            &&& has_fields(mux, set!["enabled"@]) && at(mux, "enabled"@) == flags(false)
            &&& has_fields(queries, set!["tag"@, "protocol"@])
            &&& at(queries, "tag"@) == says("dns-out"@) && at(queries, "protocol"@) == says("dns"@)
        }),
{
    lemma_outline_words();
}

/// Whatever the link and the port: traffic to port 53 takes the way out for name queries, and all
/// else the way out through the node.
pub proof fn law_config_routing(link: LinkView, listen_port: u16)
    ensures
        ({
            let routing = at(Some(link_config(link, listen_port)), "routing"@);
            let first = item(at(routing, "rules"@), 0, 2);
            let second = item(at(routing, "rules"@), 1, 2);
            &&& has_fields(routing, set!["domainStrategy"@, "rules"@])
            &&& at(routing, "domainStrategy"@) == says("AsIs"@)
            &&& has_fields(first, set!["type"@, "port"@, "outboundTag"@])
            &&& at(first, "type"@) == says("field"@) && at(first, "port"@) == counts(53)
            &&& at(first, "outboundTag"@) == says("dns-out"@)
            &&& has_fields(second, set!["type"@, "outboundTag"@, "network"@])
            &&& at(second, "type"@) == says("field"@) && at(second, "network"@) == says("udp,tcp"@)
            &&& at(second, "outboundTag"@) == says("proxy"@)
        }),
{
    lemma_outline_words();
}

/// The server of a configuration is the host and port of the link, and its user that of the link.
/// The user has the last flow that the query gives, where that is not empty and the query gives a
/// security layer other than `none`, and else no flow.
pub proof fn law_config_server(
    link: LinkView,
    listen_port: u16,
    security: Seq<char>,
    flow: Seq<char>,
)
    requires
        gives_or(link.query, "security"@, "none"@, security),
        gives_or(link.query, "flow"@, ""@, flow),
    ensures
        ({
            let target = server(link, listen_port);
            let user = item(at(target, "users"@), 0, 1);
            &&& has_fields(target, set!["address"@, "port"@, "users"@])
            &&& at(target, "address"@) == says(named_host(link))
            &&& at(target, "port"@) == counts(
                match link.port {
                    Some(port) => port as nat,
                    None => 443,
                },
            )
            &&& at(user, "id"@) == says(link.username)
            &&& at(user, "encryption"@) == says("none"@)
            &&& if security != "none"@ && flow.len() > 0 {
                at(user, "flow"@) == says(flow) && has_fields(
                    user,
                    set!["id"@, "encryption"@, "flow"@],
                )
            } else {
                has_fields(user, set!["id"@, "encryption"@])
            }
        }),
{
    lemma_outline_words();
    lemma_value(link.query, "security"@, "none"@, security);
    lemma_value(link.query, "flow"@, ""@, flow);
    reveal_strlit("vnext");
}

/// What the query gives is what the parameters hold.
proof fn lemma_value(
    query: Seq<(Seq<char>, Seq<char>)>,
    key: Seq<char>,
    default: Seq<char>,
    value: Seq<char>,
)
    requires
        gives_or(query, key, default, value),
    ensures
        value_or(gathered(query), key, default) == value,
{
    law_gathered(query, key, value);
}

/// The words of a transport layer are told apart.
proof fn lemma_transport_words()
    ensures
        "network"@.len() == 7 && "network"@[0] == 'n',
        "security"@.len() == 8,
        "sockopt"@.len() == 7 && "sockopt"@[0] == 's',
        "realitySettings"@.len() == 15,
        "tlsSettings"@.len() == 11,
        "grpcSettings"@.len() == 12,
        "wsSettings"@.len() == 10,
        "httpupgradeSettings"@.len() == 19,
        "xhttpSettings"@.len() == 13,
        "reality"@.len() == 7,
        "tls"@.len() == 3,
        "grpc"@.len() == 4,
        "ws"@.len() == 2,
        "httpupgrade"@.len() == 11,
        "xhttp"@.len() == 5,
{
    reveal_strlit("network");
    reveal_strlit("security");
    reveal_strlit("sockopt");
    reveal_strlit("realitySettings");
    reveal_strlit("tlsSettings");
    reveal_strlit("grpcSettings");
    reveal_strlit("wsSettings");
    reveal_strlit("httpupgradeSettings");
    reveal_strlit("xhttpSettings");
    reveal_strlit("reality");
    reveal_strlit("tls");
    reveal_strlit("grpc");
    reveal_strlit("ws");
    reveal_strlit("httpupgrade");
    reveal_strlit("xhttp");
}

/// The transport layer names the last transport and the last security layer that the query gives,
/// and has settings for these two and nothing else.
pub proof fn law_config_transport(
    link: LinkView,
    listen_port: u16,
    network: Seq<char>,
    security: Seq<char>,
)
    requires
        gives_or(link.query, "type"@, "tcp"@, network),
        gives_or(link.query, "security"@, "none"@, security),
    ensures
        ({
            let layer = transport(link, listen_port);
            let common = set!["network"@, "security"@, "sockopt"@];
            let secured = if security == "reality"@ {
                common.insert("realitySettings"@)
            } else if security == "tls"@ {
                common.insert("tlsSettings"@)
            } else {
                common
            };
            let all = if network == "grpc"@ {
                secured.insert("grpcSettings"@)
            } else if network == "ws"@ {
                secured.insert("wsSettings"@)
            } else if network == "httpupgrade"@ {
                secured.insert("httpupgradeSettings"@)
            } else if network == "xhttp"@ {
                secured.insert("xhttpSettings"@)
            } else {
                secured
            };
            &&& at(layer, "network"@) == says(network)
            &&& at(layer, "security"@) == says(security)
            &&& has_fields(layer, all)
        }),
{
    lemma_outline_words();
    lemma_transport_words();
    lemma_value(link.query, "type"@, "tcp"@, network);
    lemma_value(link.query, "security"@, "none"@, security);
}

/// The socket options are the same for every link.
pub proof fn law_config_socket(link: LinkView, listen_port: u16)
    ensures
        ({
            let options = at(transport(link, listen_port), "sockopt"@);
            &&& has_fields(
                options,
                set!["tcpNoDelay"@, "reuseAddr"@, "tcpKeepAliveInterval"@, "receiveBufferSize"@],
            )
            &&& at(options, "tcpNoDelay"@) == flags(true)
            &&& at(options, "reuseAddr"@) == flags(true)
            &&& at(options, "tcpKeepAliveInterval"@) == counts(5)
            &&& at(options, "receiveBufferSize"@) == counts(524288)
        }),
{
    lemma_outline_words();
    lemma_transport_words();
    reveal_strlit("tcpNoDelay");
    reveal_strlit("reuseAddr");
    reveal_strlit("tcpKeepAliveInterval");
    reveal_strlit("receiveBufferSize");
    assert("tcpNoDelay"@.len() == 10 && "reuseAddr"@.len() == 9);
    assert("tcpKeepAliveInterval"@.len() == 20 && "receiveBufferSize"@.len() == 17);
}

/// Whether the server is asked for under this name: the last `sni` that the query gives, else the
/// last `host`, else the host of the link.
pub open spec fn asked_name(link: LinkView, name: Seq<char>) -> bool {
    gives(link.query, "sni"@, name) || (leaves_out(link.query, "sni"@) && gives_or(
        link.query,
        "host"@,
        named_host(link),
        name,
    ))
}

/// The name of the server is what the parameters hold.
proof fn lemma_name(link: LinkView, name: Seq<char>)
    requires
        asked_name(link, name),
    ensures
        server_name(named_host(link), gathered(link.query)) == name,
{
    law_gathered(link.query, "sni"@, name);
    law_gathered(link.query, "host"@, name);
}

/// A Reality layer carries the name, the fingerprint, the key, the identifier and the path that the
/// query gives last.
pub proof fn law_config_reality(
    link: LinkView,
    listen_port: u16,
    name: Seq<char>,
    print: Seq<char>,
    key: Seq<char>,
    short: Seq<char>,
    spider: Seq<char>,
)
    requires
        gives(link.query, "security"@, "reality"@),
        asked_name(link, name),
        gives_or(link.query, "fp"@, "chrome"@, print),
        gives_or(link.query, "pbk"@, ""@, key),
        gives_or(link.query, "sid"@, ""@, short),
        gives_or(link.query, "spx"@, "/"@, spider),
    ensures
        ({
            let layer = at(transport(link, listen_port), "realitySettings"@);
            &&& has_fields(
                layer,
                set![
                    "show"@,
                    "fingerprint"@,
                    "serverName"@,
                    "publicKey"@,
                    "shortId"@,
                    "spiderX"@,
                ],
            )
            &&& at(layer, "show"@) == flags(false)
            &&& at(layer, "serverName"@) == says(name)
            &&& at(layer, "fingerprint"@) == says(print)
            &&& at(layer, "publicKey"@) == says(key)
            &&& at(layer, "shortId"@) == says(short)
            &&& at(layer, "spiderX"@) == says(spider)
        }),
{
    lemma_outline_words();
    lemma_transport_words();
    lemma_value(link.query, "security"@, "none"@, "reality"@);
    lemma_name(link, name);
    lemma_value(link.query, "fp"@, "chrome"@, print);
    lemma_value(link.query, "pbk"@, ""@, key);
    lemma_value(link.query, "sid"@, ""@, short);
    lemma_value(link.query, "spx"@, "/"@, spider);
    reveal_strlit("show");
    reveal_strlit("fingerprint");
    reveal_strlit("serverName");
    reveal_strlit("publicKey");
    reveal_strlit("shortId");
    reveal_strlit("spiderX");
    assert("show"@.len() == 4 && "fingerprint"@.len() == 11 && "serverName"@.len() == 10);
    assert("publicKey"@.len() == 9 && "shortId"@.len() == 7 && "spiderX"@.len() == 7);
    assert("shortId"@[1] != "spiderX"@[1]);
}

/// A TLS layer carries the name and the fingerprint that the query gives last, and offers the
/// protocols that suit the transport.
pub proof fn law_config_tls(
    link: LinkView,
    listen_port: u16,
    network: Seq<char>,
    name: Seq<char>,
    print: Seq<char>,
)
    requires
        gives(link.query, "security"@, "tls"@),
        gives_or(link.query, "type"@, "tcp"@, network),
        asked_name(link, name),
        gives_or(link.query, "fp"@, "chrome"@, print),
    ensures
        ({
            let layer = at(transport(link, listen_port), "tlsSettings"@);
            let offered = at(layer, "alpn"@);
            &&& has_fields(
                layer,
                set!["serverName"@, "allowInsecure"@, "fingerprint"@, "alpn"@],
            )
            &&& at(layer, "allowInsecure"@) == flags(true)
            &&& at(layer, "serverName"@) == says(name)
            &&& at(layer, "fingerprint"@) == says(print)
            &&& network == "grpc"@ ==> item(offered, 0, 1) == says("h2"@)
            &&& network == "httpupgrade"@ ==> item(offered, 0, 1) == says("http/1.1"@)
            &&& network != "grpc"@ && network != "httpupgrade"@ ==> item(offered, 0, 2) == says(
                "h2"@,
            ) && item(offered, 1, 2) == says("http/1.1"@)
        }),
{
    lemma_outline_words();
    lemma_transport_words();
    lemma_value(link.query, "security"@, "none"@, "tls"@);
    lemma_value(link.query, "type"@, "tcp"@, network);
    lemma_name(link, name);
    lemma_value(link.query, "fp"@, "chrome"@, print);
    reveal_strlit("serverName");
    reveal_strlit("allowInsecure");
    reveal_strlit("fingerprint");
    reveal_strlit("alpn");
    assert("serverName"@.len() == 10 && "allowInsecure"@.len() == 13);
    assert("fingerprint"@.len() == 11 && "alpn"@.len() == 4);
}

/// Whether a transport goes by this path: the last one that the query gives, decoded where that
/// can be done, and `/` where it gives none.
pub open spec fn asked_path(link: LinkView, path: Seq<char>) -> bool {
    ||| leaves_out(link.query, "path"@) && path == "/"@
    ||| exists|raw: Seq<char>| #[trigger]
        gives(link.query, "path"@, raw) && match percent_decoded(raw) {
            Some(decoded) => path == decoded,
            None => path == raw,
        }
}

/// The path is what the parameters hold.
proof fn lemma_path(link: LinkView, path: Seq<char>)
    requires
        asked_path(link, path),
    ensures
        path_of(gathered(link.query)) == path,
{
    if leaves_out(link.query, "path"@) && path == "/"@ {
        law_gathered(link.query, "path"@, path);
    } else {
        let raw = choose|raw: Seq<char>| #[trigger]
            gives(link.query, "path"@, raw) && match percent_decoded(raw) {
                Some(decoded) => path == decoded,
                None => path == raw,
            };
        law_gathered(link.query, "path"@, raw);
    }
}

/// Each transport carries what the query gives last for it: the service, or the path and the name
/// of the server, or the path and the mode.
pub proof fn law_config_carrier(
    link: LinkView,
    listen_port: u16,
    network: Seq<char>,
    name: Seq<char>,
    path: Seq<char>,
    service: Seq<char>,
    mode: Seq<char>,
)
    requires
        gives(link.query, "type"@, network),
        asked_name(link, name),
        asked_path(link, path),
        gives(link.query, "service_name"@, service) || (leaves_out(link.query, "service_name"@)
            && gives_or(link.query, "serviceName"@, ""@, service)),
        gives_or(link.query, "mode"@, "auto"@, mode),
    ensures
        ({
            let layer = transport(link, listen_port);
            let grpc = at(layer, "grpcSettings"@);
            let ws = at(layer, "wsSettings"@);
            let upgrade = at(layer, "httpupgradeSettings"@);
            let xhttp = at(layer, "xhttpSettings"@);
            &&& network == "grpc"@ ==> has_fields(grpc, set!["serviceName"@]) && at(
                grpc,
                "serviceName"@,
            ) == says(service)
            &&& network == "ws"@ ==> has_fields(ws, set!["path"@, "headers"@]) && at(ws, "path"@)
                == says(path) && has_fields(at(ws, "headers"@), set!["Host"@]) && at(
                at(ws, "headers"@),
                "Host"@,
            ) == says(name)
            &&& network == "httpupgrade"@ ==> has_fields(upgrade, set!["path"@, "host"@]) && at(
                upgrade,
                "path"@,
            ) == says(path) && item(at(upgrade, "host"@), 0, 1) == says(name)
            &&& network == "xhttp"@ ==> has_fields(xhttp, set!["path"@, "mode"@, "extra"@]) && at(
                xhttp,
                "path"@,
            ) == says(path) && at(xhttp, "mode"@) == says(mode) && at(
                at(xhttp, "extra"@),
                "download_max_concurrency"@,
            ) == counts(0) && at(at(xhttp, "extra"@), "download_max_window"@) == counts(0)
        }),
{
    lemma_outline_words();
    lemma_transport_words();
    lemma_value(link.query, "type"@, "tcp"@, network);
    lemma_name(link, name);
    lemma_path(link, path);
    lemma_value(link.query, "mode"@, "auto"@, mode);
    law_gathered(link.query, "service_name"@, service);
    law_gathered(link.query, "serviceName"@, service);
    reveal_strlit("path");
    reveal_strlit("headers");
    reveal_strlit("host");
    reveal_strlit("mode");
    reveal_strlit("extra");
    reveal_strlit("download_max_concurrency");
    reveal_strlit("download_max_window");
    assert("path"@.len() == 4 && "headers"@.len() == 7 && "host"@.len() == 4);
    assert("mode"@.len() == 4 && "extra"@.len() == 5);
    assert("path"@[0] != "host"@[0] && "path"@[0] != "mode"@[0]);
    assert("download_max_concurrency"@.len() == 24 && "download_max_window"@.len() == 19);
}

} // verus!
