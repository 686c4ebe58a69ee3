//! The client configuration that routes traffic through one node.
use serde_json::Value;
use vstd::prelude::*;

use crate::encoding::{percent_decode, percent_decoded};
use crate::json::{bool_value, new_object, number_value, object_value, put, text_value};
use crate::json::{document, encode, encoded, fields, opt_bytes, Json};
use crate::json::{one_text, one_value, three_texts, two_texts, two_values};
use crate::link::{LinkParts, LinkView};
use crate::params::{gathered, value_of, Params};
use crate::text::same_text;
use crate::vless_collector::port_of;
use crate::vless_collector::DEFAULT_PORT;

verus! {

/// The host of a link that names none.
pub open spec fn host_of(host: Option<Seq<char>>) -> Seq<char> {
    match host {
        Some(host) => host,
        None => "0.0.0.0"@,
    }
}

/// The value of `key`, or `default`.
pub open spec fn value_or(
    m: Map<Seq<char>, Seq<char>>,
    key: Seq<char>,
    default: Seq<char>,
) -> Seq<char> {
    match value_of(m, key) {
        Some(v) => v,
        None => default,
    }
}

/// The name that the server is asked for: `sni`, else `host`, else the host of the link.
pub open spec fn server_name(host: Seq<char>, m: Map<Seq<char>, Seq<char>>) -> Seq<char> {
    value_or(m, "sni"@, value_or(m, "host"@, host))
}

/// The path, percent-decoded where that can be done; `/` where none is given.
pub open spec fn path_of(m: Map<Seq<char>, Seq<char>>) -> Seq<char> {
    match value_of(m, "path"@) {
        Some(path) => match percent_decoded(path) {
            Some(decoded) => decoded,
            None => path,
        },
        None => "/"@,
    }
}

/// An object without fields.
pub open spec fn no_fields() -> Map<Seq<char>, Json> {
    Map::empty()
}

/// The socket options.
pub open spec fn socket_options() -> Json {
    Json::Object(
        no_fields().insert("tcpNoDelay"@, Json::Bool(true)).insert(
            "reuseAddr"@,
            Json::Bool(true),
        ).insert("tcpKeepAliveInterval"@, Json::Number(5)).insert(
            "receiveBufferSize"@,
            Json::Number(524_288),
        ),
    )
}

/// The settings of a Reality layer.
pub open spec fn reality_settings(host: Seq<char>, m: Map<Seq<char>, Seq<char>>) -> Json {
    Json::Object(
        no_fields().insert("show"@, Json::Bool(false)).insert(
            "fingerprint"@,
            Json::Text(value_or(m, "fp"@, "chrome"@)),
        ).insert("serverName"@, Json::Text(server_name(host, m))).insert(
            "publicKey"@,
            Json::Text(value_or(m, "pbk"@, ""@)),
        ).insert("shortId"@, Json::Text(value_or(m, "sid"@, ""@))).insert(
            "spiderX"@,
            Json::Text(value_or(m, "spx"@, "/"@)),
        ),
    )
}

/// The protocols that are offered over TLS, by transport.
pub open spec fn offered_protocols(network: Seq<char>) -> Json {
    if network == "grpc"@ {
        Json::List(seq![Json::Text("h2"@)])
    } else if network == "httpupgrade"@ {
        Json::List(seq![Json::Text("http/1.1"@)])
    } else {
        Json::List(seq![Json::Text("h2"@), Json::Text("http/1.1"@)])
    }
}

/// The settings of a TLS layer.
pub open spec fn tls_settings(
    host: Seq<char>,
    network: Seq<char>,
    m: Map<Seq<char>, Seq<char>>,
) -> Json {
    Json::Object(
        no_fields().insert("serverName"@, Json::Text(server_name(host, m))).insert(
            "allowInsecure"@,
            Json::Bool(true),
        ).insert("fingerprint"@, Json::Text(value_or(m, "fp"@, "chrome"@))).insert(
            "alpn"@,
            offered_protocols(network),
        ),
    )
}

/// The settings of a gRPC transport.
pub open spec fn grpc_settings(m: Map<Seq<char>, Seq<char>>) -> Json {
    Json::Object(
        no_fields().insert(
            "serviceName"@,
            Json::Text(value_or(m, "service_name"@, value_or(m, "serviceName"@, ""@))),
        ),
    )
}

/// The settings of a WebSocket transport.
pub open spec fn ws_settings(host: Seq<char>, m: Map<Seq<char>, Seq<char>>) -> Json {
    Json::Object(
        no_fields().insert("path"@, Json::Text(path_of(m))).insert(
            "headers"@,
            Json::Object(no_fields().insert("Host"@, Json::Text(server_name(host, m)))),
        ),
    )
}

/// The settings of an HTTP upgrade transport.
pub open spec fn httpupgrade_settings(host: Seq<char>, m: Map<Seq<char>, Seq<char>>) -> Json {
    Json::Object(
        no_fields().insert("path"@, Json::Text(path_of(m))).insert(
            "host"@,
            Json::List(seq![Json::Text(server_name(host, m))]),
        ),
    )
}

/// The settings of an XHTTP transport.
pub open spec fn xhttp_settings(m: Map<Seq<char>, Seq<char>>) -> Json {
    Json::Object(
        no_fields().insert("path"@, Json::Text(path_of(m))).insert(
            "mode"@,
            Json::Text(value_or(m, "mode"@, "auto"@)),
        ).insert(
            "extra"@,
            Json::Object(
                no_fields().insert("download_max_concurrency"@, Json::Number(0)).insert(
                    "download_max_window"@,
                    Json::Number(0),
                ),
            ),
        ),
    )
}

/// The fields that every transport has.
pub open spec fn common_stream(network: Seq<char>, security: Seq<char>) -> Map<Seq<char>, Json> {
    no_fields().insert("network"@, Json::Text(network)).insert(
        "security"@,
        Json::Text(security),
    ).insert("sockopt"@, socket_options())
}

/// The fields with those of the security layer.
pub open spec fn with_security(
    all: Map<Seq<char>, Json>,
    host: Seq<char>,
    m: Map<Seq<char>, Seq<char>>,
) -> Map<Seq<char>, Json> {
    let security = value_or(m, "security"@, "none"@);
    let network = value_or(m, "type"@, "tcp"@);
    if security == "reality"@ {
        all.insert("realitySettings"@, reality_settings(host, m))
    } else if security == "tls"@ {
        all.insert("tlsSettings"@, tls_settings(host, network, m))
    } else {
        all
    }
}

/// The fields with those of the transport.
pub open spec fn with_transport(
    all: Map<Seq<char>, Json>,
    host: Seq<char>,
    m: Map<Seq<char>, Seq<char>>,
) -> Map<Seq<char>, Json> {
    let network = value_or(m, "type"@, "tcp"@);
    if network == "grpc"@ {
        all.insert("grpcSettings"@, grpc_settings(m))
    } else if network == "ws"@ {
        all.insert("wsSettings"@, ws_settings(host, m))
    } else if network == "httpupgrade"@ {
        all.insert("httpupgradeSettings"@, httpupgrade_settings(host, m))
    } else if network == "xhttp"@ {
        all.insert("xhttpSettings"@, xhttp_settings(m))
    } else {
        all
    }
}

/// The transport layer of a node.
pub open spec fn stream_settings(host: Seq<char>, m: Map<Seq<char>, Seq<char>>) -> Json {
    let security = value_or(m, "security"@, "none"@);
    let network = value_or(m, "type"@, "tcp"@);
    Json::Object(with_transport(with_security(common_stream(network, security), host, m), host, m))
}

/// The value of `key`, or `default`.
fn get_or<'a>(params: &'a Params, key: &str, default: &'a str) -> (value: &'a str)
    ensures
        value@ == value_or(params@, key@, default@),
{
    match params.get(key) {
        Some(v) => v,
        None => default,
    }
}

/// The name that the server is asked for.
fn get_server_name<'a>(host: &'a str, params: &'a Params) -> (name: &'a str)
    ensures
        name@ == server_name(host@, params@),
{
    let fallback = get_or(params, "host", host);
    get_or(params, "sni", fallback)
}

/// The path.
fn get_path(params: &Params) -> (path: String)
    ensures
        path@ == path_of(params@),
{
    match params.get("path") {
        Some(path) => match percent_decode(path) {
            Some(decoded) => decoded,
            None => path.to_owned(),
        },
        None => "/".to_owned(),
    }
}

/// Builds the socket options.
fn build_socket_options() -> (value: Value)
    ensures
        document(value) == socket_options(),
{
    let mut object = new_object();
    put(&mut object, "tcpNoDelay", bool_value(true));
    put(&mut object, "reuseAddr", bool_value(true));
    put(&mut object, "tcpKeepAliveInterval", number_value(5));
    put(&mut object, "receiveBufferSize", number_value(524_288));
    object_value(object)
}

/// Builds the settings of a Reality layer.
fn build_reality_settings(host: &str, params: &Params) -> (value: Value)
    ensures
        document(value) == reality_settings(host@, params@),
{
    let mut object = new_object();
    put(&mut object, "show", bool_value(false));
    put(&mut object, "fingerprint", text_value(get_or(params, "fp", "chrome")));
    put(&mut object, "serverName", text_value(get_server_name(host, params)));
    put(&mut object, "publicKey", text_value(get_or(params, "pbk", "")));
    put(&mut object, "shortId", text_value(get_or(params, "sid", "")));
    put(&mut object, "spiderX", text_value(get_or(params, "spx", "/")));
    object_value(object)
}

/// Builds the settings of a TLS layer.
fn build_tls_settings(host: &str, network: &str, params: &Params) -> (value: Value)
    ensures
        document(value) == tls_settings(host@, network@, params@),
{
    let protocols = if same_text(network, "grpc") {
        one_text("h2")
    } else if same_text(network, "httpupgrade") {
        one_text("http/1.1")
    } else {
        two_texts("h2", "http/1.1")
    };
    let mut object = new_object();
    put(&mut object, "serverName", text_value(get_server_name(host, params)));
    put(&mut object, "allowInsecure", bool_value(true));
    put(&mut object, "fingerprint", text_value(get_or(params, "fp", "chrome")));
    put(&mut object, "alpn", protocols);
    object_value(object)
}

/// Builds the settings of a gRPC transport.
fn build_grpc_settings(params: &Params) -> (value: Value)
    ensures
        document(value) == grpc_settings(params@),
{
    let fallback = get_or(params, "serviceName", "");
    let mut object = new_object();
    put(&mut object, "serviceName", text_value(get_or(params, "service_name", fallback)));
    object_value(object)
}

/// Builds the settings of a WebSocket transport.
fn build_ws_settings(host: &str, params: &Params) -> (value: Value)
    ensures
        document(value) == ws_settings(host@, params@),
{
    let mut headers = new_object();
    put(&mut headers, "Host", text_value(get_server_name(host, params)));
    let mut object = new_object();
    put(&mut object, "path", text_value(get_path(params).as_str()));
    put(&mut object, "headers", object_value(headers));
    object_value(object)
}

/// Builds the settings of an HTTP upgrade transport.
fn build_httpupgrade_settings(host: &str, params: &Params) -> (value: Value)
    ensures
        document(value) == httpupgrade_settings(host@, params@),
{
    let mut object = new_object();
    put(&mut object, "path", text_value(get_path(params).as_str()));
    put(&mut object, "host", one_text(get_server_name(host, params)));
    object_value(object)
}

/// Builds the settings of an XHTTP transport.
fn build_xhttp_settings(params: &Params) -> (value: Value)
    ensures
        document(value) == xhttp_settings(params@),
{
    let mut extra = new_object();
    put(&mut extra, "download_max_concurrency", number_value(0));
    put(&mut extra, "download_max_window", number_value(0));
    let mut object = new_object();
    put(&mut object, "path", text_value(get_path(params).as_str()));
    put(&mut object, "mode", text_value(get_or(params, "mode", "auto")));
    put(&mut object, "extra", object_value(extra));
    object_value(object)
}

/// Builds the transport layer settings.
pub fn build_stream_settings(host: &str, params: &Params) -> (value: Value)
    ensures
        document(value) == stream_settings(host@, params@),
{
    let security = get_or(params, "security", "none");
    let network = get_or(params, "type", "tcp");
    let mut settings = new_object();
    put(&mut settings, "network", text_value(network));
    put(&mut settings, "security", text_value(security));
    put(&mut settings, "sockopt", build_socket_options());
    if same_text(security, "reality") {
        put(&mut settings, "realitySettings", build_reality_settings(host, params));
    } else if same_text(security, "tls") {
        put(&mut settings, "tlsSettings", build_tls_settings(host, network, params));
    }
    if same_text(network, "grpc") {
        put(&mut settings, "grpcSettings", build_grpc_settings(params));
    } else if same_text(network, "ws") {
        put(&mut settings, "wsSettings", build_ws_settings(host, params));
    } else if same_text(network, "httpupgrade") {
        put(&mut settings, "httpupgradeSettings", build_httpupgrade_settings(host, params));
    } else if same_text(network, "xhttp") {
        put(&mut settings, "xhttpSettings", build_xhttp_settings(params));
    }
    object_value(settings)
}

/// The user with whom the server is addressed. The flow counts only under a security layer.
pub open spec fn user(uuid: Seq<char>, m: Map<Seq<char>, Seq<char>>) -> Json {
    let plain = no_fields().insert("id"@, Json::Text(uuid)).insert(
        "encryption"@,
        Json::Text("none"@),
    );
    let flow = value_or(m, "flow"@, ""@);
    if value_or(m, "security"@, "none"@) != "none"@ && flow.len() > 0 {
        Json::Object(plain.insert("flow"@, Json::Text(flow)))
    } else {
        Json::Object(plain)
    }
}

/// The server and its user.
pub open spec fn outbound_settings(
    host: Seq<char>,
    port: u16,
    uuid: Seq<char>,
    m: Map<Seq<char>, Seq<char>>,
) -> Json {
    let server = no_fields().insert("address"@, Json::Text(host)).insert(
        "port"@,
        Json::Number(port as nat),
    ).insert("users"@, Json::List(seq![user(uuid, m)]));
    Json::Object(no_fields().insert("vnext"@, Json::List(seq![Json::Object(server)])))
}

/// Builds the VLESS outbound user settings.
pub fn build_vless_outbound_settings(host: &str, port: u16, uuid: &str, params: &Params) -> (value:
    Value)
    ensures
        document(value) == outbound_settings(host@, port, uuid@, params@),
{
    proof {
        reveal_strlit("");
    }
    let security = get_or(params, "security", "none");
    let flow = get_or(params, "flow", "");
    let mut person = new_object();
    put(&mut person, "id", text_value(uuid));
    put(&mut person, "encryption", text_value("none"));
    if !same_text(security, "none") && !flow.is_empty() {
        put(&mut person, "flow", text_value(flow));
    }
    let mut server = new_object();
    put(&mut server, "address", text_value(host));
    put(&mut server, "port", number_value(port as u64));
    put(&mut server, "users", one_value(object_value(person)));
    let mut object = new_object();
    put(&mut object, "vnext", one_value(object_value(server)));
    object_value(object)
}

/// The name servers.
pub open spec fn dns_section() -> Json {
    Json::Object(
        no_fields().insert(
            "servers"@,
            Json::List(seq![Json::Text("1.1.1.1"@), Json::Text("8.8.8.8"@)]),
        ).insert("queryStrategy"@, Json::Text("UseIPv4"@)),
    )
}

/// The local proxy that takes traffic in.
pub open spec fn inbound(listen_port: u16) -> Json {
    Json::Object(
        no_fields().insert("listen"@, Json::Text("127.0.0.1"@)).insert(
            "port"@,
            Json::Number(listen_port as nat),
        ).insert("protocol"@, Json::Text("socks"@)).insert(
            "settings"@,
            Json::Object(
                no_fields().insert("auth"@, Json::Text("noauth"@)).insert("udp"@, Json::Bool(true)),
            ),
        ).insert(
            "sniffing"@,
            Json::Object(
                no_fields().insert("enabled"@, Json::Bool(true)).insert(
                    "destOverride"@,
                    Json::List(
                        seq![Json::Text("http"@), Json::Text("tls"@), Json::Text("quic"@)],
                    ),
                ),
            ),
        ),
    )
}

/// The way out through the node.
pub open spec fn proxy_outbound(settings: Json, stream: Json) -> Json {
    Json::Object(
        no_fields().insert("tag"@, Json::Text("proxy"@)).insert(
            "protocol"@,
            Json::Text("vless"@),
        ).insert("settings"@, settings).insert("streamSettings"@, stream).insert(
            "mux"@,
            Json::Object(no_fields().insert("enabled"@, Json::Bool(false))),
        ),
    )
}

/// The way out for name queries.
pub open spec fn dns_outbound() -> Json {
    Json::Object(
        no_fields().insert("tag"@, Json::Text("dns-out"@)).insert("protocol"@, Json::Text("dns"@)),
    )
}

/// Which traffic takes which way out.
pub open spec fn routing_section() -> Json {
    Json::Object(
        no_fields().insert("domainStrategy"@, Json::Text("AsIs"@)).insert(
            "rules"@,
            Json::List(
                seq![
                    Json::Object(
                        no_fields().insert("type"@, Json::Text("field"@)).insert(
                            "port"@,
                            Json::Number(53),
                        ).insert("outboundTag"@, Json::Text("dns-out"@)),
                    ),
                    Json::Object(
                        no_fields().insert("type"@, Json::Text("field"@)).insert(
                            "outboundTag"@,
                            Json::Text("proxy"@),
                        ).insert("network"@, Json::Text("udp,tcp"@)),
                    ),
                ],
            ),
        ),
    )
}

/// The whole configuration.
pub open spec fn vless_config(
    uuid: Seq<char>,
    host: Seq<char>,
    port: u16,
    listen_port: u16,
    m: Map<Seq<char>, Seq<char>>,
) -> Json {
    Json::Object(
        no_fields().insert(
            "log"@,
            Json::Object(no_fields().insert("loglevel"@, Json::Text("none"@))),
        ).insert("dns"@, dns_section()).insert(
            "inbounds"@,
            Json::List(seq![inbound(listen_port)]),
        ).insert(
            "outbounds"@,
            Json::List(
                seq![
                    proxy_outbound(
                        outbound_settings(host, port, uuid, m),
                        stream_settings(host, m),
                    ),
                    dns_outbound(),
                ],
            ),
        ).insert("routing"@, routing_section()),
    )
}

/// The configuration for a link.
pub open spec fn link_config(link: LinkView, listen_port: u16) -> Json {
    vless_config(
        link.username,
        host_of(link.host),
        port_of(link.port),
        listen_port,
        gathered(link.query),
    )
}

/// Builds the name servers.
fn build_dns_section() -> (value: Value)
    ensures
        document(value) == dns_section(),
{
    let mut object = new_object();
    put(&mut object, "servers", two_texts("1.1.1.1", "8.8.8.8"));
    put(&mut object, "queryStrategy", text_value("UseIPv4"));
    object_value(object)
}

/// Builds the local proxy.
fn build_inbound(listen_port: u16) -> (value: Value)
    ensures
        document(value) == inbound(listen_port),
{
    let mut settings = new_object();
    put(&mut settings, "auth", text_value("noauth"));
    put(&mut settings, "udp", bool_value(true));
    let mut sniffing = new_object();
    put(&mut sniffing, "enabled", bool_value(true));
    put(&mut sniffing, "destOverride", three_texts("http", "tls", "quic"));
    let mut object = new_object();
    put(&mut object, "listen", text_value("127.0.0.1"));
    put(&mut object, "port", number_value(listen_port as u64));
    put(&mut object, "protocol", text_value("socks"));
    put(&mut object, "settings", object_value(settings));
    put(&mut object, "sniffing", object_value(sniffing));
    object_value(object)
}

/// Builds the way out through the node.
fn build_proxy_outbound(settings: Value, stream: Value) -> (value: Value)
    ensures
        document(value) == proxy_outbound(document(settings), document(stream)),
{
    let mut mux = new_object();
    put(&mut mux, "enabled", bool_value(false));
    let mut object = new_object();
    put(&mut object, "tag", text_value("proxy"));
    put(&mut object, "protocol", text_value("vless"));
    put(&mut object, "settings", settings);
    put(&mut object, "streamSettings", stream);
    put(&mut object, "mux", object_value(mux));
    object_value(object)
}

/// Builds the way out for name queries.
fn build_dns_outbound() -> (value: Value)
    ensures
        document(value) == dns_outbound(),
{
    let mut object = new_object();
    put(&mut object, "tag", text_value("dns-out"));
    put(&mut object, "protocol", text_value("dns"));
    object_value(object)
}

/// Builds the routing rules.
fn build_routing_section() -> (value: Value)
    ensures
        document(value) == routing_section(),
{
    let mut queries = new_object();
    put(&mut queries, "type", text_value("field"));
    put(&mut queries, "port", number_value(53));
    put(&mut queries, "outboundTag", text_value("dns-out"));
    let mut rest = new_object();
    put(&mut rest, "type", text_value("field"));
    put(&mut rest, "outboundTag", text_value("proxy"));
    put(&mut rest, "network", text_value("udp,tcp"));
    let mut object = new_object();
    put(&mut object, "domainStrategy", text_value("AsIs"));
    put(&mut object, "rules", two_values(object_value(queries), object_value(rest)));
    object_value(object)
}

/// Assembles the configuration.
pub fn assemble_vless_config(
    uuid: &str,
    host: &str,
    port: u16,
    listen_port: u16,
    params: &Params,
) -> (value: Value)
    ensures
        document(value) == vless_config(uuid@, host@, port, listen_port, params@),
{
    let stream = build_stream_settings(host, params);
    let settings = build_vless_outbound_settings(host, port, uuid, params);
    let mut log = new_object();
    put(&mut log, "loglevel", text_value("none"));
    let mut object = new_object();
    put(&mut object, "log", object_value(log));
    put(&mut object, "dns", build_dns_section());
    put(&mut object, "inbounds", one_value(build_inbound(listen_port)));
    put(
        &mut object,
        "outbounds",
        two_values(build_proxy_outbound(settings, stream), build_dns_outbound()),
    );
    put(&mut object, "routing", build_routing_section());
    object_value(object)
}

/// Creates the configuration that routes what comes in on `listen_port` through a link.
pub fn create_config_from_url(url: &LinkParts, listen_port: u16) -> (value: Value)
    ensures
        document(value) == link_config(url@, listen_port),
{
    let host: &str = match &url.host {
        Some(host) => host.as_str(),
        None => "0.0.0.0",
    };
    let port: u16 = match url.port {
        Some(port) => port,
        None => DEFAULT_PORT,
    };
    let params = Params::gather(&url.query);
    assemble_vless_config(url.username.as_str(), host, port, listen_port, &params)
}

/// Writes the configuration for a link as JSON text, which can always be done.
pub fn write_config(url: &LinkParts, listen_port: u16) -> (bytes: Option<Vec<u8>>)
    ensures
        opt_bytes(bytes) == Some(encoded(link_config(url@, listen_port))),
{
    encode(&create_config_from_url(url, listen_port))
}

/// The lengths of the words that a transport layer is told apart by.
proof fn lemma_words()
    ensures
        "network"@.len() == 7,
        "security"@.len() == 8,
        "sockopt"@.len() == 7,
        "realitySettings"@.len() == 15,
        "tlsSettings"@.len() == 11,
        "grpcSettings"@.len() == 12,
        "wsSettings"@.len() == 10,
        "httpupgradeSettings"@.len() == 19,
        "xhttpSettings"@.len() == 13,
        "reality"@.len() == 7,
        "tls"@.len() == 3,
        "grpc"@.len() == 4,
        "ws"@.len() == 2,
        "httpupgrade"@.len() == 11,
        "xhttp"@.len() == 5,
        "network"@[0] != "sockopt"@[0],
{
    reveal_strlit("network");
    reveal_strlit("security");
    reveal_strlit("sockopt");
    reveal_strlit("realitySettings");
    reveal_strlit("tlsSettings");
    reveal_strlit("grpcSettings");
    reveal_strlit("wsSettings");
    reveal_strlit("httpupgradeSettings");
    reveal_strlit("xhttpSettings");
    reveal_strlit("reality");
    reveal_strlit("tls");
    reveal_strlit("grpc");
    reveal_strlit("ws");
    reveal_strlit("httpupgrade");
    reveal_strlit("xhttp");
}

/// A transport layer names its transport and its security layer, and has the settings of these
/// two and of no others.
pub proof fn law_settings_match(host: Seq<char>, m: Map<Seq<char>, Seq<char>>)
    ensures
        stream_settings(host, m) matches Json::Object(all) && {
            let security = value_or(m, "security"@, "none"@);
            let network = value_or(m, "type"@, "tcp"@);
            &&& all.contains_key("network"@)
            &&& all["network"@] == Json::Text(network)
            &&& all.contains_key("security"@)
            &&& all["security"@] == Json::Text(security)
            &&& all.contains_key("realitySettings"@) <==> security == "reality"@
            &&& all.contains_key("tlsSettings"@) <==> security == "tls"@
            &&& all.contains_key("grpcSettings"@) <==> network == "grpc"@
            &&& all.contains_key("wsSettings"@) <==> network == "ws"@
            &&& all.contains_key("httpupgradeSettings"@) <==> network == "httpupgrade"@
            &&& all.contains_key("xhttpSettings"@) <==> network == "xhttp"@
        },
{
    lemma_words();
}

/// The configuration of a link depends on its query only through the last value of each key.
pub proof fn law_config_by_values(a: LinkView, b: LinkView, listen_port: u16)
    requires
        a.username == b.username,
        a.host == b.host,
        a.port == b.port,
        gathered(a.query) == gathered(b.query),
    ensures
        link_config(a, listen_port) == link_config(b, listen_port),
{
}

} // verus!
