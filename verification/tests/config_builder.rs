use serde_json::Value;
use vless_harvester::config_builder::{
    assemble_vless_config, build_stream_settings, build_vless_outbound_settings,
    create_config_from_url, write_config,
};
use vless_harvester::link::LinkParts;
use vless_harvester::params::Params;

fn json(text: &str) -> Value {
    serde_json::from_str(text).unwrap()
}

fn pairs(list: &[(&str, &str)]) -> Vec<(String, String)> {
    list.iter().map(|(k, v)| (k.to_string(), v.to_string())).collect()
}

fn params(list: &[(&str, &str)]) -> Params {
    Params::gather(&pairs(list))
}

const SOCKOPT: &str = r#"{"tcpNoDelay": true, "reuseAddr": true, "tcpKeepAliveInterval": 5, "receiveBufferSize": 524288}"#;

fn stream(rest: &str, network: &str, security: &str) -> Value {
    json(&format!(
        r#"{{"network": "{network}", "security": "{security}", "sockopt": {SOCKOPT}{rest}}}"#
    ))
}

#[test]
fn defaults_are_plain_tcp() {
    assert_eq!(
        build_stream_settings("h.com", &params(&[])),
        stream("", "tcp", "none")
    );
}

#[test]
fn reality_has_its_settings() {
    let given = params(&[
        ("security", "reality"),
        ("pbk", "key"),
        ("sid", "ab"),
        ("spx", "/x"),
        ("sni", "s.com"),
        ("host", "other.com"),
        ("fp", "firefox"),
    ]);
    assert_eq!(
        build_stream_settings("h.com", &given),
        stream(
            r#", "realitySettings": {"show": false, "fingerprint": "firefox", "serverName": "s.com",
                "publicKey": "key", "shortId": "ab", "spiderX": "/x"}"#,
            "tcp",
            "reality"
        )
    );
    assert_eq!(
        build_stream_settings("h.com", &params(&[("security", "reality")])),
        stream(
            r#", "realitySettings": {"show": false, "fingerprint": "chrome", "serverName": "h.com",
                "publicKey": "", "shortId": "", "spiderX": "/"}"#,
            "tcp",
            "reality"
        )
    );
}

#[test]
fn tls_offers_protocols_by_transport() {
    for (network, alpn, rest) in [
        ("tcp", r#"["h2", "http/1.1"]"#, ""),
        ("h2", r#"["h2", "http/1.1"]"#, ""),
        ("grpc", r#"["h2"]"#, r#", "grpcSettings": {"serviceName": ""}"#),
        (
            "httpupgrade",
            r#"["http/1.1"]"#,
            r#", "httpupgradeSettings": {"path": "/", "host": ["w.com"]}"#,
        ),
        (
            "ws",
            r#"["h2", "http/1.1"]"#,
            r#", "wsSettings": {"path": "/", "headers": {"Host": "w.com"}}"#,
        ),
    ] {
        assert_eq!(
            build_stream_settings(
                "h.com",
                &params(&[("security", "tls"), ("type", network), ("host", "w.com")])
            ),
            stream(
                &format!(
                    r#", "tlsSettings": {{"serverName": "w.com", "allowInsecure": true,
                        "fingerprint": "chrome", "alpn": {alpn}}}{rest}"#
                ),
                network,
                "tls"
            ),
            "{network}"
        );
    }
}

#[test]
fn transports_have_their_settings() {
    assert_eq!(
        build_stream_settings("h.com", &params(&[("type", "grpc"), ("serviceName", "b")])),
        stream(r#", "grpcSettings": {"serviceName": "b"}"#, "grpc", "none")
    );
    assert_eq!(
        build_stream_settings(
            "h.com",
            &params(&[("type", "grpc"), ("serviceName", "b"), ("service_name", "a")])
        ),
        stream(r#", "grpcSettings": {"serviceName": "a"}"#, "grpc", "none")
    );
    assert_eq!(
        build_stream_settings("h.com", &params(&[("type", "ws"), ("path", "/a%20b%2fc")])),
        stream(
            r#", "wsSettings": {"path": "/a b/c", "headers": {"Host": "h.com"}}"#,
            "ws",
            "none"
        )
    );
    assert_eq!(
        build_stream_settings("h.com", &params(&[("type", "xhttp"), ("path", "/%zz%ff")])),
        stream(
            r#", "xhttpSettings": {"path": "/%zz%ff", "mode": "auto",
                "extra": {"download_max_concurrency": 0, "download_max_window": 0}}"#,
            "xhttp",
            "none"
        )
    );
    assert_eq!(
        build_stream_settings("h.com", &params(&[("type", "xhttp"), ("mode", "stream-one")])),
        stream(
            r#", "xhttpSettings": {"path": "/", "mode": "stream-one",
                "extra": {"download_max_concurrency": 0, "download_max_window": 0}}"#,
            "xhttp",
            "none"
        )
    );
    assert_eq!(
        build_stream_settings("h.com", &params(&[("type", "kcp"), ("security", "")])),
        stream("", "kcp", "")
    );
}

#[test]
fn the_flow_counts_only_under_a_security_layer() {
    let plain = json(
        r#"{"vnext": [{"address": "h.com", "port": 8443,
            "users": [{"id": "u", "encryption": "none"}]}]}"#,
    );
    let with_flow = json(
        r#"{"vnext": [{"address": "h.com", "port": 8443,
            "users": [{"id": "u", "encryption": "none", "flow": "xtls"}]}]}"#,
    );
    let build = |list: &[(&str, &str)]| build_vless_outbound_settings("h.com", 8443, "u", &params(list));
    assert_eq!(build(&[]), plain);
    assert_eq!(build(&[("flow", "xtls")]), plain);
    assert_eq!(build(&[("flow", "xtls"), ("security", "none")]), plain);
    assert_eq!(build(&[("flow", ""), ("security", "tls")]), plain);
    assert_eq!(build(&[("flow", "xtls"), ("security", "tls")]), with_flow);
}

fn whole(address: &str, port: u16, listen: u16) -> Value {
    json(&format!(
        r#"{{
            "log": {{"loglevel": "none"}},
            "dns": {{"servers": ["1.1.1.1", "8.8.8.8"], "queryStrategy": "UseIPv4"}},
            "inbounds": [{{
                "listen": "127.0.0.1", "port": {listen}, "protocol": "socks",
                "settings": {{"auth": "noauth", "udp": true}},
                "sniffing": {{"enabled": true, "destOverride": ["http", "tls", "quic"]}}
            }}],
            "outbounds": [
                {{
                    "tag": "proxy", "protocol": "vless",
                    "settings": {{"vnext": [{{"address": "{address}", "port": {port},
                        "users": [{{"id": "id", "encryption": "none"}}]}}]}},
                    "streamSettings": {{"network": "tcp", "security": "none", "sockopt": {SOCKOPT}}},
                    "mux": {{"enabled": false}}
                }},
                {{"tag": "dns-out", "protocol": "dns"}}
            ],
            "routing": {{
                "domainStrategy": "AsIs",
                "rules": [
                    {{"type": "field", "port": 53, "outboundTag": "dns-out"}},
                    {{"type": "field", "outboundTag": "proxy", "network": "udp,tcp"}}
                ]
            }}
        }}"#
    ))
}

fn link(host: Option<&str>, port: Option<u16>, query: &[(&str, &str)]) -> LinkParts {
    LinkParts {
        scheme: "vless".to_string(),
        username: "id".to_string(),
        host: host.map(str::to_string),
        port,
        query: pairs(query),
        fragment: None,
    }
}

#[test]
fn a_link_becomes_a_whole_configuration() {
    assert_eq!(
        create_config_from_url(&link(Some("h.com"), Some(8443), &[]), 1080),
        whole("h.com", 8443, 1080)
    );
    assert_eq!(
        create_config_from_url(&link(None, None, &[]), 65535),
        whole("0.0.0.0", 443, 65535)
    );
    assert_eq!(
        assemble_vless_config("id", "h.com", 1, 2, &params(&[])),
        whole("h.com", 1, 2)
    );
}

#[test]
fn only_the_last_value_of_a_key_counts() {
    assert_eq!(
        create_config_from_url(&link(Some("h.com"), None, &[("type", "ws"), ("type", "tcp")]), 1),
        create_config_from_url(&link(Some("h.com"), None, &[("type", "tcp")]), 1)
    );
}

#[test]
fn the_configuration_is_written_as_json() {
    let parts = link(Some("h.com"), Some(8443), &[("sni", "a\"b")]);
    let bytes = write_config(&parts, 1080).unwrap();
    let read: Value = serde_json::from_slice(&bytes).unwrap();
    assert_eq!(read, create_config_from_url(&parts, 1080));
    assert!(bytes.starts_with(br#"{"dns":{"queryStrategy":"UseIPv4","servers":["1.1.1.1","8.8.8.8"]}"#));
}
