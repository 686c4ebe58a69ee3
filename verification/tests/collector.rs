use base64::engine::general_purpose;
use base64::Engine;
use vless_harvester::encoding::{decode_base64_safe, Base64Error};
use vless_harvester::harvest::{find_encoded, list_rejections, read_download, read_sources, Harvest};
use vless_harvester::ledger::SourceStats;
use vless_harvester::link::LinkParts;
use vless_harvester::report::{column_width, sort_rows, totals, write_mebibytes, write_table, write_totals};
use vless_harvester::stages::TestStep;
use vless_harvester::vless_collector::{check_link, rejection_notice, validate_vless_node, NodeRejection};

const ID: &str = "0123456789abcdef0123456789abcdef";

fn pairs(list: &[(&str, &str)]) -> Vec<(String, String)> {
    list.iter().map(|(k, v)| (k.to_string(), v.to_string())).collect()
}

fn link(query: &[(&str, &str)]) -> LinkParts {
    LinkParts {
        scheme: "vless".to_string(),
        username: ID.to_string(),
        host: Some("example.com".to_string()),
        port: Some(8443),
        query: pairs(query),
        fragment: None,
    }
}

#[test]
fn a_node_is_written_with_its_parameters_in_order() {
    let mut parts = link(&[("type", " ws "), ("security", "tls"), (" path ", "/a")]);
    parts.fragment = Some("Name".to_string());
    assert_eq!(
        check_link(&parts),
        Ok(format!("vless://{ID}@example.com:8443?path=/a&security=tls&type=ws#Name"))
    );
}

#[test]
fn a_node_without_parameters_has_no_query() {
    let mut parts = link(&[]);
    parts.port = None;
    assert_eq!(check_link(&parts), Ok(format!("vless://{ID}@example.com:443")));
}

#[test]
fn the_raw_transport_is_tcp() {
    assert_eq!(
        check_link(&link(&[("type", "raw")])),
        Ok(format!("vless://{ID}@example.com:8443?type=tcp"))
    );
}

#[test]
fn an_empty_security_counts_as_none_and_stays() {
    assert_eq!(
        check_link(&link(&[("security", "")])),
        Ok(format!("vless://{ID}@example.com:8443?security="))
    );
}

#[test]
fn the_last_value_of_a_key_counts() {
    assert_eq!(
        check_link(&link(&[("type", "bogus"), ("type", "grpc")])),
        Ok(format!("vless://{ID}@example.com:8443?type=grpc"))
    );
    assert_eq!(
        check_link(&link(&[("a", "1"), ("b", "2")])),
        check_link(&link(&[("b", "2"), ("a", "3"), ("a", "1")]))
    );
}

#[test]
fn each_rejection_has_its_cause() {
    let mut parts = link(&[]);
    parts.scheme = "vmess".to_string();
    assert_eq!(check_link(&parts), Err(NodeRejection::UrlParseError));

    let mut parts = link(&[]);
    parts.username = ID[..29].to_string();
    assert_eq!(check_link(&parts), Err(NodeRejection::ShortUuid));
    parts.username = ID[..30].to_string();
    assert!(check_link(&parts).is_ok());

    let mut parts = link(&[]);
    parts.host = None;
    assert_eq!(check_link(&parts), Err(NodeRejection::EmptyHost));

    for (key, value) in [
        ("allowInsecure", "1"),
        ("allowInsecure", "true"),
        ("insecure", "1"),
        ("insecure", "true"),
    ] {
        assert_eq!(check_link(&link(&[(key, value)])), Err(NodeRejection::UrlParseError));
    }
    assert!(check_link(&link(&[("insecure", "0")])).is_ok());

    assert_eq!(
        check_link(&link(&[("security", "xtls")])),
        Err(NodeRejection::UnknownSecurity("xtls".to_string()))
    );
    assert_eq!(
        check_link(&link(&[("type", "kcp")])),
        Err(NodeRejection::UnknownNetwork("kcp".to_string()))
    );
    assert_eq!(
        check_link(&link(&[("type", "")])),
        Err(NodeRejection::UnknownNetwork(String::new()))
    );
    assert_eq!(
        check_link(&link(&[("security", "reality")])),
        Err(NodeRejection::MissingRealityPbk)
    );
    assert!(check_link(&link(&[("security", "reality"), ("pbk", "")])).is_ok());
}

#[test]
fn all_known_layers_are_accepted() {
    for security in ["tls", "none"] {
        for network in ["tcp", "ws", "grpc", "h2", "xhttp", "httpupgrade"] {
            assert!(check_link(&link(&[("security", security), ("type", network)])).is_ok());
        }
    }
}

#[test]
fn rejections_are_reported() {
    assert_eq!(NodeRejection::ShortUuid.to_report(), "UUID_TOO_SHORT");
    assert_eq!(NodeRejection::EmptyHost.to_report(), "EMPTY_HOST");
    assert_eq!(
        NodeRejection::UnknownSecurity("x".to_string()).to_report(),
        "UNKNOWN_SECURITY(x)"
    );
    assert_eq!(
        NodeRejection::UnknownNetwork("kcp".to_string()).to_report(),
        "UNKNOWN_NETWORK(kcp)"
    );
    assert_eq!(NodeRejection::MissingRealityPbk.to_report(), "REALITY_MISSING_PBK");
    assert_eq!(NodeRejection::UrlParseError.to_report(), "URL_PARSE_ERROR");
}

#[test]
fn a_text_is_read_as_a_link_and_checked() {
    let text = format!("  vless://{ID}@Example.com?type=raw&amp;security=tls&sni=a%20b#My%20Node ");
    assert_eq!(
        validate_vless_node(&text),
        Ok(format!("vless://{ID}@Example.com:443?security=tls&sni=a b&type=tcp#My%20Node"))
    );
    assert_eq!(validate_vless_node("not a link"), Err(NodeRejection::UrlParseError));
    assert_eq!(
        validate_vless_node(&format!("https://{ID}@example.com")),
        Err(NodeRejection::UrlParseError)
    );
    assert_eq!(validate_vless_node("vless://short@example.com"), Err(NodeRejection::ShortUuid));
    assert_eq!(validate_vless_node("vless:opaque"), Err(NodeRejection::ShortUuid));
    assert_eq!(
        validate_vless_node(&format!("vless://{ID}@[::1]:99?security=none")),
        Ok(format!("vless://{ID}@[::1]:99?security=none"))
    );
}

#[test]
fn base64_is_read_in_both_alphabets() {
    assert_eq!(decode_base64_safe(" aGVsbG8= \n"), Ok(b"hello".to_vec()));
    assert_eq!(decode_base64_safe("+/+/"), Ok(vec![0xfb, 0xff, 0xbf]));
    assert_eq!(decode_base64_safe("-_-_"), Ok(vec![0xfb, 0xff, 0xbf]));
    assert_eq!(decode_base64_safe(""), Ok(Vec::new()));
    assert_eq!(decode_base64_safe("aGVsbG8"), Err(Base64Error::InvalidPadding));
    assert_eq!(decode_base64_safe("aGV*"), Err(Base64Error::InvalidByte(3, b'*')));
    assert_eq!(decode_base64_safe("a+_="), Err(Base64Error::InvalidByte(1, b'+')));
    assert_eq!(decode_base64_safe("aGVsb"), Err(Base64Error::InvalidLength(5)));
    assert_eq!(decode_base64_safe("aGVsbG9="), Err(Base64Error::InvalidLastSymbol(6, b'9')));
}

#[test]
fn a_download_is_decoded_unless_links_stand_in_it() {
    assert_eq!(find_encoded("x vless://y"), None);
    assert_eq!(find_encoded(" a b\nc\t"), Some("abc".to_string()));
    assert_eq!(read_download(&b"vless://aGVs".to_vec()), "vless://aGVs");
    assert_eq!(read_download(&b"aGVs\r\nbG8=\n".to_vec()), "hello");
    assert_eq!(read_download(&b"no base64!".to_vec()), "no base64!");
    assert_eq!(read_download(&vec![0xff, b'a']), "\u{fffd}a");
    assert_eq!(read_download(&b"/2E=".to_vec()), "\u{fffd}a");
}

#[test]
fn sources_are_listed_once() {
    assert_eq!(
        read_sources(" http://a \n\nhttp://b\r\nhttp://a\n  \n"),
        vec!["http://a", "http://b"]
    );
    assert!(read_sources("").is_empty());
}

fn node(host: &str, name: &str) -> String {
    format!("vless://{ID}@{host}:443?security=tls#{name}")
}

#[test]
fn a_harvest_keeps_each_node_once() {
    let mut harvest = Harvest::new();
    assert!(harvest.nodes().is_empty());
    let first = format!("{}\n\nrubbish\n{}\n{}\n", node("a.com", "One"), node("a.com", "Two"), node("b.com", "x"));
    harvest.harvest_source("s1", &first.clone().into_bytes());
    let second = format!("{}\n{}", node("c.com", "y"), node("b.com", "z"));
    harvest.harvest_text("s2", 7, &second);
    let mut nodes = harvest.nodes();
    nodes.sort();
    assert_eq!(nodes, vec![node("a.com", "One"), node("b.com", "x"), node("c.com", "y")]);
    let mut records = harvest.records();
    records.sort_by(|a, b| a.0.cmp(&b.0));
    assert_eq!(
        records,
        vec![
            ("s1".to_string(), SourceStats { lines: 3, size: first.len(), unique: 2 }),
            ("s2".to_string(), SourceStats { lines: 2, size: 7, unique: 1 }),
        ]
    );
    assert_eq!(totals(&records), (5, 3));
    assert_eq!(
        write_totals(&records),
        "Total nodes fetched: 5 lines, 3 unique nodes globally."
    );
}

#[test]
fn parameters_in_another_order_make_no_new_node() {
    let mut harvest = Harvest::new();
    let a = format!("vless://{ID}@a.com?type=ws&security=tls");
    let b = format!("vless://{ID}@a.com:443?security=tls&amp;type=ws#name");
    harvest.harvest_text("s", 0, &format!("{a}\n{b}"));
    assert_eq!(harvest.nodes().len(), 1);
}

#[test]
fn which_source_comes_first_does_not_change_how_many_nodes_there_are() {
    let x = format!("{}\n{}", node("a.com", "1"), node("b.com", "2"));
    let y = format!("{}\n{}", node("b.com", "3"), node("c.com", "4"));
    let mut one = Harvest::new();
    one.harvest_text("x", 0, &x);
    one.harvest_text("y", 0, &y);
    let mut two = Harvest::new();
    two.harvest_text("y", 0, &y);
    two.harvest_text("x", 0, &x);
    assert_eq!(one.nodes().len(), 3);
    assert_eq!(two.nodes().len(), 3);
}

#[test]
fn a_node_is_kept_by_its_fingerprint() {
    let mut harvest = Harvest::new();
    assert!(harvest.keep("n1".to_string(), Some("f".to_string())));
    assert!(!harvest.keep("n2".to_string(), Some("f".to_string())));
    assert!(!harvest.keep("n1".to_string(), Some("g".to_string())));
    assert!(!harvest.keep("n3".to_string(), None));
    assert!(harvest.keep("n4".to_string(), Some("h".to_string())));
    let mut nodes = harvest.nodes();
    nodes.sort();
    assert_eq!(nodes, vec!["n1", "n4"]);
}

#[test]
fn sizes_are_written_as_a_double_would_be() {
    for size in [
        0usize, 1, 5242, 5243, 10485, 10486, 131072, 393216, 655360, 1048576, 1048575, 123456789,
        5368709120,
    ] {
        assert_eq!(write_mebibytes(size), format!("{:.2}", size as f64 / 1_048_576.0), "{size}");
    }
    for i in 0..20000usize {
        let size = i * 131072 / 7 + i;
        assert_eq!(write_mebibytes(size), format!("{:.2}", size as f64 / 1_048_576.0), "{size}");
    }
}

#[test]
fn the_report_is_a_table_by_line_count() {
    let rows = vec![
        ("http://a".to_string(), SourceStats { lines: 2, size: 1048576, unique: 1 }),
        ("http://longer".to_string(), SourceStats { lines: 30, size: 524288, unique: 12 }),
        ("http://b".to_string(), SourceStats { lines: 2, size: 0, unique: 0 }),
    ];
    assert_eq!(column_width(&rows), 13);
    let order: Vec<String> = sort_rows(&rows).into_iter().map(|r| r.0).collect();
    assert_eq!(order, vec!["http://longer", "http://a", "http://b"]);
    let width = 13;
    let mut expected = vec![
        format!("{:<width$} | {:<7} | {:<10} | {:<7}", "Source", "Lines", "Size (MB)", "Unique"),
        "-".repeat(width + 35),
    ];
    for (url, lines, mb, unique) in [
        ("http://longer", 30, 0.5, 12),
        ("http://a", 2, 1.0, 1),
        ("http://b", 2, 0.0, 0),
    ] {
        expected.push(format!("{url:<width$} | {lines:<7} | {mb:<10.2} | {unique:<7}"));
    }
    expected.push("-".repeat(width + 35));
    assert_eq!(write_table(&rows), expected);
    assert_eq!(column_width(&Vec::new()), 60);
    assert_eq!(write_table(&Vec::new())[1].len(), 95);
}

#[test]
fn a_name_makes_no_new_node() {
    let mut harvest = Harvest::new();
    let bare = format!("vless://{ID}@a.com:443?security=tls");
    harvest.harvest_text("s", 0, &format!("{bare}\n{bare}#\n{bare}#One\n{bare}#Two#Three"));
    assert_eq!(harvest.nodes(), vec![bare]);
    assert_eq!(
        harvest.records(),
        vec![("s".to_string(), SourceStats { lines: 4, size: 0, unique: 1 })]
    );
}

#[test]
fn a_source_that_comes_again_is_recorded_anew() {
    let mut harvest = Harvest::new();
    harvest.harvest_text("s", 5, &node("a.com", "1"));
    harvest.harvest_text("s", 9, "");
    assert_eq!(harvest.nodes(), vec![node("a.com", "1")]);
    assert_eq!(
        harvest.records(),
        vec![("s".to_string(), SourceStats { lines: 0, size: 9, unique: 0 })]
    );
}

#[test]
fn rejected_lines_have_notices() {
    assert_eq!(
        rejection_notice(&NodeRejection::EmptyHost, "vless://x#name#more"),
        "REJECTED [EMPTY_HOST]: vless://x"
    );
    let text = format!(
        " rubbish#1 \n\n{}\nvless://short@a.com\nvless://{ID}@a.com?type=kcp#n",
        node("a.com", "1")
    );
    assert_eq!(
        list_rejections(&text),
        vec![
            "REJECTED [URL_PARSE_ERROR]: rubbish".to_string(),
            "REJECTED [UUID_TOO_SHORT]: vless://short@a.com".to_string(),
            format!("REJECTED [UNKNOWN_NETWORK(kcp)]: vless://{ID}@a.com?type=kcp"),
        ]
    );
}

#[test]
fn base64_downloads_are_harvested() {
    // The Base64 of "vless://0123456789abcdef0123456789abcdef@a.com:443#x\n", broken over lines.
    let text = "dmxlc3M6Ly8wMTIzNDU2Nzg5YWJjZGVmMDEyMzQ1Njc4OWFiY2RlZkBhLmNv\r\nbTo0NDMjeAo=\r\n";
    let mut harvest = Harvest::new();
    harvest.harvest_source("s", &text.as_bytes().to_vec());
    assert_eq!(harvest.nodes(), vec![format!("vless://{ID}@a.com:443#x")]);
    assert_eq!(
        harvest.records(),
        vec![("s".to_string(), SourceStats { lines: 1, size: text.len(), unique: 1 })]
    );
}

#[test]
fn unique_counts_add_up_to_the_nodes() {
    let mut harvest = Harvest::new();
    for (i, hosts) in [["a.com", "b.com"], ["b.com", "c.com"], ["a.com", "c.com"]].iter().enumerate() {
        let text = format!("{}\n{}", node(hosts[0], "x"), node(hosts[1], "y"));
        harvest.harvest_text(&format!("s{i}"), 0, &text);
    }
    assert_eq!(totals(&harvest.records()), (6, 3));
    assert_eq!(harvest.nodes().len(), 3);
}

#[test]
fn base64_of_any_bytes_decodes_to_them() {
    assert_eq!(decode_base64_safe("+/8="), Ok(vec![0xfb, 0xff]));
    assert_eq!(decode_base64_safe("-_8="), Ok(vec![0xfb, 0xff]));
    assert_eq!(decode_base64_safe("\u{3000}TQ==\r\n"), Ok(b"M".to_vec()));
    let mut bytes: Vec<u8> = Vec::new();
    for i in 0..600usize {
        for text in [
            general_purpose::STANDARD.encode(&bytes),
            general_purpose::URL_SAFE.encode(&bytes),
        ] {
            assert_eq!(decode_base64_safe(&format!(" \t{text}\n\u{a0}")), Ok(bytes.clone()));
        }
        bytes.push((i * 151 + i / 7) as u8);
    }
}

#[test]
fn only_canonical_base64_is_taken() {
    for text in ["TQ", "TQ=", "TR==", "TWF=", "T===", "TWFu=", "TQ==TQ==", "+_8=", "TW Fu", "é"] {
        assert!(decode_base64_safe(text).is_err(), "{text}");
    }
}

#[test]
fn a_list_and_its_base64_text_give_the_same_nodes() {
    let list = format!("{}\n{}\nünlesbar?~~\n", node("a.com", "1"), node("b.com", "2"));
    let mut plain = Harvest::new();
    plain.harvest_source("s", &list.clone().into_bytes());
    let mut expected = plain.nodes();
    expected.sort();
    assert_eq!(expected.len(), 2);
    for text in [
        general_purpose::STANDARD.encode(&list),
        general_purpose::URL_SAFE.encode(&list),
    ] {
        let broken: String = text.chars().flat_map(|c| [c, '\n', ' ']).collect();
        assert_eq!(read_download(&broken.clone().into_bytes()), list);
        let mut encoded = Harvest::new();
        encoded.harvest_source("s", &broken.into_bytes());
        let mut nodes = encoded.nodes();
        nodes.sort();
        assert_eq!(nodes, expected);
    }
}

#[test]
fn a_written_node_is_its_own_normal_form() {
    let accepted = [
        format!("vless://{ID}@h.com"),
        format!("VLESS://{ID}@H.com:080/path/?type=raw&b=1&a=x=y&&c#"),
        format!("vless://{ID}=x@y:secret@h~_&=.com:0?=&k=/?:@#Name#more?&="),
        format!("vless://{ID}@h:65535?security=reality&pbk=&type=ws"),
        format!("vless://{ID}@h:?insecure=0&b=2&b=3"),
    ];
    for uri in accepted {
        let node = validate_vless_node(&uri).unwrap();
        assert_eq!(validate_vless_node(&node), Ok(node.clone()), "{uri}");
    }
}

#[test]
fn ordinary_links_have_ordinary_parts() {
    let step = TestStep::begin("vless://a=b@c:d@h&=:0080/p?x=y=z&&w&=#f#g", false).unwrap();
    assert_eq!(step.link.scheme, "vless");
    assert_eq!(step.link.username, "a%3Db%40c");
    assert_eq!(step.link.host.as_deref(), Some("h&="));
    assert_eq!(step.link.port, Some(80));
    assert_eq!(step.link.query, pairs(&[("x", "y=z"), ("w", ""), ("", "")]));
    assert_eq!(step.link.fragment.as_deref(), Some("f#g"));
}

#[test]
fn ordinary_nodes_read_back() {
    let text = "vless://a%3D&~@h&=._-:0?:/?@=:/?@=&=#a#?=&@";
    let link = TestStep::begin(text, false).unwrap().link;
    assert_eq!(link.username, "a%3D&~");
    assert_eq!(link.host.as_deref(), Some("h&=._-"));
    assert_eq!(link.port, Some(0));
    assert_eq!(link.query, pairs(&[(":/?@", ":/?@="), ("", "")]));
    assert_eq!(link.fragment.as_deref(), Some("a#?=&@"));
}
