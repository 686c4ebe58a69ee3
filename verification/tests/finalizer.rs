use vless_harvester::finalizer::{
    clean_provider_name, get_flag_emoji, make_entry, shorten_name, sort_entries, write_entry_line,
    write_lists, write_ping_list, write_summary, write_symbols, Entry, Location,
};
use vless_harvester::speed::Double;

fn double(x: f64) -> Double {
    Double { bits: x.to_bits() }
}

fn entry(line: &str, speed: f64, provider: &str) -> Entry {
    Entry { line: line.to_string(), speed: double(speed), provider: provider.to_string() }
}

fn location(country: Option<&str>, organization: Option<&str>) -> Location {
    Location {
        country: country.map(str::to_string),
        organization: organization.map(str::to_string),
    }
}

#[test]
fn well_known_providers_have_their_usual_names() {
    for (raw, name) in [
        ("DIGITALOCEAN-ASN", "DigitalOcean"),
        ("Amazon.com, Inc.", "AWS"),
        ("xAWSx", "AWS"),
        ("GOOGLE-CLOUD-PLATFORM", "Google Cloud"),
        ("Microsoft Corporation", "Azure"),
        ("Hetzner Online GmbH", "Hetzner"),
        ("OVH SAS", "OVH"),
        ("Linode, LLC", "Linode"),
        ("The Vultr Holdings", "Vultr"),
        ("ORACLE-BMC", "Oracle Cloud"),
        ("Google via Amazon", "AWS"),
    ] {
        assert_eq!(clean_provider_name(raw), name);
    }
}

#[test]
fn other_providers_lose_punctuation_and_suffixes() {
    assert_eq!(clean_provider_name("Foo Networks, LLC."), "Foo Networks");
    assert_eq!(clean_provider_name("(Bar) Ltd"), "Bar");
    assert_eq!(clean_provider_name("PJSC Rostelecom"), "Rostelecom");
    assert_eq!(clean_provider_name("Baz Corporation"), "Baz");
    assert_eq!(clean_provider_name("Incubator Inc"), "ubator");
    assert_eq!(clean_provider_name("L.L.C"), "");
    assert_eq!(clean_provider_name("ÖSTERREICH Telekom"), "ÖSTERREICH Telekom");
    assert_eq!(shorten_name("Foo Inc", "something with ovh"), "OVH");
    assert_eq!(shorten_name("OVH", "x"), "OVH");
}

#[test]
fn letter_case_follows_unicode() {
    // The Kelvin sign is a k in lower case, the sharp s two letters in upper case.
    assert_eq!(clean_provider_name("Hetzner \u{212a}"), "Hetzner");
    assert_eq!(clean_provider_name("ORACLE \u{212a}"), "Oracle Cloud");
    assert_eq!(get_flag_emoji("\u{df}").chars().count(), 2);
}

#[test]
fn flags_are_regional_indicators() {
    assert_eq!(get_flag_emoji("DE"), "\u{1f1e9}\u{1f1ea}");
    assert_eq!(get_flag_emoji("us"), "\u{1f1fa}\u{1f1f8}");
    assert_eq!(get_flag_emoji(""), "");
    assert_eq!(write_symbols("AZ"), "\u{1f1e6}\u{1f1ff}");
    let shifted = |c: char| std::char::from_u32(c as u32 + 0x1F1E6 - 65);
    for c in ['\0', '1', 'a', '\u{e000}', '\u{f0e5a}', '\u{f0e5b}', '\u{10ffff}'] {
        let expected: String = shifted(c).into_iter().collect();
        assert_eq!(write_symbols(&c.to_string()), expected, "{c:?}");
    }
}

#[test]
fn a_located_node_is_named_by_its_provider() {
    let made = make_entry(
        "vless://u@h:1?a=b#Old",
        double(123.4),
        "123",
        &location(Some("DE"), Some("Hetzner Online GmbH")),
    );
    assert_eq!(made.line, "vless://u@h:1?a=b#\u{1f1e9}\u{1f1ea}123Mb | Hetzner");
    assert_eq!(made.provider, "Hetzner");
    assert_eq!(made.speed, double(123.4));
}

#[test]
fn a_node_that_is_not_located_keeps_its_name() {
    let unknown = [
        location(None, None),
        location(Some("XX"), Some("OVH")),
        location(Some("DE"), None),
        location(Some("DE"), Some("Unknown")),
        location(None, Some("OVH")),
    ];
    for place in unknown {
        let made = make_entry("vless://u@h#%5BMy%5D%20|Node#2", double(60.0), "60", &place);
        assert_eq!(made.line, "vless://u@h#\u{1f310}60Mb | My Node#2");
    }
    let made = make_entry("vless://u@h", double(60.0), "60", &location(None, Some("OVH")));
    assert_eq!(made.line, "vless://u@h#\u{1f310}60Mb | Unnamed");
    assert_eq!(made.provider, "OVH");
}

#[test]
fn names_are_decoded_and_cut() {
    let name = |fragment: &str| {
        write_entry_line(&format!("b#{fragment}"), "1", "XX", "", "Unknown")
    };
    assert_eq!(name(""), "b#\u{1f310}1Mb | ");
    assert_eq!(name("%ff"), "b#\u{1f310}1Mb | ");
    assert_eq!(name("%e2%82%ac%20x"), "b#\u{1f310}1Mb | \u{20ac} x");
    assert_eq!(name("%4"), "b#\u{1f310}1Mb | %4");
    assert_eq!(name("%g1%41"), "b#\u{1f310}1Mb | %g1A");
    assert_eq!(
        name(&format!("%20{}", "\u{e9}".repeat(40))),
        format!("b#\u{1f310}1Mb | {}", "\u{e9}".repeat(30))
    );
}

#[test]
fn entries_are_sorted_by_speed() {
    let given = vec![
        entry("a", 60.0, "p"),
        entry("b", 70.0, "p"),
        entry("c", 60.0, "p"),
        entry("d", -0.0, "p"),
        entry("e", 0.0, "p"),
        entry("f", f64::NAN, "p"),
    ];
    let order: Vec<String> = sort_entries(&given).into_iter().map(|e| e.line).collect();
    assert_eq!(order, vec!["f", "b", "a", "c", "e", "d"]);
}

#[test]
fn the_short_list_has_limits() {
    let mut given = Vec::new();
    for i in 0..60 {
        given.push(entry(&format!("big{i}"), 900.0 - i as f64, "Big"));
    }
    for i in 0..3 {
        given.push(entry(&format!("small{i}"), 100.0 - i as f64, "Small"));
    }
    let lists = write_lists(&given);
    assert_eq!((lists.full_count, lists.short_count), (63, 53));
    assert_eq!(lists.full.lines().count(), 63);
    let short: Vec<&str> = lists.short.lines().collect();
    assert_eq!(short[0], "big0");
    assert_eq!(short[49], "big49");
    assert_eq!(&short[50..], ["small0", "small1", "small2"]);
    assert!(!lists.short.ends_with('\n'));

    let many: Vec<Entry> = (0..700)
        .map(|i| entry(&format!("n{i}"), 1000.0 - i as f64, &format!("p{}", i % 100)))
        .collect();
    let lists = write_lists(&many);
    assert_eq!((lists.full_count, lists.short_count), (700, 600));
    assert_eq!(lists.short.lines().last(), Some("n599"));
}

#[test]
fn empty_lists_are_empty() {
    let lists = write_lists(&Vec::new());
    assert_eq!(lists.full, "");
    assert_eq!(lists.short, "");
    assert_eq!((lists.full_count, lists.short_count), (0, 0));
    assert_eq!(
        write_summary(12, 3),
        "Full list: 12 entries. Filtered list: 3 entries."
    );
}

#[test]
fn the_ping_list_has_a_node_on_each_line() {
    assert_eq!(write_ping_list(&Vec::new()), None);
    assert_eq!(
        write_ping_list(&vec!["a".to_string(), "b".to_string()]),
        Some("a\nb".to_string())
    );
}
