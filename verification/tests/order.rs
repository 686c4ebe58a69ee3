use vless_harvester::order::{rank, text_precedes};
use vless_harvester::params::Params;
use vless_harvester::speed::Double;

fn double(x: f64) -> Double {
    Double { bits: x.to_bits() }
}

#[test]
fn texts_are_ordered_as_strings_are() {
    let texts = ["", "a", "aa", "ab", "b", "B", "\u{e9}", "\u{ffff}", "\u{10000}", "type", "security"];
    for a in texts {
        for b in texts {
            assert_eq!(text_precedes(a, b), a < b, "{a:?} {b:?}");
        }
    }
}

#[test]
fn ranking_is_stable_and_from_the_greatest() {
    assert_eq!(rank(&vec![3, 9, 3, -1, 9]), vec![1, 4, 0, 2, 3]);
    assert_eq!(rank(&vec![]), Vec::<usize>::new());
    assert_eq!(rank(&vec![5, 5, 5]), vec![0, 1, 2]);
}

#[test]
fn doubles_compare_as_their_bit_patterns_say() {
    let values = [
        0.0,
        -0.0,
        1.0,
        -1.0,
        56.0,
        55.999999999999993,
        1000.0,
        1000.0000000000001,
        0.01,
        f64::MIN_POSITIVE,
        5e-324,
        -5e-324,
        f64::MAX,
        f64::MIN,
        f64::INFINITY,
        f64::NEG_INFINITY,
        f64::NAN,
        -f64::NAN,
    ];
    for a in values {
        assert_eq!(double(a).is_nan(), a.is_nan());
        for b in values {
            assert_eq!(double(a).is_at_least(&double(b)), a >= b, "{a} {b}");
            assert_eq!(double(a).is_above(&double(b)), a > b, "{a} {b}");
            assert_eq!(
                double(a).by_total_order().cmp(&double(b).by_total_order()),
                a.total_cmp(&b),
                "{a} {b}"
            );
        }
    }
}

#[test]
fn parameters_are_listed_in_the_order_of_their_keys() {
    let pairs: Vec<(String, String)> = [("type", "ws"), ("a", "1"), ("security", "tls"), ("a", "2")]
        .iter()
        .map(|(k, v)| (k.to_string(), v.to_string()))
        .collect();
    let mut params = Params::gather(&pairs);
    assert_eq!(params.get("a"), Some("2"));
    assert_eq!(params.get("b"), None);
    let keys: Vec<&str> = params.entries().iter().map(|e| e.0.as_str()).collect();
    assert_eq!(keys, vec!["a", "security", "type"]);
    params.set("type", "tcp");
    params.set("b", "x");
    let listed: Vec<String> = params
        .entries()
        .iter()
        .map(|e| format!("{}={}", e.0, e.1))
        .collect();
    assert_eq!(listed, vec!["a=2", "b=x", "security=tls", "type=tcp"]);
}
