use vless_harvester::config::{
    TestOutput, TestResult, MAX_SPEED, MIN_SPEED_THRESHOLD, MIN_TEST_SECONDS,
};
use vless_harvester::config_builder::write_config;
use vless_harvester::link::LinkParts;
use vless_harvester::schedule::{
    run_is_due, starts_immediately, Collected, Watch, TARGET_QUOTA,
};
use vless_harvester::speed::Double;
use vless_harvester::stages::{
    after_attempt, claim_number, goes_on, node_label, takes_another, Action, Event, TestStep,
    TrialStep, TARGET_SIZE,
};
use vless_harvester::utils::{
    after_dial, after_reply, check_environment_integrity, dial_target, is_artifact_stale,
    link_dial_target, read_address, temp_path, AddressStep, DialStep, FileAge,
};

fn double(x: f64) -> Double {
    Double { bits: x.to_bits() }
}

fn link() -> LinkParts {
    LinkParts {
        scheme: "vless".to_string(),
        username: "u".to_string(),
        host: Some("h.com".to_string()),
        port: None,
        query: Vec::new(),
        fragment: None,
    }
}

/// The actions that answer the events, in short.
fn run(speed_test: bool, events: Vec<Event>) -> Vec<String> {
    let mut step = TestStep::begin_link(link(), speed_test);
    let mut seen = Vec::new();
    for event in events {
        let (next, action) = step.advance(event);
        step = next;
        seen.push(match action {
            Action::Launch(port, config) => {
                assert_eq!(Some(config), write_config(&link(), port));
                format!("Launch({port})")
            }
            Action::Finish(Some(TestOutput::Full(speed, ip))) => {
                format!("Full({}, {ip})", f64::from_bits(speed.bits))
            }
            other => format!("{other:?}"),
        });
    }
    seen
}

#[test]
fn limits_are_the_doubles_they_are_meant_to_be() {
    assert_eq!(f64::from_bits(MIN_SPEED_THRESHOLD), 56.0);
    assert_eq!(f64::from_bits(MAX_SPEED), 1000.0);
    assert_eq!(f64::from_bits(MIN_TEST_SECONDS), 0.01);
    assert_eq!(TARGET_SIZE, 30 * 1024 * 1024);
}

#[test]
fn a_ping_ends_with_the_page() {
    assert_eq!(
        run(
            false,
            vec![
                Event::Port(5),
                Event::Ready(true),
                Event::Connected(true),
                Event::Response(false),
                Event::Paused,
                Event::Response(true),
            ]
        ),
        vec![
            "Launch(5)",
            "Connect(5)",
            "Request",
            "Pause",
            "Request",
            "Finish(Some(PingSuccess))"
        ]
    );
}

#[test]
fn the_client_is_started_at_most_twice() {
    assert_eq!(
        run(
            false,
            vec![
                Event::Port(5),
                Event::Ready(false),
                Event::Stopped,
                Event::Port(6),
                Event::Ready(false),
                Event::Stopped,
            ]
        ),
        vec!["Launch(5)", "Stop", "FindPort", "Launch(6)", "Stop", "Finish(None)"]
    );
    assert_eq!(
        run(false, vec![Event::NoPort, Event::NoPort]),
        vec!["FindPort", "Finish(None)"]
    );
    assert_eq!(
        run(false, vec![Event::NoPort, Event::Port(7), Event::Ready(true)]),
        vec!["FindPort", "Launch(7)", "Connect(7)"]
    );
}

#[test]
fn a_test_ends_where_it_cannot_go_on() {
    assert_eq!(run(true, vec![Event::PortUnknown]), vec!["Finish(None)"]);
    assert_eq!(
        run(true, vec![Event::Port(1), Event::LaunchFailed]),
        vec!["Launch(1)", "Finish(None)"]
    );
    assert_eq!(
        run(true, vec![Event::Port(1), Event::Ready(true), Event::Connected(false)]),
        vec!["Launch(1)", "Connect(1)", "Finish(None)"]
    );
    assert_eq!(
        run(
            true,
            vec![
                Event::Port(1),
                Event::Ready(true),
                Event::Connected(true),
                Event::Response(false),
                Event::Paused,
                Event::Response(false),
                Event::Paused,
            ]
        ),
        vec!["Launch(1)", "Connect(1)", "Request", "Pause", "Request", "Pause", "Finish(None)"]
    );
}

/// A measurement from the page on.
fn measure(events: Vec<Event>) -> Vec<String> {
    let mut all = vec![
        Event::Port(1),
        Event::Ready(true),
        Event::Connected(true),
        Event::Response(true),
        Event::Address("1.2.3.4".to_string()),
    ];
    all.extend(events);
    run(true, all).split_off(3)
}

#[test]
fn a_measurement_gives_throughput_and_address() {
    assert_eq!(
        measure(vec![
            Event::Chunk(31_457_279),
            Event::Chunk(1),
            Event::Elapsed(double(2.0)),
            Event::Throughput(double(125.8)),
        ]),
        vec![
            "Locate",
            "NextChunk",
            "NextChunk",
            "ReadClock",
            "Rate(31457280)",
            "Full(125.8, 1.2.3.4)"
        ]
    );
    assert_eq!(
        measure(vec![
            Event::Chunk(100_001),
            Event::StreamEnded,
            Event::Elapsed(double(10.0)),
            Event::Throughput(double(1000.0)),
        ])
        .last()
        .map(String::as_str),
        Some("Full(1000, 1.2.3.4)")
    );
}

#[test]
fn a_measurement_that_says_nothing_fails() {
    for events in [
        vec![Event::Chunk(100_000), Event::StreamEnded, Event::Elapsed(double(1.0))],
        vec![Event::StreamEnded, Event::Elapsed(double(1.0))],
        vec![Event::Chunk(200_000), Event::StreamEnded, Event::Elapsed(double(0.01))],
        vec![Event::Chunk(200_000), Event::StreamEnded, Event::Elapsed(double(f64::NAN))],
        vec![
            Event::Chunk(200_000),
            Event::StreamEnded,
            Event::Elapsed(double(1.0)),
            Event::Throughput(double(1000.0000000000001)),
        ],
    ] {
        assert_eq!(measure(events).last().map(String::as_str), Some("Finish(None)"));
    }
}

#[test]
fn a_text_that_is_no_link_has_no_test() {
    assert!(TestStep::begin("no link", true).is_none());
    let step = TestStep::begin("vless://u@h.com:5?a=%20b#n", true).unwrap();
    assert_eq!(step.link.username, "u");
    assert_eq!(step.link.host.as_deref(), Some("h.com"));
    assert_eq!(step.link.port, Some(5));
    assert_eq!(step.link.query, vec![("a".to_string(), " b".to_string())]);
    assert_eq!(step.link.fragment.as_deref(), Some("n"));
    assert!(step.speed_test);
}

#[test]
fn stages_stop_at_the_quota() {
    assert!(takes_another(false, 999, 1000));
    assert!(!takes_another(false, 1000, 1000));
    assert!(!takes_another(true, 0, 1000));
    assert!(goes_on(true, false));
    assert!(!goes_on(true, true));
    assert!(!goes_on(false, false));
    let numbers: Vec<Option<usize>> = (0..4).map(|n| claim_number(n, 2)).collect();
    assert_eq!(numbers, vec![Some(1), Some(2), None, None]);
}

fn full(speed: f64) -> Option<TestOutput> {
    Some(TestOutput::Full(double(speed), "ip".to_string()))
}

#[test]
fn a_node_is_published_when_it_is_fast_enough() {
    assert!(matches!(after_attempt(1, full(56.0)), TrialStep::Publish(s, ip) if s == double(56.0) && ip == "ip"));
    assert!(matches!(after_attempt(2, full(57.0)), TrialStep::Publish(_, _)));
    assert!(matches!(after_attempt(1, full(55.9)), TrialStep::Again { pause: false }));
    assert!(matches!(after_attempt(2, full(55.9)), TrialStep::Drop));
    assert!(matches!(after_attempt(1, None), TrialStep::Again { pause: true }));
    assert!(matches!(after_attempt(1, Some(TestOutput::PingSuccess)), TrialStep::Again { pause: true }));
    assert!(matches!(after_attempt(2, None), TrialStep::Drop));
    assert!(matches!(after_attempt(1, full(f64::NAN)), TrialStep::Again { pause: false }));
}

#[test]
fn labels_are_names_or_hosts() {
    assert_eq!(node_label("vless://u@h:1#a#My%20Node"), "My Node");
    assert_eq!(node_label("vless://u@h:1#%ff"), "%ff");
    assert_eq!(node_label("vless://u@h.com:1?x=y"), "h.com");
    assert_eq!(node_label("nothing"), "nothing");
    assert_eq!(node_label(&format!("x#{}", "a".repeat(31))), "a".repeat(30));
    assert_eq!(node_label("x#"), "");
}

#[test]
fn files_grow_stale() {
    assert!(is_artifact_stale(FileAge::Missing, 4));
    assert!(is_artifact_stale(FileAge::InFuture, 4));
    assert!(!is_artifact_stale(FileAge::Elapsed { secs: 14_400, nanos: 0 }, 4));
    assert!(is_artifact_stale(FileAge::Elapsed { secs: 14_400, nanos: 1 }, 4));
    assert!(is_artifact_stale(FileAge::Elapsed { secs: 14_401, nanos: 0 }, 4));
    assert!(!is_artifact_stale(FileAge::Elapsed { secs: 14_399, nanos: 999_999_999 }, 4));
    let age = FileAge::Elapsed { secs: 16_000, nanos: 0 };
    assert!(run_is_due(Watch::Startup, age));
    assert!(!run_is_due(Watch::Polling, age));
    assert!(run_is_due(Watch::Polling, FileAge::Elapsed { secs: 18_001, nanos: 0 }));
    assert!(run_is_due(Watch::Polling, FileAge::Missing));
}

#[test]
fn what_is_missing_is_named() {
    assert_eq!(check_environment_integrity(true, true), Ok(()));
    assert_eq!(
        check_environment_integrity(false, true),
        Err(vec!["Missing: bin/xray.exe".to_string()])
    );
    assert_eq!(
        check_environment_integrity(false, false),
        Err(vec!["Missing: bin/xray.exe".to_string(), "Missing: core/nodes.txt".to_string()])
    );
    assert_eq!(temp_path("core/x.mmdb"), "core/x.mmdb.tmp");
}

#[test]
fn nodes_are_dialled_at_their_host() {
    assert_eq!(dial_target("vless://u@h.com:8443"), Some(("h.com".to_string(), 8443)));
    assert_eq!(dial_target("vless://u@h.com"), Some(("h.com".to_string(), 443)));
    assert_eq!(dial_target("vless:opaque"), None);
    assert_eq!(dial_target("no link"), None);
    let mut parts = link();
    assert_eq!(link_dial_target(&parts), Some(("h.com".to_string(), 443)));
    parts.host = None;
    assert_eq!(link_dial_target(&parts), None);
}

#[test]
fn a_port_is_dialled_ten_times() {
    assert_eq!(after_dial(1, true), DialStep::Ready);
    assert_eq!(after_dial(9, false), DialStep::PauseAndDial);
    assert_eq!(after_dial(10, false), DialStep::PauseAndGiveUp);
    assert_eq!(after_dial(10, true), DialStep::Ready);
}

#[test]
fn the_address_is_asked_for_twice() {
    assert_eq!(read_address(" 1.2.3.4\n"), "1.2.3.4");
    let ask = |attempt: u32, reply: Option<&str>, is_address: bool| {
        match after_reply(attempt, reply.map(str::to_string), is_address) {
            AddressStep::Found(address) => Some(address),
            AddressStep::PauseAndAsk => None,
        }
    };
    assert_eq!(ask(1, Some("1.2.3.4"), true).as_deref(), Some("1.2.3.4"));
    assert_eq!(ask(1, Some("x"), false), None);
    assert_eq!(ask(1, Some(""), true), None);
    assert_eq!(ask(1, None, false), None);
    assert_eq!(ask(2, None, false).as_deref(), Some("0.0.0.0"));
    assert_eq!(ask(2, Some("x"), false).as_deref(), Some("0.0.0.0"));
}

#[test]
fn arguments_ask_for_a_run() {
    let args = |list: &[&str]| list.iter().map(|a| a.to_string()).collect::<Vec<String>>();
    assert!(starts_immediately(&args(&["prog", "--now"])));
    assert!(starts_immediately(&args(&["prog", "x", "-n"])));
    assert!(!starts_immediately(&args(&["prog", "--now=1", "-N"])));
    assert!(!starts_immediately(&Vec::new()));
}

#[test]
fn results_are_collected_up_to_the_quota() {
    assert_eq!(TARGET_QUOTA, 1000);
    let mut collected = Collected::new(2);
    let result = |n: &str| TestResult {
        raw_url: n.to_string(),
        speed: double(60.0),
        ip: "ip".to_string(),
    };
    assert!(!collected.add(result("a")));
    assert!(collected.add(result("b")));
    let names: Vec<&str> = collected.results.iter().map(|r| r.raw_url.as_str()).collect();
    assert_eq!(names, vec!["a", "b"]);
}
