//! The stages that a node passes through: what each decides, step by step.
use vstd::prelude::*;

use crate::config::TestOutput;
use crate::config::{MAX_SPEED, MIN_SPEED_THRESHOLD, MIN_TEST_SECONDS};
use crate::config_builder::{link_config, write_config};
use crate::encoding::{percent_decode, percent_decoded};
use crate::json::encoded;
use crate::link::{parse_link, parsed_link, LinkParts, LinkView};
use crate::speed::Double;
use crate::text::{after_first, after_last, before_first, first_chars};
use crate::text::{last_part, split_first, take_chars};

verus! {

/// How often a client is started, and how often a page is asked for, before a test is given up.
pub const MAX_TRIES: u8 = 2;

/// How many bytes a measurement downloads.
pub const TARGET_SIZE: u64 = 31_457_280;

/// How many bytes a measurement must exceed to count.
pub const MIN_DOWNLOAD: u64 = 100_000;

/// How far the test of a node has come.
#[derive(Debug)]
pub enum Phase {
    /// A free local port is being looked for, after `tries` that led nowhere.
    FindingPort { tries: u8 },
    /// The client was started on `port`, after `tries` that led nowhere.
    Starting { tries: u8, port: u16 },
    /// The client did not come up and is being stopped, after `tries` before it.
    Stopping { tries: u8 },
    /// The connection through the client is being set up.
    Connecting,
    /// The page was asked for, after `tries` without success.
    Requesting { tries: u8 },
    /// The page did not come, for the `tries`th time.
    Pausing { tries: u8 },
    /// The address that the node goes out from is being asked for.
    Locating,
    /// The file is being downloaded.
    Downloading { ip: String, downloaded: u64 },
    /// The download has ended, and its duration is being taken.
    Timing { ip: String, downloaded: u64 },
    /// The throughput is being computed.
    Rating { ip: String, downloaded: u64 },
    /// The test is over.
    Done,
}

/// What happened in answer to an action.
#[derive(Debug)]
pub enum Event {
    /// No port could be had.
    NoPort,
    /// A port was had, but not which.
    PortUnknown,
    /// A port was had.
    Port(u16),
    /// The client could not be started.
    LaunchFailed,
    /// Whether the client came up.
    Ready(bool),
    /// The client was stopped.
    Stopped,
    /// Whether the connection could be set up.
    Connected(bool),
    /// Whether the page came.
    Response(bool),
    /// The pause is over.
    Paused,
    /// The address that the node goes out from.
    Address(String),
    /// The number of bytes in the next piece of the file.
    Chunk(u64),
    /// The file came to its end, broke off or took too long.
    StreamEnded,
    /// How long the download took, in seconds.
    Elapsed(Double),
    /// The throughput in Mbit/s.
    Throughput(Double),
}

/// What is to be done next.
#[derive(Debug)]
pub enum Action {
    /// Find a free local port.
    FindPort,
    /// Start the client on the port with the configuration, and wait until it is up.
    Launch(u16, Vec<u8>),
    /// Stop the client.
    Stop,
    /// Set up a connection through the client on the port.
    Connect(u16),
    /// Ask for the page.
    Request,
    /// Wait before asking again.
    Pause,
    /// Ask which address the node goes out from.
    Locate,
    /// Take the next piece of the file.
    NextChunk,
    /// Take the time since the download began.
    ReadClock,
    /// Compute the throughput from the number of bytes.
    Rate(u64),
    /// End the test with this result.
    Finish(Option<TestOutput>),
}

/// What an `Action` says.
pub enum ActionView {
    FindPort,
    Launch(u16, Seq<u8>),
    Stop,
    Connect(u16),
    Request,
    Pause,
    Locate,
    NextChunk,
    ReadClock,
    Rate(u64),
    Finish(Option<TestOutput>),
}

impl View for Action {
    type V = ActionView;

    open spec fn view(&self) -> ActionView {
        match *self {
            Action::FindPort => ActionView::FindPort,
            Action::Launch(port, config) => ActionView::Launch(port, config@),
            Action::Stop => ActionView::Stop,
            Action::Connect(port) => ActionView::Connect(port),
            Action::Request => ActionView::Request,
            Action::Pause => ActionView::Pause,
            Action::Locate => ActionView::Locate,
            Action::NextChunk => ActionView::NextChunk,
            Action::ReadClock => ActionView::ReadClock,
            Action::Rate(downloaded) => ActionView::Rate(downloaded),
            Action::Finish(output) => ActionView::Finish(output),
        }
    }
}

/// The end of a test without a result.
pub open spec fn failed() -> (Phase, ActionView) {
    (Phase::Done, ActionView::Finish(None))
}

/// The next attempt to start the client after `tries` that led nowhere, if one is left.
pub open spec fn next_launch(tries: int) -> (Phase, ActionView) {
    if tries < MAX_TRIES {
        (Phase::FindingPort { tries: tries as u8 }, ActionView::FindPort)
    } else {
        failed()
    }
}

/// The download after `downloaded` bytes.
pub open spec fn after_bytes(ip: String, downloaded: u64) -> (Phase, ActionView) {
    if downloaded >= TARGET_SIZE {
        (Phase::Timing { ip, downloaded }, ActionView::ReadClock)
    } else {
        (Phase::Downloading { ip, downloaded }, ActionView::NextChunk)
    }
}

/// Whether a measurement says anything.
pub open spec fn worth_rating(elapsed: Double, downloaded: u64) -> bool {
    elapsed.exceeds(Double { bits: MIN_TEST_SECONDS }) && downloaded > MIN_DOWNLOAD
}

/// What follows an event: the next phase, and what is to be done. An event that answers nothing
/// that was asked ends the test.
pub open spec fn following(
    config: spec_fn(u16) -> Option<Seq<u8>>,
    speed_test: bool,
    phase: Phase,
    event: Event,
) -> (Phase, ActionView) {
    match (phase, event) {
        (Phase::FindingPort { tries }, Event::NoPort) => next_launch(tries + 1),
        (Phase::FindingPort { tries }, Event::Port(port)) => match config(port) {
            Some(bytes) => (Phase::Starting { tries, port }, ActionView::Launch(port, bytes)),
            None => failed(),
        },
        (Phase::Starting { tries, port }, Event::Ready(up)) => if up {
            (Phase::Connecting, ActionView::Connect(port))
        } else {
            (Phase::Stopping { tries }, ActionView::Stop)
        },
        (Phase::Stopping { tries }, Event::Stopped) => next_launch(tries + 1),
        (Phase::Connecting, Event::Connected(ok)) => if ok {
            (Phase::Requesting { tries: 0 }, ActionView::Request)
        } else {
            failed()
        },
        (Phase::Requesting { tries }, Event::Response(ok)) => if !ok {
            if tries < MAX_TRIES {
                (Phase::Pausing { tries: (tries + 1) as u8 }, ActionView::Pause)
            } else {
                failed()
            }
        } else if speed_test {
            (Phase::Locating, ActionView::Locate)
        } else {
            (Phase::Done, ActionView::Finish(Some(TestOutput::PingSuccess)))
        },
        (Phase::Pausing { tries }, Event::Paused) => if tries < MAX_TRIES {
            (Phase::Requesting { tries }, ActionView::Request)
        } else {
            failed()
        },
        (Phase::Locating, Event::Address(ip)) => (
            Phase::Downloading { ip, downloaded: 0 },
            ActionView::NextChunk,
        ),
        (Phase::Downloading { ip, downloaded }, Event::Chunk(len)) => after_bytes(
            ip,
            (downloaded + len) as u64,
        ),
        (Phase::Downloading { ip, downloaded }, Event::StreamEnded) => (
            Phase::Timing { ip, downloaded },
            ActionView::ReadClock,
        ),
        (Phase::Timing { ip, downloaded }, Event::Elapsed(elapsed)) => if worth_rating(
            elapsed,
            downloaded,
        ) {
            (Phase::Rating { ip, downloaded }, ActionView::Rate(downloaded))
        } else {
            failed()
        },
        (Phase::Rating { ip, downloaded }, Event::Throughput(speed)) => if speed.exceeds(
            Double { bits: MAX_SPEED },
        ) {
            failed()
        } else {
            (Phase::Done, ActionView::Finish(Some(TestOutput::Full(speed, ip))))
        },
        _ => failed(),
    }
}

/// The test of one node: a ping, or a measurement of its throughput.
#[derive(Debug)]
pub struct TestStep {
    /// The node.
    pub link: LinkParts,
    /// Whether the throughput is measured.
    pub speed_test: bool,
    /// How far the test has come.
    pub phase: Phase,
}

/// The configurations for a link, by port.
pub open spec fn configs(link: LinkView) -> spec_fn(u16) -> Option<Seq<u8>> {
    |port: u16| Some(encoded(link_config(link, port)))
}

/// The next attempt to start the client, after one more than `tries` that led nowhere.
fn start_again(tries: u8) -> (next: (Phase, Action))
    ensures
        (next.0, next.1@) == next_launch(tries + 1),
{
    if tries < MAX_TRIES - 1 {
        (Phase::FindingPort { tries: tries + 1 }, Action::FindPort)
    } else {
        (Phase::Done, Action::Finish(None))
    }
}

impl TestStep {
    /// Begins the test of a link; the first thing to do is to find a port.
    pub fn begin_link(link: LinkParts, speed_test: bool) -> (step: TestStep)
        ensures
            step.link == link,
            step.speed_test == speed_test,
            step.phase == (Phase::FindingPort { tries: 0 }),
    {
        TestStep { link, speed_test, phase: Phase::FindingPort { tries: 0 } }
    }

    /// Begins the test of a node; there is none where the text is no link.
    pub fn begin(line: &str, speed_test: bool) -> (step: Option<TestStep>)
        ensures
            match step {
                Some(step) => {
                    &&& parsed_link(line@) == Some(step.link@)
                    &&& step.speed_test == speed_test
                    &&& step.phase == (Phase::FindingPort { tries: 0 })
                },
                None => parsed_link(line@) is None,
            },
    {
        match parse_link(line) {
            Some(link) => Some(TestStep::begin_link(link, speed_test)),
            None => None,
        }
    }

    /// Whether an event can be taken in: the bytes of a piece can be added to those before it.
    pub open spec fn accepts(self, event: Event) -> bool {
        match (self.phase, event) {
            (Phase::Downloading { ip, downloaded }, Event::Chunk(len)) => downloaded + len
                <= u64::MAX,
            _ => true,
        }
    }

    /// Takes in what happened, and says what is to be done next.
    pub fn advance(self, event: Event) -> (next: (TestStep, Action))
        requires
            self.accepts(event),
        ensures
            next.0.link == self.link,
            next.0.speed_test == self.speed_test,
            (next.0.phase, next.1@) == following(
                configs(self.link@),
                self.speed_test,
                self.phase,
                event,
            ),
    {
        let TestStep { link, speed_test, phase } = self;
        let (phase, action) = match (phase, event) {
            (Phase::FindingPort { tries }, Event::NoPort) => start_again(tries),
            (Phase::FindingPort { tries }, Event::Port(port)) => match write_config(&link, port) {
                Some(config) => (Phase::Starting { tries, port }, Action::Launch(port, config)),
                None => (Phase::Done, Action::Finish(None)),
            },
            (Phase::Starting { tries, port }, Event::Ready(up)) => if up {
                (Phase::Connecting, Action::Connect(port))
            } else {
                (Phase::Stopping { tries }, Action::Stop)
            },
            (Phase::Stopping { tries }, Event::Stopped) => start_again(tries),
            (Phase::Connecting, Event::Connected(ok)) => if ok {
                (Phase::Requesting { tries: 0 }, Action::Request)
            } else {
                (Phase::Done, Action::Finish(None))
            },
            (Phase::Requesting { tries }, Event::Response(ok)) => if !ok {
                if tries < MAX_TRIES {
                    (Phase::Pausing { tries: tries + 1 }, Action::Pause)
                } else {
                    (Phase::Done, Action::Finish(None))
                }
            } else if speed_test {
                (Phase::Locating, Action::Locate)
            } else {
                (Phase::Done, Action::Finish(Some(TestOutput::PingSuccess)))
            },
            (Phase::Pausing { tries }, Event::Paused) => if tries < MAX_TRIES {
                (Phase::Requesting { tries }, Action::Request)
            } else {
                (Phase::Done, Action::Finish(None))
            },
            (Phase::Locating, Event::Address(ip)) => (
                Phase::Downloading { ip, downloaded: 0 },
                Action::NextChunk,
            ),
            (Phase::Downloading { ip, downloaded }, Event::Chunk(len)) => {
                let sum = downloaded + len;
                if sum >= TARGET_SIZE {
                    (Phase::Timing { ip, downloaded: sum }, Action::ReadClock)
                } else {
                    (Phase::Downloading { ip, downloaded: sum }, Action::NextChunk)
                }
            },
            (Phase::Downloading { ip, downloaded }, Event::StreamEnded) => (
                Phase::Timing { ip, downloaded },
                Action::ReadClock,
            ),
            (Phase::Timing { ip, downloaded }, Event::Elapsed(elapsed)) => if elapsed.is_above(
                &Double { bits: MIN_TEST_SECONDS },
            ) && downloaded > MIN_DOWNLOAD {
                (Phase::Rating { ip, downloaded }, Action::Rate(downloaded))
            } else {
                (Phase::Done, Action::Finish(None))
            },
            (Phase::Rating { ip, downloaded: _ }, Event::Throughput(speed)) => if speed.is_above(
                &Double { bits: MAX_SPEED },
            ) {
                (Phase::Done, Action::Finish(None))
            } else {
                (Phase::Done, Action::Finish(Some(TestOutput::Full(speed, ip))))
            },
            _ => (Phase::Done, Action::Finish(None)),
        };
        (TestStep { link, speed_test, phase }, action)
    }
}

/// How often the answers to `events` are actions of a kind.
pub open spec fn how_often(
    kind: spec_fn(ActionView) -> bool,
    config: spec_fn(u16) -> Option<Seq<u8>>,
    speed_test: bool,
    phase: Phase,
    events: Seq<Event>,
) -> nat
    decreases events.len(),
{
    if events.len() == 0 {
        0
    } else {
        let (next, action) = following(config, speed_test, phase, events.first());
        how_often(kind, config, speed_test, next, events.drop_first()) + if kind(action) {
            1nat
        } else {
            0nat
        }
    }
}

/// The actions that start a client.
pub open spec fn starts_client() -> spec_fn(ActionView) -> bool {
    |action: ActionView| action is Launch
}

/// The actions that ask for the page.
pub open spec fn asks_for_page() -> spec_fn(ActionView) -> bool {
    |action: ActionView| action is Request
}

/// The actions that only a measurement takes.
pub open spec fn measures() -> spec_fn(ActionView) -> bool {
    |action: ActionView|
        action is Locate || action is NextChunk || action is ReadClock || action is Rate || (action
            matches ActionView::Finish(Some(output)) && output is Full)
}

/// How often the client can still be started.
spec fn launches_left(phase: Phase) -> int {
    match phase {
        Phase::FindingPort { tries } => if tries < MAX_TRIES {
            MAX_TRIES - tries
        } else {
            1
        },
        Phase::Starting { tries, port: _ } => if tries < MAX_TRIES {
            MAX_TRIES - tries - 1
        } else {
            0
        },
        Phase::Stopping { tries } => if tries < MAX_TRIES {
            MAX_TRIES - tries - 1
        } else {
            0
        },
        _ => 0,
    }
}

/// No more starts than are left.
proof fn lemma_launches(
    config: spec_fn(u16) -> Option<Seq<u8>>,
    speed_test: bool,
    phase: Phase,
    events: Seq<Event>,
)
    ensures
        how_often(starts_client(), config, speed_test, phase, events) <= launches_left(phase),
    decreases events.len(),
{
    if events.len() > 0 {
        let (next, action) = following(config, speed_test, phase, events.first());
        lemma_launches(config, speed_test, next, events.drop_first());
    }
}

/// Whatever happens, a test starts the client at most twice.
pub proof fn law_two_launches(
    config: spec_fn(u16) -> Option<Seq<u8>>,
    speed_test: bool,
    events: Seq<Event>,
)
    ensures
        how_often(
            starts_client(),
            config,
            speed_test,
            Phase::FindingPort { tries: 0 },
            events,
        ) <= MAX_TRIES,
{
    lemma_launches(config, speed_test, Phase::FindingPort { tries: 0 }, events);
}

/// How often the page can still be asked for.
spec fn requests_left(phase: Phase) -> int {
    match phase {
        Phase::FindingPort { .. } => MAX_TRIES as int,
        Phase::Starting { .. } => MAX_TRIES as int,
        Phase::Stopping { .. } => MAX_TRIES as int,
        Phase::Connecting => MAX_TRIES as int,
        Phase::Requesting { tries } => if tries < MAX_TRIES {
            MAX_TRIES - tries - 1
        } else {
            0
        },
        Phase::Pausing { tries } => if tries < MAX_TRIES {
            MAX_TRIES - tries
        } else {
            0
        },
        _ => 0,
    }
}

/// No more requests than are left.
proof fn lemma_requests(
    config: spec_fn(u16) -> Option<Seq<u8>>,
    speed_test: bool,
    phase: Phase,
    events: Seq<Event>,
)
    ensures
        how_often(asks_for_page(), config, speed_test, phase, events) <= requests_left(phase),
    decreases events.len(),
{
    if events.len() > 0 {
        let (next, action) = following(config, speed_test, phase, events.first());
        lemma_requests(config, speed_test, next, events.drop_first());
    }
}

/// Whatever happens, a test asks for the page at most twice.
pub proof fn law_two_requests(
    config: spec_fn(u16) -> Option<Seq<u8>>,
    speed_test: bool,
    events: Seq<Event>,
)
    ensures
        how_often(
            asks_for_page(),
            config,
            speed_test,
            Phase::FindingPort { tries: 0 },
            events,
        ) <= MAX_TRIES,
{
    lemma_requests(config, speed_test, Phase::FindingPort { tries: 0 }, events);
}

/// Whether a phase is one that a ping can be in.
spec fn before_measuring(phase: Phase) -> bool {
    !(phase is Locating || phase is Downloading || phase is Timing || phase is Rating)
}

/// A ping that has not begun to measure never does.
proof fn lemma_ping(config: spec_fn(u16) -> Option<Seq<u8>>, phase: Phase, events: Seq<Event>)
    requires
        before_measuring(phase),
    ensures
        how_often(measures(), config, false, phase, events) == 0,
    decreases events.len(),
{
    if events.len() > 0 {
        let (next, action) = following(config, false, phase, events.first());
        assert(before_measuring(next));
        lemma_ping(config, next, events.drop_first());
    }
}

/// Whatever happens, a ping neither downloads nor reports a throughput.
pub proof fn law_ping_only_pings(config: spec_fn(u16) -> Option<Seq<u8>>, events: Seq<Event>)
    ensures
        how_often(measures(), config, false, Phase::FindingPort { tries: 0 }, events) == 0,
{
    lemma_ping(config, Phase::FindingPort { tries: 0 }, events);
}

/// A test succeeds only on what it was for: a ping on the page, a measurement on a throughput
/// that can be believed.
pub proof fn law_success(
    config: spec_fn(u16) -> Option<Seq<u8>>,
    speed_test: bool,
    phase: Phase,
    event: Event,
)
    ensures
        following(config, speed_test, phase, event).1 matches ActionView::Finish(Some(output))
            ==> match output {
            TestOutput::PingSuccess => !speed_test && phase is Requesting && event
                == Event::Response(true),
            TestOutput::Full(speed, ip) => {
                &&& !speed.exceeds(Double { bits: MAX_SPEED })
                &&& event == Event::Throughput(speed)
                &&& phase matches Phase::Rating { ip: seen, downloaded: _ } && seen == ip
            },
        },
{
}

/// A throughput is computed only where more was downloaded than the least that counts, over more
/// than the least time.
pub proof fn law_rating_needs_a_measurement(
    config: spec_fn(u16) -> Option<Seq<u8>>,
    speed_test: bool,
    phase: Phase,
    event: Event,
)
    ensures
        following(config, speed_test, phase, event).1 matches ActionView::Rate(downloaded) ==> {
            &&& downloaded > MIN_DOWNLOAD
            &&& event matches Event::Elapsed(elapsed) && elapsed.exceeds(
                Double { bits: MIN_TEST_SECONDS },
            )
        },
{
}

/// How many more steps a test can take, the pieces of a download aside.
pub open spec fn steps_left(phase: Phase) -> nat {
    match phase {
        Phase::FindingPort { tries } => if tries < MAX_TRIES {
            (20 + 3 * (MAX_TRIES - tries)) as nat
        } else {
            22
        },
        Phase::Starting { tries, port: _ } => if tries < MAX_TRIES {
            (19 + 3 * (MAX_TRIES - tries)) as nat
        } else {
            21
        },
        Phase::Stopping { tries } => if tries < MAX_TRIES {
            (18 + 3 * (MAX_TRIES - tries)) as nat
        } else {
            20
        },
        Phase::Connecting => 17,
        Phase::Requesting { tries } => if tries < MAX_TRIES {
            (6 + 2 * (MAX_TRIES - tries)) as nat
        } else {
            6
        },
        Phase::Pausing { tries } => if tries < MAX_TRIES {
            (7 + 2 * (MAX_TRIES - tries)) as nat
        } else {
            6
        },
        Phase::Locating => 4,
        Phase::Downloading { .. } => 3,
        Phase::Timing { .. } => 2,
        Phase::Rating { .. } => 1,
        Phase::Done => 0,
    }
}

/// A test comes to its end: each event but a piece of the download brings it nearer.
pub proof fn law_test_ends(
    config: spec_fn(u16) -> Option<Seq<u8>>,
    speed_test: bool,
    phase: Phase,
    event: Event,
)
    ensures
        ({
            let next = following(config, speed_test, phase, event).0;
            ||| steps_left(next) < steps_left(phase)
            ||| phase is Done && next is Done
            ||| phase is Downloading && event is Chunk && next is Downloading
        }),
{
}

/// Whether a stage takes on another node: nothing has called the run off, and not enough nodes
/// have been found.
pub fn takes_another(cancelled: bool, found: usize, target_quota: usize) -> (takes: bool)
    ensures
        takes == (!cancelled && found < target_quota),
{
    !cancelled && found < target_quota
}

/// Whether a node goes on to the next stage: it passed this one, and nothing has called the run
/// off since.
pub fn goes_on(passed: bool, cancelled: bool) -> (goes: bool)
    ensures
        goes == (passed && !cancelled),
{
    passed && !cancelled
}

/// How many measurements of a node there are at most.
pub const MAX_ATTEMPTS: u32 = 2;

/// What follows a measurement.
#[derive(Debug)]
pub enum TrialStep {
    /// Measure again, after a pause where `pause` says so.
    Again { pause: bool },
    /// The node is fast enough: its throughput, and the address that it goes out from.
    Publish(Double, String),
    /// The node is not fast enough.
    Drop,
}

/// What follows the measurement number `attempt`: a node that is fast enough is published at
/// once; any other is measured again while there are attempts left, after a pause where the
/// first attempt gave no figure.
pub open spec fn trial_step(attempt: u32, output: Option<TestOutput>) -> TrialStep {
    match output {
        Some(TestOutput::Full(speed, ip)) => if speed.reaches(
            Double { bits: MIN_SPEED_THRESHOLD },
        ) {
            TrialStep::Publish(speed, ip)
        } else if attempt < MAX_ATTEMPTS {
            TrialStep::Again { pause: false }
        } else {
            TrialStep::Drop
        },
        _ => if attempt < MAX_ATTEMPTS {
            TrialStep::Again { pause: attempt == 1 }
        } else {
            TrialStep::Drop
        },
    }
}

/// Decides what follows a measurement.
pub fn after_attempt(attempt: u32, output: Option<TestOutput>) -> (step: TrialStep)
    ensures
        step == trial_step(attempt, output),
{
    match output {
        Some(TestOutput::Full(speed, ip)) => if speed.is_at_least(
            &Double { bits: MIN_SPEED_THRESHOLD },
        ) {
            TrialStep::Publish(speed, ip)
        } else if attempt < MAX_ATTEMPTS {
            TrialStep::Again { pause: false }
        } else {
            TrialStep::Drop
        },
        _ => if attempt < MAX_ATTEMPTS {
            TrialStep::Again { pause: attempt == 1 }
        } else {
            TrialStep::Drop
        },
    }
}

/// What all measurements of a node, from number `attempt` on, come to.
pub open spec fn trial_outcome(attempt: u32, outputs: Seq<Option<TestOutput>>) -> Option<
    (Double, String),
>
    decreases outputs.len(),
{
    if outputs.len() == 0 {
        None
    } else {
        match trial_step(attempt, outputs.first()) {
            TrialStep::Publish(speed, ip) => Some((speed, ip)),
            TrialStep::Again { pause: _ } => trial_outcome(
                (attempt + 1) as u32,
                outputs.drop_first(),
            ),
            TrialStep::Drop => None,
        }
    }
}

/// Whether a measurement found the node fast enough.
pub open spec fn fast_enough(output: Option<TestOutput>) -> bool {
    output matches Some(TestOutput::Full(speed, _)) && speed.reaches(
        Double { bits: MIN_SPEED_THRESHOLD },
    )
}

/// A node is published exactly where one of its first two measurements finds it fast enough,
/// with what the first such measurement gave.
pub proof fn law_published_when_fast(outputs: Seq<Option<TestOutput>>)
    requires
        outputs.len() >= MAX_ATTEMPTS,
    ensures
        trial_outcome(1, outputs) is Some <==> fast_enough(outputs[0]) || fast_enough(outputs[1]),
        trial_outcome(1, outputs) matches Some((speed, ip)) ==> Some(TestOutput::Full(speed, ip))
            == if fast_enough(outputs[0]) {
            outputs[0]
        } else {
            outputs[1]
        },
{
    let rest = outputs.drop_first();
    assert(rest.first() == outputs[1]);
    assert(trial_outcome(2, rest) == match trial_step(2, rest.first()) {
        TrialStep::Publish(speed, ip) => Some((speed, ip)),
        _ => None,
    });
}

/// The number under which the next result counts, where the quota has room for it.
pub open spec fn claimed(found_before: int, target_quota: int) -> Option<int> {
    if found_before < target_quota {
        Some(found_before + 1)
    } else {
        None
    }
}

/// Claims the number under which the next result counts, given how many claimed one before it.
pub fn claim_number(found_before: usize, target_quota: usize) -> (number: Option<usize>)
    ensures
        match number {
            Some(number) => claimed(found_before as int, target_quota as int) == Some(
                number as int,
            ),
            None => claimed(found_before as int, target_quota as int) is None,
        },
{
    if found_before < target_quota {
        Some(found_before + 1)
    } else {
        None
    }
}

/// The numbers that the first `claims` results get, those that get none aside.
pub open spec fn numbers_given(claims: nat, target_quota: nat) -> Seq<int>
    decreases claims,
{
    if claims == 0 {
        Seq::empty()
    } else {
        let before = numbers_given((claims - 1) as nat, target_quota);
        match claimed(claims - 1, target_quota as int) {
            Some(number) => before.push(number),
            None => before,
        }
    }
}

/// However many results come, they get the numbers from 1 up to the quota, each once.
pub proof fn law_quota(claims: nat, target_quota: nat)
    ensures
        numbers_given(claims, target_quota) == Seq::new(
            if claims < target_quota {
                claims
            } else {
                target_quota
            },
            |i: int| i + 1,
        ),
    decreases claims,
{
    if claims > 0 {
        law_quota((claims - 1) as nat, target_quota);
    }
}

/// How many characters of a label are shown.
pub const LABEL_LENGTH: usize = 30;

/// What a node is called in messages: the name after its last `#`, decoded where that can be
/// done, or else its host.
pub open spec fn label_of(node: Seq<char>) -> Seq<char> {
    let whole = if after_first(node, '#') is Some {
        let name = after_last(node, '#');
        match percent_decoded(name) {
            Some(decoded) => decoded,
            None => name,
        }
    } else {
        before_first(after_last(node, '@'), ':')
    };
    first_chars(whole, LABEL_LENGTH as nat)
}

/// What a node is called in messages.
pub fn node_label(node: &str) -> (label: String)
    ensures
        label@ == label_of(node@),
{
    let (_, rest) = split_first(node, '#');
    match rest {
        Some(_) => {
            let name = last_part(node, '#');
            match percent_decode(name.as_str()) {
                Some(decoded) => take_chars(decoded.as_str(), LABEL_LENGTH),
                None => take_chars(name.as_str(), LABEL_LENGTH),
            }
        },
        None => {
            let address = last_part(node, '@');
            let (host, _) = split_first(address.as_str(), ':');
            take_chars(host.as_str(), LABEL_LENGTH)
        },
    }
}

} // verus!
