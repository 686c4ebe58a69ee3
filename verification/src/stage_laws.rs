//! How the test of a node goes, in terms of what has happened and what was asked for.
use vstd::prelude::*;

use crate::config::TestOutput;
use crate::config_builder::link_config;
use crate::encoding::percent_decoded;
use crate::json::encoded;
use crate::link::LinkView;
use crate::speed::Double;
use crate::stages::{asks_for_page, configs, following, how_often, label_of, law_two_launches};
use crate::stages::{law_two_requests, starts_client, trial_step};
use crate::stages::{Action, ActionView, Event, Phase, TrialStep};
use crate::text::{find_char, lemma_find_char_found};
use crate::text_laws::{law_after_last, law_cut_at_first};

verus! {

/// An action says what its parts say.
pub proof fn law_action_says(action: Action)
    ensures
        action@ == match action {
            Action::FindPort => ActionView::FindPort,
            Action::Launch(port, config) => ActionView::Launch(port, config@),
            Action::Stop => ActionView::Stop,
            Action::Connect(port) => ActionView::Connect(port),
            Action::Request => ActionView::Request,
            Action::Pause => ActionView::Pause,
            Action::Locate => ActionView::Locate,
            Action::NextChunk => ActionView::NextChunk,
            Action::ReadClock => ActionView::ReadClock,
            Action::Rate(downloaded) => ActionView::Rate(downloaded),
            Action::Finish(output) => ActionView::Finish(output),
        },
{
}

/// The client is given the configuration of the link for the port that it is to listen on.
pub proof fn law_configs(link: LinkView, port: u16)
    ensures
        configs(link)(port) == Some(encoded(link_config(link, port))),
{
}

/// How far a test has come after these events.
pub open spec fn phase_after(
    config: spec_fn(u16) -> Option<Seq<u8>>,
    speed_test: bool,
    events: Seq<Event>,
) -> Phase
    decreases events.len(),
{
    if events.len() == 0 {
        Phase::FindingPort { tries: 0 }
    } else {
        following(
            config,
            speed_test,
            phase_after(config, speed_test, events.drop_last()),
            events.last(),
        ).0
    }
}

/// What is to be done after these events.
pub open spec fn answer(
    config: spec_fn(u16) -> Option<Seq<u8>>,
    speed_test: bool,
    events: Seq<Event>,
) -> ActionView {
    if events.len() == 0 {
        ActionView::FindPort
    } else {
        following(
            config,
            speed_test,
            phase_after(config, speed_test, events.drop_last()),
            events.last(),
        ).1
    }
}

/// How many attempts to start the client led nowhere: no port was had, or the client was stopped.
pub open spec fn failures(events: Seq<Event>) -> nat
    decreases events.len(),
{
    if events.len() == 0 {
        0
    } else {
        failures(events.drop_last()) + if events.last() is NoPort || events.last() is Stopped {
            1nat
        } else {
            0nat
        }
    }
}

/// How often the page did not come.
pub open spec fn refusals(events: Seq<Event>) -> nat
    decreases events.len(),
{
    if events.len() == 0 {
        0
    } else {
        refusals(events.drop_last()) + if events.last() == Event::Response(false) {
            1nat
        } else {
            0nat
        }
    }
}

/// How many bytes came, in all pieces together.
pub open spec fn bytes_received(events: Seq<Event>) -> nat
    decreases events.len(),
{
    if events.len() == 0 {
        0
    } else {
        bytes_received(events.drop_last()) + match events.last() {
            Event::Chunk(len) => len as nat,
            _ => 0,
        }
    }
}

/// The address that was found last.
pub open spec fn address_found(events: Seq<Event>) -> Option<String>
    decreases events.len(),
{
    if events.len() == 0 {
        None
    } else {
        match events.last() {
            Event::Address(ip) => Some(ip),
            _ => address_found(events.drop_last()),
        }
    }
}

/// What has happened so far, as far as it counts.
struct Tally {
    failures: nat,
    refusals: nat,
    bytes: nat,
    address: Option<String>,
}

/// The tally of events.
spec fn tally(events: Seq<Event>) -> Tally {
    Tally {
        failures: failures(events),
        refusals: refusals(events),
        bytes: bytes_received(events),
        address: address_found(events),
    }
}

/// The tally after one more event.
spec fn tallied(t: Tally, event: Event) -> Tally {
    Tally {
        failures: if event is NoPort || event is Stopped {
            t.failures + 1
        } else {
            t.failures
        },
        refusals: if event == Event::Response(false) {
            t.refusals + 1
        } else {
            t.refusals
        },
        bytes: match event {
            Event::Chunk(len) => t.bytes + len as nat,
            _ => t.bytes,
        },
        address: match event {
            Event::Address(ip) => Some(ip),
            _ => t.address,
        },
    }
}

/// What the phase holds is what has happened, and it fits what was asked for last.
spec fn in_step(phase: Phase, last: ActionView, t: Tally) -> bool {
    match phase {
        Phase::FindingPort { tries } => last is FindPort && tries == t.failures && t.failures < 2
            && t.refusals == 0 && t.bytes == 0,
        Phase::Starting { tries, port } => (last matches ActionView::Launch(p, _) && p == port)
            && tries == t.failures && t.failures < 2 && t.refusals == 0 && t.bytes == 0,
        Phase::Stopping { tries } => last is Stop && tries == t.failures && t.failures < 2
            && t.refusals == 0 && t.bytes == 0,
        Phase::Connecting => last is Connect && t.refusals == 0 && t.bytes == 0,
        Phase::Requesting { tries } => last is Request && tries == t.refusals && t.refusals < 2
            && t.bytes == 0,
        Phase::Pausing { tries } => last is Pause && tries == t.refusals && 1 <= t.refusals <= 2
            && t.bytes == 0,
        Phase::Locating => last is Locate && t.bytes == 0,
        Phase::Downloading { ip, downloaded } => last is NextChunk && downloaded == t.bytes
            && t.address == Some(ip),
        Phase::Timing { ip, downloaded } => last is ReadClock && downloaded == t.bytes && t.address
            == Some(ip),
        Phase::Rating { ip, downloaded } => last == ActionView::Rate(downloaded) && downloaded
            == t.bytes && t.address == Some(ip),
        Phase::Done => last is Finish,
    }
}

/// One more event keeps a test in step.
proof fn lemma_one_more(
    config: spec_fn(u16) -> Option<Seq<u8>>,
    speed_test: bool,
    phase: Phase,
    last: ActionView,
    t: Tally,
    event: Event,
)
    requires
        in_step(phase, last, t),
        tallied(t, event).bytes <= u64::MAX,
    ensures
        ({
            let next = following(config, speed_test, phase, event);
            in_step(next.0, next.1, tallied(t, event))
        }),
{
}

/// A test keeps in step with what happens.
proof fn lemma_in_step(
    config: spec_fn(u16) -> Option<Seq<u8>>,
    speed_test: bool,
    events: Seq<Event>,
)
    requires
        bytes_received(events) <= u64::MAX,
    ensures
        in_step(
            phase_after(config, speed_test, events),
            answer(config, speed_test, events),
            tally(events),
        ),
    decreases events.len(),
{
    if events.len() > 0 {
        let before = events.drop_last();
        lemma_in_step(config, speed_test, before);
        lemma_one_more(
            config,
            speed_test,
            phase_after(config, speed_test, before),
            answer(config, speed_test, before),
            tally(before),
            events.last(),
        );
        assert(tally(events) == tallied(tally(before), events.last()));
    }
}

/// What is to be done next depends only on what was asked for last, what happened then, and what
/// happened before: a port leads to a start, and a start to a connection through that port. A
/// start that led nowhere is tried once more, and so is a page that did not come. A ping is over
/// with the page; a measurement goes on to the address and the file, of which it takes pieces
/// until 30 MiB have come or it breaks off. The throughput is computed from all bytes that came,
/// where these are more than 100000 in more than 0.01 s, and believed up to 1000 Mbit/s; it goes
/// with the address that was found. Whatever else happens ends the test.
pub proof fn law_protocol(
    config: spec_fn(u16) -> Option<Seq<u8>>,
    speed_test: bool,
    events: Seq<Event>,
    event: Event,
)
    requires
        bytes_received(events.push(event)) <= u64::MAX,
    ensures
        answer(config, speed_test, events.push(event)) == match (
            answer(config, speed_test, events),
            event,
        ) {
            (ActionView::FindPort, Event::Port(port)) => match config(port) {
                Some(bytes) => ActionView::Launch(port, bytes),
                None => ActionView::Finish(None),
            },
            (ActionView::FindPort, Event::NoPort) => if failures(events) == 0 {
                ActionView::FindPort
            } else {
                ActionView::Finish(None)
            },
            (ActionView::Launch(port, _), Event::Ready(up)) => if up {
                ActionView::Connect(port)
            } else {
                ActionView::Stop
            },
            (ActionView::Stop, Event::Stopped) => if failures(events) == 0 {
                ActionView::FindPort
            } else {
                ActionView::Finish(None)
            },
            (ActionView::Connect(_), Event::Connected(true)) => ActionView::Request,
            (ActionView::Request, Event::Response(false)) => ActionView::Pause,
            (ActionView::Request, Event::Response(true)) => if speed_test {
                ActionView::Locate
            } else {
                ActionView::Finish(Some(TestOutput::PingSuccess))
            },
            (ActionView::Pause, Event::Paused) => if refusals(events) == 1 {
                ActionView::Request
            } else {
                ActionView::Finish(None)
            },
            (ActionView::Locate, Event::Address(_)) => ActionView::NextChunk,
            (ActionView::NextChunk, Event::Chunk(len)) => if bytes_received(events) + len
                >= 31457280 {
                ActionView::ReadClock
            } else {
                ActionView::NextChunk
            },
            (ActionView::NextChunk, Event::StreamEnded) => ActionView::ReadClock,
            (ActionView::ReadClock, Event::Elapsed(time)) => if time.exceeds(
                Double { bits: 0x3f84_7ae1_47ae_147b },
            ) && bytes_received(events) > 100000 {
                ActionView::Rate(bytes_received(events) as u64)
            } else {
                ActionView::Finish(None)
            },
            (ActionView::Rate(_), Event::Throughput(speed)) => if speed.exceeds(
                Double { bits: 0x408f_4000_0000_0000 },
            ) {
                ActionView::Finish(None)
            } else {
                ActionView::Finish(Some(TestOutput::Full(speed, address_found(events)->0)))
            },
            _ => ActionView::Finish(None),
        },
        answer(config, speed_test, Seq::empty()) == ActionView::FindPort,
{
    let more = events.push(event);
    assert(more.drop_last() =~= events);
    lemma_in_step(config, speed_test, events);
}

/// The throughput is computed from the sum of all pieces that came, and from nothing else.
pub proof fn law_rate_counts_what_came(
    config: spec_fn(u16) -> Option<Seq<u8>>,
    speed_test: bool,
    events: Seq<Event>,
)
    requires
        bytes_received(events) <= u64::MAX,
    ensures
        answer(config, speed_test, events) matches ActionView::Rate(n) ==> n == bytes_received(
            events,
        ) && n > 100000 && (events.last() matches Event::Elapsed(time) && time.exceeds(
            Double { bits: 0x3f84_7ae1_47ae_147b },
        )),
        answer(config, speed_test, events) matches ActionView::Finish(
            Some(TestOutput::Full(speed, ip)),
        ) ==> speed_test && bytes_received(events) > 100000 && address_found(events) == Some(ip)
            && events.last() == Event::Throughput(speed) && !speed.exceeds(
            Double { bits: 0x408f_4000_0000_0000 },
        ),
{
    lemma_in_step(config, speed_test, events);
    lemma_measuring(config, speed_test, events);
    if events.len() > 0 {
        lemma_in_step(config, speed_test, events.drop_last());
        lemma_measuring(config, speed_test, events.drop_last());
        assert(events.drop_last().push(events.last()) =~= events);
        law_protocol(config, speed_test, events.drop_last(), events.last());
    }
}

/// Only a measurement comes to measuring, and only what is worth it comes to be rated.
proof fn lemma_measuring(
    config: spec_fn(u16) -> Option<Seq<u8>>,
    speed_test: bool,
    events: Seq<Event>,
)
    requires
        bytes_received(events) <= u64::MAX,
    ensures
        ({
            let phase = phase_after(config, speed_test, events);
            &&& phase is Locating || phase is Downloading || phase is Timing || phase is Rating
                ==> speed_test
            &&& phase is Rating ==> bytes_received(events) > 100000
        }),
    decreases events.len(),
{
    if events.len() > 0 {
        lemma_measuring(config, speed_test, events.drop_last());
        lemma_in_step(config, speed_test, events.drop_last());
    }
}

/// Whatever happens, the client is started at most twice and the page asked for at most twice.
pub proof fn law_at_most_twice(
    config: spec_fn(u16) -> Option<Seq<u8>>,
    speed_test: bool,
    events: Seq<Event>,
)
    ensures
        how_often(
            starts_client(),
            config,
            speed_test,
            Phase::FindingPort { tries: 0 },
            events,
        ) <= 2,
        how_often(
            asks_for_page(),
            config,
            speed_test,
            Phase::FindingPort { tries: 0 },
            events,
        ) <= 2,
{
    law_two_launches(config, speed_test, events);
    law_two_requests(config, speed_test, events);
}

/// A measurement of 56 Mbit/s or more is published as it is. After the first of any other there is
/// a second, after a pause where there was no figure; the second ends the trial.
pub proof fn law_trial(output: Option<TestOutput>)
    ensures
        ({
            let fast = output matches Some(TestOutput::Full(speed, _)) && speed.reaches(
                Double { bits: 0x404c_0000_0000_0000 },
            );
            &&& fast ==> (output matches Some(TestOutput::Full(speed, ip)) && trial_step(1, output)
                == TrialStep::Publish(speed, ip) && trial_step(2, output) == TrialStep::Publish(
                speed,
                ip,
            ))
            &&& !fast ==> trial_step(2, output) == TrialStep::Drop
            &&& !fast ==> trial_step(1, output) == (TrialStep::Again {
                pause: !(output matches Some(TestOutput::Full(_, _))),
            })
        }),
{
}

/// The first thirty characters of a text.
pub open spec fn thirty(s: Seq<char>) -> Seq<char> {
    s.take(
        if s.len() < 30 {
            s.len() as int
        } else {
            30
        },
    )
}

/// A node with a `#` is called by what follows the last one, decoded where that can be done, and
/// cut to thirty characters.
pub proof fn law_label(a: Seq<char>, name: Seq<char>)
    requires
        forall|i: int| 0 <= i < name.len() ==> (#[trigger] name[i]) != '#',
    ensures
        label_of(a + seq!['#'] + name) == thirty(
            match percent_decoded(name) {
                Some(decoded) => decoded,
                None => name,
            },
        ),
{
    law_after_last(a, '#', name);
    let named = a + seq!['#'] + name;
    assert(named[a.len() as int] == '#');
    lemma_find_char_found(named, '#');
    let shown = match percent_decoded(name) {
        Some(decoded) => decoded,
        None => name,
    };
    assert(shown.take(shown.len() as int) =~= shown);
    assert(find_char(named, '#') < named.len()) by {
        if find_char(named, '#') >= named.len() {
            assert(named[a.len() as int] != '#');
        }
    }
}

/// A node without a `#` is called by what stands between its last `@`, where it has one, and the
/// next `:`, where there is one, cut to thirty characters.
pub proof fn law_label_of_host(a: Seq<char>, host: Seq<char>, rest: Seq<char>)
    requires
        forall|i: int| 0 <= i < a.len() ==> (#[trigger] a[i]) != '#',
        forall|i: int|
            0 <= i < host.len() ==> (#[trigger] host[i]) != '#' && host[i] != '@' && host[i] != ':',
        forall|i: int| 0 <= i < rest.len() ==> (#[trigger] rest[i]) != '#' && rest[i] != '@',
    ensures
        label_of(a + seq!['@'] + (host + seq![':'] + rest)) == thirty(host),
        label_of(a + seq!['@'] + host) == thirty(host),
        label_of(host + seq![':'] + rest) == thirty(host),
        label_of(host) == thirty(host),
{
    assert(host.take(host.len() as int) =~= host);
    let tail = host + seq![':'] + rest;
    assert forall|i: int| 0 <= i < tail.len() implies (#[trigger] tail[i]) != '#' && tail[i]
        != '@' by {
        if i < host.len() {
            assert(tail[i] == host[i]);
        } else if i > host.len() {
            assert(tail[i] == rest[i - host.len() - 1]);
        }
    }
    let node = a + seq!['@'] + tail;
    assert forall|i: int| 0 <= i < node.len() implies (#[trigger] node[i]) != '#' by {
        if i < a.len() {
            assert(node[i] == a[i]);
        } else if i > a.len() {
            assert(node[i] == tail[i - a.len() - 1]);
        }
    }
    let bare = a + seq!['@'] + host;
    assert forall|i: int| 0 <= i < bare.len() implies (#[trigger] bare[i]) != '#' by {
        if i < a.len() {
            assert(bare[i] == a[i]);
        } else if i > a.len() {
            assert(bare[i] == host[i - a.len() - 1]);
        }
    }
    law_cut_at_first(node, '#', Seq::empty());
    law_cut_at_first(bare, '#', Seq::empty());
    law_cut_at_first(tail, '#', Seq::empty());
    law_cut_at_first(host, '#', Seq::empty());
    law_after_last(a, '@', tail);
    law_after_last(a, '@', host);
    law_cut_at_first(host, ':', rest);
}

} // verus!
