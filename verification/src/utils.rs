//! Checks on the surroundings: the age of a file, what must be in place, who can be reached.
use vstd::prelude::*;

use crate::config::{NODES_SOURCE, XRAY_EXE};
use crate::link::{opt_text, parse_link, parsed_link, LinkParts, LinkView};
use crate::text::{texts, trim, trimmed};
use crate::vless_collector::port_of;
use crate::vless_collector::DEFAULT_PORT;

verus! {

/// How long ago a file was written.
#[derive(Debug, Clone, Copy, PartialEq, Eq)]
pub enum FileAge {
    /// There is no such file, or nothing is known of it.
    Missing,
    /// The file was written later than now.
    InFuture,
    /// The time since it was written: whole seconds, and nanoseconds beyond them.
    Elapsed { secs: u64, nanos: u32 },
}

/// Whether a file is missing, or was written more than `max_age_hours` ago.
pub open spec fn stale(age: FileAge, max_age_hours: int) -> bool {
    match age {
        FileAge::Missing => true,
        FileAge::InFuture => true,
        FileAge::Elapsed { secs, nanos } => secs > max_age_hours * 3600 || (secs == max_age_hours
            * 3600 && nanos > 0),
    }
}

/// Checks if a file is stale, by its age.
pub fn is_artifact_stale(age: FileAge, max_age_hours: u64) -> (is_stale: bool)
    requires
        max_age_hours * 3600 <= u64::MAX,
    ensures
        is_stale == stale(age, max_age_hours as int),
{
    match age {
        FileAge::Missing => true,
        FileAge::InFuture => true,
        FileAge::Elapsed { secs, nanos } => {
            let limit: u64 = max_age_hours * 3600;
            secs > limit || (secs == limit && nanos > 0)
        },
    }
}

/// A file that is stale by one limit is stale by every shorter one.
pub proof fn law_stale_by_shorter_limits(age: FileAge, shorter: int, longer: int)
    requires
        shorter <= longer,
        stale(age, longer),
    ensures
        stale(age, shorter),
{
}

/// What is said of a file that is not in place.
pub open spec fn missing_notice(path: Seq<char>) -> Seq<char> {
    "Missing: "@ + path
}

/// The notices on what is not in place.
pub open spec fn missing_notices(client: bool, sources: bool) -> Seq<Seq<char>> {
    let first = if client {
        Seq::empty()
    } else {
        seq![missing_notice(XRAY_EXE@)]
    };
    if sources {
        first
    } else {
        first.push(missing_notice(NODES_SOURCE@))
    }
}

/// Checks that the client and the list of sources are in place, given whether each is there.
pub fn check_environment_integrity(client: bool, sources: bool) -> (outcome: Result<
    (),
    Vec<String>,
>)
    ensures
        outcome is Ok <==> client && sources,
        outcome matches Err(missing) ==> texts(missing@) == missing_notices(client, sources),
{
    let mut missing: Vec<String> = Vec::new();
    if !client {
        missing.push("Missing: ".to_owned().concat(XRAY_EXE));
    }
    if !sources {
        missing.push("Missing: ".to_owned().concat(NODES_SOURCE));
    }
    if missing.len() > 0 {
        assert(texts(missing@) =~= missing_notices(client, sources));
        Err(missing)
    } else {
        Ok(())
    }
}

/// Where a file is written before it takes the place of the one at `path`.
pub fn temp_path(path: &str) -> (temp: String)
    ensures
        temp@ == path@ + ".tmp"@,
{
    path.to_owned().concat(".tmp")
}

/// The host and port to dial for a link; there are none where it names no host.
pub open spec fn dial_target_of(link: LinkView) -> Option<(Seq<char>, u16)> {
    match link.host {
        Some(host) => Some((host, port_of(link.port))),
        None => None,
    }
}

/// The text and number in an optional address.
pub open spec fn opt_address(address: Option<(String, u16)>) -> Option<(Seq<char>, u16)> {
    match address {
        Some((host, port)) => Some((host@, port)),
        None => None,
    }
}

/// Finds the host and port to dial for a link.
pub fn link_dial_target(link: &LinkParts) -> (target: Option<(String, u16)>)
    ensures
        opt_address(target) == dial_target_of(link@),
{
    let port: u16 = match link.port {
        Some(port) => port,
        None => DEFAULT_PORT,
    };
    match &link.host {
        Some(host) => Some((host.clone(), port)),
        None => None,
    }
}

/// Finds the host and port to dial for a node; there are none where the text is no link or names
/// no host.
pub fn dial_target(line: &str) -> (target: Option<(String, u16)>)
    ensures
        opt_address(target) == match parsed_link(line@) {
            Some(link) => dial_target_of(link),
            None => None,
        },
{
    match parse_link(line) {
        Some(link) => link_dial_target(&link),
        None => None,
    }
}

/// How often a local port is dialled before it is given up.
pub const PORT_DIALS: u32 = 10;

/// What follows a dial.
#[derive(Debug, Clone, Copy, PartialEq, Eq)]
pub enum DialStep {
    /// The port answers.
    Ready,
    /// Pause, and dial again.
    PauseAndDial,
    /// Pause, and give up.
    PauseAndGiveUp,
}

/// Decides what follows the dial number `dial`.
pub fn after_dial(dial: u32, connected: bool) -> (step: DialStep)
    ensures
        step == if connected {
            DialStep::Ready
        } else if dial < PORT_DIALS {
            DialStep::PauseAndDial
        } else {
            DialStep::PauseAndGiveUp
        },
{
    if connected {
        DialStep::Ready
    } else if dial < PORT_DIALS {
        DialStep::PauseAndDial
    } else {
        DialStep::PauseAndGiveUp
    }
}

/// How often the outbound address is asked for.
pub const ADDRESS_TRIES: u32 = 2;

/// What stands for an outbound address that is not known.
pub const NO_ADDRESS: &'static str = "0.0.0.0";

/// What follows a reply.
#[derive(Debug)]
pub enum AddressStep {
    /// This is the address.
    Found(String),
    /// Pause, and ask again.
    PauseAndAsk,
}

/// What an `AddressStep` says.
pub enum AddressStepView {
    Found(Seq<char>),
    PauseAndAsk,
}

impl View for AddressStep {
    type V = AddressStepView;

    open spec fn view(&self) -> AddressStepView {
        match self {
            AddressStep::Found(address) => AddressStepView::Found(address@),
            AddressStep::PauseAndAsk => AddressStepView::PauseAndAsk,
        }
    }
}

/// The address in a reply: its text without outer white space.
pub fn read_address(reply: &str) -> (candidate: String)
    ensures
        candidate@ == trimmed(reply@),
{
    trim(reply)
}

/// What follows the reply to question number `attempt`: a candidate that is an address is taken;
/// without one the question is put again, and at last given up.
pub open spec fn address_step(
    attempt: u32,
    candidate: Option<Seq<char>>,
    is_address: bool,
) -> AddressStepView {
    if candidate is Some && candidate->0.len() > 0 && is_address {
        AddressStepView::Found(candidate->0)
    } else if attempt < ADDRESS_TRIES {
        AddressStepView::PauseAndAsk
    } else {
        AddressStepView::Found(NO_ADDRESS@)
    }
}

/// Decides what follows a reply, given whether the candidate in it is an IP address.
pub fn after_reply(attempt: u32, candidate: Option<String>, is_address: bool) -> (step: AddressStep)
    ensures
        step@ == address_step(attempt, opt_text(candidate), is_address),
{
    match candidate {
        Some(address) => if !address.as_str().is_empty() && is_address {
            return AddressStep::Found(address);
        },
        None => {},
    }
    if attempt < ADDRESS_TRIES {
        AddressStep::PauseAndAsk
    } else {
        AddressStep::Found(NO_ADDRESS.to_owned())
    }
}

} // verus!
