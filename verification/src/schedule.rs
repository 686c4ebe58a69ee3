//! The run as a whole: when one begins, and when it has found enough.
use vstd::prelude::*;

use crate::config::TestResult;
use crate::text::{same_text, texts};
use crate::utils::{is_artifact_stale, stale, FileAge};

verus! {

/// Whether one of the arguments asks for a run at once.
pub open spec fn asks_for_run(args: Seq<Seq<char>>) -> bool {
    args.contains("--now"@) || args.contains("-n"@)
}

/// Looks for an argument that asks for a run at once.
pub fn starts_immediately(args: &Vec<String>) -> (at_once: bool)
    ensures
        at_once == asks_for_run(texts(args@)),
{
    let ghost all = texts(args@);
    let mut i: usize = 0;
    while i < args.len()
        invariant
            i <= args.len(),
            all == texts(args@),
            forall|j: int| 0 <= j < i ==> (#[trigger] all[j]) != "--now"@ && all[j] != "-n"@,
        decreases args.len() - i,
    {
        assert(all[i as int] == args@[i as int]@);
        if same_text(args[i].as_str(), "--now") || same_text(args[i].as_str(), "-n") {
            return true;
        }
        i += 1;
    }
    false
}

/// Where the scheduler stands.
#[derive(Debug, Clone, Copy, PartialEq, Eq)]
pub enum Watch {
    /// It has just begun.
    Startup,
    /// It looks at the result from time to time.
    Polling,
}

/// The age in hours beyond which the result is old when the scheduler begins.
pub const STARTUP_HOURS: u64 = 4;

/// The age in hours beyond which the result is old later on.
pub const POLLING_HOURS: u64 = 5;

/// Whether a run is due, by the age of the last result.
pub open spec fn due(watch: Watch, age: FileAge) -> bool {
    match watch {
        Watch::Startup => stale(age, STARTUP_HOURS as int),
        Watch::Polling => stale(age, POLLING_HOURS as int),
    }
}

/// Decides whether a run is due.
pub fn run_is_due(watch: Watch, age: FileAge) -> (is_due: bool)
    ensures
        is_due == due(watch, age),
{
    match watch {
        Watch::Startup => is_artifact_stale(age, STARTUP_HOURS),
        Watch::Polling => is_artifact_stale(age, POLLING_HOURS),
    }
}

/// Where no result is to be found a run is always due, and where one is due in between, one
/// would be due at the start.
pub proof fn law_due(watch: Watch, age: FileAge)
    ensures
        due(watch, FileAge::Missing),
        due(Watch::Polling, age) ==> due(Watch::Startup, age),
{
}

/// How many results a run is to find.
pub const TARGET_QUOTA: usize = 1000;

/// The results of a run, as they come in.
#[derive(Debug)]
pub struct Collected {
    /// The results, in the order in which they came.
    pub results: Vec<TestResult>,
    /// How many are enough.
    pub quota: usize,
}

impl Collected {
    /// Begins to collect.
    pub fn new(quota: usize) -> (collected: Collected)
        ensures
            collected.results@.len() == 0,
            collected.quota == quota,
    {
        Collected { results: Vec::new(), quota }
    }

    /// Adds a result, and says whether there are now enough.
    pub fn add(&mut self, result: TestResult) -> (enough: bool)
        ensures
            final(self).results@ == old(self).results@.push(result),
            final(self).quota == old(self).quota,
            enough == (final(self).results@.len() >= final(self).quota),
    {
        self.results.push(result);
        self.results.len() >= self.quota
    }
}

} // verus!
