//! When a run is due, what is said of its surroundings, and how speeds compare.
use vstd::arithmetic::power2::{lemma2_to64, lemma_pow2_adds, lemma_pow2_pos};
use vstd::arithmetic::power2::{lemma_pow2_strictly_increases, pow2};
use vstd::prelude::*;

use crate::config::{ASN_DB_PATH, CITY_DB_PATH, COUNTRY_DB_PATH, PING_MAX_CONCURRENT};
use crate::config::{SPEED_TEST_THREADS, SPEED_TEST_URL, TCP_CHECK_TIMEOUT_MS, TCP_MAX_CONCURRENT};
use crate::config::TEST_URL_204;
use crate::link::LinkView;
use crate::schedule::{asks_for_run, due, Watch, TARGET_QUOTA};
use crate::speed::Double;
use crate::utils::{address_step, dial_target_of, missing_notices, opt_address, stale};
use crate::utils::{AddressStep, AddressStepView, FileAge, PORT_DIALS};

verus! {

/// The age of a file in nanoseconds.
pub open spec fn nanoseconds(secs: u64, nanos: u32) -> int {
    secs * 1_000_000_000 + nanos
}

/// A file is stale by a limit exactly where it is missing, written in the future, or of an age, to
/// the nanosecond, of more than that many hours.
pub proof fn law_stale(secs: u64, nanos: u32, hours: int)
    requires
        nanos < 1_000_000_000,
    ensures
        stale(FileAge::Missing, hours),
        stale(FileAge::InFuture, hours),
        stale(FileAge::Elapsed { secs, nanos }, hours) <==> nanoseconds(secs, nanos) > hours * 3600
            * 1_000_000_000,
{
}

/// What is stale stays stale as it grows older, and is stale by every shorter limit.
pub proof fn law_stale_stays_stale(
    secs: u64,
    nanos: u32,
    later_secs: u64,
    later_nanos: u32,
    hours: int,
    fewer: int,
)
    requires
        nanos < 1_000_000_000,
        later_nanos < 1_000_000_000,
        nanoseconds(secs, nanos) <= nanoseconds(later_secs, later_nanos),
        fewer <= hours,
        stale(FileAge::Elapsed { secs, nanos }, hours),
    ensures
        stale(FileAge::Elapsed { secs: later_secs, nanos: later_nanos }, hours),
        stale(FileAge::Elapsed { secs: later_secs, nanos: later_nanos }, fewer),
{
}

/// A run is due where the last result is missing, written in the future, or older than 4 hours at
/// the start and 5 hours later on.
pub proof fn law_run_is_due(secs: u64, nanos: u32, watch: Watch)
    requires
        nanos < 1_000_000_000,
    ensures
        due(watch, FileAge::Missing),
        due(watch, FileAge::InFuture),
        due(Watch::Startup, FileAge::Elapsed { secs, nanos }) <==> nanoseconds(secs, nanos) > 4
            * 3600 * 1_000_000_000,
        due(Watch::Polling, FileAge::Elapsed { secs, nanos }) <==> nanoseconds(secs, nanos) > 5
            * 3600 * 1_000_000_000,
{
}

/// A run begins at once exactly where one of the arguments, wherever it stands, is `--now` or
/// `-n`.
pub proof fn law_arguments(args: Seq<Seq<char>>)
    ensures
        asks_for_run(args) <==> exists|i: int|
            0 <= i < args.len() && ((#[trigger] args[i]) == "--now"@ || args[i] == "-n"@),
{
    if args.contains("--now"@) {
        let i = choose|i: int| 0 <= i < args.len() && args[i] == "--now"@;
        assert(args[i] == "--now"@);
    }
    if args.contains("-n"@) {
        let i = choose|i: int| 0 <= i < args.len() && args[i] == "-n"@;
        assert(args[i] == "-n"@);
    }
}

/// Each of the two files that is missing has its notice, the client first, and nothing else has.
pub proof fn law_missing(client: bool, sources: bool)
    ensures
        ({
            let notices = missing_notices(client, sources);
            let first = "Missing: "@ + "bin/xray.exe"@;
            let second = "Missing: "@ + "core/nodes.txt"@;
            &&& client && sources ==> notices.len() == 0
            &&& !client && sources ==> notices == seq![first]
            &&& client && !sources ==> notices == seq![second]
            &&& !client && !sources ==> notices == seq![first, second]
        }),
{
}

/// A node is dialled at the host that its link names, and at its port or at 443; one that names no
/// host is not dialled.
pub proof fn law_dial_target(link: LinkView, host: String, port: u16)
    ensures
        link.host is None <==> dial_target_of(link) is None,
        link.host matches Some(h) ==> dial_target_of(link) == Some(
            (
                h,
                match link.port {
                    Some(port) => port,
                    None => 443,
                },
            ),
        ),
        opt_address(Some((host, port))) == Some((host@, port)),
        opt_address(None) is None,
{
}

/// A reply that holds an address settles the question; without one it is put once more, and then
/// `0.0.0.0` stands for the address.
pub proof fn law_address(candidate: Seq<char>, attempt: u32, step: AddressStep)
    ensures
        candidate.len() > 0 ==> address_step(attempt, Some(candidate), true)
            == AddressStepView::Found(candidate),
        address_step(1, None, true) is PauseAndAsk,
        address_step(1, Some(candidate), false) is PauseAndAsk,
        candidate.len() == 0 ==> address_step(1, Some(candidate), true) is PauseAndAsk,
        address_step(2, None, true) == AddressStepView::Found("0.0.0.0"@),
        address_step(2, Some(candidate), false) == AddressStepView::Found("0.0.0.0"@),
        candidate.len() == 0 ==> address_step(2, Some(candidate), true) == AddressStepView::Found(
            "0.0.0.0"@,
        ),
        step@ == match step {
            AddressStep::Found(address) => AddressStepView::Found(address@),
            AddressStep::PauseAndAsk => AddressStepView::PauseAndAsk,
        },
{
}

/// The limits, addresses and paths that a run goes by.
pub proof fn law_limits()
    ensures
        TCP_MAX_CONCURRENT == 100,
        PING_MAX_CONCURRENT == 140,
        SPEED_TEST_THREADS == 30,
        TCP_CHECK_TIMEOUT_MS == 2000,
        TARGET_QUOTA == 1000,
        PORT_DIALS == 10,
        TEST_URL_204@ == "https://www.google.com/generate_204"@,
        SPEED_TEST_URL@ == "https://cachefly.cachefly.net/50mb.test"@,
        ASN_DB_PATH@ == "core/GeoLite2-ASN.mmdb"@,
        CITY_DB_PATH@ == "core/GeoLite2-City.mmdb"@,
        COUNTRY_DB_PATH@ == "core/GeoLite2-Country.mmdb"@,
{
}

/// The size of a number, in units of the smallest one, by the exponent and the fraction in its bit
/// pattern.
pub open spec fn scaled(pattern: int) -> int {
    let exponent = pattern / 0x10_0000_0000_0000;
    let fraction = pattern % 0x10_0000_0000_0000;
    if exponent == 0 {
        fraction
    } else {
        (0x10_0000_0000_0000 + fraction) * pow2((exponent - 1) as nat)
    }
}

/// The value of a double, in units of the smallest positive one. Infinity counts as the next
/// number after the greatest.
pub open spec fn value(d: Double) -> int {
    if d.bits >= 0x8000_0000_0000_0000 {
        -scaled(d.bits - 0x8000_0000_0000_0000)
    } else {
        scaled(d.bits as int)
    }
}

/// Whether a bit pattern is no number: all bits of the exponent are set, and one of the fraction.
pub open spec fn not_a_number(d: Double) -> bool {
    let pattern = d.bits % 0x8000_0000_0000_0000;
    pattern / 0x10_0000_0000_0000 == 0x7ff && pattern % 0x10_0000_0000_0000 != 0
}

/// The size of a number grows with its bit pattern.
proof fn lemma_scaled_grows(a: int, b: int)
    requires
        0 <= a < b,
    ensures
        0 <= scaled(a) < scaled(b),
{
    let unit: int = 0x10_0000_0000_0000;
    let e = a / unit;
    let f = b / unit;
    let x = a % unit;
    let y = b % unit;
    assert(a == unit * e + x && b == unit * f + y);
    assert(e <= f);
    if e == f {
        assert(x < y);
        if e > 0 {
            let p = pow2((e - 1) as nat) as int;
            lemma_pow2_pos((e - 1) as nat);
            assert((unit + x) * p < (unit + y) * p) by (nonlinear_arith)
                requires
                    p > 0,
                    x < y,
            ;
            assert(0 <= (unit + x) * p) by (nonlinear_arith)
                requires
                    p > 0,
                    x >= 0,
                    unit > 0,
            ;
        }
    } else {
        let q = pow2((f - 1) as nat) as int;
        lemma_pow2_pos((f - 1) as nat);
        assert((unit + y) * q >= unit * q) by (nonlinear_arith)
            requires
                q > 0,
                y >= 0,
        ;
        if e == 0 {
            assert(unit * q >= unit) by (nonlinear_arith)
                requires
                    q > 0,
                    unit > 0,
            ;
        } else {
            let p = pow2((e - 1) as nat) as int;
            lemma_pow2_pos((e - 1) as nat);
            lemma_pow2_adds(1, (e - 1) as nat);
            assert(pow2(1) == 2) by {
                lemma2_to64();
            }
            assert(pow2(e as nat) == 2 * p);
            if e < f - 1 {
                lemma_pow2_strictly_increases(e as nat, (f - 1) as nat);
            }
            assert(q >= 2 * p);
            assert((unit + x) * p < unit * q) by (nonlinear_arith)
                requires
                    p > 0,
                    q >= 2 * p,
                    0 <= x < unit,
            ;
            assert(0 <= (unit + x) * p) by (nonlinear_arith)
                requires
                    p > 0,
                    x >= 0,
                    unit > 0,
            ;
        }
    }
}

/// Speeds compare by their values; what is no number is neither above nor below anything.
pub proof fn law_compare(a: Double, b: Double)
    ensures
        a.nan() <==> not_a_number(a),
        a.exceeds(b) <==> !not_a_number(a) && !not_a_number(b) && value(a) > value(b),
        a.reaches(b) <==> !not_a_number(a) && !not_a_number(b) && value(a) >= value(b),
        value(a) > value(b) ==> a.total_key() > b.total_key(),
        value(a) == value(b) && a.bits < b.bits ==> a.total_key() > b.total_key(),
{
    let x = a.magnitude();
    let y = b.magnitude();
    assert(scaled(0) == 0);
    if x < y {
        lemma_scaled_grows(x, y);
    }
    if y < x {
        lemma_scaled_grows(y, x);
    }
    if x > 0 {
        lemma_scaled_grows(0, x);
    }
    if y > 0 {
        lemma_scaled_grows(0, y);
    }
}

} // verus!
