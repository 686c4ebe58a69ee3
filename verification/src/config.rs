//! Limits, addresses and paths, and what a test of a node gives.
use vstd::prelude::*;

use crate::speed::Double;

verus! {

/// How many nodes are dialled at once.
pub const TCP_MAX_CONCURRENT: usize = 100;

/// How many nodes are pinged at once.
pub const PING_MAX_CONCURRENT: usize = 140;

/// How many nodes are measured at once.
pub const SPEED_TEST_THREADS: usize = 30;

/// How long a node may take to answer a dial, in milliseconds.
pub const TCP_CHECK_TIMEOUT_MS: u64 = 2000;

/// The throughput that a node must reach, in Mbit/s: the bit pattern of 56.
pub const MIN_SPEED_THRESHOLD: u64 = 0x404c_0000_0000_0000;

/// The throughput above which a measurement is not believed, in Mbit/s: the bit pattern of 1000.
pub const MAX_SPEED: u64 = 0x408f_4000_0000_0000;

/// The time that a measurement must take at least, in seconds: the bit pattern of the double
/// nearest to 0.01.
pub const MIN_TEST_SECONDS: u64 = 0x3f84_7ae1_47ae_147b;

/// The page that a ping asks for.
pub const TEST_URL_204: &'static str = "https://www.google.com/generate_204";

/// The file that a measurement downloads.
pub const SPEED_TEST_URL: &'static str = "https://cachefly.cachefly.net/50mb.test";

/// The client that connects to nodes.
pub const XRAY_EXE: &'static str = "bin/xray.exe";

/// The list of sources.
pub const NODES_SOURCE: &'static str = "core/nodes.txt";

/// The database of networks.
pub const ASN_DB_PATH: &'static str = "core/GeoLite2-ASN.mmdb";

/// The database of cities.
pub const CITY_DB_PATH: &'static str = "core/GeoLite2-City.mmdb";

/// The database of countries.
pub const COUNTRY_DB_PATH: &'static str = "core/GeoLite2-Country.mmdb";

/// A node that passed all tests.
#[derive(Debug, Clone)]
pub struct TestResult {
    /// The node.
    pub raw_url: String,
    /// Its throughput in Mbit/s.
    pub speed: Double,
    /// The address that it goes out from.
    pub ip: String,
}

/// What a test gave.
#[derive(Debug)]
pub enum TestOutput {
    /// The node answered.
    PingSuccess,
    /// The throughput in Mbit/s, and the address that the node goes out from.
    Full(Double, String),
}

} // verus!
