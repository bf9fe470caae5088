//! Configuration record and the small enumerations that steer resolution
//! and listing: the label match mode and the device-type filter.

use vstd::prelude::*;
use vstd::string::*;

verus! {

/// Connection settings for the gateway: where it listens and the bearer
/// token the remote API expects.
pub struct Configuration {
    pub hostname: String,
    pub port: i32,
    pub api_token: String,
}

impl Configuration {
    /// The default configuration written when none exists yet; the token
    /// is a placeholder the user must replace.
    pub fn new() -> (c: Configuration)
        ensures
            c.hostname@ == "https://127.0.0.1"@,
            c.port == 8443,
            c.api_token@ == "REPLACE_WITH_TOKEN"@,
    {
        Configuration {
            hostname: String::from_str("https://127.0.0.1"),
            port: 8443,
            api_token: String::from_str("REPLACE_WITH_TOKEN"),
        }
    }
}

/// Whether label resolution may fall back to approximate scoring.
#[derive(Clone, Copy, Debug, PartialEq, Eq, Structural)]
pub enum MatchMode {
    Exact,
    Fuzzy,
}

/// Category filter for device listings.
#[derive(Clone, Copy, Debug, PartialEq, Eq, Structural)]
pub enum DeviceTypeFilter {
    All,
    GarageDoor,
    Gate,
    RollerShutter,
}

/// The controllable-type tag that each filter stands for; `All` carries none.
pub open spec fn filter_str(f: DeviceTypeFilter) -> Seq<char> {
    match f {
        DeviceTypeFilter::All => ""@,
        DeviceTypeFilter::GarageDoor => "io:GarageOpenerIOComponent"@,
        DeviceTypeFilter::Gate => "io:SlidingDiscreteGateOpenerIOComponent"@,
        DeviceTypeFilter::RollerShutter => "io:RollerShutterWithLowSpeedManagementIOComponent"@,
    }
}

impl DeviceTypeFilter {
    /// The controllable-type tag this filter matches against.
    pub fn as_str(&self) -> (r: &str)
        ensures
            r@ == filter_str(*self),
    {
        match self {
            DeviceTypeFilter::All => "",
            DeviceTypeFilter::GarageDoor => "io:GarageOpenerIOComponent",
            DeviceTypeFilter::Gate => "io:SlidingDiscreteGateOpenerIOComponent",
            DeviceTypeFilter::RollerShutter => "io:RollerShutterWithLowSpeedManagementIOComponent",
        }
    }
}

} // verus!
