//! The configuration the tosser runs under; loading the file is the
//! caller's concern.

use vstd::prelude::*;

verus! {

/// The two sections of the configuration.
#[derive(Debug)]
pub struct Config {
    pub inbound: Option<Inbound>,
    pub msgbase: Option<Msgbase>,
}

/// Where inbound mail is picked up.
#[derive(Debug)]
pub struct Inbound {
    pub path: Option<String>,
}

/// Under which directory each area's message base lives.
#[derive(Debug)]
pub struct Msgbase {
    pub path: Option<String>,
}

} // verus!
