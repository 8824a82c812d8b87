//! Configuration of the emulator.

use crate::loader::Config;
use vstd::prelude::*;

verus! {

/// The configuration of one emulator instance.
#[derive(Copy, Clone, Debug, PartialEq, Eq, Structural)]
pub struct OmoConfig {
    pub os: Config,
}

} // verus!
