//! Numbers of well-known properties: `Pid(INSTANCE_OF)` is `P31`.
use vstd::prelude::*;

verus! {

/// `instance of` (P31)
pub const INSTANCE_OF: u64 = 31;

/// `date of birth` (P569)
pub const DATE_OF_BIRTH: u64 = 569;

/// `date of death` (P570)
pub const DATE_OF_DEATH: u64 = 570;

} // verus!
