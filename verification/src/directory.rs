use vstd::prelude::*;
use crate::timezones::Tz;

pub mod Asia;
pub mod Etc;

verus! {

pub const UCT: Tz = Tz::UCT;

pub const UTC: Tz = Tz::UTC;

pub const Universal: Tz = Tz::Universal;

pub const Zulu: Tz = Tz::Zulu;

} // verus!
