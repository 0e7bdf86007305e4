use vstd::prelude::*;
use crate::timezones::Tz;

verus! {

pub const UCT: Tz = Tz::Etc__UCT;

pub const UTC: Tz = Tz::Etc__UTC;

pub const Universal: Tz = Tz::Etc__Universal;

pub const Zulu: Tz = Tz::Etc__Zulu;

} // verus!
