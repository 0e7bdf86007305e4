use vstd::prelude::*;
use crate::timezones::Tz;

verus! {

pub const Calcutta: Tz = Tz::Asia__Calcutta;

pub const Kolkata: Tz = Tz::Asia__Kolkata;

} // verus!
