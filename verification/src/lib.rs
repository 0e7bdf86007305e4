//! Time zones as tables of spans, and what such a table says of an instant
//! and of a wall-clock reading.
//!
//! A zone's history is a first span, which has no beginning, and the changes
//! of its clocks in the order in which they occurred, each with the span
//! that it brought. `Tz` names the zones that are built in; `from_str` finds
//! one by its name, `offset_at` gives the span in force at an instant, and
//! `offset_at_local` says whether a wall-clock reading stands for one
//! instant, for two, or for none.

#![allow(non_camel_case_types)]
#![allow(non_snake_case)]
#![allow(non_upper_case_globals)]

pub mod directory;
pub mod span_table;
pub mod table_laws;
pub mod text;
pub mod timespan;
pub mod timezone_impl;
pub mod timezones;
pub mod zone_laws;

pub use span_table::SpanTable;
pub use timespan::FixedTimespan;
pub use timespan::LocalResult;
pub use timezone_impl::FixedTimespanSet;
pub use timezone_impl::TimeSpans;
pub use timezones::ParseError;
pub use timezones::Tz;
pub use timezones::TZ_VARIANTS;
