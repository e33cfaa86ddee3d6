//! Prints one captured moment in several textual forms: Unix time,
//! ISO-8601 Gregorian and week-date (local and UTC), and the elapsed
//! fraction of the day, week, month and year, as a right-aligned
//! two-column table. The calendar arithmetic, the digit grouping and
//! padding, the fixed-point proportions and the table rendering are all
//! verified; chrono answers the few lookups only a calendar library can.

pub mod calendar;
pub mod number;
pub mod proportion;
pub mod report;
pub mod text;
pub mod timestamp;
