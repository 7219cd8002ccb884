//! A scheduler for evenly spaced vehicle departures: given a start
//! date, a span in whole days and a constraint — a fixed vehicle count
//! or a target frequency in days — it resolves the constraint to a
//! vehicle count and partitions the span into evenly spaced start
//! dates, with proofs that the offsets are exact, monotone and free of
//! cumulative rounding drift.

pub mod timetable;
