//! Calendar events that start on a whole day or at a minute of a day:
//! their textual form, their order, and the table that keeps them.

pub mod calendar;
