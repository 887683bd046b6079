pub mod calendar;
pub mod types;
