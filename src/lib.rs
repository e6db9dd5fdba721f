pub mod layout;
pub mod schedule;
