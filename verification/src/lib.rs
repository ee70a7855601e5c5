//! Inspection and control of systemd units: parsing of unit listings and
//! manager replies, classification of units, selection of the units a user
//! may toggle, and the requests that change or query a unit.

pub mod analyze;
pub mod button_layout;
pub mod catalog;
pub mod classify;
pub mod control;
pub mod order;
pub mod query;
pub mod registry;
pub mod reply;
pub mod scope;
pub mod text;
pub mod unit;
