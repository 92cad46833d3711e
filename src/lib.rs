//! A session directory: a roster of live sessions kept in first-seen order,
//! and the resolution of a text command into a request to switch session.

pub mod action;
pub mod args;
pub mod command;
pub mod roster;
