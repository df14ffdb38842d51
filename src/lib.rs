//! A relay that takes binary media segments and control commands from many
//! connected sessions, cuts the segments to a bounded size in one shared
//! queue, appends them to per-session storage, and turns stop commands into
//! completion events for every session.

pub mod queue;
pub mod registry;
pub mod session;
pub mod slice;
pub mod writer;
