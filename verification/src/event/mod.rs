//! The manager's event sources and what it decides on each event.

pub mod child;
pub mod inotify;
pub mod loop_;
pub mod signal;
pub mod source;
pub mod timer;
pub mod wake;
