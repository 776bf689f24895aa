//! What D-Bus objects are served from.

pub mod unit_iface;
