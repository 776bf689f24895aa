//! Journal subsystem: entries, the datagram and stdout protocols, the message
//! catalog, and the rules of the journal files.

pub mod catalog;
pub mod catalog_source;
pub mod entry;
pub mod priority;
pub mod receiver;
pub mod sink;
pub mod stdout;
pub mod writer;
pub mod compression;
pub mod daemon;
pub mod rotation;
pub mod socket;
