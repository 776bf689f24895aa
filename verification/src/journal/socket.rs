//! Ownership of journal socket paths.
//!
//! The file system entry of a socket survives its descriptor. What a daemon
//! remembers of the entry that it made lets it remove that entry and no
//! replacement of it.

use vstd::prelude::*;

verus! {

/// What the file system says of an entry.
#[derive(Debug, Clone, Copy, PartialEq, Eq, Structural)]
pub struct FileIdentity {
    pub is_socket: bool,
    pub device: u64,
    pub inode: u64,
}

/// A socket path created by this daemon instance.
#[derive(Debug)]
pub struct SocketPathGuard {
    pub path: String,
    pub device: u64,
    pub inode: u64,
}

impl SocketPathGuard {
    /// Record the identity of a path that was just bound. Nothing where it is
    /// not a socket.
    pub fn capture(path: &str, found: FileIdentity) -> (r: Option<Self>)
        ensures
            match r {
                Some(guard) => found.is_socket && guard.path@ == path@ && guard.device == found.device && guard.inode
                    == found.inode,
                None => !found.is_socket,
            },
    {
        if found.is_socket {
            Some(SocketPathGuard { path: path.to_owned(), device: found.device, inode: found.inode })
        } else {
            None
        }
    }

    /// Whether what now stands at the path is the socket that was captured.
    pub fn owns(&self, found: Option<FileIdentity>) -> (r: bool)
        ensures
            r == match found {
                Some(found) => found.is_socket && found.device == self.device && found.inode == self.inode,
                None => false,
            },
    {
        match found {
            Some(found) => found.is_socket && found.device == self.device && found.inode == self.inode,
            None => false,
        }
    }
}

} // verus!
