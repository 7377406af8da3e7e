//! What can go wrong while the queueing disciplines are read.

use vstd::prelude::*;

verus! {

/// A failure of the dump of queueing disciplines.
#[derive(Clone, Debug, PartialEq, Eq)]
pub enum TcError {
    /// The netlink exchange failed: the socket, the decoding of a message, or
    /// an error that the kernel sent. It carries a description.
    Netlink(String),
}

impl TcError {
    /// The description that the error carries.
    pub fn message(&self) -> (text: &String)
        ensures
            self matches TcError::Netlink(m) && *text == m,
    {
        match self {
            TcError::Netlink(text) => text,
        }
    }
}

} // verus!
