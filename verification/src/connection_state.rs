//! The two states of a connection. `Closed` is absorbing: no operation
//! ever reopens a connection.

use vstd::prelude::*;

verus! {

/// Whether frames may still be read and written.
#[derive(Clone, Copy, Debug, PartialEq, Eq, Structural)]
pub enum ConnectionState {
    /// Terminal: a close frame was sent or received.
    Closed,
    /// Frames flow in both directions.
    Open,
}

impl ConnectionState {
    /// Whether the connection reached its terminal state.
    pub fn is_closed(&self) -> (r: bool)
        ensures
            r == (*self == ConnectionState::Closed),
    {
        matches!(self, ConnectionState::Closed)
    }

    /// Whether frames may still flow.
    pub fn is_open(&self) -> (r: bool)
        ensures
            r == (*self == ConnectionState::Open),
    {
        matches!(self, ConnectionState::Open)
    }
}

} // verus!
