//! Which instance of the service manager a unit belongs to.

use vstd::prelude::*;

verus! {

/// The instance of the service manager: the one of the system, or the one of
/// the user's session.
#[derive(Debug, PartialEq, Eq, Copy, Clone, Structural)]
pub enum Kind {
    User,
    System,
}

/// The machine on which the service manager runs.
#[derive(Debug, PartialEq)]
pub enum Location {
    Localhost,
    External(String),
}

impl Location {
    /// Tells whether the location is this machine.
    pub fn is_localhost(&self) -> (b: bool)
        ensures
            b == (self is Localhost),
    {
        match self {
            Location::Localhost => true,
            Location::External(_) => false,
        }
    }
}

} // verus!
