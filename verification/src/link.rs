//! What the link is doing, in the few words a person actually wants.
//!
//! A value rather than a log line, so that anything watching hop reads a
//! state instead of scraping text.

use vstd::prelude::*;

verus! {

/// Where the connection is right now.
#[derive(Debug, Clone, PartialEq, Eq)]
pub enum LinkState {
    /// Trying to reach the peer, including every retry after a failure.
    Connecting,
    /// Connected, authenticated, and pumping input.
    Connected { peer: String },
    /// Not connected. `reason` is the short human sentence explaining why,
    /// kept because "disconnected" on its own tells the user nothing they
    /// can act on.
    Disconnected { reason: String },
}

impl LinkState {
    /// The one line a status display shows.
    pub fn summary(&self) -> (r: String)
        ensures
            r@ == match *self {
                LinkState::Connecting => "Connecting"@,
                LinkState::Connected { peer } => "Connected to "@ + peer@,
                LinkState::Disconnected { reason } => "Disconnected: "@ + reason@,
            },
    {
        match self {
            LinkState::Connecting => "Connecting".to_owned(),
            LinkState::Connected { peer } => "Connected to ".to_owned().concat(peer.as_str()),
            LinkState::Disconnected { reason } => "Disconnected: ".to_owned().concat(reason.as_str()),
        }
    }

    pub fn is_connected(&self) -> (r: bool)
        ensures
            r == (self is Connected),
    {
        match self {
            LinkState::Connected { .. } => true,
            _ => false,
        }
    }
}

/// Somewhere to send link transitions.
///
/// A trait rather than a channel so the supervisor stays free of any
/// opinion about where status goes, and so the exact sequence of
/// transitions can be asserted on rather than log output.
pub trait LinkObserver: Send {
    fn link_changed(&mut self, state: LinkState);
}

/// Discards everything. What is used when nothing is watching, which is
/// the case whenever hop is started from a terminal.
pub struct IgnoreLink;

impl LinkObserver for IgnoreLink {
    fn link_changed(&mut self, _state: LinkState)
        ensures
            *final(self) == *old(self),
    {
    }
}

} // verus!
