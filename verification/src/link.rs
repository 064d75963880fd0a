//! One live connection to a remote node, modelled by its address and its
//! place in the lifecycle `Connecting -> Established -> Closed`. The stream
//! itself lives with the I/O layer; these transitions are the part the node
//! decides on.

use vstd::prelude::*;

verus! {

use crate::address::Address;

/// The lifecycle of a link. `Established` is the only state in which sending
/// or reading is valid; a closed link is discarded, never reused.
#[derive(Clone, Copy, PartialEq, Eq, Debug, Structural)]
pub enum LinkState {
    Connecting,
    Established,
    ClosedClean,
    ClosedError,
}

/// A single bidirectional connection to one remote node.
#[derive(Clone, Copy, PartialEq, Eq, Debug, Structural)]
pub struct PeerLink {
    pub addr: Address,
    pub state: LinkState,
}

/// The legal lifecycle steps: a connection attempt either becomes usable, or
/// a usable link closes, cleanly or on error. Nothing leaves a closed state.
pub open spec fn step_allowed(from: LinkState, to: LinkState) -> bool {
    ||| (from is Connecting && to is Established)
    ||| (from is Established && (to is ClosedClean || to is ClosedError))
}

impl PeerLink {
    /// Whether the link may carry traffic.
    pub open spec fn is_live(&self) -> bool {
        self.state is Established
    }

    /// A dial or accept in progress for `addr`.
    pub fn connecting(addr: Address) -> (r: PeerLink)
        ensures
            r.addr == addr,
            r.state is Connecting,
    {
        PeerLink { addr, state: LinkState::Connecting }
    }

    /// A link whose connection just succeeded: immediately usable.
    pub fn open(addr: Address) -> (r: PeerLink)
        ensures
            r.addr == addr,
            r.state is Established,
    {
        PeerLink { addr, state: LinkState::Established }
    }

    /// The pending connection succeeded.
    pub fn establish(&mut self)
        requires
            old(self).state is Connecting,
        ensures
            final(self).addr == old(self).addr,
            final(self).state is Established,
            step_allowed(old(self).state, final(self).state),
    {
        self.state = LinkState::Established;
    }

    /// The peer ended the stream gracefully; the link is now unusable.
    pub fn close_clean(&mut self)
        requires
            old(self).state is Established,
        ensures
            final(self).addr == old(self).addr,
            final(self).state is ClosedClean,
            step_allowed(old(self).state, final(self).state),
    {
        self.state = LinkState::ClosedClean;
    }

    /// A read or write failed; the link is now unusable.
    pub fn close_error(&mut self)
        requires
            old(self).state is Established,
        ensures
            final(self).addr == old(self).addr,
            final(self).state is ClosedError,
            step_allowed(old(self).state, final(self).state),
    {
        self.state = LinkState::ClosedError;
    }

    /// Whether traffic may flow, as the I/O layer checks it before a write.
    pub fn can_use(&self) -> (r: bool)
        ensures
            r == self.is_live(),
    {
        match self.state {
            LinkState::Established => true,
            _ => false,
        }
    }
}

/// A closed link allows no further lifecycle step: it must be discarded and
/// never reinserted under its address without a fresh connection attempt.
pub proof fn lemma_closed_is_terminal(from: LinkState)
    requires
        from is ClosedClean || from is ClosedError,
    ensures
        forall|to: LinkState| !step_allowed(from, to),
{
}

} // verus!
