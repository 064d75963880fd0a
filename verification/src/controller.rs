//! The coordinating unit of the node. It owns the peer registry and decides,
//! for every local command, read-loop event and discovery announcement, how
//! the registry changes and what the I/O layer must do next. The I/O layer
//! runs the loops; every decision is taken here.

use vstd::prelude::*;

verus! {

use crate::address::{address_text, Address, HostAddr};
use crate::discovery::announcement_text;
use crate::errors::NodeError;
use crate::link::PeerLink;
use crate::registry::PeerRegistry;

/// A local intent from the command surface: connect to a typed address,
/// broadcast a message line, or quit.
pub enum Command {
    Connect(Vec<u8>),
    Send(Vec<u8>),
    Quit,
}

/// What the controller asks the I/O layer to do for one command.
pub enum CommandAction {
    /// Dial this address; on success the dialer reports `peer_connected`.
    Dial(Address),
    /// The typed address is invalid: report it, nothing changed.
    Reject(NodeError),
    /// Write this frame to every link of this snapshot.
    Deliver { targets: Vec<PeerLink>, frame: Vec<u8> },
    /// Stop reading commands and shut the node down.
    Stop,
}

/// What a peer's read loop observed: a full line, a clean end-of-stream, or
/// a read failure.
pub enum ReadEvent {
    Line(Vec<u8>),
    Closed,
    Failed,
}

/// What follows from one read-loop observation.
pub enum ReadOutcome {
    /// Show this message, attributed to the peer it came from.
    Display { from: Address, text: Vec<u8> },
    /// The link ended and was deregistered; the error tells how.
    Disconnected { addr: Address, error: NodeError },
}

/// The controller: the node's listening port, the registry it owns, and
/// whether it still accepts local commands.
pub struct ChatController {
    pub local_port: u16,
    pub registry: PeerRegistry,
    pub running: bool,
}

impl ChatController {
    /// The controller is well-formed when its registry is.
    pub open spec fn wf(&self) -> bool {
        self.registry.wf()
    }

    /// A fresh node listening on `local_port`, with no peers yet.
    pub fn new(local_port: u16) -> (r: ChatController)
        ensures
            r.wf(),
            r.local_port == local_port,
            r.running,
            r.registry@ == Map::<Address, PeerLink>::empty(),
            r.registry.links@.len() == 0,
    {
        ChatController { local_port, registry: PeerRegistry::new(), running: true }
    }

    /// A connection for `addr` succeeded, inbound or outbound: register a
    /// live link under that address, replacing any prior entry for it.
    pub fn peer_connected(&mut self, addr: Address)
        requires
            old(self).wf(),
        ensures
            final(self).wf(),
            final(self).registry@ == old(self).registry@.insert(
                addr,
                PeerLink { addr, state: crate::link::LinkState::Established },
            ),
            final(self).local_port == old(self).local_port,
            final(self).running == old(self).running,
    {
        let link = PeerLink::open(addr);
        self.registry.insert(link);
    }

    /// Decides one local command. A connect resolves the typed address and
    /// asks for a dial, or rejects the text; a send snapshots the registry
    /// and hands back the framed line to write to every link; quit stops
    /// the command loop. Only quit changes the controller's state.
    pub fn handle_command(&mut self, cmd: Command) -> (r: CommandAction)
        requires
            old(self).wf(),
            cmd matches Command::Send(msg) ==> forall|j: int|
                0 <= j < msg@.len() ==> msg@[j] != 10,
        ensures
            final(self).wf(),
            final(self).local_port == old(self).local_port,
            final(self).registry == old(self).registry,
            match cmd {
                Command::Connect(text) => {
                    &&& *final(self) == *old(self)
                    &&& match r {
                        CommandAction::Dial(a) => text@ == address_text(a),
                        CommandAction::Reject(e) => e is AddressParseFailure && forall|a: Address|
                            text@ != address_text(a),
                        _ => false,
                    }
                },
                Command::Send(msg) => {
                    &&& *final(self) == *old(self)
                    &&& match r {
                        CommandAction::Deliver { targets, frame } => {
                            &&& targets@ == old(self).registry.links@
                            &&& frame@ == msg@ + seq![10u8]
                        },
                        _ => false,
                    }
                },
                Command::Quit => {
                    &&& !final(self).running
                    &&& r is Stop
                },
            },
    {
        match cmd {
            Command::Connect(text) => {
                match crate::address::parse_address(text.as_slice()) {
                    Some(a) => CommandAction::Dial(a),
                    None => CommandAction::Reject(NodeError::AddressParseFailure),
                }
            },
            Command::Send(msg) => {
                let targets = self.registry.snapshot();
                let frame = crate::wire::frame_message(msg.as_slice());
                CommandAction::Deliver { targets, frame }
            },
            Command::Quit => {
                self.running = false;
                CommandAction::Stop
            },
        }
    }

    /// Decides one read-loop observation for the link at `addr`. A line is
    /// displayed and changes nothing; a clean close or a failure removes
    /// exactly that address from the registry and touches no other entry.
    pub fn read_event(&mut self, addr: Address, ev: ReadEvent) -> (r: ReadOutcome)
        requires
            old(self).wf(),
        ensures
            final(self).wf(),
            final(self).local_port == old(self).local_port,
            final(self).running == old(self).running,
            match ev {
                ReadEvent::Line(text) => {
                    &&& *final(self) == *old(self)
                    &&& r matches ReadOutcome::Display { from, text: shown } && from == addr
                        && shown@ == text@
                },
                ReadEvent::Closed => {
                    &&& final(self).registry@ == old(self).registry@.remove(addr)
                    &&& r == ReadOutcome::Disconnected { addr, error: NodeError::CleanClose }
                },
                ReadEvent::Failed => {
                    &&& final(self).registry@ == old(self).registry@.remove(addr)
                    &&& r == ReadOutcome::Disconnected { addr, error: NodeError::StreamError }
                },
            },
            !(ev is Line) ==> forall|b: Address|
                b != addr ==> final(self).registry@.contains_key(b) == old(
                    self,
                ).registry@.contains_key(b),
    {
        match ev {
            ReadEvent::Line(text) => ReadOutcome::Display { from: addr, text },
            ReadEvent::Closed => {
                self.registry.remove(&addr);
                ReadOutcome::Disconnected { addr, error: NodeError::CleanClose }
            },
            ReadEvent::Failed => {
                self.registry.remove(&addr);
                ReadOutcome::Disconnected { addr, error: NodeError::StreamError }
            },
        }
    }

    /// Decides one received discovery announcement: the address to dial, or
    /// nothing. The node never dials its own announced port and never dials
    /// an address it is already connected to.
    pub fn discovery_event(&self, sender: HostAddr, payload: &[u8]) -> (r: Option<Address>)
        ensures
            match r {
                Some(t) => {
                    &&& t.host == sender
                    &&& payload@ == announcement_text(t.port)
                    &&& t.port != self.local_port
                    &&& !self.registry@.contains_key(t)
                },
                None => forall|p: u16|
                    payload@ == announcement_text(p) ==> p == self.local_port
                        || self.registry@.contains_key(Address { host: sender, port: p }),
            },
    {
        crate::discovery::discovery_dial_target(self.local_port, sender, payload, &self.registry)
    }

    /// The payload the announcer broadcasts each period for this node.
    pub fn announcement(&self) -> (r: Vec<u8>)
        ensures
            r@ == announcement_text(self.local_port),
    {
        crate::discovery::encode_announcement(self.local_port)
    }
}

} // verus!
