//! The relay between the device and the protocol engine, without the device:
//! it is driven with what was read and written, and holds the packets that
//! are still to be written.

use vstd::prelude::*;
use crate::relay::{RelayAction, RelayEvent, RelayState, Stage};

verus! {

/// A logical packet in its wire form.
#[derive(Debug)]
pub struct Packet {
    pub bytes: Vec<u8>,
}

/// A protocol engine that answers each packet with that packet.
pub struct SimplifiedServer {
    pending_responses: Vec<Packet>,
}

impl SimplifiedServer {
    /// An engine with nothing pending.
    pub fn new() -> (r: Self)
        ensures
            r.pending() == Seq::<Packet>::empty(),
    {
        SimplifiedServer { pending_responses: Vec::new() }
    }

    /// The packets that the engine still holds back.
    pub closed spec fn pending(&self) -> Seq<Packet> {
        self.pending_responses@
    }

    /// The engine's answer to `packet`: the packet itself.
    pub open spec fn responses(packet: Packet) -> Seq<Packet> {
        seq![packet]
    }

    /// Takes `packet` and gives the packets to send back, in the order in
    /// which they are to be sent.
    pub fn process_packet(&mut self, packet: Packet) -> (r: Vec<Packet>)
        ensures
            r@ == Self::responses(packet),
            final(self).pending() == old(self).pending(),
    {
        let mut r: Vec<Packet> = Vec::new();
        r.push(packet);
        proof {
            assert(r@ =~= Self::responses(packet));
        }
        r
    }
}

/// The relay: the state of the loop, the engine, and the engine's answer to
/// the packet at hand.
pub struct PiU2fAdapter {
    state: RelayState,
    server: SimplifiedServer,
    outbox: Vec<Packet>,
}

impl PiU2fAdapter {
    /// The state of the loop.
    pub closed spec fn state_spec(&self) -> RelayState {
        self.state
    }

    /// The engine that answers the packets.
    pub closed spec fn engine(&self) -> SimplifiedServer {
        self.server
    }

    /// The engine's answer to the packet at hand.
    pub closed spec fn outbox(&self) -> Seq<Packet> {
        self.outbox@
    }

    /// While packets are being written, they are the engine's answer.
    pub closed spec fn wf(&self) -> bool {
        match self.state {
            RelayState::Processing(Stage::Writing { next, total }) => total == self.outbox@.len(),
            _ => true,
        }
    }

    /// An idle relay around `server`.
    pub fn new(server: SimplifiedServer) -> (r: Self)
        ensures
            r.wf(),
            r.engine() == server,
            r.state_spec() == RelayState::Idle,
            r.outbox() == Seq::<Packet>::empty(),
    {
        PiU2fAdapter { state: RelayState::Idle, server, outbox: Vec::new() }
    }

    /// The state of the loop.
    pub fn state(&self) -> (r: RelayState)
        ensures
            r == self.state_spec(),
    {
        self.state
    }

    /// A read returned `read_size` bytes: nothing to do for an empty read,
    /// else the report goes to the decoder.
    pub fn on_report(&mut self, read_size: usize) -> (action: RelayAction)
        requires
            old(self).wf(),
        ensures
            final(self).wf(),
            (final(self).state_spec(), action) == old(self).state_spec().step_spec(
                RelayEvent::ReportRead(read_size),
            ),
            final(self).outbox() == old(self).outbox(),
            final(self).engine() == old(self).engine(),
    {
        self.state.step(RelayEvent::ReportRead(read_size))
    }

    /// The decoder refused the report: it is dropped and the loop reads on.
    pub fn on_decode_failed(&mut self) -> (action: RelayAction)
        requires
            old(self).wf(),
        ensures
            final(self).wf(),
            (final(self).state_spec(), action) == old(self).state_spec().step_spec(
                RelayEvent::DecodeFailed,
            ),
            final(self).outbox() == old(self).outbox(),
            final(self).engine() == old(self).engine(),
    {
        self.state.step(RelayEvent::DecodeFailed)
    }

    /// The decoder made `packet` of the report: the engine takes it, and its
    /// answer waits to be written, first packet first. Where no report was
    /// with the decoder, nothing is dispatched and the answer is to give up.
    pub fn on_packet(&mut self, packet: Packet) -> (action: RelayAction)
        requires
            old(self).wf(),
        ensures
            final(self).wf(),
            final(self).engine().pending() == old(self).engine().pending(),
            old(self).state_spec() == RelayState::Processing(Stage::Decoding) ==> {
                &&& final(self).outbox() == SimplifiedServer::responses(packet)
                &&& (final(self).state_spec(), action) == RelayState::Processing(
                    Stage::Dispatching,
                ).step_spec(RelayEvent::Responses(final(self).outbox().len() as usize))
            },
            old(self).state_spec() != RelayState::Processing(Stage::Decoding) ==> {
                &&& action == RelayAction::Abort
                &&& final(self).state_spec() == old(self).state_spec()
                &&& final(self).outbox() == old(self).outbox()
            },
    {
        match self.state {
            RelayState::Processing(Stage::Decoding) => {
                self.state.step(RelayEvent::Decoded);
                let responses = self.server.process_packet(packet);
                let total = responses.len();
                self.outbox = responses;
                self.state.step(RelayEvent::Responses(total))
            },
            _ => RelayAction::Abort,
        }
    }

    /// The packet that `RelayAction::Write` with this index asks to write.
    pub fn response(&self, index: usize) -> (r: Option<&Packet>)
        ensures
            index < self.outbox().len() ==> r == Some(&self.outbox()[index as int]),
            index >= self.outbox().len() ==> r.is_none(),
    {
        if index < self.outbox.len() {
            Some(&self.outbox[index])
        } else {
            None
        }
    }

    /// A packet was written: the next one follows, or the loop reads again.
    pub fn on_written(&mut self) -> (action: RelayAction)
        requires
            old(self).wf(),
        ensures
            final(self).wf(),
            (final(self).state_spec(), action) == old(self).state_spec().step_spec(
                RelayEvent::Written,
            ),
            final(self).outbox() == old(self).outbox(),
            final(self).engine() == old(self).engine(),
            action matches RelayAction::Write(i) ==> i < final(self).outbox().len(),
    {
        self.state.step(RelayEvent::Written)
    }

    /// A read or a write failed: the loop gives up.
    pub fn on_io_failed(&mut self) -> (action: RelayAction)
        requires
            old(self).wf(),
        ensures
            final(self).wf(),
            action == RelayAction::Abort,
            final(self).state_spec() == RelayState::Idle,
            final(self).outbox() == old(self).outbox(),
            final(self).engine() == old(self).engine(),
    {
        self.state.step(RelayEvent::IoFailed)
    }
}

} // verus!
