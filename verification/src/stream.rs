//! Decision logic of the inbound stream dispatcher.
//!
//! The runtime around it accepts connections, reads one framed message per
//! connection, and performs I/O; every choice the handler makes — how to
//! answer a ping, when to refuse a push/pull, what to hand to the delegate —
//! is a function here, so the loop around it stays free of policy.

use vstd::prelude::*;

use crate::codec::{spec_encode_message, spec_message_fits, EncodeError, encode_message};
use crate::error_response::ErrorResponse;
use crate::types::{Ack, Message, MessageV, Nack, PushPull, PushPullV, PushNodeState, Server};
use crate::wire::bytes_eq;

verus! {

/// The most inbound push/pull exchanges served at once; the next one is
/// refused.
pub const MAX_PUSH_PULL_REQUESTS: u32 = 128;

/// Counts the inbound push/pull exchanges being served, and refuses new
/// ones past the configured bound.
pub struct PushPullGate {
    limit: u32,
    active: u32,
}

impl PushPullGate {
    /// The bound fixed at construction.
    pub closed spec fn spec_limit(self) -> u32 {
        self.limit
    }

    /// How many exchanges are being served now.
    pub closed spec fn spec_active(self) -> u32 {
        self.active
    }

    /// The count never exceeds the bound.
    pub open spec fn wf(self) -> bool {
        self.spec_active() <= self.spec_limit()
    }

    /// A gate serving nothing, with the given bound.
    pub fn new(limit: u32) -> (r: Self)
        ensures
            r.spec_limit() == limit,
            r.spec_active() == 0,
            r.wf(),
    {
        PushPullGate { limit, active: 0 }
    }

    /// Admits one more exchange when the bound leaves room, and says whether
    /// it did.
    pub fn try_begin(&mut self) -> (r: bool)
        requires
            old(self).wf(),
        ensures
            final(self).wf(),
            final(self).spec_limit() == old(self).spec_limit(),
            r == (old(self).spec_active() < old(self).spec_limit()),
            r ==> final(self).spec_active() == old(self).spec_active() + 1,
            !r ==> final(self).spec_active() == old(self).spec_active(),
    {
        if self.active < self.limit {
            self.active = self.active + 1;
            true
        } else {
            false
        }
    }

    /// Releases one admitted exchange.
    pub fn end(&mut self)
        requires
            old(self).wf(),
            old(self).spec_active() > 0,
        ensures
            final(self).wf(),
            final(self).spec_limit() == old(self).spec_limit(),
            final(self).spec_active() == old(self).spec_active() - 1,
    {
        self.active = self.active - 1;
    }
}

/// Push/pull limit: a well-formed gate never serves more exchanges than its
/// bound, and `try_begin` refuses the exchange past the bound.
pub proof fn lemma_push_pull_bound(g: PushPullGate)
    requires
        g.wf(),
    ensures
        g.spec_active() <= g.spec_limit(),
{
}

/// What the dispatcher does with one decoded inbound frame.
#[derive(Debug, Clone, PartialEq, Eq)]
pub enum StreamAction {
    /// Answer the ping with this ack and return the connection to the idle
    /// pool.
    ReplyAck(Ack),
    /// The ping names another node: close without answering.
    DropWrongPing,
    /// Serve the push/pull: send the local state, merge the remote state,
    /// then release the admitted slot.
    ServePushPull(PushPull),
    /// Too many exchanges are being served: answer this error and close.
    RejectPushPull(ErrorResponse),
    /// Hand the user bytes to the delegate.
    NotifyUser(Vec<u8>),
    /// A frame the dispatcher does not serve: close.
    Ignore,
}

/// Decides what the stream dispatcher does with one decoded frame. A ping
/// is answered only when it names this node. A push/pull takes a slot when
/// one is free and is refused otherwise; the caller frees the slot
/// afterwards. User bytes go to the delegate; anything else is dropped.
pub fn dispatch_stream_frame(msg: Message, local_id: &[u8], gate: &mut PushPullGate) -> (r:
    StreamAction)
    requires
        old(gate).wf(),
    ensures
        final(gate).wf(),
        final(gate).spec_limit() == old(gate).spec_limit(),
        match r {
            StreamAction::ReplyAck(a) => msg@ matches MessageV::Ping(p) && p.target_id
                == local_id@ && a.seq_no == p.seq_no && a.payload@ == Seq::<u8>::empty()
                && *final(gate) == *old(gate),
            StreamAction::DropWrongPing => msg@ matches MessageV::Ping(p) && p.target_id
                != local_id@ && *final(gate) == *old(gate),
            StreamAction::ServePushPull(pp) => msg@ == MessageV::PushPull(pp@) && old(
                gate,
            ).spec_active() < old(gate).spec_limit() && final(gate).spec_active() == old(
                gate,
            ).spec_active() + 1,
            StreamAction::RejectPushPull(e) => msg@ matches MessageV::PushPull(_) && old(
                gate,
            ).spec_active() == old(gate).spec_limit() && *final(gate) == *old(gate) && e@
                == "too many pending push/pull requests"@,
            StreamAction::NotifyUser(d) => msg@ == MessageV::UserData(d@) && *final(gate) == *old(
                gate,
            ),
            StreamAction::Ignore => (msg@ matches MessageV::Ack(_) || msg@ matches MessageV::Nack(
                _,
            ) || msg@ matches MessageV::ErrorResponse(_) || msg@ matches MessageV::Compound(_))
                && *final(gate) == *old(gate),
        },
{
    match msg {
        Message::Ping(p) => {
            if bytes_eq(p.target_id.as_slice(), local_id) {
                StreamAction::ReplyAck(Ack { seq_no: p.seq_no, payload: Vec::new() })
            } else {
                StreamAction::DropWrongPing
            }
        },
        Message::PushPull(pp) => {
            if gate.try_begin() {
                StreamAction::ServePushPull(pp)
            } else {
                proof {
                    reveal_strlit("too many pending push/pull requests");
                }
                StreamAction::RejectPushPull(
                    ErrorResponse::new("too many pending push/pull requests".to_string()),
                )
            }
        },
        Message::UserData(d) => StreamAction::NotifyUser(d),
        Message::Ack(_) => StreamAction::Ignore,
        Message::Nack(_) => StreamAction::Ignore,
        Message::ErrorResponse(_) => StreamAction::Ignore,
        Message::Compound(_) => StreamAction::Ignore,
    }
}

/// What the accept loop observed.
#[derive(Debug, Clone, Copy, PartialEq, Eq, Structural)]
pub enum ListenerEvent {
    /// The shutdown signal fired.
    Shutdown,
    /// A connection arrived.
    Accepted,
    /// The transport failed to accept: it was closed on the other side.
    AcceptFailed,
}

/// What the accept loop does next.
#[derive(Debug, Clone, Copy, PartialEq, Eq, Structural)]
pub enum ListenerStep {
    /// Hand the connection to a handler and keep listening.
    HandleConnection,
    /// Stop listening.
    Stop,
}

/// Decides the accept loop's next step: a connection is handled; shutdown
/// and a failed accept both end the loop.
pub fn listener_step(event: ListenerEvent) -> (r: ListenerStep)
    ensures
        r == (match event {
            ListenerEvent::Accepted => ListenerStep::HandleConnection,
            ListenerEvent::Shutdown => ListenerStep::Stop,
            ListenerEvent::AcceptFailed => ListenerStep::Stop,
        }),
{
    match event {
        ListenerEvent::Accepted => ListenerStep::HandleConnection,
        ListenerEvent::Shutdown => ListenerStep::Stop,
        ListenerEvent::AcceptFailed => ListenerStep::Stop,
    }
}

/// Builds and frames the local half of a push/pull exchange: the table
/// snapshot, the delegate's bytes, and the join flag, encoded for the
/// stream.
pub fn encode_local_state(states: Vec<PushNodeState>, user_data: Vec<u8>, join: bool) -> (r: Result<
    Vec<u8>,
    EncodeError,
>)
    ensures
        r matches Ok(v) ==> v@ == spec_encode_message(
            MessageV::PushPull(
                PushPullV {
                    join,
                    states: states@.map_values(|s: PushNodeState| s@),
                    user_data: user_data@,
                },
            ),
        ),
        r is Ok <==> spec_message_fits(
            MessageV::PushPull(
                PushPullV {
                    join,
                    states: states@.map_values(|s: PushNodeState| s@),
                    user_data: user_data@,
                },
            ),
        ),
{
    let msg = Message::PushPull(PushPull { join, states, user_data });
    encode_message(&msg)
}

/// The peers handed to the delegate's merge veto: every record of the
/// remote half of a join push/pull, without its incarnation.
pub fn peers_of_states(states: &Vec<PushNodeState>) -> (r: Vec<Server>)
    ensures
        r@.len() == states@.len(),
        forall|i: int| 0 <= i < r@.len() ==> (#[trigger] r@[i])@ == spec_server_of(states@[i]@),
{
    let mut out: Vec<Server> = Vec::new();
    let mut i: usize = 0;
    while i < states.len()
        invariant
            i <= states@.len(),
            out@.len() == i,
            forall|j: int| 0 <= j < i ==> (#[trigger] out@[j])@ == spec_server_of(states@[j]@),
        decreases states@.len() - i,
    {
        let s = &states[i];
        let server = Server {
            id: vstd::slice::slice_to_vec(s.id.as_slice()),
            addr: s.addr,
            meta: vstd::slice::slice_to_vec(s.meta.as_slice()),
            state: s.state,
            protocol_version: s.protocol_version,
            delegate_version: s.delegate_version,
        };
        out.push(server);
        i = i + 1;
    }
    out
}

/// The server record a push/pull record announces: the same peer without
/// the incarnation counter.
pub open spec fn spec_server_of(s: crate::types::PushNodeStateV) -> crate::types::ServerV {
    crate::types::ServerV {
        id: s.id,
        addr: s.addr,
        meta: s.meta,
        state: s.state,
        protocol_version: s.protocol_version,
        delegate_version: s.delegate_version,
    }
}


/// The steps of a push/pull merge, in the order the exchange performs
/// them.
pub struct MergePlan {
    /// When the remote half is a join and a delegate is present: the peers
    /// to offer the delegate's merge veto before anything is applied.
    pub notify_peers: Option<Vec<Server>>,
    /// The remote records, each to be fed through the table's merge rules.
    pub states: Vec<PushNodeState>,
    /// When a delegate is present and the remote half carried user bytes:
    /// the bytes to hand to the delegate after the records are merged.
    pub user_data: Option<Vec<u8>>,
}

/// Lays out the merge of a remote push/pull half: who to ask for a veto,
/// which records to merge, and what to hand to the delegate afterwards.
pub fn plan_merge(pp: PushPull, has_delegate: bool) -> (r: MergePlan)
    ensures
        r.states@.map_values(|s: PushNodeState| s@) == pp@.states,
        r.notify_peers is Some <==> pp@.join && has_delegate,
        r.notify_peers matches Some(peers) ==> peers@.len() == pp@.states.len() && (forall|i: int|
            0 <= i < peers@.len() ==> (#[trigger] peers@[i])@ == spec_server_of(pp@.states[i])),
        r.user_data is Some <==> has_delegate && pp@.user_data.len() > 0,
        r.user_data matches Some(d) ==> d@ == pp@.user_data,
{
    let notify_peers = if pp.join && has_delegate {
        Some(peers_of_states(&pp.states))
    } else {
        None
    };
    let user_data = if has_delegate && pp.user_data.len() > 0 {
        Some(pp.user_data)
    } else {
        None
    };
    MergePlan { notify_peers, states: pp.states, user_data }
}


/// What the packet handler does with one decoded datagram.
#[derive(Debug, Clone, PartialEq, Eq)]
pub enum PacketAction {
    /// The ping names this node: answer it with this ack.
    ReplyAck(Ack),
    /// The ping names another node: answer it with this nack.
    ReplyNack(Nack),
    /// A positive probe answer: hand it to the prober waiting on its
    /// sequence number.
    DeliverAck(Ack),
    /// A negative probe answer: hand it to the prober as an acknowledged
    /// miss.
    DeliverNack(Nack),
    /// Hand the user bytes to the delegate.
    NotifyUser(Vec<u8>),
    /// A compound datagram: dispatch each sub-frame independently.
    Unpack(Vec<Vec<u8>>),
    /// A kind the packet path does not carry: drop the datagram.
    Drop,
}

/// Decides what the packet handler does with one decoded datagram. A ping
/// for this node is answered with an ack carrying its sequence number; a
/// ping for another node with a nack. Probe answers go to the prober, user
/// bytes to the delegate, and a compound datagram is split into its
/// sub-frames, each dispatched on its own.
pub fn handle_packet(msg: Message, local_id: &[u8]) -> (r: PacketAction)
    ensures
        match r {
            PacketAction::ReplyAck(a) => msg@ matches MessageV::Ping(p) && p.target_id
                == local_id@ && a.seq_no == p.seq_no && a.payload@ == Seq::<u8>::empty(),
            PacketAction::ReplyNack(n) => msg@ matches MessageV::Ping(p) && p.target_id
                != local_id@ && n.seq_no == p.seq_no,
            PacketAction::DeliverAck(a) => msg@ == MessageV::Ack(a@),
            PacketAction::DeliverNack(n) => msg@ == MessageV::Nack(n),
            PacketAction::NotifyUser(d) => msg@ == MessageV::UserData(d@),
            PacketAction::Unpack(subs) => msg@ == MessageV::Compound(
                subs@.map_values(|c: Vec<u8>| c@),
            ),
            PacketAction::Drop => msg@ matches MessageV::PushPull(_) || msg@
                matches MessageV::ErrorResponse(_),
        },
{
    match msg {
        Message::Ping(p) => {
            if bytes_eq(p.target_id.as_slice(), local_id) {
                PacketAction::ReplyAck(Ack { seq_no: p.seq_no, payload: Vec::new() })
            } else {
                PacketAction::ReplyNack(Nack { seq_no: p.seq_no })
            }
        },
        Message::Ack(a) => PacketAction::DeliverAck(a),
        Message::Nack(n) => PacketAction::DeliverNack(n),
        Message::UserData(d) => PacketAction::NotifyUser(d),
        Message::Compound(subs) => PacketAction::Unpack(subs),
        Message::PushPull(_) => PacketAction::Drop,
        Message::ErrorResponse(_) => PacketAction::Drop,
    }
}

} // verus!
