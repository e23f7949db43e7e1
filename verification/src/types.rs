//! The protocol messages exchanged between peers, and their mathematical
//! views.
//!
//! A peer is named by an opaque identifier (its bytes) and a resolved
//! address. Protocol messages are the direct and indirect liveness probes
//! and their answers, the anti-entropy push/pull exchange, user datagrams,
//! and the error response of the stream dispatcher.

use vstd::prelude::*;

use crate::error_response::ErrorResponse;

verus! {

/// A peer's resolved network address: an IPv4 address and a port.
#[derive(Clone, Copy, Debug, PartialEq, Eq, Structural, Hash)]
pub struct NodeAddress {
    /// The four address bytes, most significant first.
    pub ip: u32,
    /// The port.
    pub port: u16,
}

/// The liveness state a peer is believed to be in.
#[derive(Clone, Copy, Debug, PartialEq, Eq, Structural, Hash)]
pub enum NodeStateKind {
    /// The peer answers probes.
    Alive,
    /// The peer missed a probe and confirmations are being collected.
    Suspect,
    /// The peer was declared dead.
    Dead,
    /// The peer left voluntarily.
    Left,
}

/// A direct liveness probe.
#[derive(Debug, Clone, PartialEq, Eq)]
pub struct Ping {
    /// Matches the answering ack to this probe.
    pub seq_no: u32,
    /// The prober's identifier.
    pub source_id: Vec<u8>,
    /// The prober's address.
    pub source_addr: NodeAddress,
    /// The probed peer's identifier.
    pub target_id: Vec<u8>,
    /// The probed peer's address.
    pub target_addr: NodeAddress,
}

/// The view of a `Ping`.
pub ghost struct PingV {
    /// Matches the answering ack to this probe.
    pub seq_no: u32,
    /// The prober's identifier bytes.
    pub source_id: Seq<u8>,
    /// The prober's address.
    pub source_addr: NodeAddress,
    /// The probed peer's identifier bytes.
    pub target_id: Seq<u8>,
    /// The probed peer's address.
    pub target_addr: NodeAddress,
}

impl View for Ping {
    type V = PingV;

    open spec fn view(&self) -> PingV {
        PingV {
            seq_no: self.seq_no,
            source_id: self.source_id@,
            source_addr: self.source_addr,
            target_id: self.target_id@,
            target_addr: self.target_addr,
        }
    }
}

/// A positive answer to a probe, carrying piggybacked broadcast bytes.
#[derive(Debug, Clone, PartialEq, Eq)]
pub struct Ack {
    /// The probe this answers.
    pub seq_no: u32,
    /// Piggybacked broadcast bytes, possibly empty.
    pub payload: Vec<u8>,
}

/// The view of an `Ack`.
pub ghost struct AckV {
    /// The probe this answers.
    pub seq_no: u32,
    /// Piggybacked broadcast bytes.
    pub payload: Seq<u8>,
}

impl View for Ack {
    type V = AckV;

    open spec fn view(&self) -> AckV {
        AckV { seq_no: self.seq_no, payload: self.payload@ }
    }
}

/// A negative answer: the relay could not reach the probed peer.
#[derive(Debug, Clone, Copy, PartialEq, Eq, Structural)]
pub struct Nack {
    /// The probe this answers.
    pub seq_no: u32,
}

/// One peer's record inside a push/pull exchange.
#[derive(Debug, Clone, PartialEq, Eq)]
pub struct PushNodeState {
    /// The peer's identifier.
    pub id: Vec<u8>,
    /// The peer's address.
    pub addr: NodeAddress,
    /// Opaque application metadata.
    pub meta: Vec<u8>,
    /// The refutation counter under which this record was accepted.
    pub incarnation: u32,
    /// The liveness state.
    pub state: NodeStateKind,
    /// Negotiated protocol capability.
    pub protocol_version: u8,
    /// Negotiated delegate capability.
    pub delegate_version: u8,
}

/// The view of a `PushNodeState`.
pub ghost struct PushNodeStateV {
    /// The peer's identifier bytes.
    pub id: Seq<u8>,
    /// The peer's address.
    pub addr: NodeAddress,
    /// Opaque application metadata bytes.
    pub meta: Seq<u8>,
    /// The refutation counter under which this record was accepted.
    pub incarnation: u32,
    /// The liveness state.
    pub state: NodeStateKind,
    /// Negotiated protocol capability.
    pub protocol_version: u8,
    /// Negotiated delegate capability.
    pub delegate_version: u8,
}

impl View for PushNodeState {
    type V = PushNodeStateV;

    open spec fn view(&self) -> PushNodeStateV {
        PushNodeStateV {
            id: self.id@,
            addr: self.addr,
            meta: self.meta@,
            incarnation: self.incarnation,
            state: self.state,
            protocol_version: self.protocol_version,
            delegate_version: self.delegate_version,
        }
    }
}

/// A full-state anti-entropy exchange.
#[derive(Debug, Clone, PartialEq, Eq)]
pub struct PushPull {
    /// Whether the sender is joining the cluster.
    pub join: bool,
    /// The sender's full table, one record per known peer.
    pub states: Vec<PushNodeState>,
    /// Opaque application anti-entropy bytes.
    pub user_data: Vec<u8>,
}

/// The view of a `PushPull`.
pub ghost struct PushPullV {
    /// Whether the sender is joining the cluster.
    pub join: bool,
    /// The sender's full table.
    pub states: Seq<PushNodeStateV>,
    /// Opaque application anti-entropy bytes.
    pub user_data: Seq<u8>,
}

impl View for PushPull {
    type V = PushPullV;

    open spec fn view(&self) -> PushPullV {
        PushPullV {
            join: self.join,
            states: self.states@.map_values(|s: PushNodeState| s@),
            user_data: self.user_data@,
        }
    }
}

/// One peer as handed to the embedding application: identity, address,
/// metadata and negotiated versions.
#[derive(Debug, Clone, PartialEq, Eq)]
pub struct Server {
    /// The peer's identifier.
    pub id: Vec<u8>,
    /// The peer's address.
    pub addr: NodeAddress,
    /// Opaque application metadata.
    pub meta: Vec<u8>,
    /// The liveness state.
    pub state: NodeStateKind,
    /// Negotiated protocol capability.
    pub protocol_version: u8,
    /// Negotiated delegate capability.
    pub delegate_version: u8,
}

/// The view of a `Server`.
pub ghost struct ServerV {
    /// The peer's identifier bytes.
    pub id: Seq<u8>,
    /// The peer's address.
    pub addr: NodeAddress,
    /// Opaque application metadata bytes.
    pub meta: Seq<u8>,
    /// The liveness state.
    pub state: NodeStateKind,
    /// Negotiated protocol capability.
    pub protocol_version: u8,
    /// Negotiated delegate capability.
    pub delegate_version: u8,
}

impl View for Server {
    type V = ServerV;

    open spec fn view(&self) -> ServerV {
        ServerV {
            id: self.id@,
            addr: self.addr,
            meta: self.meta@,
            state: self.state,
            protocol_version: self.protocol_version,
            delegate_version: self.delegate_version,
        }
    }
}

/// One framed protocol message.
#[derive(Debug, Clone, PartialEq, Eq)]
pub enum Message {
    /// A direct liveness probe.
    Ping(Ping),
    /// A positive probe answer.
    Ack(Ack),
    /// A negative probe answer.
    Nack(Nack),
    /// A full-state anti-entropy exchange.
    PushPull(PushPull),
    /// An opaque user datagram.
    UserData(Vec<u8>),
    /// The stream dispatcher's error answer.
    ErrorResponse(ErrorResponse),
    /// A single datagram carrying several independent sub-frames, each a
    /// whole framed message, dispatched one by one.
    Compound(Vec<Vec<u8>>),
}

/// The view of a `Message`.
pub ghost enum MessageV {
    /// A direct liveness probe.
    Ping(PingV),
    /// A positive probe answer.
    Ack(AckV),
    /// A negative probe answer.
    Nack(Nack),
    /// A full-state anti-entropy exchange.
    PushPull(PushPullV),
    /// An opaque user datagram.
    UserData(Seq<u8>),
    /// The stream dispatcher's error answer, as its message characters.
    ErrorResponse(Seq<char>),
    /// A single datagram carrying several independent sub-frames.
    Compound(Seq<Seq<u8>>),
}

impl View for Message {
    type V = MessageV;

    open spec fn view(&self) -> MessageV {
        match *self {
            Message::Ping(p) => MessageV::Ping(p@),
            Message::Ack(a) => MessageV::Ack(a@),
            Message::Nack(n) => MessageV::Nack(n),
            Message::PushPull(pp) => MessageV::PushPull(pp@),
            Message::UserData(d) => MessageV::UserData(d@),
            Message::ErrorResponse(e) => MessageV::ErrorResponse(e@),
            Message::Compound(subs) => MessageV::Compound(
                subs@.map_values(|c: Vec<u8>| c@),
            ),
        }
    }
}

impl Message {
    /// The single-byte kind tag put on the wire in front of the frame.
    pub fn kind_tag(&self) -> (r: u8)
        ensures
            r == spec_kind_tag(self@),
    {
        match self {
            Message::Ping(_) => 0,
            Message::Ack(_) => 1,
            Message::Nack(_) => 2,
            Message::PushPull(_) => 3,
            Message::UserData(_) => 4,
            Message::ErrorResponse(_) => 5,
            Message::Compound(_) => 6,
        }
    }
}

/// The single-byte kind tag of a message.
pub open spec fn spec_kind_tag(m: MessageV) -> u8 {
    match m {
        MessageV::Ping(_) => 0,
        MessageV::Ack(_) => 1,
        MessageV::Nack(_) => 2,
        MessageV::PushPull(_) => 3,
        MessageV::UserData(_) => 4,
        MessageV::ErrorResponse(_) => 5,
        MessageV::Compound(_) => 6,
    }
}

/// The single-byte tag of a liveness state.
pub open spec fn spec_state_tag(s: NodeStateKind) -> u8 {
    match s {
        NodeStateKind::Alive => 0,
        NodeStateKind::Suspect => 1,
        NodeStateKind::Dead => 2,
        NodeStateKind::Left => 3,
    }
}

/// The liveness state a tag byte names, if any.
pub open spec fn spec_state_of_tag(t: u8) -> Option<NodeStateKind> {
    if t == 0 {
        Some(NodeStateKind::Alive)
    } else if t == 1 {
        Some(NodeStateKind::Suspect)
    } else if t == 2 {
        Some(NodeStateKind::Dead)
    } else if t == 3 {
        Some(NodeStateKind::Left)
    } else {
        None
    }
}

/// The tag of a state names that state.
pub proof fn lemma_state_tag_round_trip(s: NodeStateKind)
    ensures
        spec_state_of_tag(spec_state_tag(s)) == Some(s),
{
}

/// The single-byte tag of a liveness state, on the wire in each push/pull
/// record.
pub fn state_tag(s: NodeStateKind) -> (r: u8)
    ensures
        r == spec_state_tag(s),
{
    match s {
        NodeStateKind::Alive => 0,
        NodeStateKind::Suspect => 1,
        NodeStateKind::Dead => 2,
        NodeStateKind::Left => 3,
    }
}

/// The liveness state a tag byte names, if any.
pub fn state_of_tag(t: u8) -> (r: Option<NodeStateKind>)
    ensures
        r == spec_state_of_tag(t),
{
    if t == 0 {
        Some(NodeStateKind::Alive)
    } else if t == 1 {
        Some(NodeStateKind::Suspect)
    } else if t == 2 {
        Some(NodeStateKind::Dead)
    } else if t == 3 {
        Some(NodeStateKind::Left)
    } else {
        None
    }
}

} // verus!
