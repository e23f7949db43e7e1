//! The message codec: framing of protocol messages on the wire.
//!
//! A frame is a single-byte kind tag, a four-byte big-endian payload length,
//! and the payload. Identifiers and metadata ride behind two-byte lengths;
//! all integers are big-endian. Decoding mirrors encoding exactly and
//! rejects anything else.

use vstd::prelude::*;

use crate::error_response::ErrorResponse;
use crate::types::{
    Ack, AckV, Message, MessageV, Nack, NodeAddress, Ping, PingV, PushNodeState, PushNodeStateV,
    PushPull, PushPullV, spec_kind_tag, spec_state_of_tag, spec_state_tag, state_of_tag, state_tag,
};
use crate::wire::{
    put_bytes, put_u16_be, put_u32_be, read_bytes, read_u16_be, read_u32_be, spec_be16, spec_be32,
    spec_from_be16, spec_from_be32, vec_extend,
};
use vstd::string::StringSliceAdditionalSpecFns;
use vstd::utf8::encode_utf8;

verus! {

/// The error returned when a message cannot be put on the wire.
#[derive(Clone, Copy, Debug, PartialEq, Eq, Structural)]
pub enum EncodeError {
    /// An identifier, metadata, or the payload is longer than its length
    /// field can carry.
    PayloadTooLarge,
}

// ---------------------------------------------------------------- encoding

/// An identifier on the wire: two big-endian length bytes, then the bytes.
pub open spec fn spec_encode_id(id: Seq<u8>) -> Seq<u8> {
    spec_be16(id.len() as u16) + id
}

/// An address on the wire: four address bytes, then two port bytes.
pub open spec fn spec_encode_addr(a: NodeAddress) -> Seq<u8> {
    spec_be32(a.ip) + spec_be16(a.port)
}

/// A ping payload: sequence number, source identifier and address, target
/// identifier and address.
pub open spec fn spec_encode_ping(p: PingV) -> Seq<u8> {
    spec_be32(p.seq_no) + spec_encode_id(p.source_id) + spec_encode_addr(p.source_addr)
        + spec_encode_id(p.target_id) + spec_encode_addr(p.target_addr)
}

/// An ack payload: sequence number, then the piggybacked bytes to the end of
/// the frame.
pub open spec fn spec_encode_ack(a: AckV) -> Seq<u8> {
    spec_be32(a.seq_no) + a.payload
}

/// A nack payload: the sequence number alone.
pub open spec fn spec_encode_nack(n: Nack) -> Seq<u8> {
    spec_be32(n.seq_no)
}

/// One push/pull record: identifier, address, metadata behind a two-byte
/// length, incarnation, then the state, protocol and delegate bytes.
pub open spec fn spec_encode_state(s: PushNodeStateV) -> Seq<u8> {
    spec_encode_id(s.id) + spec_encode_addr(s.addr) + spec_be16(s.meta.len() as u16) + s.meta
        + spec_be32(s.incarnation)
        + seq![spec_state_tag(s.state), s.protocol_version, s.delegate_version]
}

/// The records of a push/pull, one after the other.
pub open spec fn spec_encode_states(ss: Seq<PushNodeStateV>) -> Seq<u8>
    decreases ss.len(),
{
    if ss.len() == 0 {
        Seq::empty()
    } else {
        spec_encode_state(ss[0]) + spec_encode_states(ss.drop_first())
    }
}

/// A push/pull payload: the join flag, the record count, the records, then
/// the user bytes behind a four-byte length.
pub open spec fn spec_encode_push_pull(pp: PushPullV) -> Seq<u8> {
    seq![(if pp.join { 1u8 } else { 0u8 })] + spec_be32(pp.states.len() as u32)
        + spec_encode_states(pp.states) + spec_be32(pp.user_data.len() as u32) + pp.user_data
}

/// The sub-frames of a compound datagram, each behind a two-byte length.
pub open spec fn spec_encode_chunks(cs: Seq<Seq<u8>>) -> Seq<u8>
    decreases cs.len(),
{
    if cs.len() == 0 {
        Seq::empty()
    } else {
        spec_be16(cs[0].len() as u16) + cs[0] + spec_encode_chunks(cs.drop_first())
    }
}

/// A compound payload: the sub-frame count, then each sub-frame behind a
/// two-byte length.
pub open spec fn spec_encode_compound(cs: Seq<Seq<u8>>) -> Seq<u8> {
    seq![cs.len() as u8] + spec_encode_chunks(cs)
}

/// An error-response payload: the message's UTF-8 bytes behind a four-byte
/// length.
pub open spec fn spec_encode_error(msg: Seq<char>) -> Seq<u8> {
    spec_be32(encode_utf8(msg).len() as u32) + encode_utf8(msg)
}

/// The payload of a message, by kind.
pub open spec fn spec_payload(m: MessageV) -> Seq<u8> {
    match m {
        MessageV::Ping(p) => spec_encode_ping(p),
        MessageV::Ack(a) => spec_encode_ack(a),
        MessageV::Nack(n) => spec_encode_nack(n),
        MessageV::PushPull(pp) => spec_encode_push_pull(pp),
        MessageV::UserData(d) => d,
        MessageV::ErrorResponse(msg) => spec_encode_error(msg),
        MessageV::Compound(cs) => spec_encode_compound(cs),
    }
}

/// A whole frame: the kind tag, the payload length, the payload.
pub open spec fn spec_encode_message(m: MessageV) -> Seq<u8> {
    seq![spec_kind_tag(m)] + spec_be32(spec_payload(m).len() as u32) + spec_payload(m)
}

/// Whether an identifier fits behind its two-byte length.
pub open spec fn spec_id_fits(id: Seq<u8>) -> bool {
    id.len() <= u16::MAX
}

/// Whether a push/pull record's identifier and metadata fit their length
/// fields.
pub open spec fn spec_state_fits(s: PushNodeStateV) -> bool {
    spec_id_fits(s.id) && s.meta.len() <= u16::MAX
}

/// Whether every length field of a message fits: its identifiers and
/// metadata behind their two-byte lengths, and the payload behind the
/// frame's four-byte length.
pub open spec fn spec_message_fits(m: MessageV) -> bool {
    (match m {
        MessageV::Ping(p) => spec_id_fits(p.source_id) && spec_id_fits(p.target_id),
        MessageV::Ack(_) => true,
        MessageV::Nack(_) => true,
        MessageV::PushPull(pp) => (forall|i: int|
            0 <= i < pp.states.len() ==> spec_state_fits(#[trigger] pp.states[i]))
            && pp.user_data.len() <= u32::MAX,
        MessageV::UserData(_) => true,
        MessageV::ErrorResponse(_) => true,
        MessageV::Compound(cs) => cs.len() <= u8::MAX && (forall|i: int|
            0 <= i < cs.len() ==> (#[trigger] cs[i]).len() <= u16::MAX),
    }) && spec_payload(m).len() <= u32::MAX
}

/// Appending a record extends the encoding of a record list at its end.
pub proof fn lemma_encode_states_push(ss: Seq<PushNodeStateV>, x: PushNodeStateV)
    ensures
        spec_encode_states(ss.push(x)) == spec_encode_states(ss) + spec_encode_state(x),
    decreases ss.len(),
{
    if ss.len() == 0 {
        assert(ss.push(x)[0] == x);
        assert(ss.push(x).drop_first() =~= Seq::<PushNodeStateV>::empty());
        assert(spec_encode_states(Seq::<PushNodeStateV>::empty()) == Seq::<u8>::empty());
        assert(spec_encode_states(ss.push(x)) =~= spec_encode_state(x));
        assert(spec_encode_states(ss) + spec_encode_state(x) =~= spec_encode_state(x));
    } else {
        assert(ss.push(x).drop_first() =~= ss.drop_first().push(x));
        lemma_encode_states_push(ss.drop_first(), x);
        assert(ss.push(x)[0] == ss[0]);
        assert(spec_encode_states(ss.push(x)) == spec_encode_state(ss[0]) + (spec_encode_states(
            ss.drop_first(),
        ) + spec_encode_state(x)));
        assert(spec_encode_state(ss[0]) + (spec_encode_states(ss.drop_first()) + spec_encode_state(
            x,
        )) =~= (spec_encode_state(ss[0]) + spec_encode_states(ss.drop_first()))
            + spec_encode_state(x));
    }
}

/// Appending a sub-frame extends the encoding of a sub-frame list at its
/// end.
pub proof fn lemma_encode_chunks_push(cs: Seq<Seq<u8>>, x: Seq<u8>)
    ensures
        spec_encode_chunks(cs.push(x)) == spec_encode_chunks(cs) + (spec_be16(x.len() as u16) + x),
    decreases cs.len(),
{
    if cs.len() == 0 {
        assert(cs.push(x)[0] == x);
        assert(cs.push(x).drop_first() =~= Seq::<Seq<u8>>::empty());
        assert(spec_encode_chunks(Seq::<Seq<u8>>::empty()) == Seq::<u8>::empty());
        assert(spec_encode_chunks(cs.push(x)) =~= spec_be16(x.len() as u16) + x);
        assert(spec_encode_chunks(cs) + (spec_be16(x.len() as u16) + x) =~= spec_be16(
            x.len() as u16,
        ) + x);
    } else {
        assert(cs.push(x).drop_first() =~= cs.drop_first().push(x));
        lemma_encode_chunks_push(cs.drop_first(), x);
        assert(cs.push(x)[0] == cs[0]);
        let head = spec_be16(cs[0].len() as u16) + cs[0];
        let tailx = spec_be16(x.len() as u16) + x;
        assert(spec_encode_chunks(cs.push(x)) == head + (spec_encode_chunks(cs.drop_first())
            + tailx));
        assert(head + (spec_encode_chunks(cs.drop_first()) + tailx) =~= (head + spec_encode_chunks(
            cs.drop_first(),
        )) + tailx);
    }
}

/// Appends an identifier with its two-byte length; fails when it is too
/// long.
fn put_id(out: &mut Vec<u8>, id: &Vec<u8>) -> (r: Result<(), EncodeError>)
    ensures
        r is Ok <==> spec_id_fits(id@),
        r is Ok ==> final(out)@ == old(out)@ + spec_encode_id(id@),
        r is Err ==> final(out)@ == old(out)@ && r == Err::<(), EncodeError>(
            EncodeError::PayloadTooLarge,
        ),
{
    if id.len() > 0xffff {
        return Err(EncodeError::PayloadTooLarge);
    }
    put_u16_be(out, id.len() as u16);
    put_bytes(out, id.as_slice());
    assert(out@ =~= old(out)@ + spec_encode_id(id@));
    Ok(())
}

/// Appends an address: four address bytes, two port bytes.
fn put_addr(out: &mut Vec<u8>, a: &NodeAddress)
    ensures
        final(out)@ == old(out)@ + spec_encode_addr(*a),
{
    put_u32_be(out, a.ip);
    put_u16_be(out, a.port);
    assert(out@ =~= old(out)@ + spec_encode_addr(*a));
}

/// Builds the payload of a ping.
fn encode_ping_payload(p: &Ping) -> (r: Result<Vec<u8>, EncodeError>)
    ensures
        r is Ok <==> spec_id_fits(p@.source_id) && spec_id_fits(p@.target_id),
        r matches Ok(v) ==> v@ == spec_encode_ping(p@),
        r is Err ==> r == Err::<Vec<u8>, EncodeError>(EncodeError::PayloadTooLarge),
{
    let mut out: Vec<u8> = Vec::new();
    put_u32_be(&mut out, p.seq_no);
    if put_id(&mut out, &p.source_id).is_err() {
        return Err(EncodeError::PayloadTooLarge);
    }
    put_addr(&mut out, &p.source_addr);
    if put_id(&mut out, &p.target_id).is_err() {
        return Err(EncodeError::PayloadTooLarge);
    }
    put_addr(&mut out, &p.target_addr);
    assert(out@ =~= spec_encode_ping(p@));
    Ok(out)
}

/// Builds the payload of one push/pull record.
fn encode_state_payload(s: &PushNodeState) -> (r: Result<Vec<u8>, EncodeError>)
    ensures
        r is Ok <==> spec_state_fits(s@),
        r matches Ok(v) ==> v@ == spec_encode_state(s@),
        r is Err ==> r == Err::<Vec<u8>, EncodeError>(EncodeError::PayloadTooLarge),
{
    let mut out: Vec<u8> = Vec::new();
    if put_id(&mut out, &s.id).is_err() {
        return Err(EncodeError::PayloadTooLarge);
    }
    put_addr(&mut out, &s.addr);
    if s.meta.len() > 0xffff {
        return Err(EncodeError::PayloadTooLarge);
    }
    put_u16_be(&mut out, s.meta.len() as u16);
    put_bytes(&mut out, s.meta.as_slice());
    put_u32_be(&mut out, s.incarnation);
    out.push(state_tag(s.state));
    out.push(s.protocol_version);
    out.push(s.delegate_version);
    assert(out@ =~= spec_encode_state(s@));
    Ok(out)
}

/// Builds the payload of a push/pull.
fn encode_push_pull_payload(pp: &PushPull) -> (r: Result<Vec<u8>, EncodeError>)
    ensures
        r is Ok <==> (forall|i: int|
            0 <= i < pp@.states.len() ==> spec_state_fits(#[trigger] pp@.states[i]))
            && pp@.user_data.len() <= u32::MAX,
        r matches Ok(v) ==> v@ == spec_encode_push_pull(pp@),
        r is Err ==> r == Err::<Vec<u8>, EncodeError>(EncodeError::PayloadTooLarge),
{
    let mut out: Vec<u8> = Vec::new();
    out.push(if pp.join {
        1
    } else {
        0
    });
    put_u32_be(&mut out, #[verifier::truncate] (pp.states.len() as u32));
    let ghost prefix = out@;
    let mut i: usize = 0;
    while i < pp.states.len()
        invariant
            i <= pp.states@.len(),
            out@ == prefix + spec_encode_states(pp@.states.subrange(0, i as int)),
            forall|j: int| 0 <= j < i ==> spec_state_fits(#[trigger] pp@.states[j]),
        decreases pp.states@.len() - i,
    {
        let piece = match encode_state_payload(&pp.states[i]) {
            Ok(v) => v,
            Err(_) => {
                return Err(EncodeError::PayloadTooLarge);
            },
        };
        vec_extend(&mut out, &piece);
        proof {
            assert(pp@.states.subrange(0, i + 1).drop_last() =~= pp@.states.subrange(0, i as int));
            assert(pp@.states.subrange(0, i as int).push(pp@.states[i as int]) =~= pp@
                .states.subrange(0, i + 1));
            lemma_encode_states_push(pp@.states.subrange(0, i as int), pp@.states[i as int]);
            assert(out@ =~= prefix + spec_encode_states(pp@.states.subrange(0, i + 1)));
        }
        i = i + 1;
    }
    proof {
        assert(pp@.states.subrange(0, pp@.states.len() as int) =~= pp@.states);
    }
    if pp.user_data.len() > 0xffff_ffffusize {
        return Err(EncodeError::PayloadTooLarge);
    }
    put_u32_be(&mut out, pp.user_data.len() as u32);
    put_bytes(&mut out, pp.user_data.as_slice());
    assert(out@ =~= spec_encode_push_pull(pp@));
    Ok(out)
}

/// Builds the payload of a compound datagram.
fn encode_compound_payload(subs: &Vec<Vec<u8>>) -> (r: Result<Vec<u8>, EncodeError>)
    ensures
        r is Ok <==> subs@.len() <= u8::MAX && (forall|i: int|
            0 <= i < subs@.len() ==> (#[trigger] subs@[i])@.len() <= u16::MAX),
        r matches Ok(v) ==> v@ == spec_encode_compound(subs@.map_values(|c: Vec<u8>| c@)),
        r is Err ==> r == Err::<Vec<u8>, EncodeError>(EncodeError::PayloadTooLarge),
{
    let ghost cs = subs@.map_values(|c: Vec<u8>| c@);
    if subs.len() > 0xff {
        return Err(EncodeError::PayloadTooLarge);
    }
    let mut out: Vec<u8> = Vec::new();
    out.push(subs.len() as u8);
    let ghost prefix = out@;
    let mut i: usize = 0;
    proof {
        assert(cs.subrange(0, 0) =~= Seq::<Seq<u8>>::empty());
        assert(out@ =~= prefix + spec_encode_chunks(cs.subrange(0, 0)));
    }
    while i < subs.len()
        invariant
            i <= subs@.len(),
            cs == subs@.map_values(|c: Vec<u8>| c@),
            out@ == prefix + spec_encode_chunks(cs.subrange(0, i as int)),
            forall|j: int| 0 <= j < i ==> (#[trigger] cs[j]).len() <= u16::MAX,
        decreases subs@.len() - i,
    {
        let chunk = &subs[i];
        if chunk.len() > 0xffff {
            proof {
                assert(cs[i as int] == subs@[i as int]@);
            }
            return Err(EncodeError::PayloadTooLarge);
        }
        put_u16_be(&mut out, chunk.len() as u16);
        put_bytes(&mut out, chunk.as_slice());
        proof {
            assert(cs.subrange(0, i + 1).drop_last() =~= cs.subrange(0, i as int));
            assert(cs.subrange(0, i as int).push(cs[i as int]) =~= cs.subrange(0, i + 1));
            lemma_encode_chunks_push(cs.subrange(0, i as int), cs[i as int]);
            assert(out@ =~= prefix + spec_encode_chunks(cs.subrange(0, i + 1)));
        }
        i = i + 1;
    }
    proof {
        assert(cs.subrange(0, cs.len() as int) =~= cs);
        assert(out@ =~= spec_encode_compound(cs));
        assert forall|j: int| 0 <= j < subs@.len() implies (#[trigger] subs@[j])@.len()
            <= u16::MAX by {
            assert(cs[j] == subs@[j]@);
        }
    }
    Ok(out)
}

/// The view of a compound message holds the views of its sub-frames.
proof fn lemma_compound_view_bridge(m: &Message, subs: &Vec<Vec<u8>>)
    requires
        m@ matches MessageV::Compound(cs) && cs == subs@.map_values(|c: Vec<u8>| c@),
    ensures
        m@->Compound_0 == subs@.map_values(|c: Vec<u8>| c@),
{
}

/// Puts a message on the wire: the kind tag, the payload length, the
/// payload. Fails with `PayloadTooLarge` exactly when an identifier, a
/// metadata field or the payload exceeds its length field.
pub fn encode_message(m: &Message) -> (r: Result<Vec<u8>, EncodeError>)
    ensures
        r is Ok <==> spec_message_fits(m@),
        r matches Ok(v) ==> v@ == spec_encode_message(m@),
        r is Err ==> r == Err::<Vec<u8>, EncodeError>(EncodeError::PayloadTooLarge),
{
    let payload: Vec<u8> = match m {
        Message::Ping(p) => {
            match encode_ping_payload(p) {
                Ok(v) => v,
                Err(_) => {
                    return Err(EncodeError::PayloadTooLarge);
                },
            }
        },
        Message::Ack(a) => {
            let mut out: Vec<u8> = Vec::new();
            put_u32_be(&mut out, a.seq_no);
            put_bytes(&mut out, a.payload.as_slice());
            assert(out@ =~= spec_encode_ack(a@));
            out
        },
        Message::Nack(n) => {
            let mut out: Vec<u8> = Vec::new();
            put_u32_be(&mut out, n.seq_no);
            assert(out@ =~= spec_encode_nack(*n));
            out
        },
        Message::PushPull(pp) => {
            match encode_push_pull_payload(pp) {
                Ok(v) => v,
                Err(_) => {
                    return Err(EncodeError::PayloadTooLarge);
                },
            }
        },
        Message::UserData(d) => {
            let mut out: Vec<u8> = Vec::new();
            put_bytes(&mut out, d.as_slice());
            assert(out@ =~= d@);
            out
        },
        Message::ErrorResponse(e) => {
            let bytes = e.message().as_bytes();
            let mut out: Vec<u8> = Vec::new();
            if bytes.len() > 0xffff_ffffusize - 4 {
                return Err(EncodeError::PayloadTooLarge);
            }
            put_u32_be(&mut out, bytes.len() as u32);
            put_bytes(&mut out, bytes);
            assert(out@ =~= spec_encode_error(e@));
            out
        },
        Message::Compound(subs) => {
            let v = match encode_compound_payload(subs) {
                Ok(v) => v,
                Err(_) => {
                    proof {
                        lemma_compound_view_bridge(m, subs);
                        let cs = subs@.map_values(|c: Vec<u8>| c@);
                        if spec_message_fits(m@) {
                            let csv = m@->Compound_0;
                            assert(csv == cs);
                            assert forall|j: int|
                                0 <= j < subs@.len() implies (#[trigger] subs@[j])@.len()
                                <= u16::MAX by {
                                assert(csv[j] == cs[j]);
                                assert(cs[j] == subs@[j]@);
                            }
                        }
                    }
                    return Err(EncodeError::PayloadTooLarge);
                },
            };
            proof {
                lemma_compound_view_bridge(m, subs);
                let cs = subs@.map_values(|c: Vec<u8>| c@);
                assert(cs.len() == subs@.len());
                assert forall|j: int| 0 <= j < cs.len() implies #[trigger] cs[j] == subs@[j]@ by {}
            }
            v
        },
    };
    if payload.len() > 0xffff_ffffusize {
        return Err(EncodeError::PayloadTooLarge);
    }
    let mut frame: Vec<u8> = Vec::new();
    frame.push(m.kind_tag());
    put_u32_be(&mut frame, payload.len() as u32);
    vec_extend(&mut frame, &payload);
    assert(frame@ =~= spec_encode_message(m@));
    Ok(frame)
}


// ---------------------------------------------------------------- decoding

/// The error returned when bytes do not hold a well-formed frame.
#[derive(Clone, Copy, Debug, PartialEq, Eq, Structural)]
pub enum DecodeError {
    /// The bytes end before the structure they promise.
    Truncated,
    /// The kind tag names no message kind.
    BadKind(u8),
    /// A record's state tag names no liveness state.
    BadStateTag(u8),
    /// The join flag is neither zero nor one.
    BadJoinFlag(u8),
    /// An error response's message bytes are not valid UTF-8.
    Utf8Error,
    /// Bytes are left over after the structure the payload promises.
    Trailing,
    /// The frame carries another cluster's label.
    BadLabel,
}

/// Parses an identifier at the front of `b`: the consumed length and the
/// identifier bytes.
pub open spec fn spec_parse_id(b: Seq<u8>) -> Result<(int, Seq<u8>), DecodeError> {
    if b.len() < 2 {
        Err(DecodeError::Truncated)
    } else {
        let n = spec_from_be16(b.subrange(0, 2)) as int;
        if b.len() < 2 + n {
            Err(DecodeError::Truncated)
        } else {
            Ok((2 + n, b.subrange(2, 2 + n)))
        }
    }
}

/// Parses an address at the front of `b`.
pub open spec fn spec_parse_addr(b: Seq<u8>) -> Result<(int, NodeAddress), DecodeError> {
    if b.len() < 6 {
        Err(DecodeError::Truncated)
    } else {
        Ok(
            (
                6,
                NodeAddress {
                    ip: spec_from_be32(b.subrange(0, 4)),
                    port: spec_from_be16(b.subrange(4, 6)),
                },
            ),
        )
    }
}

/// Parses a whole ping payload; every byte must belong to it.
#[verifier::opaque]
pub open spec fn spec_parse_ping_payload(p: Seq<u8>) -> Result<PingV, DecodeError> {
    if p.len() < 4 {
        Err(DecodeError::Truncated)
    } else {
        let seq_no = spec_from_be32(p.subrange(0, 4));
        match spec_parse_id(p.skip(4)) {
            Err(e) => Err(e),
            Ok((c1, source_id)) => match spec_parse_addr(p.skip(4 + c1)) {
                Err(e) => Err(e),
                Ok((c2, source_addr)) => match spec_parse_id(p.skip(4 + c1 + c2)) {
                    Err(e) => Err(e),
                    Ok((c3, target_id)) => match spec_parse_addr(p.skip(4 + c1 + c2 + c3)) {
                        Err(e) => Err(e),
                        Ok((c4, target_addr)) => if 4 + c1 + c2 + c3 + c4 == p.len() {
                            Ok(PingV { seq_no, source_id, source_addr, target_id, target_addr })
                        } else {
                            Err(DecodeError::Trailing)
                        },
                    },
                },
            },
        }
    }
}

/// Parses an ack payload: the sequence number, then the piggybacked bytes to
/// the end.
pub open spec fn spec_parse_ack_payload(p: Seq<u8>) -> Result<AckV, DecodeError> {
    if p.len() < 4 {
        Err(DecodeError::Truncated)
    } else {
        Ok(AckV { seq_no: spec_from_be32(p.subrange(0, 4)), payload: p.skip(4) })
    }
}

/// Parses a nack payload: exactly the sequence number.
pub open spec fn spec_parse_nack_payload(p: Seq<u8>) -> Result<Nack, DecodeError> {
    if p.len() < 4 {
        Err(DecodeError::Truncated)
    } else if p.len() > 4 {
        Err(DecodeError::Trailing)
    } else {
        Ok(Nack { seq_no: spec_from_be32(p.subrange(0, 4)) })
    }
}

/// Parses one push/pull record at the front of `b`.
#[verifier::opaque]
pub open spec fn spec_parse_state(b: Seq<u8>) -> Result<(int, PushNodeStateV), DecodeError> {
    match spec_parse_id(b) {
        Err(e) => Err(e),
        Ok((c1, id)) => match spec_parse_addr(b.skip(c1)) {
            Err(e) => Err(e),
            Ok((c2, addr)) => {
                let rest = b.skip(c1 + c2);
                if rest.len() < 2 {
                    Err(DecodeError::Truncated)
                } else {
                    let mlen = spec_from_be16(rest.subrange(0, 2)) as int;
                    if rest.len() < 2 + mlen + 7 {
                        Err(DecodeError::Truncated)
                    } else {
                        let tag = rest[2 + mlen + 4];
                        match spec_state_of_tag(tag) {
                            None => Err(DecodeError::BadStateTag(tag)),
                            Some(state) => Ok(
                                (
                                    c1 + c2 + 2 + mlen + 7,
                                    PushNodeStateV {
                                        id,
                                        addr,
                                        meta: rest.subrange(2, 2 + mlen),
                                        incarnation: spec_from_be32(
                                            rest.subrange(2 + mlen, 2 + mlen + 4),
                                        ),
                                        state,
                                        protocol_version: rest[2 + mlen + 5],
                                        delegate_version: rest[2 + mlen + 6],
                                    },
                                ),
                            ),
                        }
                    }
                }
            },
        },
    }
}

/// Parses `n` push/pull records at the front of `b`.
pub open spec fn spec_parse_states(b: Seq<u8>, n: int) -> Result<
    (int, Seq<PushNodeStateV>),
    DecodeError,
>
    decreases n,
{
    if n <= 0 {
        Ok((0, Seq::empty()))
    } else {
        match spec_parse_state(b) {
            Err(e) => Err(e),
            Ok((c, s)) => match spec_parse_states(b.skip(c), n - 1) {
                Err(e) => Err(e),
                Ok((c2, ss)) => Ok((c + c2, seq![s] + ss)),
            },
        }
    }
}

/// Parses a whole push/pull payload; every byte must belong to it.
#[verifier::opaque]
pub open spec fn spec_parse_push_pull_payload(p: Seq<u8>) -> Result<PushPullV, DecodeError> {
    if p.len() < 5 {
        Err(DecodeError::Truncated)
    } else {
        let jb = p[0];
        if jb != 0 && jb != 1 {
            Err(DecodeError::BadJoinFlag(jb))
        } else {
            let n = spec_from_be32(p.subrange(1, 5)) as int;
            match spec_parse_states(p.skip(5), n) {
                Err(e) => Err(e),
                Ok((c, states)) => {
                    let rest = p.skip(5 + c);
                    if rest.len() < 4 {
                        Err(DecodeError::Truncated)
                    } else {
                        let ulen = spec_from_be32(rest.subrange(0, 4)) as int;
                        if rest.len() - 4 < ulen {
                            Err(DecodeError::Truncated)
                        } else if rest.len() - 4 > ulen {
                            Err(DecodeError::Trailing)
                        } else {
                            Ok(PushPullV { join: jb == 1, states, user_data: rest.skip(4) })
                        }
                    }
                },
            }
        }
    }
}

/// Parses `n` sub-frames at the front of `b`, each behind a two-byte
/// length.
pub open spec fn spec_parse_chunks(b: Seq<u8>, n: int) -> Result<(int, Seq<Seq<u8>>), DecodeError>
    decreases n,
{
    if n <= 0 {
        Ok((0, Seq::empty()))
    } else if b.len() < 2 {
        Err(DecodeError::Truncated)
    } else {
        let clen = spec_from_be16(b.subrange(0, 2)) as int;
        if b.len() < 2 + clen {
            Err(DecodeError::Truncated)
        } else {
            let chunk = b.subrange(2, 2 + clen);
            match spec_parse_chunks(b.skip(2 + clen), n - 1) {
                Err(e) => Err(e),
                Ok((c2, cs)) => Ok((2 + clen + c2, seq![chunk] + cs)),
            }
        }
    }
}

/// Parses a whole compound payload; every byte must belong to it.
#[verifier::opaque]
pub open spec fn spec_parse_compound_payload(p: Seq<u8>) -> Result<Seq<Seq<u8>>, DecodeError> {
    if p.len() < 1 {
        Err(DecodeError::Truncated)
    } else {
        let n = p[0] as int;
        match spec_parse_chunks(p.skip(1), n) {
            Err(e) => Err(e),
            Ok((c, cs)) => if 1 + c == p.len() {
                Ok(cs)
            } else {
                Err(DecodeError::Trailing)
            },
        }
    }
}

/// Parses a whole error-response payload; every byte must belong to it.
#[verifier::opaque]
pub open spec fn spec_parse_error_payload(p: Seq<u8>) -> Result<Seq<char>, DecodeError> {
    if p.len() < 4 {
        Err(DecodeError::Truncated)
    } else {
        let n = spec_from_be32(p.subrange(0, 4)) as int;
        if p.len() - 4 < n {
            Err(DecodeError::Truncated)
        } else if p.len() - 4 > n {
            Err(DecodeError::Trailing)
        } else if vstd::utf8::valid_utf8(p.skip(4)) {
            Ok(vstd::utf8::decode_utf8(p.skip(4)))
        } else {
            Err(DecodeError::Utf8Error)
        }
    }
}

/// Parses one frame at the front of `b`: the consumed length and the
/// message.
#[verifier::opaque]
pub open spec fn spec_parse_message(b: Seq<u8>) -> Result<(int, MessageV), DecodeError> {
    if b.len() < 5 {
        Err(DecodeError::Truncated)
    } else {
        let tag = b[0];
        let plen = spec_from_be32(b.subrange(1, 5)) as int;
        if b.len() - 5 < plen {
            Err(DecodeError::Truncated)
        } else {
            let p = b.subrange(5, 5 + plen);
            let whole = 5 + plen;
            if tag == 0 {
                match spec_parse_ping_payload(p) {
                    Err(e) => Err(e),
                    Ok(v) => Ok((whole, MessageV::Ping(v))),
                }
            } else if tag == 1 {
                match spec_parse_ack_payload(p) {
                    Err(e) => Err(e),
                    Ok(v) => Ok((whole, MessageV::Ack(v))),
                }
            } else if tag == 2 {
                match spec_parse_nack_payload(p) {
                    Err(e) => Err(e),
                    Ok(v) => Ok((whole, MessageV::Nack(v))),
                }
            } else if tag == 3 {
                match spec_parse_push_pull_payload(p) {
                    Err(e) => Err(e),
                    Ok(v) => Ok((whole, MessageV::PushPull(v))),
                }
            } else if tag == 4 {
                Ok((whole, MessageV::UserData(p)))
            } else if tag == 5 {
                match spec_parse_error_payload(p) {
                    Err(e) => Err(e),
                    Ok(v) => Ok((whole, MessageV::ErrorResponse(v))),
                }
            } else if tag == 6 {
                match spec_parse_compound_payload(p) {
                    Err(e) => Err(e),
                    Ok(v) => Ok((whole, MessageV::Compound(v))),
                }
            } else {
                Err(DecodeError::BadKind(tag))
            }
        }
    }
}


/// A parsed record consumes at least its fixed fields and at most the whole
/// input.
proof fn lemma_parse_state_len(b: Seq<u8>)
    ensures
        spec_parse_state(b) matches Ok((c, _)) ==> 9 <= c <= b.len(),
{
    reveal(spec_parse_state);
    match spec_parse_id(b) {
        Err(_) => {},
        Ok((c1, _)) => {
            assert(2 <= c1 <= b.len());
            match spec_parse_addr(b.skip(c1)) {
                Err(_) => {},
                Ok((c2, _)) => {
                    assert(c2 == 6 && b.skip(c1).len() >= 6);
                    let rest = b.skip(c1 + c2);
                    assert(rest.len() == b.len() - c1 - c2);
                },
            }
        },
    }
}

/// Parsed records consume a nonnegative count of bytes, at most the whole
/// input, and yield one view per record.
proof fn lemma_parse_states_len(b: Seq<u8>, n: int)
    ensures
        spec_parse_states(b, n) matches Ok((c, ss)) ==> 0 <= c <= b.len() && ss.len() == (if n
            <= 0 {
            0
        } else {
            n
        }),
    decreases n,
{
    if n <= 0 {
    } else {
        match spec_parse_state(b) {
            Err(_) => {},
            Ok((c, s)) => {
                lemma_parse_state_len(b);
                lemma_parse_states_len(b.skip(c), n - 1);
            },
        }
    }
}

/// Parsing `i` records and then the rest is parsing `n` records: the
/// records concatenate and the consumed lengths add.
#[verifier::spinoff_prover]
#[verifier::rlimit(100)]
proof fn lemma_parse_states_split(b: Seq<u8>, i: int, n: int)
    requires
        0 <= i <= n,
        spec_parse_states(b, i) is Ok,
    ensures
        ({
            let (c, ss) = spec_parse_states(b, i)->Ok_0;
            spec_parse_states(b, n) == (match spec_parse_states(b.skip(c), n - i) {
                Err(e) => Err::<(int, Seq<PushNodeStateV>), DecodeError>(e),
                Ok((c2, ss2)) => Ok::<(int, Seq<PushNodeStateV>), DecodeError>((c + c2, ss + ss2)),
            })
        }),
    decreases i,
{
    let (c, ss) = spec_parse_states(b, i)->Ok_0;
    if i == 0 {
        assert(c == 0 && ss == Seq::<PushNodeStateV>::empty());
        assert(b.skip(0) =~= b);
        match spec_parse_states(b, n) {
            Err(_) => {
            },
            Ok((c2, ss2)) => {
                assert(ss + ss2 =~= ss2);
            },
        }
    } else {
        match spec_parse_state(b) {
            Err(_) => {
                assert(false);
            },
            Ok((c1, s1)) => {
                match spec_parse_states(b.skip(c1), i - 1) {
                    Err(_) => {
                        assert(false);
                    },
                    Ok((cr, ssr)) => {
                        assert(c == c1 + cr && ss == seq![s1] + ssr);
                        lemma_parse_state_len(b);
                        lemma_parse_states_len(b.skip(c1), i - 1);
                        lemma_parse_states_split(b.skip(c1), i - 1, n - 1);
                        assert(b.skip(c1).skip(cr) =~= b.skip(c1 + cr));
                        match spec_parse_states(b.skip(c), n - i) {
                            Err(_) => {
                            },
                            Ok((c2, ss2)) => {
                                assert((seq![s1] + ssr) + ss2 =~= seq![s1] + (ssr + ss2));
                            },
                        }
                    },
                }
            },
        }
    }
}

/// Reads an identifier at `off`: two length bytes, then the bytes.
fn parse_id(b: &[u8], off: usize) -> (r: Result<(usize, Vec<u8>), DecodeError>)
    requires
        off <= b@.len(),
    ensures
        r matches Ok((c, v)) ==> off + c <= b@.len() && spec_parse_id(b@.skip(off as int))
            == Ok::<(int, Seq<u8>), DecodeError>((c as int, v@)),
        r matches Err(e) ==> spec_parse_id(b@.skip(off as int)) == Err::<(int, Seq<u8>),
            DecodeError,
        >(e),
{
    if b.len() - off < 2 {
        return Err(DecodeError::Truncated);
    }
    let n = read_u16_be(b, off) as usize;
    proof {
        assert(b@.skip(off as int).subrange(0, 2) =~= b@.subrange(off as int, off + 2));
    }
    if b.len() - off - 2 < n {
        return Err(DecodeError::Truncated);
    }
    let v = read_bytes(b, off + 2, n);
    proof {
        assert(b@.skip(off as int).subrange(2, 2 + n as int) =~= b@.subrange(
            off + 2,
            off + 2 + n,
        ));
    }
    Ok((2 + n, v))
}

/// Reads an address at `off`: four address bytes, two port bytes.
fn parse_addr(b: &[u8], off: usize) -> (r: Result<(usize, NodeAddress), DecodeError>)
    requires
        off <= b@.len(),
    ensures
        r matches Ok((c, a)) ==> off + c <= b@.len() && spec_parse_addr(b@.skip(off as int))
            == Ok::<(int, NodeAddress), DecodeError>((c as int, a)),
        r matches Err(e) ==> spec_parse_addr(b@.skip(off as int)) == Err::<(int, NodeAddress),
            DecodeError,
        >(e),
{
    if b.len() - off < 6 {
        return Err(DecodeError::Truncated);
    }
    let ip = read_u32_be(b, off);
    let port = read_u16_be(b, off + 4);
    proof {
        assert(b@.skip(off as int).subrange(0, 4) =~= b@.subrange(off as int, off + 4));
        assert(b@.skip(off as int).subrange(4, 6) =~= b@.subrange(off + 4, off + 6));
    }
    Ok((6, NodeAddress { ip, port }))
}

/// Reads a whole ping payload.
fn decode_ping_payload(p: &[u8]) -> (r: Result<Ping, DecodeError>)
    ensures
        r matches Ok(v) ==> spec_parse_ping_payload(p@) == Ok::<PingV, DecodeError>(v@),
        r matches Err(e) ==> spec_parse_ping_payload(p@) == Err::<PingV, DecodeError>(e),
{
    proof {
        reveal(spec_parse_ping_payload);
    }
    if p.len() < 4 {
        return Err(DecodeError::Truncated);
    }
    let seq_no = read_u32_be(p, 0);
    let (c1, source_id) = match parse_id(p, 4) {
        Ok(x) => x,
        Err(e) => {
            return Err(e);
        },
    };
    let (c2, source_addr) = match parse_addr(p, 4 + c1) {
        Ok(x) => x,
        Err(e) => {
            return Err(e);
        },
    };
    let (c3, target_id) = match parse_id(p, 4 + c1 + c2) {
        Ok(x) => x,
        Err(e) => {
            return Err(e);
        },
    };
    let (c4, target_addr) = match parse_addr(p, 4 + c1 + c2 + c3) {
        Ok(x) => x,
        Err(e) => {
            return Err(e);
        },
    };
    if 4 + c1 + c2 + c3 + c4 != p.len() {
        return Err(DecodeError::Trailing);
    }
    Ok(Ping { seq_no, source_id, source_addr, target_id, target_addr })
}

/// Reads one push/pull record at `off`.
fn parse_state(b: &[u8], off: usize) -> (r: Result<(usize, PushNodeState), DecodeError>)
    requires
        off <= b@.len(),
    ensures
        r matches Ok((c, s)) ==> off + c <= b@.len() && spec_parse_state(b@.skip(off as int))
            == Ok::<(int, PushNodeStateV), DecodeError>((c as int, s@)),
        r matches Err(e) ==> spec_parse_state(b@.skip(off as int)) == Err::<(int, PushNodeStateV),
            DecodeError,
        >(e),
{
    proof {
        reveal(spec_parse_state);
    }
    let blen: usize = b.len();
    let (c1, id) = match parse_id(b, off) {
        Ok(x) => x,
        Err(e) => {
            return Err(e);
        },
    };
    proof {
        assert(b@.skip(off as int).skip(c1 as int) =~= b@.skip((off + c1) as int));
    }
    let (c2, addr) = match parse_addr(b, off + c1) {
        Ok(x) => x,
        Err(e) => {
            return Err(e);
        },
    };
    let roff = off + c1 + c2;
    let ghost rest = b@.skip(off as int).skip(c1 as int + c2 as int);
    proof {
        assert(rest =~= b@.skip(roff as int));
    }
    if b.len() - roff < 2 {
        return Err(DecodeError::Truncated);
    }
    let mlen = read_u16_be(b, roff) as usize;
    proof {
        assert(rest.subrange(0, 2) =~= b@.subrange(roff as int, roff + 2));
    }
    if b.len() - roff - 2 < mlen + 7 {
        return Err(DecodeError::Truncated);
    }
    let meta = read_bytes(b, roff + 2, mlen);
    let incarnation = read_u32_be(b, roff + 2 + mlen);
    let tag = b[roff + 2 + mlen + 4];
    proof {
        assert(rest.subrange(2, 2 + mlen as int) =~= b@.subrange(roff + 2, roff + 2 + mlen));
        assert(rest.subrange(2 + mlen as int, 2 + mlen as int + 4) =~= b@.subrange(
            roff + 2 + mlen,
            roff + 2 + mlen + 4,
        ));
        assert(rest[2 + mlen as int + 4] == b@[roff + 2 + mlen + 4]);
        assert(rest[2 + mlen as int + 5] == b@[roff + 2 + mlen + 5]);
        assert(rest[2 + mlen as int + 6] == b@[roff + 2 + mlen + 6]);
    }
    let state = match state_of_tag(tag) {
        Some(st) => st,
        None => {
            return Err(DecodeError::BadStateTag(tag));
        },
    };
    let protocol_version = b[roff + 2 + mlen + 5];
    let delegate_version = b[roff + 2 + mlen + 6];
    Ok(
        (
            c1 + c2 + 2 + mlen + 7,
            PushNodeState { id, addr, meta, incarnation, state, protocol_version, delegate_version },
        ),
    )
}

/// Reads `n` push/pull records at `off`.
fn parse_states(b: &[u8], off: usize, n: u32) -> (r: Result<
    (usize, Vec<PushNodeState>),
    DecodeError,
>)
    requires
        off <= b@.len(),
    ensures
        r matches Ok((c, v)) ==> off + c <= b@.len() && spec_parse_states(
            b@.skip(off as int),
            n as int,
        ) == Ok::<(int, Seq<PushNodeStateV>), DecodeError>(
            (c as int, v@.map_values(|s: PushNodeState| s@)),
        ),
        r matches Err(e) ==> spec_parse_states(b@.skip(off as int), n as int) == Err::<
            (int, Seq<PushNodeStateV>),
            DecodeError,
        >(e),
{
    let blen: usize = b.len();
    let mut out: Vec<PushNodeState> = Vec::new();
    let mut cur: usize = off;
    let mut i: u32 = 0;
    proof {
        assert(out@.map_values(|s: PushNodeState| s@) =~= Seq::<PushNodeStateV>::empty());
    }
    while i < n
        invariant
            off <= cur <= blen,
            blen == b@.len(),
            i <= n,
            spec_parse_states(b@.skip(off as int), i as int) == Ok::<
                (int, Seq<PushNodeStateV>),
                DecodeError,
            >(((cur - off) as int, out@.map_values(|s: PushNodeState| s@))),
        decreases n - i,
    {
        proof {
            lemma_parse_states_split(b@.skip(off as int), i as int, n as int);
            assert(b@.skip(off as int).skip((cur - off) as int) =~= b@.skip(cur as int));
        }
        let (c, s) = match parse_state(b, cur) {
            Ok(x) => x,
            Err(e) => {
                return Err(e);
            },
        };
        let ghost prev_seq = out@;
        out.push(s);
        proof {
            lemma_parse_states_split(b@.skip(off as int), i as int, i + 1);
            let tail = b@.skip(cur as int);
            assert(spec_parse_states(tail.skip(c as int), 0) == Ok::<
                (int, Seq<PushNodeStateV>),
                DecodeError,
            >((0int, Seq::<PushNodeStateV>::empty())));
            assert(seq![s@] + Seq::<PushNodeStateV>::empty() =~= seq![s@]);
            assert(spec_parse_states(tail, 1) == Ok::<(int, Seq<PushNodeStateV>), DecodeError>(
                (c as int, seq![s@]),
            ));
            let prev = prev_seq.map_values(|x: PushNodeState| x@);
            assert(out@ == prev_seq.push(s));
            assert(out@.map_values(|x: PushNodeState| x@) =~= prev.push(s@));
            assert(prev + seq![s@] =~= prev.push(s@));
            assert(spec_parse_states(b@.skip(off as int), i + 1) == Ok::<
                (int, Seq<PushNodeStateV>),
                DecodeError,
            >(((cur - off) + c, out@.map_values(|x: PushNodeState| x@))));
        }
        cur = cur + c;
        i = i + 1;
    }
    Ok((cur - off, out))
}

/// Reads a whole push/pull payload.
fn decode_push_pull_payload(p: &[u8]) -> (r: Result<PushPull, DecodeError>)
    ensures
        r matches Ok(v) ==> spec_parse_push_pull_payload(p@) == Ok::<PushPullV, DecodeError>(v@),
        r matches Err(e) ==> spec_parse_push_pull_payload(p@) == Err::<PushPullV, DecodeError>(e),
{
    proof {
        reveal(spec_parse_push_pull_payload);
    }
    if p.len() < 5 {
        return Err(DecodeError::Truncated);
    }
    let jb = p[0];
    if jb != 0 && jb != 1 {
        return Err(DecodeError::BadJoinFlag(jb));
    }
    let n = read_u32_be(p, 1);
    proof {
        assert(p@.subrange(1, 5) =~= p@.subrange(1, 5));
    }
    let (c, states) = match parse_states(p, 5, n) {
        Ok(x) => x,
        Err(e) => {
            return Err(e);
        },
    };
    let roff = 5 + c;
    let ghost rest = p@.skip(5 + c as int);
    proof {
        assert(rest =~= p@.skip(roff as int));
    }
    if p.len() - roff < 4 {
        return Err(DecodeError::Truncated);
    }
    let ulen = read_u32_be(p, roff) as usize;
    proof {
        assert(rest.subrange(0, 4) =~= p@.subrange(roff as int, roff + 4));
    }
    if p.len() - roff - 4 < ulen {
        return Err(DecodeError::Truncated);
    }
    if p.len() - roff - 4 > ulen {
        return Err(DecodeError::Trailing);
    }
    let user_data = read_bytes(p, roff + 4, ulen);
    proof {
        assert(rest.skip(4) =~= p@.subrange(roff + 4, roff + 4 + ulen as int));
    }
    Ok(PushPull { join: jb == 1, states, user_data })
}

/// Parsed sub-frames consume a nonnegative count of bytes, at most the
/// whole input.
proof fn lemma_parse_chunks_len(b: Seq<u8>, n: int)
    ensures
        spec_parse_chunks(b, n) matches Ok((c, cs)) ==> 0 <= c <= b.len(),
    decreases n,
{
    if n <= 0 {
    } else if b.len() >= 2 {
        let clen = spec_from_be16(b.subrange(0, 2)) as int;
        if b.len() >= 2 + clen {
            lemma_parse_chunks_len(b.skip(2 + clen), n - 1);
        }
    }
}

/// Parsing `i` sub-frames and then the rest is parsing `n` sub-frames.
#[verifier::spinoff_prover]
#[verifier::rlimit(100)]
proof fn lemma_parse_chunks_split(b: Seq<u8>, i: int, n: int)
    requires
        0 <= i <= n,
        spec_parse_chunks(b, i) is Ok,
    ensures
        ({
            let (c, cs) = spec_parse_chunks(b, i)->Ok_0;
            spec_parse_chunks(b, n) == (match spec_parse_chunks(b.skip(c), n - i) {
                Err(e) => Err::<(int, Seq<Seq<u8>>), DecodeError>(e),
                Ok((c2, cs2)) => Ok::<(int, Seq<Seq<u8>>), DecodeError>((c + c2, cs + cs2)),
            })
        }),
    decreases i,
{
    let (c, cs) = spec_parse_chunks(b, i)->Ok_0;
    if i == 0 {
        assert(c == 0 && cs == Seq::<Seq<u8>>::empty());
        assert(b.skip(0) =~= b);
        match spec_parse_chunks(b, n) {
            Err(_) => {
            },
            Ok((c2, cs2)) => {
                assert(cs + cs2 =~= cs2);
            },
        }
    } else {
        let clen = spec_from_be16(b.subrange(0, 2)) as int;
        let chunk = b.subrange(2, 2 + clen);
        match spec_parse_chunks(b.skip(2 + clen), i - 1) {
            Err(_) => {
                assert(false);
            },
            Ok((cr, csr)) => {
                assert(c == 2 + clen + cr && cs == seq![chunk] + csr);
                lemma_parse_chunks_len(b.skip(2 + clen), i - 1);
                lemma_parse_chunks_split(b.skip(2 + clen), i - 1, n - 1);
                assert(b.skip(2 + clen).skip(cr) =~= b.skip(2 + clen + cr));
                match spec_parse_chunks(b.skip(c), n - i) {
                    Err(_) => {
                    },
                    Ok((c2, cs2)) => {
                        assert((seq![chunk] + csr) + cs2 =~= seq![chunk] + (csr + cs2));
                    },
                }
            },
        }
    }
}

/// Reads `n` sub-frames at `off`.
fn parse_chunks(b: &[u8], off: usize, n: u8) -> (r: Result<(usize, Vec<Vec<u8>>), DecodeError>)
    requires
        off <= b@.len(),
    ensures
        r matches Ok((c, v)) ==> off + c <= b@.len() && spec_parse_chunks(
            b@.skip(off as int),
            n as int,
        ) == Ok::<(int, Seq<Seq<u8>>), DecodeError>(
            (c as int, v@.map_values(|x: Vec<u8>| x@)),
        ),
        r matches Err(e) ==> spec_parse_chunks(b@.skip(off as int), n as int) == Err::<
            (int, Seq<Seq<u8>>),
            DecodeError,
        >(e),
{
    let blen: usize = b.len();
    let mut out: Vec<Vec<u8>> = Vec::new();
    let mut cur: usize = off;
    let mut i: u8 = 0;
    proof {
        assert(out@.map_values(|x: Vec<u8>| x@) =~= Seq::<Seq<u8>>::empty());
    }
    while i < n
        invariant
            off <= cur <= blen,
            blen == b@.len(),
            i <= n,
            spec_parse_chunks(b@.skip(off as int), i as int) == Ok::<
                (int, Seq<Seq<u8>>),
                DecodeError,
            >(((cur - off) as int, out@.map_values(|x: Vec<u8>| x@))),
        decreases n - i,
    {
        proof {
            lemma_parse_chunks_split(b@.skip(off as int), i as int, n as int);
            assert(b@.skip(off as int).skip((cur - off) as int) =~= b@.skip(cur as int));
        }
        let ghost tail = b@.skip(cur as int);
        if blen - cur < 2 {
            return Err(DecodeError::Truncated);
        }
        let clen = read_u16_be(b, cur) as usize;
        proof {
            assert(tail.subrange(0, 2) =~= b@.subrange(cur as int, cur + 2));
        }
        if blen - cur - 2 < clen {
            return Err(DecodeError::Truncated);
        }
        let chunk = read_bytes(b, cur + 2, clen);
        proof {
            assert(tail.subrange(2, 2 + clen as int) =~= b@.subrange(cur + 2, cur + 2 + clen));
        }
        let ghost prev_seq = out@;
        out.push(chunk);
        proof {
            lemma_parse_chunks_split(b@.skip(off as int), i as int, i + 1);
            assert(spec_parse_chunks(tail.skip(2 + clen as int), 0) == Ok::<
                (int, Seq<Seq<u8>>),
                DecodeError,
            >((0int, Seq::<Seq<u8>>::empty())));
            let cval = tail.subrange(2, 2 + clen as int);
            assert(seq![cval] + Seq::<Seq<u8>>::empty() =~= seq![cval]);
            assert(spec_parse_chunks(tail, 1) == Ok::<(int, Seq<Seq<u8>>), DecodeError>(
                ((2 + clen) as int, seq![cval]),
            ));
            let prev = prev_seq.map_values(|x: Vec<u8>| x@);
            assert(out@ == prev_seq.push(chunk));
            assert(out@.map_values(|x: Vec<u8>| x@) =~= prev.push(cval));
            assert(prev + seq![cval] =~= prev.push(cval));
            assert(spec_parse_chunks(b@.skip(off as int), i + 1) == Ok::<
                (int, Seq<Seq<u8>>),
                DecodeError,
            >(((cur - off) + 2 + clen, out@.map_values(|x: Vec<u8>| x@))));
        }
        cur = cur + 2 + clen;
        i = i + 1;
    }
    Ok((cur - off, out))
}

/// Reads a whole compound payload.
fn decode_compound_payload(p: &[u8]) -> (r: Result<Vec<Vec<u8>>, DecodeError>)
    ensures
        r matches Ok(v) ==> spec_parse_compound_payload(p@) == Ok::<Seq<Seq<u8>>, DecodeError>(
            v@.map_values(|x: Vec<u8>| x@),
        ),
        r matches Err(e) ==> spec_parse_compound_payload(p@) == Err::<Seq<Seq<u8>>, DecodeError>(
            e,
        ),
{
    proof {
        reveal(spec_parse_compound_payload);
    }
    if p.len() < 1 {
        return Err(DecodeError::Truncated);
    }
    let n = p[0];
    let (c, subs) = match parse_chunks(p, 1, n) {
        Ok(x) => x,
        Err(e) => {
            return Err(e);
        },
    };
    if 1 + c != p.len() {
        return Err(DecodeError::Trailing);
    }
    Ok(subs)
}

/// Reads a whole error-response payload.
fn decode_error_payload(p: &[u8]) -> (r: Result<ErrorResponse, DecodeError>)
    ensures
        r matches Ok(v) ==> spec_parse_error_payload(p@) == Ok::<Seq<char>, DecodeError>(v@),
        r matches Err(e) ==> spec_parse_error_payload(p@) == Err::<Seq<char>, DecodeError>(e),
{
    proof {
        reveal(spec_parse_error_payload);
    }
    if p.len() < 4 {
        return Err(DecodeError::Truncated);
    }
    let n = read_u32_be(p, 0) as usize;
    proof {
        assert(p@.subrange(0, 4) =~= p@.subrange(0, 4));
    }
    if p.len() - 4 < n {
        return Err(DecodeError::Truncated);
    }
    if p.len() - 4 > n {
        return Err(DecodeError::Trailing);
    }
    let bytes = read_bytes(p, 4, n);
    proof {
        assert(bytes@ =~= p@.skip(4));
    }
    match crate::error_response::ErrorResponse::from_utf8_bytes(bytes) {
        Some(e) => {
            proof {
                vstd::utf8::encode_utf8_decode_utf8(e@);
                vstd::utf8::decode_utf8_encode_utf8(p@.skip(4));
            }
            Ok(e)
        },
        None => Err(DecodeError::Utf8Error),
    }
}

/// Reads one frame from the front of `b` and returns the message with the
/// number of bytes consumed. Succeeds exactly on the bytes `encode_message`
/// produces; the errors name what went wrong: `Truncated` when the bytes end
/// early, `BadKind`, `BadStateTag` and `BadJoinFlag` for bytes that name
/// nothing, `Utf8Error` for a malformed error message, and `Trailing` when a
/// payload holds bytes past its structure.
pub fn decode_message(b: &[u8]) -> (r: Result<(usize, Message), DecodeError>)
    ensures
        r matches Ok((n, m)) ==> n <= b@.len() && spec_parse_message(b@) == Ok::<
            (int, MessageV),
            DecodeError,
        >((n as int, m@)),
        r matches Err(e) ==> spec_parse_message(b@) == Err::<(int, MessageV), DecodeError>(e),
{
    proof {
        reveal(spec_parse_message);
    }
    if b.len() < 5 {
        return Err(DecodeError::Truncated);
    }
    let tag = b[0];
    let plen = read_u32_be(b, 1) as usize;
    proof {
        assert(b@.subrange(1, 5) =~= b@.subrange(1, 5));
    }
    if b.len() - 5 < plen {
        return Err(DecodeError::Truncated);
    }
    let payload = read_bytes(b, 5, plen);
    let whole = 5 + plen;
    if tag == 0 {
        match decode_ping_payload(payload.as_slice()) {
            Ok(v) => Ok((whole, Message::Ping(v))),
            Err(e) => Err(e),
        }
    } else if tag == 1 {
        if payload.len() < 4 {
            return Err(DecodeError::Truncated);
        }
        let seq_no = read_u32_be(payload.as_slice(), 0);
        let ack_payload = read_bytes(payload.as_slice(), 4, plen - 4);
        proof {
            assert(payload@.subrange(0, 4) =~= payload@.subrange(0, 4));
            assert(ack_payload@ =~= payload@.skip(4));
        }
        Ok((whole, Message::Ack(Ack { seq_no, payload: ack_payload })))
    } else if tag == 2 {
        if payload.len() < 4 {
            return Err(DecodeError::Truncated);
        }
        if payload.len() > 4 {
            return Err(DecodeError::Trailing);
        }
        let seq_no = read_u32_be(payload.as_slice(), 0);
        proof {
            assert(payload@.subrange(0, 4) =~= payload@.subrange(0, 4));
        }
        Ok((whole, Message::Nack(Nack { seq_no })))
    } else if tag == 3 {
        match decode_push_pull_payload(payload.as_slice()) {
            Ok(v) => Ok((whole, Message::PushPull(v))),
            Err(e) => Err(e),
        }
    } else if tag == 4 {
        Ok((whole, Message::UserData(payload)))
    } else if tag == 5 {
        match decode_error_payload(payload.as_slice()) {
            Ok(v) => Ok((whole, Message::ErrorResponse(v))),
            Err(e) => Err(e),
        }
    } else if tag == 6 {
        match decode_compound_payload(payload.as_slice()) {
            Ok(v) => Ok((whole, Message::Compound(v))),
            Err(e) => Err(e),
        }
    } else {
        Err(DecodeError::BadKind(tag))
    }
}


// ------------------------------------------------------------- round trips

/// An encoded identifier parses back to itself, whatever follows it.
proof fn lemma_parse_id_rt(id: Seq<u8>, rest: Seq<u8>)
    requires
        spec_id_fits(id),
    ensures
        spec_parse_id(spec_encode_id(id) + rest) == Ok::<(int, Seq<u8>), DecodeError>(
            (2 + id.len() as int, id),
        ),
{
    let b = spec_encode_id(id) + rest;
    assert(spec_be16(id.len() as u16).len() == 2);
    assert(b.subrange(0, 2) =~= spec_be16(id.len() as u16));
    crate::wire::lemma_be16_round_trip(id.len() as u16);
    assert(spec_from_be16(b.subrange(0, 2)) == id.len());
    assert(b.subrange(2, 2 + id.len() as int) =~= id);
}

/// An encoded address parses back to itself, whatever follows it.
proof fn lemma_parse_addr_rt(a: NodeAddress, rest: Seq<u8>)
    ensures
        spec_parse_addr(spec_encode_addr(a) + rest) == Ok::<(int, NodeAddress), DecodeError>(
            (6, a),
        ),
{
    let b = spec_encode_addr(a) + rest;
    assert(b.subrange(0, 4) =~= spec_be32(a.ip));
    assert(b.subrange(4, 6) =~= spec_be16(a.port));
    crate::wire::lemma_be32_round_trip(a.ip);
    crate::wire::lemma_be16_round_trip(a.port);
}

/// An encoded ping payload parses back to itself.
#[verifier::spinoff_prover]
#[verifier::rlimit(100)]
proof fn lemma_parse_ping_rt(p: PingV)
    requires
        spec_id_fits(p.source_id),
        spec_id_fits(p.target_id),
    ensures
        spec_parse_ping_payload(spec_encode_ping(p)) == Ok::<PingV, DecodeError>(p),
{
    reveal(spec_parse_ping_payload);
    let b = spec_encode_ping(p);
    let e1 = spec_encode_id(p.source_id);
    let a1 = spec_encode_addr(p.source_addr);
    let e2 = spec_encode_id(p.target_id);
    let a2 = spec_encode_addr(p.target_addr);
    assert(b.subrange(0, 4) =~= spec_be32(p.seq_no));
    crate::wire::lemma_be32_round_trip(p.seq_no);
    assert(b.skip(4) =~= e1 + (a1 + e2 + a2));
    lemma_parse_id_rt(p.source_id, a1 + e2 + a2);
    let c1 = 2 + p.source_id.len() as int;
    assert(b.skip(4 + c1) =~= a1 + (e2 + a2));
    lemma_parse_addr_rt(p.source_addr, e2 + a2);
    assert(b.skip(4 + c1 + 6) =~= e2 + a2);
    lemma_parse_id_rt(p.target_id, a2);
    let c3 = 2 + p.target_id.len() as int;
    assert(b.skip(4 + c1 + 6 + c3) =~= a2 + Seq::<u8>::empty());
    lemma_parse_addr_rt(p.target_addr, Seq::<u8>::empty());
    assert(4 + c1 + 6 + c3 + 6 == b.len());
}

/// An encoded record parses back to itself, whatever follows it.
#[verifier::spinoff_prover]
#[verifier::rlimit(100)]
proof fn lemma_parse_state_rt(s: PushNodeStateV, rest: Seq<u8>)
    requires
        spec_state_fits(s),
    ensures
        spec_parse_state(spec_encode_state(s) + rest) == Ok::<(int, PushNodeStateV), DecodeError>(
            (spec_encode_state(s).len() as int, s),
        ),
{
    reveal(spec_parse_state);
    let b = spec_encode_state(s) + rest;
    let e1 = spec_encode_id(s.id);
    let a1 = spec_encode_addr(s.addr);
    let mlen = s.meta.len() as int;
    let tailb = spec_be16(s.meta.len() as u16) + s.meta + spec_be32(s.incarnation) + seq![
        spec_state_tag(s.state),
        s.protocol_version,
        s.delegate_version,
    ];
    assert(b == e1 + (a1 + (tailb + rest))) by {
        assert(b =~= e1 + (a1 + (tailb + rest)));
    }
    lemma_parse_id_rt(s.id, a1 + (tailb + rest));
    let c1 = 2 + s.id.len() as int;
    assert(b.skip(c1) == a1 + (tailb + rest)) by {
        assert(b.skip(c1) =~= a1 + (tailb + rest));
    }
    lemma_parse_addr_rt(s.addr, tailb + rest);
    let restb = b.skip(c1 + 6);
    assert(restb == tailb + rest) by {
        assert(restb =~= tailb + rest);
    }
    assert(spec_from_be16(restb.subrange(0, 2)) == s.meta.len()) by {
        assert(restb.subrange(0, 2) =~= spec_be16(s.meta.len() as u16));
        crate::wire::lemma_be16_round_trip(s.meta.len() as u16);
    }
    assert(restb.len() >= 2 + mlen + 7);
    assert(restb.subrange(2, 2 + mlen) == s.meta) by {
        assert(restb.subrange(2, 2 + mlen) =~= s.meta);
    }
    assert(spec_from_be32(restb.subrange(2 + mlen, 2 + mlen + 4)) == s.incarnation) by {
        assert(restb.subrange(2 + mlen, 2 + mlen + 4) =~= spec_be32(s.incarnation));
        crate::wire::lemma_be32_round_trip(s.incarnation);
    }
    assert(restb[2 + mlen + 4] == spec_state_tag(s.state));
    assert(restb[2 + mlen + 5] == s.protocol_version);
    assert(restb[2 + mlen + 6] == s.delegate_version);
    crate::types::lemma_state_tag_round_trip(s.state);
    assert(c1 + 6 + 2 + mlen + 7 == spec_encode_state(s).len());
}

/// An encoded record list parses back to itself, whatever follows it.
#[verifier::spinoff_prover]
#[verifier::rlimit(100)]
proof fn lemma_parse_states_rt(ss: Seq<PushNodeStateV>, rest: Seq<u8>)
    requires
        forall|i: int| 0 <= i < ss.len() ==> spec_state_fits(#[trigger] ss[i]),
    ensures
        spec_parse_states(spec_encode_states(ss) + rest, ss.len() as int) == Ok::<
            (int, Seq<PushNodeStateV>),
            DecodeError,
        >((spec_encode_states(ss).len() as int, ss)),
    decreases ss.len(),
{
    if ss.len() == 0 {
        assert(spec_encode_states(ss) + rest =~= rest);
        assert(Seq::<PushNodeStateV>::empty() =~= ss);
    } else {
        let b = spec_encode_states(ss) + rest;
        let head = spec_encode_state(ss[0]);
        let tail = spec_encode_states(ss.drop_first());
        assert(b == head + (tail + rest)) by {
            assert(b =~= head + (tail + rest));
        }
        lemma_parse_state_rt(ss[0], tail + rest);
        assert(b.skip(head.len() as int) == tail + rest) by {
            assert(b.skip(head.len() as int) =~= tail + rest);
        }
        lemma_parse_states_rt(ss.drop_first(), rest);
        assert(seq![ss[0]] + ss.drop_first() == ss) by {
            assert(seq![ss[0]] + ss.drop_first() =~= ss);
        }
        assert(head.len() + tail.len() == spec_encode_states(ss).len());
    }
}

/// A record list's encoding is at least as long as the list.
proof fn lemma_encode_states_min(ss: Seq<PushNodeStateV>)
    ensures
        spec_encode_states(ss).len() >= ss.len(),
    decreases ss.len(),
{
    if ss.len() > 0 {
        lemma_encode_states_min(ss.drop_first());
        assert(spec_encode_state(ss[0]).len() >= 1);
    }
}

/// An encoded push/pull payload parses back to itself.
#[verifier::spinoff_prover]
#[verifier::rlimit(100)]
proof fn lemma_parse_push_pull_rt(pp: PushPullV)
    requires
        forall|i: int| 0 <= i < pp.states.len() ==> spec_state_fits(#[trigger] pp.states[i]),
        pp.states.len() <= u32::MAX,
        pp.user_data.len() <= u32::MAX,
    ensures
        spec_parse_push_pull_payload(spec_encode_push_pull(pp)) == Ok::<PushPullV, DecodeError>(
            pp,
        ),
{
    reveal(spec_parse_push_pull_payload);
    let b = spec_encode_push_pull(pp);
    let jb: u8 = if pp.join {
        1
    } else {
        0
    };
    let sts = spec_encode_states(pp.states);
    let tailb = spec_be32(pp.user_data.len() as u32) + pp.user_data;
    assert(b.len() >= 5 && b[0] == jb) by {
        assert(b =~= seq![jb] + (spec_be32(pp.states.len() as u32) + (sts + tailb)));
    }
    assert(spec_from_be32(b.subrange(1, 5)) == pp.states.len()) by {
        assert(b.subrange(1, 5) =~= spec_be32(pp.states.len() as u32));
        crate::wire::lemma_be32_round_trip(pp.states.len() as u32);
    }
    assert(b.skip(5) == sts + tailb) by {
        assert(b.skip(5) =~= sts + tailb);
    }
    lemma_parse_states_rt(pp.states, tailb);
    let c = sts.len() as int;
    let restb = b.skip(5 + c);
    assert(restb == tailb) by {
        assert(restb =~= tailb);
    }
    assert(spec_from_be32(restb.subrange(0, 4)) == pp.user_data.len()) by {
        assert(restb.subrange(0, 4) =~= spec_be32(pp.user_data.len() as u32));
        crate::wire::lemma_be32_round_trip(pp.user_data.len() as u32);
    }
    assert(restb.len() - 4 == pp.user_data.len());
    assert(restb.skip(4) == pp.user_data) by {
        assert(restb.skip(4) =~= pp.user_data);
    }
    assert((if jb == 1 {
        true
    } else {
        false
    }) == pp.join);
    assert(spec_parse_push_pull_payload(b) == Ok::<PushPullV, DecodeError>(
        PushPullV { join: pp.join, states: pp.states, user_data: pp.user_data },
    ));
    assert(PushPullV { join: pp.join, states: pp.states, user_data: pp.user_data } == pp);
}

/// An encoded sub-frame list parses back to itself, whatever follows it.
#[verifier::spinoff_prover]
#[verifier::rlimit(100)]
proof fn lemma_parse_chunks_rt(cs: Seq<Seq<u8>>, rest: Seq<u8>)
    requires
        forall|i: int| 0 <= i < cs.len() ==> (#[trigger] cs[i]).len() <= u16::MAX,
    ensures
        spec_parse_chunks(spec_encode_chunks(cs) + rest, cs.len() as int) == Ok::<
            (int, Seq<Seq<u8>>),
            DecodeError,
        >((spec_encode_chunks(cs).len() as int, cs)),
    decreases cs.len(),
{
    if cs.len() == 0 {
        assert(spec_encode_chunks(cs) + rest =~= rest);
        assert(Seq::<Seq<u8>>::empty() =~= cs);
    } else {
        let b = spec_encode_chunks(cs) + rest;
        let head = spec_be16(cs[0].len() as u16) + cs[0];
        let tail = spec_encode_chunks(cs.drop_first());
        assert(b == head + (tail + rest)) by {
            assert(b =~= head + (tail + rest));
        }
        assert(spec_from_be16(b.subrange(0, 2)) == cs[0].len()) by {
            assert(b.subrange(0, 2) =~= spec_be16(cs[0].len() as u16));
            crate::wire::lemma_be16_round_trip(cs[0].len() as u16);
        }
        let clen = cs[0].len() as int;
        assert(b.subrange(2, 2 + clen) == cs[0]) by {
            assert(b.subrange(2, 2 + clen) =~= cs[0]);
        }
        assert(b.skip(2 + clen) == tail + rest) by {
            assert(b.skip(2 + clen) =~= tail + rest);
        }
        lemma_parse_chunks_rt(cs.drop_first(), rest);
        assert(seq![cs[0]] + cs.drop_first() =~= cs);
        assert(head.len() + tail.len() == spec_encode_chunks(cs).len());
    }
}

/// An encoded compound payload parses back to its sub-frames.
proof fn lemma_parse_compound_rt(cs: Seq<Seq<u8>>)
    requires
        cs.len() <= u8::MAX,
        forall|i: int| 0 <= i < cs.len() ==> (#[trigger] cs[i]).len() <= u16::MAX,
    ensures
        spec_parse_compound_payload(spec_encode_compound(cs)) == Ok::<Seq<Seq<u8>>, DecodeError>(
            cs,
        ),
{
    reveal(spec_parse_compound_payload);
    let b = spec_encode_compound(cs);
    assert(b[0] == cs.len() as u8) by {
        assert(b =~= seq![cs.len() as u8] + spec_encode_chunks(cs));
    }
    assert(b.skip(1) == spec_encode_chunks(cs)) by {
        assert(b.skip(1) =~= spec_encode_chunks(cs) + Seq::<u8>::empty());
        assert(spec_encode_chunks(cs) + Seq::<u8>::empty() =~= spec_encode_chunks(cs));
    }
    lemma_parse_chunks_rt(cs, Seq::<u8>::empty());
    assert(spec_encode_chunks(cs) + Seq::<u8>::empty() =~= spec_encode_chunks(cs));
}

/// An encoded error-response payload parses back to its message.
proof fn lemma_parse_error_rt(msg: Seq<char>)
    requires
        encode_utf8(msg).len() <= u32::MAX,
    ensures
        spec_parse_error_payload(spec_encode_error(msg)) == Ok::<Seq<char>, DecodeError>(msg),
{
    reveal(spec_parse_error_payload);
    let b = spec_encode_error(msg);
    assert(b.subrange(0, 4) =~= spec_be32(encode_utf8(msg).len() as u32));
    crate::wire::lemma_be32_round_trip(encode_utf8(msg).len() as u32);
    assert(b.skip(4) =~= encode_utf8(msg));
    vstd::utf8::encode_utf8_valid_utf8(msg);
    vstd::utf8::encode_utf8_decode_utf8(msg);
}

/// The frame fields around a payload read back as written.
proof fn lemma_frame(tag: u8, payload: Seq<u8>, rest: Seq<u8>)
    requires
        payload.len() <= u32::MAX,
    ensures
        ({
            let b = (seq![tag] + spec_be32(payload.len() as u32) + payload) + rest;
            b.len() >= 5 && b[0] == tag && spec_from_be32(b.subrange(1, 5)) == payload.len()
                && b.len() - 5 >= payload.len() && b.subrange(
                5,
                5 + payload.len() as int,
            ) == payload
        }),
{
    let b = (seq![tag] + spec_be32(payload.len() as u32) + payload) + rest;
    assert(b.subrange(1, 5) =~= spec_be32(payload.len() as u32));
    crate::wire::lemma_be32_round_trip(payload.len() as u32);
    assert(b.subrange(5, 5 + payload.len() as int) =~= payload);
}

/// Decoding an encoding gives the message back: for every message whose
/// length fields fit, parsing its frame followed by anything yields the same
/// message and consumes exactly the frame.
#[verifier::spinoff_prover]
#[verifier::rlimit(100)]
pub proof fn lemma_message_round_trip(m: MessageV, rest: Seq<u8>)
    requires
        spec_message_fits(m),
    ensures
        spec_parse_message(spec_encode_message(m) + rest) == Ok::<(int, MessageV), DecodeError>(
            (spec_encode_message(m).len() as int, m),
        ),
{
    reveal(spec_parse_message);
    let payload = spec_payload(m);
    let plen = payload.len() as int;
    let tag = spec_kind_tag(m);
    lemma_frame(tag, payload, rest);
    let b = spec_encode_message(m) + rest;
    assert(b == (seq![tag] + spec_be32(payload.len() as u32) + payload) + rest) by {
        assert(b =~= (seq![tag] + spec_be32(payload.len() as u32) + payload) + rest);
    }
    assert(b.len() >= 5 && b[0] == tag && spec_from_be32(b.subrange(1, 5)) == plen && b.len() - 5
        >= plen && b.subrange(5, 5 + plen) == payload);
    match m {
        MessageV::Ping(p) => {
            lemma_parse_ping_rt(p);
        },
        MessageV::Ack(a) => {
            assert(spec_parse_ack_payload(payload) == Ok::<AckV, DecodeError>(a)) by {
                assert(payload.subrange(0, 4) =~= spec_be32(a.seq_no));
                crate::wire::lemma_be32_round_trip(a.seq_no);
                assert(payload.skip(4) =~= a.payload);
                assert(AckV { seq_no: a.seq_no, payload: a.payload } == a);
            }
        },
        MessageV::Nack(n) => {
            assert(spec_parse_nack_payload(payload) == Ok::<Nack, DecodeError>(n)) by {
                assert(payload.subrange(0, 4) =~= spec_be32(n.seq_no));
                crate::wire::lemma_be32_round_trip(n.seq_no);
            }
        },
        MessageV::PushPull(pp) => {
            assert(pp.states.len() <= u32::MAX) by {
                lemma_encode_states_min(pp.states);
            }
            lemma_parse_push_pull_rt(pp);
        },
        MessageV::UserData(_) => {
        },
        MessageV::ErrorResponse(msg) => {
            lemma_parse_error_rt(msg);
        },
        MessageV::Compound(cs) => {
            lemma_parse_compound_rt(cs);
        },
    }
}


// ------------------------------------------------------------------ labels

/// A labeled frame: the cluster label behind a one-byte length, then the
/// frame. Peers reject frames whose label is not their own.
pub open spec fn spec_encode_labeled(label: Seq<u8>, m: MessageV) -> Seq<u8> {
    seq![label.len() as u8] + label + spec_encode_message(m)
}

/// Puts a message on the wire behind the cluster label. Fails with
/// `PayloadTooLarge` exactly when the label exceeds its one-byte length or
/// the message does not fit its length fields.
pub fn encode_labeled_message(label: &[u8], m: &Message) -> (r: Result<Vec<u8>, EncodeError>)
    ensures
        r is Ok <==> label@.len() <= u8::MAX && spec_message_fits(m@),
        r matches Ok(v) ==> v@ == spec_encode_labeled(label@, m@),
        r is Err ==> r == Err::<Vec<u8>, EncodeError>(EncodeError::PayloadTooLarge),
{
    if label.len() > 0xff {
        return Err(EncodeError::PayloadTooLarge);
    }
    let frame = match encode_message(m) {
        Ok(v) => v,
        Err(e) => {
            return Err(e);
        },
    };
    let mut out: Vec<u8> = Vec::new();
    out.push(label.len() as u8);
    put_bytes(&mut out, label);
    vec_extend(&mut out, &frame);
    assert(out@ =~= spec_encode_labeled(label@, m@));
    Ok(out)
}

/// Parses one labeled frame at the front of `b`, demanding the expected
/// label.
pub open spec fn spec_parse_labeled(expected: Seq<u8>, b: Seq<u8>) -> Result<
    (int, MessageV),
    DecodeError,
> {
    if b.len() < 1 {
        Err(DecodeError::Truncated)
    } else {
        let n = b[0] as int;
        if b.len() < 1 + n {
            Err(DecodeError::Truncated)
        } else if b.subrange(1, 1 + n) != expected {
            Err(DecodeError::BadLabel)
        } else {
            match spec_parse_message(b.skip(1 + n)) {
                Err(e) => Err(e),
                Ok((c, m)) => Ok((1 + n + c, m)),
            }
        }
    }
}

/// Reads one labeled frame from the front of `b`: verifies the label, then
/// decodes the frame behind it. Fails with `BadLabel` exactly when the
/// frame carries a label other than `expected`.
pub fn decode_labeled_message(expected: &[u8], b: &[u8]) -> (r: Result<(usize, Message), DecodeError>)
    ensures
        r matches Ok((n, m)) ==> spec_parse_labeled(expected@, b@) == Ok::<(int, MessageV),
            DecodeError,
        >((n as int, m@)),
        r matches Err(e) ==> spec_parse_labeled(expected@, b@) == Err::<(int, MessageV),
            DecodeError,
        >(e),
{
    if b.len() < 1 {
        return Err(DecodeError::Truncated);
    }
    let n = b[0] as usize;
    if b.len() - 1 < n {
        return Err(DecodeError::Truncated);
    }
    let label = read_bytes(b, 1, n);
    if !crate::wire::bytes_eq(label.as_slice(), expected) {
        return Err(DecodeError::BadLabel);
    }
    let rest = read_bytes(b, 1 + n, b.len() - 1 - n);
    proof {
        assert(rest@ =~= b@.skip(1 + n as int));
    }
    match decode_message(rest.as_slice()) {
        Ok((c, m)) => Ok((1 + n + c, m)),
        Err(e) => Err(e),
    }
}

/// Decoding a labeled encoding gives the message back, under the same
/// label: for every label that fits its one-byte length and every message
/// whose length fields fit, parsing the labeled frame followed by anything
/// yields the same message and consumes exactly the labeled frame.
pub proof fn lemma_labeled_round_trip(label: Seq<u8>, m: MessageV, rest: Seq<u8>)
    requires
        label.len() <= u8::MAX,
        spec_message_fits(m),
    ensures
        spec_parse_labeled(label, spec_encode_labeled(label, m) + rest) == Ok::<
            (int, MessageV),
            DecodeError,
        >((spec_encode_labeled(label, m).len() as int, m)),
{
    let b = spec_encode_labeled(label, m) + rest;
    let n = label.len() as int;
    assert(b[0] == label.len() as u8) by {
        assert(b =~= seq![label.len() as u8] + (label + (spec_encode_message(m) + rest)));
    }
    assert(b.subrange(1, 1 + n) == label) by {
        assert(b.subrange(1, 1 + n) =~= label);
    }
    assert(b.skip(1 + n) == spec_encode_message(m) + rest) by {
        assert(b.skip(1 + n) =~= spec_encode_message(m) + rest);
    }
    lemma_message_round_trip(m, rest);
}

} // verus!
