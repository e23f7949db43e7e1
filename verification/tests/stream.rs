use memberlist::stream::{dispatch_stream_frame, encode_local_state, handle_packet, listener_step,
    plan_merge, peers_of_states, ListenerEvent, ListenerStep, PacketAction, PushPullGate,
    StreamAction, MAX_PUSH_PULL_REQUESTS};
use memberlist::codec::decode_message;
use memberlist::types::{Message, Nack, NodeAddress, NodeStateKind, Ping, PushNodeState, PushPull};

fn ping_for(target: &[u8]) -> Message {
    Message::Ping(Ping {
        seq_no: 4,
        source_id: b"remote".to_vec(),
        source_addr: NodeAddress { ip: 1, port: 1 },
        target_id: target.to_vec(),
        target_addr: NodeAddress { ip: 2, port: 2 },
    })
}

fn push_pull() -> Message {
    Message::PushPull(PushPull { join: false, states: vec![], user_data: vec![] })
}

#[test]
fn test_dispatch_ping_for_this_node() {
    let mut gate = PushPullGate::new(MAX_PUSH_PULL_REQUESTS);
    match dispatch_stream_frame(ping_for(b"me"), b"me", &mut gate) {
        StreamAction::ReplyAck(a) => {
            assert_eq!(a.seq_no, 4);
            assert!(a.payload.is_empty());
        }
        other => panic!("expected an ack, got {:?}", other),
    }
}

#[test]
fn test_dispatch_ping_for_other_node() {
    let mut gate = PushPullGate::new(MAX_PUSH_PULL_REQUESTS);
    let action = dispatch_stream_frame(ping_for(b"someone-else"), b"me", &mut gate);
    assert_eq!(action, StreamAction::DropWrongPing);
}

#[test]
fn test_dispatch_user_data_and_ignored_kinds() {
    let mut gate = PushPullGate::new(MAX_PUSH_PULL_REQUESTS);
    let action = dispatch_stream_frame(Message::UserData(b"payload".to_vec()), b"me", &mut gate);
    assert_eq!(action, StreamAction::NotifyUser(b"payload".to_vec()));
    let action = dispatch_stream_frame(Message::Nack(Nack { seq_no: 1 }), b"me", &mut gate);
    assert_eq!(action, StreamAction::Ignore);
}

#[test]
fn test_max_push_pull_requests() {
    // 200 concurrent inbound push/pull connections against a limit of 128:
    // the first 128 are served, the other 72 each get the error response
    let mut gate = PushPullGate::new(MAX_PUSH_PULL_REQUESTS);
    let mut served = 0;
    let mut refused = 0;
    for _ in 0..200 {
        match dispatch_stream_frame(push_pull(), b"me", &mut gate) {
            StreamAction::ServePushPull(_) => served += 1,
            StreamAction::RejectPushPull(e) => {
                refused += 1;
                assert_eq!(e.message(), "too many pending push/pull requests");
            }
            other => panic!("unexpected action {:?}", other),
        }
    }
    assert_eq!(served, 128);
    assert_eq!(refused, 72);
    // a finished exchange makes room for exactly one more
    gate.end();
    match dispatch_stream_frame(push_pull(), b"me", &mut gate) {
        StreamAction::ServePushPull(_) => {}
        other => panic!("unexpected action {:?}", other),
    }
    match dispatch_stream_frame(push_pull(), b"me", &mut gate) {
        StreamAction::RejectPushPull(_) => {}
        other => panic!("unexpected action {:?}", other),
    }
}

#[test]
fn test_listener_steps() {
    assert_eq!(listener_step(ListenerEvent::Accepted), ListenerStep::HandleConnection);
    assert_eq!(listener_step(ListenerEvent::Shutdown), ListenerStep::Stop);
    assert_eq!(listener_step(ListenerEvent::AcceptFailed), ListenerStep::Stop);
}

#[test]
fn test_encode_local_state_round_trips() {
    let states = vec![PushNodeState {
        id: b"n1".to_vec(),
        addr: NodeAddress { ip: 0x7f000001, port: 7946 },
        meta: vec![9],
        incarnation: 3,
        state: NodeStateKind::Alive,
        protocol_version: 1,
        delegate_version: 1,
    }];
    let frame = encode_local_state(states.clone(), b"app".to_vec(), true).unwrap();
    let (n, decoded) = decode_message(&frame).unwrap();
    assert_eq!(n, frame.len());
    assert_eq!(
        decoded,
        Message::PushPull(PushPull { join: true, states, user_data: b"app".to_vec() })
    );
}

#[test]
fn test_peers_of_states_keeps_fields() {
    let s = PushNodeState {
        id: b"n1".to_vec(),
        addr: NodeAddress { ip: 5, port: 6 },
        meta: vec![1, 2],
        incarnation: 17,
        state: NodeStateKind::Suspect,
        protocol_version: 2,
        delegate_version: 3,
    };
    let peers = peers_of_states(&vec![s.clone()]);
    assert_eq!(peers.len(), 1);
    assert_eq!(peers[0].id, s.id);
    assert_eq!(peers[0].addr, s.addr);
    assert_eq!(peers[0].meta, s.meta);
    assert_eq!(peers[0].state, s.state);
    assert_eq!(peers[0].protocol_version, s.protocol_version);
    assert_eq!(peers[0].delegate_version, s.delegate_version);
}

#[test]
fn test_plan_merge() {
    let s = PushNodeState {
        id: b"n1".to_vec(),
        addr: NodeAddress { ip: 5, port: 6 },
        meta: vec![],
        incarnation: 1,
        state: NodeStateKind::Alive,
        protocol_version: 1,
        delegate_version: 1,
    };
    // a join with a delegate asks for the merge veto and delivers user bytes
    let pp = PushPull { join: true, states: vec![s.clone()], user_data: b"x".to_vec() };
    let plan = plan_merge(pp, true);
    assert_eq!(plan.notify_peers.unwrap().len(), 1);
    assert_eq!(plan.states, vec![s.clone()]);
    assert_eq!(plan.user_data, Some(b"x".to_vec()));
    // no delegate: no veto, no user bytes, the records still merge
    let pp = PushPull { join: true, states: vec![s.clone()], user_data: b"x".to_vec() };
    let plan = plan_merge(pp, false);
    assert!(plan.notify_peers.is_none());
    assert!(plan.user_data.is_none());
    assert_eq!(plan.states, vec![s.clone()]);
    // not a join: no veto even with a delegate; empty user bytes stay out
    let pp = PushPull { join: false, states: vec![], user_data: vec![] };
    let plan = plan_merge(pp, true);
    assert!(plan.notify_peers.is_none());
    assert!(plan.user_data.is_none());
}

#[test]
fn test_handle_packet() {
    // a ping for this node is acked; one for another node is nacked
    match handle_packet(ping_for(b"me"), b"me") {
        PacketAction::ReplyAck(a) => assert_eq!(a.seq_no, 4),
        other => panic!("expected an ack, got {:?}", other),
    }
    match handle_packet(ping_for(b"other"), b"me") {
        PacketAction::ReplyNack(n) => assert_eq!(n.seq_no, 4),
        other => panic!("expected a nack, got {:?}", other),
    }
    // probe answers go to the prober
    let ack = memberlist::types::Ack { seq_no: 8, payload: vec![] };
    match handle_packet(Message::Ack(ack.clone()), b"me") {
        PacketAction::DeliverAck(a) => assert_eq!(a, ack),
        other => panic!("unexpected {:?}", other),
    }
    // a compound datagram is split into its sub-frames
    let subs = vec![vec![1, 2], vec![3]];
    match handle_packet(Message::Compound(subs.clone()), b"me") {
        PacketAction::Unpack(got) => assert_eq!(got, subs),
        other => panic!("unexpected {:?}", other),
    }
    // a stream-only kind is dropped on the packet path
    match handle_packet(push_pull(), b"me") {
        PacketAction::Drop => {}
        other => panic!("unexpected {:?}", other),
    }
}
