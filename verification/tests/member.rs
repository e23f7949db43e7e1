use memberlist::member::{claim_dominates, merge_decision, state_rank, LocalIncarnation,
    MergeOutcome};
use memberlist::types::NodeStateKind;

#[test]
fn test_state_order() {
    assert!(state_rank(NodeStateKind::Alive) < state_rank(NodeStateKind::Suspect));
    assert!(state_rank(NodeStateKind::Suspect) < state_rank(NodeStateKind::Dead));
    assert_eq!(state_rank(NodeStateKind::Dead), state_rank(NodeStateKind::Left));
}

#[test]
fn test_claim_dominates() {
    // a greater incarnation always wins
    assert!(claim_dominates(5, NodeStateKind::Dead, 6, NodeStateKind::Alive));
    // at equal incarnation only a worse state wins
    assert!(claim_dominates(5, NodeStateKind::Alive, 5, NodeStateKind::Suspect));
    assert!(!claim_dominates(5, NodeStateKind::Suspect, 5, NodeStateKind::Suspect));
    assert!(!claim_dominates(5, NodeStateKind::Dead, 5, NodeStateKind::Left));
    // a lower incarnation never wins
    assert!(!claim_dominates(5, NodeStateKind::Alive, 4, NodeStateKind::Dead));
}

#[test]
fn test_merge_decisions() {
    // an unknown peer is inserted, unless the claim is Left
    assert_eq!(
        merge_decision(None, false, 1, NodeStateKind::Alive),
        MergeOutcome::Insert
    );
    assert_eq!(
        merge_decision(None, false, 1, NodeStateKind::Left),
        MergeOutcome::IgnoreUnknown
    );
    // a dominating claim about a peer is accepted, a stale one rejected
    assert_eq!(
        merge_decision(Some((5, NodeStateKind::Alive)), false, 6, NodeStateKind::Suspect),
        MergeOutcome::Accept
    );
    assert_eq!(
        merge_decision(Some((5, NodeStateKind::Suspect)), false, 4, NodeStateKind::Dead),
        MergeOutcome::Reject
    );
    // a dominating slander about the local node is refuted, not accepted
    assert_eq!(
        merge_decision(Some((5, NodeStateKind::Alive)), true, 5, NodeStateKind::Suspect),
        MergeOutcome::Refute
    );
    assert_eq!(
        merge_decision(Some((5, NodeStateKind::Alive)), true, 5, NodeStateKind::Dead),
        MergeOutcome::Refute
    );
    // an Alive claim about the local node follows the ordinary rules
    assert_eq!(
        merge_decision(Some((5, NodeStateKind::Suspect)), true, 6, NodeStateKind::Alive),
        MergeOutcome::Accept
    );
}

#[test]
fn test_refute_outbids_the_claim() {
    // B is Alive@5; a Suspect{B@5} arrives; the refutation announces Alive@6
    let mut local = LocalIncarnation::new(5);
    let announced = local.refute(5);
    assert_eq!(announced, 6);
    assert_eq!(local.incarnation(), 6);
    assert!(claim_dominates(5, NodeStateKind::Suspect, announced, NodeStateKind::Alive));

    // a slander far above the local incarnation is outbid too
    let mut local = LocalIncarnation::new(2);
    let announced = local.refute(40);
    assert_eq!(announced, 41);
    assert!(claim_dominates(40, NodeStateKind::Dead, announced, NodeStateKind::Alive));
}

#[test]
fn test_accepted_history_is_monotonic() {
    // feed a table a mix of claims; the accepted ones never lower (inc, rank)
    let claims = [
        (1, NodeStateKind::Alive),
        (1, NodeStateKind::Suspect),
        (1, NodeStateKind::Alive), // stale: rejected
        (2, NodeStateKind::Alive),
        (1, NodeStateKind::Dead), // stale: rejected
        (2, NodeStateKind::Dead),
    ];
    let mut current = (0, NodeStateKind::Alive);
    let mut accepted = vec![current];
    for (inc, state) in claims {
        if claim_dominates(current.0, current.1, inc, state) {
            current = (inc, state);
            accepted.push(current);
        }
    }
    for w in accepted.windows(2) {
        assert!(w[0].0 <= w[1].0);
        if w[0].0 == w[1].0 {
            assert!(state_rank(w[0].1) < state_rank(w[1].1));
        }
    }
    assert_eq!(current, (2, NodeStateKind::Dead));
}
