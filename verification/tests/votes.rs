use shiritori::vote::VoteTracker;

#[test]
fn open_makes_active() {
    let mut votes = VoteTracker::new();
    assert!(!votes.is_active("m"));
    votes.open_vote("m");
    assert!(votes.is_active("m"));
}

#[test]
fn resolve_makes_inactive() {
    let mut votes = VoteTracker::new();
    votes.open_vote("m");
    votes.resolve("m");
    assert!(!votes.is_active("m"));
}

#[test]
fn resolve_twice_is_safe() {
    let mut votes = VoteTracker::new();
    votes.open_vote("m");
    votes.open_vote("other");
    votes.resolve("m");
    votes.resolve("m");
    assert!(!votes.is_active("m"));
    // the second resolve changed nothing beyond the first
    assert!(votes.is_active("other"));
}

#[test]
fn resolve_absent_is_a_noop() {
    let mut votes = VoteTracker::new();
    votes.open_vote("kept");
    votes.resolve("never opened");
    assert!(votes.is_active("kept"));
}

#[test]
fn open_twice_then_one_resolve_clears() {
    let mut votes = VoteTracker::new();
    votes.open_vote("m");
    votes.open_vote("m");
    votes.resolve("m");
    assert!(!votes.is_active("m"));
}

#[test]
fn quorum_not_reached_keeps_vote_active() {
    let mut votes = VoteTracker::new();
    votes.open_vote("m");
    assert!(!votes.resolve_if_quorum("m", 2, 3));
    assert!(votes.is_active("m"));
}

#[test]
fn quorum_reached_resolves_exactly_once() {
    let mut votes = VoteTracker::new();
    votes.open_vote("m");
    assert!(votes.resolve_if_quorum("m", 3, 3));
    assert!(!votes.is_active("m"));
    // a racing second check sees the vote already resolved
    assert!(!votes.resolve_if_quorum("m", 3, 3));
}
