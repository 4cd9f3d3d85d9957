use bft_core::actuator::{check_command, check_proposal};
use bft_core::algorithm::{
    authorized_votes, check_polc, is_authority, quorum_size, selected_proposer, try_commit,
    update_lock, validate_proposal, ConsensusState,
};
use bft_core::timer::{commit_backoff, is_stale, step_timeout, Step, TimeoutInfo, TimerQueue};
use bft_core::voteset::{RoundCollector, StepCollector, VoteCollector, VoteSet};
use bft_core::wal::{decode_log, encode_log, msg_kind, WalRecord};
use bft_core::{BftError, BftMsg, Commit, Feed, LockStatus, Proposal, Status, Vote, VoteType};

fn a() -> Vec<u8> {
    b"A".to_vec()
}
fn b() -> Vec<u8> {
    b"B".to_vec()
}
fn c() -> Vec<u8> {
    b"C".to_vec()
}
fn d() -> Vec<u8> {
    b"D".to_vec()
}
fn authorities() -> Vec<Vec<u8>> {
    vec![a(), b(), c(), d()]
}

fn vote(t: VoteType, h: u64, r: u64, p: &[u8], voter: Vec<u8>) -> Vote {
    Vote { vote_type: t, height: h, round: r, proposal: p.to_vec(), voter }
}

fn set_of(votes: &[(Vec<u8>, &[u8])]) -> VoteSet {
    let mut s = VoteSet::new();
    for (v, p) in votes {
        s.add(v.clone(), p.to_vec());
    }
    s
}

fn state_at_height_one() -> ConsensusState {
    let status = Status { height: 0, interval: Some(300), authority_list: authorities() };
    ConsensusState::from_status(status, b(), 3000)
}

#[test]
fn voteset_keeps_first_vote_of_each_sender() {
    let mut s = VoteSet::new();
    assert!(s.add(a(), b"p".to_vec()));
    assert!(!s.add(a(), b"q".to_vec()));
    assert!(s.add(b(), b"q".to_vec()));
    assert!(s.add(c(), b"p".to_vec()));
    assert_eq!(s.count, 3);
    assert_eq!(s.count_of(&b"p".to_vec()), 2);
    assert_eq!(s.count_of(&b"q".to_vec()), 1);
    assert_eq!(s.count_of(&b"r".to_vec()), 0);
}

#[test]
fn voteset_abstract_polc_lists_voters_in_order() {
    let s = set_of(&[(a(), b"p"), (b(), b"q"), (c(), b"p")]);
    let polc = s.abstract_polc(4, 2, VoteType::Prevote, &b"p".to_vec());
    assert_eq!(polc.len(), 2);
    assert_eq!(polc[0], vote(VoteType::Prevote, 4, 2, b"p", a()));
    assert_eq!(polc[1], vote(VoteType::Prevote, 4, 2, b"p", c()));
    let snap = s.snapshot();
    assert_eq!(snap.count, 3);
    assert_eq!(snap.votes_by_sender, s.votes_by_sender);
}

#[test]
fn step_collector_separates_vote_types() {
    let mut sc = StepCollector::new();
    assert!(sc.get_voteset(VoteType::Prevote).is_none());
    assert!(sc.add(VoteType::Prevote, a(), b"p".to_vec()));
    assert!(sc.add(VoteType::Precommit, a(), b"p".to_vec()));
    assert!(!sc.add(VoteType::Prevote, a(), b"x".to_vec()));
    assert_eq!(sc.get_voteset(VoteType::Prevote).unwrap().count, 1);
    assert_eq!(sc.get_voteset(VoteType::Precommit).unwrap().count, 1);
}

#[test]
fn round_collector_keeps_sixteen_rounds() {
    let mut rc = RoundCollector::new();
    for r in 0..17u64 {
        assert!(rc.add(r, VoteType::Prevote, a(), b"p".to_vec()));
    }
    assert!(rc.get_voteset(0, VoteType::Prevote).is_none());
    assert_eq!(rc.get_voteset(16, VoteType::Prevote).unwrap().count, 1);
    assert!(!rc.add(16, VoteType::Prevote, a(), b"p".to_vec()));
}

#[test]
fn vote_collector_dedups_and_counts_prevotes() {
    let mut vc = VoteCollector::new();
    assert!(vc.add(vote(VoteType::Prevote, 1, 0, b"p", a())));
    assert!(!vc.add(vote(VoteType::Prevote, 1, 0, b"q", a())));
    assert!(vc.add(vote(VoteType::Prevote, 1, 0, b"p", b())));
    assert!(vc.add(vote(VoteType::Precommit, 1, 0, b"p", a())));
    assert!(vc.add(vote(VoteType::Prevote, 2, 0, b"p", a())));
    assert_eq!(vc.prevote_count.get(&0), Some(&3));
    let s = vc.get_voteset(1, 0, VoteType::Prevote).unwrap();
    assert_eq!(s.count, 2);
    assert_eq!(s.count_of(&b"p".to_vec()), 2);
    assert!(vc.get_voteset(1, 1, VoteType::Prevote).is_none());
    vc.clear_prevote_count();
    assert!(vc.prevote_count.is_empty());
}

#[test]
fn vote_collector_evicts_least_recent_height() {
    let mut vc = VoteCollector::new();
    for h in 0..17u64 {
        assert!(vc.add(vote(VoteType::Precommit, h, 0, b"p", a())));
    }
    assert!(vc.get_voteset(0, 0, VoteType::Precommit).is_none());
    assert!(vc.get_voteset(1, 0, VoteType::Precommit).is_some());
    assert!(vc.get_voteset(16, 0, VoteType::Precommit).is_some());
}

#[test]
fn proposer_rotates_by_height_plus_round() {
    let list = authorities();
    assert_eq!(selected_proposer(&list, 1, 0), b());
    assert_eq!(selected_proposer(&list, 1, 1), c());
    assert_eq!(selected_proposer(&list, 3, 0), d());
    assert_eq!(selected_proposer(&list, 4, 0), a());
    assert_eq!(selected_proposer(&list, u64::MAX, u64::MAX), c());
}

#[test]
fn quorum_is_two_f_plus_one() {
    assert_eq!(quorum_size(4), 3);
    assert_eq!(quorum_size(7), 5);
    assert_eq!(quorum_size(1), 1);
    assert_eq!(quorum_size(0), 1);
    assert!(is_authority(&authorities(), &c()));
    assert!(!is_authority(&authorities(), &b"E".to_vec()));
}

#[test]
fn happy_path_commits_p1() {
    let precommits = set_of(&[(b(), b"p1"), (c(), b"p1"), (d(), b"p1")]);
    let commit = try_commit(1, 0, &b"p1".to_vec(), &precommits, &authorities(), &b()).unwrap();
    assert_eq!(commit.height, 1);
    assert_eq!(commit.round, 0);
    assert_eq!(commit.proposal, b"p1".to_vec());
    assert_eq!(commit.lock_votes.len(), 3);
    assert!(commit.lock_votes.iter().all(|v| v.vote_type == VoteType::Precommit));
}

#[test]
fn commit_needs_quorum_of_authorities() {
    let precommits = set_of(&[(b(), b"p1"), (c(), b"p1"), (b"E".to_vec(), b"p1")]);
    assert!(try_commit(1, 0, &b"p1".to_vec(), &precommits, &authorities(), &b()).is_none());
    let empty = set_of(&[(b(), b""), (c(), b""), (d(), b"")]);
    assert!(try_commit(1, 0, &Vec::new(), &empty, &authorities(), &b()).is_none());
    let votes = authorized_votes(&precommits, VoteType::Precommit, 1, 0, &b"p1".to_vec(), &authorities());
    assert_eq!(votes.len(), 2);
}

#[test]
fn silent_leader_moves_to_next_round() {
    let mut st = state_at_height_one();
    assert_eq!(st.proposer(), b());
    assert_eq!(st.prevote_target(&None), Vec::<u8>::new());
    assert_eq!(st.precommit_target(), Vec::<u8>::new());
    let precommits = set_of(&[(b(), b""), (c(), b""), (d(), b"")]);
    assert!(try_commit(1, 0, &Vec::new(), &precommits, &authorities(), &b()).is_none());
    st.next_round();
    assert_eq!((st.height, st.round, st.step), (1, 1, Step::Propose));
    assert_eq!(st.proposer(), c());
    let commit = try_commit(
        1,
        1,
        &b"p2".to_vec(),
        &set_of(&[(b(), b"p2"), (c(), b"p2"), (d(), b"p2")]),
        &authorities(),
        &b(),
    );
    assert_eq!(commit.unwrap().round, 1);
}

#[test]
fn lock_is_kept_and_reproposed() {
    let prevotes = set_of(&[(a(), b"p"), (b(), b"p"), (c(), b""), (d(), b"p")]);
    let lock = update_lock(None, 1, 0, &prevotes, &authorities()).unwrap();
    assert_eq!(lock.proposal, b"p".to_vec());
    assert_eq!(lock.round, 0);
    assert_eq!(lock.votes.len(), 3);
    let mut st = state_at_height_one();
    st.lock = Some(lock.clone());
    st.next_round();
    assert_eq!(st.lock.as_ref().unwrap().round, 0);
    assert_eq!(st.prevote_target(&None), b"p".to_vec());
    assert_eq!(st.precommit_target(), b"p".to_vec());
    let p = Proposal {
        height: 1,
        round: 1,
        content: b"p".to_vec(),
        lock_round: Some(0),
        lock_votes: Some(lock.votes.clone()),
        proposer: selected_proposer(&authorities(), 1, 1),
    };
    assert!(check_polc(&p, &authorities()));
    assert!(st.accepts_proposal(&p));
}

#[test]
fn split_prevotes_keep_the_lock() {
    let old = LockStatus { proposal: b"p".to_vec(), round: 0, votes: vec![] };
    let split = set_of(&[(a(), b"p"), (b(), b"p"), (c(), b""), (d(), b"")]);
    let kept = update_lock(Some(old.clone()), 1, 1, &split, &authorities()).unwrap();
    assert_eq!(kept.proposal, b"p".to_vec());
    assert_eq!(kept.round, 0);
    let empty = set_of(&[(a(), b""), (b(), b""), (c(), b"")]);
    assert!(update_lock(Some(old.clone()), 1, 1, &empty, &authorities()).is_none());
    let later = LockStatus { proposal: b"q".to_vec(), round: 5, votes: vec![] };
    let newer = set_of(&[(a(), b"p"), (b(), b"p"), (c(), b"p")]);
    let still = update_lock(Some(later), 1, 2, &newer, &authorities()).unwrap();
    assert_eq!(still.round, 5);
    assert_eq!(still.proposal, b"q".to_vec());
}

#[test]
fn byzantine_proposal_is_illegal() {
    let p = Proposal {
        height: 1,
        round: 0,
        content: b"pX".to_vec(),
        lock_round: Some(5),
        lock_votes: Some(vec![
            vote(VoteType::Prevote, 1, 5, b"pX", b()),
            vote(VoteType::Prevote, 1, 5, b"pX", c()),
        ]),
        proposer: a(),
    };
    assert_eq!(validate_proposal(&p, 4), Err(BftError::ProposalIllegal(1, 0)));
    assert_eq!(check_proposal(p.clone(), 4), Err(BftError::ProposalIllegal(1, 0)));
    assert!(!check_polc(&p, &authorities()));
    let plain = Proposal { lock_round: None, lock_votes: None, ..p };
    assert_eq!(check_proposal(plain.clone(), 4), Ok(BftMsg::Proposal(plain)));
}

#[test]
fn proposal_from_wrong_proposer_is_refused() {
    let st = state_at_height_one();
    let p = Proposal {
        height: 1,
        round: 0,
        content: b"p1".to_vec(),
        lock_round: None,
        lock_votes: None,
        proposer: a(),
    };
    assert!(!st.accepts_proposal(&p));
    let good = Proposal { proposer: b(), ..p };
    assert!(st.accepts_proposal(&good));
}

#[test]
fn votes_from_strangers_or_old_rounds_are_dropped() {
    let mut st = state_at_height_one();
    st.next_round();
    st.next_round();
    st.next_round();
    assert!(!st.accepts_vote(&vote(VoteType::Prevote, 1, 3, b"p", b"E".to_vec())));
    assert!(!st.accepts_vote(&vote(VoteType::Prevote, 1, 0, b"p", a())));
    assert!(st.accepts_vote(&vote(VoteType::Prevote, 1, 1, b"p", a())));
    assert!(st.accepts_vote(&vote(VoteType::Prevote, 2, 0, b"p", a())));
}

#[test]
fn status_advances_height_and_rotates_proposer() {
    let mut st = state_at_height_one();
    assert_eq!(st.interval, 300);
    assert!(!st.apply_status(Status { height: 0, interval: None, authority_list: vec![] }));
    assert_eq!(st.height, 1);
    let list = vec![b(), c(), d(), a()];
    assert!(st.apply_status(Status { height: 1, interval: None, authority_list: list }));
    assert_eq!((st.height, st.round, st.step), (2, 0, Step::Propose));
    assert!(st.lock.is_none());
    assert_eq!(st.interval, 300);
    assert_eq!(st.proposer(), d());
    assert_eq!(selected_proposer(&st.authority_list, 2, 0), d());
}

#[test]
fn wal_round_trip_and_corruption() {
    let records = vec![
        WalRecord { kind: 0, payload: b"proposal".to_vec() },
        WalRecord { kind: 1, payload: vec![] },
        WalRecord { kind: 1, payload: vec![7; 300] },
    ];
    let bytes = encode_log(&records);
    assert_eq!(&bytes[0..5], &[8, 0, 0, 0, 0]);
    assert_eq!(bytes.len(), 13 + 5 + 305);
    assert_eq!(decode_log(&bytes), Ok(records.clone()));
    assert_eq!(&bytes[18..23], &[44, 1, 0, 0, 1]);
    let cut = bytes[..bytes.len() - 1].to_vec();
    assert_eq!(decode_log(&cut), Err(BftError::WalCorrupt(18)));
    assert_eq!(decode_log(&vec![1, 0]), Err(BftError::WalCorrupt(0)));
    assert_eq!(decode_log(&Vec::new()), Ok(vec![]));
    assert_eq!(msg_kind(&BftMsg::Feed(Feed { height: 1, proposal: vec![] })), 2);
    assert_eq!(msg_kind(&BftMsg::Start), 7);
}

#[test]
fn step_timeouts_share_the_interval() {
    assert_eq!(step_timeout(300, Step::Propose), 240);
    assert_eq!(step_timeout(300, Step::Prevote), 30);
    assert_eq!(step_timeout(300, Step::PrecommitWait), 30);
    assert_eq!(step_timeout(300, Step::Commit), 300);
    assert_eq!(step_timeout(3000, Step::Propose), 2400);
    assert_eq!(step_timeout(u64::MAX, Step::Commit), u64::MAX);
    let info = TimeoutInfo { height: 1, round: 0, step: Step::Prevote };
    assert!(!is_stale(&info, 1, 0, Step::Prevote));
    assert!(is_stale(&info, 1, 0, Step::PrevoteWait));
    assert!(is_stale(&info, 1, 1, Step::Prevote));
}

#[test]
fn commands_other_than_pause_and_start_are_refused() {
    assert_eq!(check_command(BftMsg::Pause), Ok(BftMsg::Pause));
    assert_eq!(check_command(BftMsg::Start), Ok(BftMsg::Start));
    let commit = Commit { height: 1, round: 0, proposal: vec![], lock_votes: vec![], address: a() };
    assert_eq!(check_command(BftMsg::Commit(commit)), Err(BftError::MsgTypeErr));
}

#[test]
fn two_commits_of_a_round_agree() {
    let s1 = set_of(&[(a(), b"p"), (b(), b"p"), (c(), b"p")]);
    let s2 = set_of(&[(b(), b"p"), (c(), b"p"), (d(), b"p")]);
    let c1 = try_commit(1, 0, &b"p".to_vec(), &s1, &authorities(), &a()).unwrap();
    let c2 = try_commit(1, 0, &b"p".to_vec(), &s2, &authorities(), &b()).unwrap();
    assert_eq!(c1.proposal, c2.proposal);
}

#[test]
fn timer_queue_fires_earliest_due_first() {
    let mut q = TimerQueue::new();
    assert_eq!(q.next_deadline(), None);
    assert_eq!(q.pop_due(u64::MAX), None);
    let late = TimeoutInfo { height: 1, round: 0, step: Step::Precommit };
    let early = TimeoutInfo { height: 1, round: 0, step: Step::Propose };
    let mid = TimeoutInfo { height: 1, round: 0, step: Step::Prevote };
    q.arm(late, 300);
    q.arm(early, 100);
    q.arm(mid, 200);
    assert_eq!(q.next_deadline(), Some(100));
    assert_eq!(q.pop_due(50), None);
    assert_eq!(q.pop_due(250), Some(early));
    assert_eq!(q.pop_due(250), Some(mid));
    assert_eq!(q.pop_due(250), None);
    assert_eq!(q.next_deadline(), Some(300));
    assert_eq!(q.pop_due(300), Some(late));
    assert_eq!(q.next_deadline(), None);
}

#[test]
fn every_node_decides_the_same_commit() {
    let precommits = set_of(&[(b(), b"p1"), (c(), b"p1"), (d(), b"p1")]);
    for me in [b(), c(), d()] {
        let status = Status { height: 0, interval: None, authority_list: authorities() };
        let st = ConsensusState::from_status(status, me.clone(), 300);
        let commit = st.decide_commit(&precommits).unwrap();
        assert_eq!(commit.height, 1);
        assert_eq!(commit.proposal, b"p1".to_vec());
        assert_eq!(commit.address, me);
        assert!(!st.round_failed(&precommits));
    }
}

#[test]
fn empty_precommit_quorum_fails_the_round() {
    let st = state_at_height_one();
    let precommits = set_of(&[(a(), b"p"), (b(), b""), (c(), b""), (d(), b"")]);
    assert!(st.decide_commit(&precommits).is_none());
    assert!(st.round_failed(&precommits));
    let split = set_of(&[(a(), b"p"), (b(), b"p"), (c(), b""), (d(), b"")]);
    assert!(st.decide_commit(&split).is_none());
    assert!(!st.round_failed(&split));
}

#[test]
fn commit_retry_backs_off_up_to_eight_intervals() {
    assert_eq!(commit_backoff(300, 0), 300);
    assert_eq!(commit_backoff(300, 1), 600);
    assert_eq!(commit_backoff(300, 2), 1200);
    assert_eq!(commit_backoff(300, 3), 2400);
    assert_eq!(commit_backoff(300, 40), 2400);
}

#[test]
fn timeouts_drive_the_round() {
    let mut st = state_at_height_one();
    let stale = TimeoutInfo { height: 1, round: 0, step: Step::Prevote };
    assert!(!st.on_timeout(&stale));
    assert_eq!(st.step, Step::Propose);
    assert!(st.on_timeout(&TimeoutInfo { height: 1, round: 0, step: Step::Propose }));
    assert_eq!(st.step, Step::Prevote);
    assert!(st.on_timeout(&TimeoutInfo { height: 1, round: 0, step: Step::Prevote }));
    assert_eq!(st.step, Step::Precommit);
    assert!(st.on_timeout(&TimeoutInfo { height: 1, round: 0, step: Step::Precommit }));
    assert_eq!((st.height, st.round, st.step), (1, 1, Step::Propose));
}

#[test]
fn voteset_refused_vote_leaves_tallies() {
    let mut vs = VoteSet::new();
    assert!(vs.votes_by_proposal.is_empty());
    assert!(vs.add(vec![1], vec![9]));
    assert!(!vs.add(vec![1], vec![8]));
    assert_eq!(vs.count, 1);
    assert_eq!(vs.votes_by_sender, vec![(vec![1], vec![9])]);
    assert_eq!(vs.votes_by_proposal, vec![(vec![9], 1)]);
}

#[test]
fn vote_collector_refused_vote_keeps_other_sets() {
    let mut vc = VoteCollector::new();
    assert!(vc.add(vote(VoteType::Prevote, 1, 0, b"p", a())));
    assert!(vc.add(vote(VoteType::Precommit, 1, 0, b"p", a())));
    assert!(vc.add(vote(VoteType::Prevote, 1, 1, b"p", b())));
    assert!(!vc.add(vote(VoteType::Prevote, 1, 0, b"q", a())));
    assert_eq!(vc.prevote_count.get(&0), Some(&1));
    assert_eq!(vc.get_voteset(1, 0, VoteType::Precommit).unwrap().count, 1);
    assert_eq!(vc.get_voteset(1, 1, VoteType::Prevote).unwrap().count, 1);
    assert_eq!(vc.get_voteset(1, 0, VoteType::Prevote).unwrap().count_of(&b"q".to_vec()), 0);
}

#[test]
fn proposal_polc_moves_the_lock() {
    let mut st = state_at_height_one();
    st.next_round();
    let polc = vec![
        vote(VoteType::Prevote, 1, 0, b"p", a()),
        vote(VoteType::Prevote, 1, 0, b"p", b()),
        vote(VoteType::Prevote, 1, 0, b"p", d()),
    ];
    let p = Proposal {
        height: 1,
        round: 1,
        content: b"p".to_vec(),
        lock_round: Some(0),
        lock_votes: Some(polc.clone()),
        proposer: c(),
    };
    assert!(st.lock_from_proposal(&p));
    let lock = st.lock.clone().unwrap();
    assert_eq!((lock.proposal, lock.round, lock.votes), (b"p".to_vec(), 0, polc.clone()));
    assert_eq!(st.prevote_target(&None), b"p".to_vec());
    assert!(!st.lock_from_proposal(&p));
    let short = Proposal { lock_votes: Some(polc[..2].to_vec()), lock_round: Some(3), ..p.clone() };
    assert!(!st.lock_from_proposal(&short));
    let other_height = Proposal { height: 2, lock_round: Some(4), ..p };
    assert!(!st.lock_from_proposal(&other_height));
    assert_eq!(st.lock.unwrap().round, 0);
}
