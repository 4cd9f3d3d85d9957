//! The decisions of the consensus state machine: who proposes, when a set of
//! votes is a quorum, what to vote for, when to lock, and when to commit.

use vstd::prelude::*;

use crate::timer::{is_stale, Step, TimeoutInfo};
use crate::voteset::{voters_distinct, VoteSeq, VoteSet};
use crate::{
    bytes_eq, copy_bytes, Address, BftError, Commit, LockStatus, Proposal, Status, Target, Vote,
    VoteType,
};

verus! {

/// The number of faulty authorities tolerated among `n`.
pub open spec fn max_faulty(n: int) -> int {
    if n >= 1 {
        (n - 1) / 3
    } else {
        0
    }
}

/// The number of votes that makes a quorum among `n` authorities: 2f+1.
pub open spec fn quorum(n: int) -> int {
    2 * max_faulty(n) + 1
}

/// The addresses of an authority list.
pub open spec fn addrs(list: Seq<Address>) -> Seq<Seq<u8>> {
    list.map_values(|a: Address| a@)
}

/// The voters of the entries of `votes` that are for `t` and are in `list`,
/// in arrival order.
pub open spec fn authorized_voters(votes: VoteSeq, t: Seq<u8>, list: Seq<Seq<u8>>) -> Seq<Seq<u8>>
    decreases votes.len(),
{
    if votes.len() == 0 {
        Seq::empty()
    } else if votes.last().1 == t && list.contains(votes.last().0) {
        authorized_voters(votes.drop_last(), t, list).push(votes.last().0)
    } else {
        authorized_voters(votes.drop_last(), t, list)
    }
}

/// `votes` are at least a quorum of `list`, all of type `t` at `height` and
/// `round` for `content`, from distinct voters of `list`.
pub open spec fn certifies(
    votes: Seq<Vote>,
    t: VoteType,
    height: u64,
    round: u64,
    content: Seq<u8>,
    list: Seq<Seq<u8>>,
) -> bool {
    &&& votes.len() >= quorum(list.len() as int)
    &&& forall|i: int|
        0 <= i < votes.len() ==> {
            &&& (#[trigger] votes[i]).vote_type == t
            &&& votes[i].height == height
            &&& votes[i].round == round
            &&& votes[i].proposal@ == content
            &&& list.contains(votes[i].voter@)
        }
    &&& forall|i: int, j: int| 0 <= i < j < votes.len() ==> votes[i].voter@ != votes[j].voter@
}

/// The lock round and lock votes of `p` agree: both are present, with at
/// least a quorum of `n` votes, or both are absent.
pub open spec fn lock_coherent(p: Proposal, n: int) -> bool {
    p.lock_round is Some == (p.lock_votes is Some && p.lock_votes.unwrap().len() >= quorum(n))
}

/// The proof-of-lock-change that `p` carries, if any, is a quorum of
/// prevotes of `list` for its content at its lock round.
pub open spec fn polc_valid(p: Proposal, list: Seq<Seq<u8>>) -> bool {
    match (p.lock_round, p.lock_votes) {
        (None, None) => true,
        (Some(lr), Some(v)) => certifies(v@, VoteType::Prevote, p.height, lr, p.content@, list),
        _ => false,
    }
}

/// Each authorized voter of `t` voted for `t`.
pub proof fn lemma_authorized_voters_from(votes: VoteSeq, t: Seq<u8>, list: Seq<Seq<u8>>, k: int)
    requires
        0 <= k < authorized_voters(votes, t, list).len(),
    ensures
        exists|i: int|
            0 <= i < votes.len() && votes[i].0 == authorized_voters(votes, t, list)[k] && votes[i].1
                == t,
    decreases votes.len(),
{
    let prev = authorized_voters(votes.drop_last(), t, list);
    if k < prev.len() {
        lemma_authorized_voters_from(votes.drop_last(), t, list, k);
        let i = choose|i: int|
            0 <= i < votes.drop_last().len() && votes.drop_last()[i].0 == prev[k]
                && votes.drop_last()[i].1 == t;
        assert(votes[i] == votes.drop_last()[i]);
    } else {
        assert(votes[votes.len() - 1] == votes.last());
    }
}

/// Where voters are distinct, so are the authorized voters of any
/// proposal, and each is in the list.
pub proof fn lemma_authorized_voters_distinct(votes: VoteSeq, t: Seq<u8>, list: Seq<Seq<u8>>)
    requires
        voters_distinct(votes),
    ensures
        forall|i: int, j: int|
            0 <= i < j < authorized_voters(votes, t, list).len() ==> authorized_voters(votes, t, list)[i]
                != authorized_voters(votes, t, list)[j],
        forall|i: int|
            0 <= i < authorized_voters(votes, t, list).len() ==> list.contains(
                #[trigger] authorized_voters(votes, t, list)[i],
            ),
    decreases votes.len(),
{
    if votes.len() > 0 {
        let d = votes.drop_last();
        assert(voters_distinct(d)) by {
            assert forall|i: int, j: int| 0 <= i < j < d.len() implies d[i].0 != d[j].0 by {
                assert(d[i] == votes[i] && d[j] == votes[j]);
            }
        }
        lemma_authorized_voters_distinct(d, t, list);
        let prev = authorized_voters(d, t, list);
        if votes.last().1 == t && list.contains(votes.last().0) {
            assert forall|k: int| 0 <= k < prev.len() implies prev[k] != votes.last().0 by {
                lemma_authorized_voters_from(d, t, list, k);
                let i = choose|i: int| 0 <= i < d.len() && d[i].0 == prev[k] && d[i].1 == t;
                assert(d[i] == votes[i]);
                assert(votes[votes.len() - 1] == votes.last());
            }
        }
    }
}

/// A proposal with an authorized voter has a vote.
pub proof fn lemma_authorized_voters_nonempty(votes: VoteSeq, t: Seq<u8>, list: Seq<Seq<u8>>)
    requires
        authorized_voters(votes, t, list).len() > 0,
    ensures
        exists|i: int| 0 <= i < votes.len() && votes[i].1 == t,
{
    lemma_authorized_voters_from(votes, t, list, 0);
}

/// The voters of `votes`.
pub open spec fn voters_of(votes: Seq<Vote>) -> Seq<Seq<u8>> {
    votes.map_values(|v: Vote| v.voter@)
}

/// Two commits of one height and round, each certified by precommits of the
/// `3f+1` distinct authorities of `list`, are for the same proposal, as long
/// as at most `f` authorities are faulty and no other authority precommits
/// two proposals at one height and round.
pub proof fn lemma_commit_agreement(c1: Commit, c2: Commit, list: Seq<Seq<u8>>, faulty: Set<Seq<u8>>)
    requires
        list.no_duplicates(),
        list.len() % 3 == 1,
        faulty.finite(),
        faulty.len() <= max_faulty(list.len() as int),
        c1.height == c2.height,
        c1.round == c2.round,
        certifies(c1.lock_votes@, VoteType::Precommit, c1.height, c1.round, c1.proposal@, list),
        certifies(c2.lock_votes@, VoteType::Precommit, c2.height, c2.round, c2.proposal@, list),
        forall|i: int, j: int|
            0 <= i < c1.lock_votes.len() && 0 <= j < c2.lock_votes.len() && (
            #[trigger] c1.lock_votes@[i]).voter@ == (#[trigger] c2.lock_votes@[j]).voter@
                && !faulty.contains(c1.lock_votes@[i].voter@) ==> c1.lock_votes@[i].proposal@
                == c2.lock_votes@[j].proposal@,
    ensures
        c1.proposal@ == c2.proposal@,
{
    let v1 = voters_of(c1.lock_votes@);
    let v2 = voters_of(c2.lock_votes@);
    assert(v1.no_duplicates());
    assert(v2.no_duplicates());
    v1.unique_seq_to_set();
    v2.unique_seq_to_set();
    list.unique_seq_to_set();
    let s1 = v1.to_set();
    let s2 = v2.to_set();
    let all = list.to_set();
    assert(s1.subset_of(all)) by {
        assert forall|x: Seq<u8>| s1.contains(x) implies all.contains(x) by {
            let i = choose|i: int| 0 <= i < v1.len() && v1[i] == x;
            assert(c1.lock_votes@[i].voter@ == x);
        }
    }
    assert(s2.subset_of(all)) by {
        assert forall|x: Seq<u8>| s2.contains(x) implies all.contains(x) by {
            let i = choose|i: int| 0 <= i < v2.len() && v2[i] == x;
            assert(c2.lock_votes@[i].voter@ == x);
        }
    }
    vstd::set_lib::lemma_len_subset(s1, all);
    vstd::set_lib::lemma_len_subset(s2, all);
    vstd::set_lib::lemma_len_subset(s1 + s2, all);
    vstd::set_lib::lemma_set_intersect_union_lens(s1, s2);
    let both = s1.intersect(s2);
    let good = both.difference(faulty);
    assert(both.subset_of(good + faulty));
    vstd::set_lib::lemma_len_union(good, faulty);
    vstd::set_lib::lemma_len_subset(both, good + faulty);
    assert(good.len() > 0);
    let x = good.choose();
    assert(good.contains(x));
    let i = choose|i: int| 0 <= i < v1.len() && v1[i] == x;
    let j = choose|j: int| 0 <= j < v2.len() && v2[j] == x;
    assert(c1.lock_votes@[i].voter@ == c2.lock_votes@[j].voter@);
}

/// Two votes with the same fields.
pub open spec fn same_vote(a: Vote, b: Vote) -> bool {
    &&& a.vote_type == b.vote_type
    &&& a.height == b.height
    &&& a.round == b.round
    &&& a.proposal@ == b.proposal@
    &&& a.voter@ == b.voter@
}

/// A copy of `votes`.
pub fn copy_votes(votes: &Vec<Vote>) -> (r: Vec<Vote>)
    ensures
        r.len() == votes.len(),
        forall|i: int| 0 <= i < r.len() ==> same_vote(#[trigger] r@[i], votes@[i]),
{
    let mut out: Vec<Vote> = Vec::new();
    let mut i: usize = 0;
    while i < votes.len()
        invariant
            i <= votes.len(),
            out.len() == i,
            forall|k: int| 0 <= k < i ==> same_vote(#[trigger] out@[k], votes@[k]),
        decreases votes.len() - i,
    {
        let v = &votes[i];
        out.push(
            Vote {
                vote_type: v.vote_type,
                height: v.height,
                round: v.round,
                proposal: copy_bytes(&v.proposal),
                voter: copy_bytes(&v.voter),
            },
        );
        i = i + 1;
    }
    out
}

/// The quorum size among `n` authorities.
pub fn quorum_size(n: usize) -> (r: usize)
    ensures
        r == quorum(n as int),
{
    if n >= 1 {
        2 * ((n - 1) / 3) + 1
    } else {
        1
    }
}

/// The proposer of `height` and `round`: the authority at `(height + round) mod n`.
pub fn selected_proposer(authority_list: &Vec<Address>, height: u64, round: u64) -> (r: Address)
    requires
        authority_list.len() > 0,
    ensures
        r@ == authority_list@[(height as int + round as int) % (authority_list.len() as int)]@,
{
    let n = authority_list.len() as u128;
    let i = ((height as u128 + round as u128) % n) as usize;
    copy_bytes(&authority_list[i])
}

/// Whether `a` is in `authority_list`.
pub fn is_authority(authority_list: &Vec<Address>, a: &Address) -> (r: bool)
    ensures
        r == addrs(authority_list@).contains(a@),
{
    let mut i: usize = 0;
    while i < authority_list.len()
        invariant
            i <= authority_list.len(),
            forall|k: int| 0 <= k < i ==> authority_list@[k]@ != a@,
        decreases authority_list.len() - i,
    {
        if bytes_eq(&authority_list[i], a) {
            assert(addrs(authority_list@)[i as int] == a@);
            return true;
        }
        i = i + 1;
    }
    proof {
        if addrs(authority_list@).contains(a@) {
            let k = choose|k: int| 0 <= k < addrs(authority_list@).len() && addrs(authority_list@)[k] == a@;
            assert(authority_list@[k]@ == a@);
        }
    }
    false
}

/// Checks that the lock round and the lock votes of `p` agree, among `n`
/// authorities; otherwise the proposal is illegal at its height and round.
pub fn validate_proposal(p: &Proposal, n: usize) -> (r: Result<(), BftError>)
    ensures
        r is Ok == lock_coherent(*p, n as int),
        r is Err ==> r == Err::<(), BftError>(BftError::ProposalIllegal(p.height, p.round)),
{
    let q = quorum_size(n);
    let votes_ok = match &p.lock_votes {
        Some(v) => v.len() >= q,
        None => false,
    };
    if p.lock_round.is_some() == votes_ok {
        Ok(())
    } else {
        Err(BftError::ProposalIllegal(p.height, p.round))
    }
}

/// Whether `votes` certify `content` as `certifies` states, over
/// `authority_list`.
pub fn check_certificate(
    votes: &Vec<Vote>,
    t: VoteType,
    height: u64,
    round: u64,
    content: &Target,
    authority_list: &Vec<Address>,
) -> (r: bool)
    ensures
        r == certifies(votes@, t, height, round, content@, addrs(authority_list@)),
{
    let list = Ghost(addrs(authority_list@));
    if votes.len() < quorum_size(authority_list.len()) {
        return false;
    }
    let mut i: usize = 0;
    while i < votes.len()
        invariant
            i <= votes.len(),
            list@ == addrs(authority_list@),
            votes.len() >= quorum(authority_list.len() as int),
            forall|k: int|
                0 <= k < i ==> {
                    &&& (#[trigger] votes@[k]).vote_type == t
                    &&& votes@[k].height == height
                    &&& votes@[k].round == round
                    &&& votes@[k].proposal@ == content@
                    &&& list@.contains(votes@[k].voter@)
                },
            forall|a: int, b: int| 0 <= a < b < i ==> votes@[a].voter@ != votes@[b].voter@,
        decreases votes.len() - i,
    {
        let v = &votes[i];
        proof {
            assert(votes@[i as int] == *v);
        }
        if v.vote_type != t || v.height != height || v.round != round || !bytes_eq(
            &v.proposal,
            content,
        ) || !is_authority(authority_list, &v.voter) {
            return false;
        }
        let mut j: usize = 0;
        while j < i
            invariant
                j <= i < votes.len(),
                *v == votes@[i as int],
                forall|a: int| 0 <= a < j ==> votes@[a].voter@ != votes@[i as int].voter@,
            decreases i - j,
        {
            if bytes_eq(&votes[j].voter, &v.voter) {
                proof {
                    assert(votes@[j as int].voter@ == votes@[i as int].voter@);
                }
                return false;
            }
            j = j + 1;
        }
        i = i + 1;
    }
    true
}

/// Whether the proof-of-lock-change of `p`, if any, is a quorum of prevotes
/// of `authority_list` for its content at its lock round.
pub fn check_polc(p: &Proposal, authority_list: &Vec<Address>) -> (r: bool)
    ensures
        r == polc_valid(*p, addrs(authority_list@)),
{
    match (p.lock_round, &p.lock_votes) {
        (None, None) => true,
        (Some(lr), Some(v)) => check_certificate(
            v,
            VoteType::Prevote,
            p.height,
            lr,
            &p.content,
            authority_list,
        ),
        _ => false,
    }
}

/// The votes of `set` for `proposal` whose voters are in `authority_list`, as
/// votes of type `t` at `height` and `round`, in arrival order.
pub fn authorized_votes(
    set: &VoteSet,
    t: VoteType,
    height: u64,
    round: u64,
    proposal: &Target,
    authority_list: &Vec<Address>,
) -> (r: Vec<Vote>)
    ensures
        r.len() == authorized_voters(set@, proposal@, addrs(authority_list@)).len(),
        forall|i: int|
            0 <= i < r.len() ==> {
                &&& (#[trigger] r[i]).voter@ == authorized_voters(
                    set@,
                    proposal@,
                    addrs(authority_list@),
                )[i]
                &&& r[i].proposal@ == proposal@
                &&& r[i].height == height
                &&& r[i].round == round
                &&& r[i].vote_type == t
            },
{
    let list = Ghost(addrs(authority_list@));
    let mut out: Vec<Vote> = Vec::new();
    let mut i: usize = 0;
    while i < set.votes_by_sender.len()
        invariant
            i <= set.votes_by_sender.len(),
            list@ == addrs(authority_list@),
            out.len() == authorized_voters(set@.take(i as int), proposal@, list@).len(),
            forall|k: int|
                0 <= k < out.len() ==> {
                    &&& (#[trigger] out[k]).voter@ == authorized_voters(
                        set@.take(i as int),
                        proposal@,
                        list@,
                    )[k]
                    &&& out[k].proposal@ == proposal@
                    &&& out[k].height == height
                    &&& out[k].round == round
                    &&& out[k].vote_type == t
                },
        decreases set.votes_by_sender.len() - i,
    {
        proof {
            assert(set@.take(i + 1).drop_last() =~= set@.take(i as int));
        }
        let entry = &set.votes_by_sender[i];
        if bytes_eq(&entry.1, proposal) && is_authority(authority_list, &entry.0) {
            out.push(
                Vote {
                    vote_type: t,
                    height,
                    round,
                    proposal: copy_bytes(proposal),
                    voter: copy_bytes(&entry.0),
                },
            );
        }
        i = i + 1;
    }
    assert(set@.take(i as int) =~= set@);
    out
}

/// The commit of `proposal` at `height` and `round` by `address`, where the
/// precommits `precommits` of the authorities in `authority_list` for it
/// reach a quorum and it is not the empty target.
pub fn try_commit(
    height: u64,
    round: u64,
    proposal: &Target,
    precommits: &VoteSet,
    authority_list: &Vec<Address>,
    address: &Address,
) -> (r: Option<Commit>)
    requires
        precommits.wf(),
    ensures
        r is Some == (proposal@.len() > 0 && authorized_voters(
            precommits@,
            proposal@,
            addrs(authority_list@),
        ).len() >= quorum(authority_list.len() as int)),
        r matches Some(c) ==> {
            &&& c.height == height
            &&& c.round == round
            &&& c.proposal@ == proposal@
            &&& c.address@ == address@
            &&& certifies(
                c.lock_votes@,
                VoteType::Precommit,
                height,
                round,
                proposal@,
                addrs(authority_list@),
            )
        },
{
    let votes = authorized_votes(
        precommits,
        VoteType::Precommit,
        height,
        round,
        proposal,
        authority_list,
    );
    if proposal.len() == 0 || votes.len() < quorum_size(authority_list.len()) {
        return None;
    }
    proof {
        lemma_authorized_voters_distinct(precommits@, proposal@, addrs(authority_list@));
    }
    Some(
        Commit {
            height,
            round,
            proposal: copy_bytes(proposal),
            lock_votes: votes,
            address: copy_bytes(address),
        },
    )
}

/// The lock after the prevotes `prevotes` of `height` and `round`. Taking
/// the proposals in the order in which they were first voted for, at the
/// first one whose prevotes from `authority_list` reach a quorum: the empty
/// target clears the lock; another proposal becomes the lock, with those
/// prevotes, unless the lock is of a later round. Without such a proposal the
/// lock stays.
pub fn update_lock(
    lock: Option<LockStatus>,
    height: u64,
    round: u64,
    prevotes: &VoteSet,
    authority_list: &Vec<Address>,
) -> (r: Option<LockStatus>)
    requires
        prevotes.wf(),
    ensures
        (forall|t: Seq<u8>|
            authorized_voters(prevotes@, t, addrs(authority_list@)).len() < quorum(
                authority_list.len() as int,
            )) ==> r == lock,
        (exists|t: Seq<u8>|
            authorized_voters(prevotes@, t, addrs(authority_list@)).len() >= quorum(
                authority_list.len() as int,
            )) && (lock is None || lock.unwrap().round <= round) ==> match r {
            None => true,
            Some(l) => l.round == round && certifies(
                l.votes@,
                VoteType::Prevote,
                height,
                round,
                l.proposal@,
                addrs(authority_list@),
            ),
        },
        r matches Some(l) ==> r == lock || {
            &&& l.round == round
            &&& l.proposal@.len() > 0
            &&& lock matches Some(o) ==> o.round <= round
            &&& certifies(
                l.votes@,
                VoteType::Prevote,
                height,
                round,
                l.proposal@,
                addrs(authority_list@),
            )
        },
        r is None && lock is Some ==> authorized_voters(
            prevotes@,
            Seq::empty(),
            addrs(authority_list@),
        ).len() >= quorum(authority_list.len() as int),
        (lock is None || lock.unwrap().round <= round) && authorized_voters(
            prevotes@,
            Seq::empty(),
            addrs(authority_list@),
        ).len() < quorum(authority_list.len() as int) && (exists|t: Seq<u8>|
            t.len() > 0 && authorized_voters(prevotes@, t, addrs(authority_list@)).len() >= quorum(
                authority_list.len() as int,
            )) ==> r is Some && r.unwrap().round == round && r.unwrap().proposal@.len() > 0
            && certifies(
            r.unwrap().votes@,
            VoteType::Prevote,
            height,
            round,
            r.unwrap().proposal@,
            addrs(authority_list@),
        ),
        authorized_voters(prevotes@, Seq::empty(), addrs(authority_list@)).len() >= quorum(
            authority_list.len() as int,
        ) && (forall|t: Seq<u8>|
            t.len() > 0 ==> authorized_voters(prevotes@, t, addrs(authority_list@)).len() < quorum(
                authority_list.len() as int,
            )) ==> r is None,
{
    let ghost list = addrs(authority_list@);
    let q = quorum_size(authority_list.len());
    let can_lock = match &lock {
        Some(l) => l.round <= round,
        None => true,
    };
    let mut j: usize = 0;
    while j < prevotes.votes_by_proposal.len()
        invariant
            prevotes.wf(),
            j <= prevotes.votes_by_proposal.len(),
            q == quorum(authority_list.len() as int),
            list == addrs(authority_list@),
            can_lock == (lock is None || lock.unwrap().round <= round),
            forall|k: int|
                0 <= k < j ==> authorized_voters(prevotes@, #[trigger] prevotes.tallies()[k].0, list).len()
                    < q || (!can_lock && prevotes.tallies()[k].0.len() > 0),
        decreases prevotes.votes_by_proposal.len() - j,
    {
        let t = &prevotes.votes_by_proposal[j].0;
        let votes = authorized_votes(prevotes, VoteType::Prevote, height, round, t, authority_list);
        if votes.len() >= q {
            if t.len() == 0 {
                proof {
                    assert(t@ =~= Seq::<u8>::empty());
                }
                return None;
            } else if can_lock {
                proof {
                    lemma_authorized_voters_distinct(prevotes@, t@, list);
                }
                let l = LockStatus { proposal: copy_bytes(t), round, votes };
                return Some(l);
            }
        }
        j = j + 1;
    }
    proof {
        assert forall|t: Seq<u8>| #[trigger] authorized_voters(prevotes@, t, list).len() >= q
            implies !can_lock && t.len() > 0 by {
            lemma_authorized_voters_nonempty(prevotes@, t, list);
            let i = choose|i: int| 0 <= i < prevotes@.len() && prevotes@[i].1 == t;
            assert(prevotes.has_tally(prevotes@[i].1));
            let k = choose|k: int|
                0 <= k < prevotes.tallies().len() && prevotes.tallies()[k].0 == t;
        }
    }
    lock
}

/// The state of the consensus at one node: where it stands, what it is
/// locked on, and who the authorities are.
pub struct ConsensusState {
    /// The height being decided.
    pub height: u64,
    /// The round within the height.
    pub round: u64,
    /// The step within the round.
    pub step: Step,
    /// The strongest prevote quorum seen in this height.
    pub lock: Option<LockStatus>,
    /// The authorities of this height, in proposer order.
    pub authority_list: Vec<Address>,
    /// This node's address.
    pub address: Address,
    /// The step interval.
    pub interval: u64,
}

impl ConsensusState {
    /// The state that follows the status `status`: the next height, its first
    /// round, without a lock, with the status's authorities, and with its
    /// interval, or `interval` where it gives none.
    pub fn from_status(status: Status, address: Address, interval: u64) -> (r: ConsensusState)
        requires
            status.height < u64::MAX,
        ensures
            r.height == status.height + 1,
            r.round == 0,
            r.step == Step::Propose,
            r.lock is None,
            r.authority_list@ == status.authority_list@,
            r.address@ == address@,
            r.interval == match status.interval {
                Some(i) => i,
                None => interval,
            },
    {
        let interval = match status.interval {
            Some(i) => i,
            None => interval,
        };
        ConsensusState {
            height: status.height + 1,
            round: 0,
            step: Step::Propose,
            lock: None,
            authority_list: status.authority_list,
            address,
            interval,
        }
    }

    /// Takes `status` where it is for the current height: moves to the first
    /// round of the next height, drops the lock, takes the status's
    /// authorities and its interval where it gives one. Returns whether it
    /// was taken; a status of another height changes nothing.
    pub fn apply_status(&mut self, status: Status) -> (r: bool)
        requires
            old(self).height < u64::MAX,
        ensures
            r == (status.height == old(self).height),
            r ==> {
                &&& final(self).height == old(self).height + 1
                &&& final(self).round == 0
                &&& final(self).step == Step::Propose
                &&& final(self).lock is None
                &&& final(self).authority_list@ == status.authority_list@
                &&& final(self).address == old(self).address
                &&& final(self).interval == match status.interval {
                    Some(i) => i,
                    None => old(self).interval,
                }
            },
            !r ==> *final(self) == *old(self),
    {
        if status.height != self.height {
            return false;
        }
        self.height = status.height + 1;
        self.round = 0;
        self.step = Step::Propose;
        self.lock = None;
        self.authority_list = status.authority_list;
        if let Some(i) = status.interval {
            self.interval = i;
        }
        true
    }

    /// Moves to the start of the next round, keeping the lock.
    pub fn next_round(&mut self)
        requires
            old(self).round < u64::MAX,
        ensures
            final(self).round == old(self).round + 1,
            final(self).step == Step::Propose,
            final(self).height == old(self).height,
            final(self).lock == old(self).lock,
            final(self).authority_list == old(self).authority_list,
            final(self).address == old(self).address,
            final(self).interval == old(self).interval,
    {
        self.round = self.round + 1;
        self.step = Step::Propose;
    }

    /// Acts on a timer that fired with `info`. A stale tag, one that does
    /// not match the current height, round and step, changes nothing.
    /// Otherwise: the propose timer moves to prevote; the prevote timers move
    /// to precommit; the precommit timers, with no majority, move to the
    /// next round; the commit timers retry the commit. Returns whether the
    /// tag was current.
    pub fn on_timeout(&mut self, info: &TimeoutInfo) -> (r: bool)
        requires
            old(self).round < u64::MAX,
        ensures
            r == (info.height == old(self).height && info.round == old(self).round && info.step
                == old(self).step),
            !r ==> *final(self) == *old(self),
            r ==> final(self).height == old(self).height && final(self).lock == old(self).lock
                && final(self).authority_list == old(self).authority_list && final(self).address
                == old(self).address && final(self).interval == old(self).interval,
            r ==> match info.step {
                Step::Propose => final(self).step == Step::Prevote && final(self).round == old(
                    self,
                ).round,
                Step::Prevote | Step::PrevoteWait => final(self).step == Step::Precommit
                    && final(self).round == old(self).round,
                Step::Precommit | Step::PrecommitWait => final(self).step == Step::Propose
                    && final(self).round == old(self).round + 1,
                Step::Commit | Step::CommitWait => final(self).step == Step::Commit
                    && final(self).round == old(self).round,
            },
    {
        if is_stale(info, self.height, self.round, self.step) {
            return false;
        }
        match info.step {
            Step::Propose => self.step = Step::Prevote,
            Step::Prevote | Step::PrevoteWait => self.step = Step::Precommit,
            Step::Precommit | Step::PrecommitWait => self.next_round(),
            Step::Commit | Step::CommitWait => self.step = Step::Commit,
        }
        true
    }

    /// Takes the lock from the proof-of-lock-change that `p` carries: where
    /// `p` is of the current height, carries a lock round later than the
    /// lock's (or no lock is held), and its lock votes are a quorum of
    /// prevotes of the authorities for its content at that round, the lock
    /// becomes its content at that round with those votes. Returns whether
    /// the lock changed; otherwise nothing changes.
    pub fn lock_from_proposal(&mut self, p: &Proposal) -> (r: bool)
        ensures
            r == (p.height == old(self).height && p.lock_round is Some && polc_valid(
                *p,
                addrs(old(self).authority_list@),
            ) && (old(self).lock is None || old(self).lock.unwrap().round
                < p.lock_round.unwrap())),
            !r ==> *final(self) == *old(self),
            r ==> final(self).lock is Some && final(self).lock.unwrap().proposal@ == p.content@
                && final(self).lock.unwrap().round == p.lock_round.unwrap()
                && final(self).lock.unwrap().votes.len() == p.lock_votes.unwrap().len()
                && certifies(
                final(self).lock.unwrap().votes@,
                VoteType::Prevote,
                p.height,
                p.lock_round.unwrap(),
                p.content@,
                addrs(old(self).authority_list@),
            ),
            final(self).height == old(self).height,
            final(self).round == old(self).round,
            final(self).step == old(self).step,
            final(self).authority_list == old(self).authority_list,
            final(self).address == old(self).address,
            final(self).interval == old(self).interval,
    {
        if p.height != self.height {
            return false;
        }
        let lr = match p.lock_round {
            Some(lr) => lr,
            None => return false,
        };
        let later = match &self.lock {
            Some(l) => l.round < lr,
            None => true,
        };
        if !later || !check_polc(p, &self.authority_list) {
            return false;
        }
        let votes = match &p.lock_votes {
            Some(v) => v,
            None => return false,
        };
        let copied = copy_votes(votes);
        proof {
            let list = addrs(self.authority_list@);
            assert forall|i: int| 0 <= i < copied@.len() implies {
                &&& (#[trigger] copied@[i]).vote_type == VoteType::Prevote
                &&& copied@[i].height == p.height
                &&& copied@[i].round == lr
                &&& copied@[i].proposal@ == p.content@
                &&& list.contains(copied@[i].voter@)
            } by {
                assert(same_vote(copied@[i], votes@[i]));
            }
            assert forall|i: int, j: int| 0 <= i < j < copied@.len() implies copied@[i].voter@
                != copied@[j].voter@ by {
                assert(same_vote(copied@[i], votes@[i]));
                assert(same_vote(copied@[j], votes@[j]));
            }
        }
        self.lock = Some(LockStatus { proposal: copy_bytes(&p.content), round: lr, votes: copied });
        true
    }

    /// The proposer of the current height and round.
    pub fn proposer(&self) -> (r: Address)
        requires
            self.authority_list.len() > 0,
        ensures
            r@ == self.authority_list@[(self.height as int + self.round as int)
                % (self.authority_list.len() as int)]@,
    {
        selected_proposer(&self.authority_list, self.height, self.round)
    }

    /// What to prevote for: the locked proposal, else the content of the
    /// proposal accepted for this round, else the empty target.
    pub fn prevote_target(&self, accepted: &Option<Proposal>) -> (r: Target)
        ensures
            r@ == match self.lock {
                Some(l) => l.proposal@,
                None => match accepted {
                    Some(p) => p.content@,
                    None => Seq::empty(),
                },
            },
    {
        match &self.lock {
            Some(l) => copy_bytes(&l.proposal),
            None => match accepted {
                Some(p) => copy_bytes(&p.content),
                None => {
                    let r: Vec<u8> = Vec::new();
                    assert(r@ =~= Seq::<u8>::empty());
                    r
                },
            },
        }
    }

    /// What to precommit: the locked proposal, else the empty target.
    pub fn precommit_target(&self) -> (r: Target)
        ensures
            r@ == match self.lock {
                Some(l) => l.proposal@,
                None => Seq::empty(),
            },
    {
        match &self.lock {
            Some(l) => copy_bytes(&l.proposal),
            None => {
                let r: Vec<u8> = Vec::new();
                assert(r@ =~= Seq::<u8>::empty());
                r
            },
        }
    }

    /// Whether to act on `vote`: its voter is an authority, and it is not
    /// more than two rounds behind the current round of the current height.
    pub fn accepts_vote(&self, vote: &Vote) -> (r: bool)
        ensures
            r == (addrs(self.authority_list@).contains(vote.voter@) && !(vote.height == self.height
                && vote.round as int + 2 < self.round as int)),
    {
        if !is_authority(&self.authority_list, &vote.voter) {
            return false;
        }
        !(vote.height == self.height && (vote.round as u128) + 2 < self.round as u128)
    }

    /// Whether to act on `p`: it comes from the proposer of its height and
    /// round, and its proof-of-lock-change, if any, holds.
    pub fn accepts_proposal(&self, p: &Proposal) -> (r: bool)
        requires
            self.authority_list.len() > 0,
        ensures
            r == (p.proposer@ == self.authority_list@[(p.height as int + p.round as int)
                % (self.authority_list.len() as int)]@ && polc_valid(*p, addrs(self.authority_list@))),
    {
        let expected = selected_proposer(&self.authority_list, p.height, p.round);
        bytes_eq(&expected, &p.proposer) && check_polc(p, &self.authority_list)
    }

    /// The commit of the current height and round, where the precommits
    /// `precommits` of the authorities reach a quorum for a proposal other
    /// than the empty target; the first such proposal to be precommitted wins.
    pub fn decide_commit(&self, precommits: &VoteSet) -> (r: Option<Commit>)
        requires
            precommits.wf(),
        ensures
            r is None ==> forall|t: Seq<u8>|
                t.len() > 0 ==> authorized_voters(precommits@, t, addrs(self.authority_list@)).len()
                    < quorum(self.authority_list.len() as int),
            r matches Some(c) ==> {
                &&& c.height == self.height
                &&& c.round == self.round
                &&& c.proposal@.len() > 0
                &&& c.address@ == self.address@
                &&& certifies(
                    c.lock_votes@,
                    VoteType::Precommit,
                    self.height,
                    self.round,
                    c.proposal@,
                    addrs(self.authority_list@),
                )
            },
    {
        let ghost list = addrs(self.authority_list@);
        let ghost q = quorum(self.authority_list.len() as int);
        let mut j: usize = 0;
        while j < precommits.votes_by_proposal.len()
            invariant
                precommits.wf(),
                j <= precommits.votes_by_proposal.len(),
                list == addrs(self.authority_list@),
                q == quorum(self.authority_list.len() as int),
                forall|k: int|
                    0 <= k < j ==> #[trigger] precommits.tallies()[k].0.len() == 0
                        || authorized_voters(precommits@, precommits.tallies()[k].0, list).len() < q,
            decreases precommits.votes_by_proposal.len() - j,
        {
            let t = &precommits.votes_by_proposal[j].0;
            let c = try_commit(
                self.height,
                self.round,
                t,
                precommits,
                &self.authority_list,
                &self.address,
            );
            if c.is_some() {
                return c;
            }
            j = j + 1;
        }
        proof {
            assert forall|t: Seq<u8>| t.len() > 0 implies #[trigger] authorized_voters(
                precommits@,
                t,
                list,
            ).len() < q by {
                if authorized_voters(precommits@, t, list).len() >= q {
                    lemma_authorized_voters_nonempty(precommits@, t, list);
                    let i = choose|i: int| 0 <= i < precommits@.len() && precommits@[i].1 == t;
                    assert(precommits.has_tally(precommits@[i].1));
                    let k = choose|k: int|
                        0 <= k < precommits.tallies().len() && precommits.tallies()[k].0 == t;
                }
            }
        }
        None
    }

    /// Whether the precommits `precommits` of the authorities reach a quorum
    /// for the empty target, so that the round has failed.
    pub fn round_failed(&self, precommits: &VoteSet) -> (r: bool)
        ensures
            r == (authorized_voters(precommits@, Seq::empty(), addrs(self.authority_list@)).len()
                >= quorum(self.authority_list.len() as int)),
    {
        let empty: Vec<u8> = Vec::new();
        let votes = authorized_votes(
            precommits,
            VoteType::Precommit,
            self.height,
            self.round,
            &empty,
            &self.authority_list,
        );
        proof {
            assert(empty@ =~= Seq::<u8>::empty());
        }
        votes.len() >= quorum_size(self.authority_list.len())
    }
}

} // verus!
