//! Votes received, indexed by height, round and vote type.

use vstd::prelude::*;

use crate::{bytes_eq, copy_bytes, Address, Target, Vote, VoteType};
use lru_cache::LruCache;
use std::collections::HashMap;
use std::hash::{BuildHasher, Hash};

verus! {

/// The votes of a vote set as (voter, proposal) pairs, in arrival order.
pub type VoteSeq = Seq<(Seq<u8>, Seq<u8>)>;

/// How many of `votes` are for `t`.
pub open spec fn tally(votes: VoteSeq, t: Seq<u8>) -> nat
    decreases votes.len(),
{
    if votes.len() == 0 {
        0
    } else {
        tally(votes.drop_last(), t) + if votes.last().1 == t { 1nat } else { 0nat }
    }
}

/// The voters of the entries of `votes` that are for `t`, in arrival order.
pub open spec fn voters_for(votes: VoteSeq, t: Seq<u8>) -> Seq<Seq<u8>>
    decreases votes.len(),
{
    if votes.len() == 0 {
        Seq::empty()
    } else if votes.last().1 == t {
        voters_for(votes.drop_last(), t).push(votes.last().0)
    } else {
        voters_for(votes.drop_last(), t)
    }
}

/// Whether `a` has a vote in `votes`.
pub open spec fn has_voter(votes: VoteSeq, a: Seq<u8>) -> bool {
    exists|i: int| 0 <= i < votes.len() && votes[i].0 == a
}

/// No voter occurs twice.
pub open spec fn voters_distinct(votes: VoteSeq) -> bool {
    forall|i: int, j: int| 0 <= i < j < votes.len() ==> votes[i].0 != votes[j].0
}

/// Adding a vote adds one to the tally of its proposal and appends its
/// voter to the voters of that proposal.
pub proof fn lemma_tally_push(votes: VoteSeq, e: (Seq<u8>, Seq<u8>), t: Seq<u8>)
    ensures
        tally(votes.push(e), t) == tally(votes, t) + if e.1 == t { 1nat } else { 0nat },
        voters_for(votes.push(e), t) == if e.1 == t {
            voters_for(votes, t).push(e.0)
        } else {
            voters_for(votes, t)
        },
{
    assert(votes.push(e).drop_last() =~= votes);
}

/// A tally counts at most all the votes, and as many as its voters.
pub proof fn lemma_tally_bound(votes: VoteSeq, t: Seq<u8>)
    ensures
        tally(votes, t) <= votes.len(),
        voters_for(votes, t).len() == tally(votes, t),
    decreases votes.len(),
{
    if votes.len() > 0 {
        lemma_tally_bound(votes.drop_last(), t);
    }
}

/// The votes of one height, round and vote type: who voted for what, and how
/// many votes each proposal has.
#[derive(Clone, Debug)]
pub struct VoteSet {
    /// Each voter with the proposal it voted for, in arrival order.
    pub votes_by_sender: Vec<(Address, Target)>,
    /// Each proposal voted for with its number of votes.
    pub votes_by_proposal: Vec<(Target, usize)>,
    /// The number of votes.
    pub count: usize,
}

impl View for VoteSet {
    type V = VoteSeq;

    open spec fn view(&self) -> VoteSeq {
        self.votes_by_sender@.map_values(|e: (Address, Target)| (e.0@, e.1@))
    }
}

impl VoteSet {
    /// The tallies as (proposal, count) pairs.
    pub open spec fn tallies(&self) -> Seq<(Seq<u8>, nat)> {
        self.votes_by_proposal@.map_values(|e: (Target, usize)| (e.0@, e.1 as nat))
    }

    /// The count is the number of votes, each voter votes once, and each
    /// proposal voted for has one tally, which is its number of votes; no
    /// other proposal has one.
    pub open spec fn wf(&self) -> bool {
        &&& self.count as int == self@.len()
        &&& voters_distinct(self@)
        &&& forall|i: int, j: int|
            0 <= i < j < self.tallies().len() ==> self.tallies()[i].0 != self.tallies()[j].0
        &&& forall|i: int|
            0 <= i < self.tallies().len() ==> #[trigger] self.tallies()[i].1 == tally(
                self@,
                self.tallies()[i].0,
            ) && self.tallies()[i].1 > 0
        &&& forall|i: int| 0 <= i < self@.len() ==> self.has_tally(#[trigger] self@[i].1)
    }

    /// Whether `t` has a tally.
    pub open spec fn has_tally(&self, t: Seq<u8>) -> bool {
        exists|j: int| 0 <= j < self.tallies().len() && self.tallies()[j].0 == t
    }

    /// An empty vote set.
    pub fn new() -> (r: VoteSet)
        ensures
            r.wf(),
            r@ == Seq::<(Seq<u8>, Seq<u8>)>::empty(),
    {
        let r = VoteSet { votes_by_sender: Vec::new(), votes_by_proposal: Vec::new(), count: 0 };
        assert(r@ =~= Seq::<(Seq<u8>, Seq<u8>)>::empty());
        r
    }

    /// The position of `sender`'s vote, if it has one.
    fn find_sender(&self, sender: &Address) -> (r: Option<usize>)
        ensures
            match r {
                Some(i) => i < self@.len() && self@[i as int].0 == sender@,
                None => !has_voter(self@, sender@),
            },
    {
        let mut i: usize = 0;
        while i < self.votes_by_sender.len()
            invariant
                i <= self.votes_by_sender.len(),
                forall|k: int| 0 <= k < i ==> self@[k].0 != sender@,
            decreases self.votes_by_sender.len() - i,
        {
            if bytes_eq(&self.votes_by_sender[i].0, sender) {
                return Some(i);
            }
            i = i + 1;
        }
        None
    }

    /// The position of `proposal`'s tally, if it has one.
    fn find_proposal(&self, proposal: &Target) -> (r: Option<usize>)
        ensures
            match r {
                Some(i) => i < self.tallies().len() && self.tallies()[i as int].0 == proposal@,
                None => forall|k: int|
                    0 <= k < self.tallies().len() ==> self.tallies()[k].0 != proposal@,
            },
    {
        let mut i: usize = 0;
        while i < self.votes_by_proposal.len()
            invariant
                i <= self.votes_by_proposal.len(),
                forall|k: int| 0 <= k < i ==> self.tallies()[k].0 != proposal@,
            decreases self.votes_by_proposal.len() - i,
        {
            if bytes_eq(&self.votes_by_proposal[i].0, proposal) {
                return Some(i);
            }
            i = i + 1;
        }
        None
    }

    /// The number of votes for `proposal`.
    pub fn count_of(&self, proposal: &Target) -> (r: usize)
        requires
            self.wf(),
        ensures
            r == tally(self@, proposal@),
    {
        match self.find_proposal(proposal) {
            Some(i) => {
                assert(self.tallies()[i as int].1 == tally(self@, proposal@));
                self.votes_by_proposal[i].1
            },
            None => {
                proof {
                    if tally(self@, proposal@) > 0 {
                        lemma_tally_positive(self@, proposal@);
                    }
                }
                0
            },
        }
    }

    /// Adds `sender`'s vote for `vote`. The first vote of a sender is kept: a
    /// later one is refused. A set that already holds `usize::MAX` votes takes
    /// no more. Returns whether the vote was added.
    pub fn add(&mut self, sender: Address, vote: Target) -> (r: bool)
        requires
            old(self).wf(),
        ensures
            final(self).wf(),
            r == (!has_voter(old(self)@, sender@) && old(self)@.len() < usize::MAX),
            r ==> final(self)@ == old(self)@.push((sender@, vote@)),
            !r ==> final(self)@ == old(self)@,
    {
        if self.count == usize::MAX {
            return false;
        }
        if self.find_sender(&sender).is_some() {
            return false;
        }
        let ghost old_votes = self@;
        let ghost old_tallies = self.tallies();
        let ghost e = (sender@, vote@);
        let vote_copy = copy_bytes(&vote);
        self.votes_by_sender.push((sender, vote_copy));
        assert(self@ =~= old_votes.push(e));
        let ghost new_votes = self@;
        assert(voters_distinct(new_votes)) by {
            assert forall|i: int, j: int| 0 <= i < j < new_votes.len() implies new_votes[i].0
                != new_votes[j].0 by {
                if j == old_votes.len() {
                    assert(old_votes[i].0 == new_votes[i].0);
                }
            }
        }
        self.count = self.count + 1;
        proof {
            assert forall|t: Seq<u8>| #[trigger]
                tally(self@, t) == tally(old_votes, t) + if vote@ == t { 1nat } else { 0nat } by {
                lemma_tally_push(old_votes, e, t);
            }
            lemma_tally_bound(old_votes, vote@);
        }
        match self.find_proposal(&vote) {
            Some(j) => {
                let c = self.votes_by_proposal[j].1;
                assert(old(self).tallies()[j as int].1 == tally(
                    old(self)@,
                    old(self).tallies()[j as int].0,
                ));
                assert(c == tally(old_votes, vote@));
                self.votes_by_proposal.set(j, (vote, c + 1));
                assert forall|a: int, b: int| 0 <= a < b < self.tallies().len() implies
                    self.tallies()[a].0 != self.tallies()[b].0 by {
                    assert(old_tallies[a].0 != old_tallies[b].0);
                }
                assert forall|i: int| 0 <= i < self.tallies().len() implies #[trigger]
                    self.tallies()[i].1 == tally(self@, self.tallies()[i].0) && self.tallies()[i].1 > 0 by {
                    assert(self@ == new_votes);
                    lemma_tally_push(old_votes, e, self.tallies()[i].0);
                    if i != j {
                        assert(old_tallies[i].0 != old_tallies[j as int].0);
                        assert(old(self).tallies()[i].1 == tally(
                            old(self)@,
                            old(self).tallies()[i].0,
                        ) && old(self).tallies()[i].1 > 0);
                        assert(self.tallies()[i] == old_tallies[i]);
                    }
                }
                assert forall|i: int| 0 <= i < self@.len() implies self.has_tally(
                    #[trigger] self@[i].1,
                ) by {
                    if i < old_votes.len() {
                        assert(old_votes[i] == self@[i]);
                        assert(old(self).has_tally(old(self)@[i].1));
                        let k = choose|k: int|
                            0 <= k < old_tallies.len() && old_tallies[k].0 == old_votes[i].1;
                        assert(self.tallies()[k].0 == old_tallies[k].0);
                    } else {
                        assert(self.tallies()[j as int].0 == vote@);
                    }
                }
            },
            None => {
                proof {
                    if tally(old_votes, vote@) > 0 {
                        lemma_tally_positive(old_votes, vote@);
                        let i = choose|i: int| 0 <= i < old_votes.len() && old_votes[i].1 == vote@;
                        assert(old(self).has_tally(old(self)@[i].1));
                    }
                }
                assert(tally(old_votes, vote@) == 0);
                self.votes_by_proposal.push((vote, 1));
                assert forall|a: int, b: int| 0 <= a < b < self.tallies().len() implies
                    self.tallies()[a].0 != self.tallies()[b].0 by {
                    if b < old_tallies.len() {
                        assert(old_tallies[a].0 != old_tallies[b].0);
                    } else {
                        assert(self.tallies()[a] == old_tallies[a]);
                    }
                }
                assert forall|i: int| 0 <= i < self.tallies().len() implies #[trigger]
                    self.tallies()[i].1 == tally(self@, self.tallies()[i].0) && self.tallies()[i].1 > 0 by {
                    assert(self@ == new_votes);
                    lemma_tally_push(old_votes, e, self.tallies()[i].0);
                    if i < old_tallies.len() {
                        assert(old_tallies[i].0 != vote@);
                        assert(old(self).tallies()[i].1 == tally(
                            old(self)@,
                            old(self).tallies()[i].0,
                        ) && old(self).tallies()[i].1 > 0);
                        assert(self.tallies()[i] == old_tallies[i]);
                    }
                }
                assert forall|i: int| 0 <= i < self@.len() implies self.has_tally(
                    #[trigger] self@[i].1,
                ) by {
                    if i < old_votes.len() {
                        assert(old_votes[i] == self@[i]);
                        assert(old(self).has_tally(old(self)@[i].1));
                        let k = choose|k: int|
                            0 <= k < old_tallies.len() && old_tallies[k].0 == old_votes[i].1;
                        assert(self.tallies()[k].0 == old_tallies[k].0);
                    } else {
                        assert(self.tallies()[old_tallies.len() as int].0 == vote@);
                    }
                }
            },
        }
        assert(self@ == new_votes);
        true
    }

    /// The votes for `proposal`, as votes of the given type, height and round,
    /// one for each voter that voted for it, in arrival order.
    pub fn abstract_polc(
        &self,
        height: u64,
        round: u64,
        vote_type: VoteType,
        proposal: &Target,
    ) -> (r: Vec<Vote>)
        ensures
            r.len() == voters_for(self@, proposal@).len(),
            forall|i: int|
                0 <= i < r.len() ==> {
                    &&& (#[trigger] r[i]).voter@ == voters_for(self@, proposal@)[i]
                    &&& r[i].proposal@ == proposal@
                    &&& r[i].height == height
                    &&& r[i].round == round
                    &&& r[i].vote_type == vote_type
                },
    {
        let mut polc: Vec<Vote> = Vec::new();
        let mut i: usize = 0;
        while i < self.votes_by_sender.len()
            invariant
                i <= self.votes_by_sender.len(),
                polc.len() == voters_for(self@.take(i as int), proposal@).len(),
                forall|k: int|
                    0 <= k < polc.len() ==> {
                        &&& (#[trigger] polc[k]).voter@ == voters_for(self@.take(i as int), proposal@)[k]
                        &&& polc[k].proposal@ == proposal@
                        &&& polc[k].height == height
                        &&& polc[k].round == round
                        &&& polc[k].vote_type == vote_type
                    },
            decreases self.votes_by_sender.len() - i,
        {
            proof {
                assert(self@.take(i + 1).drop_last() =~= self@.take(i as int));
            }
            if bytes_eq(&self.votes_by_sender[i].1, proposal) {
                let v = Vote {
                    vote_type,
                    height,
                    round,
                    proposal: copy_bytes(proposal),
                    voter: copy_bytes(&self.votes_by_sender[i].0),
                };
                polc.push(v);
            }
            i = i + 1;
        }
        assert(self@.take(i as int) =~= self@);
        polc
    }

    /// A copy of this vote set.
    pub fn snapshot(&self) -> (r: VoteSet)
        requires
            self.wf(),
        ensures
            r.wf(),
            r@ == self@,
    {
        let mut by_sender: Vec<(Address, Target)> = Vec::new();
        let mut i: usize = 0;
        while i < self.votes_by_sender.len()
            invariant
                i <= self.votes_by_sender.len(),
                by_sender.len() == i,
                forall|k: int|
                    0 <= k < i ==> #[trigger] by_sender[k].0@ == self.votes_by_sender[k].0@
                        && by_sender[k].1@ == self.votes_by_sender[k].1@,
            decreases self.votes_by_sender.len() - i,
        {
            by_sender.push(
                (copy_bytes(&self.votes_by_sender[i].0), copy_bytes(&self.votes_by_sender[i].1)),
            );
            i = i + 1;
        }
        let mut by_proposal: Vec<(Target, usize)> = Vec::new();
        let mut j: usize = 0;
        while j < self.votes_by_proposal.len()
            invariant
                j <= self.votes_by_proposal.len(),
                by_proposal.len() == j,
                forall|k: int|
                    0 <= k < j ==> #[trigger] by_proposal[k].0@ == self.votes_by_proposal[k].0@
                        && by_proposal[k].1 == self.votes_by_proposal[k].1,
            decreases self.votes_by_proposal.len() - j,
        {
            by_proposal.push((copy_bytes(&self.votes_by_proposal[j].0), self.votes_by_proposal[j].1));
            j = j + 1;
        }
        let r = VoteSet { votes_by_sender: by_sender, votes_by_proposal: by_proposal, count: self.count };
        assert(r@ =~= self@);
        assert(r.tallies() =~= self.tallies());
        r
    }
}

/// A proposal with a positive tally is voted for by some entry.
pub proof fn lemma_tally_positive(votes: VoteSeq, t: Seq<u8>)
    requires
        tally(votes, t) > 0,
    ensures
        exists|i: int| 0 <= i < votes.len() && votes[i].1 == t,
    decreases votes.len(),
{
    if votes.last().1 == t {
        assert(votes[votes.len() - 1].1 == t);
    } else {
        lemma_tally_positive(votes.drop_last(), t);
        let i = choose|i: int| 0 <= i < votes.drop_last().len() && votes.drop_last()[i].1 == t;
        assert(votes[i].1 == t);
    }
}

/// The votes of an absent vote set.
pub open spec fn seq_of(s: Option<VoteSet>) -> VoteSeq {
    match s {
        Some(v) => v@,
        None => Seq::empty(),
    }
}

/// The vote sets of one round, one for each vote type that has votes.
#[derive(Debug)]
pub struct StepCollector {
    /// The prevotes, once one has come.
    pub prevotes: Option<VoteSet>,
    /// The precommits, once one has come.
    pub precommits: Option<VoteSet>,
}

impl StepCollector {
    /// The vote set of vote type `t`.
    pub open spec fn set_of(&self, t: VoteType) -> Option<VoteSet> {
        match t {
            VoteType::Prevote => self.prevotes,
            VoteType::Precommit => self.precommits,
        }
    }

    /// Both vote sets, where present, are well formed.
    pub open spec fn wf(&self) -> bool {
        &&& (self.prevotes matches Some(s) ==> s.wf())
        &&& (self.precommits matches Some(s) ==> s.wf())
    }

    /// A collector without votes.
    pub fn new() -> (r: StepCollector)
        ensures
            r.wf(),
            r.set_of(VoteType::Prevote) is None,
            r.set_of(VoteType::Precommit) is None,
    {
        StepCollector { prevotes: None, precommits: None }
    }

    /// Adds `sender`'s vote of type `vote_type` for `vote`, as `VoteSet::add`
    /// does on the set of that type. Returns whether it was added.
    pub fn add(&mut self, vote_type: VoteType, sender: Address, vote: Target) -> (r: bool)
        requires
            old(self).wf(),
        ensures
            final(self).wf(),
            final(self).set_of(vote_type) is Some,
            r == (!has_voter(seq_of(old(self).set_of(vote_type)), sender@) && seq_of(
                old(self).set_of(vote_type),
            ).len() < usize::MAX),
            seq_of(final(self).set_of(vote_type)) == if r {
                seq_of(old(self).set_of(vote_type)).push((sender@, vote@))
            } else {
                seq_of(old(self).set_of(vote_type))
            },
            forall|t: VoteType| t != vote_type ==> final(self).set_of(t) == old(self).set_of(t),
    {
        let slot = match vote_type {
            VoteType::Prevote => self.prevotes.take(),
            VoteType::Precommit => self.precommits.take(),
        };
        let mut set = match slot {
            Some(s) => s,
            None => VoteSet::new(),
        };
        let r = set.add(sender, vote);
        match vote_type {
            VoteType::Prevote => self.prevotes = Some(set),
            VoteType::Precommit => self.precommits = Some(set),
        }
        r
    }

    /// A copy of the vote set of type `vote_type`, if it has one.
    pub fn get_voteset(&self, vote_type: VoteType) -> (r: Option<VoteSet>)
        requires
            self.wf(),
        ensures
            r is Some == self.set_of(vote_type) is Some,
            r matches Some(s) ==> s.wf() && s@ == self.set_of(vote_type).unwrap()@,
    {
        let slot = match vote_type {
            VoteType::Prevote => &self.prevotes,
            VoteType::Precommit => &self.precommits,
        };
        match slot {
            Some(s) => Some(s.snapshot()),
            None => None,
        }
    }
}

/// The cache of lru_cache, opaque to proofs.
#[verifier::external_type_specification]
#[verifier::external_body]
#[verifier::reject_recursive_types(K)]
#[verifier::reject_recursive_types(V)]
#[verifier::reject_recursive_types(S)]
pub struct ExLruCache<K: Eq + Hash, V, S: BuildHasher>(LruCache<K, V, S>);

/// A cache of step collectors by round.
pub type RoundCache = LruCache<u64, StepCollector>;

/// The rounds that a round cache holds.
pub uninterp spec fn round_entries(c: RoundCache) -> Map<u64, StepCollector>;

/// The number of rounds that a round cache can hold.
pub uninterp spec fn round_capacity(c: RoundCache) -> nat;

/// Relies on lru_cache::LruCache::new: an empty cache of that capacity.
#[verifier::external_body]
fn round_cache_new(capacity: usize) -> (r: RoundCache)
    ensures
        round_entries(r).dom() =~= Set::empty(),
        round_capacity(r) == capacity,
{
    LruCache::new(capacity)
}

/// Relies on lru_cache::LruCache::remove: takes the entry of `k` out.
#[verifier::external_body]
fn round_cache_remove(c: &mut RoundCache, k: u64) -> (r: Option<StepCollector>)
    ensures
        round_entries(*final(c)) == round_entries(*old(c)).remove(k),
        round_capacity(*final(c)) == round_capacity(*old(c)),
        r == if round_entries(*old(c)).contains_key(k) {
            Some(round_entries(*old(c))[k])
        } else {
            None
        },
{
    c.remove(&k)
}

/// Relies on lru_cache::LruCache::insert: the entry goes in as the most
/// recently used; where that makes the cache hold more than its capacity, the
/// least recently used entry, another one, leaves.
#[verifier::external_body]
fn round_cache_insert(c: &mut RoundCache, k: u64, v: StepCollector)
    requires
        round_capacity(*old(c)) >= 1,
        round_entries(*old(c)).dom().finite(),
    ensures
        round_capacity(*final(c)) == round_capacity(*old(c)),
        round_entries(*old(c)).insert(k, v).len() <= round_capacity(*old(c)) ==> round_entries(
            *final(c),
        ) == round_entries(*old(c)).insert(k, v),
        round_entries(*old(c)).insert(k, v).len() > round_capacity(*old(c)) ==> exists|e: u64|
            e != k && round_entries(*old(c)).contains_key(e) && round_entries(*final(c))
                == round_entries(*old(c)).insert(k, v).remove(e),
{
    c.insert(k, v);
}

/// The number of rounds, and of heights, that a vote collector keeps.
pub const CACHE_CAPACITY: usize = 16;

/// Round to the vote sets of that round, for the most recently used rounds.
pub struct RoundCollector {
    /// The step collectors by round.
    pub round_votes: RoundCache,
}

impl RoundCollector {
    /// The step collectors kept, by round.
    pub open spec fn entries(&self) -> Map<u64, StepCollector> {
        round_entries(self.round_votes)
    }

    /// At most the cache's capacity of entries, each well formed.
    pub open spec fn wf(&self) -> bool {
        &&& self.entries().dom().finite()
        &&& self.entries().len() <= CACHE_CAPACITY
        &&& round_capacity(self.round_votes) == CACHE_CAPACITY
        &&& forall|r: u64| #[trigger] self.entries().contains_key(r) ==> self.entries()[r].wf()
    }

    /// The vote set of `round` and `t`, if it is kept.
    pub open spec fn set_at(&self, round: u64, t: VoteType) -> Option<VoteSet> {
        if self.entries().contains_key(round) {
            self.entries()[round].set_of(t)
        } else {
            None
        }
    }

    /// Whether a vote at `round` can come in without another round leaving:
    /// the round is kept already, or the cache has room.
    pub open spec fn admits(&self, round: u64) -> bool {
        self.entries().contains_key(round) || self.entries().len() < CACHE_CAPACITY
    }

    /// A collector without votes.
    pub fn new() -> (r: RoundCollector)
        ensures
            r.wf(),
            r.entries().dom() =~= Set::<u64>::empty(),
            forall|round: u64, t: VoteType| r.set_at(round, t) is None,
    {
        RoundCollector { round_votes: round_cache_new(CACHE_CAPACITY) }
    }

    /// Puts `sc` back as the entry of `round`.
    fn put(&mut self, round: u64, sc: StepCollector)
        requires
            old(self).wf(),
            sc.wf(),
            !old(self).entries().contains_key(round),
        ensures
            final(self).wf(),
            final(self).entries().contains_key(round),
            final(self).entries()[round] == sc,
            forall|x: u64|
                x != round && #[trigger] final(self).entries().contains_key(x) ==> old(
                    self,
                ).entries().contains_key(x) && final(self).entries()[x] == old(self).entries()[x],
            old(self).entries().len() < CACHE_CAPACITY ==> final(self).entries() == old(
                self,
            ).entries().insert(round, sc),
    {
        let ghost before = self.entries();
        round_cache_insert(&mut self.round_votes, round, sc);
        proof {
            let ins = before.insert(round, sc);
            assert(ins.len() == before.len() + 1);
            if ins.len() > CACHE_CAPACITY {
                let e = choose|e: u64|
                    e != round && before.contains_key(e) && self.entries() == ins.remove(e);
                assert(self.entries().len() == ins.len() - 1);
            }
        }
    }

    /// Adds `sender`'s vote of type `vote_type` at `round` for `vote`.
    /// Returns whether it was added: it is refused where that vote set already
    /// has a vote of `sender`.
    pub fn add(&mut self, round: u64, vote_type: VoteType, sender: Address, vote: Target) -> (r: bool)
        requires
            old(self).wf(),
        ensures
            final(self).wf(),
            final(self).set_at(round, vote_type) is Some,
            r == (!has_voter(seq_of(old(self).set_at(round, vote_type)), sender@) && seq_of(
                old(self).set_at(round, vote_type),
            ).len() < usize::MAX),
            seq_of(final(self).set_at(round, vote_type)) == if r {
                seq_of(old(self).set_at(round, vote_type)).push((sender@, vote@))
            } else {
                seq_of(old(self).set_at(round, vote_type))
            },
            forall|x: u64, t: VoteType|
                (x != round || t != vote_type) && (#[trigger] final(self).set_at(x, t)) is Some
                    ==> final(self).set_at(x, t) == old(self).set_at(x, t),
            old(self).admits(round) ==> forall|x: u64, t: VoteType|
                (x != round || t != vote_type)
                    ==> #[trigger] final(self).set_at(x, t) == old(self).set_at(x, t),
    {
        proof {
            if old(self).entries().contains_key(round) {
                assert(old(self).entries().remove(round).len() == old(self).entries().len() - 1);
            }
        }
        let mut sc = match round_cache_remove(&mut self.round_votes, round) {
            Some(sc) => sc,
            None => StepCollector::new(),
        };
        let r = sc.add(vote_type, sender, vote);
        let ghost removed = self.entries();
        self.put(round, sc);
        proof {
            if old(self).admits(round) {
                assert(self.entries() == removed.insert(round, sc));
                assert forall|x: u64, t: VoteType|
                    (x != round || t != vote_type) implies #[trigger] self.set_at(x, t) == old(
                        self,
                    ).set_at(x, t) by {
                    if x != round {
                        assert(removed == old(self).entries().remove(round));
                    }
                }
            }
        }
        r
    }

    /// A copy of the vote set of `round` and `vote_type`, if it is kept.
    pub fn get_voteset(&mut self, round: u64, vote_type: VoteType) -> (r: Option<VoteSet>)
        requires
            old(self).wf(),
        ensures
            final(self).wf(),
            final(self).entries() == old(self).entries(),
            r is Some == old(self).set_at(round, vote_type) is Some,
            r matches Some(s) ==> s.wf() && s@ == old(self).set_at(round, vote_type).unwrap()@,
    {
        match round_cache_remove(&mut self.round_votes, round) {
            Some(sc) => {
                let r = sc.get_voteset(vote_type);
                self.put(round, sc);
                proof {
                    assert(self.entries() =~= old(self).entries());
                }
                r
            },
            None => None,
        }
    }
}

/// A cache of round collectors by height.
pub type HeightCache = LruCache<u64, RoundCollector>;

/// The heights that a height cache holds.
pub uninterp spec fn height_entries(c: HeightCache) -> Map<u64, RoundCollector>;

/// The number of heights that a height cache can hold.
pub uninterp spec fn height_capacity(c: HeightCache) -> nat;

/// Relies on lru_cache::LruCache::new: an empty cache of that capacity.
#[verifier::external_body]
fn height_cache_new(capacity: usize) -> (r: HeightCache)
    ensures
        height_entries(r).dom() =~= Set::empty(),
        height_capacity(r) == capacity,
{
    LruCache::new(capacity)
}

/// Relies on lru_cache::LruCache::remove: takes the entry of `k` out.
#[verifier::external_body]
fn height_cache_remove(c: &mut HeightCache, k: u64) -> (r: Option<RoundCollector>)
    ensures
        height_entries(*final(c)) == height_entries(*old(c)).remove(k),
        height_capacity(*final(c)) == height_capacity(*old(c)),
        r == if height_entries(*old(c)).contains_key(k) {
            Some(height_entries(*old(c))[k])
        } else {
            None
        },
{
    c.remove(&k)
}

/// Relies on lru_cache::LruCache::insert: the entry goes in as the most
/// recently used; where that makes the cache hold more than its capacity, the
/// least recently used entry, another one, leaves.
#[verifier::external_body]
fn height_cache_insert(c: &mut HeightCache, k: u64, v: RoundCollector)
    requires
        height_capacity(*old(c)) >= 1,
        height_entries(*old(c)).dom().finite(),
    ensures
        height_capacity(*final(c)) == height_capacity(*old(c)),
        height_entries(*old(c)).insert(k, v).len() <= height_capacity(*old(c)) ==> height_entries(
            *final(c),
        ) == height_entries(*old(c)).insert(k, v),
        height_entries(*old(c)).insert(k, v).len() > height_capacity(*old(c)) ==> exists|e: u64|
            e != k && height_entries(*old(c)).contains_key(e) && height_entries(*final(c))
                == height_entries(*old(c)).insert(k, v).remove(e),
{
    c.insert(k, v);
}

/// `m` with the count of `k` one higher (from zero where it has none),
/// staying at `usize::MAX` once there.
pub open spec fn bumped(m: Map<u64, usize>, k: u64) -> Map<u64, usize> {
    let c: int = if m.contains_key(k) { m[k] as int } else { 0 };
    m.insert(k, if c < usize::MAX { (c + 1) as usize } else { usize::MAX })
}

/// All votes received, by height, round and vote type, for the most recently
/// used heights and rounds, with the number of prevotes added for each round.
pub struct VoteCollector {
    /// The round collectors by height.
    pub votes: HeightCache,
    /// The number of prevotes added, by round.
    pub prevote_count: HashMap<u64, usize>,
}

impl VoteCollector {
    /// The round collectors kept, by height.
    pub open spec fn entries(&self) -> Map<u64, RoundCollector> {
        height_entries(self.votes)
    }

    /// At most the cache's capacity of entries, each well formed.
    pub open spec fn wf(&self) -> bool {
        &&& self.entries().dom().finite()
        &&& self.entries().len() <= CACHE_CAPACITY
        &&& height_capacity(self.votes) == CACHE_CAPACITY
        &&& forall|h: u64| #[trigger] self.entries().contains_key(h) ==> self.entries()[h].wf()
    }

    /// The vote set of `height`, `round` and `t`, if it is kept.
    pub open spec fn set_at(&self, height: u64, round: u64, t: VoteType) -> Option<VoteSet> {
        if self.entries().contains_key(height) {
            self.entries()[height].set_at(round, t)
        } else {
            None
        }
    }

    /// Whether a vote at `height` and `round` can come in without another
    /// height or round leaving: each is kept already, or its cache has room.
    pub open spec fn admits(&self, height: u64, round: u64) -> bool {
        &&& (self.entries().contains_key(height) || self.entries().len() < CACHE_CAPACITY)
        &&& (self.entries().contains_key(height) ==> self.entries()[height].admits(round))
    }

    /// A collector without votes.
    pub fn new() -> (r: VoteCollector)
        ensures
            r.wf(),
            r.entries().dom() =~= Set::<u64>::empty(),
            forall|h: u64, round: u64, t: VoteType| r.set_at(h, round, t) is None,
            r.prevote_count@ == Map::<u64, usize>::empty(),
    {
        VoteCollector { votes: height_cache_new(CACHE_CAPACITY), prevote_count: HashMap::new() }
    }

    /// Puts `rc` back as the entry of `height`.
    fn put(&mut self, height: u64, rc: RoundCollector)
        requires
            old(self).wf(),
            rc.wf(),
            !old(self).entries().contains_key(height),
        ensures
            final(self).wf(),
            final(self).prevote_count == old(self).prevote_count,
            final(self).entries().contains_key(height),
            final(self).entries()[height] == rc,
            forall|x: u64|
                x != height && #[trigger] final(self).entries().contains_key(x) ==> old(
                    self,
                ).entries().contains_key(x) && final(self).entries()[x] == old(self).entries()[x],
            old(self).entries().len() < CACHE_CAPACITY ==> final(self).entries() == old(
                self,
            ).entries().insert(height, rc),
    {
        let ghost before = self.entries();
        height_cache_insert(&mut self.votes, height, rc);
        proof {
            let ins = before.insert(height, rc);
            assert(ins.len() == before.len() + 1);
            if ins.len() > CACHE_CAPACITY {
                let e = choose|e: u64|
                    e != height && before.contains_key(e) && self.entries() == ins.remove(e);
                assert(self.entries().len() == ins.len() - 1);
            }
        }
    }

    /// Counts one more prevote at `round`.
    fn bump_prevotes(&mut self, round: u64)
        ensures
            final(self).prevote_count@ == bumped(old(self).prevote_count@, round),
            final(self).votes == old(self).votes,
    {
        let c: usize = match self.prevote_count.get(&round) {
            Some(c) => *c,
            None => 0,
        };
        let n: usize = if c < usize::MAX { c + 1 } else { c };
        self.prevote_count.insert(round, n);
    }

    /// Adds `vote`. Returns whether it was added: it is refused where the vote
    /// set of its height, round and type already has a vote of its voter. Each
    /// prevote added counts at its round.
    pub fn add(&mut self, vote: Vote) -> (r: bool)
        requires
            old(self).wf(),
        ensures
            final(self).wf(),
            final(self).set_at(vote.height, vote.round, vote.vote_type) is Some,
            r == (!has_voter(seq_of(old(self).set_at(vote.height, vote.round, vote.vote_type)), vote.voter@)
                && seq_of(old(self).set_at(vote.height, vote.round, vote.vote_type)).len() < usize::MAX),
            seq_of(final(self).set_at(vote.height, vote.round, vote.vote_type)) == if r {
                seq_of(old(self).set_at(vote.height, vote.round, vote.vote_type)).push(
                    (vote.voter@, vote.proposal@),
                )
            } else {
                seq_of(old(self).set_at(vote.height, vote.round, vote.vote_type))
            },
            forall|h: u64, x: u64, t: VoteType|
                (h != vote.height || x != vote.round || t != vote.vote_type)
                    && (#[trigger] final(self).set_at(h, x, t)) is Some
                    ==> final(self).set_at(h, x, t) == old(self).set_at(h, x, t),
            old(self).admits(vote.height, vote.round) ==> forall|h: u64, x: u64, t: VoteType|
                (h != vote.height || x != vote.round || t != vote.vote_type)
                    ==> #[trigger] final(self).set_at(h, x, t) == old(self).set_at(h, x, t),
            final(self).prevote_count@ == if r && vote.vote_type == VoteType::Prevote {
                bumped(old(self).prevote_count@, vote.round)
            } else {
                old(self).prevote_count@
            },
    {
        let height = vote.height;
        let round = vote.round;
        let vote_type = vote.vote_type;
        proof {
            if old(self).entries().contains_key(height) {
                assert(old(self).entries().remove(height).len() == old(self).entries().len() - 1);
            }
        }
        let mut rc = match height_cache_remove(&mut self.votes, height) {
            Some(rc) => rc,
            None => RoundCollector::new(),
        };
        let ghost rc_before = rc;
        let r = rc.add(round, vote_type, vote.voter, vote.proposal);
        let ghost removed = self.entries();
        self.put(height, rc);
        proof {
            if old(self).admits(height, round) {
                assert(rc_before.admits(round));
                assert(self.entries() == removed.insert(height, rc));
                assert forall|h: u64, x: u64, t: VoteType|
                    (h != height || x != round || t != vote_type) implies #[trigger] self.set_at(
                        h,
                        x,
                        t,
                    ) == old(self).set_at(h, x, t) by {
                    if h != height {
                        assert(removed == old(self).entries().remove(height));
                    } else {
                        assert(rc.set_at(x, t) == rc_before.set_at(x, t));
                    }
                }
            }
        }
        if r && vote_type == VoteType::Prevote {
            self.bump_prevotes(round);
        }
        r
    }

    /// A copy of the vote set of `height`, `round` and `vote_type`, if it is
    /// kept.
    pub fn get_voteset(&mut self, height: u64, round: u64, vote_type: VoteType) -> (r: Option<VoteSet>)
        requires
            old(self).wf(),
        ensures
            final(self).wf(),
            forall|h: u64, x: u64, t: VoteType|
                #[trigger] final(self).set_at(h, x, t) == old(self).set_at(h, x, t),
            final(self).prevote_count == old(self).prevote_count,
            r is Some == old(self).set_at(height, round, vote_type) is Some,
            r matches Some(s) ==> s.wf() && s@ == old(self).set_at(height, round, vote_type).unwrap()@,
    {
        match height_cache_remove(&mut self.votes, height) {
            Some(rc) => {
                let mut rc = rc;
                let r = rc.get_voteset(round, vote_type);
                self.put(height, rc);
                proof {
                    assert forall|h: u64, x: u64, t: VoteType|
                        #[trigger] self.set_at(h, x, t) == old(self).set_at(h, x, t) by {
                        if h == height {
                            assert(self.entries()[h].entries() == old(self).entries()[h].entries());
                        }
                    }
                }
                r
            },
            None => None,
        }
    }

    /// Forgets the prevote counts.
    pub fn clear_prevote_count(&mut self)
        ensures
            final(self).prevote_count@ == Map::<u64, usize>::empty(),
            final(self).votes == old(self).votes,
    {
        self.prevote_count.clear();
    }
}

/// A vote collector holds at most one vote of each voter for each height,
/// round and vote type.
pub proof fn lemma_vote_dedup(vc: VoteCollector, height: u64, round: u64, t: VoteType, i: int, j: int)
    requires
        vc.wf(),
        vc.set_at(height, round, t) is Some,
        0 <= i < j < vc.set_at(height, round, t).unwrap()@.len(),
    ensures
        vc.set_at(height, round, t).unwrap()@[i].0 != vc.set_at(height, round, t).unwrap()@[j].0,
{
    let rc = vc.entries()[height];
    assert(rc.wf());
    assert(rc.entries()[round].wf());
}

} // verus!
