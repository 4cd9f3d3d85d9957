//! Steps of a round, their timeouts, and the tags that the timer delivers.

use min_max_heap::MinMaxHeap;
use vstd::multiset::Multiset;
use vstd::prelude::*;

verus! {

broadcast use vstd::multiset::group_multiset_axioms;

/// The steps of a round, in order.
#[derive(Clone, Copy, Debug, PartialEq, Eq, Hash, Structural)]
pub enum Step {
    /// Waiting for the proposal.
    Propose,
    /// Prevoting.
    Prevote,
    /// Waiting for a prevote majority.
    PrevoteWait,
    /// Precommitting.
    Precommit,
    /// Waiting for a precommit majority.
    PrecommitWait,
    /// Committing.
    Commit,
    /// Waiting for the status that follows a commit.
    CommitWait,
}

/// What a timer delivers when it fires: the height, round and step that it
/// was armed for.
#[derive(Clone, Copy, Debug, PartialEq, Eq, Structural)]
pub struct TimeoutInfo {
    /// The height the timer was armed at.
    pub height: u64,
    /// The round the timer was armed at.
    pub round: u64,
    /// The step the timer was armed for.
    pub step: Step,
}

/// The share of the interval, in thirtieths, that `step` waits.
pub open spec fn step_share(step: Step) -> int {
    match step {
        Step::Propose => 24,
        Step::Prevote | Step::PrevoteWait => 3,
        Step::Precommit | Step::PrecommitWait => 3,
        Step::Commit | Step::CommitWait => 30,
    }
}

/// How long `step` waits, for a step interval of `interval`:
/// `interval * share / 30`, rounded down.
pub fn step_timeout(interval: u64, step: Step) -> (r: u64)
    ensures
        r as int == interval as int * step_share(step) / 30,
{
    let share: u128 = match step {
        Step::Propose => 24,
        Step::Prevote | Step::PrevoteWait => 3,
        Step::Precommit | Step::PrecommitWait => 3,
        Step::Commit | Step::CommitWait => 30,
    };
    let t = interval as u128;
    assert(t * share <= t * 30) by (nonlinear_arith)
        requires
            share <= 30,
    ;
    let r = t * share / 30;
    assert(r <= t) by (nonlinear_arith)
        requires
            r == t * share / 30,
            t * share <= t * 30,
    ;
    r as u64
}

/// The factor of the interval that the commit retry `attempt` waits:
/// doubling from one, capped at eight.
pub open spec fn backoff_factor(attempt: u64) -> int {
    if attempt == 0 {
        1
    } else if attempt == 1 {
        2
    } else if attempt == 2 {
        4
    } else {
        8
    }
}

/// How long the commit retry `attempt` (from zero) waits before the commit
/// is tried again, for a step interval of `interval`.
pub fn commit_backoff(interval: u64, attempt: u64) -> (r: u64)
    requires
        interval <= u64::MAX / 8,
    ensures
        r == interval * backoff_factor(attempt),
{
    let factor: u64 = if attempt == 0 {
        1
    } else if attempt == 1 {
        2
    } else if attempt == 2 {
        4
    } else {
        8
    };
    interval * factor
}

/// Whether a timer tag no longer matches the state at `height`, `round` and
/// `step`, and is to be dropped.
pub fn is_stale(info: &TimeoutInfo, height: u64, round: u64, step: Step) -> (r: bool)
    ensures
        r == !(info.height == height && info.round == round && info.step == step),
{
    !(info.height == height && info.round == round && info.step == step)
}

/// The code of each step in a timer entry.
pub open spec fn code_of(step: Step) -> u8 {
    match step {
        Step::Propose => 0,
        Step::Prevote => 1,
        Step::PrevoteWait => 2,
        Step::Precommit => 3,
        Step::PrecommitWait => 4,
        Step::Commit => 5,
        Step::CommitWait => 6,
    }
}

/// The code of `step` in a timer entry.
fn step_code(step: Step) -> (r: u8)
    ensures
        r == code_of(step),
{
    match step {
        Step::Propose => 0,
        Step::Prevote => 1,
        Step::PrevoteWait => 2,
        Step::Precommit => 3,
        Step::PrecommitWait => 4,
        Step::Commit => 5,
        Step::CommitWait => 6,
    }
}

/// The step of a valid code.
fn step_of_code(c: u8) -> (r: Step)
    requires
        c < 7,
    ensures
        code_of(r) == c,
{
    match c {
        0 => Step::Propose,
        1 => Step::Prevote,
        2 => Step::PrevoteWait,
        3 => Step::Precommit,
        4 => Step::PrecommitWait,
        5 => Step::Commit,
        _ => Step::CommitWait,
    }
}

/// A timer entry: deadline, height, round and step code.
pub type TimerEntry = (u64, u64, u64, u8);

/// The entry of a timer armed for `info` at `deadline`.
pub open spec fn entry_of(deadline: u64, info: TimeoutInfo) -> TimerEntry {
    (deadline, info.height, info.round, code_of(info.step))
}

/// The order of tuples: by deadline, then height, round and step code.
pub open spec fn entry_le(a: TimerEntry, b: TimerEntry) -> bool {
    a.0 < b.0 || (a.0 == b.0 && (a.1 < b.1 || (a.1 == b.1 && (a.2 < b.2 || (a.2 == b.2 && a.3
        <= b.3)))))
}

/// The heap of min_max_heap, opaque to proofs.
#[verifier::external_type_specification]
#[verifier::external_body]
#[verifier::reject_recursive_types(T)]
pub struct ExMinMaxHeap<T>(MinMaxHeap<T>);

/// A heap of timer entries.
pub type TimerHeap = MinMaxHeap<TimerEntry>;

/// The entries that a timer heap holds.
pub uninterp spec fn heap_items(h: TimerHeap) -> Multiset<TimerEntry>;

/// Relies on min_max_heap::MinMaxHeap::new: an empty heap.
#[verifier::external_body]
fn heap_new() -> (r: TimerHeap)
    ensures
        heap_items(r) =~= Multiset::empty(),
{
    MinMaxHeap::new()
}

/// Relies on min_max_heap::MinMaxHeap::push: the entry joins the heap.
#[verifier::external_body]
fn heap_push(h: &mut TimerHeap, e: TimerEntry)
    ensures
        heap_items(*final(h)) == heap_items(*old(h)).insert(e),
{
    h.push(e)
}

/// Relies on min_max_heap::MinMaxHeap::peek_min: a least entry, by the
/// order of tuples, if the heap has one.
#[verifier::external_body]
fn heap_peek_min(h: &TimerHeap) -> (r: Option<TimerEntry>)
    ensures
        match r {
            None => heap_items(*h).len() == 0,
            Some(e) => heap_items(*h).contains(e) && forall|x: TimerEntry|
                #[trigger] heap_items(*h).contains(x) ==> entry_le(e, x),
        },
{
    h.peek_min().copied()
}

/// Relies on min_max_heap::MinMaxHeap::pop_min: takes a least entry out, by
/// the order of tuples, if the heap has one.
#[verifier::external_body]
fn heap_pop_min(h: &mut TimerHeap) -> (r: Option<TimerEntry>)
    ensures
        match r {
            None => heap_items(*old(h)).len() == 0 && heap_items(*final(h)) == heap_items(*old(h)),
            Some(e) => heap_items(*old(h)).contains(e) && heap_items(*final(h)) == heap_items(
                *old(h),
            ).remove(e) && forall|x: TimerEntry| #[trigger]
                heap_items(*old(h)).contains(x) ==> entry_le(e, x),
        },
{
    h.pop_min()
}

/// The armed timers, earliest deadline first.
pub struct TimerQueue {
    /// The entries of the armed timers.
    pub heap: TimerHeap,
}

impl TimerQueue {
    /// The entries of the armed timers.
    pub open spec fn items(&self) -> Multiset<TimerEntry> {
        heap_items(self.heap)
    }

    /// Every entry holds a valid step code.
    pub open spec fn wf(&self) -> bool {
        forall|e: TimerEntry| #[trigger] self.items().contains(e) ==> e.3 < 7
    }

    /// A queue without timers.
    pub fn new() -> (r: TimerQueue)
        ensures
            r.wf(),
            r.items() =~= Multiset::empty(),
    {
        TimerQueue { heap: heap_new() }
    }

    /// Arms a timer that fires with `info` at `deadline`.
    pub fn arm(&mut self, info: TimeoutInfo, deadline: u64)
        requires
            old(self).wf(),
        ensures
            final(self).wf(),
            final(self).items() == old(self).items().insert(entry_of(deadline, info)),
    {
        heap_push(&mut self.heap, (deadline, info.height, info.round, step_code(info.step)));
        proof {
            assert forall|x: TimerEntry| #[trigger] self.items().contains(x) implies x.3 < 7 by {
                if x != entry_of(deadline, info) {
                    assert(old(self).items().contains(x));
                }
            }
        }
    }

    /// The earliest deadline, if a timer is armed.
    pub fn next_deadline(&self) -> (r: Option<u64>)
        ensures
            match r {
                None => self.items().len() == 0,
                Some(d) => (exists|e: TimerEntry| #[trigger] self.items().contains(e) && e.0 == d)
                    && forall|e: TimerEntry| #[trigger] self.items().contains(e) ==> d <= e.0,
            },
    {
        match heap_peek_min(&self.heap) {
            Some(e) => {
                assert(self.items().contains(e));
                Some(e.0)
            },
            None => None,
        }
    }

    /// Takes out the earliest timer whose deadline is not after `now`, and
    /// returns what it fires with; `None` where no deadline has come.
    pub fn pop_due(&mut self, now: u64) -> (r: Option<TimeoutInfo>)
        requires
            old(self).wf(),
        ensures
            final(self).wf(),
            match r {
                None => final(self).items() == old(self).items() && forall|e: TimerEntry|
                    #[trigger] old(self).items().contains(e) ==> e.0 > now,
                Some(info) => exists|d: u64|
                    {
                        &&& d <= now
                        &&& old(self).items().contains(entry_of(d, info))
                        &&& final(self).items() == old(self).items().remove(entry_of(d, info))
                        &&& forall|e: TimerEntry| #[trigger]
                            old(self).items().contains(e) ==> entry_le(entry_of(d, info), e)
                    },
            },
    {
        match heap_peek_min(&self.heap) {
            None => None,
            Some(first) => {
                if first.0 > now {
                    return None;
                }
                match heap_pop_min(&mut self.heap) {
                    None => None,
                    Some(e) => {
                        proof {
                            assert(old(self).items().contains(e));
                            assert(entry_le(first, e) && entry_le(e, first));
                            assert forall|x: TimerEntry| #[trigger]
                                self.items().contains(x) implies x.3 < 7 by {
                                assert(old(self).items().contains(x));
                            }
                        }
                        let info = TimeoutInfo { height: e.1, round: e.2, step: step_of_code(e.3) };
                        assert(entry_of(e.0, info) == e);
                        Some(info)
                    },
                }
            },
        }
    }
}

} // verus!
