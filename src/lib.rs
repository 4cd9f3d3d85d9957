//! Core of a Byzantine fault tolerant consensus engine: the messages that the
//! authorities exchange, the vote collector with its quorum tracking, the
//! proposer rotation, the lock (proof-of-lock-change) rules, the step timing and
//! the framing of the write-ahead log.

use vstd::prelude::*;

pub mod actuator;
pub mod algorithm;
pub mod timer;
pub mod voteset;
pub mod wal;

verus! {

/// Type for node address.
pub type Address = Vec<u8>;

/// Type for proposal.
pub type Target = Vec<u8>;

/// Copies a byte string.
pub fn copy_bytes(v: &Vec<u8>) -> (r: Vec<u8>)
    ensures
        r@ == v@,
{
    let r = v.clone();
    assert(r@ =~= v@);
    r
}

/// Compares two byte strings.
pub fn bytes_eq(a: &Vec<u8>, b: &Vec<u8>) -> (r: bool)
    ensures
        r == (a@ == b@),
{
    if a.len() != b.len() {
        return false;
    }
    let mut i: usize = 0;
    while i < a.len()
        invariant
            a.len() == b.len(),
            i <= a.len(),
            forall|k: int| 0 <= k < i ==> a@[k] == b@[k],
        decreases a.len() - i,
    {
        if a[i] != b[i] {
            return false;
        }
        i = i + 1;
    }
    assert(a@ =~= b@);
    true
}

/// Bft vote types.
#[derive(Clone, Copy, Debug, PartialEq, Eq, Hash, Structural)]
pub enum VoteType {
    /// Vote type prevote.
    Prevote,
    /// Vote type precommit.
    Precommit,
}

/// A vote to a proposal.
#[derive(Clone, Debug, PartialEq, Eq, Hash)]
pub struct Vote {
    /// Prevote vote or precommit vote
    pub vote_type: VoteType,
    /// The height of vote
    pub height: u64,
    /// The round of vote
    pub round: u64,
    /// The vote proposal
    pub proposal: Target,
    /// The address of voter
    pub voter: Address,
}

/// Something to be agreed on in a round. `lock_round` and `lock_votes` are
/// the proof-of-lock-change of the proposal: both are present or both absent.
#[derive(Clone, Debug, PartialEq, Eq)]
pub struct Proposal {
    /// The height of proposal.
    pub height: u64,
    /// The round of proposal.
    pub round: u64,
    /// The proposal content.
    pub content: Target,
    /// A lock round of the proposal.
    pub lock_round: Option<u64>,
    /// The lock votes of the proposal.
    pub lock_votes: Option<Vec<Vote>>,
    /// The address of proposer.
    pub proposer: Address,
}

/// A proof-of-lock-change: a quorum of prevotes for one proposal in a round.
#[derive(Clone, Debug)]
pub struct LockStatus {
    /// The lock proposal
    pub proposal: Target,
    /// The lock round
    pub round: u64,
    /// The lock votes.
    pub votes: Vec<Vote>,
}

/// A proposal for a height.
#[derive(Clone, Debug, PartialEq, Eq)]
pub struct Feed {
    /// The height of the proposal.
    pub height: u64,
    /// A proposal.
    pub proposal: Target,
}

/// A result of a height.
#[derive(Clone, Debug, PartialEq, Eq)]
pub struct Commit {
    /// The height of result.
    pub height: u64,
    /// The round of result.
    pub round: u64,
    /// Consensus result
    pub proposal: Target,
    /// Votes for generate proof.
    pub lock_votes: Vec<Vote>,
    /// The node address.
    pub address: Address,
}

/// Necessary messages for a height.
#[derive(Clone, Debug, PartialEq, Eq)]
pub struct Status {
    /// The height of rich status.
    pub height: u64,
    /// The time interval of next height. If it is none, maintain the old interval.
    pub interval: Option<u64>,
    /// A new authority list for next height.
    pub authority_list: Vec<Address>,
}

/// A verify result of a proposal.
#[derive(Clone, Debug, PartialEq, Eq)]
pub struct VerifyResp {
    /// The Response of proposal verify
    pub is_pass: bool,
    /// The verify proposal
    pub proposal: Target,
}

/// BFT input message.
#[derive(Clone, Debug, PartialEq, Eq)]
pub enum BftMsg {
    /// Proposal message.
    Proposal(Proposal),
    /// Vote message.
    Vote(Vote),
    /// Feed messge, this is the proposal of the height.
    Feed(Feed),
    /// Verify response
    VerifyResp(VerifyResp),
    /// Status message, rich status.
    Status(Status),
    /// Commit message.
    Commit(Commit),
    /// Pause BFT state machine.
    Pause,
    /// Start running BFT state machine.
    Start,
}

/// Errors of the engine and of its actuator.
#[derive(Clone, Copy, Debug, PartialEq, Eq, Structural)]
pub enum BftError {
    /// A proposal whose lock round and lock votes disagree, at its height and round.
    ProposalIllegal(u64, u64),
    /// A message that is not a vote where a vote was expected.
    VoteErr,
    /// A message of the wrong kind for the operation.
    MsgTypeErr,
    /// The engine no longer takes proposals.
    SendProposalErr,
    /// The engine no longer takes votes.
    SendVoteErr,
    /// The engine no longer takes commands.
    SendCmdErr,
    /// The write-ahead log is damaged at this byte offset.
    WalCorrupt(usize),
    /// The embedder failed a commit or a feed.
    SupportErr,
}

} // verus!
