//! The checks that the actuator makes before it hands a message to the
//! engine.

use vstd::prelude::*;

use crate::algorithm::{lock_coherent, validate_proposal};
use crate::{BftError, BftMsg, Proposal};

verus! {

/// The proposal to hand to the engine, where its lock round and lock votes
/// agree among `n` authorities; otherwise `ProposalIllegal` at its height and
/// round.
pub fn check_proposal(proposal: Proposal, n: usize) -> (r: Result<BftMsg, BftError>)
    ensures
        lock_coherent(proposal, n as int) ==> r == Ok::<BftMsg, BftError>(BftMsg::Proposal(proposal)),
        !lock_coherent(proposal, n as int) ==> r == Err::<BftMsg, BftError>(
            BftError::ProposalIllegal(proposal.height, proposal.round),
        ),
{
    match validate_proposal(&proposal, n) {
        Ok(()) => Ok(BftMsg::Proposal(proposal)),
        Err(e) => Err(e),
    }
}

/// The command to hand to the engine: `Pause` or `Start`; any other message
/// is of the wrong kind.
pub fn check_command(cmd: BftMsg) -> (r: Result<BftMsg, BftError>)
    ensures
        (cmd is Pause || cmd is Start) ==> r == Ok::<BftMsg, BftError>(cmd),
        !(cmd is Pause || cmd is Start) ==> r == Err::<BftMsg, BftError>(BftError::MsgTypeErr),
{
    match cmd {
        BftMsg::Pause => Ok(cmd),
        BftMsg::Start => Ok(cmd),
        _ => Err(BftError::MsgTypeErr),
    }
}

} // verus!
