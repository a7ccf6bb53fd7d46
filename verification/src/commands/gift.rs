use crate::ledger::{count, gifted, least, upvote_of, Ledger};
use vstd::prelude::*;

verus! {

/// What a gift command leads to, before the giver has confirmed it.
#[derive(Debug, Clone, Copy, PartialEq, Eq, Structural)]
pub enum Gift {
    /// Nobody gives to themselves.
    Refused,
    /// The giver is asked to confirm a gift of `amount` upvotes.
    Confirm { amount: usize },
}

/// The giver's answer to the question whether the gift is meant.
#[derive(Debug, Clone, Copy, PartialEq, Eq, Structural)]
pub enum InteractionResponse {
    Continue,
    Abort,
}

/// Plans a gift of `requested` upvotes from `from` to `to`: refused where
/// both are the same member, else capped at the upvotes that `from` has.
pub fn plan(ledger: &Ledger, from: u64, to: u64, requested: usize) -> (r: Gift)
    ensures
        from == to ==> r == Gift::Refused,
        from != to ==> r == (Gift::Confirm {
            amount: least(requested as nat, count(ledger@, upvote_of(from))) as usize,
        }),
{
    if from == to {
        Gift::Refused
    } else {
        let upvotes = ledger.upvotes_received(from);
        let amount = if requested <= upvotes {
            requested
        } else {
            upvotes
        };
        Gift::Confirm { amount }
    }
}

/// Carries out a gift once the giver has answered. Only an answer to
/// continue moves anything; an abort, or no answer in time, leaves the
/// ledger alone. Answers how many upvotes moved, where any were to move.
pub fn execute(
    ledger: &mut Ledger,
    from: u64,
    to: u64,
    amount: usize,
    response: Option<InteractionResponse>,
) -> (moved: Option<usize>)
    requires
        old(ledger).wf(),
    ensures
        final(ledger).wf(),
        response == Some(InteractionResponse::Continue) && from != to ==> final(ledger)@ == gifted(
            old(ledger)@,
            from,
            to,
            amount as nat,
        ) && moved == Some(least(amount as nat, count(old(ledger)@, upvote_of(from))) as usize),
        response == Some(InteractionResponse::Continue) && from == to ==> final(ledger)@ == old(
            ledger)@ && moved == Some(0usize),
        response != Some(InteractionResponse::Continue) ==> final(ledger)@ == old(ledger)@
            && moved is None,
{
    match response {
        Some(InteractionResponse::Continue) => Some(ledger.gift(from, to, amount)),
        _ => None,
    }
}

} // verus!
