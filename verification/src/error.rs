use vstd::prelude::*;

verus! {

/// What can go wrong in the engine.
#[derive(Debug)]
pub enum KowalskiError {
    /// The chat platform answered a call in a way that nothing here can use.
    DiscordApiError(String),
    /// The relational store failed; nothing is retried.
    DatabaseError,
    /// An identifier could not be found again right after the store refused
    /// to insert it as a duplicate.
    IdentityRaceExhausted,
}

/// The message for a command argument that is not one of the known words.
pub const ERR_CMD_ARGS_INVALID: &'static str = "Invalid command arguments";

/// Whether two pieces of text hold the same characters.
pub fn same_text(a: &str, b: &str) -> (r: bool)
    ensures
        r == (a@ == b@),
{
    let left = a.to_owned();
    let right = b.to_owned();
    left == right
}

/// The error for a command argument that is not one of the known words.
pub fn invalid_argument() -> (e: KowalskiError)
    ensures
        e matches KowalskiError::DiscordApiError(m) && m@ == ERR_CMD_ARGS_INVALID@,
{
    KowalskiError::DiscordApiError(ERR_CMD_ARGS_INVALID.to_owned())
}

} // verus!
