use crate::error::{invalid_argument, same_text, KowalskiError};
use vstd::prelude::*;

verus! {

/// The two automatic moderation tools that a guild can configure.
#[derive(Debug, Clone, Copy, PartialEq, Eq, Structural)]
pub enum Moderation {
    Pin,
    Delete,
}

impl Moderation {
    /// The tool's name as it is shown.
    pub fn name(&self) -> (r: &'static str)
        ensures
            *self == Moderation::Pin ==> r@ == "Auto-pin"@,
            *self == Moderation::Delete ==> r@ == "Auto-delete"@,
    {
        match self {
            Moderation::Pin => "Auto-pin",
            Moderation::Delete => "Auto-delete",
        }
    }

    /// Reads the command argument: `pin` or `delete`, anything else is an
    /// invalid argument.
    pub fn from_str(s: &str) -> (r: Result<Moderation, KowalskiError>)
        ensures
            s@ == "pin"@ <==> r == Ok::<Moderation, KowalskiError>(Moderation::Pin),
            s@ == "delete"@ <==> r == Ok::<Moderation, KowalskiError>(Moderation::Delete),
            s@ != "pin"@ && s@ != "delete"@ ==> (r matches Err(
                KowalskiError::DiscordApiError(m),
            ) && m@ == crate::error::ERR_CMD_ARGS_INVALID@),
    {
        proof {
            reveal_strlit("pin");
            reveal_strlit("delete");
            assert("pin"@.len() != "delete"@.len());
        }
        if same_text(s, "pin") {
            Ok(Moderation::Pin)
        } else if same_text(s, "delete") {
            Ok(Moderation::Delete)
        } else {
            Err(invalid_argument())
        }
    }
}

} // verus!
