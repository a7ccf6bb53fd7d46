use crate::error::{invalid_argument, same_text, KowalskiError};
use vstd::prelude::*;

verus! {

/// Whether a command adds or removes a channel into which scores may drop.
#[derive(Debug, Clone, Copy, PartialEq, Eq, Structural)]
pub enum Action {
    Add,
    Remove,
}

impl Action {
    /// The action's name as it is shown.
    pub fn name(&self) -> (r: &'static str)
        ensures
            *self == Action::Add ==> r@ == "Add"@,
            *self == Action::Remove ==> r@ == "Remove"@,
    {
        match self {
            Action::Add => "Add",
            Action::Remove => "Remove",
        }
    }

    /// Reads the command argument: `add` or `remove`, anything else is an
    /// invalid argument.
    pub fn from_str(s: &str) -> (r: Result<Action, KowalskiError>)
        ensures
            s@ == "add"@ <==> r == Ok::<Action, KowalskiError>(Action::Add),
            s@ == "remove"@ <==> r == Ok::<Action, KowalskiError>(Action::Remove),
            s@ != "add"@ && s@ != "remove"@ ==> (r matches Err(
                KowalskiError::DiscordApiError(m),
            ) && m@ == crate::error::ERR_CMD_ARGS_INVALID@),
    {
        proof {
            reveal_strlit("add");
            reveal_strlit("remove");
            assert("add"@.len() != "remove"@.len());
        }
        if same_text(s, "add") {
            Ok(Action::Add)
        } else if same_text(s, "remove") {
            Ok(Action::Remove)
        } else {
            Err(invalid_argument())
        }
    }
}

} // verus!
