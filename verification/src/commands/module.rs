use crate::error::{invalid_argument, same_text, KowalskiError};
use vstd::prelude::*;

verus! {

/// What a module command does: switch the module on, switch it off, or
/// switch it off and remove its data (`Disable(true)`).
#[derive(Debug, Clone, Copy, PartialEq, Eq, Structural)]
pub enum Action {
    Enable,
    Disable(bool),
}

/// The parts of the bot that a guild can switch on and off.
#[derive(Debug, Clone, Copy, PartialEq, Eq, Structural)]
pub enum Module {
    Owner,
    Utility,
    Score,
    ReactionRoles,
    Analyze,
}

/// Which modules a guild has switched on. This is a plain value, read from
/// the store for each event; a guild without a row has every module off.
#[derive(Debug, Clone, Copy, PartialEq, Eq, Structural)]
pub struct Modules {
    pub owner: bool,
    pub utility: bool,
    pub score: bool,
    pub reaction_roles: bool,
    pub analyze: bool,
}

impl Action {
    /// The action's name as it is shown.
    pub fn name(&self) -> (r: &'static str)
        ensures
            *self == Action::Enable ==> r@ == "Enable"@,
            *self == Action::Disable(true) ==> r@ == "Remove"@,
            *self == Action::Disable(false) ==> r@ == "Disable"@,
    {
        match self {
            Action::Enable => "Enable",
            Action::Disable(remove) => {
                if *remove {
                    "Remove"
                } else {
                    "Disable"
                }
            },
        }
    }

    /// Reads the command argument: `enable`, `disable` or `remove`, anything
    /// else is an invalid argument.
    pub fn from_str(s: &str) -> (r: Result<Action, KowalskiError>)
        ensures
            s@ == "enable"@ <==> r == Ok::<Action, KowalskiError>(Action::Enable),
            s@ == "disable"@ <==> r == Ok::<Action, KowalskiError>(Action::Disable(false)),
            s@ == "remove"@ <==> r == Ok::<Action, KowalskiError>(Action::Disable(true)),
            s@ != "enable"@ && s@ != "disable"@ && s@ != "remove"@ ==> (r matches Err(
                KowalskiError::DiscordApiError(m),
            ) && m@ == crate::error::ERR_CMD_ARGS_INVALID@),
    {
        proof {
            reveal_strlit("enable");
            reveal_strlit("disable");
            reveal_strlit("remove");
            assert("enable"@.len() != "disable"@.len());
            assert("enable"@[0] != "remove"@[0]);
            assert("disable"@.len() != "remove"@.len());
        }
        if same_text(s, "enable") {
            Ok(Action::Enable)
        } else if same_text(s, "disable") {
            Ok(Action::Disable(false))
        } else if same_text(s, "remove") {
            Ok(Action::Disable(true))
        } else {
            Err(invalid_argument())
        }
    }

    /// Whether the action switches the module on.
    pub fn enables(&self) -> (r: bool)
        ensures
            r == (*self == Action::Enable),
    {
        match self {
            Action::Enable => true,
            Action::Disable(_) => false,
        }
    }
}

impl Module {
    /// The module's name, which is also the name of its switch in the
    /// store.
    pub fn name(&self) -> (r: &'static str)
        ensures
            *self == Module::Owner ==> r@ == "owner"@,
            *self == Module::Utility ==> r@ == "utility"@,
            *self == Module::Score ==> r@ == "score"@,
            *self == Module::ReactionRoles ==> r@ == "reaction_roles"@,
            *self == Module::Analyze ==> r@ == "analyze"@,
    {
        match self {
            Module::Owner => "owner",
            Module::Utility => "utility",
            Module::Score => "score",
            Module::ReactionRoles => "reaction_roles",
            Module::Analyze => "analyze",
        }
    }

    /// Reads the command argument: the name of a module, anything else is
    /// an invalid argument.
    pub fn from_str(s: &str) -> (r: Result<Module, KowalskiError>)
        ensures
            s@ == "owner"@ <==> r == Ok::<Module, KowalskiError>(Module::Owner),
            s@ == "utility"@ <==> r == Ok::<Module, KowalskiError>(Module::Utility),
            s@ == "score"@ <==> r == Ok::<Module, KowalskiError>(Module::Score),
            s@ == "reaction_roles"@ <==> r == Ok::<Module, KowalskiError>(Module::ReactionRoles),
            s@ == "analyze"@ <==> r == Ok::<Module, KowalskiError>(Module::Analyze),
            s@ != "owner"@ && s@ != "utility"@ && s@ != "score"@ && s@ != "reaction_roles"@ && s@
                != "analyze"@ ==> (r matches Err(KowalskiError::DiscordApiError(m)) && m@
                == crate::error::ERR_CMD_ARGS_INVALID@),
    {
        proof {
            reveal_strlit("owner");
            reveal_strlit("utility");
            reveal_strlit("score");
            reveal_strlit("reaction_roles");
            reveal_strlit("analyze");
            assert("owner"@.len() == 5 && "score"@.len() == 5 && "utility"@.len() == 7
                && "analyze"@.len() == 7 && "reaction_roles"@.len() == 14);
            assert("owner"@[0] != "score"@[0]);
            assert("utility"@[0] != "analyze"@[0]);
        }
        if same_text(s, "owner") {
            Ok(Module::Owner)
        } else if same_text(s, "utility") {
            Ok(Module::Utility)
        } else if same_text(s, "score") {
            Ok(Module::Score)
        } else if same_text(s, "reaction_roles") {
            Ok(Module::ReactionRoles)
        } else if same_text(s, "analyze") {
            Ok(Module::Analyze)
        } else {
            Err(invalid_argument())
        }
    }
}

impl Modules {
    /// Every module off.
    pub fn new() -> (r: Modules)
        ensures
            r == (Modules {
                owner: false,
                utility: false,
                score: false,
                reaction_roles: false,
                analyze: false,
            }),
    {
        Modules { owner: false, utility: false, score: false, reaction_roles: false, analyze: false }
    }

    /// Whether `module` is on.
    pub open spec fn spec_enabled(&self, module: Module) -> bool {
        match module {
            Module::Owner => self.owner,
            Module::Utility => self.utility,
            Module::Score => self.score,
            Module::ReactionRoles => self.reaction_roles,
            Module::Analyze => self.analyze,
        }
    }

    /// Whether `module` is on.
    #[verifier::when_used_as_spec(spec_enabled)]
    pub fn enabled(&self, module: Module) -> (r: bool)
        ensures
            r == self.spec_enabled(module),
    {
        match module {
            Module::Owner => self.owner,
            Module::Utility => self.utility,
            Module::Score => self.score,
            Module::ReactionRoles => self.reaction_roles,
            Module::Analyze => self.analyze,
        }
    }

    /// Switches `module` on or off and says whether that changed anything.
    /// The other modules stay as they are.
    pub fn set(&mut self, module: Module, enable: bool) -> (changed: bool)
        ensures
            changed == (old(self).enabled(module) != enable),
            final(self).enabled(module) == enable,
            forall|other: Module| other != module ==> final(self).enabled(other) == old(self).enabled(other),
    {
        let changed = self.enabled(module) != enable;
        match module {
            Module::Owner => { self.owner = enable; },
            Module::Utility => { self.utility = enable; },
            Module::Score => { self.score = enable; },
            Module::ReactionRoles => { self.reaction_roles = enable; },
            Module::Analyze => { self.analyze = enable; },
        }
        changed
    }
}

} // verus!
