use kowalski::commands::clean::next_page;
use kowalski::commands::module::{Module, Modules};
use kowalski::commands::{drop, moderation, module, reactionrole};
use kowalski::error::{KowalskiError, ERR_CMD_ARGS_INVALID};
use kowalski::event_cache::{ChangeKind, NotYet};
use kowalski::events::reaction::GuildState;
use kowalski::ledger::ScoreReaction;
use kowalski::migration::given_roles::{GivenRoles, Member};
use kowalski::moderation::PlatformReply;
use kowalski::reaction_roles::{Decision, ReactionRole};

type Hook = Box<dyn FnOnce(&mut Vec<i32>)>;

fn push(n: i32) -> Hook {
    Box::new(move |v: &mut Vec<i32>| v.push(n))
}

#[test]
fn queued_mutations_run_in_order_when_the_value_arrives() {
    let mut slot: NotYet<Vec<i32>, Hook> = NotYet::Modify(Vec::new());
    assert!(slot.get().is_none());
    assert!(slot.get_mut().is_none());
    slot.modify(push(1));
    slot.modify(push(2));
    slot.modify(Box::new(|v: &mut Vec<i32>| v.reverse()));
    slot.modify(push(3));
    assert!(slot.get().is_none());
    assert!(slot.set(vec![0]));
    assert_eq!(slot.get(), Some(&vec![2, 1, 0, 3]));
    assert!(!slot.set(vec![9]));
    assert_eq!(slot.get(), Some(&vec![2, 1, 0, 3]));
    slot.modify(push(4));
    assert_eq!(slot.get(), Some(&vec![2, 1, 0, 3, 4]));
    if let Some(v) = slot.get_mut() {
        v.clear();
    }
    assert_eq!(slot.get(), Some(&Vec::new()));
}

#[test]
fn value_without_queue_is_set_as_it_is() {
    let mut slot: NotYet<Vec<i32>, Hook> = NotYet::Modify(Vec::new());
    assert!(slot.set(vec![5]));
    assert_eq!(slot.get(), Some(&vec![5]));
    let mut there: NotYet<Vec<i32>, Hook> = NotYet::Exists(vec![1]);
    assert!(!there.set(vec![2]));
    assert_eq!(there.get(), Some(&vec![1]));
}

#[test]
fn change_kinds_differ() {
    assert_ne!(ChangeKind::Added, ChangeKind::Removed);
    assert_eq!(ChangeKind::Added, ChangeKind::Added);
}

fn is_invalid<T>(r: Result<T, KowalskiError>) -> bool {
    match r {
        Err(KowalskiError::DiscordApiError(m)) => m == ERR_CMD_ARGS_INVALID,
        _ => false,
    }
}

#[test]
fn drop_action_words() {
    assert_eq!(drop::Action::from_str("add").unwrap(), drop::Action::Add);
    assert_eq!(drop::Action::from_str("remove").unwrap(), drop::Action::Remove);
    assert!(is_invalid(drop::Action::from_str("Add")));
    assert!(is_invalid(drop::Action::from_str("")));
    assert!(is_invalid(drop::Action::from_str("removed")));
    assert_eq!(drop::Action::Add.name(), "Add");
    assert_eq!(drop::Action::Remove.name(), "Remove");
}

#[test]
fn reactionrole_action_words() {
    assert_eq!(reactionrole::Action::from_str("add").unwrap(), reactionrole::Action::Add);
    assert_eq!(reactionrole::Action::from_str("remove").unwrap(), reactionrole::Action::Remove);
    assert!(is_invalid(reactionrole::Action::from_str("enable")));
    assert_eq!(reactionrole::Action::Add.name(), "Add");
    assert_eq!(reactionrole::Action::Remove.name(), "Remove");
}

#[test]
fn module_action_words() {
    assert_eq!(module::Action::from_str("enable").unwrap(), module::Action::Enable);
    assert_eq!(module::Action::from_str("disable").unwrap(), module::Action::Disable(false));
    assert_eq!(module::Action::from_str("remove").unwrap(), module::Action::Disable(true));
    assert!(is_invalid(module::Action::from_str("add")));
    assert_eq!(module::Action::Enable.name(), "Enable");
    assert_eq!(module::Action::Disable(false).name(), "Disable");
    assert_eq!(module::Action::Disable(true).name(), "Remove");
    assert!(module::Action::Enable.enables());
    assert!(!module::Action::Disable(false).enables());
    assert!(!module::Action::Disable(true).enables());
}

#[test]
fn moderation_words() {
    assert_eq!(moderation::Moderation::from_str("pin").unwrap(), moderation::Moderation::Pin);
    assert_eq!(moderation::Moderation::from_str("delete").unwrap(), moderation::Moderation::Delete);
    assert!(is_invalid(moderation::Moderation::from_str("pins")));
    assert_eq!(moderation::Moderation::Pin.name(), "Auto-pin");
    assert_eq!(moderation::Moderation::Delete.name(), "Auto-delete");
}

#[test]
fn module_switches_report_changes() {
    let mut m = Modules::new();
    assert!(!m.enabled(Module::Score));
    assert!(m.set(Module::Score, true));
    assert!(!m.set(Module::Score, true));
    assert!(m.enabled(Module::Score));
    assert!(!m.enabled(Module::ReactionRoles));
    assert!(!m.set(Module::Owner, false));
    assert!(m.set(Module::Analyze, true));
    assert!(m.set(Module::Score, false));
    assert_eq!(
        m,
        Modules { owner: false, utility: false, score: false, reaction_roles: false, analyze: true }
    );
}

#[test]
fn slots_are_conserved() {
    let mut role = ReactionRole::new(9, Some(2));
    assert_eq!(role.role(), 9);
    assert_eq!(role.capacity(), Some(2));
    assert_eq!(role.evaluate(1, false), Decision::Grant);
    assert_eq!(role.evaluate(2, true), Decision::Ignore);
    assert_eq!(role.evaluate(2, false), Decision::Grant);
    assert_eq!(role.evaluate(3, false), Decision::Reject);
    assert_eq!((role.slots(), role.occupancy()), (Some(0), 2));
    assert_eq!(role.evaluate(1, false), Decision::Revoke);
    assert_eq!((role.slots(), role.occupancy()), (Some(0), 2));
    role.complete(1, Decision::Revoke, false);
    assert_eq!((role.slots(), role.occupancy()), (Some(0), 2));
    role.complete(1, Decision::Revoke, true);
    assert_eq!((role.slots(), role.occupancy()), (Some(1), 1));
    assert!(!role.release(1));
    assert_eq!(role.evaluate(3, false), Decision::Grant);
    role.complete(3, Decision::Grant, false);
    assert_eq!((role.slots(), role.occupancy()), (Some(1), 1));
    role.complete(3, Decision::Reject, true);
    role.complete(3, Decision::Ignore, false);
    assert_eq!((role.slots(), role.occupancy()), (Some(1), 1));
    assert!(role.holds(2));
    assert!(role.release(2));
    assert_eq!((role.slots(), role.occupancy()), (Some(2), 0));
}

#[test]
fn unlimited_role_never_rejects() {
    let mut role = ReactionRole::new(9, None);
    for user in 0..50u64 {
        assert_eq!(role.evaluate(user, false), Decision::Grant);
    }
    assert_eq!((role.capacity(), role.slots(), role.occupancy()), (None, None, 50));
    assert_eq!(role.evaluate(7, false), Decision::Revoke);
    role.complete(7, Decision::Revoke, true);
    assert_eq!(role.occupancy(), 49);
    let mut none = ReactionRole::new(9, Some(0));
    assert_eq!(none.evaluate(1, false), Decision::Reject);
    assert_eq!(none.occupancy(), 0);
}

#[test]
fn migration_counts_holders_into_the_capacity() {
    let members = vec![
        Member { user: 1, roles: vec![9, 4] },
        Member { user: 2, roles: vec![4] },
        Member { user: 3, roles: vec![9] },
        Member { user: 1, roles: vec![9] },
    ];
    let mut role = GivenRoles::default().migrate(9, Some(3), &members).unwrap();
    assert_eq!((role.capacity(), role.slots(), role.occupancy()), (Some(5), Some(3), 2));
    assert!(role.holds(1) && role.holds(3) && !role.holds(2));
    assert_eq!(role.adopt(3).unwrap(), false);
    assert_eq!(role.adopt(2).unwrap(), true);
    assert_eq!((role.capacity(), role.slots(), role.occupancy()), (Some(6), Some(3), 3));
    let open = GivenRoles::default().migrate(4, None, &members).unwrap();
    assert_eq!((open.capacity(), open.slots(), open.occupancy()), (None, None, 2));
    assert!(matches!(
        GivenRoles::default().migrate(9, Some(usize::MAX), &members),
        Err(KowalskiError::DatabaseError)
    ));
    let nobody = GivenRoles::default().migrate(5, Some(usize::MAX), &members).unwrap();
    assert_eq!(nobody.occupancy(), 0);
}

fn vote(from: u64, to: u64, message: u64) -> ScoreReaction {
    ScoreReaction { user_from: from, user_to: to, channel: 1, message, emoji: 100, upvote: true, native: true }
}

#[test]
fn sweep_removes_what_the_platform_lost() {
    let mut g = GuildState::new(60);
    g.ledger.insert(vote(1, 2, 10)).unwrap();
    g.ledger.insert(vote(3, 2, 10)).unwrap();
    g.ledger.insert(vote(4, 2, 10)).unwrap();
    g.ledger.insert(vote(1, 2, 11)).unwrap();
    g.ledger.insert(vote(5, 6, 12)).unwrap();
    assert_eq!(g.sweep_message(1, 10, PlatformReply::Done).unwrap(), 0);
    assert_eq!(g.sweep_reactions(1, 10, 100, vec![3, 8]), 2);
    assert_eq!(g.ledger.len(), 3);
    assert_eq!(g.ledger.row(0), Some(vote(3, 2, 10)));
    match g.sweep_message(1, 11, PlatformReply::Failed("timeout".to_string())) {
        Err(KowalskiError::DiscordApiError(why)) => assert_eq!(why, "timeout"),
        _ => panic!("expected the platform's error"),
    }
    assert_eq!(g.ledger.len(), 3);
    assert_eq!(g.sweep_message(1, 11, PlatformReply::Gone).unwrap(), 1);
    assert_eq!(g.sweep_message(1, 11, PlatformReply::Gone).unwrap(), 0);
    assert_eq!(g.sweep_members(vec![2, 3, 5]), 1);
    assert_eq!(g.ledger.len(), 1);
    assert_eq!(g.ledger.row(0), Some(vote(3, 2, 10)));
    assert_eq!(g.channel_delete(2), 0);
    assert_eq!(g.channel_delete(1), 1);
    assert_eq!(g.ledger.len(), 0);
}

#[test]
fn paging_goes_on_after_a_full_page() {
    assert_eq!(next_page(&vec![4, 5, 6], 3), Some(6));
    assert_eq!(next_page(&vec![4, 5], 3), None);
    assert_eq!(next_page(&Vec::new(), 3), None);
    assert_eq!(next_page(&Vec::new(), 0), None);
    assert_eq!(next_page(&vec![4], 0), Some(4));
}

#[test]
fn module_names() {
    assert_eq!(Module::from_str("owner").unwrap(), Module::Owner);
    assert_eq!(Module::from_str("utility").unwrap(), Module::Utility);
    assert_eq!(Module::from_str("score").unwrap(), Module::Score);
    assert_eq!(Module::from_str("reaction_roles").unwrap(), Module::ReactionRoles);
    assert_eq!(Module::from_str("analyze").unwrap(), Module::Analyze);
    assert!(is_invalid(Module::from_str("Score")));
    assert!(is_invalid(Module::from_str("reaction-roles")));
    assert_eq!(Module::ReactionRoles.name(), "reaction_roles");
    assert_eq!(Module::from_str(Module::Analyze.name()).unwrap(), Module::Analyze);
}
