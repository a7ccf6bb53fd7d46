use kowalski::commands::gift::{execute, plan, Gift, InteractionResponse};
use kowalski::commands::module::Module;
use kowalski::cooldowns::{applicable_cooldown, Cooldown, Cooldowns};
use kowalski::error::KowalskiError;
use kowalski::events::guild_member_removal::Departure;
use kowalski::events::reaction::{Binding, GuildState, Reacted, ReactionAdded, ScoreEmoji};
use kowalski::ledger::{Ledger, ScoreReaction, Selector};
use kowalski::levelup::{level, sync_level_up_roles, ScoreRole};
use kowalski::moderation::{evaluate_auto_moderation, settle, AutoModeration, PlatformReply};
use kowalski::reaction_roles::{Decision, ReactionRole};

const UP: u64 = 100;
const DOWN: u64 = 101;

fn vote(from: u64, to: u64, message: u64, upvote: bool, native: bool) -> ScoreReaction {
    ScoreReaction {
        user_from: from,
        user_to: to,
        channel: 1,
        message,
        emoji: if upvote { UP } else { DOWN },
        upvote,
        native,
    }
}

fn scoring_guild() -> GuildState {
    let mut g = GuildState::new(60);
    g.modules.set(Module::Score, true);
    g.score_emojis.push(ScoreEmoji { emoji: UP, upvote: true });
    g.score_emojis.push(ScoreEmoji { emoji: DOWN, upvote: false });
    g
}

fn reaction(from: u64, to: u64, message: u64, emoji: Option<u64>, now: u64) -> ReactionAdded {
    ReactionAdded {
        guild: 7,
        user_from: from,
        user_to: to,
        channel: 1,
        message,
        emoji,
        bot: false,
        roles: Vec::new(),
        now,
    }
}

#[test]
fn cooldown_rejects_second_and_accepts_third() {
    let mut g = scoring_guild();
    let first = g.reaction_add(&reaction(1, 2, 10, Some(UP), 0)).unwrap();
    assert!(matches!(first, Reacted::Scored));
    let second = g.reaction_add(&reaction(1, 3, 11, Some(UP), 30)).unwrap();
    assert!(matches!(second, Reacted::Retract));
    assert_eq!(g.ledger.len(), 1);
    assert_eq!(g.ledger.find(1, 1, 11, UP), None);
    let third = g.reaction_add(&reaction(1, 3, 12, Some(UP), 61)).unwrap();
    assert!(matches!(third, Reacted::Scored));
    assert_eq!(g.ledger.len(), 2);
}

#[test]
fn rejected_reaction_does_not_restart_the_cooldown() {
    let mut c = Cooldowns::new();
    assert!(!c.check_cooldown(7, 1, 0, 60));
    assert!(c.check_cooldown(7, 1, 59, 60));
    assert!(!c.check_cooldown(7, 1, 60, 60));
    assert!(c.check_cooldown(7, 1, 100, 60));
    assert!(!c.check_cooldown(7, 2, 100, 60));
    assert!(!c.check_cooldown(8, 1, 100, 60));
}

#[test]
fn cooldown_is_the_smallest_among_the_roles() {
    let table = vec![
        Cooldown { role: 1, seconds: 120 },
        Cooldown { role: 2, seconds: 15 },
        Cooldown { role: 3, seconds: 5 },
    ];
    assert_eq!(applicable_cooldown(&table, &vec![1, 2], 60), 15);
    assert_eq!(applicable_cooldown(&table, &vec![1], 60), 120);
    assert_eq!(applicable_cooldown(&table, &vec![9], 60), 60);
    assert_eq!(applicable_cooldown(&table, &Vec::new(), 60), 60);
    assert_eq!(applicable_cooldown(&Vec::new(), &vec![1], 42), 42);
}

#[test]
fn twelve_upvotes_make_a_veteran() {
    let roles = vec![
        ScoreRole { role: 1, score: 0 },
        ScoreRole { role: 2, score: 10 },
        ScoreRole { role: 3, score: -5 },
    ];
    let mut g = scoring_guild();
    g.score_roles = roles.clone();
    for i in 0..12u64 {
        assert_eq!(g.ledger.insert(vote(50 + i, 2, 10, true, true)).unwrap(), true);
    }
    assert_eq!(g.ledger.user_score(2), 12);
    assert_eq!(level(&roles, 12), Some(10));
    let change = g.update_roles(2, &vec![1, 3, 77], false);
    assert_eq!(change.add, vec![2]);
    assert_eq!(change.remove, vec![1, 3]);
    let settled = g.update_roles(2, &vec![2, 77], false);
    assert!(settled.add.is_empty());
    assert!(settled.remove.is_empty());
}

#[test]
fn level_follows_the_side_of_the_score() {
    let roles = vec![
        ScoreRole { role: 1, score: 0 },
        ScoreRole { role: 2, score: 10 },
        ScoreRole { role: 3, score: -5 },
        ScoreRole { role: 4, score: -20 },
    ];
    assert_eq!(level(&roles, 0), Some(0));
    assert_eq!(level(&roles, 9), Some(0));
    assert_eq!(level(&roles, 10), Some(10));
    assert_eq!(level(&roles, -1), None);
    assert_eq!(level(&roles, -5), Some(-5));
    assert_eq!(level(&roles, -19), Some(-5));
    assert_eq!(level(&roles, -20), Some(-20));
    assert_eq!(level(&roles, i64::MIN), Some(-20));
    assert_eq!(level(&Vec::new(), 3), None);
    let warned = sync_level_up_roles(&roles, -7, &vec![2], false);
    assert_eq!(warned.add, vec![3]);
    assert_eq!(warned.remove, vec![2]);
    let bot = sync_level_up_roles(&roles, -7, &vec![2], true);
    assert!(bot.add.is_empty() && bot.remove.is_empty());
    let none = sync_level_up_roles(&roles, -1, &vec![1, 5], false);
    assert!(none.add.is_empty());
    assert_eq!(none.remove, vec![1]);
}

#[test]
fn gift_drains_gifted_rows_before_native_ones() {
    let mut ledger = Ledger::new();
    ledger.insert(vote(11, 1, 10, true, true)).unwrap();
    ledger.insert(vote(12, 1, 10, true, false)).unwrap();
    ledger.insert(vote(13, 1, 10, true, true)).unwrap();
    ledger.insert(vote(14, 1, 10, true, false)).unwrap();
    ledger.insert(vote(15, 1, 10, true, true)).unwrap();
    ledger.insert(vote(16, 1, 10, false, true)).unwrap();
    assert_eq!(plan(&ledger, 1, 2, 4), Gift::Confirm { amount: 4 });
    assert_eq!(ledger.gift(1, 2, 4), 4);
    assert_eq!(ledger.row(0), Some(vote(11, 2, 10, true, false)));
    assert_eq!(ledger.row(1), Some(vote(12, 2, 10, true, false)));
    assert_eq!(ledger.row(2), Some(vote(13, 2, 10, true, false)));
    assert_eq!(ledger.row(3), Some(vote(14, 2, 10, true, false)));
    assert_eq!(ledger.row(4), Some(vote(15, 1, 10, true, true)));
    assert_eq!(ledger.row(5), Some(vote(16, 1, 10, false, true)));
    assert_eq!(ledger.upvotes_received(1), 1);
    assert_eq!(ledger.upvotes_received(2), 4);
    assert_eq!(ledger.user_score(1), 0);
    assert_eq!(ledger.user_score(2), 4);
}

#[test]
fn gift_is_capped_and_never_to_oneself() {
    let mut ledger = Ledger::new();
    ledger.insert(vote(11, 1, 10, true, true)).unwrap();
    ledger.insert(vote(12, 1, 10, true, false)).unwrap();
    assert_eq!(plan(&ledger, 1, 1, 5), Gift::Refused);
    assert_eq!(plan(&ledger, 1, 2, 5), Gift::Confirm { amount: 2 });
    assert_eq!(plan(&ledger, 3, 2, 5), Gift::Confirm { amount: 0 });
    assert_eq!(ledger.gift(1, 1, 2), 0);
    assert_eq!(ledger.row(0), Some(vote(11, 1, 10, true, true)));
    assert_eq!(execute(&mut ledger, 1, 2, 1, Some(InteractionResponse::Abort)), None);
    assert_eq!(execute(&mut ledger, 1, 2, 1, None), None);
    assert_eq!(ledger.upvotes_received(1), 2);
    assert_eq!(execute(&mut ledger, 1, 2, 1, Some(InteractionResponse::Continue)), Some(1));
    assert_eq!(ledger.row(0), Some(vote(11, 1, 10, true, true)));
    assert_eq!(ledger.row(1), Some(vote(12, 2, 10, true, false)));
    assert_eq!(ledger.gift(1, 2, 9), 1);
    assert_eq!(ledger.gift(1, 2, 9), 0);
}

#[test]
fn ledger_keeps_one_row_for_each_reaction() {
    let mut ledger = Ledger::new();
    assert_eq!(ledger.insert(vote(1, 2, 10, true, true)).unwrap(), true);
    assert_eq!(ledger.insert(vote(1, 2, 10, true, true)).unwrap(), false);
    assert_eq!(ledger.insert(vote(1, 2, 10, false, true)).unwrap(), true);
    assert_eq!(ledger.len(), 2);
    assert_eq!(ledger.user_score(2), 0);
    assert_eq!(ledger.message_score(1, 10), Some(0));
    assert_eq!(ledger.message_score(1, 11), None);
    assert_eq!(ledger.remove_reaction(1, 1, 10, UP), Some(2));
    assert_eq!(ledger.remove_reaction(1, 1, 10, UP), None);
    assert_eq!(ledger.len(), 1);
    assert_eq!(ledger.user_score(2), -1);
    assert_eq!(ledger.row(0), Some(vote(1, 2, 10, false, true)));
    assert_eq!(ledger.row(1), None);
}

#[test]
fn removing_all_reactions_names_each_member_once() {
    let mut ledger = Ledger::new();
    ledger.insert(vote(1, 2, 10, true, true)).unwrap();
    ledger.insert(vote(3, 2, 10, true, true)).unwrap();
    ledger.insert(vote(4, 5, 10, true, false)).unwrap();
    ledger.insert(vote(1, 2, 11, true, true)).unwrap();
    let affected = ledger.remove_all_reactions(1, 10);
    assert_eq!(affected, vec![2, 5]);
    assert_eq!(ledger.len(), 1);
    assert_eq!(ledger.row(0), Some(vote(1, 2, 11, true, true)));
    assert!(ledger.remove_all_reactions(1, 10).is_empty());
    let gone = ledger.remove_where(&Selector::Channel { channel: 1 });
    assert_eq!(gone, vec![vote(1, 2, 11, true, true)]);
    assert_eq!(ledger.len(), 0);
}

#[test]
fn reactions_that_do_not_count_leave_no_trace() {
    let mut g = scoring_guild();
    assert!(matches!(g.reaction_add(&reaction(1, 1, 10, Some(UP), 0)).unwrap(), Reacted::Nothing));
    assert!(matches!(g.reaction_add(&reaction(1, 2, 10, Some(999), 0)).unwrap(), Reacted::Nothing));
    assert!(matches!(g.reaction_add(&reaction(1, 2, 10, None, 0)).unwrap(), Reacted::Nothing));
    assert_eq!(g.ledger.len(), 0);
    g.modules.set(Module::Score, false);
    assert!(matches!(g.reaction_add(&reaction(1, 2, 10, Some(UP), 0)).unwrap(), Reacted::Nothing));
    assert_eq!(g.ledger.len(), 0);
    g.modules.set(Module::Score, true);
    assert!(matches!(g.reaction_add(&reaction(1, 2, 10, Some(DOWN), 0)).unwrap(), Reacted::Scored));
    assert_eq!(g.ledger.row(0), Some(vote(1, 2, 10, false, true)));
    assert_eq!(g.reaction_remove(1, 1, 10, Some(999)), None);
    assert_eq!(g.reaction_remove(1, 1, 10, None), None);
    assert_eq!(g.reaction_remove(1, 1, 10, Some(DOWN)), Some(2));
    assert_eq!(g.ledger.len(), 0);
}

#[test]
fn reaction_roles_take_and_free_slots() {
    let mut g = scoring_guild();
    g.modules.set(Module::ReactionRoles, true);
    g.reaction_roles.push(Binding { channel: 1, message: 10, emoji: UP, mapping: ReactionRole::new(500, Some(1)) });
    g.reaction_roles.push(Binding { channel: 1, message: 11, emoji: UP, mapping: ReactionRole::new(501, None) });
    let steps = match g.reaction_add(&reaction(1, 2, 10, Some(UP), 0)).unwrap() {
        Reacted::Roles(steps) => steps,
        _ => panic!("expected role steps"),
    };
    assert_eq!(steps.len(), 1);
    assert_eq!((steps[0].binding, steps[0].role, steps[0].decision), (0, 500, Decision::Grant));
    assert_eq!(g.reaction_roles[0].mapping.slots(), Some(0));
    assert_eq!(g.ledger.len(), 0);
    let rejected = match g.reaction_add(&reaction(3, 2, 10, Some(UP), 0)).unwrap() {
        Reacted::Roles(steps) => steps,
        _ => panic!("expected role steps"),
    };
    assert_eq!(rejected[0].decision, Decision::Reject);
    assert_eq!(g.reaction_roles[0].mapping.occupancy(), 1);
    assert!(g.complete_role(&steps[0], 1, false));
    assert_eq!(g.reaction_roles[0].mapping.slots(), Some(1));
    assert!(!g.reaction_roles[0].mapping.holds(1));
    let mut bot = reaction(4, 2, 10, Some(UP), 0);
    bot.bot = true;
    assert!(matches!(g.reaction_add(&bot).unwrap(), Reacted::Nothing));
    assert_eq!(g.reaction_roles[0].mapping.occupancy(), 0);
    let granted = match g.reaction_add(&reaction(3, 2, 10, Some(UP), 0)).unwrap() {
        Reacted::Roles(steps) => steps,
        _ => panic!("expected role steps"),
    };
    assert_eq!(granted[0].decision, Decision::Grant);
    assert!(g.complete_role(&granted[0], 3, true));
    let toggled = match g.reaction_add(&reaction(3, 2, 10, Some(UP), 0)).unwrap() {
        Reacted::Roles(steps) => steps,
        _ => panic!("expected role steps"),
    };
    assert_eq!(toggled[0].decision, Decision::Revoke);
    assert_eq!(g.reaction_roles[0].mapping.slots(), Some(0));
    assert!(g.complete_role(&toggled[0], 3, true));
    assert_eq!(g.reaction_roles[0].mapping.slots(), Some(1));
    assert_eq!(g.reaction_roles[0].mapping.occupancy(), 0);
    assert_eq!(g.reaction_roles[1].mapping.occupancy(), 0);
}

#[test]
fn auto_moderation_thresholds() {
    let none = AutoModeration { pin: false, delete: false };
    assert_eq!(evaluate_auto_moderation(Some(5), Some(5), Some(-3), false), AutoModeration { pin: true, delete: false });
    assert_eq!(evaluate_auto_moderation(Some(4), Some(5), Some(-3), false), none);
    assert_eq!(evaluate_auto_moderation(Some(5), Some(5), Some(-3), true), none);
    assert_eq!(evaluate_auto_moderation(Some(-3), Some(5), Some(-3), false), AutoModeration { pin: false, delete: true });
    assert_eq!(evaluate_auto_moderation(Some(-2), Some(5), Some(-3), false), none);
    assert_eq!(evaluate_auto_moderation(Some(7), Some(5), Some(6), false), AutoModeration { pin: true, delete: true });
    assert_eq!(evaluate_auto_moderation(Some(-9), Some(-5), None, false), AutoModeration { pin: true, delete: false });
    assert_eq!(evaluate_auto_moderation(None, Some(0), Some(0), false), none);
    assert_eq!(evaluate_auto_moderation(Some(0), Some(0), None, false), AutoModeration { pin: true, delete: false });
    assert_eq!(evaluate_auto_moderation(Some(9), None, None, false), none);
}

#[test]
fn moderating_again_after_deletion_raises_no_error() {
    let mut g = scoring_guild();
    g.delete_at = Some(-2);
    g.ledger.insert(vote(1, 9, 10, false, true)).unwrap();
    g.ledger.insert(vote(2, 9, 10, false, true)).unwrap();
    let first = g.auto_moderate(1, 10, false);
    assert_eq!(first, AutoModeration { pin: false, delete: true });
    assert!(settle(PlatformReply::Done).is_ok());
    let again = g.auto_moderate(1, 10, false);
    assert_eq!(again, first);
    assert!(settle(PlatformReply::Gone).is_ok());
    match settle(PlatformReply::Failed("forbidden".to_string())) {
        Err(KowalskiError::DiscordApiError(why)) => assert_eq!(why, "forbidden"),
        _ => panic!("expected the platform's error"),
    }
}

#[test]
fn departed_member_drops_its_score() {
    let mut g = scoring_guild();
    g.ledger.insert(vote(1, 2, 10, true, true)).unwrap();
    g.ledger.insert(vote(3, 2, 11, false, true)).unwrap();
    g.ledger.insert(vote(2, 3, 12, true, true)).unwrap();
    g.ledger.insert(vote(1, 3, 13, true, true)).unwrap();
    g.score_drops.push(40);
    g.score_drops.push(41);
    assert_eq!(g.guild_member_removal(2, 5), Departure::Offer { channel: 41, score: 0 });
    assert_eq!(g.ledger.len(), 4);
    assert_eq!(g.pickup_resolved(2, Some(9)), 2);
    assert_eq!(g.ledger.len(), 3);
    assert_eq!(g.ledger.row(0), Some(vote(1, 9, 10, true, false)));
    assert_eq!(g.ledger.row(1), Some(vote(3, 9, 11, false, false)));
    assert_eq!(g.ledger.row(2), Some(vote(1, 3, 13, true, true)));
    g.score_drops.clear();
    assert_eq!(g.guild_member_removal(3, 0), Departure::Deleted { rows: 2 });
    assert_eq!(g.ledger.len(), 1);
    assert_eq!(g.ledger.row(0), Some(vote(1, 9, 10, true, false)));
}

#[test]
fn offer_that_times_out_deletes_the_member() {
    let mut g = scoring_guild();
    g.modules.set(Module::ReactionRoles, true);
    let mut mapping = ReactionRole::new(500, Some(2));
    assert_eq!(mapping.evaluate(2, false), Decision::Grant);
    g.reaction_roles.push(Binding { channel: 1, message: 10, emoji: UP, mapping });
    g.ledger.insert(vote(1, 2, 10, true, true)).unwrap();
    g.ledger.insert(vote(1, 3, 11, true, true)).unwrap();
    assert_eq!(g.pickup_resolved(2, None), 0);
    assert_eq!(g.ledger.len(), 1);
    assert_eq!(g.ledger.row(0), Some(vote(1, 3, 11, true, true)));
    assert_eq!(g.reaction_roles[0].mapping.slots(), Some(2));
    assert!(!g.reaction_roles[0].mapping.holds(2));
}
