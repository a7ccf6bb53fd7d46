use kowalski::commands::module::Module;
use kowalski::events::reaction::{Binding, GuildState, ScoreEmoji};
use kowalski::ledger::{Ledger, ScoreReaction, Selector};
use kowalski::levelup::{handles, roles_earned, ScoreRole};
use kowalski::reaction_roles::ReactionRole;
use kowalski::seqs::{contains, without};

fn row(from: u64, to: u64, channel: u64, message: u64, emoji: u64, upvote: bool) -> ScoreReaction {
    ScoreReaction { user_from: from, user_to: to, channel, message, emoji, upvote, native: true }
}

fn filled() -> Ledger {
    let mut ledger = Ledger::new();
    ledger.insert(row(1, 2, 1, 10, 100, true)).unwrap();
    ledger.insert(row(3, 2, 1, 10, 100, true)).unwrap();
    ledger.insert(row(3, 2, 1, 10, 101, false)).unwrap();
    ledger.insert(row(2, 1, 2, 20, 100, true)).unwrap();
    ledger.insert(row(4, 5, 2, 21, 100, true)).unwrap();
    ledger
}

#[test]
fn scores_sum_up_and_down() {
    let ledger = filled();
    assert_eq!(ledger.len(), 5);
    assert_eq!(ledger.user_score(2), 1);
    assert_eq!(ledger.user_score(1), 1);
    assert_eq!(ledger.user_score(9), 0);
    assert_eq!(ledger.upvotes_received(2), 2);
    assert_eq!(ledger.message_score(1, 10), Some(1));
    assert_eq!(ledger.message_score(2, 21), Some(1));
    assert_eq!(ledger.message_score(2, 10), None);
    assert_eq!(ledger.find(3, 1, 10, 101), Some(2));
    assert_eq!(ledger.find(3, 1, 10, 102), None);
    let mut down = Ledger::new();
    down.insert(row(1, 2, 1, 10, 101, false)).unwrap();
    down.insert(row(3, 2, 1, 10, 101, false)).unwrap();
    assert_eq!(down.user_score(2), -2);
    assert_eq!(down.message_score(1, 10), Some(-2));
    assert_eq!(down.upvotes_received(2), 0);
}

#[test]
fn transfer_moves_every_vote_of_a_member() {
    let mut ledger = filled();
    assert_eq!(ledger.transfer_all(2, 7), 3);
    assert_eq!(ledger.len(), 5);
    let moved = ScoreReaction { user_to: 7, native: false, ..row(1, 2, 1, 10, 100, true) };
    assert_eq!(ledger.row(0), Some(moved));
    let down = ScoreReaction { user_to: 7, native: false, ..row(3, 2, 1, 10, 101, false) };
    assert_eq!(ledger.row(2), Some(down));
    assert_eq!(ledger.row(3), Some(row(2, 1, 2, 20, 100, true)));
    assert_eq!(ledger.user_score(7), 1);
    assert_eq!(ledger.user_score(2), 0);
    assert_eq!(ledger.transfer_all(2, 7), 0);
    assert_eq!(ledger.transfer_all(7, 7), 3);
    assert_eq!(ledger.user_score(7), 1);
}

#[test]
fn selectors_pick_their_rows() {
    let mut ledger = filled();
    let stale = Selector::Stale { channel: 1, message: 10, emoji: 100, reactors: vec![3] };
    assert_eq!(ledger.remove_where(&stale), vec![row(1, 2, 1, 10, 100, true)]);
    assert_eq!(ledger.len(), 4);
    let departed = Selector::Departed { members: vec![1, 2, 3, 4] };
    assert_eq!(ledger.remove_where(&departed), vec![row(4, 5, 2, 21, 100, true)]);
    let user = Selector::User { user: 1 };
    assert_eq!(ledger.remove_where(&user), vec![row(2, 1, 2, 20, 100, true)]);
    let message = Selector::Message { channel: 1, message: 10 };
    assert_eq!(
        ledger.remove_where(&message),
        vec![row(3, 2, 1, 10, 100, true), row(3, 2, 1, 10, 101, false)]
    );
    assert_eq!(ledger.len(), 0);
    assert!(ledger.remove_where(&Selector::Channel { channel: 1 }).is_empty());
}

#[test]
fn guild_classifies_by_the_newest_entry() {
    let mut g = GuildState::new(60);
    assert_eq!(g.classify(100), None);
    g.score_emojis.push(ScoreEmoji { emoji: 100, upvote: true });
    g.score_emojis.push(ScoreEmoji { emoji: 101, upvote: false });
    assert_eq!(g.classify(100), Some(true));
    assert_eq!(g.classify(101), Some(false));
    g.score_emojis.push(ScoreEmoji { emoji: 100, upvote: false });
    assert_eq!(g.classify(100), Some(false));
    assert_eq!(g.classify(102), None);
    assert!(!g.any_bound(1, 10, 100));
    g.reaction_roles.push(Binding { channel: 1, message: 10, emoji: 100, mapping: ReactionRole::new(5, None) });
    assert!(g.any_bound(1, 10, 100));
    assert!(!g.any_bound(1, 10, 101));
    assert!(!g.any_bound(1, 11, 100));
    assert!(!g.any_bound(2, 10, 100));
}

#[test]
fn removing_all_reactions_of_a_message_in_a_guild() {
    let mut g = GuildState::new(60);
    g.modules.set(Module::Score, true);
    g.ledger = filled();
    assert_eq!(g.reaction_remove_all(1, 10), vec![2]);
    assert_eq!(g.ledger.len(), 2);
    assert!(g.reaction_remove_all(1, 10).is_empty());
    assert_eq!(g.auto_moderate(1, 10, false).pin, false);
    g.pin_at = Some(1);
    assert_eq!(g.auto_moderate(2, 20, false).pin, true);
    assert_eq!(g.auto_moderate(2, 20, true).pin, false);
    assert_eq!(g.auto_moderate(1, 10, false).pin, false);
}

#[test]
fn role_lists() {
    let roles = vec![
        ScoreRole { role: 1, score: 0 },
        ScoreRole { role: 2, score: 10 },
        ScoreRole { role: 4, score: 10 },
    ];
    assert_eq!(roles_earned(&roles, Some(10)), vec![2, 4]);
    assert_eq!(roles_earned(&roles, Some(0)), vec![1]);
    assert!(roles_earned(&roles, Some(5)).is_empty());
    assert!(roles_earned(&roles, None).is_empty());
    assert!(handles(&roles, 4));
    assert!(!handles(&roles, 3));
    assert!(contains(&vec![1, 2, 3], 2));
    assert!(!contains(&vec![1, 2, 3], 4));
    assert!(!contains(&Vec::new(), 4));
    assert_eq!(without(&vec![1, 2, 3, 2], &vec![2]), vec![1, 3]);
    assert_eq!(without(&vec![1, 2], &Vec::new()), vec![1, 2]);
    assert!(without(&Vec::new(), &vec![1]).is_empty());
}
