use kowalski::database::client::{
    Database, Emoji, EntityName, Key, Kind, Progress, Request, Resolver, Resolving, StoreReply,
};
use kowalski::error::KowalskiError;

fn user_key(guild: i64, user: i64) -> EntityName {
    EntityName::Keyed(Key { kind: Kind::User, scope: guild, external: user })
}

fn take_turn(db: &mut Database, key: &EntityName, resolver: &mut Resolver) {
    if let Progress::Ask(request) = resolver.progress() {
        let reply = db.answer(&key, request);
        resolver.advance(reply);
    }
}

#[test]
fn racing_resolutions_agree_on_one_row() {
    let mut db = Database::new();
    assert_eq!(db.get_role(1, 5).unwrap(), 0);
    let key = user_key(1, 42);
    let mut tasks = vec![Resolver::new(), Resolver::new(), Resolver::new(), Resolver::new()];
    // all look up first and find nothing
    for t in tasks.iter_mut() {
        take_turn(&mut db, &key, t);
        assert_eq!(t.state(), Resolving::Insert);
    }
    // the third one wins the insert, the others meet its row
    take_turn(&mut db, &key, &mut tasks[2]);
    assert_eq!(tasks[2].state(), Resolving::Done(1));
    take_turn(&mut db, &key, &mut tasks[0]);
    assert_eq!(tasks[0].state(), Resolving::Recheck);
    take_turn(&mut db, &key, &mut tasks[3]);
    take_turn(&mut db, &key, &mut tasks[1]);
    take_turn(&mut db, &key, &mut tasks[1]);
    take_turn(&mut db, &key, &mut tasks[0]);
    take_turn(&mut db, &key, &mut tasks[3]);
    for t in tasks.iter_mut() {
        take_turn(&mut db, &key, t);
        assert_eq!(t.state(), Resolving::Done(1));
        assert!(matches!(t.progress(), Progress::Resolved(1)));
    }
    assert_eq!(db.len(), 2);
    assert_eq!(db.select(&key), Some(1));
}

#[test]
fn resolving_twice_gives_the_same_identifier() {
    let mut db = Database::new();
    let a = db.get_user(1, 42).unwrap();
    let b = db.get_user(1, 43).unwrap();
    let c = db.get_user(2, 42).unwrap();
    assert_eq!((a, b, c), (0, 1, 2));
    assert_eq!(db.get_user(1, 42).unwrap(), a);
    assert_eq!(db.get_user(2, 42).unwrap(), c);
    assert_eq!(db.len(), 3);
    assert_eq!(db.get_role(1, 42).unwrap(), 3);
    assert_eq!(db.get_emoji(1, &Emoji::Custom(42)).unwrap(), 4);
    assert_eq!(db.resolve(&user_key(1, 43)).unwrap(), b);
    assert_eq!(db.len(), 5);
}

#[test]
fn message_brings_its_channel() {
    let mut db = Database::new();
    let message = db.get_message(1, 30, 900).unwrap();
    assert_eq!(message, 1);
    assert_eq!(db.len(), 2);
    assert_eq!(db.get_channel(1, 30).unwrap(), 0);
    assert_eq!(db.get_message(1, 30, 900).unwrap(), 1);
    assert_eq!(db.get_message(1, 30, 901).unwrap(), 2);
    assert_eq!(db.get_message(1, 31, 900).unwrap(), 4);
    assert_eq!(db.select(&EntityName::Keyed(Key { kind: Kind::Message, scope: 3, external: 900 })), Some(4));
    assert_eq!(db.len(), 5);
}

#[test]
fn resolver_follows_the_store() {
    let mut r = Resolver::new();
    assert!(matches!(r.progress(), Progress::Ask(Request::Select)));
    r.advance(StoreReply::NoRow);
    assert!(matches!(r.progress(), Progress::Ask(Request::Insert)));
    r.advance(StoreReply::NoRow);
    assert!(matches!(r.progress(), Progress::Ask(Request::SelectAgain)));
    r.advance(StoreReply::NoRow);
    assert_eq!(r.state(), Resolving::Exhausted);
    assert!(matches!(r.progress(), Progress::Abort(KowalskiError::IdentityRaceExhausted)));
    r.advance(StoreReply::Row(5));
    assert_eq!(r.state(), Resolving::Exhausted);

    let mut failing = Resolver::new();
    failing.advance(StoreReply::Error);
    assert!(matches!(failing.progress(), Progress::Abort(KowalskiError::DatabaseError)));

    let mut late = Resolver::new();
    late.advance(StoreReply::NoRow);
    late.advance(StoreReply::Error);
    assert!(matches!(late.progress(), Progress::Abort(KowalskiError::DatabaseError)));

    let mut lost = Resolver::new();
    lost.advance(StoreReply::NoRow);
    lost.advance(StoreReply::NoRow);
    lost.advance(StoreReply::Error);
    assert!(matches!(lost.progress(), Progress::Abort(KowalskiError::IdentityRaceExhausted)));

    let mut found = Resolver::new();
    found.advance(StoreReply::Row(8));
    assert!(matches!(found.progress(), Progress::Resolved(8)));
    found.advance(StoreReply::NoRow);
    assert_eq!(found.state(), Resolving::Done(8));
}

#[test]
fn store_answers_as_its_rows_say() {
    let mut db = Database::new();
    let key = user_key(1, 2);
    assert_eq!(db.answer(&key, Request::Select), StoreReply::NoRow);
    assert_eq!(db.answer(&key, Request::SelectAgain), StoreReply::NoRow);
    assert_eq!(db.answer(&key, Request::Insert), StoreReply::Row(0));
    assert_eq!(db.answer(&key, Request::Insert), StoreReply::NoRow);
    assert_eq!(db.answer(&key, Request::Select), StoreReply::Row(0));
    assert_eq!(db.answer(&user_key(1, 3), Request::Insert), StoreReply::Row(1));
    assert_eq!(db.len(), 2);
}

#[test]
fn unicode_emoji_is_resolved_by_its_text() {
    let mut db = Database::new();
    let thumbs = Emoji::Unicode("\u{1F44D}".to_string());
    let heart = Emoji::Unicode("\u{2764}".to_string());
    assert_eq!(db.get_emoji(1, &thumbs).unwrap(), 0);
    assert_eq!(db.get_emoji(2, &thumbs).unwrap(), 0);
    assert_eq!(db.get_emoji(1, &heart).unwrap(), 1);
    assert_eq!(db.get_emoji(1, &Emoji::Custom(7)).unwrap(), 2);
    assert_eq!(db.get_emoji(2, &Emoji::Custom(7)).unwrap(), 3);
    assert_eq!(db.get_emoji(1, &Emoji::Custom(7)).unwrap(), 2);
    assert_eq!(db.get_emoji(9, &heart).unwrap(), 1);
    assert_eq!(db.len(), 4);
    let text = EntityName::Text("\u{1F44D}".to_string());
    assert_eq!(db.select(&text), Some(0));
    assert_eq!(db.select(&EntityName::Text("x".to_string())), None);
    assert!(text.same(&text.copy()));
    assert!(!text.same(&user_key(1, 2)));
    assert!(user_key(1, 2).same(&user_key(1, 2)));
    assert!(!user_key(1, 2).same(&user_key(1, 3)));
}
