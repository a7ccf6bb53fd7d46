use crate::error::KowalskiError;
use vstd::prelude::*;

verus! {

/// What automatic moderation asks of the platform for one message.
#[derive(Debug, Clone, Copy, PartialEq, Eq, Structural)]
pub struct AutoModeration {
    pub pin: bool,
    pub delete: bool,
}

/// How the platform answered a moderation request.
#[derive(Debug)]
pub enum PlatformReply {
    /// The request was carried out.
    Done,
    /// The message is not there any more.
    Gone,
    /// The platform failed in some other way.
    Failed(String),
}

/// A score crosses a threshold on the threshold's side of zero: a threshold
/// from zero up is crossed by scores at least as high, a threshold below
/// zero by scores at least as low.
pub open spec fn crosses(score: int, threshold: int) -> bool {
    (threshold >= 0 && score >= threshold) || (threshold < 0 && score <= threshold)
}

/// Whether a message with the live score `score` is to be pinned or deleted.
/// A message without score reactions has no score and is left alone.
pub open spec fn moderation_for(
    score: Option<i64>,
    pin_at: Option<i64>,
    delete_at: Option<i64>,
    pinned: bool,
) -> AutoModeration {
    AutoModeration {
        pin: score is Some && pin_at is Some && !pinned && crosses(
            score->0 as int,
            pin_at->0 as int,
        ),
        delete: score is Some && delete_at is Some && crosses(
            score->0 as int,
            delete_at->0 as int,
        ),
    }
}

/// Whether `score` crosses `threshold`.
pub fn crossed(score: i64, threshold: i64) -> (r: bool)
    ensures
        r == crosses(score as int, threshold as int),
{
    (threshold >= 0 && score >= threshold) || (threshold < 0 && score <= threshold)
}

/// Decides what automatic moderation does to a message.
///
/// `score` is the message's live score, `pin_at` and `delete_at` are the
/// guild's thresholds where it has set them, and `pinned` says whether the
/// message is pinned already. The two decisions do not depend on each other.
pub fn evaluate_auto_moderation(
    score: Option<i64>,
    pin_at: Option<i64>,
    delete_at: Option<i64>,
    pinned: bool,
) -> (r: AutoModeration)
    ensures
        r == moderation_for(score, pin_at, delete_at, pinned),
{
    match score {
        None => AutoModeration { pin: false, delete: false },
        Some(s) => {
            let pin = match pin_at {
                Some(t) => !pinned && crossed(s, t),
                None => false,
            };
            let delete = match delete_at {
                Some(t) => crossed(s, t),
                None => false,
            };
            AutoModeration { pin, delete }
        },
    }
}

/// Turns the platform's answer to a moderation request into the outcome of
/// the evaluation. A message that is gone counts as moderated: only another
/// failure is an error, and it carries the platform's words.
pub fn settle(reply: PlatformReply) -> (r: Result<(), KowalskiError>)
    ensures
        reply is Done || reply is Gone <==> r is Ok,
        reply matches PlatformReply::Failed(why) ==> (r matches Err(
            KowalskiError::DiscordApiError(m),
        ) && m == why),
{
    match reply {
        PlatformReply::Done => Ok(()),
        PlatformReply::Gone => Ok(()),
        PlatformReply::Failed(why) => Err(KowalskiError::DiscordApiError(why)),
    }
}

/// Evaluating a message again after its pin was applied asks for no second
/// pin, whatever the score and the thresholds are; and the decision depends
/// on nothing but the score, the thresholds and the pin, so that evaluating
/// twice on the same state decides the same.
pub proof fn lemma_reevaluation_does_not_pin_again(
    score: Option<i64>,
    pin_at: Option<i64>,
    delete_at: Option<i64>,
    pinned: bool,
)
    ensures
        moderation_for(score, pin_at, delete_at, pinned).pin ==> !moderation_for(
            score,
            pin_at,
            delete_at,
            true,
        ).pin,
        moderation_for(score, pin_at, delete_at, true).delete == moderation_for(
            score,
            pin_at,
            delete_at,
            pinned,
        ).delete,
{
}

} // verus!
