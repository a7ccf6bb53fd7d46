//! The scoring and role engine of a chat bot.
//!
//! Members of a guild react to messages with emojis. Reactions with score
//! emojis are votes: the [`ledger`] holds them, [`cooldowns`] limit how often
//! a member may vote, [`levelup`] derives the roles that a score earns, and
//! [`moderation`] pins or deletes messages by their live score. Reactions on
//! reaction-role messages give and take roles with a limited number of slots
//! ([`reaction_roles`]). [`events`] ties these together for each event of the
//! platform, and [`database`] resolves the platform's identifiers to those of
//! the store.
//!
//! Nothing here talks to the platform or to the store. Every function takes
//! what was read from them as plain values and says what is to be done, so
//! that its contract holds whatever order the events arrive in.
pub mod commands;
pub mod cooldowns;
pub mod database;
pub mod error;
pub mod event_cache;
pub mod events;
pub mod ledger;
pub mod levelup;
pub mod migration;
pub mod moderation;
pub mod reaction_roles;
pub mod seqs;
