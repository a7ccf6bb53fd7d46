pub mod clean;
pub mod drop;
pub mod gift;
pub mod moderation;
pub mod module;
pub mod reactionrole;
