pub mod guild_member_removal;
pub mod reaction;
