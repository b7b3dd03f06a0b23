//! A guild bot that lets members pick their play roles from a menu.
//!
//! The library holds the bot's logic: the registry of commands and the
//! routing of interactions to them, the choice of the roles offered, and the
//! minimal change of roles that a member's pick calls for. The platform
//! connection around it hands it plain values and performs what it decides.
pub mod bot;
pub mod registry;
pub mod roles;
pub mod spela;
pub mod text;
