//! The plugin configuration, read once at start and immutable at run
//! time. Transport code fills it from its configuration file and hands
//! it to the decision functions.

use vstd::prelude::*;

verus! {

/// The configuration surface: authentication token, target channel,
/// command prefix, the five message templates, the optional online-count
/// channel-name template, the two role-priority tables, the optional
/// role granted on verification and the nickname-sync flag.
#[derive(Debug, Clone)]
pub struct Config {
    pub token: String,
    pub channel_id: String,
    pub channel_name_online_format: String,
    pub discord_prefix: String,
    pub game_message_format: String,
    pub discord_message_format: String,
    pub join_message_format: String,
    pub leave_message_format: String,
    pub server_start_format: String,
    pub game_roles: Vec<String>,
    pub discord_roles: Vec<String>,
    pub verified_role: String,
    pub verified_nickname: bool,
}

} // verus!
