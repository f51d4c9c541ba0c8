//! The application's configuration, as read from its configuration file.

use vstd::prelude::*;

verus! {

/// The servers and links the application uses.
pub struct Config {
    pub content_server_url: String,
    pub main_server_url: String,
    pub discord_server_invite: String,
}

} // verus!
