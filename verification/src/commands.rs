//! The bot's chat commands.  The transport layer parses the slash-command
//! syntax; this is the decision space the dispatcher matches on.

use vstd::prelude::*;

verus! {

/// Every command a chat message can carry.
#[derive(Clone, Debug, PartialEq)]
pub enum Command {
    /// Show the help text.
    Start,
    /// Show the help text.
    Help,
    /// Show the current list.
    List,
    /// Finalize and archive the current list, starting a new one.
    Archive,
    /// Archive only checked items, keeping the rest.
    ArchiveDone,
    /// Show a temporary panel to delete items from the list.
    Delete,
    /// Send the list as plain text for copying.
    Share,
    /// Completely delete the current list.
    Nuke,
    /// Parse the message into items via the AI collaborator.
    Parse,
    /// Show system information.
    Info,
    /// Issue an API token, optionally named.
    CreateToken(String),
    /// List the chat's API tokens.
    Tokens,
    /// Revoke an API token.
    RevokeToken(String),
}

} // verus!
