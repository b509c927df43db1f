//! Shared text sent by the bot.
//!
//! Keep all user-facing strings in this module so they stay in one place and
//! are easy to update or translate.

use vstd::prelude::*;

verus! {

pub const HELP_TEXT: &'static str =
    "Send me any text to add it to your list. Each line will be a new item.\nYou can tap the checkbox button next to an item to mark it as bought.\n\n<b>Commands:</b>\n/list - Show the current list.\n/archive - Finalize and archive the current list, starting a new one.\n/done - Archive only checked items, keeping the rest.\n/delete - Show a temporary panel to delete items from the list.\n/share - Send the list as plain text for copying.\n/nuke - Completely delete the current list.\n/parse - Parse this message into items via GPT.\n/info - Show system information.";

pub const GPT_PARSING_DISABLED: &'static str = "GPT parsing is disabled.";

pub const NO_ACTIVE_LIST_TO_EDIT: &'static str = "There is no active list to edit.";

pub const NO_ACTIVE_LIST_TO_ARCHIVE: &'static str = "There is no active list to archive.";

pub const LIST_EMPTY_ADD_ITEM: &'static str =
    "Your list is empty! Send any message to add an item.";

pub const LIST_EMPTY: &'static str = "Your list is empty!";

pub const LIST_NOW_EMPTY: &'static str = "List is now empty!";

pub const LIST_ARCHIVED: &'static str = "List archived! Send a message to start a new one.";

pub const LIST_NUKED: &'static str = "The active list has been nuked.";

pub const CHECKED_ITEMS_ARCHIVED: &'static str = "Checked items archived!";

pub const NO_CHECKED_ITEMS_TO_ARCHIVE: &'static str =
    "There are no checked items to archive.";

pub const DELETE_SELECT_PROMPT: &'static str =
    "Select items to delete, then tap 'Done Deleting'.";

pub const DELETE_DONE_LABEL: &'static str = "✅ Done Deleting";

pub const DELETE_DM_FAILED: &'static str =
    "Unable to send you a private delete panel. Have you started me in private?";

pub const DEFAULT_CHAT_NAME: &'static str = "your list";

pub const ARCHIVED_LIST_HEADER: &'static str = "--- Archived List ---";

pub const VOICE_REMOVED_PREFIX: &'static str = "🗑 Removed via voice request:\n";

/// The private panel's text: which chat it edits, then the selection prompt.
pub fn delete_dm_text(chat_name: &str, list_text: &str) -> (r: String)
    ensures
        r@ == "Deleting items from "@ + chat_name@ + ".\n\n"@ + list_text@,
{
    let mut s = String::new();
    s.append("Deleting items from ");
    s.append(chat_name);
    s.append(".\n\n");
    s.append(list_text);
    s
}

/// The group-visible notice that a user is busy selecting items.
pub fn delete_user_selecting_text(user_name: &str) -> (r: String)
    ensures
        r@ == user_name@ + " is selecting items to delete..."@,
{
    let mut s = String::new();
    s.append(user_name);
    s.append(" is selecting items to delete...");
    s
}

} // verus!
