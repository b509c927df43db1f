//! Runtime configuration records.  Reading the environment happens
//! outside; the records themselves, and the store-URL normalization, live
//! here.

use vstd::prelude::*;

use crate::strutil::{contains_spec, contains_str, starts_with, starts_with_spec};

verus! {

/// Configuration of the AI collaborators.
#[derive(Clone)]
pub struct AiConfig {
    pub api_key: String,
    pub stt_model: String,
    pub gpt_model: String,
    pub vision_model: String,
    pub openai_chat_url: Option<String>,
    pub openai_stt_url: Option<String>,
}

/// Configuration of the speech-to-text collaborator alone.
#[derive(Clone)]
pub struct SttConfig {
    pub api_key: String,
    pub model: String,
}

/// The application's configuration.
#[derive(Clone)]
pub struct Config {
    pub db_url: String,
    pub db_pool_size: u32,
    pub ai: Option<AiConfig>,
    pub delete_after_timeout: u64,
}

/// How a SQLite URL is prepared: a `sqlite:` URL without an explicit mode
/// and not in-memory gets `mode=rwc` appended, joined with `&` when a
/// query string already exists; everything else passes unchanged.
pub open spec fn prepare_sqlite_url_spec(s: Seq<char>) -> Seq<char> {
    if starts_with_spec(s, "sqlite:"@) && !contains_spec(s, "mode="@) && !contains_spec(
        s,
        ":memory:"@,
    ) {
        if contains_spec(s, "?"@) {
            s + "&mode=rwc"@
        } else {
            s + "?mode=rwc"@
        }
    } else {
        s
    }
}

/// Normalize a SQLite database URL so that the database is created on
/// first use.
pub fn prepare_sqlite_url(url: &str) -> (r: String)
    ensures
        r@ == prepare_sqlite_url_spec(url@),
{
    if starts_with(url, "sqlite:") && !contains_str(url, "mode=") && !contains_str(
        url,
        ":memory:",
    ) {
        let mut s = url.to_owned();
        if contains_str(url, "?") {
            s.append("&mode=rwc");
        } else {
            s.append("?mode=rwc");
        }
        s
    } else {
        url.to_owned()
    }
}

} // verus!
