//! New records: a fresh id and the current time, fields as given.

use vstd::prelude::*;
use crate::models::{Interaction, Prompt};

verus! {

/// Relies on uuid's `Uuid::new_v4` and its `Display` impl: a random
/// version-4 id written in hyphenated form, 36 characters long.
#[verifier::external_body]
fn new_id() -> (r: String)
    ensures
        r@.len() == 36,
{
    uuid::Uuid::new_v4().to_string()
}

/// Relies on chrono's `Utc::now` and `DateTime::to_rfc3339`: the current
/// time in RFC 3339 form. Nothing is claimed about its value.
#[verifier::external_body]
fn now_rfc3339() -> (r: String) {
    chrono::Utc::now().to_rfc3339()
}

impl Prompt {
    /// A prompt without repository context, with a fresh id and the current time.
    pub fn new(text: String) -> (r: Prompt)
        ensures
            r.text == text,
            r.repo is None,
            r.branch is None,
            r.id@.len() == 36,
    {
        Prompt { id: new_id(), text, repo: None, branch: None, timestamp: now_rfc3339() }
    }

    /// A prompt with the given context, a fresh id and the current time.
    pub fn with_context(text: String, repo: Option<String>, branch: Option<String>) -> (r: Prompt)
        ensures
            r.text == text,
            r.repo == repo,
            r.branch == branch,
            r.id@.len() == 36,
    {
        Prompt { id: new_id(), text, repo, branch, timestamp: now_rfc3339() }
    }
}

/// A new prompt: a fresh id and the current time; storage is not touched.
pub fn create_prompt(text: String, repo: Option<String>, branch: Option<String>) -> (r: Prompt)
    ensures
        r.text == text,
        r.repo == repo,
        r.branch == branch,
        r.id@.len() == 36,
{
    Prompt::with_context(text, repo, branch)
}

/// A new interaction, its analysis not yet filled in; storage is not touched.
pub fn create_interaction(
    original_prompt: String,
    enhanced_prompt: String,
    repo: Option<String>,
    branch: Option<String>,
    model: Option<String>,
) -> (r: Interaction)
    ensures
        r.original_prompt == original_prompt,
        r.enhanced_prompt == enhanced_prompt,
        r.repo == repo,
        r.branch == branch,
        r.model == model,
        r.response_summary is None,
        r.effectiveness_score is None,
        r.duration_ms is None,
        r.id@.len() == 36,
{
    Interaction {
        id: new_id(),
        original_prompt,
        enhanced_prompt,
        response_summary: None,
        effectiveness_score: None,
        repo,
        branch,
        model,
        duration_ms: None,
        timestamp: now_rfc3339(),
    }
}

} // verus!
