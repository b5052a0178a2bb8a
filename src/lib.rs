//! Capture, de-duplicate and resurface short prompts.
//!
//! The repository logic works on an in-memory [`PromptStore`]; the
//! surrounding program loads it from and writes it back to its database.

pub mod capture;
pub mod create;
pub mod db;
pub mod enhance;
pub mod error;
pub mod git;
pub mod history;
pub mod laws;
pub mod models;
pub mod rank;
pub mod text;

pub use error::Error;
pub use models::{ClaudeHistoryEntry, Fraction, GitInfo, InteractionStats, Interaction, Pattern, Prompt};
pub use db::PromptStore;

use vstd::prelude::*;
use crate::create::create_prompt;
use crate::db::{
    delete_prompt, get_prompt_count, get_prompts, has_prompt_id, has_text, listing, prompt_exists,
    save_prompt, update_prompt,
};

verus! {

/// Some row has an id of the length that new ids have: only then can a
/// new id be taken already.
pub open spec fn id_length_taken(rows: Seq<Prompt>) -> bool {
    exists|i: int| 0 <= i < rows.len() && (#[trigger] rows[i]).id@.len() == 36
}

/// Store `prompt` unless its text is already stored: the de-duplicating save.
pub fn save_new(db: &mut PromptStore, prompt: Prompt) -> (r: Result<Prompt, Error>)
    requires
        old(db).wf(),
    ensures
        final(db).wf(),
        final(db).interaction_rows() == old(db).interaction_rows(),
        final(db).pattern_rows() == old(db).pattern_rows(),
        has_text(old(db).prompt_rows(), prompt.text@) ==> (r matches Err(Error::Duplicate))
            && final(db).prompt_rows() == old(db).prompt_rows(),
        !has_text(old(db).prompt_rows(), prompt.text@) && has_prompt_id(
            old(db).prompt_rows(),
            prompt.id@,
        ) ==> (r matches Err(Error::Database(_))) && final(db).prompt_rows() == old(
            db,
        ).prompt_rows(),
        !has_text(old(db).prompt_rows(), prompt.text@) && !has_prompt_id(
            old(db).prompt_rows(),
            prompt.id@,
        ) ==> r == Ok::<Prompt, Error>(prompt) && final(db).prompt_rows() == old(
            db,
        ).prompt_rows().push(prompt),
{
    if prompt_exists(db, prompt.text.as_str()) {
        return Err(Error::Duplicate);
    }
    match save_prompt(db, &prompt) {
        Ok(()) => Ok(prompt),
        Err(e) => Err(e),
    }
}

/// Save a prompt without repository context; refused as a duplicate when
/// the text is already stored.
pub fn save(db: &mut PromptStore, text: &str) -> (r: Result<Prompt, Error>)
    requires
        old(db).wf(),
    ensures
        final(db).wf(),
        final(db).interaction_rows() == old(db).interaction_rows(),
        final(db).pattern_rows() == old(db).pattern_rows(),
        has_text(old(db).prompt_rows(), text@) ==> (r matches Err(Error::Duplicate))
            && final(db).prompt_rows() == old(db).prompt_rows(),
        !has_text(old(db).prompt_rows(), text@) ==> match r {
            Ok(p) => p.text@ == text@ && p.repo is None && p.branch is None
                && final(db).prompt_rows() == old(db).prompt_rows().push(p),
            Err(e) => (e matches Error::Database(_)) && final(db).prompt_rows() == old(db).prompt_rows()
                && id_length_taken(old(db).prompt_rows()),
        },
{
    save_with_context(db, text, None, None)
}

/// Save a prompt with its repository and branch; refused as a duplicate
/// when the text is already stored.
pub fn save_with_context(
    db: &mut PromptStore,
    text: &str,
    repo: Option<String>,
    branch: Option<String>,
) -> (r: Result<Prompt, Error>)
    requires
        old(db).wf(),
    ensures
        final(db).wf(),
        final(db).interaction_rows() == old(db).interaction_rows(),
        final(db).pattern_rows() == old(db).pattern_rows(),
        has_text(old(db).prompt_rows(), text@) ==> (r matches Err(Error::Duplicate))
            && final(db).prompt_rows() == old(db).prompt_rows(),
        !has_text(old(db).prompt_rows(), text@) ==> match r {
            Ok(p) => p.text@ == text@ && p.repo == repo && p.branch == branch
                && final(db).prompt_rows() == old(db).prompt_rows().push(p),
            Err(e) => (e matches Error::Database(_)) && final(db).prompt_rows() == old(db).prompt_rows()
                && id_length_taken(old(db).prompt_rows()),
        },
{
    if prompt_exists(db, text) {
        return Err(Error::Duplicate);
    }
    let prompt = create_prompt(String::from_str(text), repo, branch);
    save_new(db, prompt)
}

/// The most recent prompts, newest first.
pub fn list(db: &PromptStore) -> (r: Vec<Prompt>)
    ensures
        r@ == listing(db.prompt_rows(), None),
{
    get_prompts(db, None)
}

/// The most recent prompts whose text contains `query`, case aside; all of
/// the most recent ones when `query` is blank.
pub fn search(db: &PromptStore, query: &str) -> (r: Vec<Prompt>)
    ensures
        r@ == listing(db.prompt_rows(), Some(query@)),
{
    get_prompts(db, Some(query))
}

/// Delete a prompt by id; whether one was deleted.
pub fn delete(db: &mut PromptStore, id: &str) -> (r: bool)
    requires
        old(db).wf(),
    ensures
        final(db).wf(),
        r == has_prompt_id(old(db).prompt_rows(), id@),
        !r ==> final(db).prompt_rows() == old(db).prompt_rows(),
        r ==> exists|i: int|
            0 <= i < old(db).prompt_rows().len() && old(db).prompt_rows()[i].id@ == id@
                && final(db).prompt_rows() == old(db).prompt_rows().remove(i),
        r ==> final(db).prompt_rows().len() == old(db).prompt_rows().len() - 1,
        final(db).interaction_rows() == old(db).interaction_rows(),
        final(db).pattern_rows() == old(db).pattern_rows(),
{
    delete_prompt(db, id)
}

/// The number of saved prompts.
pub fn count(db: &PromptStore) -> (r: usize)
    ensures
        r == db.prompt_rows().len(),
{
    get_prompt_count(db)
}

/// Whether a prompt with exactly this text is saved.
pub fn text_exists(db: &PromptStore, text: &str) -> (r: bool)
    ensures
        r == has_text(db.prompt_rows(), text@),
{
    prompt_exists(db, text)
}

/// Replace the text of a prompt by id; whether there was one.
pub fn update(db: &mut PromptStore, id: &str, text: &str) -> (r: bool)
    requires
        old(db).wf(),
    ensures
        final(db).wf(),
        r == has_prompt_id(old(db).prompt_rows(), id@),
        final(db).prompt_rows().len() == old(db).prompt_rows().len(),
        forall|k: int|
            0 <= k < old(db).prompt_rows().len() ==> if old(db).prompt_rows()[k].id@ == id@ {
                db::text_replaced(old(db).prompt_rows()[k], #[trigger] final(db).prompt_rows()[k], text@)
            } else {
                final(db).prompt_rows()[k] == old(db).prompt_rows()[k]
            },
        final(db).interaction_rows() == old(db).interaction_rows(),
        final(db).pattern_rows() == old(db).pattern_rows(),
{
    update_prompt(db, id, text)
}

} // verus!
