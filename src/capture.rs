//! Saving a prompt from the capture hotkey: de-duplicated, with a short
//! preview for the notice shown to the user.

use vstd::prelude::*;
use vstd::utf8::encode_utf8;
use crate::create::create_prompt;
use crate::db::{has_text, prompt_exists, save_prompt, PromptStore};
use crate::error::Error;
use crate::id_length_taken;
use crate::models::{GitInfo, Prompt};

verus! {

/// What the user is told after a capture.
#[derive(Debug)]
pub struct SaveResult {
    pub success: bool,
    pub message: String,
    pub prompt_preview: String,
    pub is_duplicate: bool,
}

/// The most characters a preview shows.
pub const PREVIEW_CHARS: usize = 60;

/// The first `PREVIEW_CHARS` characters of `text`, followed by `...` when
/// its UTF-8 form is longer than `PREVIEW_CHARS` bytes.
pub open spec fn preview_of(text: Seq<char>) -> Seq<char> {
    let head = if text.len() <= PREVIEW_CHARS {
        text
    } else {
        text.take(PREVIEW_CHARS as int)
    };
    if encode_utf8(text).len() > PREVIEW_CHARS {
        head + "..."@
    } else {
        head
    }
}

/// The preview of `text` shown after a capture.
pub fn preview(text: &str) -> (r: String)
    ensures
        r@ == preview_of(text@),
{
    let n = text.unicode_len();
    let k = if n <= PREVIEW_CHARS {
        n
    } else {
        PREVIEW_CHARS
    };
    let mut head = String::from_str(text.substring_char(0, k));
    proof {
        if n <= PREVIEW_CHARS {
            assert(text@.subrange(0, k as int) =~= text@);
        }
    }
    if text.as_bytes().len() > PREVIEW_CHARS {
        head.append("...");
    }
    head
}

/// Save `text` with the given context unless it is already stored; a
/// duplicate is reported as such, not as a failure. Also returns the
/// stored prompt, if one was stored.
pub fn capture_prompt(db: &mut PromptStore, text: String, git: GitInfo) -> (r: Result<(SaveResult, Option<Prompt>), Error>)
    requires
        old(db).wf(),
    ensures
        final(db).wf(),
        final(db).interaction_rows() == old(db).interaction_rows(),
        final(db).pattern_rows() == old(db).pattern_rows(),
        has_text(old(db).prompt_rows(), text@) ==> final(db).prompt_rows() == old(db).prompt_rows()
            && match r {
            Ok((res, saved)) => !res.success && res.is_duplicate && res.message@ == "Already saved"@
                && res.prompt_preview@ == preview_of(text@) && saved is None,
            Err(_) => false,
        },
        !has_text(old(db).prompt_rows(), text@) ==> match r {
            Ok((res, saved)) => res.success && !res.is_duplicate && res.message@ == "Saved"@
                && res.prompt_preview@ == preview_of(text@) && match saved {
                    Some(p) => final(db).prompt_rows() == old(db).prompt_rows().push(p)
                        && p.text == text && p.repo == git.repo && p.branch == git.branch,
                    None => false,
                },
            Err(e) => (e matches Error::Database(_)) && final(db).prompt_rows() == old(db).prompt_rows()
                && id_length_taken(old(db).prompt_rows()),
        },
{
    let shown = preview(text.as_str());
    if prompt_exists(db, text.as_str()) {
        return Ok(
            (
                SaveResult {
                    success: false,
                    message: String::from_str("Already saved"),
                    prompt_preview: shown,
                    is_duplicate: true,
                },
                None,
            ),
        );
    }
    let prompt = create_prompt(text, git.repo, git.branch);
    match save_prompt(db, &prompt) {
        Ok(()) => Ok(
            (
                SaveResult {
                    success: true,
                    message: String::from_str("Saved"),
                    prompt_preview: shown,
                    is_duplicate: false,
                },
                Some(prompt),
            ),
        ),
        Err(e) => Err(e),
    }
}

} // verus!
