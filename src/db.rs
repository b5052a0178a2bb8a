//! The record repository: prompts, interactions and patterns held in
//! insertion order, with the lookups, listings and updates over them.

use vstd::prelude::*;
use crate::error::Error;
use crate::models::{opt_view, Interaction, InteractionStats, Pattern, Prompt};
use crate::rank::{
    bytes_before, compare_bytes, lemma_bytes_before_irreflexive, lemma_bytes_before_transitive,
    take_top, top, Order,
};
use crate::text::{blank, chars_of, contains, find_in, is_blank, lower_of, lowercase};
use vstd::arithmetic::div_mod::{lemma_div_by_multiple, lemma_div_is_ordered};
use vstd::utf8::encode_utf8;

verus! {

/// The rows of the three tables, each in the order they were stored.
pub struct PromptStore {
    prompts: Vec<Prompt>,
    interactions: Vec<Interaction>,
    patterns: Vec<Pattern>,
}

/// Some row of `rows` has exactly the text `t`.
pub open spec fn has_text(rows: Seq<Prompt>, t: Seq<char>) -> bool {
    exists|i: int| 0 <= i < rows.len() && (#[trigger] rows[i]).text@ == t
}

/// Some row of `rows` has the id `id`.
pub open spec fn has_prompt_id(rows: Seq<Prompt>, id: Seq<char>) -> bool {
    exists|i: int| 0 <= i < rows.len() && (#[trigger] rows[i]).id@ == id
}

pub open spec fn has_interaction_id(rows: Seq<Interaction>, id: Seq<char>) -> bool {
    exists|i: int| 0 <= i < rows.len() && (#[trigger] rows[i]).id@ == id
}

pub open spec fn has_pattern_id(rows: Seq<Pattern>, id: Seq<char>) -> bool {
    exists|i: int| 0 <= i < rows.len() && (#[trigger] rows[i]).id@ == id
}

/// No two rows share an id.
pub open spec fn prompt_ids_unique(rows: Seq<Prompt>) -> bool {
    forall|i: int, j: int|
        0 <= i < rows.len() && 0 <= j < rows.len() && i != j ==> (#[trigger] rows[i]).id@
            != (#[trigger] rows[j]).id@
}

pub open spec fn interaction_ids_unique(rows: Seq<Interaction>) -> bool {
    forall|i: int, j: int|
        0 <= i < rows.len() && 0 <= j < rows.len() && i != j ==> (#[trigger] rows[i]).id@
            != (#[trigger] rows[j]).id@
}

pub open spec fn pattern_ids_unique(rows: Seq<Pattern>) -> bool {
    forall|i: int, j: int|
        0 <= i < rows.len() && 0 <= j < rows.len() && i != j ==> (#[trigger] rows[i]).id@
            != (#[trigger] rows[j]).id@
}

impl PromptStore {
    /// The prompt rows.
    pub closed spec fn prompt_rows(&self) -> Seq<Prompt> {
        self.prompts@
    }

    /// The interaction rows.
    pub closed spec fn interaction_rows(&self) -> Seq<Interaction> {
        self.interactions@
    }

    /// The pattern rows.
    pub closed spec fn pattern_rows(&self) -> Seq<Pattern> {
        self.patterns@
    }

    /// Each table keys its rows by id.
    pub open spec fn wf(&self) -> bool {
        &&& prompt_ids_unique(self.prompt_rows())
        &&& interaction_ids_unique(self.interaction_rows())
        &&& pattern_ids_unique(self.pattern_rows())
    }

    /// An empty store.
    pub fn new() -> (r: PromptStore)
        ensures
            r.wf(),
            r.prompt_rows().len() == 0,
            r.interaction_rows().len() == 0,
            r.pattern_rows().len() == 0,
    {
        PromptStore { prompts: Vec::new(), interactions: Vec::new(), patterns: Vec::new() }
    }
}

/// Index of the prompt with id `id`, if there is one.
fn find_prompt(db: &PromptStore, id: &String) -> (r: Option<usize>)
    ensures
        match r {
            Some(i) => i < db.prompt_rows().len() && db.prompt_rows()[i as int].id@ == id@,
            None => !has_prompt_id(db.prompt_rows(), id@),
        },
{
    let mut i: usize = 0;
    while i < db.prompts.len()
        invariant
            i <= db.prompts@.len(),
            forall|k: int| 0 <= k < i ==> (#[trigger] db.prompts@[k]).id@ != id@,
        decreases db.prompts@.len() - i,
    {
        if db.prompts[i].id == *id {
            return Some(i);
        }
        i = i + 1;
    }
    None
}

/// Whether a prompt with exactly this text is stored.
pub fn prompt_exists(db: &PromptStore, text: &str) -> (r: bool)
    ensures
        r == has_text(db.prompt_rows(), text@),
{
    let t = String::from_str(text);
    let mut i: usize = 0;
    while i < db.prompts.len()
        invariant
            t@ == text@,
            i <= db.prompts@.len(),
            forall|k: int| 0 <= k < i ==> (#[trigger] db.prompts@[k]).text@ != text@,
        decreases db.prompts@.len() - i,
    {
        if db.prompts[i].text == t {
            return true;
        }
        i = i + 1;
    }
    false
}

/// Store a prompt. Refused when its id is already taken; the text is not
/// checked (see [`crate::save`] for the de-duplicating path).
pub fn save_prompt(db: &mut PromptStore, prompt: &Prompt) -> (r: Result<(), Error>)
    requires
        old(db).wf(),
    ensures
        final(db).wf(),
        final(db).interaction_rows() == old(db).interaction_rows(),
        final(db).pattern_rows() == old(db).pattern_rows(),
        has_prompt_id(old(db).prompt_rows(), prompt.id@) ==> (r matches Err(Error::Database(_)))
            && final(db).prompt_rows() == old(db).prompt_rows(),
        !has_prompt_id(old(db).prompt_rows(), prompt.id@) ==> r is Ok && final(db).prompt_rows()
            == old(db).prompt_rows().push(*prompt),
{
    match find_prompt(db, &prompt.id) {
        Some(_) => Err(Error::Database(String::from_str("UNIQUE constraint failed: prompts.id"))),
        None => {
            db.prompts.push(prompt.clone());
            proof {
                let rows = db.prompts@;
                assert forall|i: int, j: int|
                    0 <= i < rows.len() && 0 <= j < rows.len() && i != j implies (
                    #[trigger] rows[i]).id@ != (#[trigger] rows[j]).id@ by {
                    if i == rows.len() - 1 {
                        assert(rows[j] == old(db).prompts@[j]);
                    } else if j == rows.len() - 1 {
                        assert(rows[i] == old(db).prompts@[i]);
                    } else {
                        assert(rows[i] == old(db).prompts@[i]);
                        assert(rows[j] == old(db).prompts@[j]);
                    }
                }
            }
            Ok(())
        },
    }
}

/// The number of stored prompts.
pub fn get_prompt_count(db: &PromptStore) -> (r: usize)
    ensures
        r == db.prompt_rows().len(),
{
    db.prompts.len()
}

/// Remove the prompt with this id; whether there was one.
pub fn delete_prompt(db: &mut PromptStore, id: &str) -> (r: bool)
    requires
        old(db).wf(),
    ensures
        final(db).wf(),
        final(db).interaction_rows() == old(db).interaction_rows(),
        final(db).pattern_rows() == old(db).pattern_rows(),
        r == has_prompt_id(old(db).prompt_rows(), id@),
        !r ==> final(db).prompt_rows() == old(db).prompt_rows(),
        r ==> exists|i: int|
            0 <= i < old(db).prompt_rows().len() && old(db).prompt_rows()[i].id@ == id@
                && final(db).prompt_rows() == old(db).prompt_rows().remove(i),
        r ==> final(db).prompt_rows().len() == old(db).prompt_rows().len() - 1,
        !has_prompt_id(final(db).prompt_rows(), id@),
{
    let key = String::from_str(id);
    match find_prompt(db, &key) {
        Some(i) => {
            db.prompts.remove(i);
            proof {
                let rows = db.prompts@;
                let before = old(db).prompts@;
                assert(rows == before.remove(i as int));
                assert forall|a: int, b: int|
                    0 <= a < rows.len() && 0 <= b < rows.len() && a != b implies (
                    #[trigger] rows[a]).id@ != (#[trigger] rows[b]).id@ by {
                    let a2 = if a < i { a } else { a + 1 };
                    let b2 = if b < i { b } else { b + 1 };
                    assert(rows[a] == before[a2] && rows[b] == before[b2]);
                }
                assert forall|k: int| 0 <= k < rows.len() implies (#[trigger] rows[k]).id@ != id@ by {
                    let k2 = if k < i { k } else { k + 1 };
                    assert(rows[k] == before[k2]);
                }
            }
            true
        },
        None => false,
    }
}

/// The bytes of a stored timestamp, which order rows by time.
pub open spec fn stamp(t: String) -> Seq<u8> {
    encode_utf8(t@)
}

/// Whether timestamp `a` is later than timestamp `b`.
fn later(a: &String, b: &String) -> (r: bool)
    ensures
        r == bytes_before(stamp(*b), stamp(*a)),
{
    compare_bytes(b.as_str().as_bytes(), a.as_str().as_bytes())
}

/// Prompts newest first.
pub struct NewestPrompt;

impl Order for NewestPrompt {
    type Item = Prompt;

    open spec fn above(a: Prompt, b: Prompt) -> bool {
        bytes_before(stamp(b.timestamp), stamp(a.timestamp))
    }

    fn is_above(a: &Prompt, b: &Prompt) -> (r: bool) {
        later(&a.timestamp, &b.timestamp)
    }

    proof fn lemma_transitive(a: Prompt, b: Prompt, c: Prompt) {
        lemma_bytes_before_transitive(stamp(c.timestamp), stamp(b.timestamp), stamp(a.timestamp));
    }

    proof fn lemma_irreflexive(a: Prompt) {
        lemma_bytes_before_irreflexive(stamp(a.timestamp));
    }

    fn duplicate(a: &Prompt) -> (r: Prompt) {
        a.clone()
    }
}

/// The most prompts a listing returns.
pub const LIST_LIMIT: usize = 100;

/// The characters of an optional query.
pub open spec fn query_view(query: Option<&str>) -> Option<Seq<char>> {
    match query {
        Some(q) => Some(q@),
        None => None,
    }
}

/// What a query searches for: its lowercase form, or nothing when it is
/// absent or blank.
pub open spec fn search_term(query: Option<Seq<char>>) -> Option<Seq<char>> {
    match query {
        Some(q) => if is_blank(q) {
            None
        } else {
            Some(lower_of(q))
        },
        None => None,
    }
}

/// The prompt's lowercase text contains `term`.
pub open spec fn text_matches(term: Seq<char>) -> spec_fn(Prompt) -> bool {
    |p: Prompt| contains(lower_of(p.text@), term)
}

/// The rows a search term selects, in storage order.
pub open spec fn selected(rows: Seq<Prompt>, term: Option<Seq<char>>) -> Seq<Prompt> {
    match term {
        Some(t) => rows.filter(text_matches(t)),
        None => rows,
    }
}

/// What a listing returns: the newest `LIST_LIMIT` rows that the query selects.
pub open spec fn listing(rows: Seq<Prompt>, query: Option<Seq<char>>) -> Seq<Prompt> {
    top::<NewestPrompt>(selected(rows, search_term(query)), LIST_LIMIT as nat)
}

/// Whether `text` contains `term`, case aside.
fn text_has(text: &String, term: &Vec<char>) -> (r: bool)
    ensures
        r == contains(lower_of(text@), term@),
{
    let l = lowercase(text.as_str());
    find_in(&chars_of(l.as_str()), term)
}

/// The newest prompts, at most `LIST_LIMIT`; with a query that is not blank,
/// only those whose text contains it, case aside.
pub fn get_prompts(db: &PromptStore, query: Option<&str>) -> (r: Vec<Prompt>)
    ensures
        r@ == listing(db.prompt_rows(), query_view(query)),
{
    let ghost term_spec = search_term(query_view(query));
    let term: Option<Vec<char>> = match query {
        Some(q) => if blank(q) {
            None
        } else {
            let l = lowercase(q);
            Some(chars_of(l.as_str()))
        },
        None => None,
    };
    let ghost rows = db.prompts@;
    let mut sel: Vec<Prompt> = Vec::new();
    let mut i: usize = 0;
    while i < db.prompts.len()
        invariant
            rows == db.prompts@,
            i <= rows.len(),
            term_spec == match term {
                Some(t) => Some(t@),
                None => None::<Seq<char>>,
            },
            sel@ == selected(rows.take(i as int), term_spec),
        decreases rows.len() - i,
    {
        let keep = match &term {
            Some(t) => text_has(&db.prompts[i].text, t),
            None => true,
        };
        if keep {
            sel.push(db.prompts[i].clone());
        }
        proof {
            reveal(Seq::filter);
            let next = rows.take(i + 1);
            assert(next.drop_last() =~= rows.take(i as int));
            assert(rows.take(i as int).push(rows[i as int]) =~= next);
        }
        i = i + 1;
    }
    proof {
        assert(rows.take(rows.len() as int) =~= rows);
    }
    take_top::<NewestPrompt>(&sel, LIST_LIMIT)
}

/// The row stays the same row (id, text, context, time); only its text may
/// have been replaced by `text`.
pub open spec fn text_replaced(before: Prompt, after: Prompt, text: Seq<char>) -> bool {
    &&& after.id == before.id
    &&& after.text@ == text
    &&& after.repo == before.repo
    &&& after.branch == before.branch
    &&& after.timestamp == before.timestamp
}

/// Replace the text of the prompt with this id; whether there was one.
pub fn update_prompt(db: &mut PromptStore, id: &str, text: &str) -> (r: bool)
    requires
        old(db).wf(),
    ensures
        final(db).wf(),
        final(db).interaction_rows() == old(db).interaction_rows(),
        final(db).pattern_rows() == old(db).pattern_rows(),
        r == has_prompt_id(old(db).prompt_rows(), id@),
        final(db).prompt_rows().len() == old(db).prompt_rows().len(),
        forall|k: int|
            0 <= k < old(db).prompt_rows().len() ==> if old(db).prompt_rows()[k].id@ == id@ {
                text_replaced(old(db).prompt_rows()[k], #[trigger] final(db).prompt_rows()[k], text@)
            } else {
                final(db).prompt_rows()[k] == old(db).prompt_rows()[k]
            },
{
    let key = String::from_str(id);
    match find_prompt(db, &key) {
        Some(i) => {
            let row = Prompt {
                id: db.prompts[i].id.clone(),
                text: String::from_str(text),
                repo: crate::models::clone_opt(&db.prompts[i].repo),
                branch: crate::models::clone_opt(&db.prompts[i].branch),
                timestamp: db.prompts[i].timestamp.clone(),
            };
            db.prompts.set(i, row);
            proof {
                let rows = db.prompts@;
                let before = old(db).prompts@;
                assert forall|a: int, b: int|
                    0 <= a < rows.len() && 0 <= b < rows.len() && a != b implies (
                    #[trigger] rows[a]).id@ != (#[trigger] rows[b]).id@ by {
                    assert(rows[a].id == before[a].id && rows[b].id == before[b].id);
                }
                assert forall|k: int| 0 <= k < before.len() && k != i implies before[k].id@ != id@ by {
                    assert(before[k].id@ != before[i as int].id@);
                }
            }
            true
        },
        None => false,
    }
}

/// Index of the interaction with id `id`, if there is one.
fn find_interaction(db: &PromptStore, id: &String) -> (r: Option<usize>)
    ensures
        match r {
            Some(i) => i < db.interaction_rows().len() && db.interaction_rows()[i as int].id@
                == id@,
            None => !has_interaction_id(db.interaction_rows(), id@),
        },
{
    let mut i: usize = 0;
    while i < db.interactions.len()
        invariant
            i <= db.interactions@.len(),
            forall|k: int| 0 <= k < i ==> (#[trigger] db.interactions@[k]).id@ != id@,
        decreases db.interactions@.len() - i,
    {
        if db.interactions[i].id == *id {
            return Some(i);
        }
        i = i + 1;
    }
    None
}

/// Store an interaction, all fields as given. Refused when its id is
/// already taken.
pub fn save_interaction(db: &mut PromptStore, interaction: &Interaction) -> (r: Result<(), Error>)
    requires
        old(db).wf(),
    ensures
        final(db).wf(),
        final(db).prompt_rows() == old(db).prompt_rows(),
        final(db).pattern_rows() == old(db).pattern_rows(),
        has_interaction_id(old(db).interaction_rows(), interaction.id@) ==> (r matches Err(Error::Database(_)))
            && final(db).interaction_rows() == old(db).interaction_rows(),
        !has_interaction_id(old(db).interaction_rows(), interaction.id@) ==> r is Ok
            && final(db).interaction_rows() == old(db).interaction_rows().push(*interaction),
{
    match find_interaction(db, &interaction.id) {
        Some(_) => Err(
            Error::Database(String::from_str("UNIQUE constraint failed: interactions.id")),
        ),
        None => {
            db.interactions.push(interaction.clone());
            proof {
                let rows = db.interactions@;
                assert forall|i: int, j: int|
                    0 <= i < rows.len() && 0 <= j < rows.len() && i != j implies (
                    #[trigger] rows[i]).id@ != (#[trigger] rows[j]).id@ by {
                    if i == rows.len() - 1 {
                        assert(rows[j] == old(db).interactions@[j]);
                    } else if j == rows.len() - 1 {
                        assert(rows[i] == old(db).interactions@[i]);
                    } else {
                        assert(rows[i] == old(db).interactions@[i]);
                        assert(rows[j] == old(db).interactions@[j]);
                    }
                }
            }
            Ok(())
        },
    }
}

/// The characters of an optional string slice.
pub open spec fn opt_str_view(o: Option<&str>) -> Option<Seq<char>> {
    match o {
        Some(s) => Some(s@),
        None => None,
    }
}

/// `after` is `before` with its analysis set to the given values.
pub open spec fn analysis_applied(
    before: Interaction,
    after: Interaction,
    summary: Option<Seq<char>>,
    score: Option<u32>,
    duration_ms: Option<i64>,
) -> bool {
    &&& after.id == before.id
    &&& after.original_prompt == before.original_prompt
    &&& after.enhanced_prompt == before.enhanced_prompt
    &&& opt_view(after.response_summary) == summary
    &&& after.effectiveness_score == score
    &&& after.repo == before.repo
    &&& after.branch == before.branch
    &&& after.model == before.model
    &&& after.duration_ms == duration_ms
    &&& after.timestamp == before.timestamp
}

fn str_to_opt(o: Option<&str>) -> (r: Option<String>)
    ensures
        opt_view(r) == opt_str_view(o),
{
    match o {
        Some(s) => Some(String::from_str(s)),
        None => None,
    }
}

/// Record the outcome of an interaction: its summary, score and duration.
/// An id that is not stored changes nothing.
pub fn update_interaction_analysis(
    db: &mut PromptStore,
    id: &str,
    response_summary: Option<&str>,
    effectiveness_score: Option<u32>,
    duration_ms: Option<i64>,
)
    requires
        old(db).wf(),
    ensures
        final(db).wf(),
        final(db).prompt_rows() == old(db).prompt_rows(),
        final(db).pattern_rows() == old(db).pattern_rows(),
        final(db).interaction_rows().len() == old(db).interaction_rows().len(),
        forall|k: int|
            0 <= k < old(db).interaction_rows().len() ==> if old(db).interaction_rows()[k].id@
                == id@ {
                analysis_applied(
                    old(db).interaction_rows()[k],
                    #[trigger] final(db).interaction_rows()[k],
                    opt_str_view(response_summary),
                    effectiveness_score,
                    duration_ms,
                )
            } else {
                final(db).interaction_rows()[k] == old(db).interaction_rows()[k]
            },
{
    let key = String::from_str(id);
    match find_interaction(db, &key) {
        Some(i) => {
            let old_row = &db.interactions[i];
            let row = Interaction {
                id: old_row.id.clone(),
                original_prompt: old_row.original_prompt.clone(),
                enhanced_prompt: old_row.enhanced_prompt.clone(),
                response_summary: str_to_opt(response_summary),
                effectiveness_score,
                repo: crate::models::clone_opt(&old_row.repo),
                branch: crate::models::clone_opt(&old_row.branch),
                model: crate::models::clone_opt(&old_row.model),
                duration_ms,
                timestamp: old_row.timestamp.clone(),
            };
            db.interactions.set(i, row);
            proof {
                let rows = db.interactions@;
                let before = old(db).interactions@;
                assert forall|a: int, b: int|
                    0 <= a < rows.len() && 0 <= b < rows.len() && a != b implies (
                    #[trigger] rows[a]).id@ != (#[trigger] rows[b]).id@ by {
                    assert(rows[a].id == before[a].id && rows[b].id == before[b].id);
                }
                assert forall|k: int| 0 <= k < before.len() && k != i implies before[k].id@ != id@ by {
                    assert(before[k].id@ != before[i as int].id@);
                }
            }
        },
        None => {},
    }
}

/// Interactions newest first.
pub struct NewestInteraction;

impl Order for NewestInteraction {
    type Item = Interaction;

    open spec fn above(a: Interaction, b: Interaction) -> bool {
        bytes_before(stamp(b.timestamp), stamp(a.timestamp))
    }

    fn is_above(a: &Interaction, b: &Interaction) -> (r: bool) {
        later(&a.timestamp, &b.timestamp)
    }

    proof fn lemma_transitive(a: Interaction, b: Interaction, c: Interaction) {
        lemma_bytes_before_transitive(stamp(c.timestamp), stamp(b.timestamp), stamp(a.timestamp));
    }

    proof fn lemma_irreflexive(a: Interaction) {
        lemma_bytes_before_irreflexive(stamp(a.timestamp));
    }

    fn duplicate(a: &Interaction) -> (r: Interaction) {
        a.clone()
    }
}

/// The `limit` most recent interactions, newest first.
pub fn get_interactions(db: &PromptStore, limit: usize) -> (r: Vec<Interaction>)
    ensures
        r@ == top::<NewestInteraction>(db.interaction_rows(), limit as nat),
{
    take_top::<NewestInteraction>(&db.interactions, limit)
}

/// The score of an interaction, -1 while it has none.
pub open spec fn score_of(i: Interaction) -> int {
    match i.effectiveness_score {
        Some(s) => s as int,
        None => -1,
    }
}

/// Interactions by score, highest first.
pub struct HighestScore;

impl Order for HighestScore {
    type Item = Interaction;

    open spec fn above(a: Interaction, b: Interaction) -> bool {
        score_of(a) > score_of(b)
    }

    fn is_above(a: &Interaction, b: &Interaction) -> (r: bool) {
        match (a.effectiveness_score, b.effectiveness_score) {
            (Some(x), Some(y)) => x > y,
            (Some(_), None) => true,
            (None, _) => false,
        }
    }

    proof fn lemma_transitive(a: Interaction, b: Interaction, c: Interaction) {
    }

    proof fn lemma_irreflexive(a: Interaction) {
    }

    fn duplicate(a: &Interaction) -> (r: Interaction) {
        a.clone()
    }
}

/// The most interactions that the successful listing returns.
pub const SUCCESSFUL_LIMIT: usize = 50;

/// The interaction has a score of at least `min_score`.
pub open spec fn scored_at_least(min_score: u32) -> spec_fn(Interaction) -> bool {
    |i: Interaction| score_of(i) >= min_score
}

/// The best-scored interactions with a score of at least `min_score`,
/// highest first, at most `SUCCESSFUL_LIMIT`.
pub fn get_successful_interactions(db: &PromptStore, min_score: u32) -> (r: Vec<Interaction>)
    ensures
        r@ == top::<HighestScore>(
            db.interaction_rows().filter(scored_at_least(min_score)),
            SUCCESSFUL_LIMIT as nat,
        ),
{
    let ghost rows = db.interactions@;
    let mut sel: Vec<Interaction> = Vec::new();
    let mut i: usize = 0;
    while i < db.interactions.len()
        invariant
            rows == db.interactions@,
            i <= rows.len(),
            sel@ == rows.take(i as int).filter(scored_at_least(min_score)),
        decreases rows.len() - i,
    {
        let keep = match db.interactions[i].effectiveness_score {
            Some(s) => s >= min_score,
            None => false,
        };
        if keep {
            sel.push(db.interactions[i].clone());
        }
        proof {
            reveal(Seq::filter);
            let next = rows.take(i + 1);
            assert(next.drop_last() =~= rows.take(i as int));
        }
        i = i + 1;
    }
    proof {
        assert(rows.take(rows.len() as int) =~= rows);
    }
    take_top::<HighestScore>(&sel, SUCCESSFUL_LIMIT)
}

/// Index of the pattern with id `id`, if there is one.
fn find_pattern(db: &PromptStore, id: &String) -> (r: Option<usize>)
    ensures
        match r {
            Some(i) => i < db.pattern_rows().len() && db.pattern_rows()[i as int].id@ == id@,
            None => !has_pattern_id(db.pattern_rows(), id@),
        },
{
    let mut i: usize = 0;
    while i < db.patterns.len()
        invariant
            i <= db.patterns@.len(),
            forall|k: int| 0 <= k < i ==> (#[trigger] db.patterns@[k]).id@ != id@,
        decreases db.patterns@.len() - i,
    {
        if db.patterns[i].id == *id {
            return Some(i);
        }
        i = i + 1;
    }
    None
}

/// Store a pattern, counts as given. Refused when its id is already taken.
pub fn save_pattern(db: &mut PromptStore, pattern: &Pattern) -> (r: Result<(), Error>)
    requires
        old(db).wf(),
    ensures
        final(db).wf(),
        final(db).prompt_rows() == old(db).prompt_rows(),
        final(db).interaction_rows() == old(db).interaction_rows(),
        has_pattern_id(old(db).pattern_rows(), pattern.id@) ==> (r matches Err(Error::Database(_)))
            && final(db).pattern_rows() == old(db).pattern_rows(),
        !has_pattern_id(old(db).pattern_rows(), pattern.id@) ==> r is Ok
            && final(db).pattern_rows() == old(db).pattern_rows().push(*pattern),
{
    match find_pattern(db, &pattern.id) {
        Some(_) => Err(Error::Database(String::from_str("UNIQUE constraint failed: patterns.id"))),
        None => {
            db.patterns.push(pattern.clone());
            proof {
                let rows = db.patterns@;
                assert forall|i: int, j: int|
                    0 <= i < rows.len() && 0 <= j < rows.len() && i != j implies (
                    #[trigger] rows[i]).id@ != (#[trigger] rows[j]).id@ by {
                    if i == rows.len() - 1 {
                        assert(rows[j] == old(db).patterns@[j]);
                    } else if j == rows.len() - 1 {
                        assert(rows[i] == old(db).patterns@[i]);
                    } else {
                        assert(rows[i] == old(db).patterns@[i]);
                        assert(rows[j] == old(db).patterns@[j]);
                    }
                }
            }
            Ok(())
        },
    }
}

/// The smoothed score `successes / (successes + failures + 1)` of `a` is
/// higher than that of `b`.
pub open spec fn scores_higher(a: Pattern, b: Pattern) -> bool {
    a.success_count * (b.success_count + b.failure_count + 1) > b.success_count * (
    a.success_count + a.failure_count + 1)
}

/// Patterns by smoothed success score, highest first.
pub struct BestPattern;

impl Order for BestPattern {
    type Item = Pattern;

    open spec fn above(a: Pattern, b: Pattern) -> bool {
        scores_higher(a, b)
    }

    fn is_above(a: &Pattern, b: &Pattern) -> (r: bool) {
        let sa = a.success_count as u128;
        let sb = b.success_count as u128;
        let da = sa + a.failure_count as u128 + 1;
        let db = sb + b.failure_count as u128 + 1;
        assert(sa * db <= 0xffff_ffff * 0x2_0000_0000) by (nonlinear_arith)
            requires
                sa <= 0xffff_ffff,
                db <= 0x2_0000_0000,
        ;
        assert(sb * da <= 0xffff_ffff * 0x2_0000_0000) by (nonlinear_arith)
            requires
                sb <= 0xffff_ffff,
                da <= 0x2_0000_0000,
        ;
        sa * db > sb * da
    }

    proof fn lemma_transitive(a: Pattern, b: Pattern, c: Pattern) {
        let (x, y, z) = (a.success_count as int, b.success_count as int, c.success_count as int);
        let xa = x + a.failure_count + 1;
        let yb = y + b.failure_count + 1;
        let zc = z + c.failure_count + 1;
        assert(x * zc > z * xa) by (nonlinear_arith)
            requires
                x * yb > y * xa,
                y * zc > z * yb,
                xa > 0,
                yb > 0,
                zc > 0,
                x >= 0,
                y >= 0,
                z >= 0,
        {
            assert(x * yb * zc > y * xa * zc);
            assert(y * zc * xa > z * yb * xa);
            assert(yb * (x * zc - z * xa) > 0);
        }
    }

    proof fn lemma_irreflexive(a: Pattern) {
    }

    fn duplicate(a: &Pattern) -> (r: Pattern) {
        a.clone()
    }
}

/// All patterns, best smoothed success score first, ties in storage order.
pub fn get_patterns(db: &PromptStore) -> (r: Vec<Pattern>)
    ensures
        r@ == top::<BestPattern>(db.pattern_rows(), db.pattern_rows().len()),
{
    take_top::<BestPattern>(&db.patterns, db.patterns.len())
}

/// The counts of every row with id `id` fit in a `u32` after adding the deltas.
pub open spec fn counts_fit(rows: Seq<Pattern>, id: Seq<char>, success_delta: u32, failure_delta: u32) -> bool {
    forall|k: int|
        0 <= k < rows.len() && (#[trigger] rows[k]).id@ == id ==> rows[k].success_count
            + success_delta <= u32::MAX && rows[k].failure_count + failure_delta <= u32::MAX
}

/// `after` is `before` with the deltas added to the counts of the rows with
/// id `id`.
pub open spec fn counts_added(
    before: Seq<Pattern>,
    after: Seq<Pattern>,
    id: Seq<char>,
    success_delta: int,
    failure_delta: int,
) -> bool {
    &&& after.len() == before.len()
    &&& forall|k: int|
        0 <= k < before.len() ==> if before[k].id@ == id {
            &&& (#[trigger] after[k]).id == before[k].id
            &&& after[k].pattern_type == before[k].pattern_type
            &&& after[k].description == before[k].description
            &&& after[k].success_count == before[k].success_count + success_delta
            &&& after[k].failure_count == before[k].failure_count + failure_delta
        } else {
            after[k] == before[k]
        }
}

/// Add to the success and failure counts of the pattern with this id.
/// Refused, changing nothing, when a count would leave the range of `u32`;
/// an id that is not stored changes nothing.
pub fn update_pattern_counts(db: &mut PromptStore, id: &str, success_delta: u32, failure_delta: u32) -> (r: Result<(), Error>)
    requires
        old(db).wf(),
    ensures
        final(db).wf(),
        final(db).prompt_rows() == old(db).prompt_rows(),
        final(db).interaction_rows() == old(db).interaction_rows(),
        counts_fit(old(db).pattern_rows(), id@, success_delta, failure_delta) ==> r is Ok
            && counts_added(old(db).pattern_rows(), final(db).pattern_rows(), id@, success_delta as int, failure_delta as int),
        !counts_fit(old(db).pattern_rows(), id@, success_delta, failure_delta) ==> (r matches Err(Error::Database(_)))
            && final(db).pattern_rows() == old(db).pattern_rows(),
{
    let key = String::from_str(id);
    match find_pattern(db, &key) {
        Some(i) => {
            let old_row = &db.patterns[i];
            if old_row.success_count > u32::MAX - success_delta || old_row.failure_count > u32::MAX - failure_delta {
                return Err(Error::Database(String::from_str("integer overflow")));
            }
            let row = Pattern {
                id: old_row.id.clone(),
                pattern_type: old_row.pattern_type.clone(),
                description: old_row.description.clone(),
                success_count: old_row.success_count + success_delta,
                failure_count: old_row.failure_count + failure_delta,
            };
            db.patterns.set(i, row);
            proof {
                let rows = db.patterns@;
                let before = old(db).patterns@;
                assert forall|a: int, b: int|
                    0 <= a < rows.len() && 0 <= b < rows.len() && a != b implies (
                    #[trigger] rows[a]).id@ != (#[trigger] rows[b]).id@ by {
                    assert(rows[a].id == before[a].id && rows[b].id == before[b].id);
                }
                assert forall|k: int| 0 <= k < before.len() && k != i implies before[k].id@ != id@ by {
                    assert(before[k].id@ != before[i as int].id@);
                }
            }
            Ok(())
        },
        None => {
            assert(counts_added(old(db).pattern_rows(), db.pattern_rows(), id@, success_delta as int, failure_delta as int));
            Ok(())
        },
    }
}

/// The sum of the scores of the scored interactions.
pub open spec fn score_sum(rows: Seq<Interaction>) -> int
    decreases rows.len(),
{
    if rows.len() == 0 {
        0
    } else {
        score_sum(rows.drop_last()) + match rows.last().effectiveness_score {
            Some(s) => s as int,
            None => 0,
        }
    }
}

/// The number of scored interactions.
pub open spec fn scored_count(rows: Seq<Interaction>) -> int
    decreases rows.len(),
{
    if rows.len() == 0 {
        0
    } else {
        scored_count(rows.drop_last()) + if rows.last().effectiveness_score is Some {
            1int
        } else {
            0int
        }
    }
}

/// The mean score of the scored interactions, rounded down; none while
/// no interaction is scored.
pub open spec fn average_score(rows: Seq<Interaction>) -> Option<u32> {
    if scored_count(rows) == 0 {
        None
    } else {
        Some((score_sum(rows) / scored_count(rows)) as u32)
    }
}

/// Row counts of the three tables and the mean effectiveness score.
pub fn get_stats(db: &PromptStore) -> (r: InteractionStats)
    ensures
        r.total_interactions == db.interaction_rows().len(),
        r.total_prompts == db.prompt_rows().len(),
        r.total_patterns == db.pattern_rows().len(),
        r.average_effectiveness == average_score(db.interaction_rows()),
{
    let ghost rows = db.interactions@;
    let mut sum: u128 = 0;
    let mut count: usize = 0;
    let mut i: usize = 0;
    while i < db.interactions.len()
        invariant
            rows == db.interactions@,
            i <= rows.len(),
            count <= i,
            sum == score_sum(rows.take(i as int)),
            count == scored_count(rows.take(i as int)),
            sum <= count * 0xffff_ffffu128,
        decreases rows.len() - i,
    {
        proof {
            let next = rows.take(i + 1);
            assert(next.drop_last() =~= rows.take(i as int));
        }
        match db.interactions[i].effectiveness_score {
            Some(s) => {
                sum = sum + s as u128;
                count = count + 1;
            },
            None => {},
        }
        i = i + 1;
    }
    proof {
        assert(rows.take(rows.len() as int) =~= rows);
    }
    let average = if count == 0 {
        None
    } else {
        let avg = sum / (count as u128);
        proof {
            let m: int = 0xffff_ffff;
            lemma_div_is_ordered(sum as int, count * m, count as int);
            lemma_div_by_multiple(m, count as int);
        }
        Some(avg as u32)
    };
    InteractionStats {
        total_interactions: db.interactions.len(),
        average_effectiveness: average,
        total_prompts: db.prompts.len(),
        total_patterns: db.patterns.len(),
    }
}

} // verus!
