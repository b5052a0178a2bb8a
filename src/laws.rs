//! Properties of the repository that relate several operations or hold of
//! every store.

use vstd::prelude::*;
use crate::db::{
    counts_added, has_text, listing, search_term, selected, stamp,
    text_matches, NewestPrompt, LIST_LIMIT,
};
use crate::models::{Pattern, Prompt};
use crate::rank::{bytes_before, lemma_top};
use crate::text::{contains, is_blank, lower_of};

verus! {

/// How many rows have exactly the text `t`.
pub open spec fn text_count(rows: Seq<Prompt>, t: Seq<char>) -> nat
    decreases rows.len(),
{
    if rows.len() == 0 {
        0
    } else {
        text_count(rows.drop_last(), t) + if rows.last().text@ == t {
            1nat
        } else {
            0nat
        }
    }
}

proof fn lemma_text_count_zero(rows: Seq<Prompt>, t: Seq<char>)
    requires
        !has_text(rows, t),
    ensures
        text_count(rows, t) == 0,
    decreases rows.len(),
{
    if rows.len() > 0 {
        let init = rows.drop_last();
        assert(!has_text(init, t)) by {
            if has_text(init, t) {
                let i = choose|i: int| 0 <= i < init.len() && (#[trigger] init[i]).text@ == t;
                assert(rows[i] == init[i]);
            }
        }
        lemma_text_count_zero(init, t);
        assert(rows[rows.len() - 1].text@ != t);
    }
}

/// Once a prompt is added to the rows, its text is found there.
pub proof fn law_insert_then_exists(rows: Seq<Prompt>, p: Prompt)
    ensures
        has_text(rows.push(p), p.text@),
{
    assert(rows.push(p)[rows.len() as int] == p);
}

/// Saving a text that is not stored yet leaves exactly one row with that
/// text, and that text is then found, so a second save of it is refused
/// as a duplicate.
pub proof fn law_save_once(rows: Seq<Prompt>, p: Prompt)
    requires
        !has_text(rows, p.text@),
    ensures
        text_count(rows.push(p), p.text@) == 1,
        has_text(rows.push(p), p.text@),
{
    lemma_text_count_zero(rows, p.text@);
    assert(rows.push(p).drop_last() =~= rows);
    law_insert_then_exists(rows, p);
}

/// A listing holds at most `LIST_LIMIT` rows, each a stored row, and no
/// row in it is newer than a row listed before it.
pub proof fn law_listing_newest_first(rows: Seq<Prompt>, query: Option<Seq<char>>)
    requires
        rows.len() <= usize::MAX,
    ensures
        listing(rows, query).len() <= LIST_LIMIT,
        forall|k: int|
            0 <= k < listing(rows, query).len() ==> exists|j: int|
                0 <= j < rows.len() && #[trigger] listing(rows, query)[k] == rows[j],
        forall|a: int, b: int|
            0 <= a < b < listing(rows, query).len() ==> !bytes_before(
                stamp((#[trigger] listing(rows, query)[a]).timestamp),
                stamp((#[trigger] listing(rows, query)[b]).timestamp),
            ),
{
    let sel = selected(rows, search_term(query));
    match search_term(query) {
        Some(t) => {
            rows.lemma_filter_len(text_matches(t));
            assert forall|j: int| 0 <= j < sel.len() implies exists|m: int|
                0 <= m < rows.len() && #[trigger] sel[j] == rows[m] by {
                assert(sel.contains(sel[j]));
                rows.lemma_filter_contains_rev(text_matches(t), sel[j]);
                assert(rows.contains(sel[j]));
            }
        },
        None => {},
    }
    lemma_top::<NewestPrompt>(sel, LIST_LIMIT as nat);
    let l = listing(rows, query);
    assert forall|k: int| 0 <= k < l.len() implies exists|j: int|
        0 <= j < rows.len() && #[trigger] l[k] == rows[j] by {
        let m = choose|m: int| 0 <= m < sel.len() && #[trigger] l[k] == sel[m];
        match search_term(query) {
            Some(t) => {},
            None => {
                assert(l[k] == rows[m]);
            },
        }
    }
}

/// A query that is not blank lists only rows whose text contains it, case
/// aside.
pub proof fn law_search_matches(rows: Seq<Prompt>, q: Seq<char>)
    requires
        rows.len() <= usize::MAX,
        !is_blank(q),
    ensures
        forall|k: int|
            0 <= k < listing(rows, Some(q)).len() ==> contains(
                lower_of((#[trigger] listing(rows, Some(q))[k]).text@),
                lower_of(q),
            ),
{
    let t = lower_of(q);
    let sel = rows.filter(text_matches(t));
    rows.lemma_filter_len(text_matches(t));
    lemma_top::<NewestPrompt>(sel, LIST_LIMIT as nat);
    let l = listing(rows, Some(q));
    assert forall|k: int| 0 <= k < l.len() implies contains(lower_of((#[trigger] l[k]).text@), t) by {
        let m = choose|m: int| 0 <= m < sel.len() && #[trigger] l[k] == sel[m];
        rows.lemma_filter_pred(text_matches(t), m);
    }
}

/// A blank query lists what no query lists.
pub proof fn law_blank_query(rows: Seq<Prompt>, q: Seq<char>)
    requires
        is_blank(q),
    ensures
        listing(rows, Some(q)) == listing(rows, None),
{
}

/// Adding one success twice adds two successes and no failure.
pub proof fn law_pattern_counts_twice(
    p0: Seq<Pattern>,
    p1: Seq<Pattern>,
    p2: Seq<Pattern>,
    id: Seq<char>,
)
    requires
        counts_added(p0, p1, id, 1, 0),
        counts_added(p1, p2, id, 1, 0),
    ensures
        counts_added(p0, p2, id, 2, 0),
{
    assert forall|k: int| 0 <= k < p0.len() implies if p0[k].id@ == id {
        &&& (#[trigger] p2[k]).id == p0[k].id
        &&& p2[k].pattern_type == p0[k].pattern_type
        &&& p2[k].description == p0[k].description
        &&& p2[k].success_count == p0[k].success_count + 2
        &&& p2[k].failure_count == p0[k].failure_count + 0
    } else {
        p2[k] == p0[k]
    } by {
        assert(p1[k].id == p0[k].id);
    }
}

} // verus!
