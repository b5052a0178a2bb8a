//! Choosing prompts out of the assistant's history log: the newest lines
//! first, commands and empty lines skipped.

use vstd::prelude::*;
use crate::models::ClaudeHistoryEntry;
use crate::text::{chars_of, contains, find_in, trim, trimmed};

verus! {

/// The prompt a history line holds: its text trimmed, unless that is empty
/// or a command (it starts with `/`).
pub open spec fn history_text(display: Seq<char>) -> Option<Seq<char>> {
    let t = trimmed(display);
    if t.len() == 0 || t[0] == '/' {
        None
    } else {
        Some(t)
    }
}

/// The prompt of a parsed line (`None` when the line did not parse), kept
/// only when a project is asked for and the line's project contains it.
pub open spec fn entry_text(entry: Option<ClaudeHistoryEntry>, project: Option<Seq<char>>) -> Option<Seq<char>> {
    match entry {
        Some(e) => match project {
            Some(p) => match e.project {
                Some(ep) => if contains(ep@, p) {
                    history_text(e.display@)
                } else {
                    None
                },
                None => None,
            },
            None => history_text(e.display@),
        },
        None => None,
    }
}

/// The prompts of the last lines, newest first, at most `count`.
pub open spec fn recent_texts(
    entries: Seq<Option<ClaudeHistoryEntry>>,
    project: Option<Seq<char>>,
    count: nat,
) -> Seq<Seq<char>>
    decreases entries.len(),
{
    if count == 0 || entries.len() == 0 {
        Seq::empty()
    } else {
        match entry_text(entries.last(), project) {
            Some(t) => seq![t] + recent_texts(entries.drop_last(), project, (count - 1) as nat),
            None => recent_texts(entries.drop_last(), project, count),
        }
    }
}

/// The prompt a history line holds, if any.
pub fn history_prompt(display: &str) -> (r: Option<String>)
    ensures
        match r {
            Some(s) => history_text(display@) == Some(s@),
            None => history_text(display@) is None,
        },
{
    let t = trim(display);
    if t.unicode_len() == 0 || t.get_char(0) == '/' {
        None
    } else {
        Some(String::from_str(t))
    }
}

fn entry_prompt(entry: &Option<ClaudeHistoryEntry>, project: Option<&Vec<char>>) -> (r: Option<String>)
    ensures
        match r {
            Some(s) => entry_text(*entry, match project { Some(p) => Some(p@), None => None }) == Some(s@),
            None => entry_text(*entry, match project { Some(p) => Some(p@), None => None }) is None,
        },
{
    match entry {
        Some(e) => match project {
            Some(p) => match &e.project {
                Some(ep) => if find_in(&chars_of(ep.as_str()), p) {
                    history_prompt(e.display.as_str())
                } else {
                    None
                },
                None => None,
            },
            None => history_prompt(e.display.as_str()),
        },
        None => None,
    }
}

fn select_recent(entries: &Vec<Option<ClaudeHistoryEntry>>, project: Option<&Vec<char>>, count: usize) -> (r: Vec<String>)
    ensures
        r@.map_values(|s: String| s@) == recent_texts(
            entries@,
            match project { Some(p) => Some(p@), None => None },
            count as nat,
        ),
{
    let ghost proj = match project { Some(p) => Some(p@), None => None::<Seq<char>> };
    let ghost all = entries@;
    let mut out: Vec<String> = Vec::new();
    let mut i: usize = entries.len();
    proof {
        assert(all.take(i as int) =~= all);
        assert(out@.map_values(|s: String| s@) =~= Seq::<Seq<char>>::empty());
        assert(Seq::<Seq<char>>::empty() + recent_texts(all, proj, count as nat) =~= recent_texts(all, proj, count as nat));
    }
    while i > 0 && out.len() < count
        invariant
            all == entries@,
            i <= all.len(),
            out@.len() <= count,
            proj == match project { Some(p) => Some(p@), None => None::<Seq<char>> },
            out@.map_values(|s: String| s@) + recent_texts(all.take(i as int), proj, (count - out@.len()) as nat)
                == recent_texts(all, proj, count as nat),
        decreases i,
    {
        let ghost before = all.take(i as int);
        proof {
            assert(before.drop_last() =~= all.take(i - 1));
            assert(before.last() == entries@[i - 1]);
        }
        let ghost out_before = out@;
        match entry_prompt(&entries[i - 1], project) {
            Some(s) => {
                out.push(s);
                proof {
                    assert(out@.map_values(|s: String| s@) =~= out_before.map_values(|s: String| s@).push(s@));
                    assert(seq![s@] + recent_texts(all.take(i - 1), proj, (count - out@.len()) as nat)
                        == recent_texts(before, proj, (count - out_before.len()) as nat));
                    assert(out@.map_values(|s: String| s@) + recent_texts(all.take(i - 1), proj, (count - out@.len()) as nat)
                        =~= out_before.map_values(|s: String| s@) + recent_texts(before, proj, (count - out_before.len()) as nat));
                }
            },
            None => {},
        }
        i = i - 1;
    }
    proof {
        if i == 0 {
            assert(all.take(0) =~= Seq::<Option<ClaudeHistoryEntry>>::empty());
        }
        assert(out@.map_values(|s: String| s@) + Seq::<Seq<char>>::empty() =~= out@.map_values(|s: String| s@));
    }
    out
}

/// The prompts of the last parsed lines of the history, newest first, at
/// most `count`; `entries` holds the lines in file order, `None` for a line
/// that did not parse.
pub fn recent_prompts(entries: &Vec<Option<ClaudeHistoryEntry>>, count: usize) -> (r: Vec<String>)
    ensures
        r@.map_values(|s: String| s@) == recent_texts(entries@, None, count as nat),
{
    select_recent(entries, None, count)
}

/// As [`recent_prompts`], keeping only lines whose project contains `project`.
pub fn recent_prompts_for_project(
    entries: &Vec<Option<ClaudeHistoryEntry>>,
    project: &str,
    count: usize,
) -> (r: Vec<String>)
    ensures
        r@.map_values(|s: String| s@) == recent_texts(entries@, Some(project@), count as nat),
{
    let p = chars_of(project);
    select_recent(entries, Some(&p), count)
}

} // verus!
