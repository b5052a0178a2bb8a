//! The text exchanged with the text-generation service: the requests built
//! from context, and the best-effort reading of its free-form answers.

use vstd::prelude::*;
use vstd::utf8::encode_utf8;
use crate::models::{GitInfo, Pattern, Prompt};
use crate::text::{starts_with, trim, trimmed};

verus! {

/// The standing instructions of an enhancement request.
pub open spec fn enhancement_intro() -> Seq<char> {
    "You are a prompt enhancement assistant. Your job is to take a user's prompt for a coding assistant and make it clearer, more specific, and more likely to get a good response.\n\nRules:\n1. Keep the core intent intact\n2. Add helpful context when it's missing\n3. Make vague requests more specific\n4. Don't add unnecessary verbosity\n5. Output ONLY the enhanced prompt, nothing else\n\n"@
}

/// The most recent prompts an enhancement request shows.
pub const RECENT_SHOWN: usize = 3;

/// The most characters of a recent prompt an enhancement request shows.
pub const RECENT_PREVIEW_CHARS: usize = 100;

/// The most patterns an enhancement request lists.
pub const PATTERNS_SHOWN: usize = 5;

/// The first `n` characters of `s` (all of it when it is shorter).
pub open spec fn prefix(s: Seq<char>, n: nat) -> Seq<char> {
    if s.len() <= n {
        s
    } else {
        s.take(n as int)
    }
}

/// The number that leads the line of the `i`-th recent prompt.
pub open spec fn ordinal(i: int) -> Seq<char> {
    if i == 0 {
        "1. "@
    } else if i == 1 {
        "2. "@
    } else {
        "3. "@
    }
}

/// One numbered line per recent prompt, each cut to its first characters.
pub open spec fn recent_lines(recent: Seq<String>) -> Seq<char>
    decreases recent.len(),
{
    if recent.len() == 0 {
        Seq::empty()
    } else {
        recent_lines(recent.drop_last()) + ordinal(recent.len() - 1) + prefix(
            recent.last()@,
            RECENT_PREVIEW_CHARS as nat,
        ) + "\n"@
    }
}

/// A pattern worth applying: its success rate is at least three in five.
pub open spec fn is_good(p: Pattern) -> bool {
    p.success_count + p.failure_count > 0 && 5 * p.success_count >= 3 * (p.success_count
        + p.failure_count)
}

pub open spec fn good_pattern() -> spec_fn(Pattern) -> bool {
    |p: Pattern| is_good(p)
}

/// One bulleted line per pattern.
pub open spec fn pattern_lines(patterns: Seq<Pattern>) -> Seq<char>
    decreases patterns.len(),
{
    if patterns.len() == 0 {
        Seq::empty()
    } else {
        pattern_lines(patterns.drop_last()) + "- "@ + patterns.last().description@ + "\n"@
    }
}

pub open spec fn context_lines(git: GitInfo) -> Seq<char> {
    (match git.repo {
        Some(r) => "Current repository: "@ + r@ + "\n"@,
        None => Seq::empty(),
    }) + match git.branch {
        Some(b) => "Current branch: "@ + b@ + "\n"@,
        None => Seq::empty(),
    }
}

pub open spec fn recent_section(recent: Seq<String>) -> Seq<char> {
    if recent.len() == 0 {
        Seq::empty()
    } else {
        "\nRecent prompts (for context on user's work):\n"@ + recent_lines(
            if recent.len() <= RECENT_SHOWN {
                recent
            } else {
                recent.take(RECENT_SHOWN as int)
            },
        )
    }
}

pub open spec fn pattern_section(patterns: Seq<Pattern>) -> Seq<char> {
    if shown_patterns(patterns).len() == 0 {
        Seq::empty()
    } else {
        "\nSuccessful patterns to apply:\n"@ + pattern_lines(shown_patterns(patterns))
    }
}

/// The instructions of an enhancement request: the standing rules, the
/// repository context, a few recent prompts and the patterns worth applying.
pub open spec fn enhancement_prompt(git: GitInfo, recent: Seq<String>, patterns: Seq<Pattern>) -> Seq<char> {
    enhancement_intro() + context_lines(git) + recent_section(recent) + pattern_section(patterns)
}

/// The first `PATTERNS_SHOWN` patterns worth applying, in the order given.
pub open spec fn shown_patterns(patterns: Seq<Pattern>) -> Seq<Pattern> {
    let good = patterns.filter(good_pattern());
    if good.len() <= PATTERNS_SHOWN {
        good
    } else {
        good.take(PATTERNS_SHOWN as int)
    }
}

fn append_context(out: &mut String, git_info: &GitInfo)
    ensures
        final(out)@ == old(out)@ + context_lines(*git_info),
{
    match &git_info.repo {
        Some(r) => {
            out.append("Current repository: ");
            out.append(r.as_str());
            out.append("\n");
        },
        None => {},
    }
    match &git_info.branch {
        Some(b) => {
            out.append("Current branch: ");
            out.append(b.as_str());
            out.append("\n");
        },
        None => {},
    }
    assert(out@ =~= old(out)@ + context_lines(*git_info));
}

fn append_recent(out: &mut String, recent_prompts: &Vec<String>)
    ensures
        final(out)@ == old(out)@ + recent_section(recent_prompts@),
{
    if recent_prompts.len() == 0 {
        assert(out@ =~= old(out)@ + recent_section(recent_prompts@));
        return;
    }
    out.append("\nRecent prompts (for context on user's work):\n");
    let shown = if recent_prompts.len() <= RECENT_SHOWN {
        recent_prompts.len()
    } else {
        RECENT_SHOWN
    };
    let ghost head = out@;
    let mut i: usize = 0;
    while i < shown
        invariant
            shown <= recent_prompts@.len(),
            shown <= RECENT_SHOWN,
            i <= shown,
            out@ == head + recent_lines(recent_prompts@.take(i as int)),
        decreases shown - i,
    {
        let p = &recent_prompts[i];
        let n = p.as_str().unicode_len();
        let k = if n <= RECENT_PREVIEW_CHARS {
            n
        } else {
            RECENT_PREVIEW_CHARS
        };
        let ghost before = out@;
        if i == 0 {
            out.append("1. ");
        } else if i == 1 {
            out.append("2. ");
        } else {
            out.append("3. ");
        }
        out.append(p.as_str().substring_char(0, k));
        out.append("\n");
        proof {
            let t = recent_prompts@.take(i + 1);
            assert(t.drop_last() =~= recent_prompts@.take(i as int));
            if n <= RECENT_PREVIEW_CHARS {
                assert(p@.subrange(0, k as int) =~= p@);
            }
            assert(out@ =~= before + ordinal(i as int) + prefix(p@, RECENT_PREVIEW_CHARS as nat)
                + "\n"@);
        }
        i = i + 1;
    }
    proof {
        if recent_prompts@.len() <= RECENT_SHOWN {
            assert(recent_prompts@.take(shown as int) =~= recent_prompts@);
        }
        assert(out@ =~= old(out)@ + recent_section(recent_prompts@));
    }
}

/// Indices of the patterns worth applying, the first `PATTERNS_SHOWN` of them.
fn good_pattern_indices(patterns: &Vec<Pattern>) -> (r: Vec<usize>)
    ensures
        forall|m: int| 0 <= m < r@.len() ==> #[trigger] r@[m] < patterns@.len(),
        r@.map_values(|x: usize| patterns@[x as int]) == shown_patterns(patterns@),
{
    let ghost all = patterns@;
    let mut good: Vec<usize> = Vec::new();
    let mut j: usize = 0;
    while j < patterns.len() && good.len() < PATTERNS_SHOWN
        invariant
            all == patterns@,
            j <= all.len(),
            good@.len() <= PATTERNS_SHOWN,
            good@.map_values(|x: usize| all[x as int]) == all.take(j as int).filter(good_pattern()),
            forall|m: int| 0 <= m < good@.len() ==> #[trigger] good@[m] < all.len(),
        decreases all.len() - j,
    {
        let s = patterns[j].success_count as u64;
        let f = patterns[j].failure_count as u64;
        let rate_ok = s + f > 0 && 5 * s >= 3 * (s + f);
        let ghost before = good@;
        if rate_ok {
            good.push(j);
        }
        proof {
            reveal(Seq::filter);
            let t = all.take(j + 1);
            assert(t.drop_last() =~= all.take(j as int));
            if rate_ok {
                assert(good@.map_values(|x: usize| all[x as int]) =~= before.map_values(
                    |x: usize| all[x as int],
                ).push(all[j as int]));
            } else {
                assert(good@ == before);
            }
        }
        j = j + 1;
    }
    proof {
        let found = good@.map_values(|x: usize| all[x as int]);
        if j == all.len() {
            assert(all.take(j as int) =~= all);
        } else {
            // five found already: they are the first five of all the good ones
            lemma_filter_prefix(all, j as int);
            assert(found.take(PATTERNS_SHOWN as int) =~= found);
        }
    }
    good
}

fn append_patterns(out: &mut String, patterns: &Vec<Pattern>)
    ensures
        final(out)@ == old(out)@ + pattern_section(patterns@),
{
    let good = good_pattern_indices(patterns);
    let ghost all = patterns@;
    let ghost found = good@.map_values(|x: usize| all[x as int]);
    if good.len() == 0 {
        assert(out@ =~= old(out)@ + pattern_section(patterns@));
        return;
    }
    out.append("\nSuccessful patterns to apply:\n");
    let ghost head = out@;
    let mut k: usize = 0;
    while k < good.len()
        invariant
            forall|m: int| 0 <= m < good@.len() ==> #[trigger] good@[m] < all.len(),
            all == patterns@,
            found == good@.map_values(|x: usize| all[x as int]),
            k <= good@.len(),
            out@ == head + pattern_lines(found.take(k as int)),
        decreases good@.len() - k,
    {
        let ghost before = out@;
        out.append("- ");
        out.append(patterns[good[k]].description.as_str());
        out.append("\n");
        proof {
            assert(found.take(k + 1).drop_last() =~= found.take(k as int));
        }
        k = k + 1;
    }
    proof {
        assert(found.take(good@.len() as int) =~= found);
        assert(out@ =~= old(out)@ + pattern_section(patterns@));
    }
}

/// Build the instructions of an enhancement request.
pub fn build_enhancement_prompt(git_info: &GitInfo, recent_prompts: &Vec<String>, patterns: &Vec<Pattern>) -> (r: String)
    ensures
        r@ == enhancement_prompt(*git_info, recent_prompts@, patterns@),
{
    let mut out = String::from_str("You are a prompt enhancement assistant. Your job is to take a user's prompt for a coding assistant and make it clearer, more specific, and more likely to get a good response.\n\nRules:\n1. Keep the core intent intact\n2. Add helpful context when it's missing\n3. Make vague requests more specific\n4. Don't add unnecessary verbosity\n5. Output ONLY the enhanced prompt, nothing else\n\n");
    append_context(&mut out, git_info);
    append_recent(&mut out, recent_prompts);
    append_patterns(&mut out, patterns);
    assert(out@ =~= enhancement_prompt(*git_info, recent_prompts@, patterns@));
    out
}

/// With at least five good patterns among the first `j`, the first five good
/// patterns overall are those.
proof fn lemma_filter_prefix(all: Seq<Pattern>, j: int)
    requires
        0 <= j <= all.len(),
        all.take(j).filter(good_pattern()).len() >= PATTERNS_SHOWN,
    ensures
        all.filter(good_pattern()).len() >= PATTERNS_SHOWN,
        all.filter(good_pattern()).take(PATTERNS_SHOWN as int) == all.take(j).filter(
            good_pattern(),
        ).take(PATTERNS_SHOWN as int),
    decreases all.len() - j,
{
    reveal(Seq::filter);
    if j < all.len() {
        let t = all.take(j + 1);
        assert(t.drop_last() =~= all.take(j));
        all.take(j).lemma_filter_len(good_pattern());
        lemma_filter_prefix(all, j + 1);
        let a = all.take(j).filter(good_pattern());
        let b = t.filter(good_pattern());
        assert(a.take(PATTERNS_SHOWN as int) =~= b.take(PATTERNS_SHOWN as int));
    } else {
        assert(all.take(j) =~= all);
    }
}

/// `s` with every leading repetition of `prefix` removed.
pub open spec fn strip_repeated(s: Seq<char>, prefix: Seq<char>) -> Seq<char>
    decreases s.len(),
{
    if prefix.len() > 0 && starts_with(s, prefix) {
        strip_repeated(s.skip(prefix.len() as int), prefix)
    } else {
        s
    }
}

/// What is left of an answer once the labels that models put before it are
/// removed and it is trimmed.
pub open spec fn without_labels(s: Seq<char>) -> Seq<char> {
    trimmed(
        strip_repeated(
            strip_repeated(
                strip_repeated(s, "Enhanced prompt:"@),
                "Here's the enhanced prompt:"@,
            ),
            "Here is the enhanced prompt:"@,
        ),
    )
}

/// `s` without one pair of surrounding double quotes.
pub open spec fn unquoted(s: Seq<char>) -> Seq<char> {
    if s.len() >= 2 && s[0] == '"' && s.last() == '"' {
        s.subrange(1, s.len() - 1)
    } else {
        s
    }
}

/// The enhanced prompt read out of an answer: the original when the trimmed
/// answer is shorter (in UTF-8 bytes) than half of it, else the answer
/// without labels and surrounding quotes.
pub open spec fn enhanced_text(response: Seq<char>, original: Seq<char>) -> Seq<char> {
    let r = trimmed(response);
    if encode_utf8(r).len() < encode_utf8(original).len() / 2 {
        original
    } else {
        unquoted(without_labels(r))
    }
}

/// Whether `s` begins with `prefix`.
fn begins_with(s: &str, prefix: &str) -> (r: bool)
    ensures
        r == starts_with(s@, prefix@),
{
    let n = s.unicode_len();
    let m = prefix.unicode_len();
    if m > n {
        return false;
    }
    let mut i: usize = 0;
    while i < m
        invariant
            n == s@.len(),
            m == prefix@.len(),
            m <= n,
            i <= m,
            forall|k: int| 0 <= k < i ==> s@[k] == prefix@[k],
        decreases m - i,
    {
        if s.get_char(i) != prefix.get_char(i) {
            assert(s@.take(m as int)[i as int] != prefix@[i as int]);
            return false;
        }
        i = i + 1;
    }
    assert(s@.take(m as int) =~= prefix@);
    true
}

/// `s` with every leading repetition of `prefix` removed.
fn strip_prefix_repeated<'a>(s: &'a str, prefix: &str) -> (r: &'a str)
    ensures
        r@ == strip_repeated(s@, prefix@),
{
    let m = prefix.unicode_len();
    if m == 0 {
        return s;
    }
    let mut cur = s;
    while begins_with(cur, prefix)
        invariant
            m == prefix@.len(),
            m > 0,
            strip_repeated(cur@, prefix@) == strip_repeated(s@, prefix@),
        decreases cur@.len(),
    {
        let n = cur.unicode_len();
        let next = cur.substring_char(m, n);
        assert(next@ =~= cur@.skip(m as int));
        cur = next;
    }
    cur
}

/// Read the enhanced prompt out of the service's answer.
pub fn extract_enhanced_prompt(response: &str, original: &str) -> (r: String)
    ensures
        r@ == enhanced_text(response@, original@),
{
    let t = trim(response);
    if t.as_bytes().len() < original.as_bytes().len() / 2 {
        return String::from_str(original);
    }
    let a = strip_prefix_repeated(t, "Enhanced prompt:");
    let b = strip_prefix_repeated(a, "Here's the enhanced prompt:");
    let c = strip_prefix_repeated(b, "Here is the enhanced prompt:");
    let cleaned = trim(c);
    let n = cleaned.unicode_len();
    if n >= 2 && cleaned.get_char(0) == '"' && cleaned.get_char(n - 1) == '"' {
        String::from_str(cleaned.substring_char(1, n - 1))
    } else {
        String::from_str(cleaned)
    }
}

/// Position of the first `c` in `s`, if any.
pub open spec fn first_index(s: Seq<char>, c: char) -> Option<int> {
    if exists|i: int| 0 <= i < s.len() && s[i] == c {
        Some(choose|i: int| 0 <= i < s.len() && s[i] == c && forall|k: int| 0 <= k < i ==> s[k] != c)
    } else {
        None
    }
}

/// Position of the last `c` in `s`, if any.
pub open spec fn last_index(s: Seq<char>, c: char) -> Option<int> {
    if exists|i: int| 0 <= i < s.len() && s[i] == c {
        Some(choose|i: int| 0 <= i < s.len() && s[i] == c && forall|k: int| i < k < s.len() ==> s[k] != c)
    } else {
        None
    }
}

/// The JSON object in an analysis answer: from the first `{` to the last `}`
/// of the trimmed answer, when the first comes before the last.
pub open spec fn json_object_in(response: Seq<char>) -> Option<Seq<char>> {
    let t = trimmed(response);
    match (first_index(t, '{'), last_index(t, '}')) {
        (Some(a), Some(b)) => if a < b {
            Some(t.subrange(a, b + 1))
        } else {
            None
        },
        _ => None,
    }
}

/// The JSON object in an analysis answer, if there is one to parse.
pub fn analysis_json(response: &str) -> (r: Option<String>)
    ensures
        match r {
            Some(j) => json_object_in(response@) == Some(j@),
            None => json_object_in(response@) is None,
        },
{
    let t = trim(response);
    let n = t.unicode_len();
    let mut a: usize = 0;
    while a < n && t.get_char(a) != '{'
        invariant
            n == t@.len(),
            a <= n,
            forall|k: int| 0 <= k < a ==> t@[k] != '{',
        decreases n - a,
    {
        a = a + 1;
    }
    let mut b: usize = n;
    while b > 0 && t.get_char(b - 1) != '}'
        invariant
            n == t@.len(),
            b <= n,
            forall|k: int| b <= k < n ==> t@[k] != '}',
        decreases b,
    {
        b = b - 1;
    }
    proof {
        let s = t@;
        if a < n {
            let i = a as int;
            assert(s[i] == '{');
            let w = choose|i: int| 0 <= i < s.len() && s[i] == '{' && forall|k: int| 0 <= k < i ==> s[k] != '{';
            assert(first_index(s, '{') == Some(w));
            assert(w == i) by {
                if w < i {
                } else if w > i {
                    assert(s[i] != '{');
                }
            }
        } else {
            assert(first_index(s, '{') is None);
        }
        if b > 0 {
            let i = b - 1;
            assert(s[i] == '}');
            let w = choose|i: int| 0 <= i < s.len() && s[i] == '}' && forall|k: int| i < k < s.len() ==> s[k] != '}';
            assert(last_index(s, '}') == Some(w));
            assert(w == i) by {
                if w < i {
                    assert(s[i] != '}');
                } else if w > i {
                }
            }
        } else {
            assert(last_index(s, '}') is None);
        }
    }
    if a < n && b > 0 && a < b - 1 {
        Some(String::from_str(t.substring_char(a, b)))
    } else {
        None
    }
}

/// The request sent to enhance `original` under the given instructions.
pub fn enhancement_request(instructions: &str, original: &str) -> (r: String)
    ensures
        r@ == instructions@ + "\n\nUser's prompt to enhance:\n"@ + original@ + "\n\nEnhanced prompt:"@,
{
    let mut out = String::from_str(instructions);
    out.append("\n\nUser's prompt to enhance:\n");
    out.append(original);
    out.append("\n\nEnhanced prompt:");
    out
}

/// The most characters of a response an analysis request shows.
pub const RESPONSE_PREVIEW_CHARS: usize = 2000;

/// The request sent to rate how well `response` served `original_prompt`;
/// the response is cut to its first characters.
pub fn analysis_request(original_prompt: &str, response: &str) -> (r: String)
    ensures
        r@ == "Analyze this coding assistant interaction and rate its effectiveness.\n\nUser's prompt:\n"@
            + original_prompt@ + "\n\nAssistant's response (truncated):\n"@
            + prefix(response@, RESPONSE_PREVIEW_CHARS as nat)
            + "\n\nRate the interaction on these criteria:\n1. Did the response address the user's request?\n2. Was the response actionable and specific?\n3. Was the response appropriately scoped (not too verbose)?\n\nOutput format (JSON only, no other text):\n{\"score\": 0.0-1.0, \"summary\": \"one sentence summary\"}\n"@,
{
    let n = response.unicode_len();
    let k = if n <= RESPONSE_PREVIEW_CHARS {
        n
    } else {
        RESPONSE_PREVIEW_CHARS
    };
    let shown = response.substring_char(0, k);
    proof {
        if n <= RESPONSE_PREVIEW_CHARS {
            assert(response@.subrange(0, k as int) =~= response@);
        }
    }
    let mut out = String::from_str("Analyze this coding assistant interaction and rate its effectiveness.\n\nUser's prompt:\n");
    out.append(original_prompt);
    out.append("\n\nAssistant's response (truncated):\n");
    out.append(shown);
    out.append("\n\nRate the interaction on these criteria:\n1. Did the response address the user's request?\n2. Was the response actionable and specific?\n3. Was the response appropriately scoped (not too verbose)?\n\nOutput format (JSON only, no other text):\n{\"score\": 0.0-1.0, \"summary\": \"one sentence summary\"}\n");
    out
}

/// The most saved prompts a suggestion request shows as examples.
pub const EXAMPLES_SHOWN: usize = 10;

/// The saved texts joined by separator lines.
pub open spec fn joined_examples(saved: Seq<Prompt>) -> Seq<char>
    decreases saved.len(),
{
    if saved.len() == 0 {
        Seq::empty()
    } else if saved.len() == 1 {
        saved[0].text@
    } else {
        joined_examples(saved.drop_last()) + "\n---\n"@ + saved.last().text@
    }
}

/// The request sent to rewrite a vague `prompt`, with the first saved
/// prompts as examples of the user's style.
pub open spec fn suggestion_text(prompt: Seq<char>, saved: Seq<Prompt>) -> Seq<char> {
    "You rewrite vague prompts into specific, actionable ones.\n\nThe user's best prompts (learn their style):\n"@
        + joined_examples(if saved.len() <= EXAMPLES_SHOWN { saved } else { saved.take(EXAMPLES_SHOWN as int) })
        + "\n\nRules:\n- Output ONLY the better prompt, nothing else\n- Keep it concise\n- Make it specific and actionable\n- Match their style\n\nRewrite this vague prompt:\n"@
        + prompt + "\n\nBetter prompt:"@
}

/// Build the request that rewrites a vague prompt.
pub fn suggestion_request(prompt: &str, saved: &Vec<Prompt>) -> (r: String)
    ensures
        r@ == suggestion_text(prompt@, saved@),
{
    let shown = if saved.len() <= EXAMPLES_SHOWN {
        saved.len()
    } else {
        EXAMPLES_SHOWN
    };
    let mut out = String::from_str("You rewrite vague prompts into specific, actionable ones.\n\nThe user's best prompts (learn their style):\n");
    let ghost head = out@;
    let mut i: usize = 0;
    while i < shown
        invariant
            shown <= saved@.len(),
            i <= shown,
            out@ == head + joined_examples(saved@.take(i as int)),
        decreases shown - i,
    {
        let ghost before = out@;
        if i > 0 {
            out.append("\n---\n");
        }
        out.append(saved[i].text.as_str());
        proof {
            let t = saved@.take(i + 1);
            assert(t.drop_last() =~= saved@.take(i as int));
            if i == 0 {
                assert(t.len() == 1 && t[0] == saved@[0]);
                assert(saved@.take(0) =~= Seq::<Prompt>::empty());
            }
            assert(out@ =~= head + joined_examples(t));
        }
        i = i + 1;
    }
    proof {
        if saved@.len() <= EXAMPLES_SHOWN {
            assert(saved@.take(shown as int) =~= saved@);
        }
    }
    out.append("\n\nRules:\n- Output ONLY the better prompt, nothing else\n- Keep it concise\n- Make it specific and actionable\n- Match their style\n\nRewrite this vague prompt:\n");
    out.append(prompt);
    out.append("\n\nBetter prompt:");
    assert(out@ =~= suggestion_text(prompt@, saved@));
    out
}

} // verus!
