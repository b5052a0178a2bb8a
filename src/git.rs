//! Repository context out of the output of `git rev-parse` and `git diff`.

use vstd::prelude::*;
use crate::models::GitInfo;
use crate::text::{blank, chars_of, is_blank, trim, trimmed};

verus! {

/// What follows the last `/` of `s` (all of `s` when it has none).
pub open spec fn last_segment(s: Seq<char>) -> Seq<char>
    decreases s.len(),
{
    if s.len() == 0 {
        s
    } else if s.last() == '/' {
        Seq::empty()
    } else {
        last_segment(s.drop_last()).push(s.last())
    }
}

/// The repository name out of the top-level path that git printed: the
/// last component of the trimmed path.
pub open spec fn repo_name_of(toplevel: Seq<char>) -> Seq<char> {
    last_segment(trimmed(toplevel))
}

proof fn lemma_last_segment(s: Seq<char>, k: int)
    requires
        0 <= k <= s.len(),
        k == 0 || s[k - 1] == '/',
        forall|m: int| k <= m < s.len() ==> s[m] != '/',
    ensures
        last_segment(s) == s.subrange(k, s.len() as int),
    decreases s.len(),
{
    if s.len() > k {
        lemma_last_segment(s.drop_last(), k);
        assert(s.subrange(k, s.len() as int) =~= s.drop_last().subrange(k, s.len() - 1).push(
            s.last(),
        ));
    } else if s.len() > 0 {
        assert(s.subrange(k, s.len() as int) =~= Seq::<char>::empty());
    } else {
        assert(s.subrange(k, s.len() as int) =~= s);
    }
}

/// The repository name, from the top-level path printed by a successful
/// `git rev-parse --show-toplevel`.
pub fn repo_name(toplevel: &str) -> (r: String)
    ensures
        r@ == repo_name_of(toplevel@),
{
    let t = trim(toplevel);
    let n = t.unicode_len();
    let mut k: usize = n;
    while k > 0 && t.get_char(k - 1) != '/'
        invariant
            n == t@.len(),
            k <= n,
            forall|m: int| k <= m < n ==> t@[m] != '/',
        decreases k,
    {
        k = k - 1;
    }
    proof {
        lemma_last_segment(t@, k as int);
    }
    String::from_str(t.substring_char(k, n))
}

/// The branch name, from the output of a successful
/// `git rev-parse --abbrev-ref HEAD`.
pub fn branch_name(head: &str) -> (r: String)
    ensures
        r@ == trimmed(head@),
{
    String::from_str(trim(head))
}

/// Repository and branch from the two commands' output; `None` stands for a
/// command that failed or printed text that is not UTF-8.
pub fn git_info_from_output(toplevel: Option<&str>, head: Option<&str>) -> (r: GitInfo)
    ensures
        match toplevel {
            Some(t) => r.repo matches Some(s) && s@ == repo_name_of(t@),
            None => r.repo is None,
        },
        match head {
            Some(h) => r.branch matches Some(s) && s@ == trimmed(h@),
            None => r.branch is None,
        },
{
    let repo = match toplevel {
        Some(t) => Some(repo_name(t)),
        None => None,
    };
    let branch = match head {
        Some(h) => Some(branch_name(h)),
        None => None,
    };
    GitInfo { repo, branch }
}

/// The output of a successful `git diff --stat`, unless it is blank.
pub fn diff_summary(stat: String) -> (r: Option<String>)
    ensures
        is_blank(stat@) ==> r is None,
        !is_blank(stat@) ==> r == Some(stat),
{
    if blank(stat.as_str()) {
        None
    } else {
        Some(stat)
    }
}

/// The lines of `s`, split at each line feed; the piece after the last one
/// is included, even when empty.
pub open spec fn split_lines(s: Seq<char>) -> Seq<Seq<char>>
    decreases s.len(),
{
    if s.len() == 0 {
        seq![Seq::empty()]
    } else {
        let init = split_lines(s.drop_last());
        if s.last() == '\n' {
            init.push(Seq::empty())
        } else {
            init.update(init.len() - 1, init.last().push(s.last()))
        }
    }
}

proof fn lemma_split_lines_len(s: Seq<char>)
    ensures
        split_lines(s).len() >= 1,
    decreases s.len(),
{
    if s.len() > 0 {
        lemma_split_lines_len(s.drop_last());
    }
}

pub open spec fn not_empty() -> spec_fn(Seq<char>) -> bool {
    |l: Seq<char>| l.len() > 0
}

/// The commit subjects in the output of `git log --pretty=format:%s`: each
/// line trimmed, empty ones dropped.
pub open spec fn subjects_of(log: Seq<char>) -> Seq<Seq<char>> {
    split_lines(log).map_values(|l: Seq<char>| trimmed(l)).filter(not_empty())
}

/// The commit subjects printed by a successful `git log`.
pub fn commit_subjects(log: &str) -> (r: Vec<String>)
    ensures
        r@.map_values(|s: String| s@) == subjects_of(log@),
{
    let n = log.unicode_len();
    let chars = chars_of(log);
    let ghost s = log@;
    let mut out: Vec<String> = Vec::new();
    let mut start: usize = 0;
    let mut i: usize = 0;
    while i < n
        invariant
            n == s.len(),
            chars@ == s,
            s == log@,
            start <= i <= n,
            split_lines(s.take(i as int)).len() >= 1,
            split_lines(s.take(i as int)).last() == s.subrange(start as int, i as int),
            out@.map_values(|x: String| x@) == split_lines(s.take(i as int)).drop_last().map_values(
                |l: Seq<char>| trimmed(l),
            ).filter(not_empty()),
        decreases n - i,
    {
        let ghost lines = split_lines(s.take(i as int));
        proof {
            assert(s.take(i + 1).drop_last() =~= s.take(i as int));
            lemma_split_lines_len(s.take(i + 1));
        }
        if chars[i] == '\n' {
            let piece = trim(log.substring_char(start, i));
            let ghost before = out@;
            if piece.unicode_len() > 0 {
                out.push(String::from_str(piece));
            }
            proof {
                reveal(Seq::filter);
                let next = split_lines(s.take(i + 1));
                assert(next == lines.push(Seq::empty()));
                assert(next.drop_last() =~= lines);
                let m = lines.map_values(|l: Seq<char>| trimmed(l));
                assert(m.drop_last() =~= lines.drop_last().map_values(|l: Seq<char>| trimmed(l)));
                assert(m.last() == trimmed(lines.last()));
                if piece@.len() > 0 {
                    assert(out@.map_values(|x: String| x@) =~= before.map_values(|x: String| x@).push(piece@));
                } else {
                    assert(out@ == before);
                }
                assert(next.last() =~= s.subrange(i + 1, i + 1));
            }
            start = i + 1;
        } else {
            proof {
                let next = split_lines(s.take(i + 1));
                assert(next == lines.update(lines.len() - 1, lines.last().push(s[i as int])));
                assert(next.drop_last() =~= lines.drop_last());
                assert(next.last() =~= s.subrange(start as int, i + 1));
            }
        }
        i = i + 1;
    }
    let piece = trim(log.substring_char(start, n));
    let ghost before = out@;
    if piece.unicode_len() > 0 {
        out.push(String::from_str(piece));
    }
    proof {
        reveal(Seq::filter);
        assert(s.take(n as int) =~= s);
        let lines = split_lines(s);
        let m = lines.map_values(|l: Seq<char>| trimmed(l));
        assert(m.drop_last() =~= lines.drop_last().map_values(|l: Seq<char>| trimmed(l)));
        assert(m.last() == trimmed(lines.last()));
        if piece@.len() > 0 {
            assert(out@.map_values(|x: String| x@) =~= before.map_values(|x: String| x@).push(piece@));
        } else {
            assert(out@ == before);
        }
    }
    out
}

} // verus!
