//! The values kept by the store: prompts, interactions and patterns.

use vstd::prelude::*;

verus! {

/// A copy of an optional string.
pub fn clone_opt(o: &Option<String>) -> (r: Option<String>)
    ensures
        r == *o,
{
    match o {
        Some(s) => Some(s.clone()),
        None => None,
    }
}

/// The characters of an optional string.
pub open spec fn opt_view(o: Option<String>) -> Option<Seq<char>> {
    match o {
        Some(s) => Some(s@),
        None => None,
    }
}

/// A saved prompt.
#[derive(Debug)]
pub struct Prompt {
    pub id: String,
    pub text: String,
    pub repo: Option<String>,
    pub branch: Option<String>,
    /// Creation time, RFC 3339.
    pub timestamp: String,
}

impl Clone for Prompt {
    fn clone(&self) -> (r: Self)
        ensures
            r == *self,
    {
        Prompt {
            id: self.id.clone(),
            text: self.text.clone(),
            repo: clone_opt(&self.repo),
            branch: clone_opt(&self.branch),
            timestamp: self.timestamp.clone(),
        }
    }
}

/// An original prompt, its enhanced form, and the later judgment of how
/// well the response served it.
#[derive(Debug)]
pub struct Interaction {
    pub id: String,
    pub original_prompt: String,
    pub enhanced_prompt: String,
    pub response_summary: Option<String>,
    /// Effectiveness in thousandths: 0 is useless, 1000 fully effective.
    pub effectiveness_score: Option<u32>,
    pub repo: Option<String>,
    pub branch: Option<String>,
    pub model: Option<String>,
    pub duration_ms: Option<i64>,
    /// Creation time, RFC 3339.
    pub timestamp: String,
}

impl Clone for Interaction {
    fn clone(&self) -> (r: Self)
        ensures
            r == *self,
    {
        Interaction {
            id: self.id.clone(),
            original_prompt: self.original_prompt.clone(),
            enhanced_prompt: self.enhanced_prompt.clone(),
            response_summary: clone_opt(&self.response_summary),
            effectiveness_score: self.effectiveness_score,
            repo: clone_opt(&self.repo),
            branch: clone_opt(&self.branch),
            model: clone_opt(&self.model),
            duration_ms: self.duration_ms,
            timestamp: self.timestamp.clone(),
        }
    }
}

/// A non-negative fraction `numerator / denominator`.
#[derive(Debug, Clone, Copy, PartialEq, Eq, Structural)]
pub struct Fraction {
    pub numerator: u64,
    pub denominator: u64,
}

/// A learned heuristic with its tally of successes and failures.
#[derive(Debug)]
pub struct Pattern {
    pub id: String,
    pub pattern_type: String,
    pub description: String,
    pub success_count: u32,
    pub failure_count: u32,
}

impl Clone for Pattern {
    fn clone(&self) -> (r: Self)
        ensures
            r == *self,
    {
        Pattern {
            id: self.id.clone(),
            pattern_type: self.pattern_type.clone(),
            description: self.description.clone(),
            success_count: self.success_count,
            failure_count: self.failure_count,
        }
    }
}

impl Pattern {
    /// The share of successes among all outcomes; one half while there are
    /// none yet.
    pub open spec fn rate(&self) -> Fraction {
        let total = self.success_count + self.failure_count;
        if total == 0 {
            Fraction { numerator: 1, denominator: 2 }
        } else {
            Fraction { numerator: self.success_count as u64, denominator: total as u64 }
        }
    }

    /// The success rate, as a fraction.
    pub fn success_rate(&self) -> (r: Fraction)
        ensures
            r == self.rate(),
            r.denominator > 0,
            r.numerator <= r.denominator,
    {
        let total: u64 = self.success_count as u64 + self.failure_count as u64;
        if total == 0 {
            Fraction { numerator: 1, denominator: 2 }
        } else {
            Fraction { numerator: self.success_count as u64, denominator: total }
        }
    }
}

/// Repository and branch of the working directory, where there is one.
#[derive(Debug)]
pub struct GitInfo {
    pub repo: Option<String>,
    pub branch: Option<String>,
}

impl Clone for GitInfo {
    fn clone(&self) -> (r: Self)
        ensures
            r == *self,
    {
        GitInfo { repo: clone_opt(&self.repo), branch: clone_opt(&self.branch) }
    }
}

impl Default for GitInfo {
    fn default() -> (r: Self)
        ensures
            r.repo is None,
            r.branch is None,
    {
        GitInfo { repo: None, branch: None }
    }
}

/// One line of the assistant's history log.
#[derive(Debug)]
pub struct ClaudeHistoryEntry {
    pub display: String,
    pub timestamp: u64,
    pub project: Option<String>,
}

/// Counts over the store, and the mean effectiveness of scored interactions.
#[derive(Debug, Clone, Copy, PartialEq, Eq)]
pub struct InteractionStats {
    pub total_interactions: usize,
    /// In thousandths, rounded down; absent while no interaction is scored.
    pub average_effectiveness: Option<u32>,
    pub total_prompts: usize,
    pub total_patterns: usize,
}

} // verus!
