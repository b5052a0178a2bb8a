use promptmaxx::capture::{capture_prompt, preview};
use promptmaxx::enhance::{
    analysis_json, analysis_request, build_enhancement_prompt, enhancement_request,
    extract_enhanced_prompt, suggestion_request,
};
use promptmaxx::git::{branch_name, commit_subjects, diff_summary, git_info_from_output, repo_name};
use promptmaxx::history::{history_prompt, recent_prompts, recent_prompts_for_project};
use promptmaxx::text::trim;
use promptmaxx::{count, ClaudeHistoryEntry, GitInfo, Pattern, Prompt, PromptStore};

fn entry(display: &str, project: Option<&str>) -> Option<ClaudeHistoryEntry> {
    Some(ClaudeHistoryEntry {
        display: display.to_string(),
        timestamp: 0,
        project: project.map(|p| p.to_string()),
    })
}

#[test]
fn trim_strips_unicode_whitespace() {
    assert_eq!(trim("  \u{3000}hi there\n\t"), "hi there");
    assert_eq!(trim("   "), "");
}

#[test]
fn history_skips_commands_and_blanks() {
    assert_eq!(history_prompt("  fix the bug \n"), Some("fix the bug".to_string()));
    assert_eq!(history_prompt("/clear"), None);
    assert_eq!(history_prompt("   /help"), None);
    assert_eq!(history_prompt("   "), None);
}

#[test]
fn recent_prompts_newest_first() {
    let entries = vec![
        entry("first", Some("/home/a/web")),
        None,
        entry("/compact", Some("/home/a/web")),
        entry("second", Some("/home/a/api")),
        entry("third", None),
    ];
    assert_eq!(recent_prompts(&entries, 2), vec!["third", "second"]);
    assert_eq!(recent_prompts(&entries, 10), vec!["third", "second", "first"]);
    assert!(recent_prompts(&entries, 0).is_empty());
    assert_eq!(recent_prompts_for_project(&entries, "web", 5), vec!["first"]);
    assert_eq!(recent_prompts_for_project(&entries, "/home/a", 5), vec!["second", "first"]);
}

#[test]
fn git_output_parsing() {
    assert_eq!(repo_name("/home/me/src/promptmaxx\n"), "promptmaxx");
    assert_eq!(repo_name("plain"), "plain");
    assert_eq!(branch_name("main\n"), "main");
    let info = git_info_from_output(Some("/x/y/repo\n"), None);
    assert_eq!(info.repo.as_deref(), Some("repo"));
    assert!(info.branch.is_none());
    assert_eq!(diff_summary(" \n".to_string()), None);
    assert_eq!(diff_summary(" a.rs | 2 +\n".to_string()), Some(" a.rs | 2 +\n".to_string()));
}

#[test]
fn extract_enhanced_prompt_cleans_answer() {
    assert_eq!(
        extract_enhanced_prompt("Enhanced prompt: \"Add tests for the parser\"", "add tests"),
        "Add tests for the parser"
    );
    assert_eq!(
        extract_enhanced_prompt("  Here is the enhanced prompt:\n  Fix the login bug in auth.rs ", "fix login"),
        "Fix the login bug in auth.rs"
    );
    assert_eq!(extract_enhanced_prompt("ok", "a much longer original prompt"), "a much longer original prompt");
    assert_eq!(extract_enhanced_prompt("\"", ""), "\"");
}

#[test]
fn analysis_json_between_braces() {
    assert_eq!(
        analysis_json("Sure! {\"score\": 0.8, \"summary\": \"good\"} done"),
        Some("{\"score\": 0.8, \"summary\": \"good\"}".to_string())
    );
    assert_eq!(analysis_json("no json here"), None);
    assert_eq!(analysis_json("} backwards {"), None);
}

#[test]
fn enhancement_prompt_lists_context() {
    let git = GitInfo { repo: Some("web".to_string()), branch: Some("dev".to_string()) };
    let recent = vec!["a".repeat(150), "two".to_string(), "three".to_string(), "four".to_string()];
    let patterns = vec![
        Pattern { id: "1".into(), pattern_type: "t".into(), description: "be specific".into(), success_count: 3, failure_count: 2 },
        Pattern { id: "2".into(), pattern_type: "t".into(), description: "name files".into(), success_count: 1, failure_count: 1 },
        Pattern { id: "3".into(), pattern_type: "t".into(), description: "untested".into(), success_count: 0, failure_count: 0 },
    ];
    let s = build_enhancement_prompt(&git, &recent, &patterns);
    assert!(s.starts_with("You are a prompt enhancement assistant."));
    assert!(s.contains("Current repository: web\nCurrent branch: dev\n"));
    assert!(s.contains(&format!("1. {}\n2. two\n3. three\n", "a".repeat(100))));
    assert!(!s.contains("four"));
    assert!(s.ends_with("\nSuccessful patterns to apply:\n- be specific\n"));
    let bare = build_enhancement_prompt(&GitInfo::default(), &vec![], &vec![]);
    assert!(bare.ends_with("nothing else\n\n"));
    let req = enhancement_request("RULES", "fix it");
    assert_eq!(req, "RULES\n\nUser's prompt to enhance:\nfix it\n\nEnhanced prompt:");
}

#[test]
fn analysis_request_truncates_response() {
    let long = "x".repeat(2500);
    let r = analysis_request("do it", &long);
    assert!(r.contains(&format!("User's prompt:\ndo it\n\nAssistant's response (truncated):\n{}\n\n", "x".repeat(2000))));
    assert!(r.ends_with("{\"score\": 0.0-1.0, \"summary\": \"one sentence summary\"}\n"));
}

#[test]
fn suggestion_request_joins_examples() {
    let saved: Vec<Prompt> = (0..12)
        .map(|i| Prompt {
            id: format!("{}", i),
            text: format!("p{}", i),
            repo: None,
            branch: None,
            timestamp: String::new(),
        })
        .collect();
    let r = suggestion_request("make it fast", &saved);
    assert!(r.contains("(learn their style):\np0\n---\np1\n---\n"));
    assert!(r.contains("p9\n\nRules:"));
    assert!(!r.contains("p10"));
    assert!(r.ends_with("Rewrite this vague prompt:\nmake it fast\n\nBetter prompt:"));
}

#[test]
fn preview_cuts_long_text() {
    assert_eq!(preview("short"), "short");
    let long = "y".repeat(70);
    assert_eq!(preview(&long), format!("{}...", "y".repeat(60)));
}

#[test]
fn capture_reports_duplicates() {
    let mut db = PromptStore::new();
    let git = GitInfo { repo: Some("web".to_string()), branch: None };
    let (first, saved) = capture_prompt(&mut db, "ship it".to_string(), git.clone()).unwrap();
    assert!(first.success && !first.is_duplicate);
    assert_eq!(first.message, "Saved");
    let saved = saved.unwrap();
    assert_eq!(saved.text, "ship it");
    assert_eq!(saved.repo.as_deref(), Some("web"));
    let (again, none) = capture_prompt(&mut db, "ship it".to_string(), git).unwrap();
    assert!(none.is_none());
    assert!(!again.success && again.is_duplicate);
    assert_eq!(again.message, "Already saved");
    assert_eq!(again.prompt_preview, "ship it");
    assert_eq!(count(&db), 1);
}

#[test]
fn commit_subjects_trims_and_skips_blank_lines() {
    assert_eq!(commit_subjects("Fix parser\r\n  \nAdd tests  \nBump version"), vec!["Fix parser", "Add tests", "Bump version"]);
    assert_eq!(commit_subjects("only\n"), vec!["only"]);
    assert!(commit_subjects("").is_empty());
}
