use promptmaxx::create::{create_interaction, create_prompt};
use promptmaxx::db::{
    delete_prompt, get_interactions, get_patterns, get_prompt_count, get_prompts, get_stats,
    get_successful_interactions, prompt_exists, save_interaction, save_pattern, save_prompt,
    update_interaction_analysis, update_pattern_counts,
};
use promptmaxx::{
    count, delete, list, save, save_new, save_with_context, search, text_exists, update, Error,
    Fraction, Pattern, Prompt, PromptStore,
};

fn prompt_at(id: &str, text: &str, timestamp: &str) -> Prompt {
    Prompt {
        id: id.to_string(),
        text: text.to_string(),
        repo: None,
        branch: None,
        timestamp: timestamp.to_string(),
    }
}

fn pattern(id: &str, success: u32, failure: u32) -> Pattern {
    Pattern {
        id: id.to_string(),
        pattern_type: "style".to_string(),
        description: format!("pattern {}", id),
        success_count: success,
        failure_count: failure,
    }
}

#[test]
fn insert_created_prompt_then_exists() {
    let mut db = PromptStore::new();
    let p = create_prompt("fix the flaky test".to_string(), None, None);
    assert!(!prompt_exists(&db, "fix the flaky test"));
    save_prompt(&mut db, &p).unwrap();
    assert!(prompt_exists(&db, "fix the flaky test"));
    assert!(text_exists(&db, "fix the flaky test"));
    assert!(!text_exists(&db, "fix the flaky"));
}

#[test]
fn saving_twice_keeps_one_row_and_reports_duplicate() {
    let mut db = PromptStore::new();
    let first = save(&mut db, "add logging").unwrap();
    assert_eq!(first.text, "add logging");
    let second = save(&mut db, "add logging");
    assert!(matches!(second, Err(Error::Duplicate)));
    assert_eq!(count(&db), 1);
}

#[test]
fn save_with_context_keeps_repo_and_branch() {
    let mut db = PromptStore::new();
    let p = save_with_context(&mut db, "tidy imports", Some("app".to_string()), Some("main".to_string()))
        .unwrap();
    assert_eq!(p.repo.as_deref(), Some("app"));
    assert_eq!(p.branch.as_deref(), Some("main"));
    assert_eq!(list(&db)[0].repo.as_deref(), Some("app"));
}

#[test]
fn save_new_refuses_a_taken_id() {
    let mut db = PromptStore::new();
    save_new(&mut db, prompt_at("a", "one", "2024-01-01T00:00:00+00:00")).unwrap();
    let r = save_new(&mut db, prompt_at("a", "two", "2024-01-02T00:00:00+00:00"));
    assert!(matches!(r, Err(Error::Database(_))));
    let r = save_new(&mut db, prompt_at("b", "one", "2024-01-02T00:00:00+00:00"));
    assert!(matches!(r, Err(Error::Duplicate)));
    assert_eq!(count(&db), 1);
}

#[test]
fn list_is_capped_and_newest_first() {
    let mut db = PromptStore::new();
    for i in 0..105u32 {
        let ts = format!("2024-01-01T00:{:02}:{:02}+00:00", i / 60, i % 60);
        save_prompt(&mut db, &prompt_at(&format!("id{}", i), &format!("prompt {}", i), &ts)).unwrap();
    }
    let rows = list(&db);
    assert_eq!(rows.len(), 100);
    assert_eq!(rows[0].text, "prompt 104");
    assert_eq!(rows[99].text, "prompt 5");
    for w in rows.windows(2) {
        assert!(w[0].timestamp >= w[1].timestamp);
    }
}

#[test]
fn list_orders_by_timestamp_not_insertion() {
    let mut db = PromptStore::new();
    save_prompt(&mut db, &prompt_at("a", "middle", "2024-02-01T00:00:00+00:00")).unwrap();
    save_prompt(&mut db, &prompt_at("b", "newest", "2024-03-01T00:00:00+00:00")).unwrap();
    save_prompt(&mut db, &prompt_at("c", "oldest", "2024-01-01T00:00:00+00:00")).unwrap();
    let texts: Vec<String> = get_prompts(&db, None).into_iter().map(|p| p.text).collect();
    assert_eq!(texts, vec!["newest", "middle", "oldest"]);
}

#[test]
fn list_of_empty_store_is_empty() {
    let db = PromptStore::new();
    assert!(list(&db).is_empty());
    assert!(search(&db, "x").is_empty());
}

#[test]
fn search_is_case_insensitive() {
    let mut db = PromptStore::new();
    save_prompt(&mut db, &prompt_at("a", "Refactor AUTH module", "2024-01-01T00:00:00+00:00")).unwrap();
    save_prompt(&mut db, &prompt_at("b", "write docs", "2024-01-02T00:00:00+00:00")).unwrap();
    let hits = search(&db, "auth");
    assert_eq!(hits.len(), 1);
    assert_eq!(hits[0].id, "a");
    let hits = get_prompts(&db, Some("Auth"));
    assert_eq!(hits.len(), 1);
    assert_eq!(hits[0].id, "a");
}

#[test]
fn blank_query_lists_everything() {
    let mut db = PromptStore::new();
    save_prompt(&mut db, &prompt_at("a", "one", "2024-01-01T00:00:00+00:00")).unwrap();
    save_prompt(&mut db, &prompt_at("b", "two", "2024-01-02T00:00:00+00:00")).unwrap();
    let all: Vec<String> = list(&db).into_iter().map(|p| p.id).collect();
    let blank: Vec<String> = search(&db, "  \t ").into_iter().map(|p| p.id).collect();
    let empty: Vec<String> = get_prompts(&db, Some("")).into_iter().map(|p| p.id).collect();
    assert_eq!(all, vec!["b", "a"]);
    assert_eq!(blank, all);
    assert_eq!(empty, all);
}

#[test]
fn delete_missing_and_existing() {
    let mut db = PromptStore::new();
    save_prompt(&mut db, &prompt_at("a", "one", "2024-01-01T00:00:00+00:00")).unwrap();
    save_prompt(&mut db, &prompt_at("b", "two", "2024-01-02T00:00:00+00:00")).unwrap();
    assert!(!delete(&mut db, "zzz"));
    assert_eq!(count(&db), 2);
    assert!(delete(&mut db, "a"));
    assert_eq!(count(&db), 1);
    assert!(!delete_prompt(&mut db, "a"));
    assert_eq!(get_prompt_count(&db), 1);
    assert_eq!(list(&db)[0].id, "b");
}

#[test]
fn update_replaces_text_by_id() {
    let mut db = PromptStore::new();
    save_prompt(&mut db, &prompt_at("a", "old text", "2024-01-01T00:00:00+00:00")).unwrap();
    assert!(update(&mut db, "a", "new text"));
    assert!(!update(&mut db, "b", "other"));
    assert!(text_exists(&db, "new text"));
    assert!(!text_exists(&db, "old text"));
    assert_eq!(list(&db)[0].timestamp, "2024-01-01T00:00:00+00:00");
}

#[test]
fn fresh_pattern_has_neutral_rate() {
    let p = pattern("p", 0, 0);
    assert_eq!(p.success_rate(), Fraction { numerator: 1, denominator: 2 });
    assert_eq!(pattern("q", 3, 1).success_rate(), Fraction { numerator: 3, denominator: 4 });
}

#[test]
fn pattern_counts_add_up() {
    let mut db = PromptStore::new();
    save_pattern(&mut db, &pattern("p", 4, 2)).unwrap();
    update_pattern_counts(&mut db, "p", 1, 0).unwrap();
    update_pattern_counts(&mut db, "p", 1, 0).unwrap();
    let p = &get_patterns(&db)[0];
    assert_eq!(p.success_count, 6);
    assert_eq!(p.failure_count, 2);
    update_pattern_counts(&mut db, "missing", 5, 5).unwrap();
    assert_eq!(get_patterns(&db)[0].success_count, 6);
}

#[test]
fn pattern_count_overflow_is_refused() {
    let mut db = PromptStore::new();
    save_pattern(&mut db, &pattern("p", u32::MAX, 0)).unwrap();
    let r = update_pattern_counts(&mut db, "p", 1, 0);
    assert!(matches!(r, Err(Error::Database(_))));
    assert_eq!(get_patterns(&db)[0].success_count, u32::MAX);
}

#[test]
fn patterns_rank_by_smoothed_score() {
    let mut db = PromptStore::new();
    save_pattern(&mut db, &pattern("low", 1, 3)).unwrap();
    save_pattern(&mut db, &pattern("new", 0, 0)).unwrap();
    save_pattern(&mut db, &pattern("high", 9, 0)).unwrap();
    save_pattern(&mut db, &pattern("mid", 2, 1)).unwrap();
    let ids: Vec<String> = get_patterns(&db).into_iter().map(|p| p.id).collect();
    assert_eq!(ids, vec!["high", "mid", "low", "new"]);
    assert!(matches!(save_pattern(&mut db, &pattern("mid", 0, 0)), Err(Error::Database(_))));
}

#[test]
fn scenario_count_insert_dedup() {
    let mut db = PromptStore::new();
    assert_eq!(count(&db), 0);
    save(&mut db, "fix the bug").unwrap();
    assert_eq!(count(&db), 1);
    let rows = list(&db);
    assert_eq!(rows.len(), 1);
    assert_eq!(rows[0].text, "fix the bug");
    assert!(matches!(save(&mut db, "fix the bug"), Err(Error::Duplicate)));
    assert_eq!(count(&db), 1);
}

#[test]
fn scenario_search() {
    let mut db = PromptStore::new();
    save(&mut db, "refactor auth module").unwrap();
    save(&mut db, "write unit tests").unwrap();
    let hits = search(&db, "auth");
    assert_eq!(hits.len(), 1);
    assert_eq!(hits[0].text, "refactor auth module");
    assert!(search(&db, "xyz").is_empty());
}

#[test]
fn scenario_interaction_analysis() {
    let mut db = PromptStore::new();
    let i = create_interaction("fix".to_string(), "fix the null check".to_string(), None, None, None);
    assert!(i.effectiveness_score.is_none());
    save_interaction(&mut db, &i).unwrap();
    update_interaction_analysis(&mut db, &i.id, Some("fixed"), Some(900), Some(1200));
    let hits = get_successful_interactions(&db, 800);
    assert_eq!(hits.len(), 1);
    assert_eq!(hits[0].id, i.id);
    assert_eq!(hits[0].response_summary.as_deref(), Some("fixed"));
    assert_eq!(hits[0].duration_ms, Some(1200));
    assert!(get_successful_interactions(&db, 950).is_empty());
}

#[test]
fn scenario_empty_stats() {
    let db = PromptStore::new();
    let s = get_stats(&db);
    assert_eq!(s.total_interactions, 0);
    assert_eq!(s.average_effectiveness, None);
    assert_eq!(s.total_prompts, 0);
    assert_eq!(s.total_patterns, 0);
}

#[test]
fn stats_average_scored_interactions() {
    let mut db = PromptStore::new();
    for (n, score) in [(1, Some(500u32)), (2, Some(800)), (3, None), (4, Some(901))] {
        let i = create_interaction(format!("o{}", n), format!("e{}", n), None, None, None);
        save_interaction(&mut db, &i).unwrap();
        update_interaction_analysis(&mut db, &i.id, None, score, None);
    }
    save(&mut db, "p").unwrap();
    save_pattern(&mut db, &pattern("x", 0, 0)).unwrap();
    let s = get_stats(&db);
    assert_eq!(s.total_interactions, 4);
    assert_eq!(s.average_effectiveness, Some(733));
    assert_eq!(s.total_prompts, 1);
    assert_eq!(s.total_patterns, 1);
}

#[test]
fn successful_interactions_highest_first() {
    let mut db = PromptStore::new();
    for (n, score) in [(1u32, 700u32), (2, 950), (3, 820), (4, 600)] {
        let mut i = create_interaction(format!("o{}", n), format!("e{}", n), None, None, None);
        i.effectiveness_score = Some(score);
        i.id = format!("i{}", n);
        save_interaction(&mut db, &i).unwrap();
    }
    let ids: Vec<String> = get_successful_interactions(&db, 700).into_iter().map(|i| i.id).collect();
    assert_eq!(ids, vec!["i2", "i3", "i1"]);
}

#[test]
fn interactions_newest_first_with_limit() {
    let mut db = PromptStore::new();
    for n in 0..5u32 {
        let mut i = create_interaction(format!("o{}", n), format!("e{}", n), None, None, None);
        i.id = format!("i{}", n);
        i.timestamp = format!("2024-01-0{}T00:00:00+00:00", n + 1);
        save_interaction(&mut db, &i).unwrap();
    }
    let ids: Vec<String> = get_interactions(&db, 3).into_iter().map(|i| i.id).collect();
    assert_eq!(ids, vec!["i4", "i3", "i2"]);
    let newest = get_interactions(&db, 1).remove(0);
    assert!(matches!(save_interaction(&mut db, &newest), Err(Error::Database(_))));
}

#[test]
fn created_records_get_fresh_ids_and_times() {
    let a = Prompt::new("a".to_string());
    let b = Prompt::with_context("b".to_string(), Some("r".to_string()), None);
    assert_eq!(a.id.len(), 36);
    assert_ne!(a.id, b.id);
    assert!(a.timestamp.contains('T'));
    assert_eq!(b.repo.as_deref(), Some("r"));
    assert!(a.repo.is_none() && a.branch.is_none());
}
