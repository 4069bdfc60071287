use aethr::brain::{fix_hit_lowered, fix_score, rate, BrainEntry, CommunityBrain};
use aethr::community::{CommunityConfig, CommunityMoatManager};
use aethr::config::{config_dir_in, get_db_path};
use aethr::context::{detect_project_context, is_manifest_name, DirItem, DirListing, ProjectContext};
use aethr::history::{hits_lowered, combined_score, frequency_score, rank_groups, recency_score, HistoryStore};
use aethr::model::{fix_request, parse_fix_reply, predict_request};
use aethr::models::{ApiToken, Command, ExecutionContext};
use aethr::resolve::{
    after_community, after_model, error_pattern, error_query, feedback_from_answer, merge_recall,
    record_feedback, recall, start_fix, stop_lowered, Feedback, FixStep, Layer, ModelFix, ScoredResult, Source,
};
use aethr::rules::{apply_rules, fill_template, Rule, RuleCaptures};
use aethr::ui::InteractivePrompt;

fn rule(pattern: &str, template: &str) -> Rule {
    Rule {
        name: "r".to_string(),
        match_regex: pattern.to_string(),
        fix_command: template.to_string(),
        confidence: None,
        explanation: None,
    }
}

fn candidate(command: &str, source: Source, score: u64) -> ScoredResult {
    ScoredResult { command: command.to_string(), source, score, frequency: 0, boosted: false }
}

#[test]
fn repeated_run_is_logged_once() {
    let mut store = HistoryStore::new();
    store.insert_command("ls -la", "/tmp", 0, 42);
    store.insert_command("ls -la", "/tmp", 0, 42);
    assert_eq!(store.count(), 1);
    store.insert_command("ls -la", "/tmp", 0, 43);
    store.insert_command("ls -la", "/home", 0, 42);
    assert_eq!(store.count(), 3);
}

#[test]
fn batch_insert_skips_duplicates() {
    let mut store = HistoryStore::new();
    let runs = vec![
        ("make".to_string(), "/src".to_string(), 0, 1),
        ("make".to_string(), "/src".to_string(), 0, 1),
        ("make test".to_string(), "/src".to_string(), 2, 2),
    ];
    store.insert_batch(&runs);
    assert_eq!(store.count(), 2);
    assert_eq!(store.entry(1).exit_code, Some(2));
}

#[test]
fn normalized_key_is_trimmed_and_lowercased() {
    let mut store = HistoryStore::new();
    store.insert_command("  Git Status \t", ".", 0, 5);
    assert_eq!(store.entry(0).normalized, "git status");
}

#[test]
fn recency_score_values() {
    assert_eq!(recency_score(1000, 1000), 1_000_000);
    assert_eq!(recency_score(86_400 / 2, 0), 750_000);
    assert_eq!(recency_score(86_400, 0), 500_000);
    assert_eq!(recency_score(86_400 + 2_592_000, 0), 100_000);
    assert_eq!(recency_score(i64::MAX, i64::MIN), 100_000);
    assert_eq!(recency_score(0, 100), 1_000_000);
}

#[test]
fn frequency_score_values() {
    assert_eq!(frequency_score(0), 100_000);
    assert_eq!(frequency_score(5), 100_000);
    assert_eq!(frequency_score(50), 500_000);
    assert_eq!(frequency_score(100), 1_000_000);
    assert_eq!(frequency_score(5000), 1_000_000);
}

#[test]
fn combined_score_values_and_order() {
    assert_eq!(combined_score(1_000_000, 1_000_000), 1_000_000);
    assert_eq!(combined_score(500_000, 100_000), 340_000);
    let fresh = combined_score(recency_score(10, 0), frequency_score(3));
    let stale = combined_score(recency_score(1_000_000, 0), frequency_score(3));
    assert!(stale <= fresh);
    let rare = combined_score(recency_score(10, 0), frequency_score(3));
    let common = combined_score(recency_score(10, 0), frequency_score(80));
    assert!(rare <= common);
}

#[test]
fn ranked_groups_come_highest_first() {
    let groups = vec![
        ("old".to_string(), 0i64, 1u64),
        ("new".to_string(), 1_000i64, 1u64),
        ("busy".to_string(), 0i64, 100u64),
    ];
    let ranked = rank_groups(groups, 1_000);
    assert_eq!(ranked.len(), 3);
    assert_eq!(ranked[0].command, "busy");
    assert_eq!(ranked[0].combined_score, 996_527);
    assert_eq!(ranked[1].command, "new");
    assert_eq!(ranked[1].combined_score, 640_000);
    assert!(ranked[0].combined_score >= ranked[1].combined_score);
    assert!(ranked[1].combined_score >= ranked[2].combined_score);
}

#[test]
fn history_search_newest_first_and_limited() {
    let mut store = HistoryStore::new();
    store.insert_command("git status", ".", 0, 1);
    store.insert_command("git push", ".", 0, 3);
    store.insert_command("ls", ".", 0, 2);
    store.insert_command("GIT log", ".", 0, 2);
    let res = store.search("\"git\"", 2);
    assert_eq!(res, vec!["git push".to_string(), "GIT log".to_string()]);
    assert!(store.search("   ", 5).is_empty());
}

#[test]
fn success_rate_defaults_to_half() {
    assert_eq!(rate(0, 0), 5_000);
    assert_eq!(rate(8, 2), 8_000);
    let e = BrainEntry {
        id: None,
        command: "x".to_string(),
        error_pattern: None,
        context_tags: None,
        success_count: 8,
        fail_count: 2,
        provenance: None,
        created_at: None,
    };
    assert_eq!(e.success_rate(), 8_000);
}

#[test]
fn repeated_success_merges_into_one_row() {
    let mut brain = CommunityBrain::new();
    brain.log_success("npm install", "module not found", Some("nodejs")).unwrap();
    brain.log_success("npm install", "module not found", None).unwrap();
    assert_eq!(brain.count(), 1);
    assert_eq!(brain.entry(0).success_count, 2);
    assert_eq!(brain.entry(0).provenance.as_deref(), Some("user"));
}

#[test]
fn failure_counts_only_on_stored_rows() {
    let mut brain = CommunityBrain::new();
    brain.log_failure("cargo build", "could not compile").unwrap();
    assert_eq!(brain.count(), 0);
    brain.log_success("cargo build", "could not compile", None).unwrap();
    brain.log_failure("cargo build", "could not compile").unwrap();
    assert_eq!(brain.entry(0).fail_count, 1);
    assert_eq!(brain.entry(0).success_count, 1);
}

#[test]
fn counter_overflow_is_refused() {
    let mut brain = CommunityBrain::new();
    let big = BrainEntry {
        id: None,
        command: "c".to_string(),
        error_pattern: Some("e".to_string()),
        context_tags: None,
        success_count: u64::MAX,
        fail_count: 0,
        provenance: None,
        created_at: Some(1),
    };
    brain.insert(big).unwrap();
    assert!(brain.log_success("c", "e", None).is_err());
    assert_eq!(brain.entry(0).success_count, u64::MAX);
}

#[test]
fn seeding_fills_only_an_empty_base() {
    let mut brain = CommunityBrain::new();
    brain.seed_if_empty();
    assert_eq!(brain.count(), 37);
    assert_eq!(brain.entry(0).created_at, Some(1_700_000_000));
    brain.seed_if_empty();
    assert_eq!(brain.count(), 37);

    let mut used = CommunityBrain::new();
    used.log_success("ls", "x", None).unwrap();
    used.seed_if_empty();
    assert_eq!(used.count(), 1);
}

#[test]
fn knowledge_search_scores_and_orders() {
    let mut brain = CommunityBrain::new();
    brain.seed_if_empty();
    let filter = vec!["docker".to_string()];
    let res = brain.search_with_scores("docker daemon", Some(&filter), 3);
    assert!(!res.is_empty());
    assert_eq!(res[0].command, "sudo systemctl start docker");
    // 55 successes, 3 failures: 9482, raised by half for the tag, then by a fifth.
    assert_eq!(res[0].success_rate, 9_482);
    assert_eq!(res[0].score, 9_482 * 3 / 2 * 6 / 5);
    for w in res.windows(2) {
        assert!(w[0].score >= w[1].score);
    }
    assert!(brain.search_with_scores("a b", None, 3).is_empty());
}

#[test]
fn rule_substitutes_named_group() {
    let rules = vec![rule("cannot find module '(?P<mod>.+)'", "npm install {{mod}}")];
    let fix = apply_rules(&rules, "Error: cannot find module 'express'").unwrap();
    assert_eq!(fix.command, "npm install express");
    assert_eq!(fix.confidence, 60);
    assert_eq!(fix.explanation, "");
}

#[test]
fn rule_substitutes_positional_groups_and_skips_bad_patterns() {
    let rules = vec![
        rule("(unclosed", "never"),
        rule("port (\\d+) in use by (\\w+)", "kill $2 # $1"),
        rule("port", "later rule"),
    ];
    let fix = apply_rules(&rules, "port 8080 in use by node").unwrap();
    assert_eq!(fix.command, "kill node # 8080");
    assert!(apply_rules(&rules, "nothing here").is_none());
}

#[test]
fn template_fill_from_captures() {
    let caps = RuleCaptures {
        named: vec![("pkg".to_string(), Some("left-pad".to_string())), ("x".to_string(), None)],
        positional: vec![Some("left-pad".to_string()), None, None, None, None],
    };
    assert_eq!(fill_template("npm i {{pkg}} {{x}} $1$2", &caps), "npm i left-pad {{x}} left-pad$2");
}

#[test]
fn matching_rule_ends_the_pipeline() {
    let rules = vec![rule("cannot find module '(?P<mod>.+)'", "npm install {{mod}}")];
    let mut consulted = 0;
    match start_fix(&rules, "Error: cannot find module 'express'", true) {
        FixStep::Emit(c) => {
            assert_eq!(c.command, "npm install express");
            assert_eq!(c.source, Source::Rule);
            assert_eq!(c.confidence, Some(60));
        }
        FixStep::SearchCommunity(_) | FixStep::AskModel => consulted += 1,
        FixStep::NoFix(_) => panic!("no fix"),
    }
    assert_eq!(consulted, 0);
}

#[test]
fn pipeline_falls_through_the_layers() {
    let rules: Vec<Rule> = vec![];
    match start_fix(&rules, "Error: EACCES permission denied, mkdir", false) {
        FixStep::SearchCommunity(q) => assert_eq!(q, "EACCES permission denied mkdir"),
        _ => panic!("expected a knowledge-base search"),
    }
    match start_fix(&rules, "no such file", false) {
        FixStep::NoFix(tried) => assert_eq!(tried, vec![Layer::Rules]),
        _ => panic!("expected no fix"),
    }
    assert!(matches!(start_fix(&rules, "no", true), FixStep::AskModel));
    assert!(matches!(after_community(&vec![], true), FixStep::AskModel));
    match after_community(&vec![], false) {
        FixStep::NoFix(tried) => assert_eq!(tried, vec![Layer::Rules, Layer::Community]),
        _ => panic!("expected no fix"),
    }
    let reply = ModelFix { command: "ls".to_string(), explanation: "list".to_string() };
    match after_model(Some(reply), true) {
        FixStep::Emit(c) => {
            assert_eq!(c.source, Source::Model);
            assert!(!c.verified);
        }
        _ => panic!("expected the model's fix"),
    }
    let empty = ModelFix { command: String::new(), explanation: "raw text".to_string() };
    match after_model(Some(empty), true) {
        FixStep::NoFix(tried) => assert_eq!(tried, vec![Layer::Rules, Layer::Community, Layer::Model]),
        _ => panic!("expected no fix"),
    }
}

#[test]
fn community_layer_offers_top_result() {
    let mut brain = CommunityBrain::new();
    brain.seed_if_empty();
    let res = brain.search_with_scores("EACCES permission denied", None, 3);
    match after_community(&res, false) {
        FixStep::Emit(c) => {
            assert_eq!(c.command, res[0].command);
            assert_eq!(c.source, Source::Community);
            assert_eq!(c.uses, (res[0].success_count + res[0].fail_count) as u128);
        }
        _ => panic!("expected a fix"),
    }
}

#[test]
fn error_keys() {
    assert_eq!(error_query("the file was not found: cannot open foo.txt now please"), "open foo txt now please");
    let long = "a ".repeat(30);
    assert_eq!(error_pattern(&long), "a a a a a a a a a a");
    assert_eq!(error_pattern("  x\n y  "), "x y");
}

#[test]
fn feedback_answers() {
    assert_eq!(feedback_from_answer(""), Feedback::Worked);
    assert_eq!(feedback_from_answer(" YES \n"), Feedback::Worked);
    assert_eq!(feedback_from_answer("n"), Feedback::Failed);
    assert_eq!(feedback_from_answer("maybe"), Feedback::Skipped);
}

#[test]
fn feedback_is_recorded_under_the_error_pattern() {
    let mut brain = CommunityBrain::new();
    record_feedback(&mut brain, "ls", "  boom   went\tthe  thing ", None, Feedback::Worked).unwrap();
    assert_eq!(brain.entry(0).error_pattern.as_deref(), Some("boom went the thing"));
    record_feedback(&mut brain, "ls", "boom went the thing", None, Feedback::Failed).unwrap();
    assert_eq!(brain.count(), 1);
    assert_eq!(brain.entry(0).fail_count, 1);
    record_feedback(&mut brain, "ls", "other", None, Feedback::Skipped).unwrap();
    assert_eq!(brain.count(), 1);
}

#[test]
fn recall_merge_keeps_best_duplicate() {
    let history = vec![candidate("git status", Source::History, 900_000)];
    let community = vec![candidate("git status", Source::Community, 600_000)];
    let merged = merge_recall(history, community);
    assert_eq!(merged.len(), 1);
    assert_eq!(merged[0].command, "git status");
    assert_eq!(merged[0].score, 900_000);
}

#[test]
fn recall_merge_orders_and_caps() {
    let history: Vec<ScoredResult> = (0..8).map(|i| candidate(&format!("h{}", i), Source::History, i * 10)).collect();
    let community: Vec<ScoredResult> = (0..8).map(|i| candidate(&format!("c{}", i), Source::Community, i * 10 + 5)).collect();
    let merged = merge_recall(history, community);
    assert_eq!(merged.len(), 10);
    assert_eq!(merged[0].command, "c7");
    for w in merged.windows(2) {
        assert!(w[0].score >= w[1].score);
    }
}

#[test]
fn recall_boosts_by_context() {
    let ctx = ProjectContext { tags: vec!["git".to_string()] };
    let scored = rank_groups(vec![("git status".to_string(), 0, 100)], 0);
    let res = recall(&scored, &vec!["ls".to_string()], &ctx);
    assert_eq!(res.len(), 2);
    assert_eq!(res[0].command, "git status");
    assert_eq!(res[0].score, 2_000_000);
    assert!(res[0].boosted);
    assert_eq!(res[1].score, 750_000);
}

#[test]
fn boost_table_order_and_case() {
    let ctx = ProjectContext { tags: vec!["git".to_string(), "rust".to_string(), "golang".to_string()] };
    assert_eq!(ctx.get_boost_multiplier("GIT commit"), 20);
    assert_eq!(ctx.get_boost_multiplier("Cargo build"), 25);
    assert_eq!(ctx.get_boost_multiplier("go build"), 25);
    assert_eq!(ctx.get_boost_multiplier("gofmt"), 10);
}

#[test]
fn detection_edge_cases() {
    let missing = DirListing { exists: false, items: vec![] };
    assert!(detect_project_context(&missing).tags.is_empty());
    let listing = DirListing {
        exists: true,
        items: vec![
            DirItem { name: ".git".to_string(), is_file: false, content: None },
            DirItem { name: "notes.yml".to_string(), is_file: true, content: Some("plain".to_string()) },
            DirItem { name: "Cargo.toml".to_string(), is_file: true, content: None },
        ],
    };
    assert_eq!(detect_project_context(&listing).tags, vec!["git".to_string(), "rust".to_string()]);
    assert!(is_manifest_name("a.yaml"));
    assert!(!is_manifest_name("yaml"));
}

#[test]
fn paths_live_under_the_config_dir() {
    assert_eq!(config_dir_in(Some("/home/u".to_string())), "/home/u/.aethr");
    assert_eq!(config_dir_in(None), "./.aethr");
    assert!(get_db_path().ends_with("/.aethr/aethr.db"));
}

#[test]
fn records_and_settings() {
    let c = Command::new("ls".to_string(), "/".to_string()).with_exit_code(3);
    assert_eq!(c.exit_code, Some(3));
    assert!(c.executed_at > 0);
    let ctx = ExecutionContext::new("ci".to_string())
        .add_metadata("k".to_string(), "1".to_string())
        .add_metadata("k".to_string(), "2".to_string());
    assert_eq!(ctx.metadata, vec![("k".to_string(), "2".to_string())]);
    let mut tok = ApiToken::new("SECRET-REDACTED".to_string());
    assert!(!tok.is_expired());
    tok.expires_at = Some(10);
    assert!(tok.is_expired_at(11));
    assert!(!tok.is_expired_at(10));
    let mut m = CommunityMoatManager::with_config("cfg.json".to_string(), CommunityConfig::default());
    assert!(!m.should_sync(5));
    m.enable_contributions(true, false);
    assert!(m.should_sync(5));
    assert_eq!(m.sync_contributions(&vec![], 7), Some(0));
    assert!(!m.should_sync(7));
    m.disable_contributions();
    assert_eq!(m.sync_contributions(&vec![], 9), None);
}

#[test]
fn slash_filter_matches_prefix() {
    let mut p = InteractivePrompt::new();
    assert_eq!(p.filtered_commands().len(), 8);
    p.input = "/I".to_string();
    let names: Vec<&str> = p.filtered_commands().iter().map(|c| c.name).collect();
    assert_eq!(names, vec!["import", "init"]);
}

#[test]
fn model_request_and_reply() {
    assert_eq!(fix_request("boom", Some("rust")), "Error: boom\n\nProject context: rust");
    assert_eq!(fix_request("boom", None), "Error: boom");
    let r = parse_fix_reply("COMMAND:  cargo clean \nEXPLANATION: stale build\n");
    assert_eq!(r.command, "cargo clean");
    assert_eq!(r.explanation, "stale build");
    let raw = parse_fix_reply("  try rebooting  \nit helps");
    assert_eq!(raw.command, "");
    assert_eq!(raw.explanation, "  try rebooting  \nit helps");
    let x = parse_fix_reply("x");
    assert_eq!(x.command, "");
    assert_eq!(x.explanation, "x");
    let blank = parse_fix_reply("COMMAND:   \nEXPLANATION: none");
    assert_eq!(blank.command, "");
    assert_eq!(blank.explanation, "COMMAND:   \nEXPLANATION: none");
    assert_eq!(
        predict_request("deploy"),
        "Propose a single, safe shell command for intent: deploy\nRespond concisely."
    );
}

#[test]
fn search_matches_whole_words_only() {
    let mut store = HistoryStore::new();
    store.insert_command("cat digital.txt", ".", 0, 1);
    store.insert_command("git status", ".", 0, 2);
    assert_eq!(store.search("git", 10), vec!["git status".to_string()]);
    assert!(hits_lowered("git status", &vec!["git".to_string()]));
    assert!(!hits_lowered("cat digital.txt", &vec!["git".to_string()]));
    assert!(!hits_lowered("git status", &vec!["GIT".to_string()]));
}

#[test]
fn knowledge_hits_whole_words() {
    let tags = Some("nodejs,javascript".to_string());
    let lowered = vec!["javascript".to_string()];
    assert!(fix_hit_lowered(&"npm ci".to_string(), &None, &tags, &lowered));
    let part = vec!["java".to_string()];
    assert!(!fix_hit_lowered(&"npm ci".to_string(), &None, &tags, &part));
}

#[test]
fn context_boost_applies_once() {
    let tags = Some("nodejs,javascript".to_string());
    let filter = vec!["nodejs".to_string(), "javascript".to_string()];
    // 8 of 10 outcomes: 8000, raised by half once, no usage boost at ten outcomes.
    assert_eq!(fix_score(8, 2, &tags, Some(&filter)), 12_000);
    assert_eq!(fix_score(8, 2, &tags, None), 8_000);
    let many: Vec<String> = (0..100).map(|i| format!("t{}", i)).collect();
    assert_eq!(fix_score(8, 2, &tags, Some(&many)), 8_000);
}

#[test]
fn unicode_whitespace_is_trimmed() {
    let mut store = HistoryStore::new();
    store.insert_command("\u{a0}Make\u{3000}", ".", 0, 1);
    assert_eq!(store.entry(0).normalized, "make");
    assert_eq!(feedback_from_answer("\u{2003}yes\u{a0}"), Feedback::Worked);
}

#[test]
fn lowered_variants() {
    let ctx = ProjectContext { tags: vec!["git".to_string()] };
    assert_eq!(ctx.boost_for_lowered("git log"), 20);
    assert_eq!(ctx.boost_for_lowered("GIT log"), 10);
    assert!(stop_lowered("cannot"));
    assert!(!stop_lowered("Cannot"));
}
