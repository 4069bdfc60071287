use aethr::community::CommunityConfig;
use aethr::context::{detect_project_context, DirItem, DirListing, ProjectContext};
use aethr::history::HistoryStore;
use aethr::ui::{CommandMenu, Progress};

fn file(name: &str, content: Option<&str>) -> DirItem {
    DirItem { name: name.to_string(), is_file: true, content: content.map(|c| c.to_string()) }
}

#[test]
fn test_community_config_default() {
    let config = CommunityConfig::default();
    assert!(!config.opt_in);
}

#[test]
fn detects_node_and_docker_and_k8s() {
    let listing = DirListing {
        exists: true,
        items: vec![
            file("package.json", Some("")),
            file("Dockerfile", Some("")),
            file("deployment.yaml", Some("apiVersion: apps/v1\nkind: Deployment\n")),
        ],
    };
    let ctx = detect_project_context(&listing);
    assert!(ctx.has_tag("docker"));
    assert!(ctx.has_tag("nodejs"));
    assert!(ctx.has_tag("kubernetes"));
}

#[test]
fn boost_multiplier_works() {
    let ctx = ProjectContext { tags: vec!["nodejs".to_string()] };
    assert_eq!(ctx.get_boost_multiplier("npm install express"), 25);
    assert_eq!(ctx.get_boost_multiplier("ls -la"), 10);
}

#[test]
fn test_menu_creation() {
    let menu = CommandMenu::new();
    assert_eq!(menu.commands.len(), 10);
    assert_eq!(menu.selected, 0);
}

#[test]
fn test_first_command() {
    let menu = CommandMenu::new();
    assert_eq!(menu.commands[0].name, "Recall");
}

#[test]
fn test_progress() {
    let mut progress = Progress::new(100, "Processing".to_string());
    progress.set(50);
    assert_eq!(progress.current, 50);
}

#[test]
fn detector_identifies_files() {
    let listing = DirListing {
        exists: true,
        items: vec![file("Dockerfile", Some("")), file("package.json", Some(""))],
    };
    let tags = detect_project_context(&listing).tags;
    assert!(tags.contains(&"docker".to_string()));
    assert!(tags.contains(&"nodejs".to_string()));
}

#[test]
fn insert_and_search_roundtrip() {
    let mut db = HistoryStore::new();
    db.insert_command("echo HelloAethr", ".", 0, 1_700_000_000);
    db.insert_command("git status", ".", 0, 1_700_000_001);

    let res = db.search("echo", 10);
    assert!(res.iter().any(|r| r.contains("HelloAethr")));

    let res2 = db.search("git", 10);
    assert!(res2.iter().any(|r| r.contains("git status")));
}
