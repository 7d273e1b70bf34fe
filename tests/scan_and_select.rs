use repo2txt::config::{extension, is_private_file, AppConfig};
use repo2txt::models::FileNode;
use repo2txt::persist::{flatten_config_state, lookup_prior, selection_record, ConfigNode, PriorEntry};
use repo2txt::scanner::{
    analysis_items, begin_scan, complete_scan, scan_directory, subtree_target, ScanError, WalkEntry,
};
use repo2txt::state::{
    deselect_all, get_tree, search_nodes, select_all, toggle_expanded, update_selection, AppState,
};

fn entry(depth: usize, rel: &str, parent: &str, is_directory: bool) -> WalkEntry {
    let name = rel.rsplit('/').next().unwrap().to_string();
    WalkEntry {
        depth,
        name,
        path: format!("/root/{}", rel),
        relative_path: rel.to_string(),
        parent_relative: parent.to_string(),
        is_directory,
        size: 7,
    }
}

fn root_entry() -> WalkEntry {
    WalkEntry {
        depth: 0,
        name: "root".to_string(),
        path: "/root".to_string(),
        relative_path: String::new(),
        parent_relative: String::new(),
        is_directory: true,
        size: 0,
    }
}

fn node<'a>(nodes: &'a [FileNode], id: &str) -> &'a FileNode {
    nodes.iter().find(|n| n.id == id).unwrap()
}

fn scanned(entries: Vec<WalkEntry>, prior: Vec<PriorEntry>) -> (AppState, Vec<FileNode>) {
    let mut state = AppState::new();
    let cfg = AppConfig::default();
    begin_scan(&mut state, "/root".to_string());
    let listing = complete_scan(&mut state, &cfg, &entries, &prior);
    (state, listing)
}

#[test]
fn prior_record_restores_flags_and_new_files_are_selected() {
    let record = vec![ConfigNode {
        name: "a.txt".to_string(),
        path: "a.txt".to_string(),
        is_directory: false,
        selected: false,
        expanded: false,
        children: None,
    }];
    let mut prior = Vec::new();
    flatten_config_state(&record, &mut prior);
    let entries = vec![root_entry(), entry(1, "a.txt", "", false), entry(1, "c.txt", "", false)];
    let (state, _) = scanned(entries, prior);
    assert!(!node(&state.nodes, "a.txt").selected);
    assert!(node(&state.nodes, "c.txt").selected);
    assert!(!node(&state.nodes, "c.txt").expanded);
}

#[test]
fn root_entry_never_becomes_a_node() {
    let entries = vec![root_entry(), entry(1, "a.txt", "", false)];
    let (state, listing) = scanned(entries, Vec::new());
    assert_eq!(state.nodes.len(), 1);
    assert_eq!(listing.len(), 1);
    assert!(state.nodes.iter().all(|n| !n.id.is_empty()));
}

#[test]
fn prior_flags_kept_exactly_for_directories() {
    let record = vec![ConfigNode {
        name: "src".to_string(),
        path: "src".to_string(),
        is_directory: true,
        selected: false,
        expanded: true,
        children: Some(vec![ConfigNode {
            name: "m.rs".to_string(),
            path: "src/m.rs".to_string(),
            is_directory: false,
            selected: false,
            expanded: false,
            children: None,
        }]),
    }];
    let mut prior = Vec::new();
    flatten_config_state(&record, &mut prior);
    assert_eq!(prior.len(), 2);
    assert_eq!(lookup_prior(&prior, &"src".to_string()), Some((false, true)));
    let entries = vec![
        root_entry(),
        entry(1, "src", "", true),
        entry(2, "src/m.rs", "src", false),
        entry(2, "src/n.rs", "src", false),
    ];
    let (state, _) = scanned(entries, prior);
    let src = node(&state.nodes, "src");
    assert!(!src.selected && src.expanded);
    assert!(!node(&state.nodes, "src/m.rs").selected);
    assert!(node(&state.nodes, "src/n.rs").selected);
    assert_eq!(node(&state.nodes, "src/n.rs").parent_id.as_deref(), Some("src"));
    assert_eq!(node(&state.nodes, "src/n.rs").size, None);
    assert_eq!(node(&state.nodes, "src/n.rs").token_count, None);
}

#[test]
fn later_record_entry_overrides_earlier_one() {
    let prior = vec![
        PriorEntry { path: "x".to_string(), selected: true, expanded: false },
        PriorEntry { path: "x".to_string(), selected: false, expanded: true },
    ];
    assert_eq!(lookup_prior(&prior, &"x".to_string()), Some((false, true)));
    assert_eq!(lookup_prior(&prior, &"y".to_string()), None);
}

#[test]
fn policy_skips_ignored_binary_and_private_entries() {
    let entries = vec![
        root_entry(),
        entry(1, "node_modules", "", true),
        entry(2, "node_modules/x.js", "node_modules", false),
        entry(1, "logo.PNG", "", false),
        entry(1, ".env", "", false),
        entry(1, "server.pem", "", false),
        entry(1, "my_secrets.txt", "", false),
        entry(1, "main.rs", "", false),
        entry(1, "keys.key", "", true),
    ];
    let (state, listing) = scanned(entries, Vec::new());
    let ids: Vec<&str> = state.nodes.iter().map(|n| n.id.as_str()).collect();
    assert_eq!(ids, vec!["main.rs", "keys.key"]);
    // directories first, then by name
    assert_eq!(listing[0].id, "keys.key");
    assert_eq!(listing[1].id, "main.rs");
}

#[test]
fn listing_sorts_directories_first_then_names() {
    let entries = vec![
        root_entry(),
        entry(1, "b.txt", "", false),
        entry(1, "zdir", "", true),
        entry(1, "a.txt", "", false),
        entry(1, "adir", "", true),
    ];
    let (_, listing) = scanned(entries, Vec::new());
    let ids: Vec<&str> = listing.iter().map(|n| n.id.as_str()).collect();
    assert_eq!(ids, vec!["adir", "zdir", "a.txt", "b.txt"]);
    let items = analysis_items(&listing);
    assert_eq!(items, vec![
        ("a.txt".to_string(), "/root/a.txt".to_string()),
        ("b.txt".to_string(), "/root/b.txt".to_string()),
    ]);
}

#[test]
fn duplicate_ids_are_indexed_once() {
    let entries = vec![root_entry(), entry(1, "a.txt", "", false), entry(1, "a.txt", "", false)];
    let (state, _) = scanned(entries, Vec::new());
    assert_eq!(state.nodes.len(), 1);
}

#[test]
fn begin_scan_moves_to_next_epoch() {
    let mut state = AppState::new();
    assert_eq!(begin_scan(&mut state, "/r".to_string()), 1);
    assert_eq!(begin_scan(&mut state, "/r".to_string()), 2);
    assert_eq!(state.root_path.as_deref(), Some("/r"));
    state.current_scan_id = u32::MAX;
    assert_eq!(begin_scan(&mut state, "/r".to_string()), 0);
}

fn tree_state() -> AppState {
    let entries = vec![
        root_entry(),
        entry(1, "a", "", true),
        entry(2, "a/x.txt", "a", false),
        entry(2, "a/b", "a", true),
        entry(3, "a/b/y.txt", "a/b", false),
        entry(1, "ab.txt", "", false),
        entry(1, "c.txt", "", false),
    ];
    scanned(entries, Vec::new()).0
}

#[test]
fn deselecting_a_directory_reaches_exactly_its_descendants() {
    let mut state = tree_state();
    update_selection(&mut state, "a", false);
    assert!(!node(&state.nodes, "a").selected);
    assert!(!node(&state.nodes, "a/x.txt").selected);
    assert!(!node(&state.nodes, "a/b").selected);
    assert!(!node(&state.nodes, "a/b/y.txt").selected);
    assert!(node(&state.nodes, "ab.txt").selected);
    assert!(node(&state.nodes, "c.txt").selected);
}

#[test]
fn selecting_a_file_changes_only_that_file() {
    let mut state = tree_state();
    update_selection(&mut state, "a/x.txt", false);
    assert!(!node(&state.nodes, "a/x.txt").selected);
    assert_eq!(state.nodes.iter().filter(|n| !n.selected).count(), 1);
    update_selection(&mut state, "missing", false);
    assert_eq!(state.nodes.iter().filter(|n| !n.selected).count(), 1);
}

#[test]
fn toggle_expanded_does_not_cascade() {
    let mut state = tree_state();
    toggle_expanded(&mut state, "a", true);
    assert!(node(&state.nodes, "a").expanded);
    assert!(!node(&state.nodes, "a/b").expanded);
    toggle_expanded(&mut state, "nope", true);
    assert_eq!(state.nodes.iter().filter(|n| n.expanded).count(), 1);
}

#[test]
fn select_all_skips_directories_and_deselect_all_clears_everything() {
    let mut state = tree_state();
    deselect_all(&mut state);
    assert!(state.nodes.iter().all(|n| !n.selected));
    select_all(&mut state);
    assert!(!node(&state.nodes, "a").selected);
    assert!(node(&state.nodes, "a/x.txt").selected);
    assert!(node(&state.nodes, "c.txt").selected);
    assert_eq!(get_tree(&state).len(), state.nodes.len());
}

#[test]
fn search_matches_names_without_regard_to_case() {
    let state = tree_state();
    let hits = search_nodes(&state, "AB");
    assert_eq!(hits, vec!["ab.txt".to_string()]);
    let hits = search_nodes(&state, "TXT");
    assert_eq!(hits.len(), 4);
}

#[test]
fn subtree_scan_adds_new_children_only() {
    let mut state = tree_state();
    let cfg = AppConfig::default();
    let (root, rel) = subtree_target(&state, &"a".to_string()).unwrap();
    assert_eq!(root, "/root");
    assert_eq!(rel, "a");
    let walk = vec![
        entry(0, "a", "", true),
        entry(1, "a/x.txt", "a", false),
        entry(1, "a/new.txt", "a", false),
        entry(1, "a/pic.png", "a", false),
    ];
    let added = scan_directory(&mut state, &"a".to_string(), &cfg, &walk).unwrap();
    assert_eq!(added.len(), 1);
    assert_eq!(added[0].id, "a/new.txt");
    assert_eq!(added[0].parent_id.as_deref(), Some("a"));
    assert_eq!(added[0].size, Some(7));
    assert!(added[0].selected);
    assert!(state.nodes.iter().any(|n| n.id == "a/new.txt"));
}

#[test]
fn subtree_scan_errors() {
    let mut state = AppState::new();
    let cfg = AppConfig::default();
    let none: Vec<WalkEntry> = Vec::new();
    assert!(matches!(scan_directory(&mut state, &"a".to_string(), &cfg, &none), Err(ScanError::NoRoot)));
    let mut state = tree_state();
    let r = scan_directory(&mut state, &"zzz".to_string(), &cfg, &none);
    assert!(matches!(r, Err(ScanError::NotFound)));
    let r = scan_directory(&mut state, &"c.txt".to_string(), &cfg, &none);
    assert!(matches!(r, Err(ScanError::NotDirectory)));
    assert_eq!(ScanError::NotDirectory.message(), "Node is not a directory");
}

#[test]
fn private_names_and_extensions() {
    assert!(is_private_file(".env"));
    assert!(is_private_file(".ENV.production"));
    assert!(is_private_file("deploy.Key"));
    assert!(is_private_file("id_rsa.pub"));
    assert!(!is_private_file("environment.rs"));
    assert_eq!(extension("a.tar.gz").as_deref(), Some("gz"));
    assert_eq!(extension(".gitignore"), None);
    assert_eq!(extension("Makefile"), None);
    assert_eq!(extension(".."), None);
    assert_eq!(extension("a."), Some(String::new()));
}

#[test]
fn selection_record_mirrors_the_tree() {
    let state = tree_state();
    let record = selection_record(&state.nodes);
    let names: Vec<&str> = record.iter().map(|c| c.path.as_str()).collect();
    assert_eq!(names, vec!["a", "ab.txt", "c.txt"]);
    let a = &record[0];
    let kids = a.children.as_ref().unwrap();
    assert_eq!(kids.len(), 2);
    assert!(record[1].children.is_none());
    let mut flat = Vec::new();
    flatten_config_state(&record, &mut flat);
    assert_eq!(flat.len(), state.nodes.len());
}
