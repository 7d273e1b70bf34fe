use repo2txt::generator::{file_view_text, preview_truncates, read_file_target, ReadError, MAX_PREVIEW_SIZE};
use repo2txt::models::FileNode;
use repo2txt::persist::{config_node_to_file_node, load_config_nodes, ConfigNode};
use repo2txt::state::AppState;

fn cfg_node(path: &str, is_directory: bool, selected: bool, children: Option<Vec<ConfigNode>>) -> ConfigNode {
    ConfigNode {
        name: path.rsplit('/').next().unwrap().to_string(),
        path: path.to_string(),
        is_directory,
        selected,
        expanded: false,
        children,
    }
}

fn indexed(id: &str, is_directory: bool) -> FileNode {
    FileNode {
        id: id.to_string(),
        parent_id: None,
        name: id.to_string(),
        path: format!("/r/{}", id),
        relative_path: id.to_string(),
        is_directory,
        size: Some(12),
        token_count: Some(3),
        selected: true,
        expanded: false,
    }
}

#[test]
fn record_node_becomes_index_node() {
    let c = cfg_node("src/a.rs", false, false, None);
    let n = config_node_to_file_node(&c, "/r", Some("src".to_string()));
    assert_eq!(n.id, "src/a.rs");
    assert_eq!(n.relative_path, "src/a.rs");
    assert_eq!(n.parent_id.as_deref(), Some("src"));
    assert_eq!(n.size, Some(0));
    assert_eq!(n.token_count, None);
    assert!(!n.selected);
    assert!(n.path.ends_with("a.rs"));
}

#[test]
fn loading_a_record_places_nodes_in_pre_order() {
    let mut state = AppState::new();
    let record = vec![
        cfg_node("src", true, true, Some(vec![cfg_node("src/a.rs", false, false, None)])),
        cfg_node("b.txt", false, true, None),
    ];
    let placed = load_config_nodes(&mut state, &record, "/r", None);
    let ids: Vec<&str> = placed.iter().map(|n| n.id.as_str()).collect();
    assert_eq!(ids, vec!["src", "src/a.rs", "b.txt"]);
    assert_eq!(state.nodes.len(), 3);
    assert_eq!(state.nodes[1].parent_id.as_deref(), Some("src"));
}

#[test]
fn loading_replaces_same_kind_and_skips_conflicts() {
    let mut state = AppState::new();
    state.nodes = vec![indexed("a.txt", false), indexed("d", false)];
    let record = vec![
        cfg_node("a.txt", false, false, None),
        cfg_node("d", true, true, Some(vec![cfg_node("d/x", false, true, None)])),
        cfg_node("f.txt", false, true, Some(vec![cfg_node("f.txt/y", false, true, None)])),
    ];
    let placed = load_config_nodes(&mut state, &record, "/r", None);
    let ids: Vec<&str> = placed.iter().map(|n| n.id.as_str()).collect();
    assert_eq!(ids, vec!["a.txt", "f.txt"]);
    assert!(!state.nodes[0].selected);
    assert_eq!(state.nodes[0].size, Some(0));
    assert!(!state.nodes.iter().any(|n| n.id == "d/x" || n.id == "f.txt/y"));
}

#[test]
fn file_preview_text() {
    assert!(preview_truncates(MAX_PREVIEW_SIZE + 1));
    assert!(!preview_truncates(MAX_PREVIEW_SIZE));
    assert_eq!(file_view_text(5, b"hello", false), "hello");
    assert_eq!(file_view_text(5, b"he\0lo", false), "*Binary file*");
    assert_eq!(
        file_view_text(200000, b"head", true),
        "head\n\n--- TRUNCATED (File too large: 200000 bytes) ---"
    );
}

#[test]
fn read_target_errors_and_success() {
    let mut state = AppState::new();
    state.nodes = vec![indexed("dir", true), indexed("f.txt", false)];
    match read_file_target(&state, &"nope".to_string()) {
        Err(e) => assert_eq!(e.message(), "File not found in index: nope"),
        Ok(_) => panic!("expected an unknown id"),
    }
    assert!(matches!(read_file_target(&state, &"dir".to_string()), Err(ReadError::IsDirectory)));
    let (path, size) = read_file_target(&state, &"f.txt".to_string()).ok().unwrap();
    assert_eq!(path, "/r/f.txt");
    assert_eq!(size, 12);
}
