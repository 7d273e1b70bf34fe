use repo2txt::analysis::{analyze_content, count_tokens, file_update, AnalysisAction, AnalysisRun};
use repo2txt::config::{default_max_file_size, default_output_template, AppConfig};
use repo2txt::generator::{
    assemble_export, clipboard_payload, eligible_files, export_header, files_needing_tokens,
    get_language_by_extension, get_stats, needs_content, render_chunk, should_report_progress,
    store_export, ClipboardError, FileProbe, ProcessedChunk, PREVIEW_LIMIT,
};
use repo2txt::models::FileNode;
use repo2txt::state::AppState;
use repo2txt::text::{decimal_string, replace_all};
use repo2txt::tree::build_tree_structure;
use repo2txt::ui::get_app_settings_schema;

fn file(id: &str, parent: Option<&str>, is_directory: bool, selected: bool, tokens: Option<usize>) -> FileNode {
    FileNode {
        id: id.to_string(),
        parent_id: parent.map(|p| p.to_string()),
        name: id.rsplit('/').next().unwrap().to_string(),
        path: format!("/root/{}", id),
        relative_path: id.to_string(),
        is_directory,
        size: Some(100),
        token_count: tokens,
        selected,
        expanded: false,
    }
}

fn example_state() -> AppState {
    let mut state = AppState::new();
    state.root_path = Some("/root".to_string());
    state.nodes = vec![
        file("a.txt", None, false, false, Some(10)),
        file("b", None, true, true, None),
        file("b/b.txt", Some("b"), false, true, Some(20)),
    ];
    state
}

#[test]
fn only_selected_files_under_selected_parents_are_exported() {
    let state = example_state();
    let files = eligible_files(&state.nodes);
    assert_eq!(files.len(), 1);
    assert_eq!(files[0].id, "b/b.txt");
    let stats = get_stats(&state, &Vec::new());
    assert_eq!(stats.files, 1);
    assert_eq!(stats.tokens, 20);
    assert_eq!(stats.size, 100);
}

#[test]
fn unselected_parent_hides_its_files_but_grandparents_are_not_checked() {
    let mut state = AppState::new();
    state.nodes = vec![
        file("a", None, true, false, None),
        file("a/b", Some("a"), true, true, None),
        file("a/b/c.txt", Some("a/b"), false, true, Some(3)),
        file("a/d.txt", Some("a"), false, true, Some(4)),
    ];
    let files = eligible_files(&state.nodes);
    let ids: Vec<&str> = files.iter().map(|f| f.id.as_str()).collect();
    assert_eq!(ids, vec!["a/b/c.txt"]);
}

#[test]
fn stats_use_computed_tokens_for_unknown_counts() {
    let mut state = example_state();
    state.nodes[2].token_count = None;
    let pending = files_needing_tokens(&state);
    assert_eq!(pending, vec![("b/b.txt".to_string(), "/root/b/b.txt".to_string())]);
    let stats = get_stats(&state, &vec![("b/b.txt".to_string(), 42)]);
    assert_eq!(stats.tokens, 42);
    let stats = get_stats(&state, &Vec::new());
    assert_eq!(stats.tokens, 0);
}

#[test]
fn languages_by_name_and_extension() {
    assert_eq!(get_language_by_extension("src/main.rs"), "rust");
    assert_eq!(get_language_by_extension("web/App.TSX"), "tsx");
    assert_eq!(get_language_by_extension("Dockerfile"), "dockerfile");
    assert_eq!(get_language_by_extension("deploy/docker-compose.yaml"), "yaml");
    assert_eq!(get_language_by_extension(".gitignore"), "gitignore");
    assert_eq!(get_language_by_extension("notes.unknown"), "text");
    assert_eq!(get_language_by_extension("LICENSE"), "text");
    assert_eq!(get_language_by_extension("run.zsh"), "bash");
}

#[test]
fn template_is_filled_in_order() {
    let cfg = AppConfig::default();
    let chunk = render_chunk(&cfg, &"src/lib.rs".to_string(), FileProbe::Loaded(5, Some(b"fn x".to_vec())));
    assert_eq!(chunk.formatted_content, "## src/lib.rs\n\n```rust\nfn x\n```\n\n---\n\n");
    assert_eq!(chunk.measured_size, 5);
    assert_eq!(chunk.relative_path, "src/lib.rs");
    assert_eq!(replace_all("{{a}}x{{a}}", "{{a}}", "yy"), "yyxyy");
    assert_eq!(replace_all("aaa", "aa", "b"), "ba");
}

#[test]
fn oversized_file_gets_placeholder_and_counts_its_size() {
    let cfg = AppConfig::default();
    assert!(!needs_content(&cfg, default_max_file_size() + 1));
    assert!(needs_content(&cfg, default_max_file_size()));
    let chunk = render_chunk(&cfg, &"big.log".to_string(), FileProbe::Measured(2000000));
    assert_eq!(
        chunk.formatted_content,
        "## big.log\n\n*File too large (2000000 bytes, limit: 1048576 bytes) - skipped*\n\n---\n\n"
    );
    assert_eq!(chunk.measured_size, 2000000);
    let nodes = vec![file("big.log", None, false, true, Some(0))];
    let out = assemble_export(&nodes, &String::new(), vec![chunk], 1);
    assert_eq!(out.result.stats.size, 2000000);
}

#[test]
fn binary_content_is_never_tokenized() {
    let mut bytes = b"abc".to_vec();
    bytes.push(0);
    bytes.extend_from_slice(b"more text");
    assert_eq!(analyze_content(&bytes), 0);
    let cfg = AppConfig::default();
    let chunk = render_chunk(&cfg, &"x.dat".to_string(), FileProbe::Loaded(13, Some(bytes.clone())));
    assert!(chunk.formatted_content.contains("*Binary file*"));
    assert!(!chunk.formatted_content.contains("more text"));
    let update = file_update("x.dat".to_string(), Some(13), Some(bytes));
    assert_eq!(update.token_count, 0);
    assert_eq!(update.size, 13);
    // a zero byte beyond the first KiB does not make content binary
    let mut late = vec![b'a'; 1024];
    late.push(0);
    assert!(analyze_content(&late) > 0);
}

#[test]
fn unreadable_files_degrade_to_placeholders() {
    let cfg = AppConfig::default();
    let missing = render_chunk(&cfg, &"gone.txt".to_string(), FileProbe::Missing);
    assert_eq!(missing.formatted_content, "## gone.txt\n\n*Error: Could not read file*\n\n---\n\n");
    assert_eq!(missing.measured_size, 0);
    let failed = render_chunk(&cfg, &"locked.txt".to_string(), FileProbe::Loaded(9, None));
    assert!(failed.formatted_content.contains("*Error reading file*"));
    let update = file_update("gone".to_string(), None, None);
    assert_eq!((update.size, update.token_count), (0, 0));
}

#[test]
fn lossy_decoding_replaces_invalid_utf8() {
    let cfg = AppConfig::default();
    let chunk = render_chunk(&cfg, &"a.txt".to_string(), FileProbe::Loaded(3, Some(vec![b'h', 0xff, b'i'])));
    assert!(chunk.formatted_content.contains("h\u{fffd}i"));
}

fn chunk(rel: &str, text: &str) -> ProcessedChunk {
    ProcessedChunk { relative_path: rel.to_string(), formatted_content: text.to_string(), measured_size: 1 }
}

#[test]
fn export_output_does_not_depend_on_completion_order() {
    let nodes = vec![
        file("b.txt", None, false, true, Some(1)),
        file("a.txt", None, false, true, Some(2)),
        file("c/d.txt", None, false, true, Some(3)),
    ];
    let header = export_header(&"TREE".to_string());
    let one = assemble_export(&nodes, &header, vec![chunk("b.txt", "B"), chunk("a.txt", "A"), chunk("c/d.txt", "D")], 3);
    let two = assemble_export(&nodes, &header, vec![chunk("c/d.txt", "D"), chunk("b.txt", "B"), chunk("a.txt", "A")], 3);
    assert_eq!(one.full_content, two.full_content);
    assert_eq!(
        one.full_content,
        "# Collected Files\n\n## File Structure\n\n```\nTREE\n```\n\n---\n\nABD"
    );
    assert_eq!(one.result.stats.tokens, 6);
    assert_eq!(one.result.stats.size, 3);
    assert!(!one.result.is_truncated);
    assert_eq!(one.result.preview_content, one.full_content);
}

#[test]
fn chunks_of_unindexed_files_do_not_count() {
    let nodes = vec![file("a.txt", None, false, true, Some(2))];
    let out = assemble_export(&nodes, &String::new(), vec![chunk("a.txt", "A"), chunk("zz.txt", "Z")], 2);
    assert_eq!(out.result.stats.size, 1);
    assert_eq!(out.result.stats.tokens, 2);
    assert_eq!(out.result.stats.files, 2);
}

#[test]
fn preview_is_capped_and_flagged() {
    let nodes: Vec<FileNode> = Vec::new();
    let big = "x".repeat(PREVIEW_LIMIT + 10);
    let out = assemble_export(&nodes, &String::new(), vec![chunk("a", &big)], 1);
    assert!(out.result.is_truncated);
    assert_eq!(out.result.preview_content.len(), PREVIEW_LIMIT);
    assert_eq!(out.full_content.len(), PREVIEW_LIMIT + 10);
    let exact = "y".repeat(PREVIEW_LIMIT);
    let out = assemble_export(&nodes, &String::new(), vec![chunk("a", &exact)], 1);
    assert!(!out.result.is_truncated);
}

#[test]
fn tree_shows_selected_or_expanded_directories() {
    let mut nodes = vec![
        file("z.txt", None, false, false, None),
        file("src", None, true, true, None),
        file("src/main.rs", Some("src"), false, true, None),
        file("src/a", Some("src"), true, false, None),
        file("src/a/hidden.rs", Some("src/a"), false, true, None),
    ];
    nodes[3].expanded = false;
    let tree = build_tree_structure(&nodes, "/root");
    assert_eq!(
        tree,
        "├── [✓] ▶ src\n│   ├── [ ] ▶ a\n│   └── [✓] main.rs\n└── [ ] z.txt"
    );
    nodes[3].expanded = true;
    let tree = build_tree_structure(&nodes, "/root");
    assert!(tree.contains("│   │   └── [✓] hidden.rs"));
    assert_eq!(build_tree_structure(&Vec::new(), "/root"), "");
}

#[test]
fn clipboard_needs_a_cached_export_of_bounded_size() {
    let mut state = AppState::new();
    assert!(matches!(clipboard_payload(&state), Err(ClipboardError::Empty)));
    store_export(&mut state, "doc".to_string());
    assert_eq!(clipboard_payload(&state).ok().as_deref(), Some("doc"));
    store_export(&mut state, "x".repeat(10 * 1024 * 1024 + 1));
    match clipboard_payload(&state) {
        Err(e) => {
            assert!(matches!(e, ClipboardError::TooLarge(10)));
            assert!(e.message().starts_with("Content too large for clipboard (10 MB)"));
        }
        Ok(_) => panic!("expected the size limit"),
    }
    assert_eq!(ClipboardError::Empty.message(), "No content generated yet");
}

#[test]
fn progress_is_reported_every_fifth_and_last_completion() {
    assert!(should_report_progress(5, 12));
    assert!(should_report_progress(12, 12));
    assert!(!should_report_progress(7, 12));
}

#[test]
fn analysis_batches_and_completes_under_the_current_epoch() {
    let mut run = AnalysisRun::new(3);
    assert!(run.may_start(3));
    for k in 0..99 {
        let a = run.on_result(3, Some(file_update(format!("f{}", k), Some(1), None)));
        assert!(matches!(a, AnalysisAction::Continue));
    }
    match run.on_result(3, Some(file_update("last".to_string(), Some(1), None))) {
        AnalysisAction::Emit(batch) => assert_eq!(batch.len(), 100),
        _ => panic!("expected a full batch"),
    }
    run.on_result(3, None);
    run.on_result(3, Some(file_update("tail".to_string(), Some(2), None)));
    match run.on_end(3) {
        AnalysisAction::Finish(batch) => {
            assert_eq!(batch.len(), 1);
            assert_eq!(batch[0].id, "tail");
        }
        _ => panic!("expected completion"),
    }
}

#[test]
fn superseded_analysis_emits_nothing_more() {
    let mut run = AnalysisRun::new(1);
    assert!(matches!(run.on_result(1, Some(file_update("a".to_string(), Some(1), None))), AnalysisAction::Continue));
    // a new scan starts: epoch 2 becomes current
    assert!(!run.may_start(2));
    assert!(matches!(run.on_result(2, Some(file_update("b".to_string(), Some(1), None))), AnalysisAction::Halt));
    assert!(matches!(run.on_result(1, None), AnalysisAction::Halt));
    assert!(matches!(run.on_end(1), AnalysisAction::Halt));
    assert!(!run.may_start(1));
}

#[test]
fn token_counts_come_from_the_tokenizer() {
    assert_eq!(count_tokens("hello world"), 2);
    assert_eq!(count_tokens(""), 0);
    assert_eq!(analyze_content(b"hello world"), 2);
}

#[test]
fn numbers_in_decimal() {
    assert_eq!(decimal_string(0), "0");
    assert_eq!(decimal_string(1048576), "1048576");
    assert_eq!(decimal_string(u64::MAX), "18446744073709551615");
}

#[test]
fn defaults_and_schema() {
    let cfg = AppConfig::default();
    assert_eq!(cfg.token_limit, 128000);
    assert_eq!(cfg.max_file_size, 1048576);
    assert_eq!(cfg.theme, "system");
    assert_eq!(cfg.output_filename, "output.md");
    assert_eq!(cfg.output_template, default_output_template());
    assert!(cfg.is_ignored_name("node_modules"));
    assert!(!cfg.is_ignored_name("src"));
    assert!(cfg.is_ignored_extension("PNG"));
    let schema = get_app_settings_schema();
    let ids: Vec<&str> = schema.iter().map(|s| s.id.as_str()).collect();
    assert_eq!(ids, vec!["general", "generation", "filters"]);
    assert_eq!(schema[1].fields.len(), 3);
}
