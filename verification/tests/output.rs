use traversal_core::lsp::{
    _print_tags, notification_effect, reply_to_request, same_text, NotificationEffect,
    RequestReply, TraversalLspState, METHOD_NOT_FOUND,
};
use traversal_core::registry::{aggregate_tags, TagRegistry};
use traversal_core::report::{decimal_text, report_line, report_lines};
use traversal_core::tag_syntax::TagKind;
use traversal_core::tags::{CombinedTagList, TagList, TagLocation};

fn sample() -> CombinedTagList {
    let mut combined = CombinedTagList::new();
    let mut first = TagList::new();
    first.record_line("a.rs", Some(1), b"[traverse-tgt: alpha]");
    first.record_line("a.rs", Some(2), b"[traverse-lnk: beta]");
    first.record_line("a.rs", Some(3), b"[traverse-tgt: alpha]");
    combined.absorb(&mut first);
    let mut second = TagList::new();
    second.record_line("b.rs", Some(40), b"[traverse-tgt: beta]");
    combined.absorb(&mut second);
    combined
}

#[test]
fn decimal_values() {
    assert_eq!(decimal_text(0), "0");
    assert_eq!(decimal_text(7), "7");
    assert_eq!(decimal_text(10), "10");
    assert_eq!(decimal_text(405), "405");
    assert_eq!(decimal_text(u64::MAX), u64::MAX.to_string());
}

#[test]
fn report_line_formats() {
    let loc = TagLocation { path: "src/x.rs".to_string(), line_number: 12, line_content: "n".to_string() };
    assert_eq!(report_line(TagKind::Target, &loc), "[TARGET] src/x.rs:12: n");
    assert_eq!(report_line(TagKind::Link, &loc), "[LINK] src/x.rs:12: n");
}

#[test]
fn report_lists_targets_then_links_per_list() {
    let lines = report_lines(&sample());
    assert_eq!(
        lines,
        vec![
            "[TARGET] a.rs:1: alpha".to_string(),
            "[TARGET] a.rs:3: alpha".to_string(),
            "[LINK] a.rs:2: beta".to_string(),
            "[TARGET] b.rs:40: beta".to_string(),
        ]
    );
}

#[test]
fn report_of_nothing_is_empty() {
    assert!(report_lines(&CombinedTagList::new()).is_empty());
}

#[test]
fn aggregate_flattens_lists_in_order() {
    let registry = aggregate_tags(&sample());
    let targets: Vec<(String, u64, String)> = registry
        .target_tags
        .tags
        .iter()
        .map(|l| (l.path.clone(), l.line_number, l.line_content.clone()))
        .collect();
    assert_eq!(
        targets,
        vec![
            ("a.rs".to_string(), 1, "alpha".to_string()),
            ("a.rs".to_string(), 3, "alpha".to_string()),
            ("b.rs".to_string(), 40, "beta".to_string()),
        ]
    );
    assert_eq!(registry.link_tags.tags.len(), 1);
    assert_eq!(registry.link_tags.tags[0].line_number, 2);
}

#[test]
fn new_registry_is_empty() {
    let registry = TagRegistry::new();
    assert!(registry.target_tags.tags.is_empty() && registry.link_tags.tags.is_empty());
}

#[test]
fn print_tags_lines() {
    let registry = aggregate_tags(&sample());
    assert_eq!(
        _print_tags(&registry),
        vec![
            "[TGT] [alpha]: a.rs:1".to_string(),
            "[TGT] [alpha]: a.rs:3".to_string(),
            "[TGT] [beta]: b.rs:40".to_string(),
            "[LNK] [beta]: a.rs:2".to_string(),
        ]
    );
    assert!(_print_tags(&TagRegistry::new()).is_empty());
}

#[test]
fn same_text_compares_characters() {
    assert!(same_text("abc", "abc"));
    assert!(!same_text("abc", "abd"));
    assert!(!same_text("abc", "ab"));
    assert!(same_text("", ""));
    assert!(same_text("größe", "größe"));
}

#[test]
fn document_link_requests_get_links() {
    assert_eq!(reply_to_request("textDocument/documentLink"), RequestReply::DocumentLinks);
}

#[test]
fn other_requests_get_method_not_found() {
    assert_eq!(
        reply_to_request("textDocument/completion"),
        RequestReply::Error { code: -32601, message: "unhandled method".to_string() }
    );
    assert_eq!(METHOD_NOT_FOUND, -32601);
}

#[test]
fn notification_effects() {
    assert_eq!(
        notification_effect("workspace/didChangeWorkspaceFolders"),
        NotificationEffect::ReportFolderChanges
    );
    assert_eq!(notification_effect("workspace/didChangeWatchedFiles"), NotificationEffect::Rescan);
    assert_eq!(notification_effect("textDocument/didOpen"), NotificationEffect::Ignore);
}

#[test]
fn lsp_state_starts_empty_and_adds_folders() {
    let mut state = TraversalLspState::default();
    assert!(state.workspace_folders.is_empty());
    assert!(state.tags.target_tags.tags.is_empty());
    state.add_workspace_folder("file", "/home/u/project".to_string());
    assert_eq!(state.workspace_folders, vec!["/home/u/project".to_string()]);
    let fresh = TraversalLspState::new();
    assert!(fresh.workspace_folders.is_empty() && fresh.tags.link_tags.tags.is_empty());
}
