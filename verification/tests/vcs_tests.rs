use datatex::vcs::{diff_stats_of, BranchInfo, DiffLine, DiffStats, GitFileStatus, StructuredDiff};

fn line(kind: &str, content: &str) -> DiffLine {
    DiffLine {
        line_type: kind.to_string(),
        old_line_no: None,
        new_line_no: None,
        content: content.to_string(),
    }
}

#[test]
fn test_diff_stats_count_adds_and_deletes() {
    let lines = vec![
        line("header", "@@"),
        line("context", "a"),
        line("add", "b"),
        line("add", "c"),
        line("delete", "d"),
        line("context", "e"),
    ];
    let stats = diff_stats_of(&lines);
    assert_eq!(stats.additions, 2);
    assert_eq!(stats.deletions, 1);
}

#[test]
fn test_diff_stats_empty() {
    let stats = diff_stats_of(&Vec::new());
    assert_eq!(stats.additions, 0);
    assert_eq!(stats.deletions, 0);
}

#[test]
fn test_vcs_shapes_hold_plain_values() {
    let status = GitFileStatus {
        path: "main.tex".to_string(),
        status: "modified".to_string(),
        is_staged: false,
    };
    assert_eq!(status.path, "main.tex");
    let branch = BranchInfo { name: "main".to_string(), is_head: true, is_remote: false };
    assert!(branch.is_head);
    let diff = StructuredDiff {
        file_path: "main.tex".to_string(),
        old_content: String::new(),
        new_content: "x".to_string(),
        lines: vec![line("add", "x")],
        stats: DiffStats { additions: 1, deletions: 0 },
    };
    assert_eq!(diff.lines.len(), 1);
}

#[test]
fn test_graph_filters_all() {
    let f = datatex::graph::GraphFilters::all();
    assert!(f.show_packages && f.show_bibliographies && f.show_images);
    assert!(f.show_classes && f.show_dtx && f.show_ins);
    let link = datatex::graph::GraphLinkOutput {
        source: "a".to_string(),
        target: "b".to_string(),
        link_type: "includes".to_string(),
    };
    assert_eq!(link.link_type, "includes");
}
