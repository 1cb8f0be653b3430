use std::collections::HashMap;

use mergers::operations::dependency_analysis::{
    categorize_dependency, truncate_title, ChangeType, DependencyAnalyzer, DependencyCategory, DependencyWarning,
    FileChange, LineRange, OverlappingFile, PRDependency, PRDependencyNode, PRInfo,
};

fn change(path: &str, ranges: Vec<LineRange>) -> FileChange {
    FileChange::with_ranges(path.to_string(), ChangeType::Modify, ranges)
}

#[test]
fn test_line_range_overlap() {
    assert!(LineRange::new(1, 10).overlaps(&LineRange::new(1, 10)));
    assert!(LineRange::new(1, 10).overlaps(&LineRange::new(5, 15)));
    assert!(LineRange::new(5, 15).overlaps(&LineRange::new(1, 10)));
    assert!(LineRange::new(1, 5).overlaps(&LineRange::new(5, 10)));
    assert!(!LineRange::new(1, 5).overlaps(&LineRange::new(6, 10)));
    assert!(!LineRange::new(10, 20).overlaps(&LineRange::new(1, 5)));
    assert!(LineRange::single(5).overlaps(&LineRange::new(1, 10)));
    assert!(!LineRange::single(5).overlaps(&LineRange::new(6, 10)));
}

#[test]
fn test_line_range_len() {
    assert_eq!(LineRange::new(1, 1).len(), 1);
    assert_eq!(LineRange::new(1, 10).len(), 10);
    assert_eq!(LineRange::new(5, 15).len(), 11);
    assert_eq!(LineRange::single(42).len(), 1);
}

#[test]
fn test_change_type_from_git_status() {
    assert_eq!(ChangeType::from_git_status("A"), Some(ChangeType::Add));
    assert_eq!(ChangeType::from_git_status("M"), Some(ChangeType::Modify));
    assert_eq!(ChangeType::from_git_status("D"), Some(ChangeType::Delete));
    assert_eq!(ChangeType::from_git_status("R100"), Some(ChangeType::Rename));
    assert_eq!(ChangeType::from_git_status("C"), Some(ChangeType::Copy));
    assert_eq!(ChangeType::from_git_status("X"), None);
    assert_eq!(ChangeType::from_git_status(""), None);
}

#[test]
fn test_file_change_overlapping_lines() {
    let change1 = change("src/main.rs", vec![LineRange::new(10, 20), LineRange::new(50, 60)]);
    let change2 = change("src/main.rs", vec![LineRange::new(15, 25)]);
    let change3 = change("src/main.rs", vec![LineRange::new(30, 40)]);
    let change4 = change("src/other.rs", vec![LineRange::new(10, 20)]);

    assert!(change1.has_overlapping_lines(&change2));
    assert!(!change1.has_overlapping_lines(&change3));
    assert!(!change1.has_overlapping_lines(&change4));
}

#[test]
fn test_node_dependency_counts() {
    let mut node = PRDependencyNode::new(1, "Test PR".to_string(), true);
    node.dependencies.push(PRDependency { from_pr_id: 1, to_pr_id: 2, category: DependencyCategory::Independent });
    node.dependencies.push(PRDependency {
        from_pr_id: 1,
        to_pr_id: 3,
        category: DependencyCategory::PartiallyDependent { shared_files: vec!["file.rs".to_string()] },
    });
    node.dependencies.push(PRDependency {
        from_pr_id: 1,
        to_pr_id: 4,
        category: DependencyCategory::Dependent { shared_files: vec!["file.rs".to_string()], overlapping_files: vec![] },
    });

    let counts = node.dependency_counts();
    assert_eq!(counts.independent, 1);
    assert_eq!(counts.partial, 1);
    assert_eq!(counts.dependent, 1);
}

#[test]
fn test_warning_message() {
    let warning = DependencyWarning::UnselectedDependency {
        selected_pr_id: 123,
        selected_pr_title: "Add feature X".to_string(),
        unselected_pr_id: 100,
        unselected_pr_title: "Refactor base".to_string(),
        category: DependencyCategory::Dependent { shared_files: vec!["src/lib.rs".to_string()], overlapping_files: vec![] },
    };

    let msg = warning.message();
    assert!(msg.contains("PR #123"));
    assert!(msg.contains("depends on"));
    assert!(msg.contains("PR #100"));
    assert!(warning.is_critical());
}

#[test]
fn test_truncate_title() {
    assert_eq!(truncate_title("Short", 10), "Short");
    assert_eq!(truncate_title("This is a very long title", 10), "This is...");
    assert_eq!(truncate_title("Exactly10!", 10), "Exactly10!");
}

fn two_prs(selected1: bool) -> Vec<PRInfo> {
    vec![
        PRInfo::new(1, "PR 1".to_string(), selected1, Some("abc123".to_string())),
        PRInfo::new(2, "PR 2".to_string(), true, Some("def456".to_string())),
    ]
}

#[test]
fn test_analyzer_independent_prs() {
    let prs = two_prs(true);
    let mut pr_changes = HashMap::new();
    pr_changes.insert(1, vec![change("src/module_a.rs", vec![LineRange::new(10, 20)])]);
    pr_changes.insert(2, vec![change("src/module_b.rs", vec![LineRange::new(10, 20)])]);

    let analyzer = DependencyAnalyzer::new();
    let result = analyzer.analyze(&prs, &pr_changes);

    let node2 = result.graph.get_node(2).unwrap();
    assert!(node2.dependencies.is_empty(), "Independent PRs should have no dependencies");
    assert!(result.warnings.is_empty());
}

#[test]
fn test_analyzer_partially_dependent_prs() {
    let prs = two_prs(true);
    let mut pr_changes = HashMap::new();
    pr_changes.insert(1, vec![change("src/shared.rs", vec![LineRange::new(10, 20)])]);
    pr_changes.insert(2, vec![change("src/shared.rs", vec![LineRange::new(50, 60)])]);

    let analyzer = DependencyAnalyzer::new();
    let result = analyzer.analyze(&prs, &pr_changes);

    let node2 = result.graph.get_node(2).unwrap();
    assert_eq!(node2.dependencies.len(), 1);
    assert!(matches!(node2.dependencies[0].category, DependencyCategory::PartiallyDependent { .. }));
}

#[test]
fn test_analyzer_dependent_prs() {
    let prs = two_prs(true);
    let mut pr_changes = HashMap::new();
    pr_changes.insert(1, vec![change("src/shared.rs", vec![LineRange::new(10, 30)])]);
    pr_changes.insert(2, vec![change("src/shared.rs", vec![LineRange::new(25, 40)])]);

    let analyzer = DependencyAnalyzer::new();
    let result = analyzer.analyze(&prs, &pr_changes);

    let node2 = result.graph.get_node(2).unwrap();
    assert_eq!(node2.dependencies.len(), 1);
    assert!(matches!(node2.dependencies[0].category, DependencyCategory::Dependent { .. }));
}

#[test]
fn test_analyzer_unselected_dependency_warning() {
    let prs = vec![
        PRInfo::new(1, "Base refactor".to_string(), false, Some("abc123".to_string())),
        PRInfo::new(2, "Feature".to_string(), true, Some("def456".to_string())),
    ];
    let mut pr_changes = HashMap::new();
    pr_changes.insert(1, vec![change("src/shared.rs", vec![LineRange::new(10, 30)])]);
    pr_changes.insert(2, vec![change("src/shared.rs", vec![LineRange::new(25, 40)])]);

    let analyzer = DependencyAnalyzer::new();
    let result = analyzer.analyze(&prs, &pr_changes);

    assert_eq!(result.warnings.len(), 1);
    assert!(result.warnings[0].is_critical());
    match &result.warnings[0] {
        DependencyWarning::UnselectedDependency { selected_pr_id, unselected_pr_id, .. } => {
            assert_eq!(*selected_pr_id, 2);
            assert_eq!(*unselected_pr_id, 1);
        },
        _ => panic!("Expected UnselectedDependency warning"),
    }
}

#[test]
fn test_analyzer_multiple_dependencies() {
    let prs = vec![
        PRInfo::new(1, "PR 1".to_string(), true, Some("abc".to_string())),
        PRInfo::new(2, "PR 2".to_string(), true, Some("def".to_string())),
        PRInfo::new(3, "PR 3".to_string(), true, Some("ghi".to_string())),
    ];
    let mut pr_changes = HashMap::new();
    pr_changes.insert(1, vec![change("src/a.rs", vec![LineRange::new(10, 20)])]);
    pr_changes.insert(
        2,
        vec![change("src/a.rs", vec![LineRange::new(50, 60)]), change("src/b.rs", vec![LineRange::new(10, 20)])],
    );
    pr_changes.insert(
        3,
        vec![change("src/a.rs", vec![LineRange::new(15, 25)]), change("src/b.rs", vec![LineRange::new(15, 25)])],
    );

    let analyzer = DependencyAnalyzer::new();
    let result = analyzer.analyze(&prs, &pr_changes);

    let node1 = result.graph.get_node(1).unwrap();
    assert!(node1.dependencies.is_empty());

    let node2 = result.graph.get_node(2).unwrap();
    assert_eq!(node2.dependencies.len(), 1);
    assert!(matches!(node2.dependencies[0].category, DependencyCategory::PartiallyDependent { .. }));

    let node3 = result.graph.get_node(3).unwrap();
    assert_eq!(node3.dependencies.len(), 2);
}

#[test]
fn test_analyzer_empty_changes() {
    let prs = vec![
        PRInfo::new(1, "PR 1".to_string(), true, None),
        PRInfo::new(2, "PR 2".to_string(), true, Some("def".to_string())),
    ];
    let mut pr_changes = HashMap::new();
    pr_changes.insert(2, vec![change("src/a.rs", vec![LineRange::new(10, 20)])]);

    let analyzer = DependencyAnalyzer::new();
    let result = analyzer.analyze(&prs, &pr_changes);

    let node2 = result.graph.get_node(2).unwrap();
    assert!(node2.dependencies.is_empty());
}

#[test]
fn test_graph_topological_order() {
    let prs = vec![
        PRInfo::new(1, "Base".to_string(), true, Some("a".to_string())),
        PRInfo::new(2, "Middle".to_string(), true, Some("b".to_string())),
        PRInfo::new(3, "Top".to_string(), true, Some("c".to_string())),
    ];
    let mut pr_changes = HashMap::new();
    pr_changes.insert(1, vec![change("src/shared.rs", vec![LineRange::new(10, 20)])]);
    pr_changes.insert(2, vec![change("src/shared.rs", vec![LineRange::new(15, 25)])]);
    pr_changes.insert(3, vec![change("src/shared.rs", vec![LineRange::new(20, 30)])]);

    let analyzer = DependencyAnalyzer::new();
    let result = analyzer.analyze(&prs, &pr_changes);

    let order = &result.graph.topological_order;
    let pos1 = order.iter().position(|&id| id == 1).unwrap();
    let pos2 = order.iter().position(|&id| id == 2).unwrap();
    let pos3 = order.iter().position(|&id| id == 3).unwrap();

    assert!(pos1 < pos2, "PR 1 should come before PR 2");
    assert!(pos2 < pos3, "PR 2 should come before PR 3");
}

#[test]
fn categorize_reports_shared_and_overlapping_files() {
    let cur = vec![change("a.rs", vec![LineRange::new(1, 10)]), change("b.rs", vec![LineRange::new(1, 5)])];
    let prev = vec![change("b.rs", vec![LineRange::new(5, 8)]), change("a.rs", vec![LineRange::new(20, 30)])];
    match categorize_dependency(Some(&cur), Some(&prev)) {
        DependencyCategory::Dependent { shared_files, overlapping_files } => {
            assert_eq!(shared_files, vec!["a.rs".to_string(), "b.rs".to_string()]);
            assert_eq!(overlapping_files.len(), 1);
            let OverlappingFile { path, overlapping_ranges } = &overlapping_files[0];
            assert_eq!(path, "b.rs");
            assert_eq!(overlapping_ranges, &vec![LineRange::new(5, 5)]);
        },
        other => panic!("unexpected category {:?}", other),
    }
    assert!(matches!(categorize_dependency(None, Some(&prev)), DependencyCategory::Independent));
    assert!(matches!(categorize_dependency(Some(&vec![]), Some(&prev)), DependencyCategory::Independent));
}

#[test]
fn dependencies_and_dependents_mirror_each_other() {
    let prs = vec![
        PRInfo::new(1, "Base".to_string(), true, None),
        PRInfo::new(2, "Middle".to_string(), true, None),
        PRInfo::new(3, "Top".to_string(), true, None),
    ];
    let mut pr_changes = HashMap::new();
    pr_changes.insert(1, vec![change("s.rs", vec![LineRange::new(1, 100)])]);
    pr_changes.insert(2, vec![change("s.rs", vec![LineRange::new(50, 60)])]);
    pr_changes.insert(3, vec![change("s.rs", vec![LineRange::new(200, 300)])]);
    let result = DependencyAnalyzer::new().analyze(&prs, &pr_changes);
    for pr in &prs {
        let node = result.graph.get_node(pr.id).unwrap();
        for dep in &node.dependencies {
            let target = result.graph.get_node(dep.to_pr_id).unwrap();
            assert!(target.dependents.contains(&pr.id));
        }
    }
    assert_eq!(result.graph.get_node(1).unwrap().dependents, vec![2, 3]);
    let summary = result.graph.summary();
    assert_eq!(summary.total_prs, 3);
    assert_eq!(summary.dependent_relationships, 1);
    assert_eq!(summary.partial_relationships, 2);
}

#[test]
fn independent_prs_are_ordered_largest_id_first() {
    let prs = vec![
        PRInfo::new(1, "One".to_string(), true, None),
        PRInfo::new(2, "Two".to_string(), true, None),
        PRInfo::new(3, "Three".to_string(), true, None),
    ];
    let mut pr_changes = HashMap::new();
    pr_changes.insert(1, vec![change("a.rs", vec![LineRange::new(1, 5)])]);
    pr_changes.insert(2, vec![change("b.rs", vec![LineRange::new(1, 5)])]);
    pr_changes.insert(3, vec![change("c.rs", vec![LineRange::new(1, 5)])]);

    let result = DependencyAnalyzer::new().analyze(&prs, &pr_changes);
    assert_eq!(result.graph.topological_order, vec![3, 2, 1]);
}

#[test]
fn chained_prs_are_all_placed_in_dependency_order() {
    let prs = vec![
        PRInfo::new(1, "Base".to_string(), true, None),
        PRInfo::new(2, "Middle".to_string(), true, None),
        PRInfo::new(3, "Top".to_string(), true, None),
        PRInfo::new(4, "Apart".to_string(), true, None),
    ];
    let mut pr_changes = HashMap::new();
    pr_changes.insert(1, vec![change("src/shared.rs", vec![LineRange::new(10, 20)])]);
    pr_changes.insert(2, vec![change("src/shared.rs", vec![LineRange::new(15, 25)])]);
    pr_changes.insert(3, vec![change("src/shared.rs", vec![LineRange::new(24, 30)])]);
    pr_changes.insert(4, vec![change("src/other.rs", vec![LineRange::new(1, 2)])]);

    let result = DependencyAnalyzer::new().analyze(&prs, &pr_changes);
    // 4 and 1 are ready first; the larger id goes first, then the chain.
    assert_eq!(result.graph.topological_order, vec![4, 1, 2, 3]);
}

#[test]
fn empty_input_gives_empty_order() {
    let prs: Vec<PRInfo> = Vec::new();
    let pr_changes = HashMap::new();
    let result = DependencyAnalyzer::new().analyze(&prs, &pr_changes);
    assert!(result.graph.topological_order.is_empty());
    assert!(result.graph.nodes.is_empty());
}

#[test]
fn repeated_pr_id_depends_on_itself_and_is_left_out_of_the_order() {
    let prs = vec![
        PRInfo::new(1, "First".to_string(), true, None),
        PRInfo::new(1, "Again".to_string(), true, None),
    ];
    let mut pr_changes = HashMap::new();
    pr_changes.insert(1, vec![change("a.rs", vec![LineRange::new(1, 5)])]);

    let result = DependencyAnalyzer::new().analyze(&prs, &pr_changes);
    assert_eq!(result.graph.nodes.len(), 1);
    assert!(result.graph.topological_order.is_empty());
}
