use std::collections::HashMap;

use mergers::operations::bitmap_index::{bitmap_to_ranges, PRBitmapIndex};
use mergers::operations::dependency_analysis::{
    ChangeType, DependencyAnalyzer, DependencyCategory, DependencyWarning, FileChange, LineRange, PRInfo,
};
use roaring::RoaringBitmap;

fn change(path: &str, ranges: Vec<LineRange>) -> FileChange {
    FileChange::with_ranges(path.to_string(), ChangeType::Modify, ranges)
}

fn same_kind(a: &DependencyCategory, b: &DependencyCategory) -> bool {
    std::mem::discriminant(a) == std::mem::discriminant(b)
}

#[test]
fn test_parallel_analysis_equivalence() {
    let prs = vec![
        PRInfo::new(1, "Base".to_string(), true, Some("abc".to_string())),
        PRInfo::new(2, "Feature A".to_string(), true, Some("def".to_string())),
        PRInfo::new(3, "Feature B".to_string(), false, Some("ghi".to_string())),
        PRInfo::new(4, "Integration".to_string(), true, Some("jkl".to_string())),
    ];

    let mut pr_changes = HashMap::new();
    pr_changes.insert(1, vec![change("src/core.rs", vec![LineRange::new(10, 30)])]);
    pr_changes.insert(2, vec![change("src/core.rs", vec![LineRange::new(25, 45)])]);
    pr_changes.insert(3, vec![change("src/util.rs", vec![LineRange::new(5, 15)])]);
    pr_changes.insert(
        4,
        vec![
            change("src/core.rs", vec![LineRange::new(40, 55)]),
            change("src/util.rs", vec![LineRange::new(10, 20)]),
        ],
    );

    let analyzer = DependencyAnalyzer::new();
    let sequential_result = analyzer.analyze(&prs, &pr_changes);
    let parallel_result = analyzer.analyze_parallel(&prs, &pr_changes);

    assert_eq!(
        sequential_result.graph.nodes.len(),
        parallel_result.graph.nodes.len(),
        "Node counts should match"
    );

    for pr in &prs {
        let seq_node = sequential_result.graph.get_node(pr.id).unwrap();
        let par_node = parallel_result.graph.get_node(pr.id).unwrap();

        assert_eq!(
            seq_node.dependencies.len(),
            par_node.dependencies.len(),
            "Dependency count should match for PR {}",
            pr.id
        );

        for seq_dep in &seq_node.dependencies {
            let found = par_node
                .dependencies
                .iter()
                .any(|par_dep| par_dep.to_pr_id == seq_dep.to_pr_id && same_kind(&par_dep.category, &seq_dep.category));
            assert!(found, "Parallel result should have same dependency from {} to {}", pr.id, seq_dep.to_pr_id);
        }
    }

    assert_eq!(
        sequential_result.warnings.len(),
        parallel_result.warnings.len(),
        "Warning counts should match"
    );
}

#[test]
fn test_parallel_analysis_many_prs() {
    let prs: Vec<PRInfo> = (1..=20)
        .map(|i| PRInfo::new(i, format!("PR {}", i), i % 2 == 0, Some(format!("commit{}", i))))
        .collect();

    let pr_changes: HashMap<i32, Vec<FileChange>> = (1..=20)
        .map(|i| {
            let start = (i as u32 - 1) * 5 + 1;
            let end = start + 10;
            (i, vec![change("src/main.rs", vec![LineRange::new(start, end)])])
        })
        .collect();

    let analyzer = DependencyAnalyzer::new();
    let result = analyzer.analyze_parallel(&prs, &pr_changes);

    assert_eq!(result.graph.nodes.len(), 20);

    for (idx, &pr_id) in result.graph.topological_order.iter().enumerate() {
        if let Some(node) = result.graph.get_node(pr_id) {
            for dep in &node.dependencies {
                let dep_idx = result.graph.topological_order.iter().position(|&id| id == dep.to_pr_id);
                if let Some(dep_idx) = dep_idx {
                    assert!(
                        dep_idx < idx,
                        "PR {} depends on {}, but {} comes later in topological order",
                        pr_id,
                        dep.to_pr_id,
                        dep.to_pr_id
                    );
                }
            }
        }
    }
}

#[test]
fn test_bitmap_to_ranges_merges_consecutive_lines() {
    let mut bitmap = RoaringBitmap::new();
    for line in [1u32, 2, 3, 5, 7, 8, 100] {
        bitmap.insert(line);
    }
    let ranges = bitmap_to_ranges(&bitmap);
    assert_eq!(
        ranges,
        vec![LineRange::new(1, 3), LineRange::new(5, 5), LineRange::new(7, 8), LineRange::new(100, 100)]
    );
    assert!(bitmap_to_ranges(&RoaringBitmap::new()).is_empty());
}

#[test]
fn test_bitmap_index_build_and_lookups() {
    let mut pr_changes = HashMap::new();
    pr_changes.insert(7, vec![change("a.rs", vec![LineRange::new(3, 4)]), change("b.rs", vec![])]);
    pr_changes.insert(9, vec![change("b.rs", vec![LineRange::new(1, 2)])]);
    let index = PRBitmapIndex::build(&pr_changes);

    let a = index.get_file_id("a.rs").unwrap();
    let b = index.get_file_id("b.rs").unwrap();
    assert_ne!(a, b);
    assert_eq!(index.get_file_path(a).unwrap(), "a.rs");
    assert_eq!(index.get_file_path(b).unwrap(), "b.rs");
    assert!(index.get_file_path(2).is_none());
    assert!(index.get_file_id("c.rs").is_none());

    let files7 = index.get_file_bitmap(7).unwrap();
    assert!(files7.contains(a) && files7.contains(b));
    assert_eq!(files7.len(), 2);
    let files9 = index.get_file_bitmap(9).unwrap();
    assert!(files9.contains(b) && !files9.contains(a));
    assert!(index.get_file_bitmap(8).is_none());

    let lines = index.get_line_bitmap(7, a).unwrap();
    assert_eq!(lines.iter().collect::<Vec<u32>>(), vec![3, 4]);
    // A change without line ranges records no line bitmap.
    assert!(index.get_line_bitmap(7, b).is_none());
    assert_eq!(index.get_line_bitmap(9, b).unwrap().iter().collect::<Vec<u32>>(), vec![1, 2]);
}

#[test]
fn test_bitmap_index_counts_original_paths() {
    let mut renamed = change("new.rs", vec![LineRange::new(1, 5)]);
    renamed.original_path = Some("old.rs".to_string());
    let mut pr_changes = HashMap::new();
    pr_changes.insert(1, vec![change("old.rs", vec![LineRange::new(50, 60)])]);
    pr_changes.insert(2, vec![renamed]);
    let index = PRBitmapIndex::build(&pr_changes);
    let old = index.get_file_id("old.rs").unwrap();
    assert!(index.get_file_bitmap(2).unwrap().contains(old));
    match index.compare(2, 1) {
        DependencyCategory::PartiallyDependent { shared_files } => assert_eq!(shared_files, vec!["old.rs".to_string()]),
        other => panic!("expected a partial dependency, got {:?}", other),
    }
}

#[test]
fn test_bitmap_compare_intersects_lines() {
    let mut pr_changes = HashMap::new();
    pr_changes.insert(1, vec![change("src/core.rs", vec![LineRange::new(10, 30)]), change("x.rs", vec![])]);
    pr_changes.insert(2, vec![change("src/core.rs", vec![LineRange::new(25, 45), LineRange::new(28, 29)])]);
    pr_changes.insert(3, vec![change("y.rs", vec![LineRange::new(1, 1)])]);
    let index = PRBitmapIndex::build(&pr_changes);

    match index.compare(2, 1) {
        DependencyCategory::Dependent { shared_files, overlapping_files } => {
            assert_eq!(shared_files, vec!["src/core.rs".to_string()]);
            assert_eq!(overlapping_files.len(), 1);
            assert_eq!(overlapping_files[0].path, "src/core.rs");
            assert_eq!(overlapping_files[0].overlapping_ranges, vec![LineRange::new(25, 30)]);
        }
        other => panic!("expected a dependency, got {:?}", other),
    }
    assert!(matches!(index.compare(3, 1), DependencyCategory::Independent));
    assert!(matches!(index.compare(4, 1), DependencyCategory::Independent));
}

#[test]
fn test_parallel_analysis_warnings_and_order() {
    let prs = vec![
        PRInfo::new(1, "Base".to_string(), false, None),
        PRInfo::new(2, "Next".to_string(), true, None),
        PRInfo::new(3, "Other".to_string(), true, None),
    ];
    let mut pr_changes = HashMap::new();
    pr_changes.insert(1, vec![change("f.rs", vec![LineRange::new(1, 10)])]);
    pr_changes.insert(2, vec![change("f.rs", vec![LineRange::new(5, 6)])]);
    pr_changes.insert(3, vec![change("g.rs", vec![LineRange::new(1, 10)])]);

    let result = DependencyAnalyzer::new().analyze_parallel(&prs, &pr_changes);
    let node2 = result.graph.get_node(2).unwrap();
    assert_eq!(node2.dependencies.len(), 1);
    assert_eq!(node2.dependencies[0].to_pr_id, 1);
    assert_eq!(result.graph.get_node(1).unwrap().dependents, vec![2]);
    assert!(result.graph.get_node(3).unwrap().dependencies.is_empty());
    assert_eq!(result.warnings.len(), 1);
    match &result.warnings[0] {
        DependencyWarning::UnselectedDependency { selected_pr_id, unselected_pr_id, unselected_pr_title, category, .. } => {
            assert_eq!(*selected_pr_id, 2);
            assert_eq!(*unselected_pr_id, 1);
            assert_eq!(unselected_pr_title, "Base");
            assert!(matches!(category, DependencyCategory::Dependent { .. }));
        }
        other => panic!("unexpected warning {:?}", other),
    }
    let order = &result.graph.topological_order;
    let pos1 = order.iter().position(|&id| id == 1).unwrap();
    let pos2 = order.iter().position(|&id| id == 2).unwrap();
    assert!(pos1 < pos2);
}

#[test]
fn parallel_and_sequential_orders_agree() {
    let prs = vec![
        PRInfo::new(1, "Base".to_string(), true, Some("abc".to_string())),
        PRInfo::new(2, "Feature A".to_string(), true, Some("def".to_string())),
        PRInfo::new(3, "Feature B".to_string(), false, Some("ghi".to_string())),
        PRInfo::new(4, "Integration".to_string(), true, Some("jkl".to_string())),
    ];
    let mut pr_changes = HashMap::new();
    pr_changes.insert(1, vec![change("src/core.rs", vec![LineRange::new(10, 30)])]);
    pr_changes.insert(2, vec![change("src/core.rs", vec![LineRange::new(25, 45)])]);
    pr_changes.insert(3, vec![change("src/util.rs", vec![LineRange::new(5, 15)])]);
    pr_changes.insert(
        4,
        vec![
            change("src/core.rs", vec![LineRange::new(40, 55)]),
            change("src/util.rs", vec![LineRange::new(10, 20)]),
        ],
    );

    let analyzer = DependencyAnalyzer::new();
    let sequential = analyzer.analyze(&prs, &pr_changes);
    let parallel = analyzer.analyze_parallel(&prs, &pr_changes);
    assert_eq!(sequential.graph.topological_order, parallel.graph.topological_order);
    // 1 and 3 are ready first (3 first), then 2, then 4.
    assert_eq!(parallel.graph.topological_order, vec![3, 1, 2, 4]);
}
