use dusage::report::{render_line, sort_and_render, sort_entries};
use dusage::tree::{
    detailed_scan, get_dir_size, list_top_level, shallow_size, FsNode, FsTree, NodeKind, SizeEntry,
};
use dusage::format::human_size;

fn node(path: &str, kind: NodeKind, len: u64, children: Vec<usize>) -> FsNode {
    let name = path.rsplit('/').next().unwrap_or("").to_string();
    FsNode { path: path.to_string(), name, kind, len, children }
}

/// `d` holds files `a` (500 bytes) and `b` (1500 bytes) and directory `s`,
/// which holds file `c` (1 MiB).
fn sample() -> FsTree {
    FsTree {
        nodes: vec![
            node("/d", NodeKind::Dir, 4096, vec![1, 2, 3]),
            node("/d/a", NodeKind::File, 500, vec![]),
            node("/d/b", NodeKind::File, 1500, vec![]),
            node("/d/s", NodeKind::Dir, 4096, vec![4]),
            node("/d/s/c", NodeKind::File, 1_048_576, vec![]),
        ],
    }
}

fn entry(path: &str, size: u64, is_dir: bool) -> SizeEntry {
    SizeEntry { path: path.to_string(), size, is_dir }
}

#[test]
fn shallow_size_of_sample() {
    assert_eq!(shallow_size(&sample()), 1_050_576);
    assert_eq!(get_dir_size(&sample(), 3), 1_048_576);
    assert_eq!(get_dir_size(&sample(), 1), 500);
}

#[test]
fn detailed_scan_of_sample() {
    let (total, entries) = detailed_scan(&sample());
    assert_eq!(total, 1_050_576);
    let seen: Vec<(String, String, bool)> =
        entries.iter().map(|e| (e.path.clone(), human_size(e.size), e.is_dir)).collect();
    assert_eq!(
        seen,
        vec![
            ("/d/a".to_string(), "500.00 B".to_string(), false),
            ("/d/b".to_string(), "1.46 KB".to_string(), false),
            ("/d/s/c".to_string(), "1.00 MB".to_string(), false),
            ("/d/s".to_string(), "1.00 MB".to_string(), true),
        ]
    );
}

#[test]
fn ranked_report_of_sample() {
    let (_, entries) = detailed_scan(&sample());
    let lines = sort_and_render(entries);
    assert_eq!(
        lines,
        vec![
            "   1.00 MB  FILE  /d/s/c".to_string(),
            "   1.00 MB  DIR   /d/s".to_string(),
            "   1.46 KB  FILE  /d/b".to_string(),
            "  500.00 B  FILE  /d/a".to_string(),
        ]
    );
}

#[test]
fn detailed_total_counts_direct_children_only() {
    let tree = FsTree {
        nodes: vec![
            node("/r", NodeKind::Dir, 0, vec![1, 4]),
            node("/r/x", NodeKind::Dir, 0, vec![2]),
            node("/r/x/y", NodeKind::Dir, 0, vec![3]),
            node("/r/x/y/f", NodeKind::File, 100, vec![]),
            node("/r/g", NodeKind::File, 7, vec![]),
        ],
    };
    let (total, entries) = detailed_scan(&tree);
    assert_eq!(entries.len(), 4);
    let direct: u64 = entries
        .iter()
        .filter(|e| e.path == "/r/x" || e.path == "/r/g")
        .map(|e| e.size)
        .sum();
    assert_eq!(total, direct);
    assert_eq!(total, 107);
    let all: u64 = entries.iter().map(|e| e.size).sum();
    assert_eq!(all, 307);
}

#[test]
fn excluded_child_contributes_nothing() {
    let tree = FsTree {
        nodes: vec![
            node("/", NodeKind::Dir, 0, vec![1, 3, 4]),
            node("/proc", NodeKind::Dir, 0, vec![2]),
            node("/proc/kcore", NodeKind::File, 1 << 47, vec![]),
            node("/sys", NodeKind::File, 99_999, vec![]),
            node("/home", NodeKind::File, 10, vec![]),
        ],
    };
    assert_eq!(shallow_size(&tree), 10);
    let (total, entries) = detailed_scan(&tree);
    assert_eq!(total, 10);
    assert_eq!(entries.len(), 1);
    assert_eq!(entries[0].path, "/home");
}

#[test]
fn excluded_scan_root_is_empty() {
    let tree = FsTree {
        nodes: vec![
            node("/proc", NodeKind::Dir, 0, vec![1]),
            node("/proc/meminfo", NodeKind::File, 5, vec![]),
        ],
    };
    assert_eq!(shallow_size(&tree), 0);
    let (total, entries) = detailed_scan(&tree);
    assert_eq!(total, 0);
    assert!(entries.is_empty());
}

#[test]
fn same_name_below_root_is_counted() {
    let tree = FsTree {
        nodes: vec![
            node("/home", NodeKind::Dir, 0, vec![1]),
            node("/home/proc", NodeKind::Dir, 0, vec![2]),
            node("/home/proc/f", NodeKind::File, 42, vec![]),
        ],
    };
    assert_eq!(shallow_size(&tree), 42);
    assert_eq!(detailed_scan(&tree).0, 42);
}

#[test]
fn unreadable_and_other_entries() {
    let tree = FsTree {
        nodes: vec![
            node("/t", NodeKind::Dir, 0, vec![1, 2, 3]),
            node("/t/link", NodeKind::Other, 12, vec![]),
            node("/t/gone", NodeKind::Unreadable, 0, vec![]),
            node("/t/f", NodeKind::File, 30, vec![]),
        ],
    };
    // The shallow total counts regular files only; the detailed walk gives
    // every readable object its own length.
    assert_eq!(shallow_size(&tree), 30);
    let (total, entries) = detailed_scan(&tree);
    assert_eq!(total, 42);
    let paths: Vec<&str> = entries.iter().map(|e| e.path.as_str()).collect();
    assert_eq!(paths, vec!["/t/link", "/t/f"]);
}

#[test]
fn sums_hold_at_the_largest_size() {
    let tree = FsTree {
        nodes: vec![
            node("/big", NodeKind::Dir, 0, vec![1, 2]),
            node("/big/a", NodeKind::File, u64::MAX - 1, vec![]),
            node("/big/b", NodeKind::File, 5, vec![]),
        ],
    };
    assert_eq!(shallow_size(&tree), u64::MAX);
    assert_eq!(detailed_scan(&tree).0, u64::MAX);
}

#[test]
fn empty_directory() {
    let tree = FsTree { nodes: vec![node("/e", NodeKind::Dir, 0, vec![])] };
    assert_eq!(shallow_size(&tree), 0);
    let (total, entries) = detailed_scan(&tree);
    assert_eq!(total, 0);
    assert!(entries.is_empty());
    assert!(list_top_level(&tree).is_empty());
}

#[test]
fn top_level_listing_of_sample() {
    let listing = list_top_level(&sample());
    let seen: Vec<(String, u64, bool)> =
        listing.iter().map(|e| (e.path.clone(), e.size, e.is_dir)).collect();
    assert_eq!(
        seen,
        vec![
            ("a".to_string(), 500, false),
            ("b".to_string(), 1500, false),
            ("s".to_string(), 1_048_576, true),
        ]
    );
}

#[test]
fn sort_is_stable() {
    let sorted = sort_entries(vec![
        entry("first10", 10, false),
        entry("first30", 30, false),
        entry("second10", 10, false),
        entry("second30", 30, true),
    ]);
    let order: Vec<&str> = sorted.iter().map(|e| e.path.as_str()).collect();
    assert_eq!(order, vec!["first30", "second30", "first10", "second10"]);
}

#[test]
fn sort_of_nothing() {
    assert!(sort_entries(vec![]).is_empty());
}

#[test]
fn render_pads_to_ten_columns() {
    assert_eq!(render_line(&entry("x", 500, false)), "  500.00 B  FILE  x");
    assert_eq!(render_line(&entry("dir", 1024, true)), "   1.00 KB  DIR   dir");
    assert_eq!(render_line(&entry("big", 1024 * (1u64 << 40), false)), "1024.00 TB  FILE  big");
}

#[test]
fn shallow_size_matches_flat_enumeration() {
    let tree = FsTree {
        nodes: vec![
            node("/w", NodeKind::Dir, 0, vec![1, 2, 6]),
            node("/w/one", NodeKind::File, 11, vec![]),
            node("/w/sub", NodeKind::Dir, 0, vec![3, 4]),
            node("/w/sub/two", NodeKind::File, 22, vec![]),
            node("/w/sub/deep", NodeKind::Dir, 0, vec![5]),
            node("/w/sub/deep/three", NodeKind::File, 33, vec![]),
            node("/w/four", NodeKind::File, 44, vec![]),
        ],
    };
    let flat: u64 = tree
        .nodes
        .iter()
        .filter(|n| n.kind == NodeKind::File)
        .map(|n| n.len)
        .sum();
    assert_eq!(shallow_size(&tree), flat);
    assert_eq!(flat, 110);
}
