use maccleanup::finder::batch_stats;
use maccleanup::finder::find_in_directory;
use maccleanup::finder::total_found_size;
use maccleanup::finder::FindQuery;
use maccleanup::model::Directory;
use maccleanup::model::Entry;
use maccleanup::model::EntryKind;
use maccleanup::stats::CleanupStats;

fn file(name: &str, size: u64) -> Entry {
    Entry {
        name: name.as_bytes().to_vec(),
        age_secs: Some(0),
        kind: EntryKind::File { size },
    }
}

fn dir(name: &str, children: Vec<Entry>) -> Entry {
    Entry {
        name: name.as_bytes().to_vec(),
        age_secs: Some(0),
        kind: EntryKind::Dir { children },
    }
}

fn node_modules_query() -> FindQuery {
    FindQuery {
        dir_name: Some(b"node_modules".to_vec()),
        file_exts: vec![],
        deny_dirs: vec![b"Library".to_vec()],
    }
}

fn python_cache_query() -> FindQuery {
    FindQuery {
        dir_name: Some(b"__pycache__".to_vec()),
        file_exts: vec![b"pyc".to_vec(), b"pyo".to_vec()],
        deny_dirs: vec![b"Library".to_vec()],
    }
}

#[test]
fn matched_directory_is_pruned_not_descended() {
    // project/node_modules at depth 2 matches; the nested
    // project/node_modules/sub/node_modules at depth 4 is behind the match
    // and must not be reported separately.
    let tree = Directory {
        entries: vec![dir(
            "project",
            vec![dir(
                "node_modules",
                vec![dir("sub", vec![dir("node_modules", vec![file("x.js", 10)])])],
            )],
        )],
    };
    let found = find_in_directory(&tree, &node_modules_query(), 3);
    assert_eq!(found.len(), 1);
    assert_eq!(found[0].path, b"project/node_modules".to_vec());
    assert!(found[0].is_dir);
    assert_eq!(found[0].size, 10);
}

#[test]
fn depth_bound_limits_the_search() {
    let deep = Directory {
        entries: vec![dir(
            "a",
            vec![dir("b", vec![dir("c", vec![dir("d", vec![dir("node_modules", vec![])])])])],
        )],
    };
    assert_eq!(find_in_directory(&deep, &node_modules_query(), 3).len(), 0);
    assert_eq!(find_in_directory(&deep, &node_modules_query(), 4).len(), 1);
}

#[test]
fn extension_and_directory_predicates_combine() {
    let tree = Directory {
        entries: vec![
            dir(
                "proj",
                vec![
                    dir("__pycache__", vec![file("mod.cpython.pyc", 300)]),
                    file("main.py", 50),
                    file("main.pyc", 70),
                    file("notes.txt", 5),
                ],
            ),
            file("top.pyo", 20),
        ],
    };
    let found = find_in_directory(&tree, &python_cache_query(), 4);
    let paths: Vec<Vec<u8>> = found.iter().map(|f| f.path.clone()).collect();
    assert_eq!(
        paths,
        vec![
            b"proj/__pycache__".to_vec(),
            b"proj/main.pyc".to_vec(),
            b"top.pyo".to_vec(),
        ]
    );
    assert_eq!(total_found_size(&found), 390);
}

#[test]
fn dot_directories_and_denylist_are_not_entered() {
    let tree = Directory {
        entries: vec![
            dir("Library", vec![dir("node_modules", vec![])]),
            dir(".git", vec![dir("node_modules", vec![])]),
            dir("work", vec![dir("node_modules", vec![])]),
        ],
    };
    let found = find_in_directory(&tree, &node_modules_query(), 5);
    assert_eq!(found.len(), 1);
    assert_eq!(found[0].path, b"work/node_modules".to_vec());
}

#[test]
fn leading_dot_is_no_extension() {
    let tree = Directory {
        entries: vec![file(".pyc", 10), file("real.pyc", 20)],
    };
    let found = find_in_directory(&tree, &python_cache_query(), 1);
    assert_eq!(found.len(), 1);
    assert_eq!(found[0].path, b"real.pyc".to_vec());
}

#[test]
fn batch_removal_counts_only_successes() {
    let tree = Directory {
        entries: vec![file("a.pyc", 100), file("b.pyc", 200), file("c.pyc", 400)],
    };
    let found = find_in_directory(&tree, &python_cache_query(), 1);
    assert_eq!(found.len(), 3);
    let stats = batch_stats(&found, &vec![true, false, true]);
    assert_eq!(stats, CleanupStats { files_removed: 2, space_freed: 500 });
    let all = batch_stats(&found, &vec![true, true, true]);
    assert_eq!(all, CleanupStats { files_removed: 3, space_freed: 700 });
}
