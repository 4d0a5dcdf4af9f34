use pet::workspace::{
    enters_root, find_python_environments_in_workspace_folders_recursive, keep_searchable,
    may_descend, split_into_batches, workspace_candidates, workspace_executable, RootListing,
    BATCH_SIZE, DEFAULT_MAX_DEPTH,
};
use pet::platform::Platform;

fn dirs(parent: &str, count: usize) -> Vec<String> {
    (0..count).map(|i| format!("{}/project{}", parent, i)).collect()
}

#[test]
fn forty_five_subdirectories_make_three_batches() {
    let root = RootListing { has_bin: false, subdirectories: dirs("/work", 45) };
    let batches = find_python_environments_in_workspace_folders_recursive(&vec![root], 0, 1, Platform::Linux);
    assert_eq!(batches.len(), 3);
    assert_eq!(batches[0], dirs("/work", 45)[0..20].to_vec());
    assert_eq!(batches[1], dirs("/work", 45)[20..40].to_vec());
    assert_eq!(batches[2], dirs("/work", 45)[40..45].to_vec());
}

#[test]
fn batches_hold_twenty_at_most_and_keep_the_order() {
    assert_eq!(BATCH_SIZE, 20);
    for count in [0usize, 1, 19, 20, 21, 39, 40, 41, 100] {
        let items = dirs("/w", count);
        let batches = split_into_batches(&items);
        assert_eq!(batches.len(), (count + 19) / 20);
        for (at, batch) in batches.iter().enumerate() {
            assert!(!batch.is_empty() && batch.len() <= 20);
            if at + 1 < batches.len() {
                assert_eq!(batch.len(), 20);
            }
        }
        assert_eq!(batches.concat(), items);
    }
}

#[test]
fn nothing_is_entered_at_the_depth_limit() {
    assert_eq!(DEFAULT_MAX_DEPTH, 1);
    let listing = || vec![RootListing { has_bin: false, subdirectories: dirs("/work", 45) }];
    assert!(find_python_environments_in_workspace_folders_recursive(&listing(), 1, 1, Platform::Linux).is_empty());
    assert!(find_python_environments_in_workspace_folders_recursive(&listing(), 2, 1, Platform::Linux).is_empty());
    assert!(find_python_environments_in_workspace_folders_recursive(&listing(), 0, 0, Platform::Linux).is_empty());
    assert!(find_python_environments_in_workspace_folders_recursive(
        &listing(),
        u32::MAX,
        u32::MAX, Platform::Linux
    )
    .is_empty());
    assert_eq!(find_python_environments_in_workspace_folders_recursive(&listing(), 1, 2, Platform::Linux).len(), 3);
}

#[test]
fn descent_stops_at_the_depth_limit_and_at_environments() {
    assert!(may_descend(0, 1));
    assert!(!may_descend(1, 1));
    assert!(!may_descend(2, 1));
    assert!(!may_descend(0, 0));
    assert!(may_descend(u32::MAX - 1, u32::MAX));
    assert!(enters_root(false, 0, 1));
    assert!(!enters_root(true, 0, 1));
    assert!(!enters_root(false, 1, 1));
    assert!(!enters_root(true, 1, 1));
}

#[test]
fn an_environment_root_is_not_entered() {
    let roots = vec![
        RootListing { has_bin: true, subdirectories: dirs("/work/venv", 3) },
        RootListing { has_bin: false, subdirectories: dirs("/work/src", 2) },
    ];
    let batches = find_python_environments_in_workspace_folders_recursive(&roots, 0, 1, Platform::Linux);
    assert_eq!(batches, vec![dirs("/work/src", 2)]);
}

#[test]
fn each_root_is_batched_on_its_own() {
    let roots = vec![
        RootListing { has_bin: false, subdirectories: dirs("/a", 21) },
        RootListing { has_bin: false, subdirectories: vec![] },
        RootListing { has_bin: false, subdirectories: dirs("/b", 3) },
    ];
    let batches = find_python_environments_in_workspace_folders_recursive(&roots, 0, 1, Platform::Linux);
    assert_eq!(batches.len(), 3);
    assert_eq!(batches[0].len(), 20);
    assert_eq!(batches[1], vec!["/a/project20".to_string()]);
    assert_eq!(batches[2], dirs("/b", 3));
}

#[test]
fn ignored_directories_are_never_planned() {
    let subdirectories: Vec<String> = [
        "/work/app",
        "/work/node_modules",
        "/work/.git",
        "/work/docs",
        "/work/__pycache__",
        "/work/bin",
        "/work/.venv",
    ]
    .iter()
    .map(|d| d.to_string())
    .collect();
    assert_eq!(keep_searchable(&subdirectories, Platform::Linux), vec!["/work/app", "/work/docs", "/work/.venv"]);
    let roots = vec![RootListing { has_bin: false, subdirectories }];
    let batches = find_python_environments_in_workspace_folders_recursive(&roots, 0, 1, Platform::Linux);
    assert_eq!(batches, vec![vec!["/work/app", "/work/docs", "/work/.venv"]]);
}

#[test]
fn ignored_directories_are_known_on_windows_by_either_separator() {
    let subdirectories: Vec<String> = [
        r"C:\proj\app",
        r"C:\proj\node_modules",
        r"C:\proj\.git\",
        "C:/proj/Scripts",
        r"C:\proj\docs",
    ]
    .iter()
    .map(|d| d.to_string())
    .collect();
    assert_eq!(
        keep_searchable(&subdirectories, Platform::Windows),
        vec![r"C:\proj\app", r"C:\proj\docs"]
    );
    // Elsewhere a backslash does not separate, and the whole is one name.
    assert_eq!(keep_searchable(&subdirectories, Platform::Linux).len(), 4);
}

#[test]
fn ignored_directories_do_not_count_towards_a_batch() {
    let mut subdirectories = dirs("/work", 20);
    subdirectories.insert(5, "/work/node_modules".to_string());
    subdirectories.insert(9, "/work/sub/.git".to_string());
    let roots = vec![RootListing { has_bin: false, subdirectories }];
    let batches = find_python_environments_in_workspace_folders_recursive(&roots, 0, 1, Platform::Linux);
    assert_eq!(batches, vec![dirs("/work", 20)]);
}

#[test]
fn workspace_root_is_probed_at_one_place() {
    assert_eq!(workspace_executable("/opt/venv", Platform::Linux), "/opt/venv/bin/python");
    assert_eq!(workspace_executable("/opt/venv/", Platform::MacOs), "/opt/venv/bin/python");
    assert_eq!(
        workspace_executable(r"C:\venv", Platform::Windows),
        r"C:\venv\Scripts\python.exe"
    );
    assert_eq!(
        workspace_executable("C:/venv/", Platform::Windows),
        r"C:/venv/Scripts\python.exe"
    );
}

#[test]
fn workspace_root_gives_its_canonical_interpreter_or_nothing() {
    let roots: Vec<String> =
        ["/work/a", "/work/b", "/work/c", "/work/d"].iter().map(|r| r.to_string()).collect();
    assert_eq!(
        workspace_candidates(&roots, &vec![true, false, true], Platform::Linux),
        vec![
            vec!["/work/a/bin/python".to_string()],
            vec![],
            vec!["/work/c/bin/python".to_string()],
            vec![],
        ]
    );
    assert_eq!(
        workspace_candidates(&roots, &vec![], Platform::Linux),
        vec![Vec::<String>::new(); 4]
    );
    assert!(workspace_candidates(&Vec::new(), &vec![true], Platform::Linux).is_empty());
    for found in workspace_candidates(&roots, &vec![true; 4], Platform::MacOs) {
        assert_eq!(found.len(), 1);
    }
}
