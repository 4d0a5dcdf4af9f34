use pet::platform::Platform;
use pet::text::to_chars;
use pet::virtualenvs::{
    compare_texts, get_global_virtualenv_dirs, global_virtualenv_dir_candidates,
    list_global_virtual_envs_paths, ListedPath, Order,
};

fn strings(items: &[&str]) -> Vec<String> {
    items.iter().map(|item| item.to_string()).collect()
}

fn entry(path: &str) -> ListedPath {
    ListedPath { path: path.to_string(), is_conda_env: false }
}

fn conda(path: &str) -> ListedPath {
    ListedPath { path: path.to_string(), is_conda_env: true }
}

fn order(a: &str, b: &str) -> Order {
    compare_texts(&to_chars(a), &to_chars(b))
}

#[test]
fn candidates_follow_the_settings_then_the_home() {
    let work_on_home = Some("/data/envs".to_string());
    let home = Some("/home/u".to_string());
    assert_eq!(
        global_virtualenv_dir_candidates(&work_on_home, &home, Platform::MacOs),
        strings(&[
            "/data/envs",
            "/home/u/envs",
            "/home/u/.direnv",
            "/home/u/.venvs",
            "/home/u/.virtualenvs",
            "/home/u/.local/share/virtualenvs",
        ])
    );
    assert_eq!(
        global_virtualenv_dir_candidates(&None, &home, Platform::Linux),
        strings(&[
            "/home/u/envs",
            "/home/u/.direnv",
            "/home/u/.venvs",
            "/home/u/.virtualenvs",
            "/home/u/.local/share/virtualenvs",
            "/home/u/Envs",
        ])
    );
    for platform in [Platform::Linux, Platform::MacOs, Platform::Unix] {
        for candidate in global_virtualenv_dir_candidates(&None, &home, platform) {
            assert!(candidate.starts_with("/home/u/"));
        }
    }
    let windows_home = Some(r"C:\Users\u".to_string());
    let candidates = global_virtualenv_dir_candidates(&None, &windows_home, Platform::Windows);
    assert_eq!(candidates.len(), 5);
    assert_eq!(candidates[0], r"C:\Users\u\envs");
    for candidate in candidates {
        assert!(candidate.starts_with(r"C:\Users\u\"));
    }
    assert_eq!(
        global_virtualenv_dir_candidates(&work_on_home, &None, Platform::Linux),
        strings(&["/data/envs"])
    );
    assert!(global_virtualenv_dir_candidates(&None, &None, Platform::Linux).is_empty());
}

#[test]
fn directories_are_the_candidates_that_are_there() {
    let work_on_home = Some("/data/envs".to_string());
    let home = Some("/home/u".to_string());
    let present = vec![false, true, false, false, true, false];
    assert_eq!(
        get_global_virtualenv_dirs(&work_on_home, &home, Platform::MacOs, &present),
        strings(&["/home/u/envs", "/home/u/.virtualenvs"])
    );
    assert_eq!(
        get_global_virtualenv_dirs(&work_on_home, &home, Platform::MacOs, &vec![true]),
        strings(&["/data/envs"])
    );
    assert!(get_global_virtualenv_dirs(&work_on_home, &home, Platform::MacOs, &vec![]).is_empty());
    assert_eq!(
        get_global_virtualenv_dirs(&None, &home, Platform::Linux, &vec![true; 9]).len(),
        6
    );
    assert_eq!(
        get_global_virtualenv_dirs(
            &None,
            &home,
            Platform::Linux,
            &vec![false, false, false, false, false, true]
        ),
        strings(&["/home/u/Envs"])
    );
    assert!(get_global_virtualenv_dirs(
        &None,
        &home,
        Platform::MacOs,
        &vec![false, false, false, false, false, true]
    )
    .is_empty());
}

#[test]
fn texts_are_ordered_character_by_character() {
    assert_eq!(order("", ""), Order::Same);
    assert_eq!(order("abc", "abc"), Order::Same);
    assert_eq!(order("", "a"), Order::Before);
    assert_eq!(order("a", ""), Order::After);
    assert_eq!(order("ab", "abc"), Order::Before);
    assert_eq!(order("abd", "abc"), Order::After);
    assert_eq!(order("Z", "a"), Order::Before);
    assert_eq!(order("z", "é"), Order::Before);
    for (a, b) in [("env-1", "env/1"), ("/a/b", "/a/c"), ("é", "z"), ("x", "x")] {
        let expected = match a.cmp(b) {
            std::cmp::Ordering::Less => Order::Before,
            std::cmp::Ordering::Equal => Order::Same,
            std::cmp::Ordering::Greater => Order::After,
        };
        assert_eq!(order(a, b), expected);
    }
}

#[test]
fn environments_are_sorted_and_listed_once() {
    let listings = vec![
        vec![entry("/home/u/.virtualenvs/zeta"), entry("/home/u/.virtualenvs/alpha")],
        vec![],
        vec![
            entry("/home/u/envs/beta"),
            entry("/home/u/.virtualenvs/alpha"),
            entry("/home/u/.virtualenvs/zeta"),
        ],
    ];
    assert_eq!(
        list_global_virtual_envs_paths(&listings),
        strings(&["/home/u/.virtualenvs/alpha", "/home/u/.virtualenvs/zeta", "/home/u/envs/beta"])
    );
    assert!(list_global_virtual_envs_paths(&Vec::new()).is_empty());
}

#[test]
fn conda_environments_are_left_out() {
    let listings = vec![vec![
        entry("/home/u/envs/venv"),
        conda("/home/u/envs/conda"),
        conda("/home/u/envs/both"),
        entry("/home/u/envs/both"),
    ]];
    assert_eq!(
        list_global_virtual_envs_paths(&listings),
        strings(&["/home/u/envs/both", "/home/u/envs/venv"])
    );
    assert!(list_global_virtual_envs_paths(&vec![vec![conda("/x")]]).is_empty());
}
