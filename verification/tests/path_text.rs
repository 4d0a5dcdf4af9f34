use pet::paths::{path_ends_with, path_join, split_components};
use pet::text::{has_prefix, same_str, same_text, string_of, to_chars, to_lowered};
use pet::platform::Platform;

fn parts(path: &str) -> Vec<String> {
    split_components(&to_chars(path), Platform::Linux).iter().map(|part| string_of(part)).collect()
}

#[test]
fn components_are_the_named_pieces() {
    assert_eq!(parts("/usr/local/bin"), vec!["usr", "local", "bin"]);
    assert_eq!(parts("usr//local/./bin/"), vec!["usr", "local", "bin"]);
    assert_eq!(parts("./bin"), vec!["bin"]);
    assert_eq!(parts("a/../b"), vec!["a", "..", "b"]);
    assert_eq!(parts(".git"), vec![".git"]);
    assert!(parts("").is_empty());
    assert!(parts("/").is_empty());
    assert!(parts("./.").is_empty());
}

#[test]
fn ends_with_compares_whole_components() {
    assert!(path_ends_with("/opt/venv/bin", "bin", Platform::Linux));
    assert!(path_ends_with("/opt/venv/bin/", "bin", Platform::Linux));
    assert!(path_ends_with("bin", "bin", Platform::Linux));
    assert!(!path_ends_with("/opt/venv/sbin", "bin", Platform::Linux));
    assert!(!path_ends_with("/opt/venv/bin/python", "bin", Platform::Linux));
    assert!(path_ends_with("/home/user/.pyenv/shims", ".pyenv/shims", Platform::Linux));
    assert!(!path_ends_with("/home/user/x.pyenv/shims", ".pyenv/shims", Platform::Linux));
    assert!(!path_ends_with("shims", ".pyenv/shims", Platform::Linux));
    assert!(path_ends_with("/anything", "", Platform::Linux));
}

#[test]
fn join_puts_one_separator_between() {
    assert_eq!(path_join("/opt/venv", "bin", Platform::Linux), "/opt/venv/bin");
    assert_eq!(path_join("/opt/venv/", "bin", Platform::Linux), "/opt/venv/bin");
    assert_eq!(path_join("", "bin", Platform::Linux), "bin");
    assert_eq!(path_join("/", "bin", Platform::Linux), "/bin");
    assert_eq!(path_join("a", ".local/share", Platform::Linux), "a/.local/share");
}

#[test]
fn windows_paths_are_separated_by_backslashes_too() {
    let windows = Platform::Windows;
    let parts: Vec<String> = split_components(&to_chars(r"C:\Users\u/.venvs\\app\.\"), windows)
        .iter()
        .map(|part| string_of(part))
        .collect();
    assert_eq!(parts, vec!["C:", "Users", "u", ".venvs", "app"]);
    assert!(path_ends_with(r"C:\venv\Scripts", "Scripts", windows));
    assert!(path_ends_with(r"C:\Users\u\.pyenv\shims", ".pyenv/shims", windows));
    assert!(!path_ends_with(r"C:\venv\Scripts", "Scripts", Platform::Linux));
    assert_eq!(path_join(r"C:\venv", "Scripts", windows), r"C:\venv\Scripts");
    assert_eq!(path_join(r"C:\venv\", "Scripts", windows), r"C:\venv\Scripts");
    assert_eq!(path_join("C:/venv/", "Scripts", windows), "C:/venv/Scripts");
    assert_eq!(path_join("", "Scripts", windows), "Scripts");
    assert_eq!(path_join(r"C:\venv", "Scripts", Platform::MacOs), r"C:\venv/Scripts");
}

#[test]
fn text_helpers_agree_with_the_standard_library() {
    assert_eq!(to_chars("héllo"), "héllo".chars().collect::<Vec<char>>());
    assert_eq!(string_of(&to_chars("héllo")), "héllo");
    assert_eq!(string_of(&Vec::new()), "");
    assert!(same_str("abc", "abc"));
    assert!(!same_str("abc", "abd"));
    assert!(!same_str("abc", "ab"));
    assert!(same_text(&to_chars(""), &to_chars("")));
    assert_eq!(string_of(&to_lowered(&to_chars("PyThOn3.EXE"))), "python3.exe");
    assert_eq!(string_of(&to_lowered(&to_chars("ÀZ[`az{"))), "Àz[`az{");
    assert!(has_prefix(&to_chars("python3"), &to_chars("python")));
    assert!(has_prefix(&to_chars("python"), &to_chars("python")));
    assert!(!has_prefix(&to_chars("pytho"), &to_chars("python")));
    assert!(!has_prefix(&to_chars("cpython"), &to_chars("python")));
    assert!(has_prefix(&to_chars("x"), &to_chars("")));
}
