use pet::executable::{
    accepts_name, get_shortest_executable, is_python_executable_name,
    should_search_for_environments_in_path,
};
use pet::platform::Platform;

#[test]
fn is_python_executable_test() {
    assert!(is_python_executable_name("python", Platform::Linux));
    assert!(is_python_executable_name("python3", Platform::Linux));
    assert!(is_python_executable_name("python3.1", Platform::Linux));
    assert!(is_python_executable_name("python3.10", Platform::Linux));
    assert!(is_python_executable_name("python4.10", Platform::Linux));

    assert!(is_python_executable_name("python.exe", Platform::Windows));
    assert!(is_python_executable_name("python3.exe", Platform::Windows));
    assert!(is_python_executable_name("python3.1.exe", Platform::Windows));
    assert!(is_python_executable_name("python3.10.exe", Platform::Windows));
    assert!(is_python_executable_name("python4.10.exe", Platform::Windows));
}

#[test]
fn is_not_python_executable_test() {
    assert!(!is_python_executable_name("pythonw", Platform::Linux));
    assert!(!is_python_executable_name("pythonw3", Platform::Linux));

    assert!(!is_python_executable_name("pythonw.exe", Platform::Windows));
    assert!(!is_python_executable_name("pythonw3.exe", Platform::Windows));
}

#[test]
fn executable_name_is_judged_by_its_last_component() {
    assert!(is_python_executable_name("/usr/bin/python3.12", Platform::Linux));
    assert!(is_python_executable_name("/usr/local/bin/python", Platform::MacOs));
    assert!(!is_python_executable_name("/opt/python3/bin/pip", Platform::Linux));
    assert!(is_python_executable_name("/opt/python3/", Platform::Unix));
    assert!(!is_python_executable_name("", Platform::Linux));
    assert!(!is_python_executable_name("/", Platform::Linux));
}

#[test]
fn executable_name_on_windows_follows_either_separator() {
    assert!(is_python_executable_name(r"C:\Python312\python.exe", Platform::Windows));
    assert!(is_python_executable_name(r"C:\Python312/python3.12.exe", Platform::Windows));
    assert!(!is_python_executable_name(r"C:\python\pip.exe", Platform::Windows));
    assert!(!should_search_for_environments_in_path(r"C:\proj\node_modules", Platform::Windows));
    assert!(!should_search_for_environments_in_path(r"C:\proj\.git", Platform::Windows));
    assert!(should_search_for_environments_in_path(r"C:\proj\src", Platform::Windows));
    // Elsewhere a backslash is a character of the name.
    assert!(should_search_for_environments_in_path(r"C:\proj\node_modules", Platform::Linux));
    assert!(!is_python_executable_name(r"C:\Python312\python", Platform::Linux));
}

#[test]
fn executable_name_is_folded_to_lower_case() {
    assert!(is_python_executable_name("Python3", Platform::Linux));
    assert!(is_python_executable_name("PYTHON.EXE", Platform::Windows));
    assert!(!is_python_executable_name("PYTHONW", Platform::Linux));
}

#[test]
fn executable_name_is_folded_as_unicode_folds() {
    // The capital dotted I folds to two characters, of which the expression
    // lets only one stand before the extension.
    assert!(!is_python_executable_name("python\u{130}exe", Platform::Windows));
    assert!(is_python_executable_name("pythonIexe", Platform::Windows));
    assert!(is_python_executable_name("PYTHON3.EXE", Platform::Windows));
    assert!(!is_python_executable_name("\u{212a}python", Platform::Linux));
}

#[test]
fn executable_name_must_begin_with_python() {
    assert!(!is_python_executable_name("mypython3", Platform::Linux));
    assert!(!is_python_executable_name("ipython", Platform::Linux));
    assert!(!is_python_executable_name("python3-config", Platform::Linux));
    assert!(!is_python_executable_name("python.exe", Platform::Linux));
    assert!(!is_python_executable_name("python3", Platform::Windows));
}

#[test]
fn verdict_needs_both_the_prefix_and_a_match() {
    assert!(accepts_name(true, Some(true)));
    assert!(!accepts_name(true, Some(false)));
    assert!(!accepts_name(true, None));
    assert!(!accepts_name(false, Some(true)));
    assert!(!accepts_name(false, None));
}

#[test]
fn artifact_directories_are_not_searched() {
    for name in [
        "node_modules",
        ".git",
        ".tox",
        ".nox",
        ".hypothesis",
        ".ipynb_checkpoints",
        ".eggs",
        ".coverage",
        ".cache",
        ".pyre",
        ".ptype",
        ".pytest_cache",
        "__pycache__",
        "__pypackages__",
        ".mypy_cache",
        "cython_debug",
        "env.bak",
        "venv.bak",
        "Scripts",
        "bin",
    ] {
        assert!(!should_search_for_environments_in_path(name, Platform::Linux));
        let nested = format!("/home/user/project/src/{}", name);
        assert!(!should_search_for_environments_in_path(&nested, Platform::Linux));
        let trailing = format!("/home/user/project/{}/", name);
        assert!(!should_search_for_environments_in_path(&trailing, Platform::Linux));
    }
}

#[test]
fn ordinary_directories_are_searched() {
    assert!(should_search_for_environments_in_path("/home/user/project", Platform::Linux));
    assert!(should_search_for_environments_in_path("/home/user/project/.venv", Platform::Linux));
    assert!(should_search_for_environments_in_path("/home/user/node_modules/pkg", Platform::Linux));
    assert!(should_search_for_environments_in_path("/home/user/.git/hooks", Platform::Linux));
    assert!(should_search_for_environments_in_path("/home/user/sbin", Platform::Linux));
    assert!(should_search_for_environments_in_path("/home/user/bin2", Platform::Linux));
    assert!(should_search_for_environments_in_path("/home/user/my.git", Platform::Linux));
    assert!(should_search_for_environments_in_path("", Platform::Linux));
    assert!(should_search_for_environments_in_path("/", Platform::Linux));
}

#[test]
fn shortest_executable_of_none_is_none() {
    assert_eq!(get_shortest_executable(&None), None);
    assert_eq!(get_shortest_executable(&Some(vec![])), None);
}

#[test]
fn shortest_executable_is_the_first_of_the_shortest() {
    let exes = Some(vec![
        "/usr/local/bin/python3.12".to_string(),
        "/usr/bin/python3".to_string(),
        "/usr/bin/python".to_string(),
        "/opt/bin/python".to_string(),
        "/usr/bin/python2".to_string(),
    ]);
    assert_eq!(get_shortest_executable(&exes), Some("/usr/bin/python".to_string()));
    let one = Some(vec!["/usr/bin/python3".to_string()]);
    assert_eq!(get_shortest_executable(&one), Some("/usr/bin/python3".to_string()));
}

#[test]
fn shortest_executable_counts_bytes() {
    // Two characters, four bytes, against three characters, three bytes.
    let exes = Some(vec!["éé".to_string(), "abc".to_string()]);
    assert_eq!(get_shortest_executable(&exes), Some("abc".to_string()));
}
