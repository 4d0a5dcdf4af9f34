use pet::environment::{
    EnvManager, EnvManagerType, PythonEnv, PythonEnvironment, PythonEnvironmentCategory,
};
use pet::locator::Configuration;
use pet::reporter::{Report, Reporter};
use pet::poetry::{
    clean_line, get_environments, get_environments_for_folders, poetry_environment,
    FolderEnvironments, LocatorResult, Poetry, PoetryManager,
};
use pet::text::{string_of, to_chars};

#[derive(Default)]
struct Recorder {
    reports: Vec<Report>,
}

impl Reporter for Recorder {
    fn report_manager(&mut self, manager: &EnvManager) {
        self.reports.push(Report::Manager(manager.clone()));
    }

    fn report_environment(&mut self, env: &PythonEnvironment) {
        self.reports.push(Report::Environment(env.clone()));
    }
}

fn strings(items: &[&str]) -> Vec<String> {
    items.iter().map(|item| item.to_string()).collect()
}

fn clean(line: &str) -> String {
    string_of(&clean_line(&to_chars(line)))
}

fn poetry_env(executable: &str, symlinks: &[&str]) -> PythonEnvironment {
    let mut env = PythonEnvironment::new(PythonEnvironmentCategory::Poetry);
    env.executable = Some(executable.to_string());
    env.symlinks = Some(strings(symlinks));
    env
}

#[test]
fn manager_is_found_where_its_file_is() {
    assert_eq!(PoetryManager::find(None, true), None);
    assert_eq!(PoetryManager::find(None, false), None);
    assert_eq!(PoetryManager::find(Some("/usr/bin/poetry".to_string()), false), None);
    assert_eq!(
        PoetryManager::find(Some("/usr/bin/poetry".to_string()), true),
        Some(PoetryManager { executable: "/usr/bin/poetry".to_string() })
    );
}

#[test]
fn manager_is_reported_as_poetry_without_version() {
    let manager = PoetryManager { executable: "/usr/bin/poetry".to_string() };
    assert_eq!(
        manager.to_manager(),
        EnvManager {
            executable: "/usr/bin/poetry".to_string(),
            version: None,
            tool: EnvManagerType::Poetry
        }
    );
}

#[test]
fn environment_of_a_project_is_poetrys() {
    let manager = PoetryManager { executable: "/usr/bin/poetry".to_string() };
    let env = poetry_environment("/work/app", "/envs/app-py3.12", "/envs/app-py3.12/bin/python", &manager);
    assert_eq!(
        env,
        PythonEnvironment {
            category: PythonEnvironmentCategory::Poetry,
            executable: Some("/envs/app-py3.12/bin/python".to_string()),
            prefix: Some("/envs/app-py3.12".to_string()),
            version: None,
            manager: Some(manager.to_manager()),
            symlinks: Some(strings(&["/envs/app-py3.12/bin/python"])),
            times: None,
            project: Some("/work/app".to_string()),
        }
    );
    assert_eq!(Poetry::new().get_name(), "Poetry");
}

#[test]
fn line_loses_its_mark_and_the_space_around_it() {
    assert_eq!(clean("/home/u/venv (Activated)"), "/home/u/venv");
    assert_eq!(clean("  /home/u/venv  "), "/home/u/venv");
    assert_eq!(clean("/home/u/venv (Activated) (Activated)"), "/home/u/venv");
    assert_eq!(clean("/home/u/venv\r"), "/home/u/venv");
    assert_eq!(clean("\t/home/u/my venv \u{a0}"), "/home/u/my venv");
    assert_eq!(clean("/home/u/venv (Activated) "), "/home/u/venv (Activated)");
    assert_eq!(clean("/home/u/venv(Activated)"), "/home/u/venv(Activated)");
    assert_eq!(clean(" (Activated)"), "");
    assert_eq!(clean(""), "");
    assert_eq!(clean(" \t "), "");
}

#[test]
fn line_is_cleaned_as_the_standard_library_would() {
    for line in [
        "/a (Activated)",
        " /a/b c\t",
        "\u{2003}/x\u{3000}",
        "\u{200b}/zero-width\u{200b}",
        "x (Activated) (Activated)",
        "\u{85}y\u{1680}",
        "/a (activated)",
    ] {
        assert_eq!(clean(line), line.trim_end_matches(" (Activated)").trim());
    }
}

#[test]
fn listing_names_one_environment_on_each_line() {
    let output = "/home/u/.cache/pypoetry/virtualenvs/app-1-py3.11\n\
                  /home/u/.cache/pypoetry/virtualenvs/app-1-py3.12 (Activated)\n";
    assert_eq!(
        get_environments(true, output),
        Some(strings(&[
            "/home/u/.cache/pypoetry/virtualenvs/app-1-py3.11",
            "/home/u/.cache/pypoetry/virtualenvs/app-1-py3.12",
        ]))
    );
}

#[test]
fn listing_skips_empty_lines_and_cleans_twice() {
    let output = "\n  \r\n/a (Activated)  \r\n\n/b\n (Activated)\n/c";
    assert_eq!(get_environments(true, output), Some(strings(&["/a", "/b", "/c"])));
    assert_eq!(get_environments(true, ""), Some(vec![]));
    assert_eq!(get_environments(true, "\n\n"), Some(vec![]));
}

#[test]
fn listing_takes_a_carriage_return_as_part_of_the_line_ending() {
    let output = "x (Activated)\r (Activated)\r\n";
    assert_eq!(get_environments(true, output), Some(strings(&["x"])));
    // Without a line feed after it, the carriage return is white space of
    // the line, and the mark before it stays.
    assert_eq!(get_environments(true, "y (Activated)\r"), Some(strings(&["y"])));
    assert_eq!(
        get_environments(true, "z (Activated)\r (Activated)\r"),
        Some(strings(&["z (Activated)"]))
    );
}

#[test]
fn listing_is_read_as_the_standard_library_reads_lines() {
    for output in [
        "/a\n/b\n",
        "/a\r\n/b (Activated)\r\n",
        "x (Activated)\r (Activated)\r\n",
        "x (Activated)\r (Activated)\r",
        "\r\n\r\r\n /c \r\r\n (Activated)\n/d (Activated) (Activated)",
        "/e\r",
        "\n",
        "",
        " (Activated)\r\n(Activated)\n",
    ] {
        let expected: Vec<String> = output
            .lines()
            .map(|line| line.trim_end_matches(" (Activated)").trim())
            .filter(|line| !line.is_empty())
            .map(|line| line.trim_end_matches(" (Activated)").trim().to_string())
            .collect();
        assert_eq!(get_environments(true, output), Some(expected));
    }
}

#[test]
fn listing_of_a_failed_command_is_nothing() {
    assert_eq!(get_environments(false, "/a\n/b\n"), None);
    assert_eq!(get_environments(false, ""), None);
}

#[test]
fn folders_keep_the_listings_that_succeeded() {
    let dirs = strings(&["/work/a", "/work/b", "/work/c", "/work/d"]);
    let outputs = vec![Some("/envs/a1\n/envs/a2 (Activated)\n".to_string()), None, Some(String::new())];
    assert_eq!(
        get_environments_for_folders(dirs, &outputs),
        vec![
            FolderEnvironments {
                project_dir: "/work/a".to_string(),
                environments: strings(&["/envs/a1", "/envs/a2"])
            },
            FolderEnvironments { project_dir: "/work/c".to_string(), environments: vec![] },
        ]
    );
    assert!(get_environments_for_folders(vec![], &outputs).is_empty());
}

#[test]
fn folder_given_twice_keeps_its_last_listing() {
    let dirs = strings(&["/work/a", "/work/b", "/work/a", "/work/a"]);
    let outputs =
        vec![Some("/old".to_string()), Some("/b".to_string()), Some("/new".to_string()), None];
    assert_eq!(
        get_environments_for_folders(dirs, &outputs),
        vec![
            FolderEnvironments {
                project_dir: "/work/a".to_string(),
                environments: strings(&["/new"])
            },
            FolderEnvironments { project_dir: "/work/b".to_string(), environments: strings(&["/b"]) },
        ]
    );
}

#[test]
fn locator_searches_once_and_then_remembers() {
    let mut poetry = Poetry::new();
    assert!(poetry.needs_search());
    let manager = PoetryManager { executable: "/usr/bin/poetry".to_string() };
    let env = poetry_env("/envs/a/bin/python", &["/envs/a/bin/python"]);
    let first = poetry.find_with_cache(Some(manager.clone()), vec![env.clone()]);
    let expected =
        LocatorResult { managers: vec![manager.to_manager()], environments: vec![env.clone()] };
    assert_eq!(first, Some(expected.clone()));
    assert!(!poetry.needs_search());

    let other = poetry_env("/envs/b/bin/python", &["/envs/b/bin/python"]);
    assert_eq!(poetry.find_with_cache(None, vec![other]), Some(expected.clone()));
    assert_eq!(poetry.find_with_cache(None, vec![]), Some(expected));
}

#[test]
fn locator_remembers_an_empty_search_as_nothing() {
    let mut poetry = Poetry::from();
    assert_eq!(poetry.find_with_cache(None, vec![]), None);
    assert!(!poetry.needs_search());
    let env = poetry_env("/envs/a/bin/python", &["/envs/a/bin/python"]);
    assert_eq!(poetry.find_with_cache(None, vec![env]), None);
}

#[test]
fn locator_without_manager_still_remembers_environments() {
    let mut poetry = Poetry::new();
    let env = poetry_env("/envs/a/bin/python", &["/envs/a/bin/python"]);
    assert_eq!(
        poetry.find_with_cache(None, vec![env.clone()]),
        Some(LocatorResult { managers: vec![], environments: vec![env] })
    );
}

#[test]
fn configuration_replaces_and_forgets() {
    let mut poetry = Poetry::new();
    assert!(poetry.project_directories().is_empty());
    assert_eq!(poetry.poetry_executable(), None);
    let config = Configuration {
        search_paths: None,
        project_directories: Some(strings(&["/work/a", "/work/b"])),
        environment_paths: None,
        conda_executable: None,
        poetry_executable: Some("/usr/bin/poetry".to_string()),
    };
    poetry.configure(&config);
    assert_eq!(poetry.project_directories(), strings(&["/work/a", "/work/b"]));
    assert_eq!(poetry.poetry_executable(), Some("/usr/bin/poetry".to_string()));

    poetry.find_with_cache(None, vec![poetry_env("/e/bin/python", &["/e/bin/python"])]);
    assert!(!poetry.needs_search());

    let narrower = Configuration {
        search_paths: None,
        project_directories: Some(strings(&["/work/c"])),
        environment_paths: None,
        conda_executable: None,
        poetry_executable: None,
    };
    poetry.configure(&narrower);
    assert_eq!(poetry.project_directories(), strings(&["/work/c"]));
    assert_eq!(poetry.poetry_executable(), Some("/usr/bin/poetry".to_string()));
    assert!(poetry.needs_search());
    let mut recorder = Recorder::default();
    poetry.find(&mut recorder);
    assert!(recorder.reports.is_empty());

    // The same configuration again changes nothing.
    poetry.configure(&narrower);
    assert_eq!(poetry.project_directories(), strings(&["/work/c"]));
    let empty = Configuration {
        search_paths: None,
        project_directories: None,
        environment_paths: None,
        conda_executable: None,
        poetry_executable: None,
    };
    poetry.configure(&empty);
    assert_eq!(poetry.project_directories(), strings(&["/work/c"]));
}

#[test]
fn locator_resolves_poetry_only() {
    assert_eq!(Poetry::new().supported_categories(), vec![PythonEnvironmentCategory::Poetry]);
}

#[test]
fn executable_belongs_to_the_first_environment_that_links_it() {
    let mut poetry = Poetry::new();
    let probe = PythonEnv::new("/envs/b/bin/python3".to_string(), None, None);
    assert_eq!(poetry.try_from(&probe, true), None);

    let a = poetry_env("/envs/a/bin/python", &["/envs/a/bin/python", "/envs/a/bin/python3"]);
    let b = poetry_env("/envs/b/bin/python", &["/envs/b/bin/python", "/envs/b/bin/python3"]);
    let mut unlinked = poetry_env("/envs/b/bin/python3", &[]);
    unlinked.symlinks = None;
    let again = poetry_env("/envs/b2/bin/python", &["/envs/b/bin/python3"]);
    poetry.find_with_cache(None, vec![a, unlinked, b.clone(), again]);

    assert_eq!(poetry.try_from(&probe, true), Some(b));
    assert_eq!(poetry.try_from(&probe, false), None);
    let stranger = PythonEnv::new("/usr/bin/python3".to_string(), None, None);
    assert_eq!(poetry.try_from(&stranger, true), None);
}

#[test]
fn locator_reports_managers_before_environments() {
    let mut poetry = Poetry::new();
    let mut recorder = Recorder::default();
    poetry.find(&mut recorder);
    assert!(recorder.reports.is_empty());

    let manager = PoetryManager { executable: "/usr/bin/poetry".to_string() };
    let a = poetry_env("/envs/a/bin/python", &["/envs/a/bin/python"]);
    let b = poetry_env("/envs/b/bin/python", &["/envs/b/bin/python"]);
    poetry.find_with_cache(Some(manager.clone()), vec![a.clone(), b.clone()]);
    poetry.find(&mut recorder);
    assert_eq!(
        recorder.reports,
        vec![Report::Manager(manager.to_manager()), Report::Environment(a), Report::Environment(b)]
    );
}
