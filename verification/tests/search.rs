use pet::executable::{
    executable_candidates, find_executable, find_executables, keep_python_entries, Request, Stage,
};
use pet::platform::Platform;

/// A file system for the tests: the paths that exist, and the entries of
/// the directories that can be read.
struct Disk {
    paths: Vec<&'static str>,
    listings: Vec<(&'static str, Vec<&'static str>)>,
}

impl Disk {
    fn has(&self, path: &str) -> bool {
        self.paths.iter().any(|p| *p == path)
    }

    fn list(&self, dir: &str) -> Option<Vec<String>> {
        self.listings
            .iter()
            .find(|(d, _)| *d == dir)
            .map(|(_, entries)| entries.iter().map(|e| e.to_string()).collect())
    }
}

/// Runs a search to its end; gives what was found, the paths that were
/// probed and the directories that were read.
fn run(root: &str, platform: Platform, disk: &Disk) -> (Vec<String>, Vec<String>, Vec<String>) {
    let mut search = find_executables(root, platform);
    let mut probed = Vec::new();
    let mut read = Vec::new();
    for _ in 0..10 {
        match search.request() {
            Request::Exists(path) => {
                let present = disk.has(&path);
                probed.push(path);
                search = search.answer_exists(present);
            }
            Request::List(dir) => {
                let entries = disk.list(&dir);
                read.push(dir);
                search = search.answer_listing(entries);
            }
            Request::Nothing => break,
        }
    }
    assert!(search.is_done());
    (search.into_executables(), probed, read)
}

#[test]
fn search_descends_into_bin_and_lists_it() {
    let disk = Disk {
        paths: vec!["/opt/venv/bin", "/opt/venv/bin/python"],
        listings: vec![(
            "/opt/venv/bin",
            vec![
                "/opt/venv/bin/activate",
                "/opt/venv/bin/pip",
                "/opt/venv/bin/python",
                "/opt/venv/bin/python3",
                "/opt/venv/bin/python3.11",
                "/opt/venv/bin/pythonw",
            ],
        )],
    };
    let (found, probed, read) = run("/opt/venv", Platform::Linux, &disk);
    assert_eq!(
        found,
        vec!["/opt/venv/bin/python", "/opt/venv/bin/python3", "/opt/venv/bin/python3.11"]
    );
    assert_eq!(probed, vec!["/opt/venv/bin", "/opt/venv/bin/python"]);
    assert_eq!(read, vec!["/opt/venv/bin"]);
}

#[test]
fn search_without_interpreter_reads_no_directory() {
    let disk = Disk {
        paths: vec!["/usr/games"],
        listings: vec![("/usr/games", vec!["/usr/games/python3.9", "/usr/games/nethack"])],
    };
    let (found, probed, read) = run("/usr/games", Platform::Linux, &disk);
    assert!(found.is_empty());
    assert!(read.is_empty());
    assert_eq!(probed, vec!["/usr/games/bin", "/usr/games/python", "/usr/games/python3"]);
}

#[test]
fn search_lists_a_bin_directory_without_canonical_interpreter() {
    let disk = Disk {
        paths: vec![],
        listings: vec![(
            "/home/linuxbrew/.linuxbrew/bin",
            vec!["/home/linuxbrew/.linuxbrew/bin/python3.10", "/home/linuxbrew/.linuxbrew/bin/git"],
        )],
    };
    let (found, _, read) = run("/home/linuxbrew/.linuxbrew/bin", Platform::Linux, &disk);
    assert_eq!(found, vec!["/home/linuxbrew/.linuxbrew/bin/python3.10"]);
    assert_eq!(read, vec!["/home/linuxbrew/.linuxbrew/bin"]);
}

#[test]
fn search_asks_for_python3_only_when_python_is_missing() {
    let disk = Disk {
        paths: vec!["/opt/py/python3"],
        listings: vec![("/opt/py", vec!["/opt/py/python3", "/opt/py/README"])],
    };
    let (found, probed, read) = run("/opt/py", Platform::Linux, &disk);
    assert_eq!(found, vec!["/opt/py/python3"]);
    assert_eq!(probed, vec!["/opt/py/bin", "/opt/py/python", "/opt/py/python3"]);
    assert_eq!(read, vec!["/opt/py"]);

    let disk = Disk {
        paths: vec!["/opt/py/python"],
        listings: vec![("/opt/py", vec!["/opt/py/python"])],
    };
    let (_, probed, _) = run("/opt/py", Platform::Linux, &disk);
    assert_eq!(probed, vec!["/opt/py/bin", "/opt/py/python"]);
}

#[test]
fn search_skips_shim_directories() {
    let disk = Disk {
        paths: vec!["/home/user/.pyenv/shims/python"],
        listings: vec![("/home/user/.pyenv/shims", vec!["/home/user/.pyenv/shims/python"])],
    };
    let (found, probed, read) = run("/home/user/.pyenv/shims", Platform::Linux, &disk);
    assert!(found.is_empty());
    assert!(probed.is_empty());
    assert!(read.is_empty());
    let (found, probed, read) = run("/home/user/.DS_Store", Platform::MacOs, &disk);
    assert!(found.is_empty() && probed.is_empty() && read.is_empty());
}

#[test]
fn search_of_an_unreadable_directory_finds_nothing() {
    let disk = Disk { paths: vec!["/locked/bin"], listings: vec![] };
    let (found, _, read) = run("/locked", Platform::Linux, &disk);
    assert!(found.is_empty());
    assert_eq!(read, vec!["/locked/bin"]);
}

#[test]
fn search_follows_the_platform() {
    let disk = Disk {
        paths: vec![r"C:\venv\Scripts", r"C:\venv\Scripts\python.exe"],
        listings: vec![(
            r"C:\venv\Scripts",
            vec![
                r"C:\venv\Scripts\python.exe",
                r"C:\venv\Scripts\pip.exe",
                r"C:\venv\Scripts\python",
            ],
        )],
    };
    let (found, probed, _) = run(r"C:\venv", Platform::Windows, &disk);
    assert_eq!(found, vec![r"C:\venv\Scripts\python.exe"]);
    assert_eq!(probed, vec![r"C:\venv\Scripts", r"C:\venv\Scripts\python.exe"]);
}

#[test]
fn search_on_windows_knows_a_directory_of_executables_by_either_separator() {
    let disk = Disk {
        paths: vec![],
        listings: vec![
            (r"C:\tools\Scripts", vec![r"C:\tools\Scripts\python3.12.exe"]),
            ("C:/tools/Scripts", vec!["C:/tools/Scripts/python3.12.exe"]),
        ],
    };
    let (found, _, read) = run(r"C:\tools\Scripts", Platform::Windows, &disk);
    assert_eq!(found, vec![r"C:\tools\Scripts\python3.12.exe"]);
    assert_eq!(read, vec![r"C:\tools\Scripts"]);
    let (found, _, _) = run("C:/tools/Scripts", Platform::Windows, &disk);
    assert_eq!(found, vec!["C:/tools/Scripts/python3.12.exe"]);
    // Elsewhere a backslash is a character of the name like any other.
    let (found, _, read) = run(r"C:\tools\bin", Platform::Linux, &disk);
    assert!(found.is_empty() && read.is_empty());
}

#[test]
fn search_ignores_answers_it_did_not_ask_for() {
    let search = find_executables("/opt/venv", Platform::Linux);
    assert_eq!(search.stage, Stage::Bin);
    let same = search.clone().answer_listing(Some(vec!["/opt/venv/python".to_string()]));
    assert_eq!(same, search);
    let listing = search.answer_exists(true).answer_exists(true);
    assert_eq!(listing.stage, Stage::Listing);
    assert_eq!(listing.clone().answer_exists(false), listing);
    let done = listing.answer_listing(None);
    assert_eq!(done.stage, Stage::Done);
    assert_eq!(done.clone().answer_exists(true), done);
    assert_eq!(done.clone().answer_listing(Some(vec!["/x/python".to_string()])), done);
    assert_eq!(done.request(), Request::Nothing);
}

#[test]
fn python_entries_keep_their_order() {
    let entries: Vec<String> =
        ["/b/python3.9", "/b/zip", "/b/python", "/b/python3.9"].iter().map(|e| e.to_string()).collect();
    assert_eq!(
        keep_python_entries(&entries, Platform::Linux),
        vec!["/b/python3.9", "/b/python", "/b/python3.9"]
    );
    assert!(keep_python_entries(&Vec::new(), Platform::Linux).is_empty());
}

#[test]
fn candidates_are_in_order_of_preference() {
    assert_eq!(
        executable_candidates("/opt/venv", Platform::Linux),
        vec!["/opt/venv/bin/python", "/opt/venv/bin/python3", "/opt/venv/python", "/opt/venv/python3"]
    );
    assert_eq!(
        executable_candidates(r"C:\venv", Platform::Windows),
        vec![
            r"C:\venv\Scripts\python.exe",
            r"C:\venv\Scripts\python3.exe",
            r"C:\venv\python.exe",
            r"C:\venv\python3.exe"
        ]
    );
}

#[test]
fn executable_is_the_first_candidate_present() {
    let root = "/opt/venv";
    let linux = Platform::Linux;
    assert_eq!(find_executable(root, linux, &vec![false, false, false, false]), None);
    assert_eq!(
        find_executable(root, linux, &vec![true, true, true, true]),
        Some("/opt/venv/bin/python".to_string())
    );
    assert_eq!(
        find_executable(root, linux, &vec![false, true, false, true]),
        Some("/opt/venv/bin/python3".to_string())
    );
    assert_eq!(
        find_executable(root, linux, &vec![false, false, true, false]),
        Some("/opt/venv/python".to_string())
    );
    assert_eq!(
        find_executable(root, linux, &vec![false, false, false, true]),
        Some("/opt/venv/python3".to_string())
    );
}

#[test]
fn executable_probes_that_are_missing_count_as_absent() {
    assert_eq!(find_executable("/opt/venv", Platform::Linux, &vec![]), None);
    assert_eq!(find_executable("/opt/venv", Platform::Linux, &vec![false, false]), None);
    assert_eq!(
        find_executable("/opt/venv", Platform::Linux, &vec![false, false, false, false, true]),
        None
    );
}
