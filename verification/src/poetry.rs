//! The Poetry locator's own rules: where its manager is, how the listing
//! of a project's environments is read, and what it remembers of a search.

use vstd::prelude::*;
use vstd::string::*;

use crate::environment::{
    copy_environments, copy_opt, copy_strings, environments, opt_text, EnvManager,
    EnvManagerType, EnvManagerView, PythonEnv, PythonEnvironment, PythonEnvironmentCategory,
    PythonEnvironmentView,
};
use crate::locator::Configuration;
use crate::reporter::{delivered, lemma_delivered_push, ReportView, Reporter};
use crate::text::{same_str, split, split_text, string_of, strings, texts, to_chars};

verus! {

/// The Poetry executable, once it is known to be there.
#[derive(Clone, PartialEq, Eq, Debug)]
pub struct PoetryManager {
    pub executable: String,
}

impl PoetryManager {
    /// The manager at `executable`, where a path is given and `is_file`
    /// says that a file is there.
    pub fn find(executable: Option<String>, is_file: bool) -> (found: Option<PoetryManager>)
        ensures
            found is Some <==> (executable is Some && is_file),
            found matches Some(manager) ==> manager.executable == executable->0,
    {
        match executable {
            Some(executable) => {
                if is_file {
                    Some(PoetryManager { executable })
                } else {
                    None
                }
            },
            None => None,
        }
    }

    /// The manager as it is reported: of kind Poetry, its version unknown.
    pub fn to_manager(&self) -> (manager: EnvManager)
        ensures
            manager@ == (EnvManagerView {
                executable: self.executable@,
                version: None,
                tool: EnvManagerType::Poetry,
            }),
    {
        EnvManager {
            executable: self.executable.clone(),
            version: None,
            tool: EnvManagerType::Poetry,
        }
    }
}

/// Whether a character is white space.
pub open spec fn is_space(c: char) -> bool {
    let code = c as u32;
    ||| 0x09 <= code <= 0x0d
    ||| code == 0x20
    ||| code == 0x85
    ||| code == 0xa0
    ||| code == 0x1680
    ||| 0x2000 <= code <= 0x200a
    ||| code == 0x2028
    ||| code == 0x2029
    ||| code == 0x202f
    ||| code == 0x205f
    ||| code == 0x3000
}

/// A text without the white space at its end.
pub open spec fn trim_end(text: Seq<char>) -> Seq<char>
    decreases text.len(),
{
    if text.len() > 0 && is_space(text.last()) {
        trim_end(text.drop_last())
    } else {
        text
    }
}

/// A text without the white space at its start.
pub open spec fn trim_start(text: Seq<char>) -> Seq<char>
    decreases text.len(),
{
    if text.len() > 0 && is_space(text[0]) {
        trim_start(text.drop_first())
    } else {
        text
    }
}

/// A text without the white space at either end.
pub open spec fn trimmed(text: Seq<char>) -> Seq<char> {
    trim_start(trim_end(text))
}

/// Whether `text` ends with `suffix`.
pub open spec fn ends_with_text(text: Seq<char>, suffix: Seq<char>) -> bool {
    suffix.len() <= text.len() && text.skip(text.len() - suffix.len()) == suffix
}

/// The mark that Poetry puts behind the environment in use.
pub open spec fn marker() -> Seq<char> {
    " (Activated)"@
}

/// A text without the marks at its end, however many there are.
pub open spec fn without_marker(text: Seq<char>) -> Seq<char>
    decreases text.len(),
{
    if marker().len() > 0 && ends_with_text(text, marker()) {
        without_marker(text.take(text.len() - marker().len()))
    } else {
        text
    }
}

/// A line of the listing without its mark and the white space around it.
pub open spec fn cleaned(line: Seq<char>) -> Seq<char> {
    trimmed(without_marker(line))
}

/// The paths that the lines of a listing name: of each line that is not
/// empty once cleaned, what cleaning it again leaves.
pub open spec fn listed_paths(lines: Seq<Seq<char>>) -> Seq<Seq<char>>
    decreases lines.len(),
{
    if lines.len() == 0 {
        Seq::<Seq<char>>::empty()
    } else {
        let before = listed_paths(lines.drop_last());
        let line = cleaned(lines.last());
        if line.len() > 0 {
            before.push(cleaned(line))
        } else {
            before
        }
    }
}

/// A line without the carriage return at its end, where it has one.
pub open spec fn without_return(line: Seq<char>) -> Seq<char> {
    if line.len() > 0 && line.last() == '\r' {
        line.drop_last()
    } else {
        line
    }
}

/// The lines of a text. A line ends with a line feed, or with a carriage
/// return followed by a line feed; neither belongs to the line. What comes
/// after the last line feed is a line too, taken as it is.
pub open spec fn lines(output: Seq<char>) -> Seq<Seq<char>> {
    let parts = split(output, '\n');
    Seq::new(
        parts.len(),
        |i: int|
            if i + 1 < parts.len() {
                without_return(parts[i])
            } else {
                parts[i]
            },
    )
}

/// The paths that a listing names, line by line.
pub open spec fn listing_paths(output: Seq<char>) -> Seq<Seq<char>> {
    listed_paths(lines(output))
}

fn strip_return(line: &Vec<char>) -> (out: Vec<char>)
    ensures
        out@ == without_return(line@),
{
    let end = if line.len() > 0 && line[line.len() - 1] == '\r' {
        line.len() - 1
    } else {
        line.len()
    };
    let mut out: Vec<char> = Vec::new();
    let mut i: usize = 0;
    while i < end
        invariant
            i <= end <= line@.len(),
            out@ == line@.take(i as int),
        decreases end - i,
    {
        out.push(line[i]);
        assert(line@.take(i + 1) =~= line@.take(i as int).push(line@[i as int]));
        i += 1;
    }
    assert(line@.take(line@.len() as int) =~= line@);
    assert(line@.take(line@.len() - 1) =~= line@.drop_last());
    out
}

fn is_space_char(c: char) -> (r: bool)
    ensures
        r == is_space(c),
{
    let code = c as u32;
    (0x09 <= code && code <= 0x0d) || code == 0x20 || code == 0x85 || code == 0xa0 || code
        == 0x1680 || (0x2000 <= code && code <= 0x200a) || code == 0x2028 || code == 0x2029
        || code == 0x202f || code == 0x205f || code == 0x3000
}

fn ends_with_marker(text: &Vec<char>, end: usize, mark: &Vec<char>) -> (r: bool)
    requires
        end <= text@.len(),
    ensures
        r == ends_with_text(text@.take(end as int), mark@),
{
    if mark.len() > end {
        return false;
    }
    let from = end - mark.len();
    let ghost head = text@.take(end as int);
    let mut k: usize = 0;
    while k < mark.len()
        invariant
            end <= text@.len(),
            mark@.len() <= end,
            from == end - mark@.len(),
            head == text@.take(end as int),
            k <= mark@.len(),
            forall|j: int| 0 <= j < k ==> text@[from + j] == mark@[j],
        decreases mark@.len() - k,
    {
        if text[from + k] != mark[k] {
            assert(head.skip(head.len() - mark@.len())[k as int] != mark@[k as int]);
            return false;
        }
        k += 1;
    }
    assert(head.skip(head.len() - mark@.len()) =~= mark@);
    true
}

/// A line without its marks and the white space around it.
pub fn clean_line(line: &Vec<char>) -> (out: Vec<char>)
    ensures
        out@ == cleaned(line@),
{
    let mark = to_chars(" (Activated)");
    proof {
        reveal_strlit(" (Activated)");
    }
    let mut end: usize = line.len();
    assert(line@.take(end as int) =~= line@);
    while ends_with_marker(line, end, &mark)
        invariant
            end <= line@.len(),
            mark@ == marker(),
            mark@.len() == 12,
            without_marker(line@) == without_marker(line@.take(end as int)),
        decreases end,
    {
        assert(line@.take(end as int).take(end - 12) =~= line@.take(end - 12));
        end -= mark.len();
    }
    let ghost unmarked = line@.take(end as int);
    assert(without_marker(line@) == unmarked);
    while end > 0 && is_space_char(line[end - 1])
        invariant
            end <= line@.len(),
            trim_end(unmarked) == trim_end(line@.take(end as int)),
        decreases end,
    {
        assert(line@.take(end as int).drop_last() =~= line@.take(end - 1));
        end -= 1;
    }
    let ghost tail_trimmed = line@.take(end as int);
    assert(trim_end(unmarked) == tail_trimmed);
    let mut start: usize = 0;
    assert(tail_trimmed.skip(0) =~= tail_trimmed);
    while start < end && is_space_char(line[start])
        invariant
            start <= end <= line@.len(),
            tail_trimmed == line@.take(end as int),
            trim_start(tail_trimmed) == trim_start(tail_trimmed.skip(start as int)),
        decreases end - start,
    {
        assert(tail_trimmed.skip(start as int).drop_first() =~= tail_trimmed.skip(start + 1));
        start += 1;
    }
    assert(trim_start(tail_trimmed) == tail_trimmed.skip(start as int));
    let mut out: Vec<char> = Vec::new();
    let mut i: usize = start;
    while i < end
        invariant
            start <= i <= end,
            end <= line@.len(),
            out@ == line@.subrange(start as int, i as int),
        decreases end - i,
    {
        out.push(line[i]);
        assert(line@.subrange(start as int, i + 1) =~= line@.subrange(start as int, i as int).push(
            line@[i as int],
        ));
        i += 1;
    }
    assert(out@ =~= tail_trimmed.skip(start as int));
    out
}

/// The environments of a project as Poetry lists them, with full paths.
///
/// `succeeded` says whether the listing command ran and reported success;
/// `output` is what it wrote. Each line names one environment; the line's
/// ending, the mark of the environment in use and surrounding white space
/// are no part of the name, and empty lines name nothing.
pub fn get_environments(succeeded: bool, output: &str) -> (found: Option<Vec<String>>)
    ensures
        found is Some <==> succeeded,
        found matches Some(paths) ==> strings(paths@) == listing_paths(output@),
{
    if !succeeded {
        return None;
    }
    let parts = split_text(&to_chars(output), '\n');
    let ghost shown = lines(output@);
    let mut paths: Vec<String> = Vec::new();
    let mut i: usize = 0;
    assert(shown.take(0) =~= Seq::<Seq<char>>::empty());
    assert(strings(paths@) =~= Seq::<Seq<char>>::empty());
    while i < parts.len()
        invariant
            texts(parts@) == split(output@, '\n'),
            shown == lines(output@),
            i <= parts@.len(),
            strings(paths@) == listed_paths(shown.take(i as int)),
        decreases parts@.len() - i,
    {
        assert(texts(parts@)[i as int] == parts@[i as int]@);
        let line = if i + 1 < parts.len() {
            clean_line(&strip_return(&parts[i]))
        } else {
            clean_line(&parts[i])
        };
        assert(shown.take(i + 1).drop_last() =~= shown.take(i as int));
        assert(line@ == cleaned(shown.take(i + 1).last()));
        let ghost before = strings(paths@);
        if line.len() > 0 {
            let path = string_of(&clean_line(&line));
            paths.push(path);
            assert(strings(paths@) =~= before.push(path@));
        }
        i += 1;
    }
    assert(shown.take(parts@.len() as int) =~= shown);
    Some(paths)
}

/// The environments that belong to one project directory.
#[derive(Clone, PartialEq, Eq, Debug)]
pub struct FolderEnvironments {
    pub project_dir: String,
    pub environments: Vec<String>,
}

/// What a list of folders with their environments says: for each project
/// directory, the environments of the entry that names it last.
pub open spec fn folder_map(list: Seq<FolderEnvironments>) -> Map<Seq<char>, Seq<Seq<char>>>
    decreases list.len(),
{
    if list.len() == 0 {
        Map::<Seq<char>, Seq<Seq<char>>>::empty()
    } else {
        folder_map(list.drop_last()).insert(
            list.last().project_dir@,
            strings(list.last().environments@),
        )
    }
}

/// Whether no project directory is named twice.
pub open spec fn distinct_folders(list: Seq<FolderEnvironments>) -> bool {
    forall|i: int, j: int|
        0 <= i < j < list.len() ==> (#[trigger] list[i]).project_dir@ != (
        #[trigger] list[j]).project_dir@
}

/// The text of an optional listing.
pub open spec fn opt_outputs(outputs: Seq<Option<String>>) -> Seq<Option<Seq<char>>> {
    Seq::new(outputs.len(), |i: int| opt_text(outputs[i]))
}

/// The environments of each project directory whose listing succeeded.
/// Where a directory is given twice, its last successful listing counts. A
/// directory that `outputs` does not reach has no listing.
pub open spec fn listed_by_folder(
    project_dirs: Seq<Seq<char>>,
    outputs: Seq<Option<Seq<char>>>,
) -> Map<Seq<char>, Seq<Seq<char>>>
    decreases project_dirs.len(),
{
    if project_dirs.len() == 0 {
        Map::<Seq<char>, Seq<Seq<char>>>::empty()
    } else {
        let before = listed_by_folder(project_dirs.drop_last(), outputs);
        let at = project_dirs.len() - 1;
        if at < outputs.len() && outputs[at] is Some {
            before.insert(project_dirs.last(), listing_paths(outputs[at]->0))
        } else {
            before
        }
    }
}

proof fn lemma_folder_map_replace(list: Seq<FolderEnvironments>, at: int, entry: FolderEnvironments)
    requires
        0 <= at < list.len(),
        distinct_folders(list),
        list[at].project_dir@ == entry.project_dir@,
    ensures
        folder_map(list.update(at, entry)) == folder_map(list).insert(
            entry.project_dir@,
            strings(entry.environments@),
        ),
        distinct_folders(list.update(at, entry)),
    decreases list.len(),
{
    let changed = list.update(at, entry);
    let init = list.drop_last();
    let key = entry.project_dir@;
    let value = strings(entry.environments@);
    assert forall|i: int, j: int| 0 <= i < j < changed.len() implies (
    #[trigger] changed[i]).project_dir@ != (#[trigger] changed[j]).project_dir@ by {
        assert(list[i].project_dir@ != list[j].project_dir@);
    }
    if at == list.len() - 1 {
        assert(changed.drop_last() =~= init);
        assert(folder_map(changed) =~= folder_map(list).insert(key, value));
    } else {
        assert(changed.drop_last() =~= init.update(at, entry));
        assert(changed.last() == list.last());
        assert(init[at] == list[at]);
        assert forall|i: int, j: int| 0 <= i < j < init.len() implies (
        #[trigger] init[i]).project_dir@ != (#[trigger] init[j]).project_dir@ by {
            assert(list[i].project_dir@ != list[j].project_dir@);
        }
        lemma_folder_map_replace(init, at, entry);
        assert(list[at].project_dir@ != list[list.len() - 1].project_dir@);
        assert(folder_map(changed) =~= folder_map(list).insert(key, value));
    }
}

/// The environments of several project directories, each from the listing
/// made in it.
///
/// `outputs` holds, for each directory in order, what the listing command
/// wrote where it succeeded. A directory whose listing failed is left out.
pub fn get_environments_for_folders(
    project_dirs: Vec<String>,
    outputs: &Vec<Option<String>>,
) -> (found: Vec<FolderEnvironments>)
    ensures
        folder_map(found@) == listed_by_folder(strings(project_dirs@), opt_outputs(outputs@)),
        distinct_folders(found@),
{
    let ghost dirs = strings(project_dirs@);
    let ghost given = opt_outputs(outputs@);
    let mut found: Vec<FolderEnvironments> = Vec::new();
    let mut i: usize = 0;
    assert(dirs.take(0) =~= Seq::<Seq<char>>::empty());
    while i < project_dirs.len()
        invariant
            dirs == strings(project_dirs@),
            given == opt_outputs(outputs@),
            i <= project_dirs@.len(),
            folder_map(found@) == listed_by_folder(dirs.take(i as int), given),
            distinct_folders(found@),
        decreases project_dirs@.len() - i,
    {
        assert(dirs.take(i + 1).drop_last() =~= dirs.take(i as int));
        assert(dirs.take(i + 1).last() == project_dirs@[i as int]@);
        if i < outputs.len() {
            match &outputs[i] {
                Some(output) => {
                    assert(given[i as int] == Some(output@));
                    let listed = get_environments(true, output.as_str());
                    let entry = FolderEnvironments {
                        project_dir: project_dirs[i].clone(),
                        environments: listed.unwrap(),
                    };
                    let ghost key = entry.project_dir@;
                    let mut at: usize = 0;
                    while at < found.len() && !same_str(
                        found[at].project_dir.as_str(),
                        entry.project_dir.as_str(),
                    )
                        invariant
                            at <= found@.len(),
                            key == entry.project_dir@,
                            forall|j: int|
                                0 <= j < at ==> (#[trigger] found@[j]).project_dir@ != key,
                        decreases found@.len() - at,
                    {
                        at += 1;
                    }
                    let ghost before = found@;
                    if at < found.len() {
                        proof {
                            lemma_folder_map_replace(before, at as int, entry);
                        }
                        found.set(at, entry);
                    } else {
                        found.push(entry);
                        assert(found@.drop_last() =~= before);
                        assert forall|a: int, b: int| 0 <= a < b < found@.len() implies (
                        #[trigger] found@[a]).project_dir@ != (
                        #[trigger] found@[b]).project_dir@ by {
                            if b < before.len() {
                                assert(before[a].project_dir@ != before[b].project_dir@);
                            } else {
                                assert(before[a].project_dir@ != key);
                            }
                        }
                    }
                },
                None => {
                    assert(given[i as int] is None);
                },
            }
        }
        i += 1;
    }
    assert(dirs.take(project_dirs@.len() as int) =~= dirs);
    found
}

/// The environment that Poetry keeps at `prefix` for the project at
/// `project_dir`, with its interpreter at `executable`.
pub fn poetry_environment(
    project_dir: &str,
    prefix: &str,
    executable: &str,
    manager: &PoetryManager,
) -> (env: PythonEnvironment)
    ensures
        env@ == (PythonEnvironmentView {
            category: PythonEnvironmentCategory::Poetry,
            executable: Some(executable@),
            prefix: Some(prefix@),
            version: None,
            manager: Some(
                EnvManagerView {
                    executable: manager.executable@,
                    version: None,
                    tool: EnvManagerType::Poetry,
                },
            ),
            symlinks: Some(seq![executable@]),
            times: None,
            project: Some(project_dir@),
        }),
{
    let mut symlinks: Vec<String> = Vec::new();
    symlinks.push(String::from_str(executable));
    assert(strings(symlinks@) =~= seq![executable@]);
    PythonEnvironment {
        category: PythonEnvironmentCategory::Poetry,
        executable: Some(String::from_str(executable)),
        prefix: Some(String::from_str(prefix)),
        version: None,
        manager: Some(manager.to_manager()),
        symlinks: Some(symlinks),
        times: None,
        project: Some(String::from_str(project_dir)),
    }
}

/// What a locator's own discovery found.
#[derive(Clone, PartialEq, Eq, Debug)]
pub struct LocatorResult {
    pub managers: Vec<EnvManager>,
    pub environments: Vec<PythonEnvironment>,
}

/// What a search found, as the contracts see it.
pub struct LocatorResultView {
    pub managers: Seq<EnvManagerView>,
    pub environments: Seq<PythonEnvironmentView>,
}

/// What a list of managers holds.
pub open spec fn managers(list: Seq<EnvManager>) -> Seq<EnvManagerView> {
    Seq::new(list.len(), |i: int| list[i]@)
}

impl View for LocatorResult {
    type V = LocatorResultView;

    open spec fn view(&self) -> LocatorResultView {
        LocatorResultView {
            managers: managers(self.managers@),
            environments: environments(self.environments@),
        }
    }
}

/// The view of an optional result.
pub open spec fn opt_result(result: Option<LocatorResult>) -> Option<LocatorResultView> {
    match result {
        Some(result) => Some(result@),
        None => None,
    }
}

impl LocatorResult {
    /// A copy of this result.
    pub fn duplicate(&self) -> (out: LocatorResult)
        ensures
            out@ == self@,
    {
        let mut copied: Vec<EnvManager> = Vec::new();
        let mut i: usize = 0;
        while i < self.managers.len()
            invariant
                i <= self.managers@.len(),
                copied@.len() == i,
                forall|k: int| 0 <= k < i ==> copied@[k]@ == self.managers@[k]@,
            decreases self.managers@.len() - i,
        {
            copied.push(self.managers[i].duplicate());
            i += 1;
        }
        assert(managers(copied@) =~= managers(self.managers@));
        LocatorResult { managers: copied, environments: copy_environments(&self.environments) }
    }
}

/// What a search amounts to: nothing where it found neither a manager nor
/// an environment.
pub open spec fn search_result_of(
    manager: Option<PoetryManager>,
    found: Seq<PythonEnvironmentView>,
) -> Option<LocatorResultView> {
    match manager {
        Some(manager) => Some(
            LocatorResultView {
                managers: seq![
                    EnvManagerView {
                        executable: manager.executable@,
                        version: None,
                        tool: EnvManagerType::Poetry,
                    },
                ],
                environments: found,
            },
        ),
        None => if found.len() == 0 {
            None
        } else {
            Some(
                LocatorResultView { managers: Seq::<EnvManagerView>::empty(), environments: found },
            )
        },
    }
}

/// The state of the Poetry locator: how it is configured, and what it
/// remembers of its one search.
pub struct PoetryView {
    pub project_directories: Seq<Seq<char>>,
    pub poetry_executable: Option<Seq<char>>,
    pub searched: bool,
    pub search_result: Option<LocatorResultView>,
}

/// The Poetry locator. It searches once and answers from what it found
/// until it is configured anew.
pub struct Poetry {
    project_directories: Vec<String>,
    poetry_executable: Option<String>,
    searched: bool,
    search_result: Option<LocatorResult>,
}

impl View for Poetry {
    type V = PoetryView;

    closed spec fn view(&self) -> PoetryView {
        PoetryView {
            project_directories: strings(self.project_directories@),
            poetry_executable: opt_text(self.poetry_executable),
            searched: self.searched,
            search_result: opt_result(self.search_result),
        }
    }
}

/// Whether an environment counts `executable` among its symlinks.
pub open spec fn claims(env: PythonEnvironmentView, executable: Seq<char>) -> bool {
    env.symlinks matches Some(links) && links.contains(executable)
}

/// Whether `i` is the first of the environments that claims `executable`.
pub open spec fn first_to_claim(
    found: Seq<PythonEnvironmentView>,
    executable: Seq<char>,
    i: int,
) -> bool {
    &&& 0 <= i < found.len()
    &&& claims(found[i], executable)
    &&& forall|j: int| 0 <= j < i ==> !claims(#[trigger] found[j], executable)
}

/// What the locator reports of what it remembers: every manager, then
/// every environment.
pub open spec fn reports_of_result(result: LocatorResultView) -> Seq<ReportView> {
    Seq::new(result.managers.len(), |i: int| ReportView::Manager(result.managers[i])) + Seq::new(
        result.environments.len(),
        |i: int| ReportView::Environment(result.environments[i]),
    )
}

fn lists_path(paths: &Vec<String>, path: &str) -> (r: bool)
    ensures
        r == strings(paths@).contains(path@),
{
    let mut i: usize = 0;
    while i < paths.len()
        invariant
            i <= paths@.len(),
            forall|j: int| 0 <= j < i ==> strings(paths@)[j] != path@,
        decreases paths@.len() - i,
    {
        if same_str(paths[i].as_str(), path) {
            assert(strings(paths@)[i as int] == path@);
            return true;
        }
        i += 1;
    }
    false
}

impl Poetry {
    /// A locator that is not configured and has not searched.
    pub fn new() -> (poetry: Poetry)
        ensures
            poetry@ == (PoetryView {
                project_directories: Seq::<Seq<char>>::empty(),
                poetry_executable: None,
                searched: false,
                search_result: None,
            }),
    {
        let project_directories: Vec<String> = Vec::new();
        assert(strings(project_directories@) =~= Seq::<Seq<char>>::empty());
        Poetry {
            project_directories,
            poetry_executable: None,
            searched: false,
            search_result: None,
        }
    }

    /// The same as `new`.
    pub fn from() -> (poetry: Poetry)
        ensures
            poetry@ == (PoetryView {
                project_directories: Seq::<Seq<char>>::empty(),
                poetry_executable: None,
                searched: false,
                search_result: None,
            }),
    {
        Poetry::new()
    }

    /// The name of the locator.
    pub fn get_name(&self) -> (name: &'static str)
        ensures
            name@ == "Poetry"@,
    {
        "Poetry"
    }

    /// The directories of the projects whose environments are looked for.
    pub fn project_directories(&self) -> (dirs: Vec<String>)
        ensures
            strings(dirs@) == self@.project_directories,
    {
        copy_strings(&self.project_directories)
    }

    /// The executable that the caller said Poetry is at.
    pub fn poetry_executable(&self) -> (executable: Option<String>)
        ensures
            opt_text(executable) == self@.poetry_executable,
    {
        copy_opt(&self.poetry_executable)
    }

    /// Takes a configuration: project directories and an executable each
    /// replace what was there, where the configuration names any. Whatever
    /// was remembered of a search is forgotten.
    pub fn configure(&mut self, config: &Configuration)
        ensures
            final(self)@ == (PoetryView {
                project_directories: match config.project_directories {
                    Some(dirs) => strings(dirs@),
                    None => old(self)@.project_directories,
                },
                poetry_executable: match config.poetry_executable {
                    Some(executable) => Some(executable@),
                    None => old(self)@.poetry_executable,
                },
                searched: false,
                search_result: None,
            }),
    {
        match &config.project_directories {
            Some(dirs) => {
                self.project_directories = copy_strings(dirs);
            },
            None => {},
        }
        match &config.poetry_executable {
            Some(executable) => {
                self.poetry_executable = Some(executable.clone());
            },
            None => {},
        }
        self.searched = false;
        self.search_result = None;
    }

    /// The categories that the locator resolves.
    pub fn supported_categories(&self) -> (categories: Vec<PythonEnvironmentCategory>)
        ensures
            categories@ == seq![PythonEnvironmentCategory::Poetry],
    {
        let mut categories: Vec<PythonEnvironmentCategory> = Vec::new();
        categories.push(PythonEnvironmentCategory::Poetry);
        categories
    }

    /// Whether the locator has yet to search.
    pub fn needs_search(&self) -> (r: bool)
        ensures
            r == !self@.searched,
    {
        !self.searched
    }

    /// What the locator found. The first call takes what a search has just
    /// found, the manager and the environments, and remembers it; every
    /// later call answers from that and does not look at what it is given.
    pub fn find_with_cache(
        &mut self,
        manager: Option<PoetryManager>,
        found: Vec<PythonEnvironment>,
    ) -> (result: Option<LocatorResult>)
        ensures
            old(self)@.searched ==> final(self)@ == old(self)@ && opt_result(result) == old(
                self,
            )@.search_result,
            !old(self)@.searched ==> final(self)@ == (PoetryView {
                searched: true,
                search_result: search_result_of(manager, environments(found@)),
                ..old(self)@
            }) && opt_result(result) == search_result_of(manager, environments(found@)),
    {
        if self.searched {
            return match &self.search_result {
                Some(result) => Some(result.duplicate()),
                None => None,
            };
        }
        let mut reported: Vec<EnvManager> = Vec::new();
        match &manager {
            Some(manager) => {
                reported.push(manager.to_manager());
                assert(managers(reported@) =~= seq![
                    EnvManagerView {
                        executable: manager.executable@,
                        version: None,
                        tool: EnvManagerType::Poetry,
                    },
                ]);
            },
            None => {
                assert(managers(reported@) =~= Seq::<EnvManagerView>::empty());
            },
        }
        self.searched = true;
        if reported.len() == 0 && found.len() == 0 {
            self.search_result = None;
            None
        } else {
            let result = LocatorResult { managers: reported, environments: found };
            self.search_result = Some(result.duplicate());
            Some(result)
        }
    }

    /// The environment of an executable, from what the locator remembers:
    /// the first environment found that counts the executable among its
    /// symlinks. `is_virtualenv` says whether the executable lies in a
    /// virtual environment at all; one that does not is never Poetry's.
    pub fn try_from(&self, env: &PythonEnv, is_virtualenv: bool) -> (out: Option<PythonEnvironment>)
        ensures
            match out {
                Some(found) => is_virtualenv && self@.search_result is Some && exists|i: int|
                    #[trigger] first_to_claim(
                        self@.search_result->0.environments,
                        env@.executable,
                        i,
                    ) && found@ == self@.search_result->0.environments[i],
                None => !is_virtualenv || self@.search_result is None || forall|i: int|
                    0 <= i < self@.search_result->0.environments.len() ==> !claims(
                        #[trigger] self@.search_result->0.environments[i],
                        env@.executable,
                    ),
            },
    {
        if !is_virtualenv {
            return None;
        }
        match &self.search_result {
            Some(result) => {
                let ghost shown = environments(result.environments@);
                let mut i: usize = 0;
                while i < result.environments.len()
                    invariant
                        is_virtualenv,
                        shown == environments(result.environments@),
                        self@.search_result == Some(result@),
                        i <= result.environments@.len(),
                        forall|j: int| 0 <= j < i ==> !claims(#[trigger] shown[j], env@.executable),
                    decreases result.environments@.len() - i,
                {
                    let claimed = match &result.environments[i].symlinks {
                        Some(links) => lists_path(links, env.executable.as_str()),
                        None => false,
                    };
                    assert(claimed == claims(shown[i as int], env@.executable));
                    if claimed {
                        let found = result.environments[i].duplicate();
                        assert(self@.search_result->0.environments == shown);
                        assert(first_to_claim(shown, env@.executable, i as int) && found@
                            == shown[i as int]);
                        return Some(found);
                    }
                    i += 1;
                }
                None
            },
            None => None,
        }
    }

    /// Reports what the locator remembers: every manager, then every
    /// environment.
    pub fn find<R: Reporter>(&self, reporter: &mut R)
        ensures
            match self@.search_result {
                Some(result) => delivered(
                    *old(reporter),
                    reports_of_result(result),
                    *final(reporter),
                ),
                None => *final(reporter) == *old(reporter),
            },
    {
        match &self.search_result {
            Some(result) => {
                let ghost start = *reporter;
                let ghost shown = result@;
                let ghost first = Seq::new(
                    shown.managers.len(),
                    |i: int| ReportView::Manager(shown.managers[i]),
                );
                let ghost second = Seq::new(
                    shown.environments.len(),
                    |i: int| ReportView::Environment(shown.environments[i]),
                );
                let mut i: usize = 0;
                assert(first.take(0) =~= Seq::<ReportView>::empty());
                while i < result.managers.len()
                    invariant
                        shown == result@,
                        first == Seq::new(
                            shown.managers.len(),
                            |i: int| ReportView::Manager(shown.managers[i]),
                        ),
                        i <= result.managers@.len(),
                        delivered(start, first.take(i as int), *reporter),
                    decreases result.managers@.len() - i,
                {
                    let ghost before = *reporter;
                    reporter.report_manager(&result.managers[i]);
                    proof {
                        lemma_delivered_push(
                            start,
                            first.take(i as int),
                            before,
                            ReportView::Manager(result.managers@[i as int]@),
                            *reporter,
                        );
                        assert(first.take(i + 1) =~= first.take(i as int).push(
                            ReportView::Manager(result.managers@[i as int]@),
                        ));
                    }
                    i += 1;
                }
                assert(first.take(result.managers@.len() as int) =~= first);
                let mut k: usize = 0;
                assert(first + second.take(0) =~= first);
                while k < result.environments.len()
                    invariant
                        shown == result@,
                        second == Seq::new(
                            shown.environments.len(),
                            |i: int| ReportView::Environment(shown.environments[i]),
                        ),
                        k <= result.environments@.len(),
                        delivered(start, first + second.take(k as int), *reporter),
                    decreases result.environments@.len() - k,
                {
                    let ghost before = *reporter;
                    reporter.report_environment(&result.environments[k]);
                    proof {
                        lemma_delivered_push(
                            start,
                            first + second.take(k as int),
                            before,
                            ReportView::Environment(result.environments@[k as int]@),
                            *reporter,
                        );
                        assert(first + second.take(k + 1) =~= (first + second.take(k as int)).push(
                            ReportView::Environment(result.environments@[k as int]@),
                        ));
                    }
                    k += 1;
                }
                assert(second.take(result.environments@.len() as int) =~= second);
            },
            None => {},
        }
    }
}

} // verus!
