//! Candidate interpreter executables: which file names count, which
//! directories are worth entering, and which of several paths to show.

use regex::Regex;
use vstd::prelude::*;
use vstd::string::*;

use crate::environment::opt_texts;
use crate::paths::{
    components, ends_with, file_name, joined, path_ends_with, path_join, split_components,
};
use crate::platform::{bin_dir_name, python3_name, python_name, Platform};
use crate::text::{has_prefix, same_text, starts_with, string_of, strings, to_chars};

verus! {

/// The compiled regular expressions of the `regex` crate.
#[verifier::external_type_specification]
#[verifier::external_body]
pub struct ExRegex(regex::Regex);

/// Whether `pattern` is a regular expression that compiles.
pub uninterp spec fn regex_compiles(pattern: Seq<char>) -> bool;

/// Whether some part of `haystack` matches the regular expression
/// `pattern`.
pub uninterp spec fn regex_finds(pattern: Seq<char>, haystack: Seq<char>) -> bool;

/// A regular expression, compiled, with the pattern it was compiled from.
/// A value is made by compiling and in no other way, so the two belong
/// together.
pub struct Expression {
    pattern: String,
    compiled: Regex,
}

impl View for Expression {
    type V = Seq<char>;

    /// The pattern of the expression.
    closed spec fn view(&self) -> Seq<char> {
        self.pattern@
    }
}

/// Compiles a pattern.
///
/// Trusted: the body is `regex::Regex::new`, which gives the compiled
/// expression or an error. The contract claims that whether a pattern
/// compiles depends on the pattern alone, and that the value returned
/// carries the pattern it was given; it does not say which patterns compile.
#[verifier::external_body]
fn compile(pattern: &str) -> (compiled: Option<Expression>)
    ensures
        compiled is Some <==> regex_compiles(pattern@),
        compiled matches Some(expression) ==> expression@ == pattern@,
{
    match Regex::new(pattern) {
        Ok(compiled) => Some(Expression { pattern: pattern.to_string(), compiled }),
        Err(_) => None,
    }
}

/// Searches a text for an expression.
///
/// Trusted: the body is `regex::Regex::is_match`, which tells whether there
/// is a match for the expression anywhere in the text. The contract claims
/// only that the outcome is a function of the pattern and the text; it does
/// not say which texts match.
#[verifier::external_body]
fn is_match(expression: &Expression, haystack: &str) -> (found: bool)
    ensures
        found == regex_finds(expression@, haystack@),
{
    expression.compiled.is_match(haystack)
}

/// A text in lower case, as Unicode defines it.
pub uninterp spec fn lowercase(text: Seq<char>) -> Seq<char>;

/// Folds a text to lower case.
///
/// Trusted: the body is `str::to_lowercase` of the standard library, which
/// gives the lowercase equivalent of the text by the rules of Unicode. The
/// contract claims only that the outcome is a function of the text; it does
/// not say what the lower case of any text is.
#[verifier::external_body]
fn to_lowercase(text: &str) -> (folded: String)
    ensures
        folded@ == lowercase(text@),
{
    text.to_lowercase()
}

/// The expression that a file name, folded to lower case, is searched for.
pub open spec fn executable_pattern(platform: Platform) -> Seq<char> {
    if platform is Windows {
        r"python(\d+\.?)*.exe"@
    } else {
        r"python(\d+\.?)*$"@
    }
}

/// What searching a text for a pattern gives: nothing where the pattern
/// does not compile, else whether it was found.
pub open spec fn searched_for(pattern: Seq<char>, haystack: Seq<char>) -> Option<bool> {
    if regex_compiles(pattern) {
        Some(regex_finds(pattern, haystack))
    } else {
        None
    }
}

/// Whether a file of this name is taken for an interpreter, given whether
/// the folded name begins with `python` and what the search for the
/// platform's expression gave.
pub open spec fn name_accepted(has_prefix: bool, searched: Option<bool>) -> bool {
    has_prefix && searched == Some(true)
}

/// Whether a file name is that of an interpreter: folded to lower case it
/// begins with `python` and the platform's expression is found in it.
pub open spec fn is_python_name(name: Seq<char>, platform: Platform) -> bool {
    let folded = lowercase(name);
    name_accepted(
        starts_with(folded, "python"@),
        searched_for(executable_pattern(platform), folded),
    )
}

/// Whether a file name is taken for an interpreter's, from the two facts
/// that decide it.
pub fn accepts_name(has_prefix: bool, searched: Option<bool>) -> (r: bool)
    ensures
        r == name_accepted(has_prefix, searched),
{
    if !has_prefix {
        return false;
    }
    match searched {
        Some(found) => found,
        None => false,
    }
}

/// The expression for the names of interpreters on a platform, compiled.
fn executable_expression(platform: Platform) -> (compiled: Option<Expression>)
    ensures
        compiled is Some <==> regex_compiles(executable_pattern(platform)),
        compiled matches Some(expression) ==> expression@ == executable_pattern(platform),
{
    if platform.is_windows() {
        compile(r"python(\d+\.?)*.exe")
    } else {
        compile(r"python(\d+\.?)*$")
    }
}

/// Whether the last component of `exe` names an interpreter, by an
/// expression that is compiled already.
fn names_interpreter(exe: &str, expression: &Option<Expression>, platform: Platform) -> (r: bool)
    requires
        expression is Some <==> regex_compiles(executable_pattern(platform)),
        expression matches Some(compiled) ==> compiled@ == executable_pattern(platform),
    ensures
        r == is_python_name(file_name(exe@, platform), platform),
{
    let parts = split_components(&to_chars(exe), platform);
    let name = if parts.len() == 0 {
        let empty = String::new();
        assert(file_name(exe@, platform) =~= empty@);
        empty
    } else {
        string_of(&parts[parts.len() - 1])
    };
    let folded = to_lowercase(name.as_str());
    let prefixed = has_prefix(&to_chars(folded.as_str()), &to_chars("python"));
    if !prefixed {
        return false;
    }
    let searched = match expression {
        Some(compiled) => Some(is_match(compiled, folded.as_str())),
        None => None,
    };
    accepts_name(prefixed, searched)
}

/// Whether the last component of `exe` is the name of an interpreter.
pub fn is_python_executable_name(exe: &str, platform: Platform) -> (r: bool)
    ensures
        r == is_python_name(file_name(exe@, platform), platform),
{
    let expression = executable_expression(platform);
    names_interpreter(exe, &expression, platform)
}

/// The names of directories that hold no environments of their own:
/// version-control metadata, dependency and test caches, and the
/// directories of executables themselves.
pub open spec fn ignored_folder_names() -> Set<Seq<char>> {
    set![
        "node_modules"@,
        ".git"@,
        ".tox"@,
        ".nox"@,
        ".hypothesis"@,
        ".ipynb_checkpoints"@,
        ".eggs"@,
        ".coverage"@,
        ".cache"@,
        ".pyre"@,
        ".ptype"@,
        ".pytest_cache"@,
        "__pycache__"@,
        "__pypackages__"@,
        ".mypy_cache"@,
        "cython_debug"@,
        "env.bak"@,
        "venv.bak"@,
        "Scripts"@,
        "bin"@,
    ]
}

/// Whether the directory at `path` is one of those by its own name.
pub open spec fn is_ignored_folder(path: Seq<char>, platform: Platform) -> bool {
    components(path, platform).len() > 0 && ignored_folder_names().contains(
        components(path, platform).last(),
    )
}

fn is_name(text: &Vec<char>, name: &str) -> (r: bool)
    ensures
        r == (text@ == name@),
{
    same_text(text, &to_chars(name))
}

/// Whether a recursive search may enter the directory at `path`.
pub fn should_search_for_environments_in_path(path: &str, platform: Platform) -> (r: bool)
    ensures
        r == !is_ignored_folder(path@, platform),
{
    let parts = split_components(&to_chars(path), platform);
    if parts.len() == 0 {
        return true;
    }
    let last = &parts[parts.len() - 1];
    assert(last@ == components(path@, platform).last());
    let ignored = is_name(last, "node_modules") || is_name(last, ".git") || is_name(last, ".tox")
        || is_name(last, ".nox") || is_name(last, ".hypothesis") || is_name(
        last,
        ".ipynb_checkpoints",
    ) || is_name(last, ".eggs") || is_name(last, ".coverage") || is_name(last, ".cache")
        || is_name(last, ".pyre") || is_name(last, ".ptype") || is_name(last, ".pytest_cache")
        || is_name(last, "__pycache__") || is_name(last, "__pypackages__") || is_name(
        last,
        ".mypy_cache",
    ) || is_name(last, "cython_debug") || is_name(last, "env.bak") || is_name(last, "venv.bak")
        || is_name(last, "Scripts") || is_name(last, "bin");
    !ignored
}

/// The length of a text in bytes of UTF-8.
pub open spec fn byte_len(text: Seq<char>) -> nat {
    vstd::utf8::encode_utf8(text).len()
}

fn byte_length(text: &str) -> (n: usize)
    ensures
        n == byte_len(text@),
{
    text.as_bytes().len()
}

/// Whether `i` is the first position of a shortest path in `paths`.
pub open spec fn is_first_shortest(paths: Seq<Seq<char>>, i: int) -> bool {
    &&& 0 <= i < paths.len()
    &&& forall|j: int| 0 <= j < paths.len() ==> byte_len(paths[i]) <= byte_len(#[trigger] paths[j])
    &&& forall|j: int| 0 <= j < i ==> byte_len(paths[i]) < byte_len(#[trigger] paths[j])
}

/// Of several paths to one interpreter, the shortest, which is the most
/// likely to be the one a user would type; the earliest of them where
/// several are equally short.
pub fn get_shortest_executable(exes: &Option<Vec<String>>) -> (r: Option<String>)
    ensures
        r is Some <==> (exes matches Some(list) && list@.len() > 0),
        r matches Some(shortest) ==> exists|i: int|
            #![trigger exes->0@[i]]
            is_first_shortest(strings(exes->0@), i) && shortest@ == exes->0@[i]@,
{
    match exes {
        None => None,
        Some(list) => {
            if list.len() == 0 {
                return None;
            }
            let ghost paths = strings(list@);
            let mut best: usize = 0;
            let mut best_len: usize = byte_length(list[0].as_str());
            let mut i: usize = 1;
            while i < list.len()
                invariant
                    paths == strings(list@),
                    1 <= i <= list@.len(),
                    0 <= best < i,
                    best_len == byte_len(paths[best as int]),
                    forall|j: int|
                        0 <= j < i ==> byte_len(paths[best as int]) <= byte_len(
                            #[trigger] paths[j],
                        ),
                    forall|j: int|
                        0 <= j < best ==> byte_len(paths[best as int]) < byte_len(
                            #[trigger] paths[j],
                        ),
                decreases list@.len() - i,
            {
                let len = byte_length(list[i].as_str());
                if len < best_len {
                    best = i;
                    best_len = len;
                }
                i += 1;
            }
            assert(is_first_shortest(paths, best as int));
            Some(list[best].clone())
        },
    }
}

/// The places where an environment's root may keep its interpreter, in the
/// order in which they are preferred.
pub open spec fn candidate_paths(root: Seq<char>, platform: Platform) -> Seq<Seq<char>> {
    let bin = joined(root, bin_dir_name(platform), platform);
    seq![
        joined(bin, python_name(platform), platform),
        joined(bin, python3_name(platform), platform),
        joined(root, python_name(platform), platform),
        joined(root, python3_name(platform), platform),
    ]
}

/// Whether `k` is the first candidate that is present.
pub open spec fn is_first_present(present: Seq<bool>, k: int) -> bool {
    &&& 0 <= k < 4
    &&& k < present.len()
    &&& present[k]
    &&& forall|j: int| 0 <= j < k ==> !present[j]
}

/// The places to probe for the interpreter of the environment at `env_path`.
pub fn executable_candidates(env_path: &str, platform: Platform) -> (out: Vec<String>)
    ensures
        strings(out@) == candidate_paths(env_path@, platform),
{
    let bin = path_join(env_path, platform.bin_dir(), platform);
    let mut out: Vec<String> = Vec::new();
    out.push(path_join(bin.as_str(), platform.python(), platform));
    out.push(path_join(bin.as_str(), platform.python3(), platform));
    out.push(path_join(env_path, platform.python(), platform));
    out.push(path_join(env_path, platform.python3(), platform));
    assert(strings(out@) =~= candidate_paths(env_path@, platform));
    out
}

/// The interpreter of the environment at `env_path`: the first of the
/// candidates that is there. `present` tells of each candidate, in order,
/// whether the file system has it; a candidate it does not reach counts as
/// absent.
pub fn find_executable(env_path: &str, platform: Platform, present: &Vec<bool>) -> (r: Option<
    String,
>)
    ensures
        match r {
            Some(path) => exists|k: int|
                #[trigger] is_first_present(present@, k) && path@ == candidate_paths(
                    env_path@,
                    platform,
                )[k],
            None => forall|k: int| 0 <= k < 4 && k < present@.len() ==> !present@[k],
        },
{
    let candidates = executable_candidates(env_path, platform);
    assert(strings(candidates@).len() == 4);
    let mut k: usize = 0;
    while k < 4 && k < present.len()
        invariant
            k <= 4,
            k <= present@.len(),
            candidates@.len() == 4,
            strings(candidates@) == candidate_paths(env_path@, platform),
            forall|j: int| 0 <= j < k ==> !present@[j],
        decreases 4 - k,
    {
        if present[k] {
            assert(is_first_present(present@, k as int));
            assert(strings(candidates@)[k as int] == candidates@[k as int]@);
            return Some(candidates[k].clone());
        }
        k += 1;
    }
    None
}

/// Whether a directory is one whose entries are never interpreters: the
/// shims of a version manager, or a file-system artefact.
pub open spec fn is_shim_directory(path: Seq<char>, platform: Platform) -> bool {
    ends_with(path, ".pyenv/shims"@, platform) || ends_with(path, ".DS_Store"@, platform)
}

/// The entries of a directory that bear an interpreter's name, in order.
pub open spec fn python_entries(entries: Seq<Seq<char>>, platform: Platform) -> Seq<Seq<char>>
    decreases entries.len(),
{
    if entries.len() == 0 {
        Seq::<Seq<char>>::empty()
    } else {
        let before = python_entries(entries.drop_last(), platform);
        if is_python_name(file_name(entries.last(), platform), platform) {
            before.push(entries.last())
        } else {
            before
        }
    }
}

/// The entries of a directory that bear an interpreter's name.
pub fn keep_python_entries(entries: &Vec<String>, platform: Platform) -> (out: Vec<String>)
    ensures
        strings(out@) == python_entries(strings(entries@), platform),
{
    let ghost shown = strings(entries@);
    let expression = executable_expression(platform);
    let mut out: Vec<String> = Vec::new();
    let mut i: usize = 0;
    assert(shown.take(0) =~= Seq::<Seq<char>>::empty());
    assert(strings(out@) =~= Seq::<Seq<char>>::empty());
    while i < entries.len()
        invariant
            shown == strings(entries@),
            expression is Some <==> regex_compiles(executable_pattern(platform)),
            expression matches Some(compiled) ==> compiled@ == executable_pattern(platform),
            i <= entries@.len(),
            strings(out@) == python_entries(shown.take(i as int), platform),
        decreases entries@.len() - i,
    {
        assert(shown.take(i + 1).drop_last() =~= shown.take(i as int));
        assert(shown.take(i + 1).last() == entries@[i as int]@);
        let ghost before = strings(out@);
        if names_interpreter(entries[i].as_str(), &expression, platform) {
            out.push(entries[i].clone());
            assert(strings(out@) =~= before.push(entries@[i as int]@));
        }
        i += 1;
    }
    assert(shown.take(entries@.len() as int) =~= shown);
    out
}

/// What a search of a directory waits to learn.
#[derive(Clone, Copy, Debug, PartialEq, Eq, Structural)]
pub enum Stage {
    /// Whether the root holds a directory of executables.
    Bin,
    /// Whether the directory holds the canonical interpreter.
    Python,
    /// Whether the directory holds the canonical version 3 interpreter.
    Python3,
    /// What the directory holds.
    Listing,
    /// Nothing more.
    Done,
}

/// What a search asks of the file system next.
#[derive(Clone, Debug, PartialEq, Eq)]
pub enum Request {
    /// Whether anything exists at this path.
    Exists(String),
    /// The paths of the entries of this directory: the expensive question.
    List(String),
    /// Nothing: the search is over.
    Nothing,
}

/// A request as the contracts see it.
pub enum RequestView {
    Exists(Seq<char>),
    List(Seq<char>),
    Nothing,
}

impl View for Request {
    type V = RequestView;

    open spec fn view(&self) -> RequestView {
        match self {
            Request::Exists(path) => RequestView::Exists(path@),
            Request::List(dir) => RequestView::List(dir@),
            Request::Nothing => RequestView::Nothing,
        }
    }
}

/// A search of one global root for interpreters, which asks the file
/// system one question at a time and lists a directory only where that is
/// likely to pay.
#[derive(Clone, Debug, PartialEq, Eq)]
pub struct ExecutableSearch {
    pub platform: Platform,
    pub stage: Stage,
    /// The directory looked into: the root, or its directory of executables.
    pub dir: String,
    /// The interpreters found, once the search is over.
    pub found: Vec<String>,
}

/// The state of a search as the contracts see it.
pub struct ExecutableSearchView {
    pub platform: Platform,
    pub stage: Stage,
    pub dir: Seq<char>,
    pub found: Seq<Seq<char>>,
}

impl View for ExecutableSearch {
    type V = ExecutableSearchView;

    open spec fn view(&self) -> ExecutableSearchView {
        ExecutableSearchView {
            platform: self.platform,
            stage: self.stage,
            dir: self.dir@,
            found: strings(self.found@),
        }
    }
}

/// The search of `root` before any question is answered: over at once for
/// a directory of shims.
pub open spec fn search_started(root: Seq<char>, platform: Platform) -> ExecutableSearchView {
    ExecutableSearchView {
        platform,
        stage: if is_shim_directory(root, platform) {
            Stage::Done
        } else {
            Stage::Bin
        },
        dir: root,
        found: Seq::<Seq<char>>::empty(),
    }
}

/// The question a search asks in its present state.
pub open spec fn request_of(search: ExecutableSearchView) -> RequestView {
    match search.stage {
        Stage::Bin => RequestView::Exists(
            joined(search.dir, bin_dir_name(search.platform), search.platform),
        ),
        Stage::Python => RequestView::Exists(
            joined(search.dir, python_name(search.platform), search.platform),
        ),
        Stage::Python3 => RequestView::Exists(
            joined(search.dir, python3_name(search.platform), search.platform),
        ),
        Stage::Listing => RequestView::List(search.dir),
        Stage::Done => RequestView::Nothing,
    }
}

/// Whether the directory of a search is named as directories of
/// executables are.
pub open spec fn in_bin_directory(search: ExecutableSearchView) -> bool {
    ends_with(search.dir, bin_dir_name(search.platform), search.platform)
}

/// The search once it has learned whether the path it asked about exists.
///
/// A directory of executables under the root takes the root's place. The
/// directory is listed if it holds one of the two canonical interpreters,
/// or if it is itself named as directories of executables are; otherwise
/// the search ends with nothing found and the directory unread.
pub open spec fn after_exists(search: ExecutableSearchView, present: bool) -> ExecutableSearchView {
    match search.stage {
        Stage::Bin => ExecutableSearchView {
            stage: Stage::Python,
            dir: if present {
                joined(search.dir, bin_dir_name(search.platform), search.platform)
            } else {
                search.dir
            },
            ..search
        },
        Stage::Python => ExecutableSearchView {
            stage: if present {
                Stage::Listing
            } else {
                Stage::Python3
            },
            ..search
        },
        Stage::Python3 => ExecutableSearchView {
            stage: if present || in_bin_directory(search) {
                Stage::Listing
            } else {
                Stage::Done
            },
            ..search
        },
        _ => search,
    }
}

/// The search once it has been given the entries of its directory, or told
/// that the directory cannot be read.
pub open spec fn after_listing(
    search: ExecutableSearchView,
    entries: Option<Seq<Seq<char>>>,
) -> ExecutableSearchView {
    match search.stage {
        Stage::Listing => ExecutableSearchView {
            stage: Stage::Done,
            found: match entries {
                Some(list) => python_entries(list, search.platform),
                None => Seq::<Seq<char>>::empty(),
            },
            ..search
        },
        _ => search,
    }
}

/// Begins the search of a global root for interpreters.
pub fn find_executables(env_path: &str, platform: Platform) -> (search: ExecutableSearch)
    ensures
        search@ == search_started(env_path@, platform),
{
    let shims = path_ends_with(env_path, ".pyenv/shims", platform) || path_ends_with(
        env_path,
        ".DS_Store",
        platform,
    );
    let found: Vec<String> = Vec::new();
    assert(strings(found@) =~= Seq::<Seq<char>>::empty());
    ExecutableSearch {
        platform,
        stage: if shims {
            Stage::Done
        } else {
            Stage::Bin
        },
        dir: String::from_str(env_path),
        found,
    }
}

impl ExecutableSearch {
    /// What the search needs to know next.
    pub fn request(&self) -> (request: Request)
        ensures
            request@ == request_of(self@),
    {
        match self.stage {
            Stage::Bin => Request::Exists(
                path_join(self.dir.as_str(), self.platform.bin_dir(), self.platform),
            ),
            Stage::Python => Request::Exists(
                path_join(self.dir.as_str(), self.platform.python(), self.platform),
            ),
            Stage::Python3 => Request::Exists(
                path_join(self.dir.as_str(), self.platform.python3(), self.platform),
            ),
            Stage::Listing => Request::List(self.dir.clone()),
            Stage::Done => Request::Nothing,
        }
    }

    /// Takes the answer to an `Exists` request. In a state that asked no
    /// such question the answer is ignored.
    pub fn answer_exists(self, present: bool) -> (next: ExecutableSearch)
        ensures
            next@ == after_exists(self@, present),
    {
        match self.stage {
            Stage::Bin => {
                let dir = if present {
                    path_join(self.dir.as_str(), self.platform.bin_dir(), self.platform)
                } else {
                    self.dir
                };
                ExecutableSearch {
                    platform: self.platform,
                    stage: Stage::Python,
                    dir,
                    found: self.found,
                }
            },
            Stage::Python => ExecutableSearch {
                platform: self.platform,
                stage: if present {
                    Stage::Listing
                } else {
                    Stage::Python3
                },
                dir: self.dir,
                found: self.found,
            },
            Stage::Python3 => {
                let list = present || path_ends_with(
                    self.dir.as_str(),
                    self.platform.bin_dir(),
                    self.platform,
                );
                ExecutableSearch {
                    platform: self.platform,
                    stage: if list {
                        Stage::Listing
                    } else {
                        Stage::Done
                    },
                    dir: self.dir,
                    found: self.found,
                }
            },
            _ => self,
        }
    }

    /// Takes the answer to a `List` request: the paths of the directory's
    /// entries, or `None` where it could not be read. In a state that asked
    /// no such question the answer is ignored.
    pub fn answer_listing(self, entries: Option<Vec<String>>) -> (next: ExecutableSearch)
        ensures
            next@ == after_listing(self@, opt_texts(entries)),
    {
        match self.stage {
            Stage::Listing => {
                let found = match &entries {
                    Some(list) => keep_python_entries(list, self.platform),
                    None => {
                        let none: Vec<String> = Vec::new();
                        assert(strings(none@) =~= Seq::<Seq<char>>::empty());
                        none
                    },
                };
                ExecutableSearch {
                    platform: self.platform,
                    stage: Stage::Done,
                    dir: self.dir,
                    found,
                }
            },
            _ => self,
        }
    }

    /// Whether the search is over.
    pub fn is_done(&self) -> (r: bool)
        ensures
            r == (self@.stage is Done),
    {
        match self.stage {
            Stage::Done => true,
            _ => false,
        }
    }

    /// The interpreters found.
    pub fn into_executables(self) -> (found: Vec<String>)
        ensures
            strings(found@) == self@.found,
    {
        self.found
    }
}

/// The search once a file system has answered the question it asks: `present`
/// tells what is there, `entries` what a directory holds.
pub open spec fn answered(
    search: ExecutableSearchView,
    present: spec_fn(Seq<char>) -> bool,
    entries: spec_fn(Seq<char>) -> Option<Seq<Seq<char>>>,
) -> ExecutableSearchView {
    match request_of(search) {
        RequestView::Exists(path) => after_exists(search, present(path)),
        RequestView::List(dir) => after_listing(search, entries(dir)),
        RequestView::Nothing => search,
    }
}

/// The directory that the search of `root` looks into: the root's
/// directory of executables where it has one, else the root.
pub open spec fn search_directory(
    root: Seq<char>,
    platform: Platform,
    present: spec_fn(Seq<char>) -> bool,
) -> Seq<char> {
    if present(joined(root, bin_dir_name(platform), platform)) {
        joined(root, bin_dir_name(platform), platform)
    } else {
        root
    }
}

/// Whether the search of `root` reads a directory at all: only where the
/// directory it looks into holds a canonical interpreter or is itself
/// named as directories of executables are, and never among shims.
pub open spec fn lists_directory(
    root: Seq<char>,
    platform: Platform,
    present: spec_fn(Seq<char>) -> bool,
) -> bool {
    let dir = search_directory(root, platform, present);
    !is_shim_directory(root, platform) && (present(
        joined(dir, python_name(platform), platform),
    ) || present(joined(dir, python3_name(platform), platform)) || ends_with(
        dir,
        bin_dir_name(platform),
        platform,
    ))
}

/// What the search of `root` finds.
pub open spec fn search_outcome(
    root: Seq<char>,
    platform: Platform,
    present: spec_fn(Seq<char>) -> bool,
    entries: spec_fn(Seq<char>) -> Option<Seq<Seq<char>>>,
) -> Seq<Seq<char>> {
    if lists_directory(root, platform, present) {
        match entries(search_directory(root, platform, present)) {
            Some(list) => python_entries(list, platform),
            None => Seq::<Seq<char>>::empty(),
        }
    } else {
        Seq::<Seq<char>>::empty()
    }
}

/// A search is over after four answers at most, and has then found the
/// interpreters among the entries of the directory it looked into. Where
/// that directory holds neither canonical interpreter and is not itself
/// named as directories of executables are, the search never asks for a
/// directory's entries.
pub proof fn lemma_search_outcome(
    root: Seq<char>,
    platform: Platform,
    present: spec_fn(Seq<char>) -> bool,
    entries: spec_fn(Seq<char>) -> Option<Seq<Seq<char>>>,
)
    ensures
        ({
            let begun = search_started(root, platform);
            let first = answered(begun, present, entries);
            let second = answered(first, present, entries);
            let third = answered(second, present, entries);
            let last = answered(third, present, entries);
            &&& last.stage is Done
            &&& last.found == search_outcome(root, platform, present, entries)
            &&& !lists_directory(root, platform, present) ==> !(request_of(begun) is List) && !(
            request_of(first) is List) && !(request_of(second) is List) && !(request_of(third)
                is List) && !(request_of(last) is List)
            &&& request_of(last) is Nothing
        }),
{
}

/// A directory named `node_modules` or `.git` is ignored wherever it lies.
pub proof fn lemma_artifact_directories_ignored(parent: Seq<char>, platform: Platform)
    ensures
        is_ignored_folder(joined(parent, "node_modules"@, platform), platform),
        is_ignored_folder(joined(parent, ".git"@, platform), platform),
{
    reveal_strlit("node_modules");
    reveal_strlit(".git");
    crate::paths::lemma_components_joined(parent, "node_modules"@, platform);
    crate::paths::lemma_components_joined(parent, ".git"@, platform);
}

/// A directory is ignored exactly where its last component is one of the
/// ignored names, whatever comes before it.
pub proof fn lemma_ignored_by_name(path: Seq<char>, other: Seq<char>, platform: Platform)
    requires
        file_name(path, platform) == file_name(other, platform),
        components(path, platform).len() > 0,
        components(other, platform).len() > 0,
    ensures
        is_ignored_folder(path, platform) == is_ignored_folder(other, platform),
{
}

} // verus!
