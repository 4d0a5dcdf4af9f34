//! What discovery finds: environments, the managers that own them, and the
//! probe a locator is asked about.

use vstd::prelude::*;
use vstd::string::*;

use crate::text::strings;
use crate::times::MTimeCTime;

verus! {

/// The kind of an environment.
#[derive(Clone, Copy, Debug, PartialEq, Eq, Hash, Structural)]
pub enum PythonEnvironmentCategory {
    System,
    Conda,
    Homebrew,
    Pyenv,
    PyenvVirtualEnv,
    Pipenv,
    Poetry,
    Venv,
    VirtualEnv,
    VirtualEnvWrapper,
    WindowsStore,
    WindowsRegistry,
}

/// The kind of a tool that manages environments.
#[derive(Clone, Copy, Debug, PartialEq, Eq, Hash, Structural)]
pub enum EnvManagerType {
    Conda,
    Poetry,
    Pyenv,
}

/// A tool that owns or creates a family of environments.
#[derive(Clone, Debug, PartialEq, Eq)]
pub struct EnvManager {
    pub executable: String,
    pub version: Option<String>,
    pub tool: EnvManagerType,
}

/// The recorded fingerprint of one of an environment's executables.
#[derive(Clone, Debug, PartialEq, Eq)]
pub struct Fingerprint {
    pub path: String,
    pub times: MTimeCTime,
}

/// A discovered interpreter installation. A value is never updated in
/// place: rediscovery makes a new one.
#[derive(Clone, Debug, PartialEq, Eq)]
pub struct PythonEnvironment {
    pub category: PythonEnvironmentCategory,
    pub executable: Option<String>,
    pub prefix: Option<String>,
    pub version: Option<String>,
    pub manager: Option<EnvManager>,
    /// The paths that all lead to this environment's interpreter.
    pub symlinks: Option<Vec<String>>,
    /// The fingerprints of those paths, as last recorded: for each path
    /// one at most.
    pub times: Option<Vec<Fingerprint>>,
    pub project: Option<String>,
}

/// What a locator is asked about: an executable, and what is already known
/// of its environment.
#[derive(Clone, Debug, PartialEq, Eq)]
pub struct PythonEnv {
    pub executable: String,
    pub prefix: Option<String>,
    pub version: Option<String>,
}

/// The text of an optional string.
pub open spec fn opt_text(value: Option<String>) -> Option<Seq<char>> {
    match value {
        Some(text) => Some(text@),
        None => None,
    }
}

/// The texts of an optional list of strings.
pub open spec fn opt_texts(value: Option<Vec<String>>) -> Option<Seq<Seq<char>>> {
    match value {
        Some(list) => Some(strings(list@)),
        None => None,
    }
}

/// A manager as the contracts see it: its strings as texts.
pub struct EnvManagerView {
    pub executable: Seq<char>,
    pub version: Option<Seq<char>>,
    pub tool: EnvManagerType,
}

impl View for EnvManager {
    type V = EnvManagerView;

    open spec fn view(&self) -> EnvManagerView {
        EnvManagerView {
            executable: self.executable@,
            version: opt_text(self.version),
            tool: self.tool,
        }
    }
}

/// A fingerprint as the contracts see it.
pub struct FingerprintView {
    pub path: Seq<char>,
    pub times: MTimeCTime,
}

impl View for Fingerprint {
    type V = FingerprintView;

    open spec fn view(&self) -> FingerprintView {
        FingerprintView { path: self.path@, times: self.times }
    }
}

/// Whether a list of fingerprints holds no path twice.
pub open spec fn distinct_paths(list: Seq<FingerprintView>) -> bool {
    forall|i: int, j: int|
        0 <= i < j < list.len() ==> (#[trigger] list[i]).path != (#[trigger] list[j]).path
}

/// What a list of fingerprints holds.
pub open spec fn fingerprints(list: Seq<Fingerprint>) -> Seq<FingerprintView> {
    Seq::new(list.len(), |i: int| list[i]@)
}

/// An environment as the contracts see it: strings as texts, lists as
/// sequences.
pub struct PythonEnvironmentView {
    pub category: PythonEnvironmentCategory,
    pub executable: Option<Seq<char>>,
    pub prefix: Option<Seq<char>>,
    pub version: Option<Seq<char>>,
    pub manager: Option<EnvManagerView>,
    pub symlinks: Option<Seq<Seq<char>>>,
    pub times: Option<Seq<FingerprintView>>,
    pub project: Option<Seq<char>>,
}

impl View for PythonEnvironment {
    type V = PythonEnvironmentView;

    open spec fn view(&self) -> PythonEnvironmentView {
        PythonEnvironmentView {
            category: self.category,
            executable: opt_text(self.executable),
            prefix: opt_text(self.prefix),
            version: opt_text(self.version),
            manager: match self.manager {
                Some(manager) => Some(manager@),
                None => None,
            },
            symlinks: opt_texts(self.symlinks),
            times: match self.times {
                Some(list) => Some(fingerprints(list@)),
                None => None,
            },
            project: opt_text(self.project),
        }
    }
}

/// The view of an optional environment.
pub open spec fn opt_environment_view(value: Option<PythonEnvironment>) -> Option<
    PythonEnvironmentView,
> {
    match value {
        Some(env) => Some(env@),
        None => None,
    }
}

/// Whether the fingerprints of an environment are a mapping: no path has
/// more than one. The fingerprints that the cache records are so.
pub open spec fn has_distinct_fingerprints(env: PythonEnvironmentView) -> bool {
    env.times matches Some(times) ==> distinct_paths(times)
}

/// What a list of environments holds.
pub open spec fn environments(list: Seq<PythonEnvironment>) -> Seq<PythonEnvironmentView> {
    Seq::new(list.len(), |i: int| list[i]@)
}

/// A question to a locator as the contracts see it.
pub struct PythonEnvView {
    pub executable: Seq<char>,
    pub prefix: Option<Seq<char>>,
    pub version: Option<Seq<char>>,
}

impl View for PythonEnv {
    type V = PythonEnvView;

    open spec fn view(&self) -> PythonEnvView {
        PythonEnvView {
            executable: self.executable@,
            prefix: opt_text(self.prefix),
            version: opt_text(self.version),
        }
    }
}

/// The path that identifies an environment: its executable, or failing
/// that its prefix.
pub open spec fn identity_key(env: PythonEnvironmentView) -> Option<Seq<char>> {
    match env.executable {
        Some(executable) => Some(executable),
        None => env.prefix,
    }
}

/// A copy of an optional string.
pub fn copy_opt(value: &Option<String>) -> (out: Option<String>)
    ensures
        opt_text(out) == opt_text(*value),
{
    match value {
        Some(text) => Some(text.clone()),
        None => None,
    }
}

/// A copy of a list of strings.
pub fn copy_strings(list: &Vec<String>) -> (out: Vec<String>)
    ensures
        strings(out@) == strings(list@),
{
    let mut out: Vec<String> = Vec::new();
    let mut i: usize = 0;
    while i < list.len()
        invariant
            i <= list@.len(),
            out@.len() == i,
            forall|k: int| 0 <= k < i ==> out@[k]@ == list@[k]@,
        decreases list@.len() - i,
    {
        out.push(list[i].clone());
        i += 1;
    }
    assert(strings(out@) =~= strings(list@));
    out
}

impl EnvManager {
    /// The manager of the given kind at `executable`.
    pub fn new(executable: String, tool: EnvManagerType, version: Option<String>) -> (out: Self)
        ensures
            out.executable == executable,
            out.tool == tool,
            out.version == version,
    {
        EnvManager { executable, version, tool }
    }

    /// A copy of this manager.
    pub fn duplicate(&self) -> (out: Self)
        ensures
            out@ == self@,
    {
        EnvManager {
            executable: self.executable.clone(),
            version: copy_opt(&self.version),
            tool: self.tool,
        }
    }
}

impl Fingerprint {
    /// A copy of this fingerprint.
    pub fn duplicate(&self) -> (out: Self)
        ensures
            out@ == self@,
    {
        Fingerprint { path: self.path.clone(), times: self.times }
    }
}

/// A copy of a list of fingerprints.
pub fn copy_fingerprints(list: &Vec<Fingerprint>) -> (out: Vec<Fingerprint>)
    ensures
        fingerprints(out@) == fingerprints(list@),
{
    let mut out: Vec<Fingerprint> = Vec::new();
    let mut i: usize = 0;
    while i < list.len()
        invariant
            i <= list@.len(),
            out@.len() == i,
            forall|k: int| 0 <= k < i ==> out@[k]@ == list@[k]@,
        decreases list@.len() - i,
    {
        out.push(list[i].duplicate());
        i += 1;
    }
    assert(fingerprints(out@) =~= fingerprints(list@));
    out
}

impl PythonEnvironment {
    /// An environment of the given kind, of which nothing else is known yet.
    pub fn new(category: PythonEnvironmentCategory) -> (out: Self)
        ensures
            out@ == (PythonEnvironmentView {
                category,
                executable: None,
                prefix: None,
                version: None,
                manager: None,
                symlinks: None,
                times: None,
                project: None,
            }),
    {
        PythonEnvironment {
            category,
            executable: None,
            prefix: None,
            version: None,
            manager: None,
            symlinks: None,
            times: None,
            project: None,
        }
    }

    /// A copy of this environment.
    pub fn duplicate(&self) -> (out: Self)
        ensures
            out@ == self@,
    {
        PythonEnvironment {
            category: self.category,
            executable: copy_opt(&self.executable),
            prefix: copy_opt(&self.prefix),
            version: copy_opt(&self.version),
            manager: match &self.manager {
                Some(manager) => Some(manager.duplicate()),
                None => None,
            },
            symlinks: match &self.symlinks {
                Some(list) => Some(copy_strings(list)),
                None => None,
            },
            times: match &self.times {
                Some(list) => Some(copy_fingerprints(list)),
                None => None,
            },
            project: copy_opt(&self.project),
        }
    }
}

/// A copy of a list of environments.
pub fn copy_environments(list: &Vec<PythonEnvironment>) -> (out: Vec<PythonEnvironment>)
    ensures
        environments(out@) == environments(list@),
{
    let mut out: Vec<PythonEnvironment> = Vec::new();
    let mut i: usize = 0;
    while i < list.len()
        invariant
            i <= list@.len(),
            out@.len() == i,
            forall|k: int| 0 <= k < i ==> out@[k]@ == list@[k]@,
        decreases list@.len() - i,
    {
        out.push(list[i].duplicate());
        i += 1;
    }
    assert(environments(out@) =~= environments(list@));
    out
}

/// The path that identifies an environment, where it has one.
pub fn get_environment_key(env: &PythonEnvironment) -> (key: Option<String>)
    ensures
        opt_text(key) == identity_key(env@),
{
    match &env.executable {
        Some(executable) => Some(executable.clone()),
        None => copy_opt(&env.prefix),
    }
}

impl PythonEnv {
    /// The question about `executable`, with what is known of its environment.
    pub fn new(executable: String, prefix: Option<String>, version: Option<String>) -> (out: Self)
        ensures
            out.executable == executable,
            out.prefix == prefix,
            out.version == version,
    {
        PythonEnv { executable, prefix, version }
    }
}

} // verus!
