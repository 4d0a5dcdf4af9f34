//! The search for environments: what a refresh is to do, which
//! executables a scan puts to the locators, and what is reported of them.

use vstd::prelude::*;
use vstd::string::*;

use crate::environment::{
    copy_opt, copy_strings, opt_environment_view, opt_text, PythonEnv, PythonEnvironment,
    PythonEnvironmentView,
};
use crate::locator::{Configuration, Locator};
use crate::platform::Platform;
use crate::registry::{identified_by, identify_python_environment_using_locators, probe_of};
use crate::reporter::{
    delivered, lemma_delivered_chain, report_environment, reports_of, ReportView, Reporter,
};
use crate::text::{same_str, strings};
use crate::workspace::{nested, DEFAULT_MAX_DEPTH};

verus! {

/// What is reported of the answer to one question: nothing where every
/// locator declined.
pub open spec fn reports_of_outcome(out: Option<PythonEnvironmentView>) -> Seq<ReportView> {
    match out {
        Some(env) => reports_of(env),
        None => Seq::<ReportView>::empty(),
    }
}

/// What is reported of a series of answers, in their order.
pub open spec fn reports_of_outcomes(outs: Seq<Option<PythonEnvironmentView>>) -> Seq<ReportView>
    decreases outs.len(),
{
    if outs.len() == 0 {
        Seq::<ReportView>::empty()
    } else {
        reports_of_outcomes(outs.drop_last()) + reports_of_outcome(outs.last())
    }
}

/// Reports what the registry made of one candidate: the environment, its
/// manager first, where a locator accepted it; nothing where all declined.
pub fn report_outcome<R: Reporter>(reporter: &mut R, out: &Option<PythonEnvironment>)
    ensures
        delivered(
            *old(reporter),
            reports_of_outcome(opt_environment_view(*out)),
            *final(reporter),
        ),
{
    match out {
        Some(env) => {
            report_environment(reporter, env);
        },
        None => {},
    }
}

/// What a list of answers holds.
pub open spec fn opt_environments(outs: Seq<Option<PythonEnvironment>>) -> Seq<
    Option<PythonEnvironmentView>,
> {
    Seq::new(outs.len(), |i: int| opt_environment_view(outs[i]))
}

/// Whether `outcomes` can be what the registry makes of the executables,
/// one answer for each.
pub open spec fn is_identification<L: Locator>(
    locators: Seq<L>,
    executables: Seq<Seq<char>>,
    outcomes: Seq<Option<PythonEnvironmentView>>,
) -> bool {
    &&& outcomes.len() == executables.len()
    &&& forall|k: int|
        0 <= k < executables.len() ==> identified_by(
            locators,
            probe_of(executables[k]),
            #[trigger] outcomes[k],
        )
}

/// Identifies each candidate executable, of which no category is known, and
/// reports those that some locator accepts. The answers come back in the
/// order of the candidates; a candidate that every locator declines is
/// dropped, and nothing is reported of it.
pub fn identify_python_executables_using_locators<L: Locator, R: Reporter>(
    executables: &Vec<String>,
    locators: &Vec<L>,
    reporter: &mut R,
) -> (outcomes: Vec<Option<PythonEnvironment>>)
    ensures
        is_identification(locators@, strings(executables@), opt_environments(outcomes@)),
        delivered(
            *old(reporter),
            reports_of_outcomes(opt_environments(outcomes@)),
            *final(reporter),
        ),
{
    let ghost start = *reporter;
    let mut outcomes: Vec<Option<PythonEnvironment>> = Vec::new();
    let mut k: usize = 0;
    assert(opt_environments(outcomes@) =~= Seq::<Option<PythonEnvironmentView>>::empty());
    while k < executables.len()
        invariant
            k <= executables@.len(),
            outcomes@.len() == k,
            forall|j: int|
                0 <= j < k ==> identified_by(
                    locators@,
                    probe_of(strings(executables@)[j]),
                    #[trigger] opt_environments(outcomes@)[j],
                ),
            delivered(start, reports_of_outcomes(opt_environments(outcomes@)), *reporter),
        decreases executables@.len() - k,
    {
        let probe = PythonEnv::new(executables[k].clone(), None, None);
        assert(probe@ == probe_of(strings(executables@)[k as int]));
        let out = identify_python_environment_using_locators(&probe, locators);
        let ghost before = *reporter;
        let ghost earlier = opt_environments(outcomes@);
        report_outcome(reporter, &out);
        outcomes.push(out);
        proof {
            let now = opt_environments(outcomes@);
            assert(now.drop_last() =~= earlier);
            assert(now.last() == opt_environment_view(out));
            assert forall|j: int| 0 <= j < k + 1 implies identified_by(
                locators@,
                probe_of(strings(executables@)[j]),
                #[trigger] now[j],
            ) by {
                if j < k {
                    assert(now[j] == earlier[j]);
                }
            }
            lemma_delivered_chain(
                start,
                reports_of_outcomes(earlier),
                before,
                reports_of_outcome(opt_environment_view(out)),
                *reporter,
            );
        }
        k += 1;
    }
    outcomes
}

/// The lists of a list, one after the other.
pub open spec fn flattened(lists: Seq<Seq<Seq<char>>>) -> Seq<Seq<char>>
    decreases lists.len(),
{
    if lists.len() == 0 {
        Seq::<Seq<char>>::empty()
    } else {
        flattened(lists.drop_last()) + lists.last()
    }
}

/// The paths of a list other than `unwanted`, in their order.
pub open spec fn without(paths: Seq<Seq<char>>, unwanted: Seq<char>) -> Seq<Seq<char>>
    decreases paths.len(),
{
    if paths.len() == 0 {
        Seq::<Seq<char>>::empty()
    } else {
        let before = without(paths.drop_last(), unwanted);
        if paths.last() == unwanted {
            before
        } else {
            before.push(paths.last())
        }
    }
}

/// The executables that a scan of several roots puts to the locators: all
/// that were found, root after root. A scan of global roots on macOS
/// leaves out the system's own Python 2.
pub open spec fn candidates_of(
    found: Seq<Seq<Seq<char>>>,
    is_workspace_folder: bool,
    platform: Platform,
) -> Seq<Seq<char>> {
    if !is_workspace_folder && platform is MacOs {
        without(flattened(found), "/usr/bin/python2"@)
    } else {
        flattened(found)
    }
}

/// The executables that a scan of several roots puts to the locators.
pub fn candidate_executables(
    found: &Vec<Vec<String>>,
    is_workspace_folder: bool,
    platform: Platform,
) -> (out: Vec<String>)
    ensures
        strings(out@) == candidates_of(nested(found@), is_workspace_folder, platform),
{
    let ghost shown = nested(found@);
    let skip_python2 = !is_workspace_folder && platform == Platform::MacOs;
    let mut out: Vec<String> = Vec::new();
    let mut i: usize = 0;
    assert(shown.take(0) =~= Seq::<Seq<Seq<char>>>::empty());
    assert(strings(out@) =~= Seq::<Seq<char>>::empty());
    while i < found.len()
        invariant
            shown == nested(found@),
            i <= found@.len(),
            skip_python2 == (!is_workspace_folder && platform is MacOs),
            strings(out@) == if skip_python2 {
                without(flattened(shown.take(i as int)), "/usr/bin/python2"@)
            } else {
                flattened(shown.take(i as int))
            },
        decreases found@.len() - i,
    {
        let list = &found[i];
        let ghost texts = strings(list@);
        let ghost before = flattened(shown.take(i as int));
        assert(shown.take(i + 1).drop_last() =~= shown.take(i as int));
        assert(shown.take(i + 1).last() == texts);
        let mut k: usize = 0;
        assert(before + texts.take(0) =~= before);
        while k < list.len()
            invariant
                texts == strings(list@),
                k <= list@.len(),
                strings(out@) == if skip_python2 {
                    without(before + texts.take(k as int), "/usr/bin/python2"@)
                } else {
                    before + texts.take(k as int)
                },
            decreases list@.len() - k,
        {
            let ghost shown_out = strings(out@);
            assert((before + texts.take(k + 1)).drop_last() =~= before + texts.take(k as int));
            assert((before + texts.take(k + 1)).last() == list@[k as int]@);
            if !(skip_python2 && same_str(list[k].as_str(), "/usr/bin/python2")) {
                out.push(list[k].clone());
                assert(strings(out@) =~= shown_out.push(list@[k as int]@));
                assert(before + texts.take(k + 1) =~= (before + texts.take(k as int)).push(
                    list@[k as int]@,
                ));
            }
            k += 1;
        }
        assert(texts.take(list@.len() as int) =~= texts);
        i += 1;
    }
    assert(shown.take(found@.len() as int) =~= shown);
    out
}

/// Puts the executables found under a list of roots to the locators and
/// reports those that are identified.
///
/// `found` holds, for each root scanned, the executables found there: by
/// probing the one canonical place in a workspace root, by searching a
/// global root otherwise. The answers come back in the order of
/// `candidate_executables`.
pub fn find_python_environments_in_paths_with_locators<L: Locator, R: Reporter>(
    found: &Vec<Vec<String>>,
    locators: &Vec<L>,
    reporter: &mut R,
    is_workspace_folder: bool,
    platform: Platform,
) -> (outcomes: Vec<Option<PythonEnvironment>>)
    ensures
        is_identification(
            locators@,
            candidates_of(nested(found@), is_workspace_folder, platform),
            opt_environments(outcomes@),
        ),
        delivered(
            *old(reporter),
            reports_of_outcomes(opt_environments(outcomes@)),
            *final(reporter),
        ),
{
    let executables = candidate_executables(found, is_workspace_folder, platform);
    identify_python_executables_using_locators(&executables, locators, reporter)
}

/// Where a refresh stands.
#[derive(Clone, Copy, Debug, PartialEq, Eq, Structural)]
pub enum Phase {
    /// The records of the cache are being validated. Nothing is searched yet.
    Validation,
    /// The search is under way.
    Search,
    /// Both phases are over.
    Finished,
}

/// How long the two phases of a refresh took, in milliseconds.
#[derive(Clone, Copy, Debug, PartialEq, Eq, Structural)]
pub struct Summary {
    pub validation_time: u128,
    pub search_time: u128,
}

/// A refresh: what it looks at, where it stands, and how long its phases
/// took. The phases follow one another and are timed each by itself.
#[derive(Clone, Debug, PartialEq, Eq)]
pub struct Refresh {
    pub phase: Phase,
    /// The paths of environments that the caller named, scanned with the
    /// other global roots.
    pub environment_paths: Vec<String>,
    /// The roots searched recursively; none means no workspace search.
    pub workspace_roots: Vec<String>,
    /// How many levels below the workspace roots are entered.
    pub max_depth: u32,
    /// The executable handed to the Conda locator's belated probe.
    pub conda_executable: Option<String>,
    pub summary: Summary,
}

/// A refresh as the contracts see it.
pub struct RefreshView {
    pub phase: Phase,
    pub environment_paths: Seq<Seq<char>>,
    pub workspace_roots: Seq<Seq<char>>,
    pub max_depth: u32,
    pub conda_executable: Option<Seq<char>>,
    pub summary: Summary,
}

impl View for Refresh {
    type V = RefreshView;

    open spec fn view(&self) -> RefreshView {
        RefreshView {
            phase: self.phase,
            environment_paths: strings(self.environment_paths@),
            workspace_roots: strings(self.workspace_roots@),
            max_depth: self.max_depth,
            conda_executable: opt_text(self.conda_executable),
            summary: self.summary,
        }
    }
}

/// One of the tasks of the search. They start together, none waits for
/// another, and the search is over when all of them are.
#[derive(Clone, Debug, PartialEq, Eq)]
pub enum Task {
    /// Every registered locator runs its own discovery. When all have, the
    /// Conda locator is asked for one more probe with the given
    /// executable; that probe is not waited for.
    LocatorSweep { conda_executable: Option<String> },
    /// The global roots are scanned as one batch, without recursion: the
    /// directories of the search path of the process, the environments
    /// below the well-known directories, and these paths.
    GlobalScan { environment_paths: Vec<String> },
    /// The workspace roots are searched, down to the given depth.
    WorkspaceScan { roots: Vec<String>, max_depth: u32 },
}

/// A task as the contracts see it.
pub enum TaskView {
    LocatorSweep { conda_executable: Option<Seq<char>> },
    GlobalScan { environment_paths: Seq<Seq<char>> },
    WorkspaceScan { roots: Seq<Seq<char>>, max_depth: u32 },
}

impl View for Task {
    type V = TaskView;

    open spec fn view(&self) -> TaskView {
        match self {
            Task::LocatorSweep { conda_executable } => TaskView::LocatorSweep {
                conda_executable: opt_text(*conda_executable),
            },
            Task::GlobalScan { environment_paths } => TaskView::GlobalScan {
                environment_paths: strings(environment_paths@),
            },
            Task::WorkspaceScan { roots, max_depth } => TaskView::WorkspaceScan {
                roots: strings(roots@),
                max_depth: *max_depth,
            },
        }
    }
}

/// What a list of tasks holds.
pub open spec fn tasks_in(list: Seq<Task>) -> Seq<TaskView> {
    Seq::new(list.len(), |i: int| list[i]@)
}

/// The paths of an optional list: none where there is no list.
pub open spec fn paths_or_none(list: Option<Vec<String>>) -> Seq<Seq<char>> {
    match list {
        Some(paths) => strings(paths@),
        None => Seq::<Seq<char>>::empty(),
    }
}

/// A refresh at its start. With a cache it begins by validating; without
/// one it begins with the search. The environment paths of the
/// configuration join the global roots; its search paths are the workspace
/// roots, entered to the default depth.
pub open spec fn refresh_started(configuration: Configuration, has_cache: bool) -> RefreshView {
    RefreshView {
        phase: if has_cache {
            Phase::Validation
        } else {
            Phase::Search
        },
        environment_paths: paths_or_none(configuration.environment_paths),
        workspace_roots: paths_or_none(configuration.search_paths),
        max_depth: DEFAULT_MAX_DEPTH,
        conda_executable: opt_text(configuration.conda_executable),
        summary: Summary { validation_time: 0, search_time: 0 },
    }
}

/// A refresh once the validation of the cache is over and took `elapsed`.
pub open spec fn after_validation(refresh: RefreshView, elapsed: u128) -> RefreshView {
    if refresh.phase is Validation {
        RefreshView {
            phase: Phase::Search,
            summary: Summary { validation_time: elapsed, ..refresh.summary },
            ..refresh
        }
    } else {
        refresh
    }
}

/// A refresh once the search is over and took `elapsed`.
pub open spec fn after_search(refresh: RefreshView, elapsed: u128) -> RefreshView {
    if refresh.phase is Search {
        RefreshView {
            phase: Phase::Finished,
            summary: Summary { search_time: elapsed, ..refresh.summary },
            ..refresh
        }
    } else {
        refresh
    }
}

/// The tasks of a refresh that is searching: the sweep of the locators, the
/// scan of the global roots, and, where there are workspace roots, the
/// search of those. In any other phase there is nothing to start.
pub open spec fn tasks_of(refresh: RefreshView) -> Seq<TaskView> {
    if refresh.phase is Search {
        seq![
            TaskView::LocatorSweep { conda_executable: refresh.conda_executable },
            TaskView::GlobalScan { environment_paths: refresh.environment_paths },
        ] + (if refresh.workspace_roots.len() > 0 {
            seq![
                TaskView::WorkspaceScan {
                    roots: refresh.workspace_roots,
                    max_depth: refresh.max_depth,
                },
            ]
        } else {
            Seq::<TaskView>::empty()
        })
    } else {
        Seq::<TaskView>::empty()
    }
}

fn paths_of(list: Option<Vec<String>>) -> (out: Vec<String>)
    ensures
        strings(out@) == paths_or_none(list),
{
    match list {
        Some(paths) => paths,
        None => {
            let none: Vec<String> = Vec::new();
            assert(strings(none@) =~= Seq::<Seq<char>>::empty());
            none
        },
    }
}

/// Begins a refresh.
pub fn find_and_report_envs(configuration: Configuration, has_cache: bool) -> (refresh: Refresh)
    ensures
        refresh@ == refresh_started(configuration, has_cache),
{
    Refresh {
        phase: if has_cache {
            Phase::Validation
        } else {
            Phase::Search
        },
        environment_paths: paths_of(configuration.environment_paths),
        workspace_roots: paths_of(configuration.search_paths),
        max_depth: DEFAULT_MAX_DEPTH,
        conda_executable: configuration.conda_executable,
        summary: Summary { validation_time: 0, search_time: 0 },
    }
}

impl Refresh {
    /// Notes that the validation of the cache is over. In any other phase
    /// this changes nothing.
    pub fn validation_finished(self, elapsed: u128) -> (next: Refresh)
        ensures
            next@ == after_validation(self@, elapsed),
    {
        match self.phase {
            Phase::Validation => Refresh {
                phase: Phase::Search,
                environment_paths: self.environment_paths,
                workspace_roots: self.workspace_roots,
                max_depth: self.max_depth,
                conda_executable: self.conda_executable,
                summary: Summary {
                    validation_time: elapsed,
                    search_time: self.summary.search_time,
                },
            },
            _ => self,
        }
    }

    /// Notes that every task of the search is over. In any other phase
    /// this changes nothing.
    pub fn search_finished(self, elapsed: u128) -> (next: Refresh)
        ensures
            next@ == after_search(self@, elapsed),
    {
        match self.phase {
            Phase::Search => Refresh {
                phase: Phase::Finished,
                environment_paths: self.environment_paths,
                workspace_roots: self.workspace_roots,
                max_depth: self.max_depth,
                conda_executable: self.conda_executable,
                summary: Summary {
                    validation_time: self.summary.validation_time,
                    search_time: elapsed,
                },
            },
            _ => self,
        }
    }

    /// The tasks to start now.
    pub fn tasks(&self) -> (list: Vec<Task>)
        ensures
            tasks_in(list@) == tasks_of(self@),
    {
        let mut list: Vec<Task> = Vec::new();
        match self.phase {
            Phase::Search => {
                list.push(
                    Task::LocatorSweep { conda_executable: copy_opt(&self.conda_executable) },
                );
                list.push(
                    Task::GlobalScan { environment_paths: copy_strings(&self.environment_paths) },
                );
                if self.workspace_roots.len() > 0 {
                    list.push(
                        Task::WorkspaceScan {
                            roots: copy_strings(&self.workspace_roots),
                            max_depth: self.max_depth,
                        },
                    );
                }
            },
            _ => {},
        }
        assert(tasks_in(list@) =~= tasks_of(self@));
        list
    }

}

/// The roots of the global scan: the directories named by the search path
/// of the process, then the environments found below the well-known
/// directories, then the environment paths that the caller named.
pub fn global_search_roots(
    env_paths: Vec<String>,
    virtual_envs: Vec<String>,
    environment_paths: Vec<String>,
) -> (roots: Vec<String>)
    ensures
        strings(roots@) == strings(env_paths@) + strings(virtual_envs@) + strings(
            environment_paths@,
        ),
{
    let mut roots = env_paths;
    let mut second = virtual_envs;
    let mut third = environment_paths;
    let ghost first = strings(roots@);
    roots.append(&mut second);
    assert(strings(roots@) =~= first + strings(virtual_envs@));
    let ghost both = strings(roots@);
    roots.append(&mut third);
    assert(strings(roots@) =~= both + strings(environment_paths@));
    roots
}

/// A refresh goes through its phases in order. With a cache, nothing is
/// searched before the validation is over; without one, the search is the
/// first thing and the validation counts for no time. Once the search is
/// over the refresh is finished, and its summary holds the time of each
/// phase.
pub proof fn lemma_refresh_phases(
    configuration: Configuration,
    has_cache: bool,
    validation: u128,
    search: u128,
)
    ensures
        ({
            let begun = refresh_started(configuration, has_cache);
            let validated = after_validation(begun, validation);
            let done = after_search(validated, search);
            &&& has_cache ==> tasks_of(begun).len() == 0
            &&& validated.phase is Search
            &&& tasks_of(validated).len() >= 2
            &&& tasks_of(validated).len() == 3 <==> validated.workspace_roots.len() > 0
            &&& done.phase is Finished
            &&& tasks_of(done).len() == 0
            &&& done.summary.search_time == search
            &&& done.summary.validation_time == if has_cache {
                validation
            } else {
                0
            }
        }),
{
}

} // verus!
