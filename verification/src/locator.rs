//! The contract between the engine and the locators that recognise
//! environments. Locators are supplied from outside; the engine knows them
//! by this interface alone.

use vstd::prelude::*;

use crate::environment::{
    opt_environment_view, PythonEnv, PythonEnvView, PythonEnvironment,
    PythonEnvironmentCategory, PythonEnvironmentView,
};
use crate::reporter::Reporter;

verus! {

/// What a caller asks discovery to look at.
#[derive(Clone, Debug, PartialEq, Eq)]
pub struct Configuration {
    /// Workspace roots, searched recursively.
    pub search_paths: Option<Vec<String>>,
    /// Directories of projects, for locators that keep environments per project.
    pub project_directories: Option<Vec<String>>,
    /// Paths of environments that the caller already knows of.
    pub environment_paths: Option<Vec<String>>,
    pub conda_executable: Option<String>,
    pub poetry_executable: Option<String>,
}

/// A strategy that recognises the environments of one or more ecosystems.
///
/// A locator may say of itself what it can answer, through `declares` and
/// `resolves`. What the engine proves about its answers it proves from
/// those two, so it holds of a locator as far as the locator keeps to what
/// it says; one that says nothing promises nothing. A locator is expected
/// to remember what its own discovery found and to answer from that until
/// it is configured anew, and to stand being asked by several tasks at once.
pub trait Locator {
    /// Whether the locator can declare exactly these categories.
    open spec fn declares(&self, categories: Seq<PythonEnvironmentCategory>) -> bool {
        true
    }

    /// Whether the locator can give `out` when asked about `env`. An
    /// implementation that says nothing of itself leaves this at `true`.
    open spec fn resolves(&self, env: PythonEnvView, out: Option<PythonEnvironmentView>) -> bool {
        true
    }

    /// The categories of environment this locator can resolve.
    fn supported_categories(&self) -> (categories: Vec<PythonEnvironmentCategory>)
        ensures
            self.declares(categories@),
    ;

    /// Replaces whatever configuration the locator had. Configuring twice
    /// alike is the same as configuring once.
    fn configure(&self, config: &Configuration);

    /// Identifies the environment of an executable, or declines. Asked both
    /// about fresh candidates and to confirm cached records.
    fn try_from(&self, env: &PythonEnv) -> (out: Option<PythonEnvironment>)
        ensures
            self.resolves(env@, opt_environment_view(out)),
    ;

    /// Runs the locator's own discovery and hands every result to `reporter`.
    fn find<R: Reporter>(&self, reporter: &mut R);
}

} // verus!
