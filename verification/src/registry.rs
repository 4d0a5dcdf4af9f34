//! The registry of locators: an ordered list whose order is precedence.
//! A candidate of unknown category goes to the first locator that accepts
//! it; a cached record goes to the locator that declared its category.

use vstd::prelude::*;

use crate::environment::{
    opt_environment_view, PythonEnv, PythonEnvView, PythonEnvironment,
    PythonEnvironmentCategory, PythonEnvironmentView,
};
use crate::locator::Locator;

verus! {

/// The question put to the locators about a bare executable: nothing is
/// known of its prefix or version.
pub open spec fn probe_of(executable: Seq<char>) -> PythonEnvView {
    PythonEnvView { executable, prefix: None, version: None }
}

/// Whether the locator at `i` can have answered `found` after every locator
/// registered before it declined.
pub open spec fn first_to_accept<L: Locator>(
    locators: Seq<L>,
    env: PythonEnvView,
    i: int,
    found: PythonEnvironmentView,
) -> bool {
    &&& 0 <= i < locators.len()
    &&& locators[i].resolves(env, Some(found))
    &&& forall|j: int| 0 <= j < i ==> (#[trigger] locators[j]).resolves(env, None)
}

/// Whether `out` can be what the registry makes of `env`: the answer of the
/// first locator, in registration order, that does not decline; nothing
/// where all of them decline.
pub open spec fn identified_by<L: Locator>(
    locators: Seq<L>,
    env: PythonEnvView,
    out: Option<PythonEnvironmentView>,
) -> bool {
    match out {
        Some(found) => exists|i: int| first_to_accept(locators, env, i, found),
        None => forall|j: int|
            0 <= j < locators.len() ==> (#[trigger] locators[j]).resolves(env, None),
    }
}

/// Asks each locator in registration order about `env` and stops at the
/// first that identifies it.
pub fn identify_python_environment_using_locators<L: Locator>(
    env: &PythonEnv,
    locators: &Vec<L>,
) -> (out: Option<PythonEnvironment>)
    ensures
        identified_by(locators@, env@, opt_environment_view(out)),
{
    let mut i: usize = 0;
    while i < locators.len()
        invariant
            i <= locators@.len(),
            forall|j: int| 0 <= j < i ==> (#[trigger] locators@[j]).resolves(env@, None),
        decreases locators@.len() - i,
    {
        let out = locators[i].try_from(env);
        if out.is_some() {
            assert(first_to_accept(locators@, env@, i as int, out->0@));
            return out;
        }
        i += 1;
    }
    None
}

/// A locator that is registered later never answers for a candidate that an
/// earlier one is sure to accept: the answer comes from that one or from one
/// registered before it.
pub proof fn lemma_first_match_precedence<L: Locator>(
    locators: Seq<L>,
    env: PythonEnvView,
    out: Option<PythonEnvironmentView>,
    earlier: int,
)
    requires
        identified_by(locators, env, out),
        0 <= earlier < locators.len(),
        !locators[earlier].resolves(env, None),
    ensures
        out is Some,
        exists|i: int| first_to_accept(locators, env, i, out->0) && i <= earlier,
{
    let i = choose|i: int| first_to_accept(locators, env, i, out->0);
    if i > earlier {
        assert(locators[earlier].resolves(env, None));
    }
}

/// What a list of declarations holds.
pub open spec fn declarations(declared: Seq<Vec<PythonEnvironmentCategory>>) -> Seq<
    Seq<PythonEnvironmentCategory>,
> {
    Seq::new(declared.len(), |i: int| declared[i]@)
}

/// Asks each locator which categories it resolves. The answers stand in
/// registration order, one for each locator.
pub fn index_locators<L: Locator>(locators: &Vec<L>) -> (declared: Vec<
    Vec<PythonEnvironmentCategory>,
>)
    ensures
        declared@.len() == locators@.len(),
        forall|i: int|
            0 <= i < locators@.len() ==> (#[trigger] locators@[i]).declares(declared@[i]@),
{
    let mut declared: Vec<Vec<PythonEnvironmentCategory>> = Vec::new();
    let mut i: usize = 0;
    while i < locators.len()
        invariant
            i <= locators@.len(),
            declared@.len() == i,
            forall|j: int| 0 <= j < i ==> (#[trigger] locators@[j]).declares(declared@[j]@),
        decreases locators@.len() - i,
    {
        declared.push(locators[i].supported_categories());
        i += 1;
    }
    declared
}

/// Whether `declared` can be what the locators declare, one list for each.
pub open spec fn is_index<L: Locator>(
    locators: Seq<L>,
    declared: Seq<Seq<PythonEnvironmentCategory>>,
) -> bool {
    declared.len() == locators.len() && forall|i: int|
        0 <= i < locators.len() ==> (#[trigger] locators[i]).declares(declared[i])
}

/// Whether the locator at `i` is the one that speaks for `category`: it
/// declared the category, and no locator registered after it did.
pub open spec fn speaks_for(
    declared: Seq<Seq<PythonEnvironmentCategory>>,
    category: PythonEnvironmentCategory,
    i: int,
) -> bool {
    &&& 0 <= i < declared.len()
    &&& declared[i].contains(category)
    &&& forall|j: int| i < j < declared.len() ==> !(#[trigger] declared[j]).contains(category)
}

fn declares_category(
    list: &Vec<PythonEnvironmentCategory>,
    category: PythonEnvironmentCategory,
) -> (r: bool)
    ensures
        r == list@.contains(category),
{
    let mut i: usize = 0;
    while i < list.len()
        invariant
            i <= list@.len(),
            forall|j: int| 0 <= j < i ==> list@[j] != category,
        decreases list@.len() - i,
    {
        if list[i] == category {
            return true;
        }
        i += 1;
    }
    false
}

/// The locator that confirms cached records of a category: of those that
/// declared it, the one registered last.
pub fn locator_for_category(
    declared: &Vec<Vec<PythonEnvironmentCategory>>,
    category: PythonEnvironmentCategory,
) -> (r: Option<usize>)
    ensures
        match r {
            Some(i) => speaks_for(declarations(declared@), category, i as int),
            None => forall|j: int|
                0 <= j < declared@.len() ==> !(#[trigger] declarations(declared@)[j]).contains(
                    category,
                ),
        },
{
    let mut i: usize = declared.len();
    while i > 0
        invariant
            i <= declared@.len(),
            forall|j: int|
                i <= j < declared@.len() ==> !(#[trigger] declarations(declared@)[j]).contains(
                    category,
                ),
        decreases i,
    {
        i -= 1;
        if declares_category(&declared[i], category) {
            assert(declarations(declared@)[i as int] == declared@[i as int]@);
            return Some(i);
        }
        assert(declarations(declared@)[i as int] == declared@[i as int]@);
    }
    None
}

/// Whether a locator that is present speaks for the record's category.
pub open spec fn has_speaker(
    declared: Seq<Seq<PythonEnvironmentCategory>>,
    count: nat,
    category: PythonEnvironmentCategory,
) -> bool {
    exists|i: int| #[trigger] speaks_for(declared, category, i) && i < count
}

} // verus!
