//! Validation of the cache: which records are still trusted, and what is
//! reported of them. A record that does not pass is withheld, never
//! changed or deleted; the search that follows may find it again.

use vstd::prelude::*;
use vstd::string::*;

use crate::environment::{
    copy_opt, fingerprints, opt_environment_view, Fingerprint, FingerprintView, PythonEnv,
    PythonEnvView, PythonEnvironment, PythonEnvironmentCategory, PythonEnvironmentView,
};
use crate::locator::Locator;
use crate::registry::{
    declarations, has_speaker, index_locators, is_index, locator_for_category, speaks_for,
};
use crate::reporter::{
    delivered, lemma_delivered_chain, report_environment, reports_of, ReportView, Reporter,
};
use crate::times::MTimeCTime;

verus! {

/// Whether a file's live fingerprint contradicts the recorded one. A file
/// whose fingerprint cannot be read contradicts nothing.
pub open spec fn differs(recorded: MTimeCTime, live: Option<MTimeCTime>) -> bool {
    live matches Some(now) && (now.mtime != recorded.mtime || now.ctime != recorded.ctime)
}

/// Whether some recorded fingerprint is contradicted by the live one at the
/// same position. Positions that `live` does not reach count as unreadable.
pub open spec fn is_stale(recorded: Seq<FingerprintView>, live: Seq<Option<MTimeCTime>>) -> bool {
    exists|i: int|
        0 <= i < recorded.len() && i < live.len() && differs(
            (#[trigger] recorded[i]).times,
            live[i],
        )
}

/// Whether the record of an environment can no longer be trusted.
pub fn fingerprints_changed(recorded: &Vec<Fingerprint>, live: &Vec<Option<MTimeCTime>>) -> (r:
    bool)
    ensures
        r == is_stale(fingerprints(recorded@), live@),
{
    let ghost shown = fingerprints(recorded@);
    let mut i: usize = 0;
    while i < recorded.len() && i < live.len()
        invariant
            shown == fingerprints(recorded@),
            i <= recorded@.len(),
            i <= live@.len(),
            forall|j: int| 0 <= j < i ==> !differs((#[trigger] shown[j]).times, live@[j]),
        decreases recorded@.len() - i,
    {
        match live[i] {
            Some(now) => {
                if now.mtime != recorded[i].times.mtime || now.ctime != recorded[i].times.ctime {
                    assert(differs(shown[i as int].times, live@[i as int]));
                    return true;
                }
            },
            None => {},
        }
        i += 1;
    }
    false
}

/// The paths whose live fingerprints decide whether a cached record is
/// still trusted, in the order of the record.
pub fn paths_to_check(env: &PythonEnvironment) -> (paths: Vec<String>)
    ensures
        match env@.times {
            Some(recorded) => paths@.len() == recorded.len() && forall|i: int|
                0 <= i < recorded.len() ==> (#[trigger] paths@[i])@ == recorded[i].path,
            None => paths@.len() == 0,
        },
{
    let mut paths: Vec<String> = Vec::new();
    match &env.times {
        Some(recorded) => {
            let mut i: usize = 0;
            while i < recorded.len()
                invariant
                    i <= recorded@.len(),
                    paths@.len() == i,
                    forall|j: int| 0 <= j < i ==> (#[trigger] paths@[j])@ == recorded@[j].path@,
                decreases recorded@.len() - i,
            {
                paths.push(recorded[i].path.clone());
                i += 1;
            }
        },
        None => {},
    }
    paths
}

/// What became of one cached record.
#[derive(Clone, Debug, PartialEq, Eq)]
pub enum Validation {
    /// The record names no executable to ask about.
    NoExecutable,
    /// No registered locator declared the record's category.
    NoLocator,
    /// A fingerprint changed: the record is withheld, not deleted.
    Stale,
    /// The locator no longer recognises the executable.
    Declined,
    /// The locator confirmed the record; what it answered was reported.
    Reported(PythonEnvironment),
}

/// What became of a record, as the contracts see it.
pub enum ValidationView {
    NoExecutable,
    NoLocator,
    Stale,
    Declined,
    Reported(PythonEnvironmentView),
}

impl View for Validation {
    type V = ValidationView;

    open spec fn view(&self) -> ValidationView {
        match self {
            Validation::NoExecutable => ValidationView::NoExecutable,
            Validation::NoLocator => ValidationView::NoLocator,
            Validation::Stale => ValidationView::Stale,
            Validation::Declined => ValidationView::Declined,
            Validation::Reported(found) => ValidationView::Reported(found@),
        }
    }
}

/// What a list of verdicts holds.
pub open spec fn verdicts(list: Seq<Validation>) -> Seq<ValidationView> {
    Seq::new(list.len(), |i: int| list[i]@)
}

/// The question put to a locator about a cached record.
pub open spec fn probe_of_record(env: PythonEnvironmentView) -> PythonEnvView {
    PythonEnvView { executable: env.executable->0, prefix: env.prefix, version: env.version }
}

/// Whether a record's fingerprints contradict the live ones.
pub open spec fn record_is_stale(
    env: PythonEnvironmentView,
    live: Seq<Option<MTimeCTime>>,
) -> bool {
    env.times matches Some(recorded) && is_stale(recorded, live)
}

/// Whether the locator that speaks for the record's category can have
/// answered `out` when asked about the record.
pub open spec fn speaker_resolves<L: Locator>(
    env: PythonEnvironmentView,
    declared: Seq<Seq<PythonEnvironmentCategory>>,
    locators: Seq<L>,
    out: Option<PythonEnvironmentView>,
) -> bool {
    exists|i: int|
        #[trigger] speaks_for(declared, env.category, i) && i < locators.len()
            && locators[i].resolves(probe_of_record(env), out)
}

/// Whether `verdict` can be what validation makes of a cached record.
///
/// A record without an executable, of a category that no locator speaks
/// for, or with a changed fingerprint is passed over, in that order of
/// precedence. Otherwise the verdict is what the locator that speaks for
/// the category answered when asked again.
pub open spec fn is_verdict<L: Locator>(
    env: PythonEnvironmentView,
    live: Seq<Option<MTimeCTime>>,
    declared: Seq<Seq<PythonEnvironmentCategory>>,
    locators: Seq<L>,
    verdict: ValidationView,
) -> bool {
    if env.executable is None {
        verdict is NoExecutable
    } else if !has_speaker(declared, locators.len(), env.category) {
        verdict is NoLocator
    } else if record_is_stale(env, live) {
        verdict is Stale
    } else {
        match verdict {
            ValidationView::Declined => speaker_resolves(env, declared, locators, None),
            ValidationView::Reported(found) => speaker_resolves(
                env,
                declared,
                locators,
                Some(found),
            ),
            _ => false,
        }
    }
}

/// What is reported after a record was validated: what the locator answered
/// where it confirmed the record, manager first; nothing otherwise.
pub open spec fn reports_of_verdict(verdict: ValidationView) -> Seq<ReportView> {
    match verdict {
        ValidationView::Reported(found) => reports_of(found),
        _ => Seq::<ReportView>::empty(),
    }
}

/// What is reported of a series of verdicts, in their order.
pub open spec fn reports_of_verdicts(list: Seq<ValidationView>) -> Seq<ReportView>
    decreases list.len(),
{
    if list.len() == 0 {
        Seq::<ReportView>::empty()
    } else {
        reports_of_verdicts(list.drop_last()) + reports_of_verdict(list.last())
    }
}

/// A record is withheld once the modification time of one of its
/// executables has moved past what was recorded: whatever else holds of it,
/// nothing is reported, and where a locator speaks for it the record is
/// found stale.
pub proof fn lemma_changed_fingerprint_withholds<L: Locator>(
    env: PythonEnvironmentView,
    live: Seq<Option<MTimeCTime>>,
    declared: Seq<Seq<PythonEnvironmentCategory>>,
    locators: Seq<L>,
    verdict: ValidationView,
    at: int,
)
    requires
        is_verdict(env, live, declared, locators, verdict),
        env.times is Some,
        0 <= at < env.times->0.len(),
        at < live.len(),
        live[at] is Some,
        live[at]->0.mtime > env.times->0[at].times.mtime,
    ensures
        reports_of_verdict(verdict) == Seq::<ReportView>::empty(),
        env.executable is Some && has_speaker(declared, locators.len(), env.category)
            ==> verdict is Stale,
{
    assert(differs(env.times->0[at].times, live[at]));
    assert(is_stale(env.times->0, live));
}

/// What validation makes of the answer that the locator gave when asked
/// again about a record.
pub open spec fn concluded(answer: Option<PythonEnvironmentView>) -> ValidationView {
    match answer {
        Some(found) => ValidationView::Reported(found),
        None => ValidationView::Declined,
    }
}

/// Concludes the validation of a record from what its locator answered:
/// an answer is reported, manager first, in place of the record; without
/// one the record is dropped and nothing is reported.
pub fn conclude_validation<R: Reporter>(
    reporter: &mut R,
    answer: Option<PythonEnvironment>,
) -> (verdict: Validation)
    ensures
        verdict@ == concluded(opt_environment_view(answer)),
        delivered(*old(reporter), reports_of_verdict(verdict@), *final(reporter)),
{
    match answer {
        Some(found) => {
            report_environment(reporter, &found);
            Validation::Reported(found)
        },
        None => Validation::Declined,
    }
}

/// Validates one cached record against the file system as it is now, and
/// reports it afresh if it still stands.
///
/// `live` holds the fingerprints just read from the paths of
/// `paths_to_check`; `declared` is what `index_locators` gave for
/// `locators`. The record itself is never changed, and a record that is
/// passed over leaves the reporter as it was.
pub fn report_validated_environment<L: Locator, R: Reporter>(
    env: &PythonEnvironment,
    live: &Vec<Option<MTimeCTime>>,
    declared: &Vec<Vec<PythonEnvironmentCategory>>,
    locators: &Vec<L>,
    reporter: &mut R,
) -> (verdict: Validation)
    ensures
        is_verdict(env@, live@, declarations(declared@), locators@, verdict@),
        delivered(*old(reporter), reports_of_verdict(verdict@), *final(reporter)),
{
    let executable = match &env.executable {
        Some(executable) => executable.clone(),
        None => {
            return Validation::NoExecutable;
        },
    };
    let ghost shown = declarations(declared@);
    let index = match locator_for_category(declared, env.category) {
        Some(index) => index,
        None => {
            assert forall|i: int| !(#[trigger] speaks_for(shown, env@.category, i) && i
                < locators@.len()) by {
                if speaks_for(shown, env@.category, i) {
                    assert(shown[i].contains(env@.category));
                }
            }
            return Validation::NoLocator;
        },
    };
    proof {
        assert forall|i: int| #[trigger] speaks_for(shown, env@.category, i) implies i
            == index by {
            if i < index {
                assert(shown[index as int].contains(env@.category));
            } else if i > index {
                assert(shown[i].contains(env@.category));
            }
        }
    }
    if index >= locators.len() {
        return Validation::NoLocator;
    }
    assert(has_speaker(shown, locators@.len() as nat, env@.category)) by {
        assert(speaks_for(shown, env@.category, index as int));
    }
    let stale = match &env.times {
        Some(recorded) => fingerprints_changed(recorded, live),
        None => false,
    };
    if stale {
        return Validation::Stale;
    }
    let probe = PythonEnv::new(executable, copy_opt(&env.prefix), copy_opt(&env.version));
    assert(probe@ == probe_of_record(env@));
    let answer = locators[index].try_from(&probe);
    assert(speaks_for(shown, env@.category, index as int));
    assert(speaker_resolves(env@, shown, locators@, opt_environment_view(answer)));
    conclude_validation(reporter, answer)
}

/// A cached record together with what the file system says now of the
/// paths of `paths_to_check`.
#[derive(Clone, Debug, PartialEq, Eq)]
pub struct CachedRecord {
    pub environment: PythonEnvironment,
    pub live: Vec<Option<MTimeCTime>>,
}

/// Whether `outcomes` can be what validation makes of the records, given
/// what the locators declared.
pub open spec fn is_validation<L: Locator>(
    locators: Seq<L>,
    records: Seq<CachedRecord>,
    declared: Seq<Seq<PythonEnvironmentCategory>>,
    outcomes: Seq<ValidationView>,
) -> bool {
    &&& is_index(locators, declared)
    &&& outcomes.len() == records.len()
    &&& forall|k: int|
        0 <= k < records.len() ==> is_verdict(
            records[k].environment@,
            records[k].live@,
            declared,
            locators,
            #[trigger] outcomes[k],
        )
}

/// Validates the records of the cache, one after the other, and reports
/// those that still stand. The locators are asked once what they declare;
/// the verdicts come back in the order of the records.
pub fn report_validated_environments<L: Locator, R: Reporter>(
    reporter: &mut R,
    records: &Vec<CachedRecord>,
    locators: &Vec<L>,
) -> (outcomes: Vec<Validation>)
    ensures
        exists|declared: Seq<Seq<PythonEnvironmentCategory>>|
            is_validation(locators@, records@, declared, verdicts(outcomes@)),
        delivered(*old(reporter), reports_of_verdicts(verdicts(outcomes@)), *final(reporter)),
{
    let ghost start = *reporter;
    let declared = index_locators(locators);
    let ghost shown = declarations(declared@);
    assert(is_index(locators@, shown));
    let mut outcomes: Vec<Validation> = Vec::new();
    let mut k: usize = 0;
    assert(verdicts(outcomes@) =~= Seq::<ValidationView>::empty());
    while k < records.len()
        invariant
            shown == declarations(declared@),
            k <= records@.len(),
            outcomes@.len() == k,
            forall|j: int|
                0 <= j < k ==> is_verdict(
                    records@[j].environment@,
                    records@[j].live@,
                    shown,
                    locators@,
                    #[trigger] verdicts(outcomes@)[j],
                ),
            delivered(start, reports_of_verdicts(verdicts(outcomes@)), *reporter),
        decreases records@.len() - k,
    {
        let ghost before = *reporter;
        let ghost earlier = verdicts(outcomes@);
        let verdict = report_validated_environment(
            &records[k].environment,
            &records[k].live,
            &declared,
            locators,
            reporter,
        );
        proof {
            lemma_delivered_chain(
                start,
                reports_of_verdicts(earlier),
                before,
                reports_of_verdict(verdict@),
                *reporter,
            );
        }
        outcomes.push(verdict);
        proof {
            let now = verdicts(outcomes@);
            assert(now.drop_last() =~= earlier);
            assert(now.last() == verdict@);
            assert forall|j: int| 0 <= j < k + 1 implies is_verdict(
                records@[j].environment@,
                records@[j].live@,
                shown,
                locators@,
                #[trigger] now[j],
            ) by {
                if j < k {
                    assert(now[j] == earlier[j]);
                }
            }
        }
        k += 1;
    }
    assert(is_validation(locators@, records@, shown, verdicts(outcomes@)));
    outcomes
}

} // verus!
