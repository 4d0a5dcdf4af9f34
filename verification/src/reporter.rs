//! Where results go: the reporter that every task of a scan hands its
//! results to, and what it means that a list of reports was delivered.

use vstd::prelude::*;

use crate::environment::{
    EnvManager, EnvManagerView, PythonEnvironment, PythonEnvironmentView,
};

verus! {

/// One result handed to a reporter.
#[derive(Clone, Debug, PartialEq, Eq)]
pub enum Report {
    Manager(EnvManager),
    Environment(PythonEnvironment),
}

/// A report as the contracts see it.
pub enum ReportView {
    Manager(EnvManagerView),
    Environment(PythonEnvironmentView),
}

impl View for Report {
    type V = ReportView;

    open spec fn view(&self) -> ReportView {
        match self {
            Report::Manager(manager) => ReportView::Manager(manager@),
            Report::Environment(env) => ReportView::Environment(env@),
        }
    }
}

/// Where results go. Each task of a scan holds a reporter of its own, which
/// may pass what it is given on to a sink shared by all of them. The same
/// environment may be reported more than once; telling duplicates apart is
/// for whoever reads the reports.
///
/// A reporter may say of itself, through `took`, what taking a report does
/// to it. What the engine proves about the reports it hands over it proves
/// from that, so it holds of a reporter as far as the reporter keeps to
/// what it says.
pub trait Reporter: Sized {
    /// Whether `after` can be this reporter once it has taken `report`.
    /// An implementation that says nothing of itself leaves this at `true`.
    open spec fn took(&self, report: ReportView, after: &Self) -> bool {
        true
    }

    /// Takes a manager.
    fn report_manager(&mut self, manager: &EnvManager)
        ensures
            old(self).took(ReportView::Manager(manager@), final(self)),
    ;

    /// Takes an environment.
    fn report_environment(&mut self, env: &PythonEnvironment)
        ensures
            old(self).took(ReportView::Environment(env@), final(self)),
    ;
}

/// Whether `after` can be the reporter `before` once it has taken `reports`,
/// one after the other and nothing else.
pub open spec fn delivered<R: Reporter>(before: R, reports: Seq<ReportView>, after: R) -> bool
    decreases reports.len(),
{
    if reports.len() == 0 {
        after == before
    } else {
        exists|mid: R|
            #![trigger mid.took(reports.last(), &after)]
            delivered(before, reports.drop_last(), mid) && mid.took(reports.last(), &after)
    }
}

/// A reporter that keeps what it is handed, in the order in which it came.
#[derive(Clone, Debug, PartialEq, Eq)]
pub struct Collector {
    pub reports: Vec<Report>,
}

/// What a list of reports holds.
pub open spec fn reports(list: Seq<Report>) -> Seq<ReportView> {
    Seq::new(list.len(), |i: int| list[i]@)
}

impl Collector {
    /// A collector that holds nothing yet.
    pub fn new() -> (collector: Collector)
        ensures
            collector.reports@.len() == 0,
    {
        Collector { reports: Vec::new() }
    }
}

impl Reporter for Collector {
    open spec fn took(&self, report: ReportView, after: &Self) -> bool {
        reports(after.reports@) == reports(self.reports@).push(report)
    }

    fn report_manager(&mut self, manager: &EnvManager) {
        let ghost before = reports(self.reports@);
        self.reports.push(Report::Manager(manager.duplicate()));
        assert(reports(self.reports@) =~= before.push(ReportView::Manager(manager@)));
    }

    fn report_environment(&mut self, env: &PythonEnvironment) {
        let ghost before = reports(self.reports@);
        self.reports.push(Report::Environment(env.duplicate()));
        assert(reports(self.reports@) =~= before.push(ReportView::Environment(env@)));
    }
}

/// What was delivered to a collector is what it has come to hold.
pub proof fn lemma_collected(before: Collector, given: Seq<ReportView>, after: Collector)
    requires
        delivered(before, given, after),
    ensures
        reports(after.reports@) == reports(before.reports@) + given,
    decreases given.len(),
{
    if given.len() == 0 {
        assert(reports(before.reports@) + given =~= reports(before.reports@));
    } else {
        let mid = choose|mid: Collector|
            #![trigger mid.took(given.last(), &after)]
            delivered(before, given.drop_last(), mid) && mid.took(given.last(), &after);
        lemma_collected(before, given.drop_last(), mid);
        assert(reports(before.reports@) + given =~= (reports(before.reports@)
            + given.drop_last()).push(given.last()));
    }
}

/// Handing one more report to a reporter extends what was delivered.
pub proof fn lemma_delivered_push<R: Reporter>(
    before: R,
    reports: Seq<ReportView>,
    mid: R,
    report: ReportView,
    after: R,
)
    requires
        delivered(before, reports, mid),
        mid.took(report, &after),
    ensures
        delivered(before, reports.push(report), after),
{
    assert(reports.push(report).drop_last() =~= reports);
    assert(reports.push(report).last() == report);
}

/// Two deliveries in a row are one delivery of both lists.
pub proof fn lemma_delivered_chain<R: Reporter>(
    before: R,
    first: Seq<ReportView>,
    mid: R,
    second: Seq<ReportView>,
    after: R,
)
    requires
        delivered(before, first, mid),
        delivered(mid, second, after),
    ensures
        delivered(before, first + second, after),
    decreases second.len(),
{
    if second.len() == 0 {
        assert(first + second =~= first);
    } else {
        let step = choose|step: R|
            #![trigger step.took(second.last(), &after)]
            delivered(mid, second.drop_last(), step) && step.took(second.last(), &after);
        lemma_delivered_chain(before, first, mid, second.drop_last(), step);
        assert((first + second).drop_last() =~= first + second.drop_last());
        assert((first + second).last() == second.last());
    }
}

/// What is reported of one environment: its manager, where it has one, and
/// then the environment itself.
pub open spec fn reports_of(env: PythonEnvironmentView) -> Seq<ReportView> {
    match env.manager {
        Some(manager) => seq![ReportView::Manager(manager), ReportView::Environment(env)],
        None => seq![ReportView::Environment(env)],
    }
}

/// Hands an environment to the reporter, its manager first.
pub fn report_environment<R: Reporter>(reporter: &mut R, env: &PythonEnvironment)
    ensures
        delivered(*old(reporter), reports_of(env@), *final(reporter)),
{
    let ghost start = *reporter;
    let ghost none = Seq::<ReportView>::empty();
    assert(delivered(start, none, start));
    match &env.manager {
        Some(manager) => {
            reporter.report_manager(manager);
            let ghost mid = *reporter;
            proof {
                lemma_delivered_push(start, none, start, ReportView::Manager(manager@), mid);
            }
            reporter.report_environment(env);
            proof {
                lemma_delivered_push(
                    start,
                    none.push(ReportView::Manager(manager@)),
                    mid,
                    ReportView::Environment(env@),
                    *reporter,
                );
                assert(none.push(ReportView::Manager(manager@)).push(ReportView::Environment(env@))
                    =~= reports_of(env@));
            }
        },
        None => {
            reporter.report_environment(env);
            proof {
                lemma_delivered_push(start, none, start, ReportView::Environment(env@), *reporter);
                assert(none.push(ReportView::Environment(env@)) =~= reports_of(env@));
            }
        },
    }
}

} // verus!
