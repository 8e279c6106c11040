//! The classified crates of a report and the shapes in which a category
//! holds them.

use crate::comparison::Comparison;
use crate::results::{TestResult, TestResultView};
use vstd::prelude::*;

verus! {

/// One run of a crate on one toolchain.
#[derive(Clone, Debug, PartialEq, Eq)]
pub struct Run {
    /// The identity of the toolchain.
    pub toolchain: String,
    /// The outcome of the run.
    pub res: TestResult,
    /// Where the full log of the run is found.
    pub log: String,
}

/// The mathematical value of a [`Run`].
pub struct RunView {
    pub toolchain: Seq<char>,
    pub res: TestResultView,
    pub log: Seq<char>,
}

impl View for Run {
    type V = RunView;

    open spec fn view(&self) -> RunView {
        RunView { toolchain: self.toolchain@, res: self.res@, log: self.log@ }
    }
}

impl Run {
    /// A copy of this run.
    pub fn duplicate(&self) -> (r: Run)
        ensures
            r@ == self@,
    {
        Run {
            toolchain: self.toolchain.clone(),
            res: self.res.duplicate(),
            log: self.log.clone(),
        }
    }
}

/// The view of a run that may be absent.
pub open spec fn run_view(run: Option<Run>) -> Option<RunView> {
    match run {
        Some(r) => Some(r@),
        None => None,
    }
}

/// The outcome of a run that may be absent.
pub open spec fn run_outcome(run: Option<RunView>) -> Option<TestResultView> {
    match run {
        Some(r) => Some(r.res),
        None => None,
    }
}

/// A copy of a run that may be absent.
pub fn duplicate_run(run: &Option<Run>) -> (r: Option<Run>)
    ensures
        run_view(r) == run_view(*run),
{
    match run {
        Some(inner) => Some(inner.duplicate()),
        None => None,
    }
}

/// A crate with its category and its runs, the baseline first.
#[derive(Clone, Debug, PartialEq, Eq)]
pub struct CrateResult {
    pub name: String,
    pub url: String,
    pub res: Comparison,
    pub runs: [Option<Run>; 2],
}

/// The mathematical value of a [`CrateResult`].
pub struct CrateResultView {
    pub name: Seq<char>,
    pub url: Seq<char>,
    pub res: Comparison,
    pub baseline: Option<RunView>,
    pub candidate: Option<RunView>,
}

impl View for CrateResult {
    type V = CrateResultView;

    open spec fn view(&self) -> CrateResultView {
        CrateResultView {
            name: self.name@,
            url: self.url@,
            res: self.res,
            baseline: run_view(self.runs[0]),
            candidate: run_view(self.runs[1]),
        }
    }
}

impl CrateResult {
    /// A copy of this crate result.
    pub fn duplicate(&self) -> (r: CrateResult)
        ensures
            r@ == self@,
    {
        let baseline = duplicate_run(&self.runs[0]);
        let candidate = duplicate_run(&self.runs[1]);
        CrateResult {
            name: self.name.clone(),
            url: self.url.clone(),
            res: self.res,
            runs: [baseline, candidate],
        }
    }
}

/// The views of a sequence of crate results.
pub open spec fn crate_views(crates: Seq<CrateResult>) -> Seq<CrateResultView> {
    Seq::new(crates.len(), |i: int| crates[i]@)
}

/// The crate results that share one key: a root crate, or the label of an
/// outcome.
#[derive(Clone, Debug, PartialEq, Eq)]
pub struct CrateGroup {
    pub key: String,
    pub crates: Vec<CrateResult>,
}

/// The mathematical value of a [`CrateGroup`].
pub struct CrateGroupView {
    pub key: Seq<char>,
    pub crates: Seq<CrateResultView>,
}

impl View for CrateGroup {
    type V = CrateGroupView;

    open spec fn view(&self) -> CrateGroupView {
        CrateGroupView { key: self.key@, crates: crate_views(self.crates@) }
    }
}

/// The views of a sequence of groups.
pub open spec fn group_views(groups: Seq<CrateGroup>) -> Seq<CrateGroupView> {
    Seq::new(groups.len(), |i: int| groups[i]@)
}

/// The keys of a sequence of groups, in their order.
pub open spec fn group_keys(groups: Seq<CrateGroupView>) -> Seq<Seq<char>> {
    Seq::new(groups.len(), |i: int| groups[i].key)
}

/// How many crates a sequence of groups holds, a crate counted once for
/// each group that it stands in.
pub open spec fn group_sizes(groups: Seq<CrateGroupView>) -> nat
    decreases groups.len(),
{
    if groups.len() == 0 {
        0
    } else {
        group_sizes(groups.drop_last()) + groups.last().crates.len()
    }
}

/// The crates of one category: a flat list, or, where crates were evaluated
/// together with their dependents, the same crates grouped twice.
#[derive(Clone, Debug, PartialEq, Eq)]
pub enum ReportCrates {
    Plain(Vec<CrateResult>),
    Complete {
        /// The crates under the root crate that brought them in.
        tree: Vec<CrateGroup>,
        /// The crates under the label of their outcome.
        results: Vec<CrateGroup>,
    },
}

/// The mathematical value of a [`ReportCrates`].
pub enum ReportCratesView {
    Plain(Seq<CrateResultView>),
    Complete { tree: Seq<CrateGroupView>, results: Seq<CrateGroupView> },
}

impl View for ReportCrates {
    type V = ReportCratesView;

    open spec fn view(&self) -> ReportCratesView {
        match self {
            ReportCrates::Plain(crates) => ReportCratesView::Plain(crate_views(crates@)),
            ReportCrates::Complete { tree, results } => ReportCratesView::Complete {
                tree: group_views(tree@),
                results: group_views(results@),
            },
        }
    }
}

/// One category of a report with its crates.
#[derive(Clone, Debug, PartialEq, Eq)]
pub struct Category {
    pub comparison: Comparison,
    pub crates: ReportCrates,
}

/// The mathematical value of a [`Category`].
pub struct CategoryView {
    pub comparison: Comparison,
    pub crates: ReportCratesView,
}

impl View for Category {
    type V = CategoryView;

    open spec fn view(&self) -> CategoryView {
        CategoryView { comparison: self.comparison, crates: self.crates@ }
    }
}

/// The views of a sequence of categories.
pub open spec fn category_views(categories: Seq<Category>) -> Seq<CategoryView> {
    Seq::new(categories.len(), |i: int| categories[i]@)
}

/// The categories of a list of categories, in its order.
pub open spec fn category_keys(categories: Seq<CategoryView>) -> Seq<Comparison> {
    Seq::new(categories.len(), |i: int| categories[i].comparison)
}

/// How many crates a category holds: the crates of its list, or those of
/// its tree.
pub open spec fn crate_count(crates: ReportCratesView) -> nat {
    match crates {
        ReportCratesView::Plain(list) => list.len(),
        ReportCratesView::Complete { tree, .. } => group_sizes(tree),
    }
}

/// How many crates a category holds.
#[derive(Clone, Copy, Debug, PartialEq, Eq, Structural)]
pub struct CategoryCount {
    pub comparison: Comparison,
    pub count: u32,
}

/// The classified crates of an experiment, category by category, and the
/// number of crates in each.
///
/// Both lists stand for mappings from a category: they hold each category at
/// most once, in the order in which the categories were first met.
#[derive(Clone, Debug, PartialEq, Eq)]
pub struct TestResults {
    pub categories: Vec<Category>,
    pub info: Vec<CategoryCount>,
}

/// The mathematical value of a [`TestResults`].
pub struct TestResultsView {
    pub categories: Seq<CategoryView>,
    pub info: Seq<CategoryCount>,
}

impl View for TestResults {
    type V = TestResultsView;

    open spec fn view(&self) -> TestResultsView {
        TestResultsView { categories: category_views(self.categories@), info: self.info@ }
    }
}

impl TestResultsView {
    /// Whether the lists of a report stand for mappings: no category occurs
    /// twice, beside each category stands the number of its crates, and in
    /// the complete shape no root and no label occurs twice.
    pub open spec fn wf(self) -> bool {
        &&& category_keys(self.categories).no_duplicates()
        &&& self.info.len() == self.categories.len()
        &&& forall|i: int|
            0 <= i < self.categories.len() ==> (#[trigger] self.info[i]).comparison
                == self.categories[i].comparison && self.info[i].count == crate_count(
                self.categories[i].crates,
            ) as u32
        &&& forall|i: int|
            0 <= i < self.categories.len() ==> (
            (#[trigger] self.categories[i]).crates matches ReportCratesView::Complete {
                tree,
                results,
            } ==> group_keys(tree).no_duplicates() && group_keys(results).no_duplicates())
    }
}

} // verus!
