//! Assembly of a report: every crate is classified, the crates are grouped by
//! category, and each category takes the shape that its crates call for.

use crate::comparison::{classify_confirmed, classify_confirmed_spec, outcome_view, Comparison};
use crate::display::{result_name, ResultName};
use crate::distinct::{distinct, lemma_distinct_holds};
use crate::grouping::{
    group_crates, grouped, key_views, lemma_grouped_holds, lemma_grouped_sizes,
    lemma_pick_holds, lemma_present_all, lemma_present_holds, lemma_take_step, pick, present,
};
use crate::report::{
    category_keys, category_views, crate_count, crate_views, duplicate_run, group_keys,
    group_sizes, run_outcome, run_view, Category, CategoryCount, CategoryView, CrateResult,
    CrateResultView, ReportCrates, ReportCratesView, Run, RunView, TestResults,
    TestResultsView,
};
use crate::results::{FailureReason, FailureReasonView, TestResult, TestResultView};
use vstd::prelude::*;

verus! {

/// What is known of one crate before it is classified.
#[derive(Clone, Debug, PartialEq, Eq)]
pub struct CrateRuns {
    pub name: String,
    pub url: String,
    /// The run on the baseline toolchain, if there was one.
    pub baseline: Option<Run>,
    /// The run on the candidate toolchain, if there was one.
    pub candidate: Option<Run>,
    /// The root crate that brought this crate into the experiment, where the
    /// experiment evaluates crates together with their dependents.
    pub root: Option<String>,
    /// The outcome of a second run on the candidate toolchain, where one was
    /// made to confirm a difference.
    pub rerun: Option<TestResult>,
}

/// The mathematical value of a [`CrateRuns`].
pub struct CrateRunsView {
    pub name: Seq<char>,
    pub url: Seq<char>,
    pub baseline: Option<RunView>,
    pub candidate: Option<RunView>,
    pub root: Option<Seq<char>>,
    pub rerun: Option<TestResultView>,
}

impl View for CrateRuns {
    type V = CrateRunsView;

    open spec fn view(&self) -> CrateRunsView {
        CrateRunsView {
            name: self.name@,
            url: self.url@,
            baseline: run_view(self.baseline),
            candidate: run_view(self.candidate),
            root: match self.root {
                Some(root) => Some(root@),
                None => None,
            },
            rerun: match self.rerun {
                Some(res) => Some(res@),
                None => None,
            },
        }
    }
}

/// The views of a sequence of crates.
pub open spec fn crate_runs_views(crates: Seq<CrateRuns>) -> Seq<CrateRunsView> {
    Seq::new(crates.len(), |i: int| crates[i]@)
}

/// The category of a crate.
pub open spec fn category_of(krate: CrateRunsView) -> Comparison {
    classify_confirmed_spec(
        run_outcome(krate.baseline),
        run_outcome(krate.candidate),
        krate.rerun,
    )
}

/// A crate with its category.
pub open spec fn classified(krate: CrateRunsView) -> CrateResultView {
    CrateResultView {
        name: krate.name,
        url: krate.url,
        res: category_of(krate),
        baseline: krate.baseline,
        candidate: krate.candidate,
    }
}

/// The key of a crate in the tree of a category: its root, or its own name
/// where it has none and so is a root itself.
pub open spec fn root_key(krate: CrateRunsView) -> Seq<char> {
    match krate.root {
        Some(root) => root,
        None => krate.name,
    }
}

/// The label under which an outcome is listed: the compiler's own text where
/// the reason of a failure is a compiler error, else the outcome's name.
pub open spec fn result_label_spec(res: TestResultView) -> Seq<char> {
    match res {
        TestResultView::BuildFail(FailureReasonView::CompilerError(text)) => text,
        TestResultView::TestFail(FailureReasonView::CompilerError(text)) => text,
        other => result_name(other),
    }
}

/// The label under which a crate is listed: that of its outcome on the
/// candidate toolchain, or on the baseline where the candidate did not run.
/// A crate without a run has none.
pub open spec fn label_of(krate: CrateRunsView) -> Option<Seq<char>> {
    match krate.candidate {
        Some(run) => Some(result_label_spec(run.res)),
        None => match krate.baseline {
            Some(run) => Some(result_label_spec(run.res)),
            None => None,
        },
    }
}

/// The category of each crate, at the crate's position.
pub open spec fn categories_of(crates: Seq<CrateRunsView>) -> Seq<Option<Comparison>> {
    Seq::new(crates.len(), |i: int| Some(category_of(crates[i])))
}

/// The crates of a category, in their order.
pub open spec fn members(crates: Seq<CrateRunsView>, category: Comparison) -> Seq<
    CrateRunsView,
> {
    pick(categories_of(crates), crates, category)
}

/// The categories that hold a crate, in the order in which each is first
/// met.
pub open spec fn category_order(crates: Seq<CrateRunsView>) -> Seq<Comparison> {
    distinct(present(categories_of(crates)))
}

/// Whether one of the crates carries a root.
pub open spec fn carries_root(crates: Seq<CrateRunsView>) -> bool {
    exists|i: int| 0 <= i < crates.len() && (#[trigger] crates[i]).root is Some
}

/// The crates with their categories, in their order.
pub open spec fn classified_all(crates: Seq<CrateRunsView>) -> Seq<CrateResultView> {
    Seq::new(crates.len(), |i: int| classified(crates[i]))
}

/// The key of each crate in the tree, at the crate's position.
pub open spec fn root_keys(crates: Seq<CrateRunsView>) -> Seq<Option<Seq<char>>> {
    Seq::new(crates.len(), |i: int| Some(root_key(crates[i])))
}

/// The label of each crate, at the crate's position.
pub open spec fn label_keys(crates: Seq<CrateRunsView>) -> Seq<Option<Seq<char>>> {
    Seq::new(crates.len(), |i: int| label_of(crates[i]))
}

/// The shape in which a category holds its crates: a plain list where none
/// of them carries a root; else the crates grouped under their roots and,
/// beside that, under the labels of their outcomes.
pub open spec fn shape_of(crates: Seq<CrateRunsView>) -> ReportCratesView {
    if carries_root(crates) {
        ReportCratesView::Complete {
            tree: grouped(root_keys(crates), classified_all(crates)),
            results: grouped(label_keys(crates), classified_all(crates)),
        }
    } else {
        ReportCratesView::Plain(classified_all(crates))
    }
}

/// The report of a sequence of crates.
pub open spec fn assemble_spec(crates: Seq<CrateRunsView>) -> TestResultsView {
    let order = category_order(crates);
    TestResultsView {
        categories: Seq::new(
            order.len(),
            |i: int|
                CategoryView { comparison: order[i], crates: shape_of(members(crates, order[i])) },
        ),
        info: Seq::new(
            order.len(),
            |i: int|
                CategoryCount {
                    comparison: order[i],
                    count: members(crates, order[i]).len() as u32,
                },
        ),
    }
}

/// The outcome of a run that may be absent.
fn outcome_of(run: &Option<Run>) -> (res: Option<&TestResult>)
    ensures
        outcome_view(res) == run_outcome(run_view(*run)),
{
    match run {
        Some(r) => Some(&r.res),
        None => None,
    }
}

/// The category of a crate.
pub fn classify_crate(krate: &CrateRuns) -> (category: Comparison)
    ensures
        category == category_of(krate@),
{
    let rerun = match &krate.rerun {
        Some(res) => Some(res),
        None => None,
    };
    classify_confirmed(outcome_of(&krate.baseline), outcome_of(&krate.candidate), rerun)
}

/// The label under which an outcome is listed.
pub fn result_label(res: &TestResult) -> (label: String)
    ensures
        label@ == result_label_spec(res@),
{
    match res {
        TestResult::BuildFail(FailureReason::CompilerError(text)) => text.clone(),
        TestResult::TestFail(FailureReason::CompilerError(text)) => text.clone(),
        other => other.name(),
    }
}

/// The label under which a crate is listed, if it has a run.
pub fn crate_label(krate: &CrateRuns) -> (label: Option<String>)
    ensures
        match label {
            Some(text) => label_of(krate@) == Some(text@),
            None => label_of(krate@) is None,
        },
{
    match &krate.candidate {
        Some(run) => Some(result_label(&run.res)),
        None => match &krate.baseline {
            Some(run) => Some(result_label(&run.res)),
            None => None,
        },
    }
}

/// The key of a crate in the tree of a category.
pub fn crate_root_key(krate: &CrateRuns) -> (key: String)
    ensures
        key@ == root_key(krate@),
{
    match &krate.root {
        Some(root) => root.clone(),
        None => krate.name.clone(),
    }
}

/// The category of each crate, at the crate's position.
fn classify_all(crates: &Vec<CrateRuns>) -> (categories: Vec<Comparison>)
    ensures
        categories@.len() == crates@.len(),
        forall|i: int|
            0 <= i < crates@.len() ==> #[trigger] categories@[i] == category_of(crates@[i]@),
{
    let mut categories: Vec<Comparison> = Vec::new();
    let mut i: usize = 0;
    while i < crates.len()
        invariant
            i <= crates@.len(),
            categories@.len() == i,
            forall|j: int| 0 <= j < i ==> #[trigger] categories@[j] == category_of(crates@[j]@),
        decreases crates@.len() - i,
    {
        categories.push(classify_crate(&crates[i]));
        i = i + 1;
    }
    categories
}

/// The distinct categories, in the order in which each is first met.
fn distinct_categories(categories: &Vec<Comparison>) -> (order: Vec<Comparison>)
    ensures
        order@ == distinct(categories@),
{
    let mut order: Vec<Comparison> = Vec::new();
    let mut i: usize = 0;
    assert(categories@.take(0) =~= Seq::<Comparison>::empty());
    while i < categories.len()
        invariant
            i <= categories@.len(),
            order@ == distinct(categories@.take(i as int)),
        decreases categories@.len() - i,
    {
        let category = categories[i];
        proof {
            let next = categories@.take(i as int + 1);
            assert(next.drop_last() =~= categories@.take(i as int));
            assert(next.last() == category);
        }
        let mut found = false;
        let mut j: usize = 0;
        while j < order.len()
            invariant
                j <= order@.len(),
                found == exists|k: int| 0 <= k < j && order@[k] == category,
            decreases order@.len() - j,
        {
            if order[j] == category {
                found = true;
            }
            j = j + 1;
        }
        if !found {
            order.push(category);
        }
        i = i + 1;
    }
    assert(categories@.take(i as int) =~= categories@);
    order
}

/// The crates of one category, classified, with the key of each in the tree
/// and its label, and whether one of them carries a root.
struct Members {
    crates: Vec<CrateResult>,
    roots: Vec<Option<String>>,
    labels: Vec<Option<String>>,
    rooted: bool,
}

impl Members {
    /// Whether these are the given crates, classified.
    spec fn holds(&self, source: Seq<CrateRunsView>) -> bool {
        &&& crate_views(self.crates@) == classified_all(source)
        &&& key_views(self.roots@) == root_keys(source)
        &&& key_views(self.labels@) == label_keys(source)
        &&& self.rooted == carries_root(source)
    }
}

/// Collects the crates of one category.
fn collect_members(crates: &Vec<CrateRuns>, categories: &Vec<Comparison>, category: Comparison) -> (found:
    Members)
    requires
        categories@.len() == crates@.len(),
        forall|i: int|
            0 <= i < crates@.len() ==> #[trigger] categories@[i] == category_of(crates@[i]@),
    ensures
        found.holds(members(crate_runs_views(crates@), category)),
{
    let ghost source = crate_runs_views(crates@);
    let ghost keys = categories_of(source);
    let mut found = Members {
        crates: Vec::new(),
        roots: Vec::new(),
        labels: Vec::new(),
        rooted: false,
    };
    let mut i: usize = 0;
    proof {
        assert(keys.take(0) =~= Seq::<Option<Comparison>>::empty());
        let none = pick(keys.take(0), source.take(0), category);
        assert(crate_views(found.crates@) =~= classified_all(none));
        assert(key_views(found.roots@) =~= root_keys(none));
        assert(key_views(found.labels@) =~= label_keys(none));
    }
    while i < crates.len()
        invariant
            i <= crates@.len(),
            categories@.len() == crates@.len(),
            forall|j: int|
                0 <= j < crates@.len() ==> #[trigger] categories@[j] == category_of(crates@[j]@),
            source == crate_runs_views(crates@),
            keys == categories_of(source),
            found.holds(pick(keys.take(i as int), source.take(i as int), category)),
        decreases crates@.len() - i,
    {
        let ghost before = pick(keys.take(i as int), source.take(i as int), category);
        proof {
            lemma_take_step(keys, source, category, i as int);
            assert(categories@[i as int] == category_of(crates@[i as int]@));
        }
        if categories[i] == category {
            let krate = &crates[i];
            let ghost after = before.push(krate@);
            let ghost old_crates = crate_views(found.crates@);
            let ghost old_roots = key_views(found.roots@);
            let ghost old_labels = key_views(found.labels@);
            let baseline = duplicate_run(&krate.baseline);
            let candidate = duplicate_run(&krate.candidate);
            found.crates.push(
                CrateResult {
                    name: krate.name.clone(),
                    url: krate.url.clone(),
                    res: category,
                    runs: [baseline, candidate],
                },
            );
            found.roots.push(Some(crate_root_key(krate)));
            found.labels.push(crate_label(krate));
            if krate.root.is_some() {
                found.rooted = true;
            }
            proof {
                assert(crate_views(found.crates@) =~= old_crates.push(classified(krate@)));
                assert(classified_all(after) =~= classified_all(before).push(classified(krate@)));
                assert(key_views(found.roots@) =~= old_roots.push(Some(root_key(krate@))));
                assert(root_keys(after) =~= root_keys(before).push(Some(root_key(krate@))));
                assert(key_views(found.labels@) =~= old_labels.push(label_of(krate@)));
                assert(label_keys(after) =~= label_keys(before).push(label_of(krate@)));
                if carries_root(before) {
                    let k = choose|k: int| 0 <= k < before.len() && (#[trigger] before[k]).root is Some;
                    assert(after[k].root is Some);
                }
                if krate@.root is Some {
                    assert(after[before.len() as int].root is Some);
                }
                if carries_root(after) {
                    let k = choose|k: int| 0 <= k < after.len() && (#[trigger] after[k]).root is Some;
                    if k < before.len() {
                        assert(before[k].root is Some);
                    }
                }
            }
        }
        i = i + 1;
    }
    proof {
        assert(keys.take(i as int) =~= keys);
        assert(source.take(i as int) =~= source);
    }
    found
}

/// Assembles the report of an experiment from what is known of its crates.
///
/// Every crate falls into exactly one category. The categories stand in the
/// order in which they are first met; a category holds its crates in their
/// order, as a plain list where none carries a root and in the complete
/// shape otherwise.
pub fn assemble(crates: &Vec<CrateRuns>) -> (res: TestResults)
    ensures
        res@ == assemble_spec(crate_runs_views(crates@)),
        res@.wf(),
{
    let ghost source = crate_runs_views(crates@);
    let ghost expected = assemble_spec(source);
    proof {
        lemma_assemble_wf(source);
    }
    let assigned = classify_all(crates);
    let order = distinct_categories(&assigned);
    proof {
        lemma_present_all(assigned@, categories_of(source));
    }
    let mut categories: Vec<Category> = Vec::new();
    let mut info: Vec<CategoryCount> = Vec::new();
    let mut i: usize = 0;
    while i < order.len()
        invariant
            i <= order@.len(),
            assigned@.len() == crates@.len(),
            forall|j: int|
                0 <= j < crates@.len() ==> #[trigger] assigned@[j] == category_of(crates@[j]@),
            source == crate_runs_views(crates@),
            expected == assemble_spec(source),
            order@ == category_order(source),
            category_views(categories@) == expected.categories.take(i as int),
            info@ == expected.info.take(i as int),
        decreases order@.len() - i,
    {
        let category = order[i];
        let found = collect_members(crates, &assigned, category);
        let count = #[verifier::truncate]
        (found.crates.len() as u32);
        proof {
            let held = members(source, category);
            assert(crate_views(found.crates@).len() == classified_all(held).len());
            assert(key_views(found.roots@).len() == root_keys(held).len());
            assert(key_views(found.labels@).len() == label_keys(held).len());
        }
        let shape = if found.rooted {
            let tree = group_crates(&found.roots, &found.crates);
            let results = group_crates(&found.labels, &found.crates);
            ReportCrates::Complete { tree, results }
        } else {
            ReportCrates::Plain(found.crates)
        };
        let ghost old_categories = category_views(categories@);
        categories.push(Category { comparison: category, crates: shape });
        info.push(CategoryCount { comparison: category, count });
        proof {
            assert(category_views(categories@) =~= old_categories.push(
                expected.categories[i as int],
            ));
            assert(expected.categories.take(i as int + 1) =~= expected.categories.take(
                i as int,
            ).push(expected.categories[i as int]));
            assert(expected.info.take(i as int + 1) =~= expected.info.take(i as int).push(
                expected.info[i as int],
            ));
        }
        i = i + 1;
    }
    proof {
        assert(expected.categories.take(i as int) =~= expected.categories);
        assert(expected.info.take(i as int) =~= expected.info);
    }
    TestResults { categories, info }
}

/// A category holds its crates as a plain list exactly when none of them
/// carries a root, and in the complete shape otherwise. In the tree of the
/// complete shape no root occurs twice, every crate of the category stands
/// under its root, or under its own name where it has none, a root holds no
/// crate but those that belong under it, and the roots hold, taken
/// together, as many crates as the category has: each stands under one
/// root and under no other.
pub proof fn lemma_shape_exclusive(crates: Seq<CrateRunsView>)
    ensures
        shape_of(crates) is Plain <==> !carries_root(crates),
        shape_of(crates) is Complete <==> carries_root(crates),
        shape_of(crates) matches ReportCratesView::Plain(list) ==> list == classified_all(crates),
        shape_of(crates) matches ReportCratesView::Complete { tree, results } ==> {
            &&& group_keys(tree).no_duplicates()
            &&& group_sizes(tree) == crates.len()
            &&& forall|i: int|
                0 <= i < crates.len() ==> exists|g: int|
                    0 <= g < tree.len() && (#[trigger] tree[g]).key == root_key(
                        #[trigger] crates[i],
                    ) && tree[g].crates.contains(classified(crates[i]))
            &&& forall|g: int, krate: CrateResultView|
                0 <= g < tree.len() && #[trigger] tree[g].crates.contains(krate) ==> exists|
                    i: int,
                |
                    0 <= i < crates.len() && root_key(#[trigger] crates[i]) == tree[g].key
                        && classified(crates[i]) == krate
        },
{
    if let ReportCratesView::Complete { tree, results } = shape_of(crates) {
        let keys = root_keys(crates);
        let all = classified_all(crates);
        lemma_grouped_holds(keys, all);
        lemma_grouped_sizes(keys, all);
        lemma_present_all(Seq::new(crates.len(), |i: int| root_key(crates[i])), keys);
        assert forall|i: int| 0 <= i < crates.len() implies exists|g: int|
            0 <= g < tree.len() && (#[trigger] tree[g]).key == root_key(#[trigger] crates[i])
                && tree[g].crates.contains(classified(crates[i])) by {
            assert(keys[i] is Some);
            assert(keys[i]->0 == root_key(crates[i]));
            assert(all[i] == classified(crates[i]));
        }
        assert forall|g: int, krate: CrateResultView|
            0 <= g < tree.len() && #[trigger] tree[g].crates.contains(krate) implies exists|i: int|
            0 <= i < crates.len() && root_key(#[trigger] crates[i]) == tree[g].key && classified(
                crates[i],
            ) == krate by {
            let i = choose|i: int|
                0 <= i < keys.len() && keys[i] == Some(tree[g].key) && #[trigger] all[i] == krate;
            assert(root_key(crates[i]) == tree[g].key);
            assert(classified(crates[i]) == krate);
        }
    }
}

/// In an assembled report no category occurs twice, every crate stands in
/// the category that it is classified into and in no other, a category
/// holds no crate but those classified into it, and beside each category
/// stands the number of its crates.
pub proof fn lemma_assemble_partitions(crates: Seq<CrateRunsView>)
    ensures
        assemble_spec(crates).categories.len() == category_order(crates).len(),
        assemble_spec(crates).info.len() == category_order(crates).len(),
        category_order(crates).no_duplicates(),
        forall|c: int|
            0 <= c < category_order(crates).len() ==> {
                &&& (#[trigger] assemble_spec(crates).categories[c]).comparison == category_order(
                    crates,
                )[c]
                &&& assemble_spec(crates).categories[c].crates == shape_of(
                    members(crates, category_order(crates)[c]),
                )
                &&& assemble_spec(crates).info[c].comparison == category_order(crates)[c]
                &&& assemble_spec(crates).info[c].count == members(
                    crates,
                    category_order(crates)[c],
                ).len() as u32
            },
        forall|i: int|
            0 <= i < crates.len() ==> category_order(crates).contains(
                category_of(#[trigger] crates[i]),
            ) && members(crates, category_of(crates[i])).contains(crates[i]),
        forall|category: Comparison, krate: CrateRunsView| #[trigger]
            members(crates, category).contains(krate) ==> category_of(krate) == category
                && crates.contains(krate),
{
    let keys = categories_of(crates);
    lemma_distinct_holds(present(keys));
    lemma_present_holds(keys);
    assert forall|i: int| 0 <= i < crates.len() implies category_order(crates).contains(
        category_of(#[trigger] crates[i]),
    ) && members(crates, category_of(crates[i])).contains(crates[i]) by {
        let category = category_of(crates[i]);
        assert(keys[i] == Some(category));
        assert(keys.contains(Some(category)));
        assert(present(keys).contains(category));
        assert(present(keys).to_set().contains(category));
        assert(category_order(crates).to_set().contains(category));
        lemma_pick_holds(keys, crates, category);
    }
    assert forall|category: Comparison, krate: CrateRunsView| #[trigger]
        members(crates, category).contains(krate) implies category_of(krate) == category
        && crates.contains(krate) by {
        lemma_pick_holds(keys, crates, category);
        let i = choose|i: int|
            0 <= i < keys.len() && keys[i] == Some(category) && #[trigger] crates[i] == krate;
        assert(keys[i] == Some(category_of(crates[i])));
    }
}

/// An assembled report is well formed.
pub proof fn lemma_assemble_wf(crates: Seq<CrateRunsView>)
    ensures
        assemble_spec(crates).wf(),
{
    let report = assemble_spec(crates);
    let order = category_order(crates);
    lemma_assemble_partitions(crates);
    assert(category_keys(report.categories) =~= order);
    assert forall|i: int| 0 <= i < report.categories.len() implies (#[trigger] report.info[i]).comparison
        == report.categories[i].comparison && report.info[i].count == crate_count(
        report.categories[i].crates,
    ) as u32 by {
        let held = members(crates, order[i]);
        lemma_shape_exclusive(held);
        assert(report.categories[i].crates == shape_of(held));
        assert(classified_all(held).len() == held.len());
    }
    assert forall|i: int| 0 <= i < report.categories.len() implies (
    (#[trigger] report.categories[i]).crates matches ReportCratesView::Complete { tree, results }
        ==> group_keys(tree).no_duplicates() && group_keys(results).no_duplicates()) by {
        let held = members(crates, order[i]);
        assert(report.categories[i].crates == shape_of(held));
        if carries_root(held) {
            lemma_grouped_holds(root_keys(held), classified_all(held));
            lemma_grouped_holds(label_keys(held), classified_all(held));
        }
    }
}

} // verus!
