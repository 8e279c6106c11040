//! The data that a page of the report is rendered from.

use crate::comparison::Comparison;
use crate::distinct::{
    extend_distinct, is_prefix, lemma_extend_distinct_concat, lemma_extend_distinct_holds,
};
use crate::report::{
    crate_views, group_views, run_view, CrateGroup, CrateGroupView, CrateResult,
    CrateResultView, Run, RunView,
};
use crate::results::TestResultView;
use crate::table::ResultTable;
use vstd::prelude::*;

verus! {

/// A run as a page shows it: the index of its outcome in the table of
/// outcomes, and its log.
#[derive(Clone, Debug, PartialEq, Eq)]
pub struct BuildTestResultHTML {
    pub res: usize,
    pub log: String,
}

/// The mathematical value of a [`BuildTestResultHTML`].
pub struct BuildTestResultHTMLView {
    pub res: int,
    pub log: Seq<char>,
}

impl View for BuildTestResultHTML {
    type V = BuildTestResultHTMLView;

    open spec fn view(&self) -> BuildTestResultHTMLView {
        BuildTestResultHTMLView { res: self.res as int, log: self.log@ }
    }
}

/// The view of a shown run that may be absent.
pub open spec fn html_run_view(run: Option<BuildTestResultHTML>) -> Option<
    BuildTestResultHTMLView,
> {
    match run {
        Some(r) => Some(r@),
        None => None,
    }
}

/// A crate as a page shows it.
#[derive(Clone, Debug, PartialEq, Eq)]
pub struct CrateResultHTML {
    pub name: String,
    pub url: String,
    pub res: Comparison,
    pub runs: [Option<BuildTestResultHTML>; 2],
}

/// The mathematical value of a [`CrateResultHTML`].
pub struct CrateResultHTMLView {
    pub name: Seq<char>,
    pub url: Seq<char>,
    pub res: Comparison,
    pub baseline: Option<BuildTestResultHTMLView>,
    pub candidate: Option<BuildTestResultHTMLView>,
}

impl View for CrateResultHTML {
    type V = CrateResultHTMLView;

    open spec fn view(&self) -> CrateResultHTMLView {
        CrateResultHTMLView {
            name: self.name@,
            url: self.url@,
            res: self.res,
            baseline: html_run_view(self.runs[0]),
            candidate: html_run_view(self.runs[1]),
        }
    }
}

/// The views of a sequence of shown crates.
pub open spec fn html_crate_views(crates: Seq<CrateResultHTML>) -> Seq<CrateResultHTMLView> {
    Seq::new(crates.len(), |i: int| crates[i]@)
}

/// The shown crates that share one key.
#[derive(Clone, Debug, PartialEq, Eq)]
pub struct CrateGroupHTML {
    pub key: String,
    pub crates: Vec<CrateResultHTML>,
}

/// The mathematical value of a [`CrateGroupHTML`].
pub struct CrateGroupHTMLView {
    pub key: Seq<char>,
    pub crates: Seq<CrateResultHTMLView>,
}

impl View for CrateGroupHTML {
    type V = CrateGroupHTMLView;

    open spec fn view(&self) -> CrateGroupHTMLView {
        CrateGroupHTMLView { key: self.key@, crates: html_crate_views(self.crates@) }
    }
}

/// The views of a sequence of shown groups.
pub open spec fn html_group_views(groups: Seq<CrateGroupHTML>) -> Seq<CrateGroupHTMLView> {
    Seq::new(groups.len(), |i: int| groups[i]@)
}

/// The outcome of a run that may be absent, as a sequence of at most one.
pub open spec fn run_outcomes(run: Option<RunView>) -> Seq<TestResultView> {
    match run {
        Some(r) => seq![r.res],
        None => Seq::empty(),
    }
}

/// The outcomes of the runs of a crate, the baseline first.
pub open spec fn crate_outcomes(krate: CrateResultView) -> Seq<TestResultView> {
    run_outcomes(krate.baseline) + run_outcomes(krate.candidate)
}

/// The outcomes of the runs of a sequence of crates, in its order.
pub open spec fn crates_outcomes(crates: Seq<CrateResultView>) -> Seq<TestResultView>
    decreases crates.len(),
{
    if crates.len() == 0 {
        Seq::empty()
    } else {
        crates_outcomes(crates.drop_last()) + crate_outcomes(crates.last())
    }
}

/// The outcomes of the runs of the crates of a sequence of groups, in its
/// order.
pub open spec fn groups_outcomes(groups: Seq<CrateGroupView>) -> Seq<TestResultView>
    decreases groups.len(),
{
    if groups.len() == 0 {
        Seq::empty()
    } else {
        groups_outcomes(groups.drop_last()) + crates_outcomes(groups.last().crates)
    }
}

/// A shown run stands for a run: both are absent, or the logs agree and the
/// index points at the run's outcome in the table.
pub open spec fn run_matches(
    table: Seq<TestResultView>,
    run: Option<RunView>,
    shown: Option<BuildTestResultHTMLView>,
) -> bool {
    match (run, shown) {
        (Some(r), Some(h)) => h.log == r.log && 0 <= h.res < table.len() && table[h.res] == r.res,
        (None, None) => true,
        _ => false,
    }
}

/// A shown crate stands for a crate: name, address and category agree, and
/// each shown run stands for the run in its place.
pub open spec fn crate_matches(
    table: Seq<TestResultView>,
    krate: CrateResultView,
    shown: CrateResultHTMLView,
) -> bool {
    &&& shown.name == krate.name
    &&& shown.url == krate.url
    &&& shown.res == krate.res
    &&& run_matches(table, krate.baseline, shown.baseline)
    &&& run_matches(table, krate.candidate, shown.candidate)
}

/// Shown crates stand for crates, one for one and in the same order.
pub open spec fn crates_match(
    table: Seq<TestResultView>,
    crates: Seq<CrateResultView>,
    shown: Seq<CrateResultHTMLView>,
) -> bool {
    &&& shown.len() == crates.len()
    &&& forall|i: int|
        0 <= i < crates.len() ==> crate_matches(table, crates[i], #[trigger] shown[i])
}

/// Shown groups stand for groups, one for one and in the same order, under
/// the same keys.
pub open spec fn groups_match(
    table: Seq<TestResultView>,
    groups: Seq<CrateGroupView>,
    shown: Seq<CrateGroupHTMLView>,
) -> bool {
    &&& shown.len() == groups.len()
    &&& forall|i: int|
        0 <= i < groups.len() ==> (#[trigger] shown[i]).key == groups[i].key && crates_match(
            table,
            groups[i].crates,
            shown[i].crates,
        )
}

/// What stands for crates under a table still does under a longer one.
pub proof fn lemma_crates_match_grows(
    shorter: Seq<TestResultView>,
    longer: Seq<TestResultView>,
    crates: Seq<CrateResultView>,
    shown: Seq<CrateResultHTMLView>,
)
    requires
        is_prefix(shorter, longer),
        crates_match(shorter, crates, shown),
    ensures
        crates_match(longer, crates, shown),
{
    assert forall|i: int| 0 <= i < crates.len() implies crate_matches(
        longer,
        crates[i],
        #[trigger] shown[i],
    ) by {
        assert(crate_matches(shorter, crates[i], shown[i]));
    }
}

/// What stands for groups under a table still does under a longer one.
pub proof fn lemma_groups_match_grows(
    shorter: Seq<TestResultView>,
    longer: Seq<TestResultView>,
    groups: Seq<CrateGroupView>,
    shown: Seq<CrateGroupHTMLView>,
)
    requires
        is_prefix(shorter, longer),
        groups_match(shorter, groups, shown),
    ensures
        groups_match(longer, groups, shown),
{
    assert forall|i: int| 0 <= i < groups.len() implies (#[trigger] shown[i]).key
        == groups[i].key && crates_match(longer, groups[i].crates, shown[i].crates) by {
        assert(shown[i].key == groups[i].key);
        lemma_crates_match_grows(shorter, longer, groups[i].crates, shown[i].crates);
    }
}

/// Turns a run into what a page shows of it, and enters its outcome in the
/// table where it is new.
pub fn to_html_run(run: &Option<Run>, table: &mut ResultTable) -> (shown: Option<
    BuildTestResultHTML,
>)
    requires
        old(table).wf(),
    ensures
        final(table).wf(),
        final(table).outcomes() == extend_distinct(
            old(table).outcomes(),
            run_outcomes(run_view(*run)),
        ),
        run_matches(final(table).outcomes(), run_view(*run), html_run_view(shown)),
{
    match run {
        Some(r) => {
            let idx = table.index_of(&r.res);
            Some(BuildTestResultHTML { res: idx, log: r.log.clone() })
        },
        None => None,
    }
}

/// Turns a crate into what a page shows of it, and enters the outcomes of
/// its runs in the table where they are new, the baseline first.
pub fn to_html_crate_result(result: &CrateResult, table: &mut ResultTable) -> (shown:
    CrateResultHTML)
    requires
        old(table).wf(),
    ensures
        final(table).wf(),
        final(table).outcomes() == extend_distinct(old(table).outcomes(), crate_outcomes(result@)),
        crate_matches(final(table).outcomes(), result@, shown@),
{
    let ghost start = table.outcomes();
    let baseline = to_html_run(&result.runs[0], table);
    let ghost middle = table.outcomes();
    let candidate = to_html_run(&result.runs[1], table);
    proof {
        lemma_extend_distinct_concat(
            start,
            run_outcomes(result@.baseline),
            run_outcomes(result@.candidate),
        );
        lemma_extend_distinct_holds(middle, run_outcomes(result@.candidate));
    }
    CrateResultHTML {
        name: result.name.clone(),
        url: result.url.clone(),
        res: result.res,
        runs: [baseline, candidate],
    }
}

/// Turns crates into what a page shows of them, in their order.
pub fn to_html_crates(crates: &Vec<CrateResult>, table: &mut ResultTable) -> (shown: Vec<
    CrateResultHTML,
>)
    requires
        old(table).wf(),
    ensures
        final(table).wf(),
        final(table).outcomes() == extend_distinct(
            old(table).outcomes(),
            crates_outcomes(crate_views(crates@)),
        ),
        crates_match(final(table).outcomes(), crate_views(crates@), html_crate_views(shown@)),
{
    let ghost start = table.outcomes();
    let ghost source = crate_views(crates@);
    let mut shown: Vec<CrateResultHTML> = Vec::new();
    let mut i: usize = 0;
    assert(source.take(0) =~= Seq::<CrateResultView>::empty());
    while i < crates.len()
        invariant
            i <= crates@.len(),
            source == crate_views(crates@),
            table.wf(),
            table.outcomes() == extend_distinct(start, crates_outcomes(source.take(i as int))),
            crates_match(table.outcomes(), source.take(i as int), html_crate_views(shown@)),
        decreases crates@.len() - i,
    {
        let ghost before = table.outcomes();
        let ghost shown_before = html_crate_views(shown@);
        let item = to_html_crate_result(&crates[i], table);
        shown.push(item);
        proof {
            let next = source.take(i as int + 1);
            assert(next.drop_last() =~= source.take(i as int));
            assert(next.last() == crates@[i as int]@);
            lemma_extend_distinct_concat(
                start,
                crates_outcomes(source.take(i as int)),
                crate_outcomes(crates@[i as int]@),
            );
            lemma_extend_distinct_holds(before, crate_outcomes(crates@[i as int]@));
            lemma_crates_match_grows(
                before,
                table.outcomes(),
                source.take(i as int),
                shown_before,
            );
            let after = html_crate_views(shown@);
            assert forall|j: int| 0 <= j < next.len() implies crate_matches(
                table.outcomes(),
                next[j],
                #[trigger] after[j],
            ) by {
                if j < i {
                    assert(after[j] == shown_before[j]);
                    assert(next[j] == source.take(i as int)[j]);
                }
            }
        }
        i = i + 1;
    }
    assert(source.take(i as int) =~= source);
    shown
}

/// Turns groups of crates into what a page shows of them, in their order.
pub fn to_html_groups(groups: &Vec<CrateGroup>, table: &mut ResultTable) -> (shown: Vec<
    CrateGroupHTML,
>)
    requires
        old(table).wf(),
    ensures
        final(table).wf(),
        final(table).outcomes() == extend_distinct(
            old(table).outcomes(),
            groups_outcomes(group_views(groups@)),
        ),
        groups_match(final(table).outcomes(), group_views(groups@), html_group_views(shown@)),
{
    let ghost start = table.outcomes();
    let ghost source = group_views(groups@);
    let mut shown: Vec<CrateGroupHTML> = Vec::new();
    let mut i: usize = 0;
    assert(source.take(0) =~= Seq::<CrateGroupView>::empty());
    while i < groups.len()
        invariant
            i <= groups@.len(),
            source == group_views(groups@),
            table.wf(),
            table.outcomes() == extend_distinct(start, groups_outcomes(source.take(i as int))),
            groups_match(table.outcomes(), source.take(i as int), html_group_views(shown@)),
        decreases groups@.len() - i,
    {
        let ghost before = table.outcomes();
        let ghost shown_before = html_group_views(shown@);
        let crates = to_html_crates(&groups[i].crates, table);
        shown.push(CrateGroupHTML { key: groups[i].key.clone(), crates });
        proof {
            let next = source.take(i as int + 1);
            assert(next.drop_last() =~= source.take(i as int));
            assert(next.last() == groups@[i as int]@);
            lemma_extend_distinct_concat(
                start,
                groups_outcomes(source.take(i as int)),
                crates_outcomes(groups@[i as int]@.crates),
            );
            lemma_extend_distinct_holds(before, crates_outcomes(groups@[i as int]@.crates));
            lemma_groups_match_grows(
                before,
                table.outcomes(),
                source.take(i as int),
                shown_before,
            );
            let after = html_group_views(shown@);
            assert forall|j: int| 0 <= j < next.len() implies (#[trigger] after[j]).key
                == next[j].key && crates_match(table.outcomes(), next[j].crates, after[j].crates) by {
                if j < i {
                    assert(after[j] == shown_before[j]);
                    assert(next[j] == source.take(i as int)[j]);
                }
            }
        }
        i = i + 1;
    }
    assert(source.take(i as int) =~= source);
    shown
}

} // verus!
