//! The context of a page: everything the page is rendered from.

use crate::comparison::Comparison;
use crate::display::{comparison_color, result_color, result_name, Color, ResultColor};
use crate::distinct::{
    distinct, extend_distinct, is_prefix, lemma_extend_distinct_concat,
    lemma_extend_distinct_holds, lemma_extend_distinct_one,
};
use crate::html::{
    crates_match, crates_outcomes, groups_match, groups_outcomes, html_crate_views,
    html_group_views, lemma_crates_match_grows, lemma_groups_match_grows, to_html_crates,
    to_html_groups, CrateGroupHTML, CrateGroupHTMLView, CrateResultHTML, CrateResultHTMLView,
};
use crate::report::{
    category_keys, category_views, Category, CategoryCount, CategoryView, ReportCrates,
    ReportCratesView, TestResults, TestResultsView,
};
use crate::results::TestResultView;
use crate::table::ResultTable;
use vstd::prelude::*;

verus! {

/// The page that a context is built for.
#[derive(Clone, Copy, Debug, PartialEq, Eq, Structural)]
pub enum CurrentPage {
    Summary,
    Full,
    Downloads,
}

/// One entry of the navigation bar.
#[derive(Clone, Copy, Debug, PartialEq, Eq)]
pub struct NavbarItem {
    pub label: &'static str,
    pub url: &'static str,
    pub active: bool,
}

/// The mathematical value of a [`NavbarItem`].
pub struct NavbarItemView {
    pub label: Seq<char>,
    pub url: Seq<char>,
    pub active: bool,
}

impl View for NavbarItem {
    type V = NavbarItemView;

    open spec fn view(&self) -> NavbarItemView {
        NavbarItemView { label: self.label@, url: self.url@, active: self.active }
    }
}

/// The views of a navigation bar.
pub open spec fn navbar_views(items: Seq<NavbarItem>) -> Seq<NavbarItemView> {
    Seq::new(items.len(), |i: int| items[i]@)
}

impl CurrentPage {
    /// The navigation bar of a page: the three pages in their fixed order,
    /// the page itself marked active and no other.
    pub open spec fn navbar_spec(self) -> Seq<NavbarItemView> {
        seq![
            NavbarItemView {
                label: "Summary"@,
                url: "index.html"@,
                active: self == CurrentPage::Summary,
            },
            NavbarItemView {
                label: "Full report"@,
                url: "full.html"@,
                active: self == CurrentPage::Full,
            },
            NavbarItemView {
                label: "Downloads"@,
                url: "downloads.html"@,
                active: self == CurrentPage::Downloads,
            },
        ]
    }

    /// The navigation bar of this page.
    pub fn navbar(&self) -> (items: Vec<NavbarItem>)
        ensures
            navbar_views(items@) == self.navbar_spec(),
    {
        let mut items: Vec<NavbarItem> = Vec::new();
        items.push(
            NavbarItem {
                label: "Summary",
                url: "index.html",
                active: *self == CurrentPage::Summary,
            },
        );
        items.push(
            NavbarItem {
                label: "Full report",
                url: "full.html",
                active: *self == CurrentPage::Full,
            },
        );
        items.push(
            NavbarItem {
                label: "Downloads",
                url: "downloads.html",
                active: *self == CurrentPage::Downloads,
            },
        );
        assert(navbar_views(items@) =~= self.navbar_spec());
        items
    }
}

/// The crates of a category as a page shows them. A category of the complete
/// shape is shown twice: once as a tree, once under the labels of the
/// outcomes.
#[derive(Clone, Debug, PartialEq, Eq)]
pub enum ReportCratesHTML {
    Plain(Vec<CrateResultHTML>),
    Tree { count: u32, tree: Vec<CrateGroupHTML> },
    RootResults { count: u32, results: Vec<CrateGroupHTML> },
}

/// The mathematical value of a [`ReportCratesHTML`].
pub enum ReportCratesHTMLView {
    Plain(Seq<CrateResultHTMLView>),
    Tree { count: u32, tree: Seq<CrateGroupHTMLView> },
    RootResults { count: u32, results: Seq<CrateGroupHTMLView> },
}

impl View for ReportCratesHTML {
    type V = ReportCratesHTMLView;

    open spec fn view(&self) -> ReportCratesHTMLView {
        match self {
            ReportCratesHTML::Plain(crates) => ReportCratesHTMLView::Plain(
                html_crate_views(crates@),
            ),
            ReportCratesHTML::Tree { count, tree } => ReportCratesHTMLView::Tree {
                count: *count,
                tree: html_group_views(tree@),
            },
            ReportCratesHTML::RootResults { count, results } => ReportCratesHTMLView::RootResults {
                count: *count,
                results: html_group_views(results@),
            },
        }
    }
}

/// One entry of the list of categories of a page.
#[derive(Clone, Debug, PartialEq, Eq)]
pub struct CategoryHTML {
    pub comparison: Comparison,
    pub crates: ReportCratesHTML,
}

/// The mathematical value of a [`CategoryHTML`].
pub struct CategoryHTMLView {
    pub comparison: Comparison,
    pub crates: ReportCratesHTMLView,
}

impl View for CategoryHTML {
    type V = CategoryHTMLView;

    open spec fn view(&self) -> CategoryHTMLView {
        CategoryHTMLView { comparison: self.comparison, crates: self.crates@ }
    }
}

/// The views of a list of shown categories.
pub open spec fn html_category_views(entries: Seq<CategoryHTML>) -> Seq<CategoryHTMLView> {
    Seq::new(entries.len(), |i: int| entries[i]@)
}

/// The color of a category, as a page shows it.
#[derive(Clone, Copy, Debug, PartialEq, Eq)]
pub struct ComparisonColor {
    pub comparison: Comparison,
    pub color: Color,
}

/// Whether a page shows a category: the full report shows every category,
/// the summary those that are not hidden from it.
pub open spec fn is_shown(category: Comparison, full: bool) -> bool {
    full || category.show_in_summary_spec()
}

/// The categories that a page shows, in their order.
pub open spec fn shown_categories(categories: Seq<CategoryView>, full: bool) -> Seq<
    CategoryView,
>
    decreases categories.len(),
{
    if categories.len() == 0 {
        Seq::empty()
    } else {
        let before = shown_categories(categories.drop_last(), full);
        if is_shown(categories.last().comparison, full) {
            before.push(categories.last())
        } else {
            before
        }
    }
}

/// The outcomes of the runs of the crates of a category, in the order in
/// which a page lists them: for the complete shape the tree first, then the
/// groups by outcome.
pub open spec fn report_outcomes(crates: ReportCratesView) -> Seq<TestResultView> {
    match crates {
        ReportCratesView::Plain(list) => crates_outcomes(list),
        ReportCratesView::Complete { tree, results } => groups_outcomes(tree) + groups_outcomes(
            results,
        ),
    }
}

/// The outcomes of the runs of the crates of a list of categories, in the
/// order in which a page lists them.
pub open spec fn categories_outcomes(categories: Seq<CategoryView>) -> Seq<TestResultView>
    decreases categories.len(),
{
    if categories.len() == 0 {
        Seq::empty()
    } else {
        categories_outcomes(categories.drop_last()) + report_outcomes(categories.last().crates)
    }
}

/// How many entries of a page stand for a category: two for the complete
/// shape, else one.
pub open spec fn entry_count(crates: ReportCratesView) -> int {
    match crates {
        ReportCratesView::Plain(_) => 1,
        ReportCratesView::Complete { .. } => 2,
    }
}

/// The entries of a page stand for one category: a plain list for a plain
/// list; for the complete shape the tree and then the groups by outcome, each
/// with the number of its groups.
pub open spec fn category_matches(
    table: Seq<TestResultView>,
    category: CategoryView,
    shown: Seq<CategoryHTMLView>,
) -> bool {
    match category.crates {
        ReportCratesView::Plain(list) => {
            &&& shown.len() == 1
            &&& shown[0].comparison == category.comparison
            &&& shown[0].crates matches ReportCratesHTMLView::Plain(crates)
            &&& crates_match(table, list, crates)
        },
        ReportCratesView::Complete { tree, results } => {
            &&& shown.len() == 2
            &&& shown[0].comparison == category.comparison
            &&& shown[0].crates matches ReportCratesHTMLView::Tree { count, tree: shown_tree }
            &&& count == tree.len() as u32
            &&& groups_match(table, tree, shown_tree)
            &&& shown[1].comparison == category.comparison
            &&& shown[1].crates matches ReportCratesHTMLView::RootResults {
                count: other,
                results: shown_results,
            }
            &&& other == results.len() as u32
            &&& groups_match(table, results, shown_results)
        },
    }
}

/// The entries of a page stand for a list of categories, in its order and
/// with nothing between them.
pub open spec fn categories_match(
    table: Seq<TestResultView>,
    categories: Seq<CategoryView>,
    shown: Seq<CategoryHTMLView>,
) -> bool
    decreases categories.len(),
{
    if categories.len() == 0 {
        shown.len() == 0
    } else {
        let n = entry_count(categories.last().crates);
        &&& shown.len() >= n
        &&& category_matches(
            table,
            categories.last(),
            shown.subrange(shown.len() - n, shown.len() as int),
        )
        &&& categories_match(table, categories.drop_last(), shown.subrange(0, shown.len() - n))
    }
}

/// What stands for a category under a table still does under a longer one.
pub proof fn lemma_category_matches_grows(
    shorter: Seq<TestResultView>,
    longer: Seq<TestResultView>,
    category: CategoryView,
    shown: Seq<CategoryHTMLView>,
)
    requires
        is_prefix(shorter, longer),
        category_matches(shorter, category, shown),
    ensures
        category_matches(longer, category, shown),
{
    match category.crates {
        ReportCratesView::Plain(list) => {
            if let ReportCratesHTMLView::Plain(crates) = shown[0].crates {
                lemma_crates_match_grows(shorter, longer, list, crates);
            }
        },
        ReportCratesView::Complete { tree, results } => {
            if let ReportCratesHTMLView::Tree { count, tree: shown_tree } = shown[0].crates {
                lemma_groups_match_grows(shorter, longer, tree, shown_tree);
            }
            if let ReportCratesHTMLView::RootResults { count, results: shown_results } =
                shown[1].crates {
                lemma_groups_match_grows(shorter, longer, results, shown_results);
            }
        },
    }
}

/// What stands for a list of categories under a table still does under a
/// longer one.
pub proof fn lemma_categories_match_grows(
    shorter: Seq<TestResultView>,
    longer: Seq<TestResultView>,
    categories: Seq<CategoryView>,
    shown: Seq<CategoryHTMLView>,
)
    requires
        is_prefix(shorter, longer),
        categories_match(shorter, categories, shown),
    ensures
        categories_match(longer, categories, shown),
    decreases categories.len(),
{
    if categories.len() > 0 {
        let n = entry_count(categories.last().crates);
        lemma_category_matches_grows(
            shorter,
            longer,
            categories.last(),
            shown.subrange(shown.len() - n, shown.len() as int),
        );
        lemma_categories_match_grows(
            shorter,
            longer,
            categories.drop_last(),
            shown.subrange(0, shown.len() - n),
        );
    }
}

/// Appends to the entries of a page those that stand for one category, and
/// enters the outcomes of its runs in the table where they are new.
pub fn push_html_category(
    category: &Category,
    table: &mut ResultTable,
    shown: &mut Vec<CategoryHTML>,
)
    requires
        old(table).wf(),
    ensures
        final(table).wf(),
        final(table).outcomes() == extend_distinct(
            old(table).outcomes(),
            report_outcomes(category@.crates),
        ),
        final(shown)@.len() == old(shown)@.len() + entry_count(category@.crates),
        html_category_views(final(shown)@).subrange(0, old(shown)@.len() as int)
            == html_category_views(old(shown)@),
        category_matches(
            final(table).outcomes(),
            category@,
            html_category_views(final(shown)@).subrange(
                old(shown)@.len() as int,
                final(shown)@.len() as int,
            ),
        ),
{
    let ghost start = table.outcomes();
    let ghost shown_before = html_category_views(shown@);
    match &category.crates {
        ReportCrates::Plain(list) => {
            let crates = to_html_crates(list, table);
            shown.push(
                CategoryHTML {
                    comparison: category.comparison,
                    crates: ReportCratesHTML::Plain(crates),
                },
            );
            proof {
                let after = html_category_views(shown@);
                assert(after.subrange(0, shown_before.len() as int) =~= shown_before);
                let tail = after.subrange(shown_before.len() as int, after.len() as int);
                assert(tail[0] == after[shown_before.len() as int]);
            }
        },
        ReportCrates::Complete { tree, results } => {
            let shown_tree = to_html_groups(tree, table);
            let ghost middle = table.outcomes();
            let ghost tree_views = html_group_views(shown_tree@);
            let shown_results = to_html_groups(results, table);
            let tree_count = #[verifier::truncate]
            (shown_tree.len() as u32);
            let results_count = #[verifier::truncate]
            (shown_results.len() as u32);
            shown.push(
                CategoryHTML {
                    comparison: category.comparison,
                    crates: ReportCratesHTML::Tree { count: tree_count, tree: shown_tree },
                },
            );
            shown.push(
                CategoryHTML {
                    comparison: category.comparison,
                    crates: ReportCratesHTML::RootResults {
                        count: results_count,
                        results: shown_results,
                    },
                },
            );
            proof {
                if let ReportCratesView::Complete { tree: tree_spec, results: results_spec } =
                    category@.crates {
                    lemma_extend_distinct_concat(
                        start,
                        groups_outcomes(tree_spec),
                        groups_outcomes(results_spec),
                    );
                    lemma_extend_distinct_holds(middle, groups_outcomes(results_spec));
                    lemma_groups_match_grows(middle, table.outcomes(), tree_spec, tree_views);
                    let after = html_category_views(shown@);
                    assert(after.subrange(0, shown_before.len() as int) =~= shown_before);
                    let tail = after.subrange(shown_before.len() as int, after.len() as int);
                    assert(tail[0] == after[shown_before.len() as int]);
                    assert(tail[1] == after[shown_before.len() as int + 1]);
                }
            }
        },
    }
}

/// The categories of a list of colors, in its order.
pub open spec fn color_keys(colors: Seq<ComparisonColor>) -> Seq<Comparison> {
    Seq::new(colors.len(), |i: int| colors[i].comparison)
}

/// Every entry of a list of colors holds the color of its category.
pub open spec fn colors_hold(colors: Seq<ComparisonColor>) -> bool {
    forall|i: int|
        0 <= i < colors.len() ==> (#[trigger] colors[i]).color@ == comparison_color(
            colors[i].comparison,
        )
}

/// Enters the color of a category in a list of colors, unless the list holds
/// the category already.
pub fn note_color(colors: &mut Vec<ComparisonColor>, category: Comparison)
    requires
        colors_hold(old(colors)@),
    ensures
        colors_hold(final(colors)@),
        color_keys(final(colors)@) == extend_distinct(color_keys(old(colors)@), seq![category]),
{
    proof {
        lemma_extend_distinct_one(color_keys(colors@), category);
    }
    let mut i: usize = 0;
    while i < colors.len()
        invariant
            i <= colors@.len(),
            colors@ == old(colors)@,
            colors_hold(colors@),
            extend_distinct(color_keys(colors@), seq![category]) == if color_keys(
                colors@,
            ).contains(category) {
                color_keys(colors@)
            } else {
                color_keys(colors@).push(category)
            },
            forall|j: int| 0 <= j < i ==> color_keys(colors@)[j] != category,
        decreases colors@.len() - i,
    {
        if colors[i].comparison == category {
            assert(color_keys(colors@)[i as int] == category);
            return ;
        }
        i = i + 1;
    }
    let ghost before = colors@;
    colors.push(ComparisonColor { comparison: category, color: category.color() });
    assert(color_keys(colors@) =~= color_keys(before).push(category));
    assert forall|j: int| 0 <= j < colors@.len() implies (#[trigger] colors@[j]).color@
        == comparison_color(colors@[j].comparison) by {
        if j < before.len() {
            assert(colors@[j] == before[j]);
        }
    }
}

/// A copy of a list of values that are copied bit by bit.
pub fn copy_list<T: Copy>(list: &Vec<T>) -> (copy: Vec<T>)
    ensures
        copy@ == list@,
{
    let mut copy: Vec<T> = Vec::new();
    let mut i: usize = 0;
    while i < list.len()
        invariant
            i <= list@.len(),
            copy@ == list@.take(i as int),
        decreases list@.len() - i,
    {
        copy.push(list[i]);
        assert(copy@ =~= list@.take(i as int + 1));
        i = i + 1;
    }
    assert(list@.take(i as int) =~= list@);
    copy
}

/// The context of the summary and of the full report.
#[derive(Clone, Debug, PartialEq, Eq)]
pub struct ResultsContext {
    pub nav: Vec<NavbarItem>,
    pub categories: Vec<CategoryHTML>,
    pub info: Vec<CategoryCount>,
    pub full: bool,
    pub crates_count: usize,
    pub comparison_colors: Vec<ComparisonColor>,
    pub result_colors: Vec<Color>,
    pub result_names: Vec<String>,
}

/// The table of outcomes of a page: the distinct outcomes of the runs that
/// the page lists, in the order in which the page first lists each.
pub open spec fn result_table(categories: Seq<CategoryView>, full: bool) -> Seq<TestResultView> {
    distinct(categories_outcomes(shown_categories(categories, full)))
}

impl ResultsContext {
    /// Whether this is the context of a page of the given report.
    ///
    /// The page lists the categories that it shows, in the report's order;
    /// every run in it points into the page's table of outcomes; the colors
    /// and the labels of that table stand beside it, index for index; and
    /// each shown category has its color entered once.
    pub open spec fn describes(
        &self,
        res: TestResultsView,
        crates_count: usize,
        full: bool,
    ) -> bool {
        let shown = shown_categories(res.categories, full);
        let table = result_table(res.categories, full);
        let page = if full {
            CurrentPage::Full
        } else {
            CurrentPage::Summary
        };
        &&& navbar_views(self.nav@) == page.navbar_spec()
        &&& categories_match(table, shown, html_category_views(self.categories@))
        &&& self.info@ == res.info
        &&& self.full == full
        &&& self.crates_count == crates_count
        &&& color_keys(self.comparison_colors@) == distinct(category_keys(shown))
        &&& colors_hold(self.comparison_colors@)
        &&& self.result_colors@.len() == table.len()
        &&& self.result_names@.len() == table.len()
        &&& forall|i: int|
            0 <= i < table.len() ==> (#[trigger] self.result_colors@[i])@
                == result_color(table[i])
        &&& forall|i: int|
            0 <= i < table.len() ==> (#[trigger] self.result_names@[i])@
                == result_name(table[i])
    }
}

/// Builds the context of the summary (`full` false) or of the full report
/// (`full` true) from the classified crates of an experiment.
pub fn results_context(res: &TestResults, crates_count: usize, full: bool) -> (ctx:
    ResultsContext)
    ensures
        ctx.describes(res@, crates_count, full),
{
    let ghost source = category_views(res.categories@);
    let mut table = ResultTable::new();
    let mut comparison_colors: Vec<ComparisonColor> = Vec::new();
    let mut categories: Vec<CategoryHTML> = Vec::new();
    let mut i: usize = 0;
    proof {
        assert(source.take(0) =~= Seq::<CategoryView>::empty());
        assert(color_keys(comparison_colors@) =~= Seq::<Comparison>::empty());
        assert(category_keys(Seq::<CategoryView>::empty()) =~= Seq::<Comparison>::empty());
    }
    while i < res.categories.len()
        invariant
            i <= res.categories@.len(),
            source == category_views(res.categories@),
            table.wf(),
            table.outcomes() == distinct(
                categories_outcomes(shown_categories(source.take(i as int), full)),
            ),
            categories_match(
                table.outcomes(),
                shown_categories(source.take(i as int), full),
                html_category_views(categories@),
            ),
            colors_hold(comparison_colors@),
            color_keys(comparison_colors@) == distinct(
                category_keys(shown_categories(source.take(i as int), full)),
            ),
        decreases res.categories@.len() - i,
    {
        let category = &res.categories[i];
        proof {
            let next = source.take(i as int + 1);
            assert(next.drop_last() =~= source.take(i as int));
            assert(next.last() == category@);
        }
        if full || category.comparison.show_in_summary() {
            let ghost before = table.outcomes();
            let ghost shown_before = shown_categories(source.take(i as int), full);
            let ghost entries_before = html_category_views(categories@);
            note_color(&mut comparison_colors, category.comparison);
            push_html_category(category, &mut table, &mut categories);
            proof {
                let shown_after = shown_categories(source.take(i as int + 1), full);
                assert(shown_after == shown_before.push(category@));
                assert(shown_after.drop_last() =~= shown_before);
                lemma_extend_distinct_concat(
                    Seq::empty(),
                    categories_outcomes(shown_before),
                    report_outcomes(category@.crates),
                );
                lemma_extend_distinct_holds(before, report_outcomes(category@.crates));
                lemma_categories_match_grows(
                    before,
                    table.outcomes(),
                    shown_before,
                    entries_before,
                );
                let entries = html_category_views(categories@);
                let n = entry_count(category@.crates);
                assert(entries.subrange(0, entries.len() - n) == entries_before);
                let keys_before = category_keys(shown_before);
                assert(category_keys(shown_after) =~= keys_before.push(category@.comparison));
                assert(keys_before.push(category@.comparison) =~= keys_before
                    + seq![category@.comparison]);
                lemma_extend_distinct_concat(
                    Seq::empty(),
                    keys_before,
                    seq![category@.comparison],
                );
            }
        }
        i = i + 1;
    }
    assert(source.take(i as int) =~= source);
    let page = if full {
        CurrentPage::Full
    } else {
        CurrentPage::Summary
    };
    let nav = page.navbar();
    let info = copy_list(&res.info);
    let ResultTable { results, colors, names } = table;
    ResultsContext {
        nav,
        categories,
        info,
        full,
        crates_count,
        comparison_colors,
        result_colors: colors,
        result_names: names,
    }
}

/// An archive of logs that the downloads page offers.
#[derive(Clone, Debug, PartialEq, Eq)]
pub struct Archive {
    pub name: String,
    pub path: String,
}

/// The mathematical value of an [`Archive`].
pub struct ArchiveView {
    pub name: Seq<char>,
    pub path: Seq<char>,
}

impl View for Archive {
    type V = ArchiveView;

    open spec fn view(&self) -> ArchiveView {
        ArchiveView { name: self.name@, path: self.path@ }
    }
}

/// The views of a list of archives.
pub open spec fn archive_views(archives: Seq<Archive>) -> Seq<ArchiveView> {
    Seq::new(archives.len(), |i: int| archives[i]@)
}

/// The context of the downloads page.
#[derive(Clone, Debug, PartialEq, Eq)]
pub struct DownloadsContext {
    pub nav: Vec<NavbarItem>,
    pub crates_count: usize,
    pub available_archives: Vec<Archive>,
}

/// Builds the context of the downloads page: its navigation bar, the number
/// of crates and the archives on offer, in the order given.
pub fn downloads_context(crates_count: usize, available_archives: Vec<Archive>) -> (ctx:
    DownloadsContext)
    ensures
        navbar_views(ctx.nav@) == CurrentPage::Downloads.navbar_spec(),
        ctx.crates_count == crates_count,
        ctx.available_archives == available_archives,
{
    DownloadsContext { nav: CurrentPage::Downloads.navbar(), crates_count, available_archives }
}

} // verus!
