//! What holds of the pages of a report whatever the report is.

use crate::context::{
    categories_match, categories_outcomes, category_matches, color_keys, entry_count,
    html_category_views, result_table, shown_categories, ArchiveView, CategoryHTMLView,
    ReportCratesHTMLView, ResultsContext,
};
use crate::display::{comparison_color, result_color, result_name};
use crate::distinct::lemma_distinct_holds;
use crate::grouping::string_views;
use crate::html::{
    crate_matches, crates_match, groups_match, run_matches, BuildTestResultHTMLView,
    CrateGroupHTMLView, CrateResultHTMLView,
};
use crate::report::{
    CategoryView, CrateGroupView, CrateResultView, ReportCratesView, RunView, TestResultsView,
};
use crate::results::TestResultView;
use crate::context::NavbarItemView;
use crate::display::ColorView;
use crate::serialize::{
    keys_of, lemma_code_injective, lemma_mapping_order_free, lemma_sort_spec_order_free,
    lemma_text_key_injective, lemma_texts_order_free, text_key, HasKey,
};
use crate::snapshot::{
    color_views, comparison_color_views, results_snapshot_spec, strip_crates_spec,
    strip_groups_spec, written_entries, CategorySnapshotView, CrateGroupSnapshotView,
    CrateResultSnapshotView, DownloadsContextView, ReportCratesSnapshotView,
    ResultsContextView, ResultsSnapshotView,
};
use crate::writer::{is_downloads_page, is_report_page, Page, PageContext};
use vstd::prelude::*;

verus! {

/// The full report shows every category of a report. The summary shows those
/// among them that are not hidden from it, each with the crates that the
/// full report shows for it, and in the same order; it shows no category
/// that is hidden from it.
pub proof fn lemma_summary_within_full(categories: Seq<CategoryView>)
    ensures
        shown_categories(categories, true) == categories,
        shown_categories(categories, false) == categories.filter(
            |category: CategoryView| category.comparison.show_in_summary_spec(),
        ),
        forall|category: CategoryView|
            shown_categories(categories, false).contains(category) <==> (
            shown_categories(categories, true).contains(category)
                && category.comparison.show_in_summary_spec()),
    decreases categories.len(),
{
    let visible = |category: CategoryView| category.comparison.show_in_summary_spec();
    reveal(Seq::filter);
    if categories.len() == 0 {
        assert(shown_categories(categories, true) =~= categories);
    } else {
        lemma_summary_within_full(categories.drop_last());
        assert(categories.drop_last().push(categories.last()) =~= categories);
    }
    let summary = shown_categories(categories, false);
    assert(summary == categories.filter(visible));
    assert forall|category: CategoryView|
        summary.contains(category) <==> (categories.contains(category) && visible(
            category,
        )) by {
        if summary.contains(category) {
            let i = choose|i: int| 0 <= i < summary.len() && summary[i] == category;
            categories.lemma_filter_pred(visible, i);
            categories.lemma_filter_contains_rev(visible, category);
        }
        if categories.contains(category) && visible(category) {
            let j = choose|j: int| 0 <= j < categories.len() && categories[j] == category;
            categories.lemma_filter_contains(visible, j);
        }
    }
}

/// The table of outcomes of a page holds every outcome of the runs that the
/// page lists, and each once: it has as many entries as those runs have
/// distinct outcomes.
pub proof fn lemma_result_table_sound(categories: Seq<CategoryView>, full: bool)
    ensures
        result_table(categories, full).no_duplicates(),
        result_table(categories, full).to_set() == categories_outcomes(
            shown_categories(categories, full),
        ).to_set(),
        result_table(categories, full).len() == categories_outcomes(
            shown_categories(categories, full),
        ).to_set().len(),
{
    lemma_distinct_holds(categories_outcomes(shown_categories(categories, full)));
}

/// Whether the index of a shown run lies within a table of the given
/// length.
pub open spec fn run_in_range(run: Option<BuildTestResultHTMLView>, len: nat) -> bool {
    match run {
        Some(shown) => 0 <= shown.res < len,
        None => true,
    }
}

/// Whether the indexes of the runs of shown crates lie within a table of the
/// given length.
pub open spec fn crates_in_range(crates: Seq<CrateResultHTMLView>, len: nat) -> bool {
    forall|i: int|
        0 <= i < crates.len() ==> run_in_range((#[trigger] crates[i]).baseline, len)
            && run_in_range(crates[i].candidate, len)
}

/// Whether the indexes of the runs of shown groups lie within a table of the
/// given length.
pub open spec fn groups_in_range(groups: Seq<CrateGroupHTMLView>, len: nat) -> bool {
    forall|i: int| 0 <= i < groups.len() ==> crates_in_range((#[trigger] groups[i]).crates, len)
}

/// Whether the indexes of the runs of an entry of a page lie within a table
/// of the given length.
pub open spec fn entry_in_range(entry: CategoryHTMLView, len: nat) -> bool {
    match entry.crates {
        ReportCratesHTMLView::Plain(crates) => crates_in_range(crates, len),
        ReportCratesHTMLView::Tree { tree, .. } => groups_in_range(tree, len),
        ReportCratesHTMLView::RootResults { results, .. } => groups_in_range(results, len),
    }
}

/// Whether the indexes of all runs of a page lie within a table of the given
/// length.
pub open spec fn entries_in_range(entries: Seq<CategoryHTMLView>, len: nat) -> bool {
    forall|i: int| 0 <= i < entries.len() ==> entry_in_range(#[trigger] entries[i], len)
}

proof fn lemma_crates_in_range(
    table: Seq<TestResultView>,
    crates: Seq<CrateResultView>,
    shown: Seq<CrateResultHTMLView>,
)
    requires
        crates_match(table, crates, shown),
    ensures
        crates_in_range(shown, table.len()),
{
    assert forall|i: int| 0 <= i < shown.len() implies run_in_range(
        (#[trigger] shown[i]).baseline,
        table.len(),
    ) && run_in_range(shown[i].candidate, table.len()) by {
        assert(crate_matches(table, crates[i], shown[i]));
    }
}

proof fn lemma_groups_in_range(
    table: Seq<TestResultView>,
    groups: Seq<CrateGroupView>,
    shown: Seq<CrateGroupHTMLView>,
)
    requires
        groups_match(table, groups, shown),
    ensures
        groups_in_range(shown, table.len()),
{
    assert forall|i: int| 0 <= i < shown.len() implies crates_in_range(
        (#[trigger] shown[i]).crates,
        table.len(),
    ) by {
        assert(crates_match(table, groups[i].crates, shown[i].crates));
        lemma_crates_in_range(table, groups[i].crates, shown[i].crates);
    }
}

proof fn lemma_entries_in_range(
    table: Seq<TestResultView>,
    categories: Seq<CategoryView>,
    shown: Seq<CategoryHTMLView>,
)
    requires
        categories_match(table, categories, shown),
    ensures
        entries_in_range(shown, table.len()),
    decreases categories.len(),
{
    if categories.len() > 0 {
        let n = entry_count(categories.last().crates);
        let head = shown.subrange(0, shown.len() - n);
        let tail = shown.subrange(shown.len() - n, shown.len() as int);
        lemma_entries_in_range(table, categories.drop_last(), head);
        match categories.last().crates {
            ReportCratesView::Plain(list) => {
                if let ReportCratesHTMLView::Plain(crates) = tail[0].crates {
                    lemma_crates_in_range(table, list, crates);
                }
            },
            ReportCratesView::Complete { tree, results } => {
                if let ReportCratesHTMLView::Tree { count, tree: shown_tree } = tail[0].crates {
                    lemma_groups_in_range(table, tree, shown_tree);
                }
                if let ReportCratesHTMLView::RootResults { count, results: shown_results } =
                    tail[1].crates {
                    lemma_groups_in_range(table, results, shown_results);
                }
            },
        }
        assert forall|i: int| 0 <= i < shown.len() implies entry_in_range(
            #[trigger] shown[i],
            table.len(),
        ) by {
            if i < shown.len() - n {
                assert(shown[i] == head[i]);
            } else {
                assert(shown[i] == tail[i - (shown.len() - n)]);
            }
        }
    }
}

/// A context of a page has one label and one color for each distinct
/// outcome of the runs that the page lists, and the index of every run in it
/// lies within those lists.
pub proof fn lemma_context_table_sound(
    ctx: ResultsContext,
    res: TestResultsView,
    crates_count: usize,
    full: bool,
)
    requires
        ctx.describes(res, crates_count, full),
    ensures
        ctx.result_names@.len() == categories_outcomes(
            shown_categories(res.categories, full),
        ).to_set().len(),
        ctx.result_colors@.len() == ctx.result_names@.len(),
        entries_in_range(
            html_category_views(ctx.categories@),
            ctx.result_names@.len(),
        ),
{
    lemma_result_table_sound(res.categories, full);
    lemma_entries_in_range(
        result_table(res.categories, full),
        shown_categories(res.categories, full),
        html_category_views(ctx.categories@),
    );
}

proof fn lemma_crates_match_unique(
    table: Seq<TestResultView>,
    crates: Seq<CrateResultView>,
    one: Seq<CrateResultHTMLView>,
    other: Seq<CrateResultHTMLView>,
)
    requires
        table.no_duplicates(),
        crates_match(table, crates, one),
        crates_match(table, crates, other),
    ensures
        one == other,
{
    assert forall|i: int| 0 <= i < one.len() implies one[i] == other[i] by {
        assert(crate_matches(table, crates[i], one[i]));
        assert(crate_matches(table, crates[i], other[i]));
        assert(run_matches(table, crates[i].baseline, one[i].baseline));
        assert(run_matches(table, crates[i].baseline, other[i].baseline));
        assert(run_matches(table, crates[i].candidate, one[i].candidate));
        assert(run_matches(table, crates[i].candidate, other[i].candidate));
    }
    assert(one =~= other);
}

proof fn lemma_groups_match_unique(
    table: Seq<TestResultView>,
    groups: Seq<CrateGroupView>,
    one: Seq<CrateGroupHTMLView>,
    other: Seq<CrateGroupHTMLView>,
)
    requires
        table.no_duplicates(),
        groups_match(table, groups, one),
        groups_match(table, groups, other),
    ensures
        one == other,
{
    assert forall|i: int| 0 <= i < one.len() implies one[i] == other[i] by {
        assert(one[i].key == groups[i].key);
        assert(other[i].key == groups[i].key);
        lemma_crates_match_unique(table, groups[i].crates, one[i].crates, other[i].crates);
    }
    assert(one =~= other);
}

proof fn lemma_category_matches_unique(
    table: Seq<TestResultView>,
    category: CategoryView,
    one: Seq<CategoryHTMLView>,
    other: Seq<CategoryHTMLView>,
)
    requires
        table.no_duplicates(),
        category_matches(table, category, one),
        category_matches(table, category, other),
    ensures
        one == other,
{
    match category.crates {
        ReportCratesView::Plain(list) => {
            if let ReportCratesHTMLView::Plain(a) = one[0].crates {
                if let ReportCratesHTMLView::Plain(b) = other[0].crates {
                    lemma_crates_match_unique(table, list, a, b);
                }
            }
        },
        ReportCratesView::Complete { tree, results } => {
            if let ReportCratesHTMLView::Tree { count: ca, tree: a } = one[0].crates {
                if let ReportCratesHTMLView::Tree { count: cb, tree: b } = other[0].crates {
                    lemma_groups_match_unique(table, tree, a, b);
                }
            }
            if let ReportCratesHTMLView::RootResults { count: ca, results: a } = one[1].crates {
                if let ReportCratesHTMLView::RootResults { count: cb, results: b } =
                    other[1].crates {
                    lemma_groups_match_unique(table, results, a, b);
                }
            }
        },
    }
    assert(one =~= other);
}

proof fn lemma_categories_match_unique(
    table: Seq<TestResultView>,
    categories: Seq<CategoryView>,
    one: Seq<CategoryHTMLView>,
    other: Seq<CategoryHTMLView>,
)
    requires
        table.no_duplicates(),
        categories_match(table, categories, one),
        categories_match(table, categories, other),
    ensures
        one == other,
    decreases categories.len(),
{
    if categories.len() == 0 {
        assert(one =~= other);
    } else {
        let n = entry_count(categories.last().crates);
        let head_one = one.subrange(0, one.len() - n);
        let head_other = other.subrange(0, other.len() - n);
        let tail_one = one.subrange(one.len() - n, one.len() as int);
        let tail_other = other.subrange(other.len() - n, other.len() as int);
        lemma_categories_match_unique(table, categories.drop_last(), head_one, head_other);
        lemma_category_matches_unique(table, categories.last(), tail_one, tail_other);
        assert(one =~= head_one + tail_one);
        assert(other =~= head_other + tail_other);
    }
}

/// A report has one context for each of its two pages: whatever describes
/// the same page of the same report holds the same values.
pub proof fn lemma_context_unique(
    one: ResultsContext,
    other: ResultsContext,
    res: TestResultsView,
    crates_count: usize,
    full: bool,
)
    requires
        one.describes(res, crates_count, full),
        other.describes(res, crates_count, full),
    ensures
        one@ == other@,
{
    let table = result_table(res.categories, full);
    lemma_result_table_sound(res.categories, full);
    lemma_categories_match_unique(
        table,
        shown_categories(res.categories, full),
        html_category_views(one.categories@),
        html_category_views(other.categories@),
    );
    let colors_one = comparison_color_views(one.comparison_colors@);
    let colors_other = comparison_color_views(other.comparison_colors@);
    assert(colors_one.len() == color_keys(one.comparison_colors@).len());
    assert(colors_other.len() == color_keys(other.comparison_colors@).len());
    assert forall|i: int| 0 <= i < colors_one.len() implies colors_one[i] == colors_other[i] by {
        assert(color_keys(one.comparison_colors@)[i] == one.comparison_colors@[i].comparison);
        assert(color_keys(other.comparison_colors@)[i] == other.comparison_colors@[i].comparison);
        assert(one.comparison_colors@[i].color@ == comparison_color(
            one.comparison_colors@[i].comparison,
        ));
        assert(other.comparison_colors@[i].color@ == comparison_color(
            other.comparison_colors@[i].comparison,
        ));
    }
    assert(colors_one =~= colors_other);
    assert(color_views(one.result_colors@) =~= color_views(other.result_colors@)) by {
        assert forall|i: int| 0 <= i < table.len() implies color_views(one.result_colors@)[i]
            == color_views(other.result_colors@)[i] by {
            assert(one.result_colors@[i]@ == result_color(table[i]));
            assert(other.result_colors@[i]@ == result_color(table[i]));
        }
    }
    assert(string_views(one.result_names@) =~= string_views(
        other.result_names@,
    )) by {
        assert forall|i: int| 0 <= i < table.len() implies string_views(
            one.result_names@,
        )[i] == string_views(other.result_names@)[i] by {
            assert(one.result_names@[i]@ == result_name(table[i]));
            assert(other.result_names@[i]@ == result_name(table[i]));
        }
    }
}

/// The mathematical value of what a page is written from.
pub enum PageContextView {
    Results(ResultsContextView),
    ResultsSnapshot(ResultsSnapshotView),
    Downloads(DownloadsContextView),
}

/// The mathematical value of what a page is written from.
pub open spec fn page_context_view(context: PageContext) -> PageContextView {
    match context {
        PageContext::Results(ctx) => PageContextView::Results(ctx@),
        PageContext::ResultsSnapshot(snap) => PageContextView::ResultsSnapshot(snap@),
        PageContext::Downloads(ctx) => PageContextView::Downloads(ctx@),
    }
}

/// What is written for a page of a report depends on the report alone: two
/// pages that are prepared for the same page of the same report, in the same
/// mode, are written to the same file from the same values.
pub proof fn lemma_page_deterministic(
    one: Page,
    other: Page,
    res: TestResultsView,
    crates_count: usize,
    full: bool,
    to: Seq<char>,
    output_templates: bool,
)
    requires
        is_report_page(&one, res, crates_count, full, to, output_templates),
        is_report_page(&other, res, crates_count, full, to, output_templates),
    ensures
        one.page == other.page,
        one.to@ == other.to@,
        one.template@ == other.template@,
        one.output_templates == other.output_templates,
        page_context_view(one.context) == page_context_view(other.context),
{
    if output_templates {
        if let PageContext::ResultsSnapshot(snap_one) = one.context {
            if let PageContext::ResultsSnapshot(snap_other) = other.context {
                let plain_one = choose|plain: ResultsContext| #[trigger]
                    plain.describes(res, crates_count, full) && snap_one@
                        == results_snapshot_spec(plain@);
                let plain_other = choose|plain: ResultsContext| #[trigger]
                    plain.describes(res, crates_count, full) && snap_other@
                        == results_snapshot_spec(plain@);
                lemma_context_unique(plain_one, plain_other, res, crates_count, full);
            }
        }
    } else {
        if let PageContext::Results(ctx_one) = one.context {
            if let PageContext::Results(ctx_other) = other.context {
                lemma_context_unique(ctx_one, ctx_other, res, crates_count, full);
            }
        }
    }
}

/// The downloads page of an experiment is written from the same values
/// whenever it is prepared from the same archives in the same mode.
pub proof fn lemma_downloads_deterministic(
    one: Page,
    other: Page,
    crates_count: usize,
    archives: Seq<ArchiveView>,
    output_templates: bool,
)
    requires
        is_downloads_page(&one, crates_count, archives, output_templates),
        is_downloads_page(&other, crates_count, archives, output_templates),
    ensures
        one.page == other.page,
        one.to@ == other.to@,
        one.template@ == other.template@,
        page_context_view(one.context) == page_context_view(other.context),
{
}

/// In the key of a text the zero stands at the end and nowhere else.
proof fn lemma_text_key_shape(text: Seq<char>)
    ensures
        text_key(text).len() == text.len() + 1,
        text_key(text)[text.len() as int] == 0,
        forall|i: int| 0 <= i < text.len() ==> #[trigger] text_key(text)[i] > 0,
{
    assert forall|i: int| 0 <= i < text.len() implies #[trigger] text_key(text)[i] > 0 by {
        lemma_code_injective(text[i], text[i]);
    }
}

/// Two texts are known from their keys put one after the other, with
/// whatever follows.
proof fn lemma_text_keys_split(a: Seq<char>, rest_a: Seq<u64>, b: Seq<char>, rest_b: Seq<u64>)
    requires
        text_key(a) + rest_a == text_key(b) + rest_b,
    ensures
        a == b,
        rest_a == rest_b,
{
    let left = text_key(a) + rest_a;
    let right = text_key(b) + rest_b;
    lemma_text_key_shape(a);
    lemma_text_key_shape(b);
    if a.len() < b.len() {
        assert(left[a.len() as int] == 0);
        assert(right[a.len() as int] == text_key(b)[a.len() as int]);
    } else if b.len() < a.len() {
        assert(right[b.len() as int] == 0);
        assert(left[b.len() as int] == text_key(a)[b.len() as int]);
    }
    assert(text_key(a) =~= text_key(b)) by {
        assert forall|i: int| 0 <= i < text_key(a).len() implies text_key(a)[i] == text_key(
            b,
        )[i] by {
            assert(left[i] == text_key(a)[i]);
            assert(right[i] == text_key(b)[i]);
        }
    }
    lemma_text_key_injective(a, b);
    assert(rest_a =~= rest_b) by {
        assert(rest_a.len() == rest_b.len()) by {
            assert(left.len() == text_key(a).len() + rest_a.len());
            assert(right.len() == text_key(b).len() + rest_b.len());
        }
        assert forall|i: int| 0 <= i < rest_a.len() implies rest_a[i] == rest_b[i] by {
            assert(left[text_key(a).len() + i] == rest_a[i]);
            assert(right[text_key(b).len() + i] == rest_b[i]);
        }
    }
}

/// A color is known from its key.
pub proof fn lemma_color_key_injective(one: ColorView, other: ColorView)
    requires
        one.key_spec() == other.key_spec(),
    ensures
        one == other,
{
    let empty = Seq::<u64>::empty();
    match (one, other) {
        (ColorView::Single(a), ColorView::Single(b)) => {
            assert((seq![0u64] + text_key(a)).drop_first() =~= text_key(a) + empty);
            assert((seq![0u64] + text_key(b)).drop_first() =~= text_key(b) + empty);
            lemma_text_keys_split(a, empty, b, empty);
        },
        (ColorView::Striped(a, c), ColorView::Striped(b, d)) => {
            assert((seq![1u64] + text_key(a) + text_key(c)).drop_first() =~= text_key(a)
                + (text_key(c) + empty));
            assert((seq![1u64] + text_key(b) + text_key(d)).drop_first() =~= text_key(b)
                + (text_key(d) + empty));
            lemma_text_keys_split(a, text_key(c) + empty, b, text_key(d) + empty);
            lemma_text_keys_split(c, empty, d, empty);
        },
        (ColorView::Single(a), ColorView::Striped(b, d)) => {
            assert(one.key_spec()[0] == 0);
            assert(other.key_spec()[0] == 1);
        },
        (ColorView::Striped(a, c), ColorView::Single(b)) => {
            assert(one.key_spec()[0] == 1);
            assert(other.key_spec()[0] == 0);
        },
    }
}

/// An entry of a navigation bar is known from its key.
pub proof fn lemma_navbar_key_injective(one: NavbarItemView, other: NavbarItemView)
    requires
        one.key_spec() == other.key_spec(),
    ensures
        one == other,
{
    let flag = |active: bool| seq![
        if active {
            1u64
        } else {
            0u64
        },
    ];
    assert(one.key_spec() =~= text_key(one.label) + (text_key(one.url) + flag(one.active)));
    assert(other.key_spec() =~= text_key(other.label) + (text_key(other.url) + flag(
        other.active,
    )));
    lemma_text_keys_split(
        one.label,
        text_key(one.url) + flag(one.active),
        other.label,
        text_key(other.url) + flag(other.active),
    );
    lemma_text_keys_split(one.url, flag(one.active), other.url, flag(other.active));
    assert(flag(one.active)[0] == flag(other.active)[0]);
}

/// What is written out for a page does not depend on the order in which the
/// lists and mappings of its context are stored: two contexts that hold the
/// same values in their lists, each as often as the other, and the same
/// entries in their mappings, are written out alike.
pub proof fn lemma_snapshot_order_free(one: ResultsContextView, other: ResultsContextView)
    requires
        one.full == other.full,
        one.crates_count == other.crates_count,
        one.nav.to_multiset() == other.nav.to_multiset(),
        one.result_colors.to_multiset() == other.result_colors.to_multiset(),
        one.result_names.to_multiset() == other.result_names.to_multiset(),
        one.info.to_multiset() == other.info.to_multiset(),
        keys_of(one.info).no_duplicates(),
        one.comparison_colors.to_multiset() == other.comparison_colors.to_multiset(),
        keys_of(one.comparison_colors).no_duplicates(),
        written_entries(one.categories).to_multiset() == written_entries(
            other.categories,
        ).to_multiset(),
        keys_of(written_entries(one.categories)).no_duplicates(),
    ensures
        results_snapshot_spec(one) == results_snapshot_spec(other),
{
    assert forall|i: int, j: int|
        0 <= i < one.nav.len() && 0 <= j < one.nav.len() && (#[trigger] one.nav[i]).key_spec()
            == (#[trigger] one.nav[j]).key_spec() implies one.nav[i] == one.nav[j] by {
        lemma_navbar_key_injective(one.nav[i], one.nav[j]);
    }
    lemma_sort_spec_order_free(one.nav, other.nav);
    assert forall|i: int, j: int|
        0 <= i < one.result_colors.len() && 0 <= j < one.result_colors.len() && (
        #[trigger] one.result_colors[i]).key_spec() == (
        #[trigger] one.result_colors[j]).key_spec() implies one.result_colors[i]
        == one.result_colors[j] by {
        lemma_color_key_injective(one.result_colors[i], one.result_colors[j]);
    }
    lemma_sort_spec_order_free(one.result_colors, other.result_colors);
    lemma_texts_order_free(one.result_names, other.result_names);
    lemma_mapping_order_free(one.info, other.info);
    lemma_mapping_order_free(one.comparison_colors, other.comparison_colors);
    lemma_mapping_order_free(
        written_entries(one.categories),
        written_entries(other.categories),
    );
}

/// What a page lists of a run: its log.
pub open spec fn listed_run(run: Option<RunView>) -> Option<Seq<char>> {
    match run {
        Some(r) => Some(r.log),
        None => None,
    }
}

/// What a page lists of crates, the indexes of their runs left aside.
pub open spec fn listed_crates(crates: Seq<CrateResultView>) -> Seq<CrateResultSnapshotView> {
    Seq::new(
        crates.len(),
        |i: int|
            CrateResultSnapshotView {
                name: crates[i].name,
                url: crates[i].url,
                res: crates[i].res,
                baseline: listed_run(crates[i].baseline),
                candidate: listed_run(crates[i].candidate),
            },
    )
}

/// What a page lists of groups, the indexes of the runs left aside.
pub open spec fn listed_groups(groups: Seq<CrateGroupView>) -> Seq<CrateGroupSnapshotView> {
    Seq::new(
        groups.len(),
        |i: int|
            CrateGroupSnapshotView { key: groups[i].key, crates: listed_crates(groups[i].crates) },
    )
}

/// What a page lists for a category, the indexes of the runs left aside:
/// one entry for a plain list, two for the complete shape.
pub open spec fn listed_category(category: CategoryView) -> Seq<CategorySnapshotView> {
    match category.crates {
        ReportCratesView::Plain(list) => seq![
            CategorySnapshotView {
                comparison: category.comparison,
                crates: ReportCratesSnapshotView::Plain(listed_crates(list)),
            },
        ],
        ReportCratesView::Complete { tree, results } => seq![
            CategorySnapshotView {
                comparison: category.comparison,
                crates: ReportCratesSnapshotView::Tree {
                    count: tree.len() as u32,
                    tree: listed_groups(tree),
                },
            },
            CategorySnapshotView {
                comparison: category.comparison,
                crates: ReportCratesSnapshotView::RootResults {
                    count: results.len() as u32,
                    results: listed_groups(results),
                },
            },
        ],
    }
}

/// What a page lists for categories, in their order.
pub open spec fn listed(categories: Seq<CategoryView>) -> Seq<CategorySnapshotView>
    decreases categories.len(),
{
    if categories.len() == 0 {
        Seq::empty()
    } else {
        listed(categories.drop_last()) + listed_category(categories.last())
    }
}

/// An entry of a page with the indexes of its runs left aside and its
/// groups in the order in which the page holds them.
pub open spec fn stripped_entry(entry: CategoryHTMLView) -> CategorySnapshotView {
    CategorySnapshotView {
        comparison: entry.comparison,
        crates: match entry.crates {
            ReportCratesHTMLView::Plain(list) => ReportCratesSnapshotView::Plain(
                strip_crates_spec(list),
            ),
            ReportCratesHTMLView::Tree { count, tree } => ReportCratesSnapshotView::Tree {
                count,
                tree: strip_groups_spec(tree),
            },
            ReportCratesHTMLView::RootResults { count, results } =>
                ReportCratesSnapshotView::RootResults {
                    count,
                    results: strip_groups_spec(results),
                },
        },
    }
}

/// The entries of a page with the indexes of their runs left aside.
pub open spec fn stripped(entries: Seq<CategoryHTMLView>) -> Seq<CategorySnapshotView> {
    Seq::new(entries.len(), |i: int| stripped_entry(entries[i]))
}

proof fn lemma_crates_listed(
    table: Seq<TestResultView>,
    crates: Seq<CrateResultView>,
    shown: Seq<CrateResultHTMLView>,
)
    requires
        crates_match(table, crates, shown),
    ensures
        strip_crates_spec(shown) == listed_crates(crates),
{
    assert forall|i: int| 0 <= i < shown.len() implies strip_crates_spec(shown)[i]
        == listed_crates(crates)[i] by {
        assert(crate_matches(table, crates[i], shown[i]));
    }
    assert(strip_crates_spec(shown) =~= listed_crates(crates));
}

proof fn lemma_groups_listed(
    table: Seq<TestResultView>,
    groups: Seq<CrateGroupView>,
    shown: Seq<CrateGroupHTMLView>,
)
    requires
        groups_match(table, groups, shown),
    ensures
        strip_groups_spec(shown) == listed_groups(groups),
{
    assert forall|i: int| 0 <= i < shown.len() implies strip_groups_spec(shown)[i]
        == listed_groups(groups)[i] by {
        assert(shown[i].key == groups[i].key);
        lemma_crates_listed(table, groups[i].crates, shown[i].crates);
    }
    assert(strip_groups_spec(shown) =~= listed_groups(groups));
}

proof fn lemma_entries_listed(
    table: Seq<TestResultView>,
    categories: Seq<CategoryView>,
    shown: Seq<CategoryHTMLView>,
)
    requires
        categories_match(table, categories, shown),
    ensures
        stripped(shown) == listed(categories),
    decreases categories.len(),
{
    if categories.len() == 0 {
        assert(stripped(shown) =~= listed(categories));
    } else {
        let n = entry_count(categories.last().crates);
        let head = shown.subrange(0, shown.len() - n);
        let tail = shown.subrange(shown.len() - n, shown.len() as int);
        lemma_entries_listed(table, categories.drop_last(), head);
        match categories.last().crates {
            ReportCratesView::Plain(list) => {
                if let ReportCratesHTMLView::Plain(crates) = tail[0].crates {
                    lemma_crates_listed(table, list, crates);
                }
            },
            ReportCratesView::Complete { tree, results } => {
                if let ReportCratesHTMLView::Tree { count, tree: shown_tree } = tail[0].crates {
                    lemma_groups_listed(table, tree, shown_tree);
                }
                if let ReportCratesHTMLView::RootResults { count, results: shown_results } =
                    tail[1].crates {
                    lemma_groups_listed(table, results, shown_results);
                }
            },
        }
        assert(stripped(tail) =~= listed_category(categories.last()));
        assert(stripped(shown) =~= stripped(head) + stripped(tail));
    }
}

proof fn lemma_listed_of_shown(categories: Seq<CategoryView>)
    ensures
        listed(shown_categories(categories, false)) == listed(categories).filter(
            |entry: CategorySnapshotView| entry.comparison.show_in_summary_spec(),
        ),
    decreases categories.len(),
{
    let visible = |entry: CategorySnapshotView| entry.comparison.show_in_summary_spec();
    reveal(Seq::filter);
    if categories.len() == 0 {
        assert(listed(categories).filter(visible) =~= Seq::<CategorySnapshotView>::empty());
    } else {
        let rest = categories.drop_last();
        let last = categories.last();
        let entries = listed_category(last);
        lemma_listed_of_shown(rest);
        Seq::filter_distributes_over_add(listed(rest), entries, visible);
        if last.comparison.show_in_summary_spec() {
            assert(shown_categories(categories, false).drop_last() =~= shown_categories(
                rest,
                false,
            ));
            assert(entries.filter(visible) =~= entries) by {
                lemma_filter_all(entries, visible);
            }
        } else {
            assert(entries.filter(visible) =~= Seq::<CategorySnapshotView>::empty()) by {
                lemma_filter_none(entries, visible);
            }
            assert(listed(rest).filter(visible) + Seq::<CategorySnapshotView>::empty()
                =~= listed(rest).filter(visible));
        }
    }
}

proof fn lemma_filter_all<T>(items: Seq<T>, keep: spec_fn(T) -> bool)
    requires
        forall|i: int| 0 <= i < items.len() ==> keep(#[trigger] items[i]),
    ensures
        items.filter(keep) == items,
    decreases items.len(),
{
    reveal(Seq::filter);
    if items.len() > 0 {
        lemma_filter_all(items.drop_last(), keep);
        assert(items.drop_last().push(items.last()) =~= items);
    }
}

proof fn lemma_filter_none<T>(items: Seq<T>, keep: spec_fn(T) -> bool)
    requires
        forall|i: int| 0 <= i < items.len() ==> !keep(#[trigger] items[i]),
    ensures
        items.filter(keep) == Seq::<T>::empty(),
    decreases items.len(),
{
    reveal(Seq::filter);
    if items.len() > 0 {
        lemma_filter_none(items.drop_last(), keep);
    }
}

/// What a page lists, the indexes of its runs left aside, is known from the
/// report: it is what the report holds for the categories that the page
/// shows.
pub proof fn lemma_page_lists_report(
    ctx: ResultsContext,
    res: TestResultsView,
    crates_count: usize,
    full: bool,
)
    requires
        ctx.describes(res, crates_count, full),
    ensures
        stripped(html_category_views(ctx.categories@)) == listed(
            shown_categories(res.categories, full),
        ),
{
    lemma_entries_listed(
        result_table(res.categories, full),
        shown_categories(res.categories, full),
        html_category_views(ctx.categories@),
    );
}

/// The summary lists exactly those entries of the full report whose
/// category is shown in the summary, in the same order and with the same
/// crates; the full report lists every category of the report.
pub proof fn lemma_summary_lists_part_of_full(
    summary: ResultsContext,
    full: ResultsContext,
    res: TestResultsView,
    crates_count: usize,
)
    requires
        summary.describes(res, crates_count, false),
        full.describes(res, crates_count, true),
    ensures
        stripped(html_category_views(full.categories@)) == listed(res.categories),
        stripped(html_category_views(summary.categories@)) == stripped(
            html_category_views(full.categories@),
        ).filter(|entry: CategorySnapshotView| entry.comparison.show_in_summary_spec()),
{
    lemma_page_lists_report(summary, res, crates_count, false);
    lemma_page_lists_report(full, res, crates_count, true);
    lemma_summary_within_full(res.categories);
    lemma_listed_of_shown(res.categories);
}

} // verus!
