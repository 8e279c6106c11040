//! The form of a context that is written out for comparison with an earlier
//! run: every list and every mapping in it stands in the order of its sort
//! keys, so that the same report always gives the same text.

use crate::comparison::Comparison;
use crate::context::{
    archive_views, copy_list, html_category_views, navbar_views, Archive, ArchiveView,
    CategoryHTML, CategoryHTMLView, ComparisonColor, DownloadsContext, NavbarItem,
    NavbarItemView, ReportCratesHTML, ReportCratesHTMLView, ResultsContext,
};
use crate::display::{Color, ColorView};
use crate::grouping::string_views;
use crate::html::{
    html_crate_views, html_group_views, html_run_view, BuildTestResultHTML,
    BuildTestResultHTMLView, CrateGroupHTML, CrateGroupHTMLView, CrateResultHTML,
    CrateResultHTMLView,
};
use crate::report::CategoryCount;
use crate::serialize::{
    hashmap_deterministic_serialize, lemma_sort_spec_map, push_text_key, sort_spec, sort_vec,
    text_key, HasKey, SortKey,
};
use vstd::prelude::*;

verus! {

impl HasKey for ColorView {
    /// One tone comes before two; then the tones decide, the first tone
    /// first.
    open spec fn key_spec(&self) -> Seq<u64> {
        match self {
            ColorView::Single(tone) => seq![0u64] + text_key(*tone),
            ColorView::Striped(first, second) => seq![1u64] + text_key(*first) + text_key(*second),
        }
    }
}

impl HasKey for Color {
    open spec fn key_spec(&self) -> Seq<u64> {
        self@.key_spec()
    }
}

impl SortKey for Color {
    fn sort_key(&self) -> (key: Vec<u64>) {
        let mut key: Vec<u64> = Vec::new();
        match self {
            Color::Single(tone) => {
                key.push(0);
                push_text_key(&mut key, tone);
                assert(key@ =~= seq![0u64] + text_key(tone@));
            },
            Color::Striped(first, second) => {
                key.push(1);
                push_text_key(&mut key, first);
                push_text_key(&mut key, second);
                assert(key@ =~= seq![1u64] + text_key(first@) + text_key(second@));
            },
        }
        key
    }
}

impl HasKey for NavbarItemView {
    /// The label decides, then the address, then whether the entry is
    /// active, an inactive entry first.
    open spec fn key_spec(&self) -> Seq<u64> {
        text_key(self.label) + text_key(self.url) + seq![
            if self.active {
                1u64
            } else {
                0u64
            },
        ]
    }
}

impl HasKey for NavbarItem {
    open spec fn key_spec(&self) -> Seq<u64> {
        self@.key_spec()
    }
}

impl SortKey for NavbarItem {
    fn sort_key(&self) -> (key: Vec<u64>) {
        let mut key: Vec<u64> = Vec::new();
        push_text_key(&mut key, self.label);
        push_text_key(&mut key, self.url);
        key.push(
            if self.active {
                1
            } else {
                0
            },
        );
        assert(key@ =~= self@.key_spec());
        key
    }
}

/// A run as it is written out: its log. The index of its outcome is left
/// out, since it stands for an entry of lists that are written out sorted.
#[derive(Clone, Debug, PartialEq, Eq)]
pub struct BuildTestResultSnapshot {
    pub log: String,
}

/// The log of a written-out run that may be absent.
pub open spec fn snapshot_run_view(run: Option<BuildTestResultSnapshot>) -> Option<Seq<char>> {
    match run {
        Some(r) => Some(r.log@),
        None => None,
    }
}

/// A crate as it is written out.
#[derive(Clone, Debug, PartialEq, Eq)]
pub struct CrateResultSnapshot {
    pub name: String,
    pub url: String,
    pub res: Comparison,
    pub runs: [Option<BuildTestResultSnapshot>; 2],
}

/// The mathematical value of a [`CrateResultSnapshot`]: of each run that
/// is present it holds the log.
pub struct CrateResultSnapshotView {
    pub name: Seq<char>,
    pub url: Seq<char>,
    pub res: Comparison,
    pub baseline: Option<Seq<char>>,
    pub candidate: Option<Seq<char>>,
}

impl View for CrateResultSnapshot {
    type V = CrateResultSnapshotView;

    open spec fn view(&self) -> CrateResultSnapshotView {
        CrateResultSnapshotView {
            name: self.name@,
            url: self.url@,
            res: self.res,
            baseline: snapshot_run_view(self.runs[0]),
            candidate: snapshot_run_view(self.runs[1]),
        }
    }
}

/// The views of a list of written-out crates.
pub open spec fn snapshot_crate_views(crates: Seq<CrateResultSnapshot>) -> Seq<
    CrateResultSnapshotView,
> {
    Seq::new(crates.len(), |i: int| crates[i]@)
}

/// The written-out crates that share one key.
#[derive(Clone, Debug, PartialEq, Eq)]
pub struct CrateGroupSnapshot {
    pub key: String,
    pub crates: Vec<CrateResultSnapshot>,
}

/// The mathematical value of a [`CrateGroupSnapshot`].
pub struct CrateGroupSnapshotView {
    pub key: Seq<char>,
    pub crates: Seq<CrateResultSnapshotView>,
}

impl View for CrateGroupSnapshot {
    type V = CrateGroupSnapshotView;

    open spec fn view(&self) -> CrateGroupSnapshotView {
        CrateGroupSnapshotView { key: self.key@, crates: snapshot_crate_views(self.crates@) }
    }
}

/// The views of a list of written-out groups.
pub open spec fn snapshot_group_views(groups: Seq<CrateGroupSnapshot>) -> Seq<
    CrateGroupSnapshotView,
> {
    Seq::new(groups.len(), |i: int| groups[i]@)
}

/// The crates of a category as they are written out.
#[derive(Clone, Debug, PartialEq, Eq)]
pub enum ReportCratesSnapshot {
    Plain(Vec<CrateResultSnapshot>),
    Tree { count: u32, tree: Vec<CrateGroupSnapshot> },
    RootResults { count: u32, results: Vec<CrateGroupSnapshot> },
}

/// The mathematical value of a [`ReportCratesSnapshot`].
pub enum ReportCratesSnapshotView {
    Plain(Seq<CrateResultSnapshotView>),
    Tree { count: u32, tree: Seq<CrateGroupSnapshotView> },
    RootResults { count: u32, results: Seq<CrateGroupSnapshotView> },
}

impl View for ReportCratesSnapshot {
    type V = ReportCratesSnapshotView;

    open spec fn view(&self) -> ReportCratesSnapshotView {
        match self {
            ReportCratesSnapshot::Plain(crates) => ReportCratesSnapshotView::Plain(
                snapshot_crate_views(crates@),
            ),
            ReportCratesSnapshot::Tree { count, tree } => ReportCratesSnapshotView::Tree {
                count: *count,
                tree: snapshot_group_views(tree@),
            },
            ReportCratesSnapshot::RootResults { count, results } =>
                ReportCratesSnapshotView::RootResults {
                    count: *count,
                    results: snapshot_group_views(results@),
                },
        }
    }
}

/// One entry of the list of categories of a page as it is written out.
#[derive(Clone, Debug, PartialEq, Eq)]
pub struct CategorySnapshot {
    pub comparison: Comparison,
    pub crates: ReportCratesSnapshot,
}

/// The mathematical value of a [`CategorySnapshot`].
pub struct CategorySnapshotView {
    pub comparison: Comparison,
    pub crates: ReportCratesSnapshotView,
}

impl View for CategorySnapshot {
    type V = CategorySnapshotView;

    open spec fn view(&self) -> CategorySnapshotView {
        CategorySnapshotView { comparison: self.comparison, crates: self.crates@ }
    }
}

/// The views of a list of written-out entries.
pub open spec fn snapshot_category_views(entries: Seq<CategorySnapshot>) -> Seq<
    CategorySnapshotView,
> {
    Seq::new(entries.len(), |i: int| entries[i]@)
}

/// The place of a shape among the shapes in which a page shows a category:
/// the shapes stand in the order of their names.
pub open spec fn shape_rank(crates: ReportCratesSnapshotView) -> u64 {
    match crates {
        ReportCratesSnapshotView::Plain(_) => 0,
        ReportCratesSnapshotView::RootResults { .. } => 1,
        ReportCratesSnapshotView::Tree { .. } => 2,
    }
}

impl HasKey for CategorySnapshotView {
    /// The category decides, then the shape.
    open spec fn key_spec(&self) -> Seq<u64> {
        seq![self.comparison.rank_spec() as u64, shape_rank(self.crates)]
    }
}

impl HasKey for CategorySnapshot {
    open spec fn key_spec(&self) -> Seq<u64> {
        self@.key_spec()
    }
}

impl SortKey for CategorySnapshot {
    fn sort_key(&self) -> (key: Vec<u64>) {
        let mut key: Vec<u64> = Vec::new();
        let rank: u8 = self.comparison.rank();
        key.push(rank as u64);
        key.push(
            match &self.crates {
                ReportCratesSnapshot::Plain(_) => 0,
                ReportCratesSnapshot::RootResults { .. } => 1,
                ReportCratesSnapshot::Tree { .. } => 2,
            },
        );
        assert(key@ =~= self@.key_spec());
        key
    }
}

impl HasKey for CrateGroupSnapshotView {
    /// The key of the group decides.
    open spec fn key_spec(&self) -> Seq<u64> {
        text_key(self.key)
    }
}

impl HasKey for CrateGroupSnapshot {
    open spec fn key_spec(&self) -> Seq<u64> {
        self@.key_spec()
    }
}

impl SortKey for CrateGroupSnapshot {
    fn sort_key(&self) -> (key: Vec<u64>) {
        let mut key: Vec<u64> = Vec::new();
        push_text_key(&mut key, self.key.as_str());
        assert(key@ =~= self@.key_spec());
        key
    }
}

impl HasKey for CategoryCount {
    /// The category decides.
    open spec fn key_spec(&self) -> Seq<u64> {
        seq![self.comparison.rank_spec() as u64]
    }
}

impl SortKey for CategoryCount {
    fn sort_key(&self) -> (key: Vec<u64>) {
        let mut key: Vec<u64> = Vec::new();
        let rank: u8 = self.comparison.rank();
        key.push(rank as u64);
        assert(key@ =~= self.key_spec());
        key
    }
}

/// The mathematical value of a [`ComparisonColor`].
pub struct ComparisonColorView {
    pub comparison: Comparison,
    pub color: ColorView,
}

impl View for ComparisonColor {
    type V = ComparisonColorView;

    open spec fn view(&self) -> ComparisonColorView {
        ComparisonColorView { comparison: self.comparison, color: self.color@ }
    }
}

impl HasKey for ComparisonColorView {
    /// The category decides.
    open spec fn key_spec(&self) -> Seq<u64> {
        seq![self.comparison.rank_spec() as u64]
    }
}

impl HasKey for ComparisonColor {
    open spec fn key_spec(&self) -> Seq<u64> {
        self@.key_spec()
    }
}

impl SortKey for ComparisonColor {
    fn sort_key(&self) -> (key: Vec<u64>) {
        let mut key: Vec<u64> = Vec::new();
        let rank: u8 = self.comparison.rank();
        key.push(rank as u64);
        assert(key@ =~= self@.key_spec());
        key
    }
}

impl HasKey for ArchiveView {
    /// The name decides, then the path.
    open spec fn key_spec(&self) -> Seq<u64> {
        text_key(self.name) + text_key(self.path)
    }
}

impl HasKey for Archive {
    open spec fn key_spec(&self) -> Seq<u64> {
        self@.key_spec()
    }
}

impl SortKey for Archive {
    fn sort_key(&self) -> (key: Vec<u64>) {
        let mut key: Vec<u64> = Vec::new();
        push_text_key(&mut key, self.name.as_str());
        push_text_key(&mut key, self.path.as_str());
        assert(key@ =~= self@.key_spec());
        key
    }
}

/// The views of a list of colors.
pub open spec fn color_views(colors: Seq<Color>) -> Seq<ColorView> {
    Seq::new(colors.len(), |i: int| colors[i]@)
}

/// The views of a list of colors of categories.
pub open spec fn comparison_color_views(colors: Seq<ComparisonColor>) -> Seq<
    ComparisonColorView,
> {
    Seq::new(colors.len(), |i: int| colors[i]@)
}

/// The mathematical value of a [`ResultsContext`].
pub struct ResultsContextView {
    pub nav: Seq<NavbarItemView>,
    pub categories: Seq<CategoryHTMLView>,
    pub info: Seq<CategoryCount>,
    pub full: bool,
    pub crates_count: usize,
    pub comparison_colors: Seq<ComparisonColorView>,
    pub result_colors: Seq<ColorView>,
    pub result_names: Seq<Seq<char>>,
}

impl View for ResultsContext {
    type V = ResultsContextView;

    open spec fn view(&self) -> ResultsContextView {
        ResultsContextView {
            nav: navbar_views(self.nav@),
            categories: html_category_views(self.categories@),
            info: self.info@,
            full: self.full,
            crates_count: self.crates_count,
            comparison_colors: comparison_color_views(self.comparison_colors@),
            result_colors: color_views(self.result_colors@),
            result_names: string_views(self.result_names@),
        }
    }
}

/// The context of the summary or of the full report as it is written out
/// for comparison with an earlier run.
#[derive(Clone, Debug, PartialEq, Eq)]
pub struct ResultsSnapshot {
    pub nav: Vec<NavbarItem>,
    pub categories: Vec<CategorySnapshot>,
    pub info: Vec<CategoryCount>,
    pub full: bool,
    pub crates_count: usize,
    pub comparison_colors: Vec<ComparisonColor>,
    pub result_colors: Vec<Color>,
    pub result_names: Vec<String>,
}

/// The mathematical value of a [`ResultsSnapshot`].
pub struct ResultsSnapshotView {
    pub nav: Seq<NavbarItemView>,
    pub categories: Seq<CategorySnapshotView>,
    pub info: Seq<CategoryCount>,
    pub full: bool,
    pub crates_count: usize,
    pub comparison_colors: Seq<ComparisonColorView>,
    pub result_colors: Seq<ColorView>,
    pub result_names: Seq<Seq<char>>,
}

impl View for ResultsSnapshot {
    type V = ResultsSnapshotView;

    open spec fn view(&self) -> ResultsSnapshotView {
        ResultsSnapshotView {
            nav: navbar_views(self.nav@),
            categories: snapshot_category_views(self.categories@),
            info: self.info@,
            full: self.full,
            crates_count: self.crates_count,
            comparison_colors: comparison_color_views(self.comparison_colors@),
            result_colors: color_views(self.result_colors@),
            result_names: string_views(self.result_names@),
        }
    }
}

/// The mathematical value of a [`DownloadsContext`].
pub struct DownloadsContextView {
    pub nav: Seq<NavbarItemView>,
    pub crates_count: usize,
    pub available_archives: Seq<ArchiveView>,
}

impl View for DownloadsContext {
    type V = DownloadsContextView;

    open spec fn view(&self) -> DownloadsContextView {
        DownloadsContextView {
            nav: navbar_views(self.nav@),
            crates_count: self.crates_count,
            available_archives: archive_views(self.available_archives@),
        }
    }
}

/// What is written out of a shown run: its log.
pub open spec fn strip_run_spec(run: Option<BuildTestResultHTMLView>) -> Option<Seq<char>> {
    match run {
        Some(shown) => Some(shown.log),
        None => None,
    }
}

/// What is written out of a shown crate: all of it but the indexes of its
/// runs.
pub open spec fn strip_crate_spec(krate: CrateResultHTMLView) -> CrateResultSnapshotView {
    CrateResultSnapshotView {
        name: krate.name,
        url: krate.url,
        res: krate.res,
        baseline: strip_run_spec(krate.baseline),
        candidate: strip_run_spec(krate.candidate),
    }
}

/// What is written out of shown crates, in their order.
pub open spec fn strip_crates_spec(crates: Seq<CrateResultHTMLView>) -> Seq<
    CrateResultSnapshotView,
> {
    Seq::new(crates.len(), |i: int| strip_crate_spec(crates[i]))
}

/// What is written out of shown groups, in their order.
pub open spec fn strip_groups_spec(groups: Seq<CrateGroupHTMLView>) -> Seq<
    CrateGroupSnapshotView,
> {
    Seq::new(
        groups.len(),
        |i: int|
            CrateGroupSnapshotView {
                key: groups[i].key,
                crates: strip_crates_spec(groups[i].crates),
            },
    )
}

/// The crates of a category as they are written out: the groups in the
/// order of their keys. A plain list keeps its order.
pub open spec fn snapshot_crates_spec(crates: ReportCratesHTMLView) -> ReportCratesSnapshotView {
    match crates {
        ReportCratesHTMLView::Plain(list) => ReportCratesSnapshotView::Plain(
            strip_crates_spec(list),
        ),
        ReportCratesHTMLView::Tree { count, tree } => ReportCratesSnapshotView::Tree {
            count,
            tree: sort_spec(strip_groups_spec(tree)),
        },
        ReportCratesHTMLView::RootResults { count, results } =>
            ReportCratesSnapshotView::RootResults {
                count,
                results: sort_spec(strip_groups_spec(results)),
            },
    }
}

/// An entry of a page as it is written out.
pub open spec fn snapshot_category_spec(entry: CategoryHTMLView) -> CategorySnapshotView {
    CategorySnapshotView {
        comparison: entry.comparison,
        crates: snapshot_crates_spec(entry.crates),
    }
}

/// The entries of a page, each as it is written out, in the order in which
/// the page holds them.
pub open spec fn written_entries(entries: Seq<CategoryHTMLView>) -> Seq<CategorySnapshotView> {
    Seq::new(entries.len(), |i: int| snapshot_category_spec(entries[i]))
}

/// The entries of a page as they are written out, in the order of their
/// sort keys.
pub open spec fn snapshot_categories_spec(entries: Seq<CategoryHTMLView>) -> Seq<
    CategorySnapshotView,
> {
    sort_spec(written_entries(entries))
}

/// The form of the context of a report page that is written out for
/// comparison: every list in it sorted, the groups of every entry sorted,
/// and the indexes of the runs left out.
pub open spec fn results_snapshot_spec(ctx: ResultsContextView) -> ResultsSnapshotView {
    ResultsSnapshotView {
        nav: sort_spec(ctx.nav),
        categories: snapshot_categories_spec(ctx.categories),
        info: sort_spec(ctx.info),
        full: ctx.full,
        crates_count: ctx.crates_count,
        comparison_colors: sort_spec(ctx.comparison_colors),
        result_colors: sort_spec(ctx.result_colors),
        result_names: sort_spec(ctx.result_names),
    }
}

/// The form of the context of the downloads page that is written out for
/// comparison: the navigation bar and the archives sorted.
pub open spec fn downloads_snapshot_spec(ctx: DownloadsContextView) -> DownloadsContextView {
    DownloadsContextView {
        nav: sort_spec(ctx.nav),
        crates_count: ctx.crates_count,
        available_archives: sort_spec(ctx.available_archives),
    }
}

/// A sorted copy of a navigation bar.
pub fn sorted_navbar(nav: &Vec<NavbarItem>) -> (out: Vec<NavbarItem>)
    ensures
        navbar_views(out@) == sort_spec(navbar_views(nav@)),
{
    let out = sort_vec(copy_list(nav));
    proof {
        let view = |item: NavbarItem| item@;
        lemma_sort_spec_map(nav@, view);
        assert(navbar_views(out@) =~= out@.map_values(view));
        assert(navbar_views(nav@) =~= nav@.map_values(view));
    }
    out
}

/// A sorted copy of a list of texts.
pub fn sorted_names(names: &Vec<String>) -> (out: Vec<String>)
    ensures
        string_views(out@) == sort_spec(string_views(names@)),
{
    let mut copy: Vec<String> = Vec::new();
    let mut i: usize = 0;
    while i < names.len()
        invariant
            i <= names@.len(),
            string_views(copy@) == string_views(names@).take(i as int),
        decreases names@.len() - i,
    {
        let ghost before = string_views(copy@);
        copy.push(names[i].clone());
        assert(string_views(copy@) =~= before.push(names@[i as int]@));
        assert(string_views(names@).take(i as int + 1) =~= string_views(names@).take(
            i as int,
        ).push(names@[i as int]@));
        i = i + 1;
    }
    let ghost copied = copy@;
    let out = sort_vec(copy);
    proof {
        assert(string_views(names@).take(i as int) =~= string_views(names@));
        let view = |text: String| text@;
        lemma_sort_spec_map(copied, view);
        assert(string_views(out@) =~= out@.map_values(view));
        assert(string_views(copied) =~= copied.map_values(view));
    }
    out
}

/// A sorted copy of a list of archives.
pub fn sorted_archives(archives: &Vec<Archive>) -> (out: Vec<Archive>)
    ensures
        archive_views(out@) == sort_spec(archive_views(archives@)),
{
    let mut copy: Vec<Archive> = Vec::new();
    let mut i: usize = 0;
    while i < archives.len()
        invariant
            i <= archives@.len(),
            archive_views(copy@) == archive_views(archives@).take(i as int),
        decreases archives@.len() - i,
    {
        let ghost before = archive_views(copy@);
        copy.push(Archive { name: archives[i].name.clone(), path: archives[i].path.clone() });
        assert(archive_views(copy@) =~= before.push(archives@[i as int]@));
        assert(archive_views(archives@).take(i as int + 1) =~= archive_views(archives@).take(
            i as int,
        ).push(archives@[i as int]@));
        i = i + 1;
    }
    let ghost copied = copy@;
    let out = sort_vec(copy);
    proof {
        assert(archive_views(archives@).take(i as int) =~= archive_views(archives@));
        let view = |archive: Archive| archive@;
        lemma_sort_spec_map(copied, view);
        assert(archive_views(out@) =~= out@.map_values(view));
        assert(archive_views(copied) =~= copied.map_values(view));
    }
    out
}

/// What is written out of a shown run.
pub fn strip_run(run: &Option<BuildTestResultHTML>) -> (out: Option<BuildTestResultSnapshot>)
    ensures
        snapshot_run_view(out) == strip_run_spec(html_run_view(*run)),
{
    match run {
        Some(shown) => Some(BuildTestResultSnapshot { log: shown.log.clone() }),
        None => None,
    }
}

/// What is written out of a shown crate.
pub fn strip_crate(krate: &CrateResultHTML) -> (out: CrateResultSnapshot)
    ensures
        out@ == strip_crate_spec(krate@),
{
    let baseline = strip_run(&krate.runs[0]);
    let candidate = strip_run(&krate.runs[1]);
    CrateResultSnapshot {
        name: krate.name.clone(),
        url: krate.url.clone(),
        res: krate.res,
        runs: [baseline, candidate],
    }
}

/// What is written out of shown crates, in their order.
pub fn strip_crates(crates: &Vec<CrateResultHTML>) -> (out: Vec<CrateResultSnapshot>)
    ensures
        snapshot_crate_views(out@) == strip_crates_spec(html_crate_views(crates@)),
{
    let ghost expected = strip_crates_spec(html_crate_views(crates@));
    let mut out: Vec<CrateResultSnapshot> = Vec::new();
    let mut i: usize = 0;
    while i < crates.len()
        invariant
            i <= crates@.len(),
            expected == strip_crates_spec(html_crate_views(crates@)),
            snapshot_crate_views(out@) == expected.take(i as int),
        decreases crates@.len() - i,
    {
        let ghost before = snapshot_crate_views(out@);
        out.push(strip_crate(&crates[i]));
        assert(snapshot_crate_views(out@) =~= before.push(expected[i as int]));
        assert(expected.take(i as int + 1) =~= expected.take(i as int).push(expected[i as int]));
        i = i + 1;
    }
    assert(expected.take(i as int) =~= expected);
    out
}

/// What is written out of shown groups, in the order of their keys.
pub fn snapshot_groups(groups: &Vec<CrateGroupHTML>) -> (out: Vec<CrateGroupSnapshot>)
    ensures
        snapshot_group_views(out@) == sort_spec(strip_groups_spec(html_group_views(groups@))),
{
    let ghost expected = strip_groups_spec(html_group_views(groups@));
    let mut stripped: Vec<CrateGroupSnapshot> = Vec::new();
    let mut i: usize = 0;
    while i < groups.len()
        invariant
            i <= groups@.len(),
            expected == strip_groups_spec(html_group_views(groups@)),
            snapshot_group_views(stripped@) == expected.take(i as int),
        decreases groups@.len() - i,
    {
        let ghost before = snapshot_group_views(stripped@);
        let crates = strip_crates(&groups[i].crates);
        stripped.push(CrateGroupSnapshot { key: groups[i].key.clone(), crates });
        assert(snapshot_group_views(stripped@) =~= before.push(expected[i as int]));
        assert(expected.take(i as int + 1) =~= expected.take(i as int).push(expected[i as int]));
        i = i + 1;
    }
    let ghost middle = stripped@;
    let out = hashmap_deterministic_serialize(stripped);
    proof {
        assert(expected.take(i as int) =~= expected);
        let view = |group: CrateGroupSnapshot| group@;
        lemma_sort_spec_map(middle, view);
        assert(snapshot_group_views(out@) =~= out@.map_values(view));
        assert(snapshot_group_views(middle) =~= middle.map_values(view));
    }
    out
}

/// An entry of a page as it is written out.
pub fn snapshot_category(entry: &CategoryHTML) -> (out: CategorySnapshot)
    ensures
        out@ == snapshot_category_spec(entry@),
{
    let crates = match &entry.crates {
        ReportCratesHTML::Plain(list) => ReportCratesSnapshot::Plain(strip_crates(list)),
        ReportCratesHTML::Tree { count, tree } => ReportCratesSnapshot::Tree {
            count: *count,
            tree: snapshot_groups(tree),
        },
        ReportCratesHTML::RootResults { count, results } => ReportCratesSnapshot::RootResults {
            count: *count,
            results: snapshot_groups(results),
        },
    };
    CategorySnapshot { comparison: entry.comparison, crates }
}

/// The entries of a page as they are written out, in the order of their
/// sort keys.
pub fn snapshot_categories(entries: &Vec<CategoryHTML>) -> (out: Vec<CategorySnapshot>)
    ensures
        snapshot_category_views(out@) == snapshot_categories_spec(
            html_category_views(entries@),
        ),
{
    let ghost source = html_category_views(entries@);
    let ghost expected = written_entries(source);
    let mut inner: Vec<CategorySnapshot> = Vec::new();
    let mut i: usize = 0;
    while i < entries.len()
        invariant
            i <= entries@.len(),
            source == html_category_views(entries@),
            expected == written_entries(source),
            snapshot_category_views(inner@) == expected.take(i as int),
        decreases entries@.len() - i,
    {
        let ghost before = snapshot_category_views(inner@);
        inner.push(snapshot_category(&entries[i]));
        assert(snapshot_category_views(inner@) =~= before.push(expected[i as int]));
        assert(expected.take(i as int + 1) =~= expected.take(i as int).push(expected[i as int]));
        i = i + 1;
    }
    let ghost middle = inner@;
    let out = sort_vec(inner);
    proof {
        assert(expected.take(i as int) =~= expected);
        let view = |entry: CategorySnapshot| entry@;
        lemma_sort_spec_map(middle, view);
        assert(snapshot_category_views(out@) =~= out@.map_values(view));
        assert(snapshot_category_views(middle) =~= middle.map_values(view));
    }
    out
}

/// The form of the context of a report page that is written out for
/// comparison with an earlier run. The context itself is left as it is.
pub fn results_snapshot(ctx: &ResultsContext) -> (snap: ResultsSnapshot)
    ensures
        snap@ == results_snapshot_spec(ctx@),
{
    let nav = sorted_navbar(&ctx.nav);
    let categories = snapshot_categories(&ctx.categories);
    let info = hashmap_deterministic_serialize(copy_list(&ctx.info));
    let comparison_colors = hashmap_deterministic_serialize(copy_list(&ctx.comparison_colors));
    let result_colors = sort_vec(copy_list(&ctx.result_colors));
    let result_names = sorted_names(&ctx.result_names);
    proof {
        let color_view = |entry: ComparisonColor| entry@;
        lemma_sort_spec_map(ctx.comparison_colors@, color_view);
        assert(comparison_color_views(comparison_colors@) =~= comparison_colors@.map_values(
            color_view,
        ));
        assert(comparison_color_views(ctx.comparison_colors@)
            =~= ctx.comparison_colors@.map_values(color_view));
        let tone_view = |color: Color| color@;
        lemma_sort_spec_map(ctx.result_colors@, tone_view);
        assert(color_views(result_colors@) =~= result_colors@.map_values(tone_view));
        assert(color_views(ctx.result_colors@) =~= ctx.result_colors@.map_values(tone_view));
    }
    ResultsSnapshot {
        nav,
        categories,
        info,
        full: ctx.full,
        crates_count: ctx.crates_count,
        comparison_colors,
        result_colors,
        result_names,
    }
}

/// The form of the context of the downloads page that is written out for
/// comparison with an earlier run. The context itself is left as it is.
pub fn downloads_snapshot(ctx: &DownloadsContext) -> (snap: DownloadsContext)
    ensures
        snap@ == downloads_snapshot_spec(ctx@),
{
    DownloadsContext {
        nav: sorted_navbar(&ctx.nav),
        crates_count: ctx.crates_count,
        available_archives: sorted_archives(&ctx.available_archives),
    }
}

} // verus!
