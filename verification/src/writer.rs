//! The pages and files of a report, and what is written for each in either
//! mode: the rendered page, or the context it would be rendered from.

use crate::context::{
    archive_views, downloads_context, results_context, Archive, ArchiveView, CurrentPage,
    DownloadsContext, ResultsContext,
};
use crate::grouping::string_views;
use crate::report::{TestResults, TestResultsView};
use crate::snapshot::{
    downloads_snapshot, downloads_snapshot_spec, results_snapshot, results_snapshot_spec,
    DownloadsContextView, ResultsSnapshot,
};
use vstd::prelude::*;

verus! {

/// The kind of content of a written file.
#[derive(Clone, Copy, Debug, PartialEq, Eq, Structural)]
pub enum MediaType {
    Html,
    Json,
}

/// A file to be written: where, what, and of which kind.
#[derive(Clone, Debug, PartialEq, Eq)]
pub struct Artifact {
    pub path: String,
    pub content: String,
    pub media: MediaType,
}

/// What a page is rendered from or, where contexts are written out, what is
/// written out for it.
#[derive(Clone, Debug, PartialEq, Eq)]
pub enum PageContext {
    /// The context of the summary or of the full report.
    Results(ResultsContext),
    /// The written-out form of the context of the summary or of the full
    /// report.
    ResultsSnapshot(ResultsSnapshot),
    /// The context of the downloads page, sorted where it is written out.
    Downloads(DownloadsContext),
}

/// A page of the report before it is rendered or dumped.
#[derive(Clone, Debug, PartialEq, Eq)]
pub struct Page {
    /// Which of the three pages this is.
    pub page: CurrentPage,
    /// The name of the file of the rendered page.
    pub to: String,
    /// The name of the template that renders the page.
    pub template: String,
    /// Whether the context is written out in place of the rendered page.
    pub output_templates: bool,
    /// What the page is rendered from.
    pub context: PageContext,
}

/// Everything that makes up a report: its pages, and the names of the files
/// that are copied beside them byte for byte.
#[derive(Clone, Debug, PartialEq, Eq)]
pub struct Report {
    pub pages: Vec<Page>,
    pub assets: Vec<String>,
}

/// The markup that the minifier makes of a page's markup.
pub uninterp spec fn minified_html(source: Seq<char>) -> Seq<char>;

/// Calls `minifier::html::minify`, which strips comments, needless tags and
/// runs of white space from markup. The result depends on the markup alone;
/// the contract names it and says nothing of what it holds.
#[verifier::external_body]
fn minify_html(source: &str) -> (minified: String)
    ensures
        minified@ == minified_html(source@),
{
    minifier::html::minify(source)
}

/// The file of a rendered page: the minified markup, under the page's own
/// name.
pub fn html_artifact(to: &str, minified: String) -> (artifact: Artifact)
    ensures
        artifact.path@ == to@,
        artifact.content == minified,
        artifact.media == MediaType::Html,
{
    Artifact { path: String::from_str(to), content: minified, media: MediaType::Html }
}

/// The file of a dumped context: the text with a line end after it, under
/// the page's name followed by `.context.json`.
pub fn snapshot_artifact(to: &str, json: String) -> (artifact: Artifact)
    ensures
        artifact.path@ == to@ + ".context.json"@,
        artifact.content@ == json@ + "\n"@,
        artifact.media == MediaType::Json,
{
    Artifact {
        path: String::from_str(to).concat(".context.json"),
        content: json.concat("\n"),
        media: MediaType::Json,
    }
}

impl Page {
    /// The path of the file that is written for this page.
    pub open spec fn path_spec(&self) -> Seq<char> {
        if self.output_templates {
            self.to@ + ".context.json"@
        } else {
            self.to@
        }
    }

    /// The content of the file that is written for this page, given the
    /// rendered markup or, where the context is written out, its text.
    pub open spec fn content_spec(&self, text: Seq<char>) -> Seq<char> {
        if self.output_templates {
            text + "\n"@
        } else {
            minified_html(text)
        }
    }

    /// The file that is written for this page. `text` is the markup that the
    /// template gave for the page's context or, where the context is written
    /// out, the context as text.
    pub fn artifact(&self, text: String) -> (artifact: Artifact)
        ensures
            artifact.path@ == self.path_spec(),
            artifact.content@ == self.content_spec(text@),
            artifact.media == if self.output_templates {
                MediaType::Json
            } else {
                MediaType::Html
            },
    {
        if self.output_templates {
            snapshot_artifact(self.to.as_str(), text)
        } else {
            html_artifact(self.to.as_str(), minify_html(text.as_str()))
        }
    }
}

/// Whether a context is what a page of the given report is written from: the
/// context of the page itself or, where contexts are written out, the
/// written-out form of that context.
pub open spec fn is_results_context(
    context: &PageContext,
    res: TestResultsView,
    crates_count: usize,
    full: bool,
    output_templates: bool,
) -> bool {
    if output_templates {
        &&& context matches PageContext::ResultsSnapshot(snap)
        &&& exists|plain: ResultsContext| #[trigger]
            plain.describes(res, crates_count, full) && snap@ == results_snapshot_spec(plain@)
    } else {
        &&& context matches PageContext::Results(ctx)
        &&& ctx.describes(res, crates_count, full)
    }
}

/// Whether a context is what the downloads page is written from.
pub open spec fn is_downloads_context(
    ctx: &DownloadsContext,
    crates_count: usize,
    archives: Seq<ArchiveView>,
    output_templates: bool,
) -> bool {
    let plain = DownloadsContextView {
        nav: CurrentPage::Downloads.navbar_spec(),
        crates_count,
        available_archives: archives,
    };
    if output_templates {
        ctx@ == downloads_snapshot_spec(plain)
    } else {
        ctx@ == plain
    }
}

/// Whether a page is the summary or the full report of the given
/// experiment, to be written to `to`.
pub open spec fn is_report_page(
    page: &Page,
    res: TestResultsView,
    crates_count: usize,
    full: bool,
    to: Seq<char>,
    output_templates: bool,
) -> bool {
    &&& page.page == if full {
        CurrentPage::Full
    } else {
        CurrentPage::Summary
    }
    &&& page.to@ == to
    &&& page.template@ == "report/results.html"@
    &&& page.output_templates == output_templates
    &&& is_results_context(&page.context, res, crates_count, full, output_templates)
}

/// Whether a page is the downloads page of the given experiment.
pub open spec fn is_downloads_page(
    page: &Page,
    crates_count: usize,
    archives: Seq<ArchiveView>,
    output_templates: bool,
) -> bool {
    &&& page.page == CurrentPage::Downloads
    &&& page.to@ == "downloads.html"@
    &&& page.template@ == "report/downloads.html"@
    &&& page.output_templates == output_templates
    &&& page.context matches PageContext::Downloads(ctx)
    &&& is_downloads_context(&ctx, crates_count, archives, output_templates)
}

/// Prepares the summary (`full` false) or the full report (`full` true), to
/// be written to `to`. Where contexts are written out, the context stands in
/// its sorted form.
pub fn write_report(
    crates_count: usize,
    res: &TestResults,
    full: bool,
    to: &str,
    output_templates: bool,
) -> (page: Page)
    ensures
        is_report_page(&page, res@, crates_count, full, to@, output_templates),
{
    let plain = results_context(res, crates_count, full);
    let context = if output_templates {
        PageContext::ResultsSnapshot(results_snapshot(&plain))
    } else {
        PageContext::Results(plain)
    };
    Page {
        page: if full {
            CurrentPage::Full
        } else {
            CurrentPage::Summary
        },
        to: String::from_str(to),
        template: String::from_str("report/results.html"),
        output_templates,
        context,
    }
}

/// Prepares the downloads page.
pub fn write_downloads(
    crates_count: usize,
    available_archives: Vec<Archive>,
    output_templates: bool,
) -> (page: Page)
    ensures
        is_downloads_page(
            &page,
            crates_count,
            archive_views(available_archives@),
            output_templates,
        ),
{
    let plain = downloads_context(crates_count, available_archives);
    let context = if output_templates {
        downloads_snapshot(&plain)
    } else {
        plain
    };
    Page {
        page: CurrentPage::Downloads,
        to: String::from_str("downloads.html"),
        template: String::from_str("report/downloads.html"),
        output_templates,
        context: PageContext::Downloads(context),
    }
}

/// Lays out the report of an experiment: the summary, the full report and
/// the downloads page, in this order, and after them the two files that are
/// copied as they are.
pub fn write_html_report(
    crates_count: usize,
    res: &TestResults,
    available_archives: Vec<Archive>,
    output_templates: bool,
) -> (report: Report)
    ensures
        report.pages@.len() == 3,
        is_report_page(
            &report.pages@[0],
            res@,
            crates_count,
            false,
            "index.html"@,
            output_templates,
        ),
        is_report_page(&report.pages@[1], res@, crates_count, true, "full.html"@, output_templates),
        is_downloads_page(
            &report.pages@[2],
            crates_count,
            archive_views(available_archives@),
            output_templates,
        ),
        string_views(report.assets@) == seq!["report.js"@, "report.css"@],
{
    let mut pages: Vec<Page> = Vec::new();
    pages.push(write_report(crates_count, res, false, "index.html", output_templates));
    pages.push(write_report(crates_count, res, true, "full.html", output_templates));
    pages.push(write_downloads(crates_count, available_archives, output_templates));
    let mut assets: Vec<String> = Vec::new();
    assets.push(String::from_str("report.js"));
    assets.push(String::from_str("report.css"));
    assert(string_views(assets@) =~= seq!["report.js"@, "report.css"@]);
    Report { pages, assets }
}

/// One step of the writing of a report. The steps of a report are taken in
/// their order, the next one only when the one before it has succeeded.
#[derive(Clone, Copy, Debug, PartialEq, Eq, Structural)]
pub enum Step {
    /// Load the copied file with this place among the copied files.
    LoadAsset(usize),
    /// Render the page with this place among the pages or, where contexts
    /// are written out, turn its context into text.
    Render(usize),
    /// Write the file of the page with this place among the pages.
    Write(usize),
    /// Write the copied file with this place among the copied files.
    CopyAsset(usize),
    /// Nothing is left to do.
    Done,
}

impl Report {
    /// The step that is taken when `done` steps have succeeded: first every
    /// copied file is loaded, so that nothing is written if one is missing;
    /// then page after page is rendered and written; then the copied files
    /// are written.
    pub open spec fn step_spec(&self, done: int) -> Step {
        let assets = self.assets@.len() as int;
        let pages = self.pages@.len() as int;
        if done < 0 {
            Step::Done
        } else if done < assets {
            Step::LoadAsset(done as usize)
        } else if done < assets + 2 * pages {
            if (done - assets) % 2 == 0 {
                Step::Render(((done - assets) / 2) as usize)
            } else {
                Step::Write(((done - assets) / 2) as usize)
            }
        } else if done < 2 * assets + 2 * pages {
            Step::CopyAsset((done - assets - 2 * pages) as usize)
        } else {
            Step::Done
        }
    }

    /// The step that is taken when `done` steps have succeeded.
    pub fn next_step(&self, done: usize) -> (step: Step)
        ensures
            step == self.step_spec(done as int),
            match step {
                Step::LoadAsset(i) => i < self.assets@.len(),
                Step::Render(i) => i < self.pages@.len(),
                Step::Write(i) => i < self.pages@.len(),
                Step::CopyAsset(i) => i < self.assets@.len(),
                Step::Done => true,
            },
    {
        let assets = self.assets.len();
        let pages = self.pages.len();
        if done < assets {
            return Step::LoadAsset(done);
        }
        let past_loading = done - assets;
        if past_loading / 2 < pages {
            return if past_loading % 2 == 0 {
                Step::Render(past_loading / 2)
            } else {
                Step::Write(past_loading / 2)
            };
        }
        let past_pages = past_loading - 2 * pages;
        if past_pages < assets {
            Step::CopyAsset(past_pages)
        } else {
            Step::Done
        }
    }
}

} // verus!
