use crater_report::analyzer::{assemble, CrateRuns};
use crater_report::context::{downloads_context, results_context, Archive, CurrentPage};
use crater_report::report::{Run, TestResults};
use crater_report::results::{FailureReason, TestResult};
use crater_report::snapshot::{downloads_snapshot, results_snapshot};
use crater_report::writer::{
    html_artifact, snapshot_artifact, write_downloads, write_html_report, write_report, Artifact,
    MediaType, PageContext, Report, Step,
};

fn sample() -> TestResults {
    let krate = |name: &str, candidate: TestResult, root: Option<&str>| CrateRuns {
        name: name.to_string(),
        url: format!("https://crates.io/crates/{}", name),
        baseline: Some(Run {
            toolchain: "stable".to_string(),
            res: TestResult::TestPass,
            log: format!("stable/{}", name),
        }),
        candidate: Some(Run { toolchain: "beta".to_string(), res: candidate, log: format!("beta/{}", name) }),
        root: root.map(|r| r.to_string()),
        rerun: None,
    };
    assemble(&vec![
        krate("pass", TestResult::TestPass, None),
        krate("zeta", TestResult::TestFail(FailureReason::Timeout), Some("zeta")),
        krate("alpha", TestResult::BuildFail(FailureReason::Unknown), Some("alpha")),
    ])
}

fn archives() -> Vec<Archive> {
    vec![
        Archive { name: "regressed".to_string(), path: "logs-archives/regressed.tar.gz".to_string() },
        Archive { name: "all".to_string(), path: "logs-archives/all.tar.gz".to_string() },
    ]
}

#[test]
fn report_has_three_pages_and_two_copied_files() {
    let report = write_html_report(3, &sample(), archives(), false);
    let pages: Vec<(CurrentPage, &str, &str)> = report
        .pages
        .iter()
        .map(|p| (p.page, p.to.as_str(), p.template.as_str()))
        .collect();
    assert_eq!(
        pages,
        vec![
            (CurrentPage::Summary, "index.html", "report/results.html"),
            (CurrentPage::Full, "full.html", "report/results.html"),
            (CurrentPage::Downloads, "downloads.html", "report/downloads.html"),
        ]
    );
    assert_eq!(report.assets, vec!["report.js", "report.css"]);
    assert!(report.pages.iter().all(|p| !p.output_templates));
}

#[test]
fn rendered_pages_carry_their_contexts_as_built() {
    let res = sample();
    let report = write_html_report(3, &res, archives(), false);
    assert_eq!(report.pages[0].context, PageContext::Results(results_context(&res, 3, false)));
    assert_eq!(report.pages[1].context, PageContext::Results(results_context(&res, 3, true)));
    assert_eq!(
        report.pages[2].context,
        PageContext::Downloads(downloads_context(3, archives()))
    );
}

#[test]
fn dumped_pages_carry_their_contexts_sorted() {
    let res = sample();
    let report = write_html_report(3, &res, archives(), true);
    assert!(report.pages.iter().all(|p| p.output_templates));
    assert_eq!(
        report.pages[0].context,
        PageContext::ResultsSnapshot(results_snapshot(&results_context(&res, 3, false)))
    );
    assert_eq!(
        report.pages[1].context,
        PageContext::ResultsSnapshot(results_snapshot(&results_context(&res, 3, true)))
    );
    assert_eq!(
        report.pages[2].context,
        PageContext::Downloads(downloads_snapshot(&downloads_context(3, archives())))
    );
    assert_ne!(
        report.pages[2].context,
        PageContext::Downloads(downloads_context(3, archives()))
    );
}

#[test]
fn single_pages_are_the_pages_of_the_report() {
    let res = sample();
    let report = write_html_report(3, &res, archives(), true);
    assert_eq!(write_report(3, &res, false, "index.html", true), report.pages[0]);
    assert_eq!(write_report(3, &res, true, "full.html", true), report.pages[1]);
    assert_eq!(write_downloads(3, archives(), true), report.pages[2]);
}

#[test]
fn rendered_page_is_minified_and_written_under_its_name() {
    let page = write_report(3, &sample(), false, "index.html", false);
    let markup = "<div>\n    <!-- a comment -->\n    <p   class=\"x\"  >text</p>\n</div>\n";
    let artifact = page.artifact(markup.to_string());
    assert_eq!(artifact.path, "index.html");
    assert_eq!(artifact.media, MediaType::Html);
    assert_eq!(artifact.content, "<div> <p class=\"x\">text</p> </div>");
    assert_ne!(artifact.content, markup);
}

#[test]
fn minifier_drops_needless_tags() {
    let page = write_downloads(0, Vec::new(), false);
    let artifact = page.artifact("<html><body><ul><li>a</li></ul></body></html>".to_string());
    assert_eq!(artifact.path, "downloads.html");
    assert_eq!(artifact.content, "<ul><li>a</ul>");
}

#[test]
fn dumped_context_ends_with_a_line_and_goes_beside_the_page() {
    let page = write_report(3, &sample(), true, "full.html", true);
    let artifact = page.artifact("{\n  \"full\": true\n}".to_string());
    assert_eq!(
        artifact,
        Artifact {
            path: "full.html.context.json".to_string(),
            content: "{\n  \"full\": true\n}\n".to_string(),
            media: MediaType::Json,
        }
    );
}

#[test]
fn artifacts_by_hand() {
    assert_eq!(
        html_artifact("index.html", "<p>x</p>".to_string()),
        Artifact {
            path: "index.html".to_string(),
            content: "<p>x</p>".to_string(),
            media: MediaType::Html,
        }
    );
    assert_eq!(
        snapshot_artifact("downloads.html", "{}".to_string()),
        Artifact {
            path: "downloads.html.context.json".to_string(),
            content: "{}\n".to_string(),
            media: MediaType::Json,
        }
    );
}

#[test]
fn two_reports_of_one_experiment_are_equal() {
    let one = write_html_report(3, &sample(), archives(), true);
    let other = write_html_report(3, &sample(), archives(), true);
    assert_eq!(one, other);
}

#[test]
fn steps_load_first_then_render_and_write_each_page_then_copy() {
    let report = write_html_report(3, &sample(), archives(), false);
    let steps: Vec<Step> = (0..12).map(|done| report.next_step(done)).collect();
    assert_eq!(
        steps,
        vec![
            Step::LoadAsset(0),
            Step::LoadAsset(1),
            Step::Render(0),
            Step::Write(0),
            Step::Render(1),
            Step::Write(1),
            Step::Render(2),
            Step::Write(2),
            Step::CopyAsset(0),
            Step::CopyAsset(1),
            Step::Done,
            Step::Done,
        ]
    );
    assert_eq!(report.next_step(usize::MAX), Step::Done);
}

#[test]
fn report_without_pages_and_files_has_no_steps() {
    let empty = Report { pages: Vec::new(), assets: Vec::new() };
    assert_eq!(empty.next_step(0), Step::Done);
    let files_only = Report { pages: Vec::new(), assets: vec!["a".to_string()] };
    assert_eq!(files_only.next_step(0), Step::LoadAsset(0));
    assert_eq!(files_only.next_step(1), Step::CopyAsset(0));
    assert_eq!(files_only.next_step(2), Step::Done);
}
