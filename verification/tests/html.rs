use crater_report::comparison::Comparison;
use crater_report::context::{
    copy_list, note_color, push_html_category, CategoryHTML, ComparisonColor, ReportCratesHTML,
};
use crater_report::display::Color;
use crater_report::html::{
    to_html_crate_result, to_html_crates, to_html_groups, to_html_run, BuildTestResultHTML,
    CrateResultHTML,
};
use crater_report::report::{Category, CategoryCount, CrateGroup, CrateResult, ReportCrates, Run};
use crater_report::results::{FailureReason, TestResult};
use crater_report::table::ResultTable;

fn run(res: TestResult, log: &str) -> Option<Run> {
    Some(Run { toolchain: "stable".to_string(), res, log: log.to_string() })
}

fn krate(name: &str, baseline: Option<Run>, candidate: Option<Run>) -> CrateResult {
    CrateResult {
        name: name.to_string(),
        url: format!("https://example.org/{}", name),
        res: Comparison::Regressed,
        runs: [baseline, candidate],
    }
}

#[test]
fn absent_run_stays_absent() {
    let mut table = ResultTable::new();
    assert_eq!(to_html_run(&None, &mut table), None);
    assert!(table.results.is_empty());
}

#[test]
fn run_becomes_index_and_log() {
    let mut table = ResultTable::new();
    table.index_of(&TestResult::Error);
    let shown = to_html_run(&run(TestResult::TestPass, "log-1"), &mut table);
    assert_eq!(shown, Some(BuildTestResultHTML { res: 1, log: "log-1".to_string() }));
    let again = to_html_run(&run(TestResult::Error, "log-2"), &mut table);
    assert_eq!(again, Some(BuildTestResultHTML { res: 0, log: "log-2".to_string() }));
    assert_eq!(table.names, vec!["error", "test passed"]);
}

#[test]
fn crate_enters_the_baseline_before_the_candidate() {
    let mut table = ResultTable::new();
    let source = krate(
        "foo",
        run(TestResult::TestPass, "b"),
        run(TestResult::BuildFail(FailureReason::OOM), "c"),
    );
    let shown = to_html_crate_result(&source, &mut table);
    assert_eq!(
        shown,
        CrateResultHTML {
            name: "foo".to_string(),
            url: "https://example.org/foo".to_string(),
            res: Comparison::Regressed,
            runs: [
                Some(BuildTestResultHTML { res: 0, log: "b".to_string() }),
                Some(BuildTestResultHTML { res: 1, log: "c".to_string() }),
            ],
        }
    );
    assert_eq!(table.names, vec!["test passed", "build OOM"]);
}

#[test]
fn crate_with_one_run_keeps_the_place_of_the_run() {
    let mut table = ResultTable::new();
    let source = krate("foo", None, run(TestResult::TestPass, "c"));
    let shown = to_html_crate_result(&source, &mut table);
    assert_eq!(shown.runs[0], None);
    assert_eq!(shown.runs[1], Some(BuildTestResultHTML { res: 0, log: "c".to_string() }));
}

#[test]
fn crates_are_turned_in_their_order() {
    let mut table = ResultTable::new();
    let crates = vec![
        krate("a", run(TestResult::TestPass, "1"), run(TestResult::Error, "2")),
        krate("b", run(TestResult::Error, "3"), run(TestResult::TestSkipped, "4")),
    ];
    let shown = to_html_crates(&crates, &mut table);
    let names: Vec<&str> = shown.iter().map(|c| c.name.as_str()).collect();
    assert_eq!(names, vec!["a", "b"]);
    let indexes: Vec<usize> = shown
        .iter()
        .flat_map(|c| c.runs.iter().flatten().map(|r| r.res))
        .collect();
    assert_eq!(indexes, vec![0, 1, 1, 2]);
    assert_eq!(table.names, vec!["test passed", "error", "test skipped"]);
    assert!(to_html_crates(&Vec::new(), &mut table).is_empty());
}

#[test]
fn groups_keep_their_keys() {
    let mut table = ResultTable::new();
    let groups = vec![
        CrateGroup {
            key: "root-b".to_string(),
            crates: vec![krate("x", run(TestResult::TestPass, "1"), None)],
        },
        CrateGroup { key: "root-a".to_string(), crates: Vec::new() },
    ];
    let shown = to_html_groups(&groups, &mut table);
    let keys: Vec<&str> = shown.iter().map(|g| g.key.as_str()).collect();
    assert_eq!(keys, vec!["root-b", "root-a"]);
    assert_eq!(shown[0].crates.len(), 1);
    assert!(shown[1].crates.is_empty());
}

#[test]
fn plain_category_gives_one_entry_and_complete_gives_two() {
    let mut table = ResultTable::new();
    let mut shown: Vec<CategoryHTML> = Vec::new();
    let plain = Category {
        comparison: Comparison::Error,
        crates: ReportCrates::Plain(vec![krate("a", run(TestResult::Error, "1"), None)]),
    };
    push_html_category(&plain, &mut table, &mut shown);
    assert_eq!(shown.len(), 1);
    assert!(matches!(shown[0].crates, ReportCratesHTML::Plain(_)));
    let group = |key: &str| CrateGroup {
        key: key.to_string(),
        crates: vec![krate("b", run(TestResult::TestPass, "2"), None)],
    };
    let complete = Category {
        comparison: Comparison::Fixed,
        crates: ReportCrates::Complete {
            tree: vec![group("r1"), group("r2")],
            results: vec![group("test passed")],
        },
    };
    push_html_category(&complete, &mut table, &mut shown);
    assert_eq!(shown.len(), 3);
    assert_eq!(shown[1].comparison, Comparison::Fixed);
    assert_eq!(shown[2].comparison, Comparison::Fixed);
    assert!(matches!(shown[1].crates, ReportCratesHTML::Tree { count: 2, .. }));
    assert!(matches!(shown[2].crates, ReportCratesHTML::RootResults { count: 1, .. }));
    assert_eq!(table.names, vec!["error", "test passed"]);
}

#[test]
fn color_of_a_category_is_entered_once() {
    let mut colors: Vec<ComparisonColor> = Vec::new();
    note_color(&mut colors, Comparison::Fixed);
    note_color(&mut colors, Comparison::Skipped);
    note_color(&mut colors, Comparison::Fixed);
    assert_eq!(
        colors,
        vec![
            ComparisonColor { comparison: Comparison::Fixed, color: Color::Single("#5630db") },
            ComparisonColor {
                comparison: Comparison::Skipped,
                color: Color::Striped("#494b4a", "#555555"),
            },
        ]
    );
}

#[test]
fn counts_are_copied() {
    let info = vec![
        CategoryCount { comparison: Comparison::Broken, count: 4 },
        CategoryCount { comparison: Comparison::Fixed, count: 0 },
    ];
    assert_eq!(copy_list(&info), info);
    assert!(copy_list(&Vec::<CategoryCount>::new()).is_empty());
}
