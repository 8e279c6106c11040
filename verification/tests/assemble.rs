use crater_report::analyzer::{assemble, classify_crate, crate_label, result_label, CrateRuns};
use crater_report::comparison::Comparison;
use crater_report::report::{CategoryCount, ReportCrates, Run};
use crater_report::results::{BrokenReason, FailureReason, TestResult};

fn run(toolchain: &str, res: TestResult) -> Option<Run> {
    Some(Run {
        toolchain: toolchain.to_string(),
        res,
        log: format!("{}/log", toolchain),
    })
}

fn krate(
    name: &str,
    baseline: Option<TestResult>,
    candidate: Option<TestResult>,
    root: Option<&str>,
) -> CrateRuns {
    CrateRuns {
        name: name.to_string(),
        url: format!("https://crates.io/crates/{}", name),
        baseline: baseline.and_then(|res| run("stable", res)),
        candidate: candidate.and_then(|res| run("beta", res)),
        root: root.map(|r| r.to_string()),
        rerun: None,
    }
}

fn names(crates: &ReportCrates) -> Vec<String> {
    match crates {
        ReportCrates::Plain(list) => list.iter().map(|c| c.name.clone()).collect(),
        ReportCrates::Complete { tree, .. } => tree
            .iter()
            .flat_map(|group| group.crates.iter().map(|c| c.name.clone()))
            .collect(),
    }
}

#[test]
fn no_crates_no_categories() {
    let report = assemble(&Vec::new());
    assert!(report.categories.is_empty());
    assert!(report.info.is_empty());
}

#[test]
fn categories_stand_in_the_order_first_met() {
    let crates = vec![
        krate("a", Some(TestResult::TestPass), Some(TestResult::TestPass), None),
        krate("b", Some(TestResult::TestPass), Some(TestResult::BuildFail(FailureReason::ICE)), None),
        krate("c", Some(TestResult::TestPass), Some(TestResult::TestPass), None),
        krate("d", Some(TestResult::Error), Some(TestResult::TestPass), None),
        krate("e", Some(TestResult::TestPass), Some(TestResult::TestFail(FailureReason::OOM)), None),
    ];
    let report = assemble(&crates);
    let order: Vec<Comparison> = report.categories.iter().map(|c| c.comparison).collect();
    assert_eq!(
        order,
        vec![Comparison::SameTestPass, Comparison::Regressed, Comparison::Error]
    );
    assert_eq!(
        report.info,
        vec![
            CategoryCount { comparison: Comparison::SameTestPass, count: 2 },
            CategoryCount { comparison: Comparison::Regressed, count: 2 },
            CategoryCount { comparison: Comparison::Error, count: 1 },
        ]
    );
    assert_eq!(names(&report.categories[0].crates), vec!["a", "c"]);
    assert_eq!(names(&report.categories[1].crates), vec!["b", "e"]);
    assert_eq!(names(&report.categories[2].crates), vec!["d"]);
}

#[test]
fn every_crate_lands_in_exactly_one_category() {
    let crates = vec![
        krate("a", None, None, None),
        krate("b", Some(TestResult::Skipped), None, None),
        krate("c", Some(TestResult::TestPass), Some(TestResult::TestPass), None),
        krate("d", Some(TestResult::BrokenCrate(BrokenReason::Yanked)), Some(TestResult::TestPass), None),
        krate("e", Some(TestResult::TestSkipped), Some(TestResult::TestPass), None),
    ];
    let report = assemble(&crates);
    let mut total = 0;
    for (category, info) in report.categories.iter().zip(report.info.iter()) {
        assert_eq!(category.comparison, info.comparison);
        let held = names(&category.crates);
        assert_eq!(held.len() as u32, info.count);
        total += held.len();
        for name in held {
            let source = crates.iter().find(|c| c.name == name).unwrap();
            assert_eq!(classify_crate(source), category.comparison);
        }
    }
    assert_eq!(total, crates.len());
    let mut seen: Vec<Comparison> = report.categories.iter().map(|c| c.comparison).collect();
    seen.dedup();
    assert_eq!(seen.len(), report.categories.len());
}

#[test]
fn classified_crate_keeps_its_runs() {
    let crates = vec![krate(
        "foo",
        Some(TestResult::TestPass),
        Some(TestResult::TestFail(FailureReason::Timeout)),
        None,
    )];
    let report = assemble(&crates);
    let ReportCrates::Plain(list) = &report.categories[0].crates else {
        panic!("a category without roots is a plain list");
    };
    assert_eq!(list.len(), 1);
    assert_eq!(list[0].name, "foo");
    assert_eq!(list[0].url, "https://crates.io/crates/foo");
    assert_eq!(list[0].res, Comparison::Regressed);
    assert_eq!(list[0].runs[0], crates[0].baseline);
    assert_eq!(list[0].runs[1], crates[0].candidate);
}

#[test]
fn category_without_roots_is_plain() {
    let crates = vec![
        krate("a", Some(TestResult::TestPass), Some(TestResult::TestPass), None),
        krate("b", Some(TestResult::TestPass), Some(TestResult::TestPass), None),
    ];
    let report = assemble(&crates);
    assert!(matches!(report.categories[0].crates, ReportCrates::Plain(_)));
}

#[test]
fn one_root_makes_the_category_complete() {
    let failed = TestResult::BuildFail(FailureReason::DependsOn("root".to_string()));
    let crates = vec![
        krate("a", Some(TestResult::TestPass), Some(failed.clone()), None),
        krate("b", Some(TestResult::TestPass), Some(failed.clone()), Some("root")),
        krate("c", Some(TestResult::TestPass), Some(TestResult::TestPass), None),
    ];
    let report = assemble(&crates);
    assert!(matches!(report.categories[0].crates, ReportCrates::Complete { .. }));
    assert!(matches!(report.categories[1].crates, ReportCrates::Plain(_)));
}

#[test]
fn tree_groups_by_root_and_a_crate_without_root_is_its_own() {
    let failed = TestResult::BuildFail(FailureReason::Unknown);
    let crates = vec![
        krate("x", Some(TestResult::TestPass), Some(failed.clone()), Some("root-1")),
        krate("own", Some(TestResult::TestPass), Some(failed.clone()), None),
        krate("y", Some(TestResult::TestPass), Some(failed.clone()), Some("root-2")),
        krate("z", Some(TestResult::TestPass), Some(failed.clone()), Some("root-1")),
    ];
    let report = assemble(&crates);
    let ReportCrates::Complete { tree, .. } = &report.categories[0].crates else {
        panic!("a category with roots is complete");
    };
    let keys: Vec<&str> = tree.iter().map(|g| g.key.as_str()).collect();
    assert_eq!(keys, vec!["root-1", "own", "root-2"]);
    let under: Vec<Vec<&str>> = tree
        .iter()
        .map(|g| g.crates.iter().map(|c| c.name.as_str()).collect())
        .collect();
    assert_eq!(under, vec![vec!["x", "z"], vec!["own"], vec!["y"]]);
    let listed: usize = tree.iter().map(|g| g.crates.len()).sum();
    assert_eq!(listed, crates.len());
}

#[test]
fn root_that_is_no_crate_of_the_set_still_gets_its_group() {
    let failed = TestResult::TestFail(FailureReason::Unknown);
    let crates = vec![krate(
        "leaf",
        Some(TestResult::TestPass),
        Some(failed),
        Some("never-listed"),
    )];
    let report = assemble(&crates);
    let ReportCrates::Complete { tree, .. } = &report.categories[0].crates else {
        panic!("a category with roots is complete");
    };
    assert_eq!(tree.len(), 1);
    assert_eq!(tree[0].key, "never-listed");
    assert_eq!(tree[0].crates[0].name, "leaf");
}

#[test]
fn results_are_keyed_by_the_compiler_text() {
    let crates = vec![
        krate(
            "foo",
            Some(TestResult::TestPass),
            Some(TestResult::BuildFail(FailureReason::CompilerError("E0308".to_string()))),
            Some("foo"),
        ),
        krate(
            "bar",
            Some(TestResult::TestPass),
            Some(TestResult::BuildFail(FailureReason::Unknown)),
            Some("foo"),
        ),
        krate(
            "baz",
            Some(TestResult::TestPass),
            Some(TestResult::BuildFail(FailureReason::CompilerError("E0308".to_string()))),
            Some("baz"),
        ),
    ];
    let report = assemble(&crates);
    assert_eq!(report.categories[0].comparison, Comparison::Regressed);
    let ReportCrates::Complete { results, .. } = &report.categories[0].crates else {
        panic!("a category with roots is complete");
    };
    let keys: Vec<&str> = results.iter().map(|g| g.key.as_str()).collect();
    assert_eq!(keys, vec!["E0308", "build failed (unknown)"]);
    assert!(!keys.contains(&"build compiler error"));
    let under: Vec<Vec<&str>> = results
        .iter()
        .map(|g| g.crates.iter().map(|c| c.name.as_str()).collect())
        .collect();
    assert_eq!(under, vec![vec!["foo", "baz"], vec!["bar"]]);
}

#[test]
fn label_of_an_outcome() {
    assert_eq!(
        result_label(&TestResult::BuildFail(FailureReason::CompilerError("E0308".to_string()))),
        "E0308"
    );
    assert_eq!(
        result_label(&TestResult::TestFail(FailureReason::CompilerError("E0599".to_string()))),
        "E0599"
    );
    assert_eq!(result_label(&TestResult::BuildFail(FailureReason::OOM)), "build OOM");
    assert_eq!(result_label(&TestResult::TestPass), "test passed");
}

#[test]
fn label_of_a_crate_comes_from_the_candidate_run() {
    let both = krate(
        "a",
        Some(TestResult::TestPass),
        Some(TestResult::TestFail(FailureReason::Timeout)),
        None,
    );
    assert_eq!(crate_label(&both), Some("test timed out".to_string()));
    let baseline_only = krate("b", Some(TestResult::TestPass), None, None);
    assert_eq!(crate_label(&baseline_only), Some("test passed".to_string()));
    let none = krate("c", None, None, None);
    assert_eq!(crate_label(&none), None);
}

#[test]
fn crate_without_a_run_is_in_the_tree_and_in_no_results_group() {
    let crates = vec![
        krate("a", None, None, Some("root")),
        krate("b", Some(TestResult::TestPass), None, Some("root")),
    ];
    let report = assemble(&crates);
    assert_eq!(report.categories[0].comparison, Comparison::Unknown);
    let ReportCrates::Complete { tree, results } = &report.categories[0].crates else {
        panic!("a category with roots is complete");
    };
    assert_eq!(tree.len(), 1);
    assert_eq!(tree[0].crates.len(), 2);
    assert_eq!(results.len(), 1);
    assert_eq!(results[0].key, "test passed");
    assert_eq!(results[0].crates.len(), 1);
    assert_eq!(results[0].crates[0].name, "b");
}

#[test]
fn second_run_sets_the_spurious_category() {
    let mut flaky = krate(
        "flaky",
        Some(TestResult::TestPass),
        Some(TestResult::BuildFail(FailureReason::CompilerError("E0308".to_string()))),
        None,
    );
    flaky.rerun = Some(TestResult::TestPass);
    let solid = krate(
        "solid",
        Some(TestResult::TestPass),
        Some(TestResult::BuildFail(FailureReason::CompilerError("E0308".to_string()))),
        None,
    );
    let report = assemble(&vec![flaky, solid]);
    let order: Vec<Comparison> = report.categories.iter().map(|c| c.comparison).collect();
    assert_eq!(order, vec![Comparison::SpuriousRegressed, Comparison::Regressed]);
}

#[test]
fn same_crates_same_report() {
    let build = || {
        vec![
            krate("a", Some(TestResult::TestPass), Some(TestResult::TestPass), Some("r")),
            krate("b", Some(TestResult::TestPass), Some(TestResult::Error), None),
            krate("c", None, Some(TestResult::Skipped), Some("r")),
        ]
    };
    assert_eq!(assemble(&build()), assemble(&build()));
}
