use crater_report::analyzer::{assemble, CrateRuns};
use crater_report::comparison::Comparison;
use crater_report::context::{
    downloads_context, results_context, Archive, CategoryHTML, ComparisonColor, CurrentPage,
    NavbarItem, ReportCratesHTML,
};
use crater_report::display::Color;
use crater_report::html::{BuildTestResultHTML, CrateGroupHTML, CrateResultHTML};
use crater_report::report::{CategoryCount, Run, TestResults};
use crater_report::results::{FailureReason, TestResult};
use crater_report::serialize::{key_le, sort_vec, SortKey};
use crater_report::snapshot::{
    downloads_snapshot, results_snapshot, snapshot_categories, snapshot_category,
    snapshot_groups, sorted_archives, sorted_names, sorted_navbar, strip_crate, strip_crates,
    strip_run, BuildTestResultSnapshot, CategorySnapshot, CrateGroupSnapshot,
    CrateResultSnapshot, ReportCratesSnapshot,
};

fn krate(name: &str, candidate: TestResult, root: Option<&str>) -> CrateRuns {
    CrateRuns {
        name: name.to_string(),
        url: format!("https://crates.io/crates/{}", name),
        baseline: Some(Run {
            toolchain: "stable".to_string(),
            res: TestResult::TestPass,
            log: format!("stable/{}", name),
        }),
        candidate: Some(Run {
            toolchain: "beta".to_string(),
            res: candidate,
            log: format!("beta/{}", name),
        }),
        root: root.map(|r| r.to_string()),
        rerun: None,
    }
}

fn sample() -> TestResults {
    assemble(&vec![
        krate("pass", TestResult::TestPass, None),
        krate("zeta", TestResult::TestFail(FailureReason::Timeout), Some("zeta")),
        krate("alpha", TestResult::BuildFail(FailureReason::CompilerError("E0308".to_string())), Some("alpha")),
        krate("mid", TestResult::BuildFail(FailureReason::Unknown), Some("alpha")),
        krate("err", TestResult::Error, None),
    ])
}

fn group(key: &str) -> CrateGroupHTML {
    CrateGroupHTML { key: key.to_string(), crates: Vec::new() }
}

fn written_group(key: &str) -> CrateGroupSnapshot {
    CrateGroupSnapshot { key: key.to_string(), crates: Vec::new() }
}

fn shown(name: &str, index: usize) -> CrateResultHTML {
    CrateResultHTML {
        name: name.to_string(),
        url: format!("u/{}", name),
        res: Comparison::Fixed,
        runs: [Some(BuildTestResultHTML { res: index, log: format!("log/{}", name) }), None],
    }
}

fn written(name: &str) -> CrateResultSnapshot {
    CrateResultSnapshot {
        name: name.to_string(),
        url: format!("u/{}", name),
        res: Comparison::Fixed,
        runs: [Some(BuildTestResultSnapshot { log: format!("log/{}", name) }), None],
    }
}

#[test]
fn navbar_is_sorted_by_label() {
    let nav = CurrentPage::Summary.navbar();
    let sorted = sorted_navbar(&nav);
    assert_eq!(
        sorted,
        vec![
            NavbarItem { label: "Downloads", url: "downloads.html", active: false },
            NavbarItem { label: "Full report", url: "full.html", active: false },
            NavbarItem { label: "Summary", url: "index.html", active: true },
        ]
    );
    assert_eq!(nav, CurrentPage::Summary.navbar());
}

#[test]
fn navbar_entries_with_one_label_go_by_address_and_then_by_activity() {
    let item = |url: &'static str, active: bool| NavbarItem { label: "x", url, active };
    let sorted = sort_vec(vec![item("b", false), item("a", true), item("a", false)]);
    assert_eq!(sorted, vec![item("a", false), item("a", true), item("b", false)]);
}

#[test]
fn index_of_a_run_is_left_out() {
    let run = Some(BuildTestResultHTML { res: 17, log: "the log".to_string() });
    assert_eq!(strip_run(&run), Some(BuildTestResultSnapshot { log: "the log".to_string() }));
    assert_eq!(strip_run(&None), None);
    assert_eq!(strip_crate(&shown("a", 3)), written("a"));
    assert_eq!(strip_crate(&shown("a", 4)), written("a"));
    assert_eq!(
        strip_crates(&vec![shown("b", 0), shown("a", 1)]),
        vec![written("b"), written("a")]
    );
}

#[test]
fn groups_are_sorted_by_key() {
    let stored = vec![group("zeta"), group("alpha"), group("Beta"), group("")];
    let sorted = snapshot_groups(&stored);
    let keys: Vec<&str> = sorted.iter().map(|g| g.key.as_str()).collect();
    assert_eq!(keys, vec!["", "Beta", "alpha", "zeta"]);
    assert_eq!(stored[0].key, "zeta");
}

#[test]
fn crates_of_a_group_keep_their_order() {
    let stored = vec![
        CrateGroupHTML { key: "b".to_string(), crates: vec![shown("y", 0), shown("x", 1)] },
        CrateGroupHTML { key: "a".to_string(), crates: vec![shown("z", 2)] },
    ];
    assert_eq!(
        snapshot_groups(&stored),
        vec![
            CrateGroupSnapshot { key: "a".to_string(), crates: vec![written("z")] },
            CrateGroupSnapshot { key: "b".to_string(), crates: vec![written("y"), written("x")] },
        ]
    );
}

#[test]
fn names_are_sorted() {
    let names: Vec<String> = vec!["b", "a", "c"].into_iter().map(String::from).collect();
    assert_eq!(sorted_names(&names), vec!["a", "b", "c"]);
    assert_eq!(names, vec!["b", "a", "c"]);
}

#[test]
fn colors_sort_single_before_striped_and_then_by_tone() {
    let sorted = sort_vec(vec![
        Color::Striped("#a", "#b"),
        Color::Single("#z"),
        Color::Striped("#a", "#a"),
        Color::Single("#a"),
    ]);
    assert_eq!(
        sorted,
        vec![
            Color::Single("#a"),
            Color::Single("#z"),
            Color::Striped("#a", "#a"),
            Color::Striped("#a", "#b"),
        ]
    );
}

#[test]
fn archives_sort_by_name_and_then_by_path() {
    let archive = |name: &str, path: &str| Archive { name: name.to_string(), path: path.to_string() };
    let stored = vec![archive("b", "1"), archive("a", "2"), archive("a", "1"), archive("ab", "0")];
    assert_eq!(
        sorted_archives(&stored),
        vec![archive("a", "1"), archive("a", "2"), archive("ab", "0"), archive("b", "1")]
    );
    assert_eq!(sort_vec(stored.clone()), sorted_archives(&stored));
}

#[test]
fn sort_keys_agree_with_the_order_of_the_fields() {
    let joined = Archive { name: "ab".to_string(), path: "c".to_string() };
    let split = Archive { name: "a".to_string(), path: "bc".to_string() };
    assert!(key_le(&split.sort_key(), &joined.sort_key()));
    assert!(!key_le(&joined.sort_key(), &split.sort_key()));
}

#[test]
fn categories_are_sorted_by_category_and_then_by_shape() {
    let entry = |comparison: Comparison, crates: ReportCratesHTML| CategoryHTML { comparison, crates };
    let entries = vec![
        entry(Comparison::Error, ReportCratesHTML::Plain(Vec::new())),
        entry(Comparison::Fixed, ReportCratesHTML::Tree { count: 0, tree: Vec::new() }),
        entry(Comparison::Fixed, ReportCratesHTML::RootResults { count: 0, results: Vec::new() }),
        entry(Comparison::Regressed, ReportCratesHTML::Plain(Vec::new())),
    ];
    let sorted = snapshot_categories(&entries);
    let order: Vec<(Comparison, u8)> = sorted
        .iter()
        .map(|e| {
            (
                e.comparison,
                match e.crates {
                    ReportCratesSnapshot::Plain(_) => 0,
                    ReportCratesSnapshot::RootResults { .. } => 1,
                    ReportCratesSnapshot::Tree { .. } => 2,
                },
            )
        })
        .collect();
    assert_eq!(
        order,
        vec![
            (Comparison::Regressed, 0),
            (Comparison::Fixed, 1),
            (Comparison::Fixed, 2),
            (Comparison::Error, 0),
        ]
    );
}

#[test]
fn writing_out_an_entry_sorts_its_groups_and_keeps_its_count() {
    let entry = CategoryHTML {
        comparison: Comparison::Regressed,
        crates: ReportCratesHTML::Tree { count: 7, tree: vec![group("b"), group("a")] },
    };
    assert_eq!(
        snapshot_category(&entry),
        CategorySnapshot {
            comparison: Comparison::Regressed,
            crates: ReportCratesSnapshot::Tree {
                count: 7,
                tree: vec![written_group("a"), written_group("b")],
            },
        }
    );
    let plain = CategoryHTML {
        comparison: Comparison::Fixed,
        crates: ReportCratesHTML::Plain(vec![shown("b", 1), shown("a", 0)]),
    };
    assert_eq!(
        snapshot_category(&plain),
        CategorySnapshot {
            comparison: Comparison::Fixed,
            crates: ReportCratesSnapshot::Plain(vec![written("b"), written("a")]),
        }
    );
}

#[test]
fn snapshot_sorts_every_list_of_the_context() {
    let report = sample();
    let plain = results_context(&report, 5, true);
    let snap = results_snapshot(&plain);
    assert_eq!(snap.full, plain.full);
    assert_eq!(snap.crates_count, plain.crates_count);
    assert_eq!(snap.nav, sorted_navbar(&plain.nav));
    assert_eq!(
        snap.result_names,
        vec![
            "build compiler error",
            "build failed (unknown)",
            "error",
            "test passed",
            "test timed out",
        ]
    );
    assert_eq!(
        snap.result_colors,
        vec![
            Color::Single("#62a156"),
            Color::Single("#65461e"),
            Color::Single("#d77026"),
            Color::Single("#db3026"),
            Color::Single("#db3026"),
        ]
    );
    assert_eq!(
        snap.info,
        vec![
            CategoryCount { comparison: Comparison::Regressed, count: 3 },
            CategoryCount { comparison: Comparison::SameTestPass, count: 1 },
            CategoryCount { comparison: Comparison::Error, count: 1 },
        ]
    );
    let colors: Vec<Comparison> = snap.comparison_colors.iter().map(|c| c.comparison).collect();
    assert_eq!(
        colors,
        vec![Comparison::Regressed, Comparison::SameTestPass, Comparison::Error]
    );
    let shapes: Vec<(Comparison, &str)> = snap
        .categories
        .iter()
        .map(|e| {
            (
                e.comparison,
                match e.crates {
                    ReportCratesSnapshot::Plain(_) => "Plain",
                    ReportCratesSnapshot::RootResults { .. } => "RootResults",
                    ReportCratesSnapshot::Tree { .. } => "Tree",
                },
            )
        })
        .collect();
    assert_eq!(
        shapes,
        vec![
            (Comparison::Regressed, "RootResults"),
            (Comparison::Regressed, "Tree"),
            (Comparison::SameTestPass, "Plain"),
            (Comparison::Error, "Plain"),
        ]
    );
    let ReportCratesSnapshot::RootResults { count, results } = &snap.categories[0].crates else {
        panic!("the groups by result come first");
    };
    assert_eq!(*count, 3);
    let keys: Vec<&str> = results.iter().map(|g| g.key.as_str()).collect();
    assert_eq!(keys, vec!["E0308", "build failed (unknown)", "test timed out"]);
    let ReportCratesSnapshot::Tree { count, tree } = &snap.categories[1].crates else {
        panic!("the tree comes second");
    };
    assert_eq!(*count, 2);
    let keys: Vec<&str> = tree.iter().map(|g| g.key.as_str()).collect();
    assert_eq!(keys, vec!["alpha", "zeta"]);
    let under: Vec<&str> = tree[0].crates.iter().map(|c| c.name.as_str()).collect();
    assert_eq!(under, vec!["alpha", "mid"]);
    assert_eq!(
        tree[0].crates[0].runs,
        [
            Some(BuildTestResultSnapshot { log: "stable/alpha".to_string() }),
            Some(BuildTestResultSnapshot { log: "beta/alpha".to_string() }),
        ]
    );
}

#[test]
fn snapshot_leaves_the_context_as_it_is() {
    let plain = results_context(&sample(), 5, true);
    let kept = plain.clone();
    let _ = results_snapshot(&plain);
    assert_eq!(plain, kept);
}

#[test]
fn same_report_same_snapshot() {
    let one = results_snapshot(&results_context(&sample(), 5, true));
    let other = results_snapshot(&results_context(&sample(), 5, true));
    assert_eq!(one, other);
    assert_eq!(format!("{:?}", one), format!("{:?}", other));
}

#[test]
fn snapshot_does_not_depend_on_the_order_in_which_lists_are_stored() {
    let plain = results_context(&sample(), 5, true);
    let mut shuffled = plain.clone();
    shuffled.nav.reverse();
    shuffled.categories.reverse();
    shuffled.info.reverse();
    shuffled.comparison_colors.reverse();
    shuffled.result_colors.reverse();
    shuffled.result_names.reverse();
    for entry in shuffled.categories.iter_mut() {
        match &mut entry.crates {
            ReportCratesHTML::Plain(_) => {}
            ReportCratesHTML::Tree { tree, .. } => tree.reverse(),
            ReportCratesHTML::RootResults { results, .. } => results.reverse(),
        }
    }
    assert_ne!(plain, shuffled);
    assert_eq!(results_snapshot(&plain), results_snapshot(&shuffled));
}

#[test]
fn snapshot_does_not_depend_on_the_indexes_of_the_runs() {
    let one = assemble(&vec![
        krate("a", TestResult::TestFail(FailureReason::OOM), None),
        krate("b", TestResult::Error, None),
    ]);
    let other = assemble(&vec![
        krate("b", TestResult::Error, None),
        krate("a", TestResult::TestFail(FailureReason::OOM), None),
    ]);
    let first = results_context(&one, 2, true);
    let second = results_context(&other, 2, true);
    assert_ne!(first.result_names, second.result_names);
    assert_eq!(results_snapshot(&first), results_snapshot(&second));
}

#[test]
fn colors_of_categories_are_sorted_by_category() {
    let stored = vec![
        ComparisonColor { comparison: Comparison::Error, color: Color::Single("#d77026") },
        ComparisonColor { comparison: Comparison::Regressed, color: Color::Single("#db3026") },
    ];
    let sorted = sort_vec(stored);
    assert_eq!(sorted[0].comparison, Comparison::Regressed);
    assert_eq!(sorted[1].comparison, Comparison::Error);
}

#[test]
fn downloads_snapshot_sorts_navbar_and_archives() {
    let archive = |name: &str| Archive { name: name.to_string(), path: format!("{}.tar.gz", name) };
    let ctx = downloads_context(3, vec![archive("regressed"), archive("all"), archive("fixed")]);
    let snap = downloads_snapshot(&ctx);
    assert_eq!(snap.crates_count, 3);
    assert_eq!(snap.nav, sorted_navbar(&CurrentPage::Downloads.navbar()));
    assert!(snap.nav[0].active);
    assert_eq!(
        snap.available_archives,
        vec![archive("all"), archive("fixed"), archive("regressed")]
    );
    assert_eq!(ctx.available_archives[0], archive("regressed"));
}
