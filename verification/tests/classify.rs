use crater_report::comparison::{classify, classify_confirmed, Comparison};
use crater_report::results::{BrokenReason, FailureReason, TestResult};

fn all_outcomes() -> Vec<TestResult> {
    vec![
        TestResult::BrokenCrate(BrokenReason::Unknown),
        TestResult::BrokenCrate(BrokenReason::Yanked),
        TestResult::BuildFail(FailureReason::Unknown),
        TestResult::BuildFail(FailureReason::CompilerError("E0308".to_string())),
        TestResult::TestFail(FailureReason::Timeout),
        TestResult::TestFail(FailureReason::DependsOn("dep".to_string())),
        TestResult::TestSkipped,
        TestResult::TestPass,
        TestResult::Error,
        TestResult::Skipped,
    ]
}

#[test]
fn both_pass_is_same_test_pass() {
    let pass = TestResult::TestPass;
    assert_eq!(classify(Some(&pass), Some(&pass)), Comparison::SameTestPass);
}

#[test]
fn same_kind_of_failure_is_same_category() {
    let unknown = TestResult::BuildFail(FailureReason::Unknown);
    let ice = TestResult::BuildFail(FailureReason::ICE);
    assert_eq!(classify(Some(&unknown), Some(&ice)), Comparison::SameBuildFail);
    let timeout = TestResult::TestFail(FailureReason::Timeout);
    let oom = TestResult::TestFail(FailureReason::OOM);
    assert_eq!(classify(Some(&timeout), Some(&oom)), Comparison::SameTestFail);
    let skipped = TestResult::TestSkipped;
    assert_eq!(classify(Some(&skipped), Some(&skipped)), Comparison::SameTestSkipped);
}

#[test]
fn pass_then_failure_is_regressed() {
    let pass = TestResult::TestPass;
    let build = TestResult::BuildFail(FailureReason::Unknown);
    let test = TestResult::TestFail(FailureReason::Unknown);
    let skipped = TestResult::TestSkipped;
    assert_eq!(classify(Some(&pass), Some(&build)), Comparison::Regressed);
    assert_eq!(classify(Some(&pass), Some(&test)), Comparison::Regressed);
    assert_eq!(classify(Some(&skipped), Some(&build)), Comparison::Regressed);
    assert_eq!(classify(Some(&test), Some(&build)), Comparison::Regressed);
}

#[test]
fn failure_then_pass_is_fixed() {
    let pass = TestResult::TestPass;
    let build = TestResult::BuildFail(FailureReason::Unknown);
    let test = TestResult::TestFail(FailureReason::Unknown);
    let skipped = TestResult::TestSkipped;
    assert_eq!(classify(Some(&build), Some(&pass)), Comparison::Fixed);
    assert_eq!(classify(Some(&test), Some(&pass)), Comparison::Fixed);
    assert_eq!(classify(Some(&build), Some(&skipped)), Comparison::Fixed);
    assert_eq!(classify(Some(&build), Some(&test)), Comparison::Fixed);
}

#[test]
fn error_on_either_side_is_error() {
    let error = TestResult::Error;
    for other in all_outcomes() {
        assert_eq!(classify(Some(&error), Some(&other)), Comparison::Error);
        assert_eq!(classify(Some(&other), Some(&error)), Comparison::Error);
    }
}

#[test]
fn skipped_outcome_on_either_side_is_skipped() {
    let skipped = TestResult::Skipped;
    let pass = TestResult::TestPass;
    let broken = TestResult::BrokenCrate(BrokenReason::CargoToml);
    assert_eq!(classify(Some(&skipped), Some(&pass)), Comparison::Skipped);
    assert_eq!(classify(Some(&pass), Some(&skipped)), Comparison::Skipped);
    assert_eq!(classify(Some(&skipped), Some(&broken)), Comparison::Skipped);
    assert_eq!(classify(Some(&skipped), Some(&skipped)), Comparison::Skipped);
}

#[test]
fn broken_crate_on_either_side_is_broken() {
    let broken = TestResult::BrokenCrate(BrokenReason::MissingGitRepository);
    let pass = TestResult::TestPass;
    let build = TestResult::BuildFail(FailureReason::OOM);
    assert_eq!(classify(Some(&broken), Some(&pass)), Comparison::Broken);
    assert_eq!(classify(Some(&build), Some(&broken)), Comparison::Broken);
    assert_eq!(classify(Some(&broken), Some(&broken)), Comparison::Broken);
}

#[test]
fn pairs_without_a_rule_are_unknown() {
    let pass = TestResult::TestPass;
    let test = TestResult::TestFail(FailureReason::Unknown);
    let skipped = TestResult::TestSkipped;
    assert_eq!(classify(Some(&test), Some(&skipped)), Comparison::Unknown);
    assert_eq!(classify(Some(&pass), Some(&skipped)), Comparison::Unknown);
    assert_eq!(classify(Some(&skipped), Some(&test)), Comparison::Unknown);
    assert_eq!(classify(Some(&skipped), Some(&pass)), Comparison::Unknown);
}

#[test]
fn absent_sides_are_skipped_or_unknown() {
    let pass = TestResult::TestPass;
    let skipped = TestResult::Skipped;
    assert_eq!(classify(None, None), Comparison::Unknown);
    assert_eq!(classify(Some(&pass), None), Comparison::Unknown);
    assert_eq!(classify(None, Some(&pass)), Comparison::Unknown);
    assert_eq!(classify(Some(&skipped), None), Comparison::Skipped);
    assert_eq!(classify(None, Some(&skipped)), Comparison::Skipped);
}

#[test]
fn every_pair_gets_a_category_without_a_second_run_none_spurious() {
    let mut sides: Vec<Option<TestResult>> = vec![None];
    for outcome in all_outcomes() {
        sides.push(Some(outcome));
    }
    let mut seen = 0;
    for baseline in &sides {
        for candidate in &sides {
            let category = classify(baseline.as_ref(), candidate.as_ref());
            assert!(category.rank() < 12);
            assert_ne!(category, Comparison::SpuriousRegressed);
            assert_ne!(category, Comparison::SpuriousFixed);
            assert_eq!(
                classify_confirmed(baseline.as_ref(), candidate.as_ref(), None),
                category
            );
            seen += 1;
        }
    }
    assert_eq!(seen, 121);
}

#[test]
fn regression_that_a_second_run_reproduces_stands() {
    let pass = TestResult::TestPass;
    let failed = TestResult::BuildFail(FailureReason::CompilerError("E0308".to_string()));
    let again = TestResult::BuildFail(FailureReason::Unknown);
    assert_eq!(
        classify_confirmed(Some(&pass), Some(&failed), Some(&again)),
        Comparison::Regressed
    );
    assert_eq!(
        classify_confirmed(Some(&pass), Some(&failed), None),
        Comparison::Regressed
    );
}

#[test]
fn regression_that_a_second_run_does_not_reproduce_is_spurious() {
    let pass = TestResult::TestPass;
    let failed = TestResult::BuildFail(FailureReason::CompilerError("E0308".to_string()));
    assert_eq!(
        classify_confirmed(Some(&pass), Some(&failed), Some(&pass)),
        Comparison::SpuriousRegressed
    );
    let error = TestResult::Error;
    assert_eq!(
        classify_confirmed(Some(&pass), Some(&failed), Some(&error)),
        Comparison::SpuriousRegressed
    );
}

#[test]
fn fix_that_a_second_run_does_not_reproduce_is_spurious() {
    let pass = TestResult::TestPass;
    let failed = TestResult::TestFail(FailureReason::Timeout);
    assert_eq!(
        classify_confirmed(Some(&failed), Some(&pass), Some(&failed)),
        Comparison::SpuriousFixed
    );
    assert_eq!(
        classify_confirmed(Some(&failed), Some(&pass), Some(&pass)),
        Comparison::Fixed
    );
}

#[test]
fn second_run_leaves_other_categories_alone() {
    let pass = TestResult::TestPass;
    let failed = TestResult::TestFail(FailureReason::Timeout);
    assert_eq!(
        classify_confirmed(Some(&pass), Some(&pass), Some(&failed)),
        Comparison::SameTestPass
    );
    assert_eq!(
        classify_confirmed(None, Some(&pass), Some(&failed)),
        Comparison::Unknown
    );
}

#[test]
fn categories_that_need_confirmation() {
    for category in Comparison::all() {
        let expected = category == Comparison::Regressed || category == Comparison::Fixed;
        assert_eq!(category.needs_confirmation(), expected);
    }
}

#[test]
fn summary_hides_the_unchanged_bulk() {
    let hidden = [
        Comparison::SameBuildFail,
        Comparison::SameTestFail,
        Comparison::SameTestSkipped,
        Comparison::SameTestPass,
    ];
    for category in Comparison::all() {
        assert_eq!(category.show_in_summary(), !hidden.contains(&category));
    }
}

#[test]
fn ranks_follow_the_fixed_order() {
    let all = Comparison::all();
    assert_eq!(all.len(), 12);
    for (place, category) in all.iter().enumerate() {
        assert_eq!(category.rank() as usize, place);
    }
    assert_eq!(all[0], Comparison::Regressed);
    assert_eq!(all[11], Comparison::SpuriousFixed);
}
