use crater_report::comparison::Comparison;
use crater_report::display::{Color, ResultColor, ResultName};
use crater_report::results::{BrokenReason, FailureReason, TestResult};

#[test]
fn names_of_failure_reasons() {
    assert_eq!(FailureReason::Unknown.name(), "failed (unknown)");
    assert_eq!(FailureReason::Timeout.name(), "timed out");
    assert_eq!(FailureReason::OOM.name(), "OOM");
    assert_eq!(FailureReason::ICE.name(), "ICE");
    assert_eq!(FailureReason::CompilerError("E0308".to_string()).name(), "compiler error");
    assert_eq!(FailureReason::DependsOn("dep".to_string()).name(), "faulty deps");
}

#[test]
fn names_of_broken_reasons() {
    assert_eq!(BrokenReason::Unknown.name(), "broken crate");
    assert_eq!(BrokenReason::CargoToml.name(), "broken Cargo.toml");
    assert_eq!(BrokenReason::Yanked.name(), "deps yanked");
    assert_eq!(BrokenReason::MissingGitRepository.name(), "missing repo");
}

#[test]
fn names_of_outcomes() {
    assert_eq!(TestResult::BrokenCrate(BrokenReason::Yanked).name(), "deps yanked");
    assert_eq!(TestResult::BuildFail(FailureReason::Unknown).name(), "build failed (unknown)");
    assert_eq!(
        TestResult::BuildFail(FailureReason::CompilerError("E0308".to_string())).name(),
        "build compiler error"
    );
    assert_eq!(TestResult::TestFail(FailureReason::Timeout).name(), "test timed out");
    assert_eq!(TestResult::TestFail(FailureReason::OOM).name(), "test OOM");
    assert_eq!(TestResult::TestSkipped.name(), "test skipped");
    assert_eq!(TestResult::TestPass.name(), "test passed");
    assert_eq!(TestResult::Error.name(), "error");
    assert_eq!(TestResult::Skipped.name(), "skipped");
}

#[test]
fn every_kind_of_outcome_has_its_own_name() {
    let mut outcomes = vec![
        TestResult::BrokenCrate(BrokenReason::Unknown),
        TestResult::BrokenCrate(BrokenReason::CargoToml),
        TestResult::BrokenCrate(BrokenReason::Yanked),
        TestResult::BrokenCrate(BrokenReason::MissingGitRepository),
        TestResult::TestSkipped,
        TestResult::TestPass,
        TestResult::Error,
        TestResult::Skipped,
    ];
    let reasons = vec![
        FailureReason::Unknown,
        FailureReason::Timeout,
        FailureReason::OOM,
        FailureReason::ICE,
        FailureReason::CompilerError("x".to_string()),
        FailureReason::DependsOn("y".to_string()),
    ];
    for reason in &reasons {
        outcomes.push(TestResult::BuildFail(reason.clone()));
        outcomes.push(TestResult::TestFail(reason.clone()));
    }
    let mut names: Vec<String> = outcomes.iter().map(|o| o.name()).collect();
    names.sort();
    names.dedup();
    assert_eq!(names.len(), 20);
}

#[test]
fn the_text_of_a_reason_is_no_part_of_the_name() {
    let one = TestResult::BuildFail(FailureReason::CompilerError("E0308".to_string()));
    let other = TestResult::BuildFail(FailureReason::CompilerError("E0599".to_string()));
    assert_eq!(one.name(), other.name());
    assert!(!one.same(&other));
}

#[test]
fn colors_of_categories() {
    assert_eq!(Comparison::Regressed.color(), Color::Single("#db3026"));
    assert_eq!(Comparison::Fixed.color(), Color::Single("#5630db"));
    assert_eq!(Comparison::Skipped.color(), Color::Striped("#494b4a", "#555555"));
    assert_eq!(Comparison::Unknown.color(), Color::Single("#494b4a"));
    assert_eq!(Comparison::SameBuildFail.color(), Color::Single("#65461e"));
    assert_eq!(Comparison::SameTestFail.color(), Color::Single("#788843"));
    assert_eq!(Comparison::SameTestSkipped.color(), Color::Striped("#72a156", "#80b65f"));
    assert_eq!(Comparison::SameTestPass.color(), Color::Single("#72a156"));
    assert_eq!(Comparison::Error.color(), Color::Single("#d77026"));
    assert_eq!(Comparison::Broken.color(), Color::Single("#44176e"));
    assert_eq!(Comparison::SpuriousRegressed.color(), Color::Striped("#db3026", "#d5433b"));
    assert_eq!(Comparison::SpuriousFixed.color(), Color::Striped("#5630db", "#5d3dcf"));
}

#[test]
fn stripes_mark_the_uncertain_categories() {
    let striped = [
        Comparison::Skipped,
        Comparison::SameTestSkipped,
        Comparison::SpuriousRegressed,
        Comparison::SpuriousFixed,
    ];
    for category in Comparison::all() {
        let is_striped = matches!(category.color(), Color::Striped(_, _));
        assert_eq!(is_striped, striped.contains(&category));
    }
}

#[test]
fn colors_of_outcomes() {
    assert_eq!(TestResult::BrokenCrate(BrokenReason::Unknown).color(), Color::Single("#44176e"));
    assert_eq!(TestResult::BuildFail(FailureReason::ICE).color(), Color::Single("#db3026"));
    assert_eq!(TestResult::TestFail(FailureReason::OOM).color(), Color::Single("#65461e"));
    assert_eq!(TestResult::TestSkipped.color(), Color::Single("#62a156"));
    assert_eq!(TestResult::TestPass.color(), Color::Single("#62a156"));
    assert_eq!(TestResult::Error.color(), Color::Single("#d77026"));
    assert_eq!(TestResult::Skipped.color(), Color::Single("#494b4a"));
}

#[test]
fn same_compares_outcomes_by_value() {
    let one = TestResult::TestFail(FailureReason::DependsOn("a".to_string()));
    let two = TestResult::TestFail(FailureReason::DependsOn("a".to_string()));
    let three = TestResult::TestFail(FailureReason::DependsOn("b".to_string()));
    let four = TestResult::BuildFail(FailureReason::DependsOn("a".to_string()));
    assert!(one.same(&two));
    assert!(!one.same(&three));
    assert!(!one.same(&four));
    assert_eq!(one.duplicate(), one);
}
