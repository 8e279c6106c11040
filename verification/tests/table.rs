use crater_report::display::Color;
use crater_report::results::{BrokenReason, FailureReason, TestResult};
use crater_report::table::ResultTable;

#[test]
fn new_table_is_empty() {
    let table = ResultTable::new();
    assert!(table.results.is_empty());
    assert!(table.colors.is_empty());
    assert!(table.names.is_empty());
    assert_eq!(table.position(&TestResult::TestPass), None);
}

#[test]
fn index_of_appends_a_new_outcome_with_color_and_label() {
    let mut table = ResultTable::new();
    assert_eq!(table.index_of(&TestResult::TestPass), 0);
    assert_eq!(table.index_of(&TestResult::BuildFail(FailureReason::ICE)), 1);
    assert_eq!(table.index_of(&TestResult::BrokenCrate(BrokenReason::Yanked)), 2);
    assert_eq!(
        table.results,
        vec![
            TestResult::TestPass,
            TestResult::BuildFail(FailureReason::ICE),
            TestResult::BrokenCrate(BrokenReason::Yanked),
        ]
    );
    assert_eq!(table.names, vec!["test passed", "build ICE", "deps yanked"]);
    assert_eq!(
        table.colors,
        vec![Color::Single("#62a156"), Color::Single("#db3026"), Color::Single("#44176e")]
    );
}

#[test]
fn index_of_finds_an_outcome_that_is_held() {
    let mut table = ResultTable::new();
    let timeout = TestResult::TestFail(FailureReason::Timeout);
    assert_eq!(table.index_of(&TestResult::Error), 0);
    assert_eq!(table.index_of(&timeout), 1);
    assert_eq!(table.index_of(&TestResult::Error), 0);
    assert_eq!(table.index_of(&timeout), 1);
    assert_eq!(table.results.len(), 2);
    assert_eq!(table.position(&timeout), Some(1));
    assert_eq!(table.position(&TestResult::Skipped), None);
}

#[test]
fn outcomes_with_different_texts_are_different_entries() {
    let mut table = ResultTable::new();
    let one = TestResult::BuildFail(FailureReason::DependsOn("a".to_string()));
    let other = TestResult::BuildFail(FailureReason::DependsOn("b".to_string()));
    assert_eq!(table.index_of(&one), 0);
    assert_eq!(table.index_of(&other), 1);
    assert_eq!(table.index_of(&one), 0);
    assert_eq!(table.names, vec!["build faulty deps", "build faulty deps"]);
}
