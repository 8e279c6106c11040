use crater_report::analyzer::{classify_crate, crate_root_key, CrateRuns};
use crater_report::comparison::Comparison;
use crater_report::grouping::group_crates;
use crater_report::report::{duplicate_run, CrateResult, Run};
use crater_report::results::{FailureReason, TestResult};
use crater_report::serialize::insertion_point;

fn krate(name: &str) -> CrateResult {
    CrateResult {
        name: name.to_string(),
        url: String::new(),
        res: Comparison::Unknown,
        runs: [None, None],
    }
}

fn key(text: &str) -> Option<String> {
    Some(text.to_string())
}

#[test]
fn groups_stand_in_the_order_of_first_keys() {
    let keys = vec![key("b"), key("a"), None, key("b"), key("c"), key("a")];
    let crates: Vec<CrateResult> = ["1", "2", "3", "4", "5", "6"].iter().map(|n| krate(n)).collect();
    let groups = group_crates(&keys, &crates);
    let listed: Vec<(&str, Vec<&str>)> = groups
        .iter()
        .map(|g| (g.key.as_str(), g.crates.iter().map(|c| c.name.as_str()).collect()))
        .collect();
    assert_eq!(
        listed,
        vec![("b", vec!["1", "4"]), ("a", vec!["2", "6"]), ("c", vec!["5"])]
    );
}

#[test]
fn no_keys_no_groups() {
    assert!(group_crates(&Vec::new(), &Vec::new()).is_empty());
    assert!(group_crates(&vec![None, None], &vec![krate("a"), krate("b")]).is_empty());
}

#[test]
fn many_crates_are_grouped() {
    let count = 20000;
    let keys: Vec<Option<String>> = (0..count).map(|i| key(&format!("root-{}", i % 5000))).collect();
    let crates: Vec<CrateResult> = (0..count).map(|i| krate(&format!("crate-{}", i))).collect();
    let groups = group_crates(&keys, &crates);
    assert_eq!(groups.len(), 5000);
    assert!(groups.iter().all(|g| g.crates.len() == 4));
    assert_eq!(groups[17].key, "root-17");
    assert_eq!(groups[17].crates[3].name, "crate-15017");
}

#[test]
fn root_key_is_the_root_or_the_own_name() {
    let mut source = CrateRuns {
        name: "leaf".to_string(),
        url: String::new(),
        baseline: None,
        candidate: None,
        root: Some("root".to_string()),
        rerun: None,
    };
    assert_eq!(crate_root_key(&source), "root");
    source.root = None;
    assert_eq!(crate_root_key(&source), "leaf");
}

#[test]
fn crate_is_classified_from_its_runs() {
    let run = |res: TestResult| Some(Run { toolchain: "t".to_string(), res, log: "l".to_string() });
    let mut source = CrateRuns {
        name: "foo".to_string(),
        url: String::new(),
        baseline: run(TestResult::TestPass),
        candidate: run(TestResult::BuildFail(FailureReason::CompilerError("E0308".to_string()))),
        root: None,
        rerun: None,
    };
    assert_eq!(classify_crate(&source), Comparison::Regressed);
    source.rerun = Some(TestResult::TestPass);
    assert_eq!(classify_crate(&source), Comparison::SpuriousRegressed);
    source.candidate = None;
    assert_eq!(classify_crate(&source), Comparison::Unknown);
}

#[test]
fn copies_are_equal_to_what_they_copy() {
    let run = Run {
        toolchain: "beta".to_string(),
        res: TestResult::TestFail(FailureReason::DependsOn("x".to_string())),
        log: "log".to_string(),
    };
    assert_eq!(run.duplicate(), run);
    assert_eq!(duplicate_run(&Some(run.clone())), Some(run.clone()));
    assert_eq!(duplicate_run(&None), None);
    let source = CrateResult {
        name: "n".to_string(),
        url: "u".to_string(),
        res: Comparison::Fixed,
        runs: [Some(run), None],
    };
    assert_eq!(source.duplicate(), source);
}

#[test]
fn insertion_point_is_the_first_key_that_is_no_smaller() {
    let keys: Vec<Vec<u64>> = vec![vec![1], vec![3], vec![3], vec![5, 0]];
    assert_eq!(insertion_point(&keys, &vec![0]), 0);
    assert_eq!(insertion_point(&keys, &vec![1]), 0);
    assert_eq!(insertion_point(&keys, &vec![2]), 1);
    assert_eq!(insertion_point(&keys, &vec![3]), 1);
    assert_eq!(insertion_point(&keys, &vec![4]), 3);
    assert_eq!(insertion_point(&keys, &vec![5]), 3);
    assert_eq!(insertion_point(&keys, &vec![5, 0]), 3);
    assert_eq!(insertion_point(&keys, &vec![5, 1]), 4);
    assert_eq!(insertion_point(&Vec::new(), &vec![7]), 0);
}
