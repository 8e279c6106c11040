//! The categories into which a crate's pair of outcomes falls, and the
//! classifier that picks one.

use crate::results::{TestResult, TestResultView};
use vstd::prelude::*;

verus! {

/// What changed for a crate between the baseline and the candidate toolchain.
#[derive(Clone, Copy, Debug, PartialEq, Eq, Structural, Hash)]
pub enum Comparison {
    Regressed,
    Fixed,
    Skipped,
    Unknown,
    SameBuildFail,
    SameTestFail,
    SameTestSkipped,
    SameTestPass,
    Error,
    Broken,
    SpuriousRegressed,
    SpuriousFixed,
}

impl Comparison {
    /// The position of a category in the fixed order of the categories.
    pub open spec fn rank_spec(self) -> nat {
        match self {
            Comparison::Regressed => 0,
            Comparison::Fixed => 1,
            Comparison::Skipped => 2,
            Comparison::Unknown => 3,
            Comparison::SameBuildFail => 4,
            Comparison::SameTestFail => 5,
            Comparison::SameTestSkipped => 6,
            Comparison::SameTestPass => 7,
            Comparison::Error => 8,
            Comparison::Broken => 9,
            Comparison::SpuriousRegressed => 10,
            Comparison::SpuriousFixed => 11,
        }
    }

    /// The position of this category in the fixed order of the categories.
    pub fn rank(&self) -> (r: u8)
        ensures
            r == self.rank_spec(),
            r < 12,
    {
        match self {
            Comparison::Regressed => 0,
            Comparison::Fixed => 1,
            Comparison::Skipped => 2,
            Comparison::Unknown => 3,
            Comparison::SameBuildFail => 4,
            Comparison::SameTestFail => 5,
            Comparison::SameTestSkipped => 6,
            Comparison::SameTestPass => 7,
            Comparison::Error => 8,
            Comparison::Broken => 9,
            Comparison::SpuriousRegressed => 10,
            Comparison::SpuriousFixed => 11,
        }
    }

    /// Whether the abbreviated report shows a category: it hides the four
    /// that stand for the unchanged bulk.
    pub open spec fn show_in_summary_spec(self) -> bool {
        match self {
            Comparison::SameBuildFail
            | Comparison::SameTestFail
            | Comparison::SameTestSkipped
            | Comparison::SameTestPass => false,
            _ => true,
        }
    }

    /// Whether the abbreviated report shows this category.
    pub fn show_in_summary(&self) -> (b: bool)
        ensures
            b == self.show_in_summary_spec(),
    {
        match self {
            Comparison::Regressed
            | Comparison::Fixed
            | Comparison::Skipped
            | Comparison::Unknown
            | Comparison::Error
            | Comparison::Broken
            | Comparison::SpuriousRegressed
            | Comparison::SpuriousFixed => true,
            Comparison::SameBuildFail
            | Comparison::SameTestFail
            | Comparison::SameTestSkipped
            | Comparison::SameTestPass => false,
        }
    }

    /// Whether a category is one that a second run of the candidate can
    /// confirm or refute.
    pub open spec fn needs_confirmation_spec(self) -> bool {
        self == Comparison::Regressed || self == Comparison::Fixed
    }

    /// Whether a second run of the candidate can confirm or refute this
    /// category.
    pub fn needs_confirmation(&self) -> (b: bool)
        ensures
            b == self.needs_confirmation_spec(),
    {
        match self {
            Comparison::Regressed | Comparison::Fixed => true,
            _ => false,
        }
    }

    /// The category that stands for a difference that a second run did not
    /// reproduce.
    pub open spec fn spurious_spec(self) -> Comparison {
        match self {
            Comparison::Regressed => Comparison::SpuriousRegressed,
            Comparison::Fixed => Comparison::SpuriousFixed,
            other => other,
        }
    }
}

/// The category of a pair of outcomes that are both present.
pub open spec fn classify_both(baseline: TestResultView, candidate: TestResultView) -> Comparison {
    match (baseline, candidate) {
        (TestResultView::BuildFail(_), TestResultView::BuildFail(_)) => Comparison::SameBuildFail,
        (TestResultView::TestFail(_), TestResultView::TestFail(_)) => Comparison::SameTestFail,
        (TestResultView::TestSkipped, TestResultView::TestSkipped) => Comparison::SameTestSkipped,
        (TestResultView::TestPass, TestResultView::TestPass) => Comparison::SameTestPass,
        (TestResultView::BuildFail(_), TestResultView::TestFail(_))
        | (TestResultView::BuildFail(_), TestResultView::TestSkipped)
        | (TestResultView::BuildFail(_), TestResultView::TestPass)
        | (TestResultView::TestFail(_), TestResultView::TestPass) => Comparison::Fixed,
        (TestResultView::TestPass, TestResultView::TestFail(_))
        | (TestResultView::TestPass, TestResultView::BuildFail(_))
        | (TestResultView::TestSkipped, TestResultView::BuildFail(_))
        | (TestResultView::TestFail(_), TestResultView::BuildFail(_)) => Comparison::Regressed,
        (TestResultView::Error, _) | (_, TestResultView::Error) => Comparison::Error,
        (TestResultView::Skipped, _) | (_, TestResultView::Skipped) => Comparison::Skipped,
        (TestResultView::BrokenCrate(_), _) | (_, TestResultView::BrokenCrate(_)) =>
            Comparison::Broken,
        _ => Comparison::Unknown,
    }
}

/// The category of a pair of outcomes, either of which may be absent.
///
/// With a side absent the crate was not evaluated on that toolchain: the
/// category is `Skipped` where the other side says that the crate was left
/// out on purpose, and `Unknown` otherwise.
pub open spec fn classify_spec(
    baseline: Option<TestResultView>,
    candidate: Option<TestResultView>,
) -> Comparison {
    match (baseline, candidate) {
        (Some(b), Some(c)) => classify_both(b, c),
        (Some(TestResultView::Skipped), None) | (None, Some(TestResultView::Skipped)) =>
            Comparison::Skipped,
        _ => Comparison::Unknown,
    }
}

/// The category of a pair of outcomes once a second run of the candidate
/// toolchain is known.
///
/// A regression or a fix stands where no second run was made, or where the
/// second run falls into the same category against the baseline; otherwise
/// the difference did not survive and the category is its spurious twin.
/// Every other category is left as it is.
pub open spec fn classify_confirmed_spec(
    baseline: Option<TestResultView>,
    candidate: Option<TestResultView>,
    rerun: Option<TestResultView>,
) -> Comparison {
    let naive = classify_spec(baseline, candidate);
    if naive.needs_confirmation_spec() && rerun is Some && classify_spec(baseline, rerun)
        != naive {
        naive.spurious_spec()
    } else {
        naive
    }
}

/// The view of an outcome that may be absent.
pub open spec fn outcome_view(outcome: Option<&TestResult>) -> Option<TestResultView> {
    match outcome {
        Some(res) => Some(res@),
        None => None,
    }
}

/// Classifies a crate from its outcome on the baseline and on the candidate
/// toolchain. Every pair, with either side or both absent, falls into exactly
/// one category.
pub fn classify(baseline: Option<&TestResult>, candidate: Option<&TestResult>) -> (c: Comparison)
    ensures
        c == classify_spec(outcome_view(baseline), outcome_view(candidate)),
{
    match (baseline, candidate) {
        (Some(b), Some(c)) => match (b, c) {
            (TestResult::BuildFail(_), TestResult::BuildFail(_)) => Comparison::SameBuildFail,
            (TestResult::TestFail(_), TestResult::TestFail(_)) => Comparison::SameTestFail,
            (TestResult::TestSkipped, TestResult::TestSkipped) => Comparison::SameTestSkipped,
            (TestResult::TestPass, TestResult::TestPass) => Comparison::SameTestPass,
            (TestResult::BuildFail(_), TestResult::TestFail(_))
            | (TestResult::BuildFail(_), TestResult::TestSkipped)
            | (TestResult::BuildFail(_), TestResult::TestPass)
            | (TestResult::TestFail(_), TestResult::TestPass) => Comparison::Fixed,
            (TestResult::TestPass, TestResult::TestFail(_))
            | (TestResult::TestPass, TestResult::BuildFail(_))
            | (TestResult::TestSkipped, TestResult::BuildFail(_))
            | (TestResult::TestFail(_), TestResult::BuildFail(_)) => Comparison::Regressed,
            (TestResult::Error, _) | (_, TestResult::Error) => Comparison::Error,
            (TestResult::Skipped, _) | (_, TestResult::Skipped) => Comparison::Skipped,
            (TestResult::BrokenCrate(_), _) | (_, TestResult::BrokenCrate(_)) => Comparison::Broken,
            _ => Comparison::Unknown,
        },
        (Some(TestResult::Skipped), None) | (None, Some(TestResult::Skipped)) => Comparison::Skipped,
        _ => Comparison::Unknown,
    }
}

/// Classifies a crate as [`classify`] does, and then holds a regression or a
/// fix against a second run of the candidate toolchain, where one was made.
pub fn classify_confirmed(
    baseline: Option<&TestResult>,
    candidate: Option<&TestResult>,
    rerun: Option<&TestResult>,
) -> (c: Comparison)
    ensures
        c == classify_confirmed_spec(
            outcome_view(baseline),
            outcome_view(candidate),
            outcome_view(rerun),
        ),
{
    let naive = classify(baseline, candidate);
    match naive {
        Comparison::Regressed => {
            if rerun.is_some() && classify(baseline, rerun) != Comparison::Regressed {
                Comparison::SpuriousRegressed
            } else {
                Comparison::Regressed
            }
        },
        Comparison::Fixed => {
            if rerun.is_some() && classify(baseline, rerun) != Comparison::Fixed {
                Comparison::SpuriousFixed
            } else {
                Comparison::Fixed
            }
        },
        other => other,
    }
}

/// The categories are twelve: each has a place of its own from 0 to 11, and
/// a pair of outcomes, with either side or both absent and with or without
/// a second run, falls into one of them.
pub proof fn lemma_classify_total(
    baseline: Option<TestResultView>,
    candidate: Option<TestResultView>,
    rerun: Option<TestResultView>,
)
    ensures
        classify_spec(baseline, candidate).rank_spec() < 12,
        classify_confirmed_spec(baseline, candidate, rerun).rank_spec() < 12,
        forall|one: Comparison, other: Comparison|
            one.rank_spec() == other.rank_spec() ==> one == other,
{
}

/// What the classifier makes of the pairs that its rules name.
///
/// With a side absent the category is `Skipped` or `Unknown`. Two outcomes
/// of one kind give the category of that kind. A pass that is followed by a
/// failure is a regression, a failure that is followed by a pass is a fix,
/// and a second run can turn either into its spurious twin and into nothing
/// else. An error on either side of a pair gives `Error`; a broken crate on
/// either side, with no error and nothing left out on the other, gives
/// `Broken`. Without a second run no category is spurious.
pub proof fn lemma_classify_rules(
    baseline: Option<TestResultView>,
    candidate: Option<TestResultView>,
    rerun: Option<TestResultView>,
)
    ensures
        baseline is None || candidate is None ==> classify_spec(baseline, candidate)
            == Comparison::Skipped || classify_spec(baseline, candidate) == Comparison::Unknown,
        baseline == Some(TestResultView::TestPass) && candidate == Some(TestResultView::TestPass)
            ==> classify_spec(baseline, candidate) == Comparison::SameTestPass,
        baseline == Some(TestResultView::TestSkipped) && candidate == Some(
            TestResultView::TestSkipped,
        ) ==> classify_spec(baseline, candidate) == Comparison::SameTestSkipped,
        baseline is Some && candidate is Some && baseline->0 is BuildFail && candidate->0 is BuildFail
            ==> classify_spec(baseline, candidate) == Comparison::SameBuildFail,
        baseline is Some && candidate is Some && baseline->0 is TestFail && candidate->0 is TestFail
            ==> classify_spec(baseline, candidate) == Comparison::SameTestFail,
        baseline == Some(TestResultView::TestPass) && candidate is Some && (candidate->0 is BuildFail
            || candidate->0 is TestFail) ==> classify_spec(baseline, candidate)
            == Comparison::Regressed,
        candidate == Some(TestResultView::TestPass) && baseline is Some && (baseline->0 is BuildFail
            || baseline->0 is TestFail) ==> classify_spec(baseline, candidate) == Comparison::Fixed,
        baseline is Some && candidate is Some && (baseline->0 is Error || candidate->0 is Error)
            ==> classify_spec(baseline, candidate) == Comparison::Error,
        baseline is Some && candidate is Some && (baseline->0 is BrokenCrate
            || candidate->0 is BrokenCrate) && !(baseline->0 is Error) && !(candidate->0 is Error)
            && !(baseline->0 is Skipped) && !(candidate->0 is Skipped) ==> classify_spec(
            baseline,
            candidate,
        ) == Comparison::Broken,
        classify_spec(baseline, candidate) != Comparison::SpuriousRegressed,
        classify_spec(baseline, candidate) != Comparison::SpuriousFixed,
        classify_confirmed_spec(baseline, candidate, None) == classify_spec(baseline, candidate),
        classify_spec(baseline, candidate) == Comparison::Regressed ==> classify_confirmed_spec(
            baseline,
            candidate,
            rerun,
        ) == Comparison::Regressed || classify_confirmed_spec(baseline, candidate, rerun)
            == Comparison::SpuriousRegressed,
        classify_spec(baseline, candidate) == Comparison::Fixed ==> classify_confirmed_spec(
            baseline,
            candidate,
            rerun,
        ) == Comparison::Fixed || classify_confirmed_spec(baseline, candidate, rerun)
            == Comparison::SpuriousFixed,
        !classify_spec(baseline, candidate).needs_confirmation_spec() ==> classify_confirmed_spec(
            baseline,
            candidate,
            rerun,
        ) == classify_spec(baseline, candidate),
{
}

/// A name that stands for no category.
#[derive(Clone, Debug, PartialEq, Eq)]
pub struct InvalidName {
    /// The name that was given.
    pub name: String,
}

impl InvalidName {
    /// What is wrong, in words.
    pub fn message(&self) -> (text: String)
        ensures
            text@ == "invalid Comparison: "@ + self.name@,
    {
        String::from_str("invalid Comparison: ").concat(self.name.as_str())
    }
}

impl Comparison {
    /// The name of a category.
    pub open spec fn to_str_spec(self) -> Seq<char> {
        match self {
            Comparison::Regressed => "regressed"@,
            Comparison::Fixed => "fixed"@,
            Comparison::Skipped => "skipped"@,
            Comparison::Unknown => "unknown"@,
            Comparison::SameBuildFail => "build-fail"@,
            Comparison::SameTestFail => "test-fail"@,
            Comparison::SameTestSkipped => "test-skipped"@,
            Comparison::SameTestPass => "test-pass"@,
            Comparison::Error => "error"@,
            Comparison::Broken => "broken"@,
            Comparison::SpuriousRegressed => "spurious-regressed"@,
            Comparison::SpuriousFixed => "spurious-fixed"@,
        }
    }

    /// The category that a name stands for, if it stands for one.
    pub open spec fn from_str_spec(name: Seq<char>) -> Option<Comparison> {
        if exists|category: Comparison| category.to_str_spec() == name {
            Some(choose|category: Comparison| category.to_str_spec() == name)
        } else {
            None
        }
    }

    /// The name of this category.
    pub fn to_str(&self) -> (name: &'static str)
        ensures
            name@ == self.to_str_spec(),
    {
        match self {
            Comparison::Regressed => "regressed",
            Comparison::Fixed => "fixed",
            Comparison::Skipped => "skipped",
            Comparison::Unknown => "unknown",
            Comparison::SameBuildFail => "build-fail",
            Comparison::SameTestFail => "test-fail",
            Comparison::SameTestSkipped => "test-skipped",
            Comparison::SameTestPass => "test-pass",
            Comparison::Error => "error",
            Comparison::Broken => "broken",
            Comparison::SpuriousRegressed => "spurious-regressed",
            Comparison::SpuriousFixed => "spurious-fixed",
        }
    }

    /// The categories, in their fixed order.
    pub open spec fn all_spec() -> Seq<Comparison> {
        seq![
            Comparison::Regressed,
            Comparison::Fixed,
            Comparison::Skipped,
            Comparison::Unknown,
            Comparison::SameBuildFail,
            Comparison::SameTestFail,
            Comparison::SameTestSkipped,
            Comparison::SameTestPass,
            Comparison::Error,
            Comparison::Broken,
            Comparison::SpuriousRegressed,
            Comparison::SpuriousFixed,
        ]
    }

    /// The categories, in their fixed order.
    pub fn all() -> (categories: Vec<Comparison>)
        ensures
            categories@ == Comparison::all_spec(),
    {
        let mut categories: Vec<Comparison> = Vec::new();
        categories.push(Comparison::Regressed);
        categories.push(Comparison::Fixed);
        categories.push(Comparison::Skipped);
        categories.push(Comparison::Unknown);
        categories.push(Comparison::SameBuildFail);
        categories.push(Comparison::SameTestFail);
        categories.push(Comparison::SameTestSkipped);
        categories.push(Comparison::SameTestPass);
        categories.push(Comparison::Error);
        categories.push(Comparison::Broken);
        categories.push(Comparison::SpuriousRegressed);
        categories.push(Comparison::SpuriousFixed);
        assert(categories@ =~= Comparison::all_spec());
        categories
    }

    /// The names of the categories, in the order of the categories.
    pub fn possible_values() -> (names: Vec<&'static str>)
        ensures
            names@.len() == 12,
            forall|i: int|
                0 <= i < 12 ==> (#[trigger] names@[i])@ == Comparison::all_spec()[i].to_str_spec(),
    {
        let categories = Comparison::all();
        let mut names: Vec<&'static str> = Vec::new();
        let mut i: usize = 0;
        while i < categories.len()
            invariant
                i <= categories@.len(),
                categories@ == Comparison::all_spec(),
                names@.len() == i,
                forall|j: int|
                    0 <= j < i ==> (#[trigger] names@[j])@ == Comparison::all_spec()[j].to_str_spec(),
            decreases categories@.len() - i,
        {
            names.push(categories[i].to_str());
            i = i + 1;
        }
        names
    }

    /// The category that a name stands for. A name that stands for none is
    /// handed back in the error.
    pub fn from_str(name: &str) -> (parsed: Result<Comparison, InvalidName>)
        ensures
            match parsed {
                Ok(category) => Comparison::from_str_spec(name@) == Some(category),
                Err(invalid) => Comparison::from_str_spec(name@) is None && invalid.name@ == name@,
            },
    {
        let given = String::from_str(name);
        let categories = Comparison::all();
        let mut i: usize = 0;
        while i < categories.len()
            invariant
                i <= categories@.len(),
                categories@ == Comparison::all_spec(),
                given@ == name@,
                forall|j: int| 0 <= j < i ==> Comparison::all_spec()[j].to_str_spec() != name@,
            decreases categories@.len() - i,
        {
            let category = categories[i];
            if String::from_str(category.to_str()) == given {
                proof {
                    lemma_names_distinct();
                }
                return Ok(category);
            }
            i = i + 1;
        }
        proof {
            assert forall|category: Comparison| category.to_str_spec() != name@ by {
                assert(Comparison::all_spec()[category.rank_spec() as int] == category);
            }
        }
        Err(InvalidName { name: given })
    }
}

/// What the names of the categories are made of: the length of each, its
/// first character and, for the names that are as long as `test-fail`, the
/// sixth.
proof fn lemma_name_shapes(category: Comparison)
    ensures
        category.to_str_spec().len() == match category {
            Comparison::Regressed => 9nat,
            Comparison::Fixed => 5nat,
            Comparison::Skipped => 7nat,
            Comparison::Unknown => 7nat,
            Comparison::SameBuildFail => 10nat,
            Comparison::SameTestFail => 9nat,
            Comparison::SameTestSkipped => 12nat,
            Comparison::SameTestPass => 9nat,
            Comparison::Error => 5nat,
            Comparison::Broken => 6nat,
            Comparison::SpuriousRegressed => 18nat,
            Comparison::SpuriousFixed => 14nat,
        },
        category.to_str_spec()[0] == match category {
            Comparison::Regressed => 'r',
            Comparison::Fixed => 'f',
            Comparison::Skipped => 's',
            Comparison::Unknown => 'u',
            Comparison::SameBuildFail => 'b',
            Comparison::SameTestFail => 't',
            Comparison::SameTestSkipped => 't',
            Comparison::SameTestPass => 't',
            Comparison::Error => 'e',
            Comparison::Broken => 'b',
            Comparison::SpuriousRegressed => 's',
            Comparison::SpuriousFixed => 's',
        },
        category == Comparison::SameTestFail ==> category.to_str_spec()[5] == 'f',
        category == Comparison::SameTestPass ==> category.to_str_spec()[5] == 'p',
{
    reveal_strlit("regressed");
    reveal_strlit("fixed");
    reveal_strlit("skipped");
    reveal_strlit("unknown");
    reveal_strlit("build-fail");
    reveal_strlit("test-fail");
    reveal_strlit("test-skipped");
    reveal_strlit("test-pass");
    reveal_strlit("error");
    reveal_strlit("broken");
    reveal_strlit("spurious-regressed");
    reveal_strlit("spurious-fixed");
}

/// No two categories share a name.
pub proof fn lemma_names_distinct()
    ensures
        forall|one: Comparison, other: Comparison|
            one.to_str_spec() == other.to_str_spec() ==> one == other,
{
    assert forall|one: Comparison, other: Comparison|
        one.to_str_spec() == other.to_str_spec() implies one == other by {
        lemma_name_shapes(one);
        lemma_name_shapes(other);
    }
}

/// A category is found again from its name, and a name that gives a
/// category is the name of that category.
pub proof fn lemma_name_round_trip(category: Comparison, name: Seq<char>)
    ensures
        Comparison::from_str_spec(category.to_str_spec()) == Some(category),
        Comparison::from_str_spec(name) == Some(category) <==> name == category.to_str_spec(),
{
    lemma_names_distinct();
}

} // verus!
