//! The label and the color under which an outcome or a category is shown.

use crate::comparison::Comparison;
use crate::results::{
    BrokenReason, FailureReason, FailureReasonView, TestResult, TestResultView,
};
use vstd::prelude::*;

verus! {

/// The label of a failure reason. The text that a reason carries is no part
/// of it.
pub open spec fn failure_name(reason: FailureReasonView) -> Seq<char> {
    match reason {
        FailureReasonView::Unknown => "failed (unknown)"@,
        FailureReasonView::Timeout => "timed out"@,
        FailureReasonView::OOM => "OOM"@,
        FailureReasonView::ICE => "ICE"@,
        FailureReasonView::CompilerError(_) => "compiler error"@,
        FailureReasonView::DependsOn(_) => "faulty deps"@,
    }
}

/// The label of a reason for which a crate is broken.
pub open spec fn broken_name(reason: BrokenReason) -> Seq<char> {
    match reason {
        BrokenReason::Unknown => "broken crate"@,
        BrokenReason::CargoToml => "broken Cargo.toml"@,
        BrokenReason::Yanked => "deps yanked"@,
        BrokenReason::MissingGitRepository => "missing repo"@,
    }
}

/// The label of an outcome: that of its reason, after the phase that failed
/// where the outcome is a failure.
pub open spec fn result_name(res: TestResultView) -> Seq<char> {
    match res {
        TestResultView::BrokenCrate(reason) => broken_name(reason),
        TestResultView::BuildFail(reason) => "build "@ + failure_name(reason),
        TestResultView::TestFail(reason) => "test "@ + failure_name(reason),
        TestResultView::TestSkipped => "test skipped"@,
        TestResultView::TestPass => "test passed"@,
        TestResultView::Error => "error"@,
        TestResultView::Skipped => "skipped"@,
    }
}

/// Whether two failure reasons are of one kind, whatever text they carry.
pub open spec fn same_failure_kind(a: FailureReasonView, b: FailureReasonView) -> bool {
    match (a, b) {
        (FailureReasonView::Unknown, FailureReasonView::Unknown) => true,
        (FailureReasonView::Timeout, FailureReasonView::Timeout) => true,
        (FailureReasonView::OOM, FailureReasonView::OOM) => true,
        (FailureReasonView::ICE, FailureReasonView::ICE) => true,
        (FailureReasonView::CompilerError(_), FailureReasonView::CompilerError(_)) => true,
        (FailureReasonView::DependsOn(_), FailureReasonView::DependsOn(_)) => true,
        _ => false,
    }
}

/// Whether two outcomes are of one kind: the same outcome, for the same
/// kind of reason where they carry one.
pub open spec fn same_result_kind(a: TestResultView, b: TestResultView) -> bool {
    match (a, b) {
        (TestResultView::BrokenCrate(x), TestResultView::BrokenCrate(y)) => x == y,
        (TestResultView::BuildFail(x), TestResultView::BuildFail(y)) => same_failure_kind(x, y),
        (TestResultView::TestFail(x), TestResultView::TestFail(y)) => same_failure_kind(x, y),
        (TestResultView::TestSkipped, TestResultView::TestSkipped) => true,
        (TestResultView::TestPass, TestResultView::TestPass) => true,
        (TestResultView::Error, TestResultView::Error) => true,
        (TestResultView::Skipped, TestResultView::Skipped) => true,
        _ => false,
    }
}

/// What the labels of the failure reasons are made of: the length and the
/// first character of each.
proof fn lemma_failure_names(reason: FailureReasonView)
    ensures
        failure_name(reason).len() == match reason {
            FailureReasonView::Unknown => 16nat,
            FailureReasonView::Timeout => 9nat,
            FailureReasonView::OOM => 3nat,
            FailureReasonView::ICE => 3nat,
            FailureReasonView::CompilerError(_) => 14nat,
            FailureReasonView::DependsOn(_) => 11nat,
        },
        failure_name(reason)[0] == match reason {
            FailureReasonView::Unknown => 'f',
            FailureReasonView::Timeout => 't',
            FailureReasonView::OOM => 'O',
            FailureReasonView::ICE => 'I',
            FailureReasonView::CompilerError(_) => 'c',
            FailureReasonView::DependsOn(_) => 'f',
        },
{
    reveal_strlit("failed (unknown)");
    reveal_strlit("timed out");
    reveal_strlit("OOM");
    reveal_strlit("ICE");
    reveal_strlit("compiler error");
    reveal_strlit("faulty deps");
}

/// What the labels of the outcomes are made of: the length and the first
/// character of each.
proof fn lemma_result_names(res: TestResultView)
    ensures
        result_name(res).len() == match res {
            TestResultView::BrokenCrate(BrokenReason::Unknown) => 12nat,
            TestResultView::BrokenCrate(BrokenReason::CargoToml) => 17nat,
            TestResultView::BrokenCrate(BrokenReason::Yanked) => 11nat,
            TestResultView::BrokenCrate(BrokenReason::MissingGitRepository) => 12nat,
            TestResultView::BuildFail(reason) => 6 + failure_name(reason).len(),
            TestResultView::TestFail(reason) => 5 + failure_name(reason).len(),
            TestResultView::TestSkipped => 12nat,
            TestResultView::TestPass => 11nat,
            TestResultView::Error => 5nat,
            TestResultView::Skipped => 7nat,
        },
        result_name(res)[0] == match res {
            TestResultView::BrokenCrate(BrokenReason::Unknown) => 'b',
            TestResultView::BrokenCrate(BrokenReason::CargoToml) => 'b',
            TestResultView::BrokenCrate(BrokenReason::Yanked) => 'd',
            TestResultView::BrokenCrate(BrokenReason::MissingGitRepository) => 'm',
            TestResultView::BuildFail(_) => 'b',
            TestResultView::TestFail(_) => 't',
            TestResultView::TestSkipped => 't',
            TestResultView::TestPass => 't',
            TestResultView::Error => 'e',
            TestResultView::Skipped => 's',
        },
        res matches TestResultView::BuildFail(reason) ==> result_name(res)[1] == 'u'
            && result_name(res)[6] == failure_name(reason)[0],
        res matches TestResultView::TestFail(reason) ==> result_name(res)[5] == failure_name(
            reason,
        )[0],
        res is BrokenCrate ==> result_name(res)[1] != 'u',
{
    reveal_strlit("broken crate");
    reveal_strlit("broken Cargo.toml");
    reveal_strlit("deps yanked");
    reveal_strlit("missing repo");
    reveal_strlit("build ");
    reveal_strlit("test ");
    reveal_strlit("test skipped");
    reveal_strlit("test passed");
    reveal_strlit("error");
    reveal_strlit("skipped");
    match res {
        TestResultView::BuildFail(reason) => {
            lemma_failure_names(reason);
        },
        TestResultView::TestFail(reason) => {
            lemma_failure_names(reason);
        },
        _ => {},
    }
}

/// Every kind of outcome has a label of its own: two outcomes have one
/// label exactly when they are of one kind.
pub proof fn lemma_labels_distinct(a: TestResultView, b: TestResultView)
    ensures
        result_name(a) == result_name(b) <==> same_result_kind(a, b),
{
    lemma_result_names(a);
    lemma_result_names(b);
    match (a, b) {
        (TestResultView::BuildFail(x), TestResultView::BuildFail(y)) => {
            lemma_failure_names(x);
            lemma_failure_names(y);
            if !same_failure_kind(x, y) && failure_name(x).len() == failure_name(y).len() {
                assert(result_name(a)[6] != result_name(b)[6]);
            }
        },
        (TestResultView::TestFail(x), TestResultView::TestFail(y)) => {
            lemma_failure_names(x);
            lemma_failure_names(y);
            if !same_failure_kind(x, y) && failure_name(x).len() == failure_name(y).len() {
                assert(result_name(a)[5] != result_name(b)[5]);
            }
        },
        (TestResultView::BuildFail(x), _) => {
            lemma_failure_names(x);
        },
        (_, TestResultView::BuildFail(y)) => {
            lemma_failure_names(y);
        },
        (TestResultView::TestFail(x), _) => {
            lemma_failure_names(x);
        },
        (_, TestResultView::TestFail(y)) => {
            lemma_failure_names(y);
        },
        _ => {},
    }
}

/// A value with a stable, human-readable label.
pub trait ResultName {
    /// The label, as a sequence of characters.
    spec fn name_spec(&self) -> Seq<char>;

    /// The label.
    fn name(&self) -> (label: String)
        ensures
            label@ == self.name_spec(),
    ;
}

impl ResultName for FailureReason {
    open spec fn name_spec(&self) -> Seq<char> {
        failure_name(self@)
    }

    fn name(&self) -> (label: String) {
        match self {
            FailureReason::Unknown => String::from_str("failed (unknown)"),
            FailureReason::Timeout => String::from_str("timed out"),
            FailureReason::OOM => String::from_str("OOM"),
            FailureReason::ICE => String::from_str("ICE"),
            FailureReason::CompilerError(_) => String::from_str("compiler error"),
            FailureReason::DependsOn(_) => String::from_str("faulty deps"),
        }
    }
}

impl ResultName for BrokenReason {
    open spec fn name_spec(&self) -> Seq<char> {
        broken_name(*self)
    }

    fn name(&self) -> (label: String) {
        match self {
            BrokenReason::Unknown => String::from_str("broken crate"),
            BrokenReason::CargoToml => String::from_str("broken Cargo.toml"),
            BrokenReason::Yanked => String::from_str("deps yanked"),
            BrokenReason::MissingGitRepository => String::from_str("missing repo"),
        }
    }
}

impl ResultName for TestResult {
    open spec fn name_spec(&self) -> Seq<char> {
        result_name(self@)
    }

    fn name(&self) -> (label: String) {
        match self {
            TestResult::BrokenCrate(reason) => reason.name(),
            TestResult::BuildFail(reason) => {
                let tail = reason.name();
                String::from_str("build ").concat(tail.as_str())
            },
            TestResult::TestFail(reason) => {
                let tail = reason.name();
                String::from_str("test ").concat(tail.as_str())
            },
            TestResult::TestSkipped => String::from_str("test skipped"),
            TestResult::TestPass => String::from_str("test passed"),
            TestResult::Error => String::from_str("error"),
            TestResult::Skipped => String::from_str("skipped"),
        }
    }
}

/// A presentation color: one tone, or two tones in stripes for what carries
/// uncertainty.
#[derive(Clone, Copy, Debug, PartialEq, Eq)]
pub enum Color {
    Single(&'static str),
    Striped(&'static str, &'static str),
}

/// The mathematical value of a [`Color`].
pub enum ColorView {
    Single(Seq<char>),
    Striped(Seq<char>, Seq<char>),
}

impl View for Color {
    type V = ColorView;

    open spec fn view(&self) -> ColorView {
        match self {
            Color::Single(tone) => ColorView::Single(tone@),
            Color::Striped(first, second) => ColorView::Striped(first@, second@),
        }
    }
}

/// The color of a category.
pub open spec fn comparison_color(category: Comparison) -> ColorView {
    match category {
        Comparison::Regressed => ColorView::Single("#db3026"@),
        Comparison::Fixed => ColorView::Single("#5630db"@),
        Comparison::Skipped => ColorView::Striped("#494b4a"@, "#555555"@),
        Comparison::Unknown => ColorView::Single("#494b4a"@),
        Comparison::SameBuildFail => ColorView::Single("#65461e"@),
        Comparison::SameTestFail => ColorView::Single("#788843"@),
        Comparison::SameTestSkipped => ColorView::Striped("#72a156"@, "#80b65f"@),
        Comparison::SameTestPass => ColorView::Single("#72a156"@),
        Comparison::Error => ColorView::Single("#d77026"@),
        Comparison::Broken => ColorView::Single("#44176e"@),
        Comparison::SpuriousRegressed => ColorView::Striped("#db3026"@, "#d5433b"@),
        Comparison::SpuriousFixed => ColorView::Striped("#5630db"@, "#5d3dcf"@),
    }
}

/// The color of an outcome. The reason of a failure does not change it.
pub open spec fn result_color(res: TestResultView) -> ColorView {
    match res {
        TestResultView::BrokenCrate(_) => ColorView::Single("#44176e"@),
        TestResultView::BuildFail(_) => ColorView::Single("#db3026"@),
        TestResultView::TestFail(_) => ColorView::Single("#65461e"@),
        TestResultView::TestSkipped | TestResultView::TestPass => ColorView::Single("#62a156"@),
        TestResultView::Error => ColorView::Single("#d77026"@),
        TestResultView::Skipped => ColorView::Single("#494b4a"@),
    }
}

/// A value with a fixed presentation color.
pub trait ResultColor {
    /// The color, as a mathematical value.
    spec fn color_spec(&self) -> ColorView;

    /// The color.
    fn color(&self) -> (c: Color)
        ensures
            c@ == self.color_spec(),
    ;
}

impl ResultColor for Comparison {
    open spec fn color_spec(&self) -> ColorView {
        comparison_color(*self)
    }

    fn color(&self) -> (c: Color) {
        match self {
            Comparison::Regressed => Color::Single("#db3026"),
            Comparison::Fixed => Color::Single("#5630db"),
            Comparison::Skipped => Color::Striped("#494b4a", "#555555"),
            Comparison::Unknown => Color::Single("#494b4a"),
            Comparison::SameBuildFail => Color::Single("#65461e"),
            Comparison::SameTestFail => Color::Single("#788843"),
            Comparison::SameTestSkipped => Color::Striped("#72a156", "#80b65f"),
            Comparison::SameTestPass => Color::Single("#72a156"),
            Comparison::Error => Color::Single("#d77026"),
            Comparison::Broken => Color::Single("#44176e"),
            Comparison::SpuriousRegressed => Color::Striped("#db3026", "#d5433b"),
            Comparison::SpuriousFixed => Color::Striped("#5630db", "#5d3dcf"),
        }
    }
}

impl ResultColor for TestResult {
    open spec fn color_spec(&self) -> ColorView {
        result_color(self@)
    }

    fn color(&self) -> (c: Color) {
        match self {
            TestResult::BrokenCrate(_) => Color::Single("#44176e"),
            TestResult::BuildFail(_) => Color::Single("#db3026"),
            TestResult::TestFail(_) => Color::Single("#65461e"),
            TestResult::TestSkipped | TestResult::TestPass => Color::Single("#62a156"),
            TestResult::Error => Color::Single("#d77026"),
            TestResult::Skipped => Color::Single("#494b4a"),
        }
    }
}

} // verus!
