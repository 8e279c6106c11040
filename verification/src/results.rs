//! The vocabulary for the result of running one crate on one toolchain.

use vstd::prelude::*;

verus! {

/// Why a crate could not even be prepared for a run.
#[derive(Clone, Copy, Debug, PartialEq, Eq, Structural, Hash)]
pub enum BrokenReason {
    Unknown,
    CargoToml,
    Yanked,
    MissingGitRepository,
}

/// Why a build or a test run failed.
#[derive(Clone, Debug, PartialEq, Eq, Hash)]
pub enum FailureReason {
    Unknown,
    Timeout,
    OOM,
    ICE,
    /// The diagnostic code or text that the compiler gave.
    CompilerError(String),
    /// The identity of the broken dependency that caused the failure.
    DependsOn(String),
}

/// The mathematical value of a [`FailureReason`].
pub enum FailureReasonView {
    Unknown,
    Timeout,
    OOM,
    ICE,
    CompilerError(Seq<char>),
    DependsOn(Seq<char>),
}

impl View for FailureReason {
    type V = FailureReasonView;

    open spec fn view(&self) -> FailureReasonView {
        match self {
            FailureReason::Unknown => FailureReasonView::Unknown,
            FailureReason::Timeout => FailureReasonView::Timeout,
            FailureReason::OOM => FailureReasonView::OOM,
            FailureReason::ICE => FailureReasonView::ICE,
            FailureReason::CompilerError(text) => FailureReasonView::CompilerError(text@),
            FailureReason::DependsOn(krate) => FailureReasonView::DependsOn(krate@),
        }
    }
}

impl FailureReason {
    /// Whether two reasons are the same value.
    pub fn same(&self, other: &FailureReason) -> (b: bool)
        ensures
            b == (self@ == other@),
    {
        match (self, other) {
            (FailureReason::Unknown, FailureReason::Unknown) => true,
            (FailureReason::Timeout, FailureReason::Timeout) => true,
            (FailureReason::OOM, FailureReason::OOM) => true,
            (FailureReason::ICE, FailureReason::ICE) => true,
            (FailureReason::CompilerError(a), FailureReason::CompilerError(b)) => *a == *b,
            (FailureReason::DependsOn(a), FailureReason::DependsOn(b)) => *a == *b,
            _ => false,
        }
    }

    /// A copy of this reason.
    pub fn duplicate(&self) -> (r: FailureReason)
        ensures
            r@ == self@,
    {
        match self {
            FailureReason::Unknown => FailureReason::Unknown,
            FailureReason::Timeout => FailureReason::Timeout,
            FailureReason::OOM => FailureReason::OOM,
            FailureReason::ICE => FailureReason::ICE,
            FailureReason::CompilerError(text) => FailureReason::CompilerError(text.clone()),
            FailureReason::DependsOn(krate) => FailureReason::DependsOn(krate.clone()),
        }
    }
}

/// The outcome of one run of one crate.
#[derive(Clone, Debug, PartialEq, Eq, Hash)]
pub enum TestResult {
    BrokenCrate(BrokenReason),
    BuildFail(FailureReason),
    TestFail(FailureReason),
    TestSkipped,
    TestPass,
    Error,
    Skipped,
}

/// The mathematical value of a [`TestResult`].
pub enum TestResultView {
    BrokenCrate(BrokenReason),
    BuildFail(FailureReasonView),
    TestFail(FailureReasonView),
    TestSkipped,
    TestPass,
    Error,
    Skipped,
}

impl View for TestResult {
    type V = TestResultView;

    open spec fn view(&self) -> TestResultView {
        match self {
            TestResult::BrokenCrate(reason) => TestResultView::BrokenCrate(*reason),
            TestResult::BuildFail(reason) => TestResultView::BuildFail(reason@),
            TestResult::TestFail(reason) => TestResultView::TestFail(reason@),
            TestResult::TestSkipped => TestResultView::TestSkipped,
            TestResult::TestPass => TestResultView::TestPass,
            TestResult::Error => TestResultView::Error,
            TestResult::Skipped => TestResultView::Skipped,
        }
    }
}

impl TestResult {
    /// Whether two outcomes are the same value.
    pub fn same(&self, other: &TestResult) -> (b: bool)
        ensures
            b == (self@ == other@),
    {
        match (self, other) {
            (TestResult::BrokenCrate(a), TestResult::BrokenCrate(b)) => *a == *b,
            (TestResult::BuildFail(a), TestResult::BuildFail(b)) => a.same(b),
            (TestResult::TestFail(a), TestResult::TestFail(b)) => a.same(b),
            (TestResult::TestSkipped, TestResult::TestSkipped) => true,
            (TestResult::TestPass, TestResult::TestPass) => true,
            (TestResult::Error, TestResult::Error) => true,
            (TestResult::Skipped, TestResult::Skipped) => true,
            _ => false,
        }
    }

    /// A copy of this outcome.
    pub fn duplicate(&self) -> (r: TestResult)
        ensures
            r@ == self@,
    {
        match self {
            TestResult::BrokenCrate(reason) => TestResult::BrokenCrate(*reason),
            TestResult::BuildFail(reason) => TestResult::BuildFail(reason.duplicate()),
            TestResult::TestFail(reason) => TestResult::TestFail(reason.duplicate()),
            TestResult::TestSkipped => TestResult::TestSkipped,
            TestResult::TestPass => TestResult::TestPass,
            TestResult::Error => TestResult::Error,
            TestResult::Skipped => TestResult::Skipped,
        }
    }
}

} // verus!
