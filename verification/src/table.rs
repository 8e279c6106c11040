//! The table of the distinct outcomes of a report. A crate's run holds an
//! index into it in place of the outcome's label and color.

use crate::display::{result_color, result_name, Color, ResultColor, ResultName};
use crate::distinct::{extend_distinct, lemma_extend_distinct_one};
use crate::results::{TestResult, TestResultView};
use vstd::prelude::*;

verus! {

/// The distinct outcomes met so far, in the order in which each was first
/// met, with the color and the label of each.
#[derive(Clone, Debug, PartialEq, Eq)]
pub struct ResultTable {
    pub results: Vec<TestResult>,
    pub colors: Vec<Color>,
    pub names: Vec<String>,
}

impl ResultTable {
    /// The outcomes of the table, in its order.
    pub open spec fn outcomes(&self) -> Seq<TestResultView> {
        Seq::new(self.results@.len(), |i: int| self.results@[i]@)
    }

    /// The table holds no outcome twice, and beside each outcome its color
    /// and its label.
    pub open spec fn wf(&self) -> bool {
        &&& self.outcomes().no_duplicates()
        &&& self.colors@.len() == self.results@.len()
        &&& self.names@.len() == self.results@.len()
        &&& forall|i: int|
            0 <= i < self.results@.len() ==> (#[trigger] self.colors@[i])@ == result_color(
                self.results@[i]@,
            )
        &&& forall|i: int|
            0 <= i < self.results@.len() ==> (#[trigger] self.names@[i])@ == result_name(
                self.results@[i]@,
            )
    }

    /// A table without entries.
    pub fn new() -> (table: ResultTable)
        ensures
            table.wf(),
            table.outcomes() == Seq::<TestResultView>::empty(),
    {
        let table = ResultTable { results: Vec::new(), colors: Vec::new(), names: Vec::new() };
        assert(table.outcomes() =~= Seq::<TestResultView>::empty());
        table
    }

    /// The position of an outcome in the table, if the table holds it.
    pub fn position(&self, res: &TestResult) -> (found: Option<usize>)
        ensures
            match found {
                Some(idx) => idx < self.outcomes().len() && self.outcomes()[idx as int] == res@,
                None => !self.outcomes().contains(res@),
            },
    {
        let mut i: usize = 0;
        while i < self.results.len()
            invariant
                i <= self.results@.len(),
                forall|j: int| 0 <= j < i ==> self.outcomes()[j] != res@,
            decreases self.results@.len() - i,
        {
            if self.results[i].same(res) {
                return Some(i);
            }
            i = i + 1;
        }
        None
    }

    /// The index of an outcome in the table. An outcome that the table does
    /// not hold yet is appended first, with its color and label.
    pub fn index_of(&mut self, res: &TestResult) -> (idx: usize)
        requires
            old(self).wf(),
        ensures
            final(self).wf(),
            final(self).outcomes() == extend_distinct(old(self).outcomes(), seq![res@]),
            idx < final(self).outcomes().len(),
            final(self).outcomes()[idx as int] == res@,
    {
        proof {
            lemma_extend_distinct_one(self.outcomes(), res@);
        }
        match self.position(res) {
            Some(idx) => idx,
            None => {
                let ghost before = self.outcomes();
                let color = res.color();
                let name = res.name();
                self.colors.push(color);
                self.names.push(name);
                self.results.push(res.duplicate());
                assert(self.outcomes() =~= before.push(res@));
                assert(self.outcomes().no_duplicates()) by {
                    assert forall|i: int, j: int|
                        0 <= i < self.outcomes().len() && 0 <= j < self.outcomes().len() && i
                            != j implies self.outcomes()[i] != self.outcomes()[j] by {
                        if i < before.len() {
                            assert(before[i] == self.outcomes()[i]);
                            assert(before.contains(before[i]));
                        }
                        if j < before.len() {
                            assert(before[j] == self.outcomes()[j]);
                            assert(before.contains(before[j]));
                        }
                    }
                }
                self.results.len() - 1
            },
        }
    }
}

} // verus!
