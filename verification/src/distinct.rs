//! Sequences without repetition: the distinct values of a sequence, in the
//! order in which each is first met.

use vstd::prelude::*;

verus! {

/// `table`, followed by those values of `items` that neither `table` nor an
/// earlier part of `items` holds, each at its first occurrence.
pub open spec fn extend_distinct<T>(table: Seq<T>, items: Seq<T>) -> Seq<T>
    decreases items.len(),
{
    if items.len() == 0 {
        table
    } else {
        let before = extend_distinct(table, items.drop_last());
        if before.contains(items.last()) {
            before
        } else {
            before.push(items.last())
        }
    }
}

/// The distinct values of `items`, in the order in which each is first met.
pub open spec fn distinct<T>(items: Seq<T>) -> Seq<T> {
    extend_distinct(Seq::empty(), items)
}

/// Whether `longer` begins with `shorter`.
pub open spec fn is_prefix<T>(shorter: Seq<T>, longer: Seq<T>) -> bool {
    &&& shorter.len() <= longer.len()
    &&& forall|i: int| 0 <= i < shorter.len() ==> shorter[i] == longer[i]
}

/// Extending by nothing changes nothing, and extending by one value appends
/// it exactly when it is new.
pub proof fn lemma_extend_distinct_one<T>(table: Seq<T>, item: T)
    ensures
        extend_distinct(table, Seq::<T>::empty()) == table,
        extend_distinct(table, seq![item]) == if table.contains(item) {
            table
        } else {
            table.push(item)
        },
{
    let one = seq![item];
    assert(one.drop_last() =~= Seq::<T>::empty());
    assert(one.last() == item);
    assert(extend_distinct(table, one.drop_last()) == table);
}

/// Extending by a concatenation is extending by its parts in turn.
pub proof fn lemma_extend_distinct_concat<T>(table: Seq<T>, first: Seq<T>, second: Seq<T>)
    ensures
        extend_distinct(table, first + second) == extend_distinct(
            extend_distinct(table, first),
            second,
        ),
    decreases second.len(),
{
    if second.len() == 0 {
        assert(first + second =~= first);
    } else {
        lemma_extend_distinct_concat(table, first, second.drop_last());
        assert((first + second).drop_last() =~= first + second.drop_last());
        assert((first + second).last() == second.last());
    }
}

/// What extending keeps and adds: the old table stays in front, nothing
/// occurs twice if nothing did, and the values held are those of the table
/// and of the items.
pub proof fn lemma_extend_distinct_holds<T>(table: Seq<T>, items: Seq<T>)
    ensures
        is_prefix(table, extend_distinct(table, items)),
        table.no_duplicates() ==> extend_distinct(table, items).no_duplicates(),
        forall|x: T|
            extend_distinct(table, items).contains(x) <==> (table.contains(x) || items.contains(
                x,
            )),
    decreases items.len(),
{
    let out = extend_distinct(table, items);
    if items.len() == 0 {
    } else {
        let before = extend_distinct(table, items.drop_last());
        lemma_extend_distinct_holds(table, items.drop_last());
        let last = items.last();
        assert forall|x: T| out.contains(x) <==> (table.contains(x) || items.contains(x)) by {
            if items.contains(x) {
                let i = choose|i: int| 0 <= i < items.len() && items[i] == x;
                if i < items.len() - 1 {
                    assert(items.drop_last()[i] == x);
                    assert(items.drop_last().contains(x));
                }
            }
            if items.drop_last().contains(x) {
                let i = choose|i: int| 0 <= i < items.drop_last().len() && items.drop_last()[i] == x;
                assert(items[i] == x);
            }
            if before.contains(last) {
            } else {
                assert(out == before.push(last));
                if before.contains(x) {
                    let i = choose|i: int| 0 <= i < before.len() && before[i] == x;
                    assert(out[i] == x);
                }
                if x == last {
                    assert(out[before.len() as int] == x);
                    assert(items[items.len() - 1] == x);
                }
                if out.contains(x) {
                    let i = choose|i: int| 0 <= i < out.len() && out[i] == x;
                    if i < before.len() {
                        assert(before[i] == x);
                    }
                }
            }
        }
        if table.no_duplicates() && !before.contains(last) {
            assert forall|i: int, j: int| 0 <= i < out.len() && 0 <= j < out.len() && i != j implies out[i] != out[j] by {
                if i < before.len() && j < before.len() {
                    assert(before[i] != before[j]);
                } else if i < before.len() {
                    assert(before[i] == out[i]);
                } else {
                    assert(before[j] == out[j]);
                }
            }
        }
    }
}

/// The distinct values of a sequence are as many as the values it holds, and
/// they are those values.
pub proof fn lemma_distinct_holds<T>(items: Seq<T>)
    ensures
        distinct(items).no_duplicates(),
        distinct(items).to_set() == items.to_set(),
        distinct(items).len() == items.to_set().len(),
{
    lemma_extend_distinct_holds(Seq::<T>::empty(), items);
    let out = distinct(items);
    assert(out.to_set() =~= items.to_set()) by {
        assert forall|x: T| out.to_set().contains(x) <==> items.to_set().contains(x) by {
            assert(!Seq::<T>::empty().contains(x));
        }
    }
    out.unique_seq_to_set();
}

} // verus!
