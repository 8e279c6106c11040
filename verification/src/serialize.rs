//! Emission in a fixed order: whatever order a list or the entries of a
//! mapping are stored in, they are written out sorted.
//!
//! Every value that is sorted has a sort key, a sequence of numbers, and
//! the keys are ordered as words in a dictionary are.

use vstd::prelude::*;
use vstd::seq_lib::to_multiset_build;
use vstd::seq_lib::to_multiset_remove;

verus! {

/// Whether `a` comes no later than `b` from position `from` on, where the two
/// agree before it.
pub open spec fn lex_le_from(a: Seq<u64>, b: Seq<u64>, from: int) -> bool
    decreases a.len() - from,
{
    if from < 0 || from >= a.len() {
        true
    } else if from >= b.len() {
        false
    } else if a[from] != b[from] {
        a[from] < b[from]
    } else {
        lex_le_from(a, b, from + 1)
    }
}

/// The dictionary order on keys: at the first position where the two
/// differ the smaller number decides, and a key comes before every longer
/// key that begins with it.
pub open spec fn lex_le(a: Seq<u64>, b: Seq<u64>) -> bool {
    lex_le_from(a, b, 0)
}

/// Whether two keys agree before a position.
pub open spec fn agree_before(a: Seq<u64>, b: Seq<u64>, upto: int) -> bool {
    &&& upto <= a.len()
    &&& upto <= b.len()
    &&& forall|i: int| 0 <= i < upto ==> a[i] == b[i]
}

proof fn lemma_total_from(a: Seq<u64>, b: Seq<u64>, from: int)
    requires
        0 <= from,
        agree_before(a, b, from),
    ensures
        lex_le_from(a, b, from) || lex_le_from(b, a, from),
    decreases a.len() - from,
{
    if from < a.len() && from < b.len() && a[from] == b[from] {
        lemma_total_from(a, b, from + 1);
    }
}

proof fn lemma_transitive_from(a: Seq<u64>, b: Seq<u64>, c: Seq<u64>, from: int)
    requires
        0 <= from,
        lex_le_from(a, b, from),
        lex_le_from(b, c, from),
    ensures
        lex_le_from(a, c, from),
    decreases a.len() - from,
{
    if from < a.len() {
        if a[from] == b[from] && b[from] == c[from] {
            lemma_transitive_from(a, b, c, from + 1);
        }
    }
}

proof fn lemma_antisymmetric_from(a: Seq<u64>, b: Seq<u64>, from: int)
    requires
        0 <= from,
        agree_before(a, b, from),
        lex_le_from(a, b, from),
        lex_le_from(b, a, from),
    ensures
        a == b,
    decreases a.len() - from,
{
    if from < a.len() {
        lemma_antisymmetric_from(a, b, from + 1);
    } else {
        assert(a =~= b);
    }
}

/// Of any two keys one comes no later than the other.
pub proof fn lemma_lex_le_total(a: Seq<u64>, b: Seq<u64>)
    ensures
        lex_le(a, b) || lex_le(b, a),
{
    lemma_total_from(a, b, 0);
}

/// What comes no later than a key comes no later than all that follow it.
pub proof fn lemma_lex_le_transitive(a: Seq<u64>, b: Seq<u64>, c: Seq<u64>)
    requires
        lex_le(a, b),
        lex_le(b, c),
    ensures
        lex_le(a, c),
{
    lemma_transitive_from(a, b, c, 0);
}

/// Two keys of which each comes no later than the other are one key.
pub proof fn lemma_lex_le_antisymmetric(a: Seq<u64>, b: Seq<u64>)
    requires
        lex_le(a, b),
        lex_le(b, a),
    ensures
        a == b,
{
    lemma_antisymmetric_from(a, b, 0);
}

/// Whether one key comes no later than another.
pub fn key_le(a: &Vec<u64>, b: &Vec<u64>) -> (le: bool)
    ensures
        le == lex_le(a@, b@),
{
    let mut i: usize = 0;
    while i < a.len()
        invariant
            i <= a@.len(),
            lex_le(a@, b@) == lex_le_from(a@, b@, i as int),
        decreases a@.len() - i,
    {
        if i >= b.len() {
            return false;
        }
        if a[i] != b[i] {
            return a[i] < b[i];
        }
        i = i + 1;
    }
    true
}

/// A value with a sort key, a sequence of numbers by which it is ordered.
pub trait HasKey {
    /// The key.
    spec fn key_spec(&self) -> Seq<u64>;
}

/// A value whose sort key can be computed.
pub trait SortKey: HasKey {
    /// The key.
    fn sort_key(&self) -> (key: Vec<u64>)
        ensures
            key@ == self.key_spec(),
    ;
}

/// The keys of a sequence of values, in its order.
pub open spec fn keys_of<T: HasKey>(items: Seq<T>) -> Seq<Seq<u64>> {
    Seq::new(items.len(), |i: int| items[i].key_spec())
}

/// Whether keys stand in order: none comes later than one that follows it.
pub open spec fn sorted(keys: Seq<Seq<u64>>) -> bool {
    forall|i: int, j: int| 0 <= i < j < keys.len() ==> lex_le(#[trigger] keys[i], #[trigger] keys[j])
}

/// A sorted sequence with one more value: the value stands before the first
/// one that it comes no later than, or at the end.
pub open spec fn insert_sorted<T: HasKey>(items: Seq<T>, item: T) -> Seq<T>
    decreases items.len(),
{
    if items.len() == 0 || lex_le(item.key_spec(), items[0].key_spec()) {
        seq![item] + items
    } else {
        seq![items[0]] + insert_sorted(items.drop_first(), item)
    }
}

/// The values of a sequence in the order of their keys. Values with one key
/// keep the order in which they stood.
pub open spec fn sort_spec<T: HasKey>(items: Seq<T>) -> Seq<T>
    decreases items.len(),
{
    if items.len() == 0 {
        Seq::empty()
    } else {
        insert_sorted(sort_spec(items.drop_first()), items[0])
    }
}

/// Where a value is put by [`insert_sorted`]: at the first position whose
/// value it comes no later than.
pub proof fn lemma_insert_sorted_at<T: HasKey>(items: Seq<T>, item: T, at: int)
    requires
        0 <= at <= items.len(),
        forall|i: int| 0 <= i < at ==> !lex_le(item.key_spec(), #[trigger] items[i].key_spec()),
        at < items.len() ==> lex_le(item.key_spec(), items[at].key_spec()),
    ensures
        insert_sorted(items, item) == items.insert(at, item),
    decreases at,
{
    if at == 0 {
        assert(seq![item] + items =~= items.insert(0, item));
    } else {
        assert(!lex_le(item.key_spec(), items[0].key_spec()));
        let rest = items.drop_first();
        assert forall|i: int| 0 <= i < at - 1 implies !lex_le(
            item.key_spec(),
            #[trigger] rest[i].key_spec(),
        ) by {
            assert(rest[i] == items[i + 1]);
        }
        lemma_insert_sorted_at(rest, item, at - 1);
        assert(seq![items[0]] + rest.insert(at - 1, item) =~= items.insert(at, item));
    }
}

/// Putting a value into a sorted sequence leaves it sorted and adds the
/// value, nothing else.
pub proof fn lemma_insert_sorted_holds<T: HasKey>(items: Seq<T>, item: T)
    requires
        sorted(keys_of(items)),
    ensures
        sorted(keys_of(insert_sorted(items, item))),
        insert_sorted(items, item).to_multiset() == items.to_multiset().insert(item),
        insert_sorted(items, item).len() == items.len() + 1,
{
    let at = first_not_before(items, item, 0);
    lemma_first_not_before(items, item, 0);
    lemma_insert_sorted_at(items, item, at);
    let out = items.insert(at, item);
    let before = keys_of(items);
    let after = keys_of(out);
    assert forall|i: int, j: int| 0 <= i < j < after.len() implies lex_le(
        #[trigger] after[i],
        #[trigger] after[j],
    ) by {
        let a = if i < at {
            i
        } else {
            i - 1
        };
        let b = if j < at {
            j
        } else {
            j - 1
        };
        if i == at {
            assert(after[j] == before[b]);
            assert(lex_le(item.key_spec(), before[at]));
            if b > at {
                assert(lex_le(before[at], before[b]));
                lemma_lex_le_transitive(item.key_spec(), before[at], before[b]);
            }
        } else if j == at {
            assert(after[i] == before[a]);
            assert(!lex_le(item.key_spec(), items[a].key_spec()));
            lemma_lex_le_total(item.key_spec(), before[a]);
        } else {
            assert(after[i] == before[a]);
            assert(after[j] == before[b]);
            assert(lex_le(before[a], before[b]));
        }
    }
    assert(out.remove(at) =~= items);
    to_multiset_remove(out, at);
    out.to_multiset_ensures();
    assert(out[at] == item);
    assert(out.contains(item));
    assert(out.to_multiset() =~= items.to_multiset().insert(item));
}

/// The first position from `from` on whose value `item` comes no later than,
/// or the length where there is none.
pub open spec fn first_not_before<T: HasKey>(items: Seq<T>, item: T, from: int) -> int
    decreases items.len() - from,
{
    if from < 0 || from >= items.len() || lex_le(item.key_spec(), items[from].key_spec()) {
        from
    } else {
        first_not_before(items, item, from + 1)
    }
}

proof fn lemma_first_not_before<T: HasKey>(items: Seq<T>, item: T, from: int)
    requires
        0 <= from <= items.len(),
    ensures
        from <= first_not_before(items, item, from) <= items.len(),
        forall|i: int|
            from <= i < first_not_before(items, item, from) ==> !lex_le(
                item.key_spec(),
                #[trigger] items[i].key_spec(),
            ),
        first_not_before(items, item, from) < items.len() ==> lex_le(
            item.key_spec(),
            items[first_not_before(items, item, from)].key_spec(),
        ),
    decreases items.len() - from,
{
    if from < items.len() && !lex_le(item.key_spec(), items[from].key_spec()) {
        lemma_first_not_before(items, item, from + 1);
    }
}

/// The sorted arrangement of a sequence stands in order and holds the values
/// of the sequence, each as often as the sequence does.
pub proof fn lemma_sort_spec_holds<T: HasKey>(items: Seq<T>)
    ensures
        sorted(keys_of(sort_spec(items))),
        sort_spec(items).to_multiset() == items.to_multiset(),
        sort_spec(items).len() == items.len(),
    decreases items.len(),
{
    if items.len() == 0 {
        assert(sort_spec(items) =~= items);
    } else {
        let rest = items.drop_first();
        lemma_sort_spec_holds(rest);
        lemma_insert_sorted_holds(sort_spec(rest), items[0]);
        assert(items =~= seq![items[0]] + rest);
        assert(items.remove(0) =~= rest);
        to_multiset_remove(items, 0);
        items.to_multiset_ensures();
        assert(items.contains(items[0]));
        assert(items.to_multiset() =~= rest.to_multiset().insert(items[0]));
    }
}

/// Putting a value into a sequence and then taking views is taking views
/// and then putting the value's view in, where a view has the key of what
/// it is a view of.
pub proof fn lemma_insert_sorted_map<T: HasKey, V: HasKey>(
    items: Seq<T>,
    item: T,
    view: spec_fn(T) -> V,
)
    requires
        forall|t: T| (#[trigger] view(t)).key_spec() == t.key_spec(),
    ensures
        insert_sorted(items, item).map_values(view) == insert_sorted(
            items.map_values(view),
            view(item),
        ),
    decreases items.len(),
{
    let mapped = items.map_values(view);
    if items.len() == 0 || lex_le(item.key_spec(), items[0].key_spec()) {
        if items.len() > 0 {
            assert(mapped[0] == view(items[0]));
        }
        assert((seq![item] + items).map_values(view) =~= seq![view(item)] + mapped);
    } else {
        assert(mapped[0] == view(items[0]));
        lemma_insert_sorted_map(items.drop_first(), item, view);
        assert(mapped.drop_first() =~= items.drop_first().map_values(view));
        assert((seq![items[0]] + insert_sorted(items.drop_first(), item)).map_values(view)
            =~= seq![mapped[0]] + insert_sorted(items.drop_first(), item).map_values(view));
    }
}

/// Sorting and then taking views is taking views and then sorting, where a
/// view has the key of what it is a view of.
pub proof fn lemma_sort_spec_map<T: HasKey, V: HasKey>(items: Seq<T>, view: spec_fn(T) -> V)
    requires
        forall|t: T| (#[trigger] view(t)).key_spec() == t.key_spec(),
    ensures
        sort_spec(items).map_values(view) == sort_spec(items.map_values(view)),
    decreases items.len(),
{
    let mapped = items.map_values(view);
    if items.len() == 0 {
        assert(sort_spec(items).map_values(view) =~= Seq::<V>::empty());
    } else {
        lemma_sort_spec_map(items.drop_first(), view);
        lemma_insert_sorted_map(sort_spec(items.drop_first()), items[0], view);
        assert(mapped.drop_first() =~= items.drop_first().map_values(view));
        assert(mapped[0] == view(items[0]));
    }
}

/// Whether no two different values of a sequence share a key.
pub open spec fn keys_tell_apart<T: HasKey>(items: Seq<T>) -> bool {
    forall|i: int, j: int|
        0 <= i < items.len() && 0 <= j < items.len() && (#[trigger] items[i]).key_spec() == (
        #[trigger] items[j]).key_spec() ==> items[i] == items[j]
}

/// Two sorted sequences that hold the same values, each as often as the
/// other, are one sequence, where no two different values share a key.
pub proof fn lemma_sorted_unique<T: HasKey>(a: Seq<T>, b: Seq<T>)
    requires
        sorted(keys_of(a)),
        sorted(keys_of(b)),
        a.to_multiset() == b.to_multiset(),
        keys_tell_apart(a),
    ensures
        a == b,
    decreases a.len(),
{
    a.to_multiset_ensures();
    b.to_multiset_ensures();
    if a.len() == 0 {
        assert(a =~= b);
    } else {
        assert(a.contains(a[0]));
        assert(b.to_multiset().count(a[0]) > 0);
        assert(b.contains(a[0]));
        let j = choose|j: int| 0 <= j < b.len() && b[j] == a[0];
        assert(b.contains(b[0]));
        assert(a.to_multiset().count(b[0]) > 0);
        assert(a.contains(b[0]));
        let k = choose|k: int| 0 <= k < a.len() && a[k] == b[0];
        let ka = keys_of(a);
        let kb = keys_of(b);
        assert(lex_le(kb[0], kb[j])) by {
            if j == 0 {
                lemma_lex_le_total(kb[0], kb[0]);
            }
        }
        assert(lex_le(ka[0], ka[k])) by {
            if k == 0 {
                lemma_lex_le_total(ka[0], ka[0]);
            }
        }
        assert(kb[j] == ka[0]);
        assert(ka[k] == kb[0]);
        lemma_lex_le_antisymmetric(ka[0], kb[0]);
        assert(a[0].key_spec() == a[k].key_spec());
        assert(a[0] == b[0]);
        let ra = a.drop_first();
        let rb = b.drop_first();
        assert(ra =~= a.remove(0));
        assert(rb =~= b.remove(0));
        to_multiset_remove(a, 0);
        to_multiset_remove(b, 0);
        assert forall|i: int, j: int| 0 <= i < j < keys_of(ra).len() implies lex_le(
            #[trigger] keys_of(ra)[i],
            #[trigger] keys_of(ra)[j],
        ) by {
            assert(keys_of(ra)[i] == ka[i + 1]);
            assert(keys_of(ra)[j] == ka[j + 1]);
        }
        assert forall|i: int, j: int| 0 <= i < j < keys_of(rb).len() implies lex_le(
            #[trigger] keys_of(rb)[i],
            #[trigger] keys_of(rb)[j],
        ) by {
            assert(keys_of(rb)[i] == kb[i + 1]);
            assert(keys_of(rb)[j] == kb[j + 1]);
        }
        assert forall|i: int, j: int|
            0 <= i < ra.len() && 0 <= j < ra.len() && (#[trigger] ra[i]).key_spec() == (
            #[trigger] ra[j]).key_spec() implies ra[i] == ra[j] by {
            assert(ra[i] == a[i + 1]);
            assert(ra[j] == a[j + 1]);
        }
        lemma_sorted_unique(ra, rb);
        assert(a =~= seq![a[0]] + ra);
        assert(b =~= seq![b[0]] + rb);
    }
}

/// The sorted arrangement of a sequence does not depend on the order in
/// which the sequence holds its values: two sequences that hold the same
/// values, each as often as the other, have one sorted arrangement, where no
/// two different values share a key.
pub proof fn lemma_sort_spec_order_free<T: HasKey>(a: Seq<T>, b: Seq<T>)
    requires
        a.to_multiset() == b.to_multiset(),
        keys_tell_apart(a),
    ensures
        sort_spec(a) == sort_spec(b),
{
    lemma_sort_spec_holds(a);
    lemma_sort_spec_holds(b);
    let sa = sort_spec(a);
    sa.to_multiset_ensures();
    a.to_multiset_ensures();
    assert forall|i: int, j: int|
        0 <= i < sa.len() && 0 <= j < sa.len() && (#[trigger] sa[i]).key_spec() == (
        #[trigger] sa[j]).key_spec() implies sa[i] == sa[j] by {
        assert(sa.contains(sa[i]));
        assert(sa.contains(sa[j]));
        assert(a.to_multiset().count(sa[i]) > 0);
        assert(a.to_multiset().count(sa[j]) > 0);
        assert(a.contains(sa[i]));
        assert(a.contains(sa[j]));
        let x = choose|x: int| 0 <= x < a.len() && a[x] == sa[i];
        let y = choose|y: int| 0 <= y < a.len() && a[y] == sa[j];
        assert(a[x].key_spec() == a[y].key_spec());
    }
    lemma_sorted_unique(sa, sort_spec(b));
}

/// The code of a character as a number.
pub open spec fn code(c: char) -> u64 {
    (c as u32) as u64
}

/// The key of a text: the code of each character, raised by one, and a zero
/// at the end. A text so comes before every longer text that begins with
/// it, and the keys of two texts can be put one after the other.
pub open spec fn text_key(text: Seq<char>) -> Seq<u64> {
    Seq::new(
        text.len() + 1,
        |i: int|
            if i < text.len() {
                (code(text[i]) + 1) as u64
            } else {
                0u64
            },
    )
}

/// Appends the key of a text to a key.
pub fn push_text_key(key: &mut Vec<u64>, text: &str)
    ensures
        final(key)@ == old(key)@ + text_key(text@),
{
    let ghost start = key@;
    for c in it: text.chars()
        invariant
            it.seq() == text@,
            key@ == start + Seq::new(it.index() as nat, |i: int| (code(text@[i]) + 1) as u64),
    {
        let point: u32 = c as u32;
        let wide: u64 = point as u64;
        key.push(wide + 1);
        assert(key@ =~= start + Seq::new(
            (it.index() + 1) as nat,
            |i: int| (code(text@[i]) + 1) as u64,
        ));
    }
    key.push(0);
    assert(key@ =~= start + text_key(text@));
}

impl HasKey for String {
    open spec fn key_spec(&self) -> Seq<u64> {
        text_key(self@)
    }
}

impl HasKey for Seq<char> {
    open spec fn key_spec(&self) -> Seq<u64> {
        text_key(*self)
    }
}

impl SortKey for String {
    fn sort_key(&self) -> (key: Vec<u64>) {
        let mut key: Vec<u64> = Vec::new();
        push_text_key(&mut key, self.as_str());
        assert(key@ =~= text_key(self@));
        key
    }
}

/// Whether text `a` comes no later than text `b` from position `from` on,
/// where the two agree before it: the codes of the first characters that
/// differ decide, and a text comes before every longer text that begins
/// with it.
pub open spec fn text_le_from(a: Seq<char>, b: Seq<char>, from: int) -> bool
    decreases a.len() - from,
{
    if from < 0 || from >= a.len() {
        true
    } else if from >= b.len() {
        false
    } else if a[from] != b[from] {
        code(a[from]) < code(b[from])
    } else {
        text_le_from(a, b, from + 1)
    }
}

/// The order of texts as a dictionary has it, by the codes of their
/// characters.
pub open spec fn text_le(a: Seq<char>, b: Seq<char>) -> bool {
    text_le_from(a, b, 0)
}

proof fn lemma_text_order_from(a: Seq<char>, b: Seq<char>, from: int)
    requires
        0 <= from <= a.len(),
        from <= b.len(),
    ensures
        lex_le_from(text_key(a), text_key(b), from) == text_le_from(a, b, from),
    decreases a.len() - from,
{
    let ka = text_key(a);
    let kb = text_key(b);
    if from < a.len() {
        lemma_code_injective(a[from], a[from]);
        assert(ka[from] == (code(a[from]) + 1) as u64);
        if from < b.len() {
            lemma_code_injective(a[from], b[from]);
            assert(kb[from] == (code(b[from]) + 1) as u64);
            if a[from] == b[from] {
                lemma_text_order_from(a, b, from + 1);
            }
        } else {
            assert(kb[from] == 0);
        }
    } else {
        assert(ka[from] == 0);
        if from < b.len() {
            lemma_code_injective(b[from], b[from]);
            assert(kb[from] == (code(b[from]) + 1) as u64);
        } else {
            assert(kb[from] == 0);
            assert(lex_le_from(ka, kb, from + 1));
        }
    }
}

/// The keys of texts order the texts as a dictionary does, by the codes of
/// their characters.
pub proof fn lemma_text_order(a: Seq<char>, b: Seq<char>)
    ensures
        lex_le(text_key(a), text_key(b)) == text_le(a, b),
{
    lemma_text_order_from(a, b, 0);
}

/// A character is known from its code.
pub proof fn lemma_code_injective(a: char, b: char)
    ensures
        code(a) == code(b) ==> a == b,
        code(a) + 1 <= u64::MAX,
{
}

/// A text is known from its key.
pub proof fn lemma_text_key_injective(a: Seq<char>, b: Seq<char>)
    requires
        text_key(a) == text_key(b),
    ensures
        a == b,
{
    assert(a.len() == b.len()) by {
        assert(text_key(a).len() == a.len() + 1);
        assert(text_key(b).len() == b.len() + 1);
    }
    assert forall|i: int| 0 <= i < a.len() implies a[i] == b[i] by {
        assert(text_key(a)[i] == (code(a[i]) + 1) as u64);
        assert(text_key(b)[i] == (code(b[i]) + 1) as u64);
        lemma_code_injective(a[i], b[i]);
    }
    assert(a =~= b);
}

/// A list of texts that is written out sorted does not depend on the order
/// in which the list holds them.
pub proof fn lemma_texts_order_free(a: Seq<Seq<char>>, b: Seq<Seq<char>>)
    requires
        a.to_multiset() == b.to_multiset(),
    ensures
        sort_spec(a) == sort_spec(b),
{
    assert forall|i: int, j: int|
        0 <= i < a.len() && 0 <= j < a.len() && (#[trigger] a[i]).key_spec() == (
        #[trigger] a[j]).key_spec() implies a[i] == a[j] by {
        lemma_text_key_injective(a[i], a[j]);
    }
    lemma_sort_spec_order_free(a, b);
}

/// The entries of a mapping that are written out sorted do not depend on
/// the order in which the mapping holds them: two lists that hold the same
/// entries, none of them under the key of another, have one sorted
/// arrangement.
pub proof fn lemma_mapping_order_free<T: HasKey>(a: Seq<T>, b: Seq<T>)
    requires
        a.to_multiset() == b.to_multiset(),
        keys_of(a).no_duplicates(),
    ensures
        sort_spec(a) == sort_spec(b),
{
    assert forall|i: int, j: int|
        0 <= i < a.len() && 0 <= j < a.len() && (#[trigger] a[i]).key_spec() == (
        #[trigger] a[j]).key_spec() implies a[i] == a[j] by {
        assert(keys_of(a)[i] == keys_of(a)[j]);
    }
    lemma_sort_spec_order_free(a, b);
}

impl HasKey for u32 {
    /// A number is its own key.
    open spec fn key_spec(&self) -> Seq<u64> {
        seq![*self as u64]
    }
}

impl SortKey for u32 {
    fn sort_key(&self) -> (key: Vec<u64>) {
        let mut key: Vec<u64> = Vec::new();
        key.push(*self as u64);
        assert(key@ =~= seq![*self as u64]);
        key
    }
}

/// The first place in a sorted list of keys whose key `key` comes no later
/// than, or the length of the list where there is none.
pub fn insertion_point(keys: &Vec<Vec<u64>>, key: &Vec<u64>) -> (at: usize)
    requires
        sorted(Seq::new(keys@.len(), |i: int| keys@[i]@)),
    ensures
        at <= keys@.len(),
        forall|i: int| 0 <= i < at ==> !lex_le(key@, #[trigger] keys@[i]@),
        forall|i: int| at <= i < keys@.len() ==> lex_le(key@, #[trigger] keys@[i]@),
{
    let ghost views = Seq::new(keys@.len(), |i: int| keys@[i]@);
    let mut low: usize = 0;
    let mut high: usize = keys.len();
    while low < high
        invariant
            low <= high <= keys@.len(),
            views == Seq::new(keys@.len(), |i: int| keys@[i]@),
            sorted(views),
            forall|i: int| 0 <= i < low ==> !lex_le(key@, #[trigger] keys@[i]@),
            forall|i: int| high <= i < keys@.len() ==> lex_le(key@, #[trigger] keys@[i]@),
        decreases high - low,
    {
        let middle = low + (high - low) / 2;
        if key_le(key, &keys[middle]) {
            proof {
                assert forall|i: int| middle <= i < keys@.len() implies lex_le(
                    key@,
                    #[trigger] keys@[i]@,
                ) by {
                    if i > middle {
                        assert(lex_le(views[middle as int], views[i]));
                        lemma_lex_le_transitive(key@, keys@[middle as int]@, keys@[i]@);
                    }
                }
            }
            high = middle;
        } else {
            proof {
                assert forall|i: int| 0 <= i < middle + 1 implies !lex_le(
                    key@,
                    #[trigger] keys@[i]@,
                ) by {
                    if i < middle && lex_le(key@, keys@[i]@) {
                        assert(lex_le(views[i], views[middle as int]));
                        lemma_lex_le_transitive(key@, keys@[i]@, keys@[middle as int]@);
                    }
                }
            }
            low = middle + 1;
        }
    }
    low
}

/// The values of a list in the order of their keys. Values with one key
/// keep the order in which they stood.
pub fn sort_vec<T: SortKey>(data: Vec<T>) -> (out: Vec<T>)
    ensures
        out@ == sort_spec(data@),
{
    let ghost original = data@;
    let mut data = data;
    let mut out: Vec<T> = Vec::new();
    let mut keys: Vec<Vec<u64>> = Vec::new();
    proof {
        assert(original.skip(original.len() as int) =~= Seq::<T>::empty());
        assert(original.take(original.len() as int) =~= original);
    }
    while data.len() > 0
        invariant
            data@.len() <= original.len(),
            data@ == original.take(data@.len() as int),
            keys@.len() == out@.len(),
            forall|i: int| 0 <= i < out@.len() ==> (#[trigger] keys@[i])@ == out@[i].key_spec(),
            out@ == sort_spec(original.skip(data@.len() as int)),
        decreases data@.len(),
    {
        let ghost remaining = data@.len() as int;
        let ghost out_before = out@;
        let item = data.pop().unwrap();
        let key = item.sort_key();
        proof {
            lemma_sort_spec_holds(original.skip(remaining));
            assert(Seq::new(keys@.len(), |i: int| keys@[i]@) =~= keys_of(out@));
        }
        let at = insertion_point(&keys, &key);
        proof {
            assert forall|i: int| 0 <= i < at implies !lex_le(
                item.key_spec(),
                #[trigger] out_before[i].key_spec(),
            ) by {
                assert(keys@[i]@ == out_before[i].key_spec());
            }
            if at < out_before.len() {
                assert(keys@[at as int]@ == out_before[at as int].key_spec());
            }
            lemma_insert_sorted_at(out_before, item, at as int);
            let tail = original.skip(remaining - 1);
            assert(tail[0] == item);
            assert(tail.drop_first() =~= original.skip(remaining));
            assert(data@ =~= original.take(remaining - 1));
        }
        out.insert(at, item);
        keys.insert(at, key);
    }
    assert(original.skip(0) =~= original);
    out
}

/// The entries of a mapping in the order of their keys, whatever order the
/// mapping holds them in. The key of an entry is its sort key.
pub fn hashmap_deterministic_serialize<T: SortKey>(data: Vec<T>) -> (out: Vec<T>)
    ensures
        out@ == sort_spec(data@),
        out@.len() == data@.len(),
        sorted(keys_of(out@)),
        out@.to_multiset() == data@.to_multiset(),
{
    proof {
        lemma_sort_spec_holds(data@);
    }
    sort_vec(data)
}

} // verus!
