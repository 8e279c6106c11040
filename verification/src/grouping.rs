//! Grouping of crates under keys: each distinct key once, in the order in
//! which the keys are first met, and under it the crates that carry it, in
//! their order.

use crate::distinct::{distinct, lemma_distinct_holds, lemma_extend_distinct_one};
use crate::report::{
    crate_views, group_keys, group_sizes, group_views, CrateGroup, CrateGroupView,
    CrateResult, CrateResultView,
};
use vstd::hash_map::StringHashMap;
use vstd::prelude::*;

verus! {

/// The keys that are present in a sequence of optional keys, in its order.
pub open spec fn present<K>(keys: Seq<Option<K>>) -> Seq<K>
    decreases keys.len(),
{
    if keys.len() == 0 {
        Seq::empty()
    } else {
        let before = present(keys.drop_last());
        match keys.last() {
            Some(key) => before.push(key),
            None => before,
        }
    }
}

/// The items that carry a key, in their order. `keys` holds the key of each
/// item at the item's position; an item without a key is never picked.
pub open spec fn pick<K, T>(keys: Seq<Option<K>>, items: Seq<T>, key: K) -> Seq<T>
    decreases keys.len(),
{
    if keys.len() == 0 || items.len() == 0 {
        Seq::empty()
    } else {
        let before = pick(keys.drop_last(), items.drop_last(), key);
        if keys.last() == Some(key) {
            before.push(items.last())
        } else {
            before
        }
    }
}

/// The groups of a sequence of crates under the given keys.
pub open spec fn grouped(keys: Seq<Option<Seq<char>>>, crates: Seq<CrateResultView>) -> Seq<
    CrateGroupView,
> {
    let order = distinct(present(keys));
    Seq::new(
        order.len(),
        |i: int| CrateGroupView { key: order[i], crates: pick(keys, crates, order[i]) },
    )
}

/// The views of a sequence of optional keys.
pub open spec fn key_views(keys: Seq<Option<String>>) -> Seq<Option<Seq<char>>> {
    Seq::new(
        keys.len(),
        |i: int|
            match keys[i] {
                Some(key) => Some(key@),
                None => None,
            },
    )
}

/// The views of a sequence of strings.
pub open spec fn string_views(strings: Seq<String>) -> Seq<Seq<char>> {
    Seq::new(strings.len(), |i: int| strings[i]@)
}

/// One step of [`present`] and of [`pick`]: what the first `i + 1` keys and
/// items give, from what the first `i` give.
pub proof fn lemma_take_step<K, T>(keys: Seq<Option<K>>, items: Seq<T>, key: K, i: int)
    requires
        0 <= i < keys.len(),
        keys.len() == items.len(),
    ensures
        present(keys.take(i + 1)) == match keys[i] {
            Some(k) => present(keys.take(i)).push(k),
            None => present(keys.take(i)),
        },
        pick(keys.take(i + 1), items.take(i + 1), key) == if keys[i] == Some(key) {
            pick(keys.take(i), items.take(i), key).push(items[i])
        } else {
            pick(keys.take(i), items.take(i), key)
        },
{
    assert(keys.take(i + 1).drop_last() =~= keys.take(i));
    assert(items.take(i + 1).drop_last() =~= items.take(i));
    assert(keys.take(i + 1).last() == keys[i]);
    assert(items.take(i + 1).last() == items[i]);
}

/// Where every position holds a key, the keys that are present are the
/// keys of all positions.
pub proof fn lemma_present_all<K>(plain: Seq<K>, keys: Seq<Option<K>>)
    requires
        plain.len() == keys.len(),
        forall|i: int| 0 <= i < plain.len() ==> keys[i] == Some(#[trigger] plain[i]),
    ensures
        present(keys) == plain,
    decreases plain.len(),
{
    if plain.len() > 0 {
        lemma_present_all(plain.drop_last(), keys.drop_last());
        assert(keys.last() == Some(plain.last()));
        assert(plain.drop_last().push(plain.last()) =~= plain);
    } else {
        assert(plain =~= Seq::<K>::empty());
    }
}

/// The keys that are present are those that some position holds.
pub proof fn lemma_present_holds<K>(keys: Seq<Option<K>>)
    ensures
        forall|key: K| #[trigger] present(keys).contains(key) <==> keys.contains(Some(key)),
    decreases keys.len(),
{
    if keys.len() > 0 {
        let rest = keys.drop_last();
        let before = present(rest);
        let all = present(keys);
        lemma_present_holds(rest);
        assert forall|key: K| #[trigger] all.contains(key) <==> keys.contains(Some(key)) by {
            assert(before.contains(key) <==> rest.contains(Some(key)));
            if keys.contains(Some(key)) {
                let i = choose|i: int| 0 <= i < keys.len() && keys[i] == Some(key);
                if i < rest.len() {
                    assert(rest[i] == Some(key));
                    assert(rest.contains(Some(key)));
                    assert(before.contains(key));
                    let j = choose|j: int| 0 <= j < before.len() && before[j] == key;
                    assert(all[j] == key);
                } else {
                    assert(keys.last() == Some(key));
                    assert(all == before.push(key));
                    assert(all[before.len() as int] == key);
                }
            }
            if all.contains(key) {
                let j = choose|j: int| 0 <= j < all.len() && all[j] == key;
                if j < before.len() {
                    assert(before[j] == key);
                    assert(before.contains(key));
                    assert(rest.contains(Some(key)));
                    let i = choose|i: int| 0 <= i < rest.len() && rest[i] == Some(key);
                    assert(keys[i] == Some(key));
                } else {
                    assert(keys[keys.len() - 1] == Some(key));
                }
            }
        }
    }
}

/// What is picked for a key are the items at the positions that hold the
/// key, and nothing else.
pub proof fn lemma_pick_holds<K, T>(keys: Seq<Option<K>>, items: Seq<T>, key: K)
    requires
        keys.len() == items.len(),
    ensures
        forall|item: T|
            pick(keys, items, key).contains(item) <==> exists|i: int|
                0 <= i < keys.len() && keys[i] == Some(key) && #[trigger] items[i] == item,
    decreases keys.len(),
{
    if keys.len() > 0 {
        let rest_keys = keys.drop_last();
        let rest = items.drop_last();
        let before = pick(rest_keys, rest, key);
        let all = pick(keys, items, key);
        lemma_pick_holds(rest_keys, rest, key);
        assert forall|item: T|
            all.contains(item) <==> exists|i: int|
                0 <= i < keys.len() && keys[i] == Some(key) && #[trigger] items[i] == item by {
            if all.contains(item) {
                let j = choose|j: int| 0 <= j < all.len() && all[j] == item;
                if j < before.len() {
                    assert(before[j] == item);
                    assert(before.contains(item));
                    let i = choose|i: int|
                        0 <= i < rest_keys.len() && rest_keys[i] == Some(key) && #[trigger] rest[i]
                            == item;
                    assert(keys[i] == Some(key) && items[i] == item);
                } else {
                    assert(keys[keys.len() - 1] == Some(key) && items[keys.len() - 1] == item);
                }
            }
            if exists|i: int|
                0 <= i < keys.len() && keys[i] == Some(key) && #[trigger] items[i] == item {
                let i = choose|i: int|
                    0 <= i < keys.len() && keys[i] == Some(key) && #[trigger] items[i] == item;
                if i < rest_keys.len() {
                    assert(rest_keys[i] == Some(key) && rest[i] == item);
                    assert(before.contains(item));
                    let j = choose|j: int| 0 <= j < before.len() && before[j] == item;
                    assert(all[j] == item);
                } else {
                    assert(all[before.len() as int] == item);
                }
            }
        }
    }
}

/// In the groups of a sequence of crates no key occurs twice, every crate
/// with a key stands in the group of its key, and a group holds no crate
/// but those that carry its key.
pub proof fn lemma_grouped_holds(keys: Seq<Option<Seq<char>>>, crates: Seq<CrateResultView>)
    requires
        keys.len() == crates.len(),
    ensures
        grouped(keys, crates).len() == distinct(present(keys)).len(),
        group_keys(grouped(keys, crates)) == distinct(present(keys)),
        group_keys(grouped(keys, crates)).no_duplicates(),
        forall|i: int|
            0 <= i < keys.len() && keys[i] is Some ==> exists|g: int|
                0 <= g < grouped(keys, crates).len() && (#[trigger] grouped(keys, crates)[g]).key
                    == keys[i]->0 && grouped(keys, crates)[g].crates.contains(crates[i]),
        forall|g: int, krate: CrateResultView|
            0 <= g < grouped(keys, crates).len() && #[trigger] grouped(
                keys,
                crates,
            )[g].crates.contains(krate) ==> exists|i: int|
                0 <= i < keys.len() && keys[i] == Some(grouped(keys, crates)[g].key)
                    && #[trigger] crates[i] == krate,
{
    let order = distinct(present(keys));
    let groups = grouped(keys, crates);
    lemma_distinct_holds(present(keys));
    lemma_present_holds(keys);
    assert(group_keys(groups) =~= order);
    assert forall|i: int| 0 <= i < keys.len() && keys[i] is Some implies exists|g: int|
        0 <= g < groups.len() && (#[trigger] groups[g]).key == keys[i]->0
            && groups[g].crates.contains(crates[i]) by {
        let key = keys[i]->0;
        assert(keys.contains(Some(key)));
        assert(present(keys).contains(key));
        assert(present(keys).to_set().contains(key));
        assert(order.to_set().contains(key));
        assert(order.contains(key));
        let g = choose|g: int| 0 <= g < order.len() && order[g] == key;
        lemma_pick_holds(keys, crates, key);
        assert(groups[g].key == key);
        assert(groups[g].crates == pick(keys, crates, key));
    }
    assert forall|g: int, krate: CrateResultView|
        0 <= g < groups.len() && #[trigger] groups[g].crates.contains(krate) implies exists|i: int|
        0 <= i < keys.len() && keys[i] == Some(groups[g].key) && #[trigger] crates[i] == krate by {
        lemma_pick_holds(keys, crates, order[g]);
    }
}

/// How many items are picked for the keys of a list, taken together.
pub open spec fn picked_sizes<K, T>(keys: Seq<Option<K>>, items: Seq<T>, order: Seq<K>) -> nat
    decreases order.len(),
{
    if order.len() == 0 {
        0
    } else {
        picked_sizes(keys, items, order.drop_last()) + pick(keys, items, order.last()).len()
    }
}

proof fn lemma_picked_sizes_step<K, T>(
    keys: Seq<Option<K>>,
    items: Seq<T>,
    order: Seq<K>,
    i: int,
)
    requires
        0 <= i < keys.len(),
        keys.len() == items.len(),
        order.no_duplicates(),
    ensures
        picked_sizes(keys.take(i + 1), items.take(i + 1), order) == picked_sizes(
            keys.take(i),
            items.take(i),
            order,
        ) + if keys[i] is Some && order.contains(keys[i]->0) {
            1nat
        } else {
            0nat
        },
    decreases order.len(),
{
    if order.len() > 0 {
        let rest = order.drop_last();
        let last = order.last();
        assert(rest.no_duplicates()) by {
            assert forall|a: int, b: int| 0 <= a < rest.len() && 0 <= b < rest.len() && a
                != b implies rest[a] != rest[b] by {
                assert(rest[a] == order[a] && rest[b] == order[b]);
            }
        }
        lemma_picked_sizes_step(keys, items, rest, i);
        lemma_take_step(keys, items, last, i);
        if keys[i] is Some {
            let key = keys[i]->0;
            if key == last {
                assert(order[order.len() - 1] == key);
                if rest.contains(key) {
                    let j = choose|j: int| 0 <= j < rest.len() && rest[j] == key;
                    assert(order[j] == key);
                }
            } else {
                if order.contains(key) {
                    let j = choose|j: int| 0 <= j < order.len() && order[j] == key;
                    assert(rest[j] == key);
                }
                if rest.contains(key) {
                    let j = choose|j: int| 0 <= j < rest.len() && rest[j] == key;
                    assert(order[j] == key);
                }
            }
        }
    }
}

proof fn lemma_picked_sizes_total<K, T>(
    keys: Seq<Option<K>>,
    items: Seq<T>,
    order: Seq<K>,
    upto: int,
)
    requires
        0 <= upto <= keys.len(),
        keys.len() == items.len(),
        order.no_duplicates(),
        forall|key: K| present(keys).contains(key) ==> order.contains(key),
    ensures
        picked_sizes(keys.take(upto), items.take(upto), order) == present(keys.take(upto)).len(),
    decreases upto,
{
    if upto == 0 {
        assert(keys.take(0) =~= Seq::<Option<K>>::empty());
        lemma_picked_sizes_empty(items.take(0), order);
    } else {
        lemma_picked_sizes_total(keys, items, order, upto - 1);
        lemma_picked_sizes_step(keys, items, order, upto - 1);
        lemma_take_step(keys, items, order[0], upto - 1);
        if keys[upto - 1] is Some {
            let key = keys[upto - 1]->0;
            lemma_present_holds(keys);
            assert(keys.contains(Some(key)));
            assert(present(keys).contains(key));
        }
    }
}

proof fn lemma_picked_sizes_empty<K, T>(items: Seq<T>, order: Seq<K>)
    ensures
        picked_sizes(Seq::<Option<K>>::empty(), items, order) == 0,
    decreases order.len(),
{
    if order.len() > 0 {
        lemma_picked_sizes_empty::<K, T>(items, order.drop_last());
    }
}

proof fn lemma_group_sizes_are_picked(
    keys: Seq<Option<Seq<char>>>,
    crates: Seq<CrateResultView>,
    order: Seq<Seq<char>>,
)
    ensures
        group_sizes(
            Seq::new(
                order.len(),
                |i: int| CrateGroupView { key: order[i], crates: pick(keys, crates, order[i]) },
            ),
        ) == picked_sizes(keys, crates, order),
    decreases order.len(),
{
    let groups = Seq::new(
        order.len(),
        |i: int| CrateGroupView { key: order[i], crates: pick(keys, crates, order[i]) },
    );
    if order.len() > 0 {
        let rest = order.drop_last();
        lemma_group_sizes_are_picked(keys, crates, rest);
        assert(groups.drop_last() =~= Seq::new(
            rest.len(),
            |i: int| CrateGroupView { key: rest[i], crates: pick(keys, crates, rest[i]) },
        ));
    }
}

/// The groups of a sequence of crates hold, taken together, as many crates
/// as carry a key: every crate with a key stands in one group and in no
/// other.
pub proof fn lemma_grouped_sizes(keys: Seq<Option<Seq<char>>>, crates: Seq<CrateResultView>)
    requires
        keys.len() == crates.len(),
    ensures
        group_sizes(grouped(keys, crates)) == present(keys).len(),
{
    let order = distinct(present(keys));
    lemma_distinct_holds(present(keys));
    assert forall|key: Seq<char>| present(keys).contains(key) implies order.contains(key) by {
        assert(present(keys).to_set().contains(key));
        assert(order.to_set().contains(key));
    }
    lemma_picked_sizes_total(keys, crates, order, keys.len() as int);
    assert(keys.take(keys.len() as int) =~= keys);
    assert(crates.take(keys.len() as int) =~= crates);
    lemma_group_sizes_are_picked(keys, crates, order);
}

/// Whether an index of groups finds every group by its key: it holds the
/// keys of the groups and no others, and beside each the place of its group.
pub open spec fn indexes(index: Map<Seq<char>, usize>, order: Seq<Seq<char>>) -> bool {
    &&& forall|key: Seq<char>| index.contains_key(key) <==> order.contains(key)
    &&& forall|g: int| 0 <= g < order.len() ==> index[#[trigger] order[g]] == g
}

/// What the groups become when one more crate is taken in: a crate without
/// a key changes nothing; a crate whose key is new opens a group of its own
/// at the end; any other crate joins the group of its key.
proof fn lemma_grouped_step(keys: Seq<Option<Seq<char>>>, crates: Seq<CrateResultView>, i: int)
    requires
        0 <= i < keys.len(),
        keys.len() == crates.len(),
    ensures
        keys[i] is None ==> grouped(keys.take(i + 1), crates.take(i + 1)) == grouped(
            keys.take(i),
            crates.take(i),
        ),
        keys[i] is Some && !distinct(present(keys.take(i))).contains(keys[i]->0) ==> grouped(
            keys.take(i + 1),
            crates.take(i + 1),
        ) == grouped(keys.take(i), crates.take(i)).push(
            CrateGroupView { key: keys[i]->0, crates: seq![crates[i]] },
        ),
        keys[i] is Some && distinct(present(keys.take(i))).contains(keys[i]->0) ==> {
            let before = grouped(keys.take(i), crates.take(i));
            let at = distinct(present(keys.take(i))).index_of(keys[i]->0);
            &&& 0 <= at < before.len()
            &&& before[at].key == keys[i]->0
            &&& grouped(keys.take(i + 1), crates.take(i + 1)) == before.update(
                at,
                CrateGroupView { key: keys[i]->0, crates: before[at].crates.push(crates[i]) },
            )
        },
{
    let keys_before = keys.take(i);
    let keys_after = keys.take(i + 1);
    let crates_before = crates.take(i);
    let crates_after = crates.take(i + 1);
    let order = distinct(present(keys_before));
    let before = grouped(keys_before, crates_before);
    let after = grouped(keys_after, crates_after);
    lemma_distinct_holds(present(keys_before));
    lemma_take_step(keys, crates, Seq::<char>::empty(), i);
    assert forall|key: Seq<char>|
        pick(keys_after, crates_after, key) == if keys[i] == Some(key) {
            pick(keys_before, crates_before, key).push(crates[i])
        } else {
            pick(keys_before, crates_before, key)
        } by {
        lemma_take_step(keys, crates, key, i);
    }
    match keys[i] {
        None => {
            assert(after =~= before);
        },
        Some(key) => {
            let present_before = present(keys_before);
            assert(present_before.push(key).drop_last() =~= present_before);
            lemma_extend_distinct_one(order, key);
            if order.contains(key) {
                let at = order.index_of(key);
                assert(distinct(present(keys_after)) == order);
                assert(after =~= before.update(
                    at,
                    CrateGroupView { key, crates: before[at].crates.push(crates[i]) },
                )) by {
                    assert forall|g: int| 0 <= g < order.len() && g != at implies order[g]
                        != key by {
                        assert(order[at] == key);
                    }
                }
            } else {
                assert(distinct(present(keys_after)) == order.push(key));
                lemma_pick_holds(keys_before, crates_before, key);
                lemma_present_holds(keys_before);
                let alone = pick(keys_before, crates_before, key);
                if alone.len() > 0 {
                    assert(alone.contains(alone[0]));
                    let j = choose|j: int|
                        0 <= j < keys_before.len() && keys_before[j] == Some(key)
                            && #[trigger] crates_before[j] == alone[0];
                    assert(keys_before.contains(Some(key)));
                    assert(present_before.contains(key));
                    assert(present_before.to_set().contains(key));
                    assert(order.to_set().contains(key));
                }
                assert(alone.push(crates[i]) =~= seq![crates[i]]);
                assert(after =~= before.push(CrateGroupView { key, crates: seq![crates[i]] }));
            }
        },
    }
}

/// Groups crates under their keys. `keys` holds the key of each crate at the
/// crate's position; a crate without a key is in no group.
pub fn group_crates(keys: &Vec<Option<String>>, crates: &Vec<CrateResult>) -> (groups: Vec<
    CrateGroup,
>)
    requires
        keys@.len() == crates@.len(),
    ensures
        group_views(groups@) == grouped(key_views(keys@), crate_views(crates@)),
{
    let ghost key_source = key_views(keys@);
    let ghost source = crate_views(crates@);
    let mut groups: Vec<CrateGroup> = Vec::new();
    let mut index: StringHashMap<usize> = StringHashMap::new();
    let mut i: usize = 0;
    proof {
        assert(key_source.take(0) =~= Seq::<Option<Seq<char>>>::empty());
        assert(group_views(groups@) =~= grouped(key_source.take(0), source.take(0)));
    }
    while i < keys.len()
        invariant
            i <= keys@.len(),
            keys@.len() == crates@.len(),
            key_source == key_views(keys@),
            source == crate_views(crates@),
            group_views(groups@) == grouped(key_source.take(i as int), source.take(i as int)),
            indexes(index@, distinct(present(key_source.take(i as int)))),
        decreases keys@.len() - i,
    {
        let ghost order = distinct(present(key_source.take(i as int)));
        let ghost before = group_views(groups@);
        proof {
            lemma_grouped_step(key_source, source, i as int);
            lemma_distinct_holds(present(key_source.take(i as int)));
            assert(before.len() == order.len());
        }
        match &keys[i] {
            None => {},
            Some(key) => {
                let found = match index.get(key.as_str()) {
                    Some(at) => Some(*at),
                    None => None,
                };
                match found {
                    Some(at) => {
                        proof {
                            assert(order.contains(key@));
                            let g = order.index_of(key@);
                            assert(order[g] == key@);
                            assert(index@[order[g]] == g);
                        }
                        groups[at].crates.push(crates[i].duplicate());
                        proof {
                            let after = group_views(groups@);
                            let expected = before.update(
                                at as int,
                                CrateGroupView {
                                    key: key@,
                                    crates: before[at as int].crates.push(source[i as int]),
                                },
                            );
                            assert(after.len() == expected.len());
                            assert forall|g: int| 0 <= g < after.len() implies after[g]
                                == expected[g] by {
                                if g == at {
                                    assert(after[g].crates =~= before[g].crates.push(
                                        source[i as int],
                                    ));
                                }
                            }
                            assert(after =~= expected);
                        }
                    },
                    None => {
                        let mut held: Vec<CrateResult> = Vec::new();
                        held.push(crates[i].duplicate());
                        index.insert(key.clone(), groups.len());
                        groups.push(CrateGroup { key: key.clone(), crates: held });
                        proof {
                            assert(crate_views(held@) =~= seq![source[i as int]]);
                            assert(group_views(groups@) =~= before.push(
                                CrateGroupView { key: key@, crates: seq![source[i as int]] },
                            ));
                            let grown = order.push(key@);
                            assert(distinct(present(key_source.take(i as int + 1))) == grown) by {
                                lemma_take_step(key_source, source, key@, i as int);
                                let present_before = present(key_source.take(i as int));
                                assert(present_before.push(key@).drop_last() =~= present_before);
                                lemma_extend_distinct_one(order, key@);
                            }
                            assert forall|k: Seq<char>| index@.contains_key(k) <==> grown.contains(
                                k,
                            ) by {
                                if order.contains(k) {
                                    let g = order.index_of(k);
                                    assert(grown[g] == k);
                                }
                                if k == key@ {
                                    assert(grown[order.len() as int] == k);
                                }
                                if grown.contains(k) {
                                    let g = choose|g: int| 0 <= g < grown.len() && grown[g] == k;
                                    if g < order.len() {
                                        assert(order[g] == k);
                                    }
                                }
                            }
                            assert forall|g: int| 0 <= g < grown.len() implies index@[#[trigger] grown[g]]
                                == g by {
                                if g < order.len() {
                                    assert(order[g] == grown[g]);
                                    assert(order.contains(order[g]));
                                }
                            }
                        }
                    },
                }
            },
        }
        proof {
            if key_source[i as int] is None {
                lemma_take_step(key_source, source, Seq::<char>::empty(), i as int);
            } else if order.contains(key_source[i as int]->0) {
                lemma_take_step(key_source, source, key_source[i as int]->0, i as int);
                let present_before = present(key_source.take(i as int));
                assert(present_before.push(key_source[i as int]->0).drop_last()
                    =~= present_before);
                lemma_extend_distinct_one(order, key_source[i as int]->0);
            }
        }
        i = i + 1;
    }
    proof {
        assert(key_source.take(i as int) =~= key_source);
        assert(source.take(i as int) =~= source);
    }
    groups
}

} // verus!
