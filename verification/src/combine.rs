//! What the set operations make of two values.
//!
//! Each operation reads a value as a sequence of elements: the elements of
//! an array, or the value itself as the one element where it is no array.
//! Elements are told apart by their keys alone.
use vstd::prelude::*;
use crate::key_encoder::encode;
use crate::ordered_map::{Entries, entry_values, has_key, key_index, lemma_key_index, put};
use crate::value::Tree;

verus! {

/// The elements that a value is scanned as.
pub open spec fn elements(t: Tree) -> Seq<Tree> {
    match t {
        Tree::Array(items) => items,
        _ => seq![t],
    }
}

/// The map that elements are collected into, each under its key: where two
/// have one key, the entry stands where the first came and holds the last.
pub open spec fn collect(items: Seq<Tree>) -> Entries
    decreases items.len(),
{
    if items.len() == 0 {
        Seq::empty()
    } else {
        put(collect(items.drop_last()), encode(items.last()), items.last())
    }
}

/// The map after each of `items` in turn has been added to it unless its key
/// was there already.
pub open spec fn extend(entries: Entries, items: Seq<Tree>) -> Entries
    decreases items.len(),
{
    if items.len() == 0 {
        entries
    } else {
        let before = extend(entries, items.drop_last());
        if has_key(before, encode(items.last())) {
            before
        } else {
            before.push((encode(items.last()), items.last()))
        }
    }
}

/// The elements whose key is in the map.
pub open spec fn keyed_in(entries: Entries) -> spec_fn(Tree) -> bool {
    |x: Tree| has_key(entries, encode(x))
}

/// The elements whose key is not in the map.
pub open spec fn keyed_out(entries: Entries) -> spec_fn(Tree) -> bool {
    |x: Tree| !has_key(entries, encode(x))
}

/// The elements of `other` whose key is among the keys of `this`, collected
/// under their keys, in the order of `other`.
pub open spec fn intersect_list(this: Tree, other: Tree) -> Seq<Tree> {
    entry_values(collect(elements(other).filter(keyed_in(collect(elements(this))))))
}

/// The elements of `other` whose key is not among the keys of `this`,
/// collected under their keys, in the order of `other`.
pub open spec fn except_list(this: Tree, other: Tree) -> Seq<Tree> {
    entry_values(collect(elements(other).filter(keyed_out(collect(elements(this))))))
}

/// The elements of `this` collected under their keys, then each element of
/// `other` whose key has not come before.
pub open spec fn union_list(this: Tree, other: Tree) -> Seq<Tree> {
    entry_values(extend(collect(elements(this)), elements(other)))
}

/// Collecting one more element is one insertion.
pub proof fn lemma_collect_push(items: Seq<Tree>, x: Tree)
    ensures
        collect(items.push(x)) == put(collect(items), encode(x), x),
{
    assert(items.push(x).drop_last() =~= items);
}

/// Extending by one more element adds it unless its key is there.
pub proof fn lemma_extend_push(entries: Entries, items: Seq<Tree>, x: Tree)
    ensures
        extend(entries, items.push(x)) == if has_key(extend(entries, items), encode(x)) {
            extend(entries, items)
        } else {
            extend(entries, items).push((encode(x), x))
        },
{
    assert(items.push(x).drop_last() =~= items);
}

/// No two elements have one key.
pub open spec fn distinct_keys(items: Seq<Tree>) -> bool {
    forall|i: int, j: int|
        0 <= i < j < items.len() ==> encode(#[trigger] items[i]) != encode(#[trigger] items[j])
}

/// Elements that have one key are one value.
pub open spec fn keys_tell_apart(items: Seq<Tree>) -> bool {
    forall|i: int, j: int|
        0 <= i < items.len() && 0 <= j < items.len() && encode(#[trigger] items[i]) == encode(
            #[trigger] items[j],
        ) ==> items[i] == items[j]
}

/// Every entry stands under the key of its value, and no two entries under
/// one key.
pub open spec fn keyed(entries: Entries) -> bool {
    &&& forall|i: int|
        0 <= i < entries.len() ==> (#[trigger] entries[i]).0 == encode(entries[i].1)
    &&& forall|i: int, j: int|
        0 <= i < j < entries.len() ==> (#[trigger] entries[i]).0 != (#[trigger] entries[j]).0
}

/// What an insertion under the key of the value does to a keyed map.
pub proof fn lemma_put(entries: Entries, x: Tree)
    requires
        keyed(entries),
    ensures
        keyed(put(entries, encode(x), x)),
        has_key(put(entries, encode(x), x), encode(x)),
        forall|k: Seq<char>| has_key(entries, k) ==> has_key(put(entries, encode(x), x), k),
        forall|i: int|
            0 <= i < put(entries, encode(x), x).len() ==> (#[trigger] put(
                entries,
                encode(x),
                x,
            )[i]).1 == x || (i < entries.len() && put(entries, encode(x), x)[i] == entries[i]),
        put(entries, encode(x), x).len() == if has_key(entries, encode(x)) {
            entries.len()
        } else {
            entries.len() + 1
        },
{
    let k = encode(x);
    let after = put(entries, k, x);
    lemma_key_index(entries, k);
    let at = if has_key(entries, k) {
        key_index(entries, k)
    } else {
        entries.len() as int
    };
    assert(after[at] == (k, x));
    assert forall|q: Seq<char>| has_key(entries, q) implies has_key(after, q) by {
        let i = choose|i: int| 0 <= i < entries.len() && (#[trigger] entries[i]).0 == q;
        assert(after[i].0 == q);
    }
    assert forall|i: int, j: int| 0 <= i < j < after.len() implies (#[trigger] after[i]).0 != (
    #[trigger] after[j]).0 by {
        if has_key(entries, k) {
            assert(after[i].0 == entries[i].0);
            assert(after[j].0 == entries[j].0);
        } else if j == entries.len() {
            assert(after[i] == entries[i]);
        } else {
            assert(after[i] == entries[i]);
            assert(after[j] == entries[j]);
        }
    }
    assert forall|i: int| 0 <= i < after.len() implies (#[trigger] after[i]).0 == encode(
        after[i].1,
    ) by {
        if i != at {
            assert(after[i] == entries[i]);
        }
    }
}

/// What collecting gives: a keyed map of values that are among the elements,
/// with the key of every element in it, and with as many entries as there
/// are elements where no two elements have one key.
pub proof fn lemma_collect(items: Seq<Tree>)
    ensures
        keyed(collect(items)),
        forall|i: int|
            0 <= i < collect(items).len() ==> items.contains((#[trigger] collect(items)[i]).1),
        forall|j: int| 0 <= j < items.len() ==> has_key(collect(items), encode(#[trigger] items[j])),
        collect(items).len() <= items.len(),
        distinct_keys(items) ==> collect(items).len() == items.len(),
    decreases items.len(),
{
    if items.len() > 0 {
        let before = items.drop_last();
        let x = items.last();
        let entries = collect(before);
        let after = collect(items);
        lemma_collect(before);
        lemma_put(entries, x);
        assert forall|i: int| 0 <= i < after.len() implies items.contains((#[trigger] after[i]).1) by {
            if after[i].1 == x {
                assert(items[items.len() - 1] == x);
            } else {
                assert(before.contains(entries[i].1));
                let j = choose|j: int| 0 <= j < before.len() && before[j] == entries[i].1;
                assert(items[j] == entries[i].1);
            }
        }
        assert forall|j: int| 0 <= j < items.len() implies has_key(
            after,
            encode(#[trigger] items[j]),
        ) by {
            if j < before.len() {
                assert(before[j] == items[j]);
            }
        }
        if distinct_keys(items) {
            assert(distinct_keys(before)) by {
                assert forall|i: int, j: int| 0 <= i < j < before.len() implies encode(
                    #[trigger] before[i],
                ) != encode(#[trigger] before[j]) by {
                    assert(before[i] == items[i] && before[j] == items[j]);
                }
            }
            if has_key(entries, encode(x)) {
                let i = choose|i: int| 0 <= i < entries.len() && (#[trigger] entries[i]).0 == encode(x);
                assert(before.contains(entries[i].1));
                let j = choose|j: int| 0 <= j < before.len() && before[j] == entries[i].1;
                assert(items[j] == before[j]);
                assert(encode(items[j]) == encode(items[items.len() - 1]));
            }
        }
    }
}

/// What extending gives: a keyed map that begins with the map extended, has
/// the key of every element in it, and has at most one more entry for each
/// element.
pub proof fn lemma_extend(entries: Entries, items: Seq<Tree>)
    requires
        keyed(entries),
    ensures
        keyed(extend(entries, items)),
        entries.len() <= extend(entries, items).len() <= entries.len() + items.len(),
        forall|i: int| 0 <= i < entries.len() ==> (#[trigger] extend(entries, items)[i]) == entries[i],
        forall|i: int|
            entries.len() <= i < extend(entries, items).len() ==> items.contains(
                (#[trigger] extend(entries, items)[i]).1,
            ),
        forall|j: int|
            0 <= j < items.len() ==> has_key(extend(entries, items), encode(#[trigger] items[j])),
    decreases items.len(),
{
    if items.len() > 0 {
        let before = items.drop_last();
        let x = items.last();
        let mid = extend(entries, before);
        let after = extend(entries, items);
        lemma_extend(entries, before);
        if !has_key(mid, encode(x)) {
            lemma_put(mid, x);
            assert(after == put(mid, encode(x), x));
            assert(after[mid.len() as int] == (encode(x), x));
        }
        assert forall|i: int| entries.len() <= i < after.len() implies items.contains(
            (#[trigger] after[i]).1,
        ) by {
            if i < mid.len() {
                assert(after[i] == mid[i]);
                assert(before.contains(mid[i].1));
                let j = choose|j: int| 0 <= j < before.len() && before[j] == mid[i].1;
                assert(items[j] == mid[i].1);
            } else {
                assert(items[items.len() - 1] == x);
            }
        }
        assert forall|j: int| 0 <= j < items.len() implies has_key(
            after,
            encode(#[trigger] items[j]),
        ) by {
            if j < before.len() {
                assert(before[j] == items[j]);
                let i = choose|i: int| 0 <= i < mid.len() && (#[trigger] mid[i]).0 == encode(items[j]);
                assert(after[i] == mid[i]);
            } else if has_key(mid, encode(x)) {
            } else {
                assert(after[mid.len() as int].0 == encode(x));
            }
        }
    }
}

/// Each element under its key, in order.
pub open spec fn under_keys(items: Seq<Tree>) -> Entries {
    Seq::new(items.len(), |i: int| (encode(items[i]), items[i]))
}

/// All but the last of elements without a shared key share no key.
pub proof fn lemma_distinct_drop_last(items: Seq<Tree>)
    requires
        distinct_keys(items),
        items.len() > 0,
    ensures
        distinct_keys(items.drop_last()),
        forall|i: int|
            0 <= i < items.len() - 1 ==> encode(#[trigger] items.drop_last()[i]) != encode(
                items.last(),
            ),
{
    let before = items.drop_last();
    assert forall|i: int, j: int| 0 <= i < j < before.len() implies encode(
        #[trigger] before[i],
    ) != encode(#[trigger] before[j]) by {
        assert(before[i] == items[i] && before[j] == items[j]);
    }
    assert forall|i: int| 0 <= i < items.len() - 1 implies encode(#[trigger] before[i]) != encode(
        items.last(),
    ) by {
        assert(before[i] == items[i] && items.last() == items[items.len() - 1]);
    }
}

/// Collecting elements without a shared key keeps each where it stands.
pub proof fn lemma_collect_distinct(items: Seq<Tree>)
    requires
        distinct_keys(items),
    ensures
        collect(items) == under_keys(items),
        entry_values(collect(items)) == items,
    decreases items.len(),
{
    if items.len() > 0 {
        let before = items.drop_last();
        let x = items.last();
        lemma_distinct_drop_last(items);
        lemma_collect_distinct(before);
        if has_key(collect(before), encode(x)) {
            let i = choose|i: int|
                0 <= i < collect(before).len() && (#[trigger] collect(before)[i]).0 == encode(x);
            assert(encode(before[i]) == encode(x));
        }
        assert(collect(items) =~= under_keys(items));
    }
    assert(entry_values(under_keys(items)) =~= items);
}

/// What a filter keeps of elements without a shared key shares no key.
pub proof fn lemma_filter_distinct(items: Seq<Tree>, pred: spec_fn(Tree) -> bool)
    requires
        distinct_keys(items),
    ensures
        distinct_keys(items.filter(pred)),
    decreases items.len(),
{
    reveal(Seq::filter);
    if items.len() > 0 {
        let before = items.drop_last();
        let x = items.last();
        let kept = before.filter(pred);
        lemma_distinct_drop_last(items);
        lemma_filter_distinct(before, pred);
        if pred(x) {
            let all = items.filter(pred);
            assert(all == kept.push(x));
            assert forall|i: int, j: int| 0 <= i < j < all.len() implies encode(
                #[trigger] all[i],
            ) != encode(#[trigger] all[j]) by {
                if j < kept.len() {
                    assert(all[i] == kept[i] && all[j] == kept[j]);
                } else {
                    assert(kept.contains(kept[i]));
                    before.lemma_filter_contains_rev(pred, kept[i]);
                    let a = choose|a: int| 0 <= a < before.len() && before[a] == kept[i];
                    assert(encode(before[a]) != encode(x));
                }
            }
        }
    }
}

/// Extending a keyed map by elements without a shared key appends, in order,
/// those whose key the map has not.
pub proof fn lemma_extend_distinct(entries: Entries, items: Seq<Tree>)
    requires
        keyed(entries),
        distinct_keys(items),
    ensures
        extend(entries, items) == entries + under_keys(items.filter(keyed_out(entries))),
    decreases items.len(),
{
    let out = keyed_out(entries);
    if items.len() == 0 {
        reveal(Seq::filter);
        assert(extend(entries, items) =~= entries + under_keys(items.filter(out)));
    } else {
        let before = items.drop_last();
        let x = items.last();
        let kept = before.filter(out);
        let mid = extend(entries, before);
        lemma_distinct_drop_last(items);
        lemma_extend_distinct(entries, before);
        assert(items =~= before.push(x));
        before.lemma_filter_push(x, out);
        assert(has_key(mid, encode(x)) == has_key(entries, encode(x))) by {
            if has_key(mid, encode(x)) && !has_key(entries, encode(x)) {
                let i = choose|i: int| 0 <= i < mid.len() && (#[trigger] mid[i]).0 == encode(x);
                if i < entries.len() {
                    assert(mid[i] == entries[i]);
                } else {
                    let j = i - entries.len();
                    assert(mid[i] == under_keys(kept)[j]);
                    assert(kept.contains(kept[j]));
                    before.lemma_filter_contains_rev(out, kept[j]);
                    let a = choose|a: int| 0 <= a < before.len() && before[a] == kept[j];
                    assert(encode(before[a]) != encode(x));
                }
            }
            if has_key(entries, encode(x)) {
                let i = choose|i: int|
                    0 <= i < entries.len() && (#[trigger] entries[i]).0 == encode(x);
                assert(mid[i] == entries[i]);
            }
        }
        assert(extend(entries, items) =~= entries + under_keys(items.filter(out)));
    }
}

} // verus!
