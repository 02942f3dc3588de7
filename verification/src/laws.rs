//! Laws of the key encoder and of the set operations, proved of the
//! functions that the contracts of the container speak in.
use vstd::prelude::*;
use vstd::set_lib::lemma_len_subset;
use crate::combine::{
    collect, distinct_keys, elements, except_list, extend, intersect_list, keyed_in, keyed_out,
    keys_tell_apart, lemma_collect, lemma_collect_distinct, lemma_extend, lemma_extend_distinct,
    lemma_filter_distinct, under_keys, union_list,
};
use crate::key_encoder::encode;
use crate::ordered_map::{Entries, entry_values, has_key};
use crate::value::{Tree, Value};

verus! {

/// The key is a function of the structure of a value: two values that are
/// the same tree have the same key.
pub proof fn key_follows_structure(a: Value, b: Value)
    requires
        a@ == b@,
    ensures
        encode(a@) == encode(b@),
{
}

/// Whether a value is among the values of a map, given where it stands.
proof fn lemma_value_at(entries: Entries, i: int)
    requires
        0 <= i < entries.len(),
    ensures
        entry_values(entries).contains(entries[i].1),
{
    assert(entry_values(entries)[i] == entries[i].1);
}

/// Collecting elements that their keys tell apart loses none of them and
/// adds none.
proof fn lemma_collect_members(items: Seq<Tree>, x: Tree)
    requires
        keys_tell_apart(items),
    ensures
        entry_values(collect(items)).contains(x) <==> items.contains(x),
{
    lemma_collect(items);
    let entries = collect(items);
    if items.contains(x) {
        let j = choose|j: int| 0 <= j < items.len() && items[j] == x;
        assert(has_key(entries, encode(items[j])));
        let i = choose|i: int| 0 <= i < entries.len() && (#[trigger] entries[i]).0 == encode(x);
        assert(items.contains(entries[i].1));
        let k = choose|k: int| 0 <= k < items.len() && items[k] == entries[i].1;
        assert(encode(items[k]) == encode(items[j]));
        lemma_value_at(entries, i);
    }
    if entry_values(entries).contains(x) {
        let i = choose|i: int| 0 <= i < entry_values(entries).len() && entry_values(entries)[i] == x;
        assert(items.contains(entries[i].1));
    }
}

/// What a filter keeps of elements that their keys tell apart, their keys
/// tell apart.
proof fn lemma_filter_tells_apart(items: Seq<Tree>, pred: spec_fn(Tree) -> bool)
    requires
        keys_tell_apart(items),
    ensures
        keys_tell_apart(items.filter(pred)),
{
    let kept = items.filter(pred);
    assert forall|i: int, j: int|
        0 <= i < kept.len() && 0 <= j < kept.len() && encode(#[trigger] kept[i]) == encode(
            #[trigger] kept[j],
        ) implies kept[i] == kept[j] by {
        assert(kept.contains(kept[i]));
        assert(kept.contains(kept[j]));
        items.lemma_filter_contains_rev(pred, kept[i]);
        items.lemma_filter_contains_rev(pred, kept[j]);
        let a = choose|a: int| 0 <= a < items.len() && items[a] == kept[i];
        let b = choose|b: int| 0 <= b < items.len() && items[b] == kept[j];
        assert(encode(items[a]) == encode(items[b]));
    }
}

/// What a filter keeps: the elements that pass.
proof fn lemma_filter_members(items: Seq<Tree>, pred: spec_fn(Tree) -> bool, x: Tree)
    ensures
        items.filter(pred).contains(x) <==> items.contains(x) && pred(x),
{
    let kept = items.filter(pred);
    if kept.contains(x) {
        items.lemma_filter_contains_rev(pred, x);
        let i = choose|i: int| 0 <= i < kept.len() && kept[i] == x;
        items.lemma_filter_pred(pred, i);
    }
    if items.contains(x) && pred(x) {
        let j = choose|j: int| 0 <= j < items.len() && items[j] == x;
        items.lemma_filter_contains(pred, j);
    }
}

/// The partition law. Where the keys tell the elements of `other` apart,
/// each element of `other` is in exactly one of the intersection and the
/// difference of `this` and `other`: in the intersection if its key is a key
/// of `this`, else in the difference.
pub proof fn partition_law(this: Tree, other: Tree, x: Tree)
    requires
        keys_tell_apart(elements(other)),
        elements(other).contains(x),
    ensures
        intersect_list(this, other).contains(x) != except_list(this, other).contains(x),
        intersect_list(this, other).contains(x) == has_key(collect(elements(this)), encode(x)),
{
    let keys = collect(elements(this));
    let items = elements(other);
    lemma_filter_tells_apart(items, keyed_in(keys));
    lemma_filter_tells_apart(items, keyed_out(keys));
    lemma_collect_members(items.filter(keyed_in(keys)), x);
    lemma_collect_members(items.filter(keyed_out(keys)), x);
    lemma_filter_members(items, keyed_in(keys), x);
    lemma_filter_members(items, keyed_out(keys), x);
}

/// The union holds the key of every element of both operands.
pub proof fn union_holds_every_key(this: Tree, other: Tree)
    ensures
        forall|x: Tree|
            elements(this).contains(x) || elements(other).contains(x) ==> exists|y: Tree|
                #[trigger] union_list(this, other).contains(y) && encode(y) == encode(x),
{
    let base = collect(elements(this));
    let all = extend(base, elements(other));
    lemma_collect(elements(this));
    lemma_extend(base, elements(other));
    assert forall|x: Tree|
        elements(this).contains(x) || elements(other).contains(x) implies exists|y: Tree|
        #[trigger] union_list(this, other).contains(y) && encode(y) == encode(x) by {
        let k = encode(x);
        if elements(this).contains(x) {
            let j = choose|j: int| 0 <= j < elements(this).len() && elements(this)[j] == x;
            assert(has_key(base, encode(elements(this)[j])));
            let i = choose|i: int| 0 <= i < base.len() && (#[trigger] base[i]).0 == k;
            assert(all[i] == base[i]);
        } else {
            let j = choose|j: int| 0 <= j < elements(other).len() && elements(other)[j] == x;
            assert(has_key(all, encode(elements(other)[j])));
        }
        let i = choose|i: int| 0 <= i < all.len() && (#[trigger] all[i]).0 == k;
        lemma_value_at(all, i);
        assert(union_list(this, other).contains(all[i].1) && encode(all[i].1) == k);
    }
}

/// Every element of the intersection, and of the difference, is an element
/// of `other`.
pub proof fn parts_come_from_other(this: Tree, other: Tree, x: Tree)
    requires
        intersect_list(this, other).contains(x) || except_list(this, other).contains(x),
    ensures
        elements(other).contains(x),
{
    let keys = collect(elements(this));
    let items = elements(other);
    let kept = if intersect_list(this, other).contains(x) {
        items.filter(keyed_in(keys))
    } else {
        items.filter(keyed_out(keys))
    };
    lemma_collect(kept);
    let i = choose|i: int|
        0 <= i < entry_values(collect(kept)).len() && entry_values(collect(kept))[i] == x;
    assert(kept.contains(collect(kept)[i].1));
    if intersect_list(this, other).contains(x) {
        items.lemma_filter_contains_rev(keyed_in(keys), x);
    } else {
        items.lemma_filter_contains_rev(keyed_out(keys), x);
    }
}

/// Where the keys tell the elements of both operands apart, every element of
/// either is an element of the union.
pub proof fn union_holds_every_element(this: Tree, other: Tree, x: Tree)
    requires
        keys_tell_apart(elements(this) + elements(other)),
        elements(this).contains(x) || elements(other).contains(x),
    ensures
        union_list(this, other).contains(x),
{
    let ours = elements(this);
    let theirs = elements(other);
    let both = ours + theirs;
    let base = collect(ours);
    let all = extend(base, theirs);
    lemma_collect(ours);
    lemma_extend(base, theirs);
    union_holds_every_key(this, other);
    let y = choose|y: Tree| #[trigger] union_list(this, other).contains(y) && encode(y) == encode(x);
    let i = choose|i: int| 0 <= i < entry_values(all).len() && entry_values(all)[i] == y;
    let a = if i < base.len() {
        assert(all[i] == base[i]);
        assert(ours.contains(base[i].1));
        choose|a: int| 0 <= a < ours.len() && ours[a] == y
    } else {
        assert(theirs.contains(all[i].1));
        ours.len() + choose|a: int| 0 <= a < theirs.len() && theirs[a] == y
    };
    assert(0 <= a < both.len() && both[a] == y);
    let b = if ours.contains(x) {
        choose|b: int| 0 <= b < ours.len() && ours[b] == x
    } else {
        ours.len() + choose|b: int| 0 <= b < theirs.len() && theirs[b] == x
    };
    assert(0 <= b < both.len() && both[b] == x);
    assert(encode(both[a]) == encode(both[b]));
}

/// The order of the intersection and of the difference. Where no two
/// elements of `other` have one key, the intersection is the elements of
/// `other` whose key is a key of `this`, and the difference is the others,
/// each in the order of `other`.
pub proof fn parts_keep_order(this: Tree, other: Tree)
    requires
        distinct_keys(elements(other)),
    ensures
        intersect_list(this, other) == elements(other).filter(keyed_in(collect(elements(this)))),
        except_list(this, other) == elements(other).filter(keyed_out(collect(elements(this)))),
{
    let keys = collect(elements(this));
    lemma_filter_distinct(elements(other), keyed_in(keys));
    lemma_filter_distinct(elements(other), keyed_out(keys));
    lemma_collect_distinct(elements(other).filter(keyed_in(keys)));
    lemma_collect_distinct(elements(other).filter(keyed_out(keys)));
}

/// The order of the union. Where no two elements of `this` have one key,
/// and no two of `other`, the union is the elements of `this` in their
/// order, then the elements of `other` whose key is no key of `this`, in the
/// order of `other`.
pub proof fn union_keeps_order(this: Tree, other: Tree)
    requires
        distinct_keys(elements(this)),
        distinct_keys(elements(other)),
    ensures
        union_list(this, other) == elements(this) + elements(other).filter(
            keyed_out(collect(elements(this))),
        ),
{
    let base = collect(elements(this));
    let fresh = elements(other).filter(keyed_out(base));
    lemma_collect(elements(this));
    lemma_collect_distinct(elements(this));
    lemma_extend_distinct(base, elements(other));
    assert(entry_values(base + under_keys(fresh)) =~= elements(this) + fresh);
}

/// The keys of elements, in order.
spec fn item_keys(items: Seq<Tree>) -> Seq<Seq<char>> {
    Seq::new(items.len(), |j: int| encode(items[j]))
}

/// The keys of entries, in order.
spec fn entry_keys(entries: Entries) -> Seq<Seq<char>> {
    Seq::new(entries.len(), |i: int| entries[i].0)
}

/// The size bound of the union. The union has at most as many elements as
/// both operands together. It has at least as many as `this` where no two
/// elements of `this` have one key, and at least as many as `other` where no
/// two elements of `other` have one key. An operand that is no array counts
/// as one element.
pub proof fn union_size_bound(this: Tree, other: Tree)
    ensures
        union_list(this, other).len() <= elements(this).len() + elements(other).len(),
        distinct_keys(elements(this)) ==> elements(this).len() <= union_list(this, other).len(),
        distinct_keys(elements(other)) ==> elements(other).len() <= union_list(this, other).len(),
{
    let base = collect(elements(this));
    let items = elements(other);
    let all = extend(base, items);
    lemma_collect(elements(this));
    lemma_extend(base, items);
    if distinct_keys(items) {
        let theirs = item_keys(items);
        let ours = entry_keys(all);
        assert(theirs.no_duplicates());
        assert(ours.no_duplicates());
        theirs.unique_seq_to_set();
        ours.unique_seq_to_set();
        assert forall|k: Seq<char>| theirs.to_set().contains(k) implies ours.to_set().contains(
            k,
        ) by {
            let j = choose|j: int| 0 <= j < theirs.len() && theirs[j] == k;
            assert(has_key(all, encode(items[j])));
            let i = choose|i: int| 0 <= i < all.len() && (#[trigger] all[i]).0 == k;
            assert(ours[i] == k);
        }
        lemma_len_subset(theirs.to_set(), ours.to_set());
    }
}

} // verus!
