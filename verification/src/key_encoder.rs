//! The canonical key of a value: the text by which the set operations tell
//! values apart.
//!
//! The key follows the positions in a value. Two arrays with the same
//! elements in another order, or two objects with the same members inserted
//! in another order, have different keys; values of different kinds may share
//! one (the string `null` and the null value do).
use vstd::prelude::*;
use vstd::string::StringExecFns;
use crate::text::{decimal_string, decimal_text};
use crate::value::{Tree, Value, lemma_array_view, lemma_object_view, member_trees, trees};

verus! {

/// The key of the null value.
pub open spec fn null_text() -> Seq<char> {
    seq!['n', 'u', 'l', 'l']
}

/// The key of a boolean.
pub open spec fn bool_text(b: bool) -> Seq<char> {
    if b {
        seq!['t', 'r', 'u', 'e']
    } else {
        seq!['f', 'a', 'l', 's', 'e']
    }
}

/// The key of a value: for a scalar its text, for an array each index
/// followed by the key of the element at it, for an object each member's
/// name followed by the key of its value.
pub open spec fn encode(t: Tree) -> Seq<char>
    decreases t, 0nat,
{
    match t {
        Tree::Null => null_text(),
        Tree::Bool(b) => bool_text(b),
        Tree::Number(text, _) => text,
        Tree::String(s) => s,
        Tree::Array(items) => encode_items(items, items.len()),
        Tree::Object(members) => encode_members(members, members.len()),
    }
}

/// The part of an array's key that its first `n` elements give.
pub open spec fn encode_items(items: Seq<Tree>, n: nat) -> Seq<char>
    decreases items, n,
{
    if n == 0 || n > items.len() {
        Seq::empty()
    } else {
        encode_items(items, (n - 1) as nat) + decimal_text((n - 1) as nat) + encode(
            items[n - 1],
        )
    }
}

/// The part of an object's key that its first `n` members give.
pub open spec fn encode_members(members: Seq<(Seq<char>, Tree)>, n: nat) -> Seq<char>
    decreases members, n,
{
    if n == 0 || n > members.len() {
        Seq::empty()
    } else {
        encode_members(members, (n - 1) as nat) + members[n - 1].0 + encode(members[n - 1].1)
    }
}

/// The key of a value.
pub fn uuid(v: &Value) -> (key: String)
    ensures
        key@ == encode(v@),
    decreases v,
{
    match v {
        Value::Null => {
            proof {
                reveal_strlit("null");
            }
            let key = String::from_str("null");
            assert(key@ =~= null_text());
            key
        },
        Value::String(s) => s.clone(),
        Value::Bool(b) => {
            proof {
                reveal_strlit("true");
                reveal_strlit("false");
            }
            let key = if *b {
                String::from_str("true")
            } else {
                String::from_str("false")
            };
            assert(key@ =~= bool_text(*b));
            key
        },
        Value::Number(n) => n.to_text(),
        Value::Array(items) => {
            proof {
                lemma_array_view(*items);
            }
            let ghost all = trees(items@);
            let mut key = String::new();
            let mut i: usize = 0;
            while i < items.len()
                invariant
                    i <= items.len(),
                    all == trees(items@),
                    key@ == encode_items(all, i as nat),
                    decreases_to!(v => items),
                decreases items.len() - i,
            {
                proof {
                    broadcast use vstd::std_specs::vec::axiom_vec_index_decreases;

                    assert(decreases_to!(items => items[i as int]));
                }
                let index = decimal_string(i);
                let element = uuid(&items[i]);
                key.append(index.as_str());
                key.append(element.as_str());
                i = i + 1;
            }
            key
        },
        Value::Object(members) => {
            proof {
                lemma_object_view(*members);
            }
            let ghost all = member_trees(members@);
            let mut key = String::new();
            let mut i: usize = 0;
            while i < members.len()
                invariant
                    i <= members.len(),
                    all == member_trees(members@),
                    key@ == encode_members(all, i as nat),
                    decreases_to!(v => members),
                decreases members.len() - i,
            {
                proof {
                    broadcast use vstd::std_specs::vec::axiom_vec_index_decreases;

                    assert(decreases_to!(members => members[i as int]));
                    assert(decreases_to!(members[i as int] => members[i as int].1));
                }
                let element = uuid(&members[i].1);
                key.append(members[i].0.as_str());
                key.append(element.as_str());
                i = i + 1;
            }
            key
        },
    }
}

} // verus!
