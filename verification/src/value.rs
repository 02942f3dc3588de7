//! The tree of values that filters work on, and its mathematical model.
use vstd::prelude::*;
use crate::double::Double;
use crate::number::Number;

verus! {

/// A JSON value. An array keeps the order of its elements, an object the
/// order in which its members were inserted.
#[derive(Debug, PartialEq)]
pub enum Value {
    Null,
    Bool(bool),
    Number(Number),
    String(String),
    Array(Vec<Value>),
    Object(Vec<(String, Value)>),
}

/// What a [`Value`] is, as a mathematical tree. Of a number it holds what the
/// filters read: the canonical text and the value as a double.
pub enum Tree {
    Null,
    Bool(bool),
    Number(Seq<char>, Option<Double>),
    String(Seq<char>),
    Array(Seq<Tree>),
    Object(Seq<(Seq<char>, Tree)>),
}

impl Value {
    /// The tree that the value stands for.
    pub open spec fn tree(&self) -> Tree
        decreases self,
    {
        match self {
            Value::Null => Tree::Null,
            Value::Bool(b) => Tree::Bool(*b),
            Value::Number(n) => Tree::Number(n.text(), n.double()),
            Value::String(s) => Tree::String(s@),
            Value::Array(items) => Tree::Array(
                Seq::new(
                    items@.len(),
                    |i: int|
                        if 0 <= i < items@.len() {
                            items@[i].tree()
                        } else {
                            Tree::Null
                        },
                ),
            ),
            Value::Object(members) => Tree::Object(
                Seq::new(
                    members@.len(),
                    |i: int|
                        if 0 <= i < members@.len() {
                            (members@[i].0@, members@[i].1.tree())
                        } else {
                            (Seq::empty(), Tree::Null)
                        },
                ),
            ),
        }
    }
}

impl View for Value {
    type V = Tree;

    open spec fn view(&self) -> Tree {
        self.tree()
    }
}

/// The trees of a sequence of values, in order.
pub open spec fn trees(items: Seq<Value>) -> Seq<Tree> {
    Seq::new(items.len(), |i: int| items[i]@)
}

/// The members of an object as pairs of name and tree, in order.
pub open spec fn member_trees(members: Seq<(String, Value)>) -> Seq<(Seq<char>, Tree)> {
    Seq::new(members.len(), |i: int| (members[i].0@, members[i].1@))
}

/// The view of an array is the trees of its elements.
pub proof fn lemma_array_view(items: Vec<Value>)
    ensures
        Value::Array(items)@ == Tree::Array(trees(items@)),
{
    assert(Value::Array(items)@->Array_0 =~= trees(items@));
}

/// The view of an object is the trees of its members.
pub proof fn lemma_object_view(members: Vec<(String, Value)>)
    ensures
        Value::Object(members)@ == Tree::Object(member_trees(members@)),
{
    assert(Value::Object(members)@->Object_0 =~= member_trees(members@));
}

/// The value of the first member called `key`, if there is one.
pub open spec fn member(members: Seq<(Seq<char>, Tree)>, key: Seq<char>) -> Option<Tree>
    decreases members.len(),
{
    if members.len() == 0 {
        None
    } else if members[0].0 == key {
        Some(members[0].1)
    } else {
        member(members.drop_first(), key)
    }
}

/// Whether a value counts as empty: null, the empty array, the empty object.
pub open spec fn empty(t: Tree) -> bool {
    match t {
        Tree::Null => true,
        Tree::Array(items) => items.len() == 0,
        Tree::Object(members) => members.len() == 0,
        _ => false,
    }
}

/// A value with every empty value collapsed to null.
pub open spec fn normalize(t: Tree) -> Tree {
    if empty(t) {
        Tree::Null
    } else {
        t
    }
}

impl Value {
    /// Moves the value out and leaves `Null` in its place.
    pub fn take(&mut self) -> (v: Value)
        ensures
            v == *old(self),
            *final(self) == Value::Null,
    {
        let mut v = Value::Null;
        std::mem::swap(self, &mut v);
        v
    }

    /// Whether the value is `Null`.
    pub fn is_null(&self) -> (r: bool)
        ensures
            r == (self@ is Null),
    {
        match self {
            Value::Null => true,
            _ => false,
        }
    }

    /// Whether the value is an array.
    pub fn is_array(&self) -> (r: bool)
        ensures
            r == (self@ is Array),
    {
        match self {
            Value::Array(_) => true,
            _ => false,
        }
    }

    /// The value of the member called `key`, where the value is an object
    /// that has one.
    pub fn get(&self, key: &String) -> (r: Option<&Value>)
        ensures
            match r {
                Some(v) => self@ is Object && member(self@->Object_0, key@) == Some(v@),
                None => !(self@ is Object) || member(self@->Object_0, key@) is None,
            },
    {
        match self {
            Value::Object(members) => {
                proof {
                    lemma_object_view(*members);
                }
                let ghost all = member_trees(members@);
                let mut i: usize = 0;
                assert(all.skip(0) =~= all);
                while i < members.len()
                    invariant
                        i <= members.len(),
                        all == member_trees(members@),
                        self@ == Tree::Object(all),
                        member(all, key@) == member(all.skip(i as int), key@),
                    decreases members.len() - i,
                {
                    assert(all.skip(i as int).drop_first() =~= all.skip(i as int + 1));
                    assert(all.skip(i as int)[0] == all[i as int]);
                    if members[i].0 == *key {
                        return Some(&members[i].1);
                    }
                    i = i + 1;
                }
                None
            },
            _ => None,
        }
    }
}

impl Clone for Value {
    fn clone(&self) -> (v: Value)
        ensures
            v@ == self@,
        decreases self,
    {
        match self {
            Value::Null => Value::Null,
            Value::Bool(b) => Value::Bool(*b),
            Value::Number(n) => Value::Number(n.clone()),
            Value::String(s) => Value::String(s.clone()),
            Value::Array(items) => {
                let mut out: Vec<Value> = Vec::new();
                let mut i: usize = 0;
                while i < items.len()
                    invariant
                        i <= items.len(),
                        out.len() == i,
                        forall|j: int| 0 <= j < i ==> out[j]@ == items[j]@,
                        decreases_to!(self => items),
                    decreases items.len() - i,
                {
                    proof {
                        broadcast use vstd::std_specs::vec::axiom_vec_index_decreases;

                        assert(decreases_to!(items => items[i as int]));
                    }
                    out.push(items[i].clone());
                    i = i + 1;
                }
                proof {
                    lemma_array_view(out);
                    lemma_array_view(*items);
                    assert(trees(out@) =~= trees(items@));
                }
                Value::Array(out)
            },
            Value::Object(members) => {
                let mut out: Vec<(String, Value)> = Vec::new();
                let mut i: usize = 0;
                while i < members.len()
                    invariant
                        i <= members.len(),
                        out.len() == i,
                        forall|j: int|
                            0 <= j < i ==> out[j].0@ == members[j].0@ && out[j].1@ == members[j].1@,
                        decreases_to!(self => members),
                    decreases members.len() - i,
                {
                    proof {
                        broadcast use vstd::std_specs::vec::axiom_vec_index_decreases;

                        assert(decreases_to!(members => members[i as int]));
                        assert(decreases_to!(members[i as int] => members[i as int].1));
                    }
                    out.push((members[i].0.clone(), members[i].1.clone()));
                    i = i + 1;
                }
                proof {
                    lemma_object_view(out);
                    lemma_object_view(*members);
                    assert(member_trees(out@) =~= member_trees(members@));
                }
                Value::Object(out)
            },
        }
    }
}

/// The trees of a sequence with one more value are those of the sequence with
/// one more tree.
pub proof fn lemma_trees_push(items: Seq<Value>, v: Value)
    ensures
        trees(items.push(v)) == trees(items).push(v@),
{
    assert(trees(items.push(v)) =~= trees(items).push(v@));
}

/// Taking one more element of the trees adds the tree of the next value.
pub proof fn lemma_trees_take(items: Seq<Value>, n: int)
    requires
        0 <= n < items.len(),
    ensures
        trees(items).take(n + 1) == trees(items).take(n).push(items[n]@),
{
    assert(trees(items).take(n + 1) =~= trees(items).take(n).push(items[n]@));
}

/// Taking as many elements as a sequence has gives the sequence.
pub proof fn lemma_take_all<A>(s: Seq<A>)
    ensures
        s.take(s.len() as int) == s,
{
    assert(s.take(s.len() as int) =~= s);
}

} // verus!
