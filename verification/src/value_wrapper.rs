//! The container that carries one value, with a leaf marker, from one stage
//! of a filter to the next.
use vstd::prelude::*;
use indexmap::IndexMap;
use crate::combine::{
    collect, elements, except_list, extend, intersect_list, keyed_in, keyed_out,
    lemma_collect_push, lemma_extend_push, union_list,
};
use crate::comparator::{CmpType, PrivCmp};
use crate::key_encoder::uuid;
use crate::filter::{compare, keeps, member_passes, take_tree};
use crate::ordered_map::{map_contains_key, map_entries, map_insert, map_new, map_take_values};
use crate::term::{ExprTerm, TermContext, ValueFilterKey, member_name};
use crate::value::{
    Tree, Value, empty, lemma_array_view, lemma_object_view, lemma_take_all, lemma_trees_push,
    lemma_trees_take, normalize, trees,
};

verus! {

/// One value and a marker that says whether it stands for the leaves of a
/// traversal. An operation that consumes a container moves the value out and
/// leaves null behind.
#[derive(Debug)]
pub struct ValueWrapper {
    val: Value,
    leaves: bool,
}

impl ValueWrapper {
    /// The value that the container holds.
    pub closed spec fn value(&self) -> Value {
        self.val
    }

    /// The leaf marker of the container.
    pub closed spec fn leaves(&self) -> bool {
        self.leaves
    }

    /// A container for a value, marked as leaves or not.
    pub fn new(val: Value, leaves: bool) -> (w: Self)
        ensures
            w.value() == val,
            w.leaves() == leaves,
    {
        ValueWrapper { val, leaves }
    }

    /// Combines two filtered containers under an operator. `Eq` gives their
    /// intersection and `Ne` their difference, each without a key, and
    /// consumes both. No order is defined between containers: every other
    /// operator gives the constant `false` and leaves both as they were.
    pub fn cmp(&mut self, other: &mut ValueWrapper, cmp_type: CmpType) -> (r: TermContext)
        ensures
            match cmp_type {
                CmpType::Eq => {
                    &&& r matches TermContext::Json(None, w)
                    &&& w.value()@ == Tree::Array(
                        intersect_list(old(self).value()@, old(other).value()@),
                    )
                    &&& !w.leaves()
                },
                CmpType::Ne => {
                    &&& r matches TermContext::Json(None, w)
                    &&& w.value()@ == Tree::Array(
                        except_list(old(self).value()@, old(other).value()@),
                    )
                    &&& !w.leaves()
                },
                _ => r == TermContext::Constants(ExprTerm::Bool(false)),
            },
            match cmp_type {
                CmpType::Eq | CmpType::Ne => {
                    &&& final(self).value() == Value::Null
                    &&& final(other).value() == Value::Null
                },
                _ => {
                    &&& final(self).value() == old(self).value()
                    &&& final(other).value() == old(other).value()
                },
            },
            final(self).leaves() == old(self).leaves(),
            final(other).leaves() == old(other).leaves(),
    {
        match cmp_type {
            CmpType::Eq => TermContext::Json(None, self.intersect(other)),
            CmpType::Ne => TermContext::Json(None, self.except(other)),
            CmpType::Gt | CmpType::Ge | CmpType::Lt | CmpType::Le => TermContext::Constants(
                ExprTerm::Bool(false),
            ),
        }
    }

    /// Compares one value with a literal: `default` where their kinds differ.
    fn cmp_with_term<F: PrivCmp>(val: &Value, et: &ExprTerm, cmp_fn: &F, default: bool) -> (r: bool)
        ensures
            r == compare(val@, et@, *cmp_fn, default),
    {
        match val {
            Value::Bool(v1) => match et {
                ExprTerm::Bool(v2) => cmp_fn.cmp_bool(v1, v2),
                _ => default,
            },
            Value::Number(v1) => match v1.as_double() {
                Some(v1) => match et {
                    ExprTerm::Number(v2) => cmp_fn.cmp_f64(&v1, v2),
                    _ => default,
                },
                _ => default,
            },
            Value::String(v1) => match et {
                ExprTerm::String(v2) => cmp_fn.cmp_string(v1, v2),
                _ => default,
            },
            _ => default,
        }
    }

    /// Whether `v` is an object whose member `key` passes the comparison.
    fn filter_with_object<F: PrivCmp>(v: &Value, key: &String, et: &ExprTerm, cmp_fn: &F) -> (r:
        bool)
        ensures
            r == member_passes(v@, key@, et@, *cmp_fn),
    {
        match v.get(key) {
            Some(vv) => Self::cmp_with_term(vv, et, cmp_fn, false),
            _ => false,
        }
    }

    /// Filters an array by the member `key` of its elements and consumes the
    /// container; leaves any other value where it is.
    fn take_object_in_array<F: PrivCmp>(&mut self, key: &String, et: &ExprTerm, cmp_fn: &F) -> (r:
        Option<Self>)
        ensures
            final(self).leaves() == old(self).leaves(),
            match r {
                Some(w) => {
                    &&& old(self).value()@ is Array
                    &&& w.value()@ == take_tree(old(self).value()@, Some(key@), et@, *cmp_fn)
                    &&& !w.leaves()
                    &&& final(self).value() == Value::Null
                },
                None => !(old(self).value()@ is Array) && final(self).value() == old(self).value(),
            },
    {
        match self.val.take() {
            Value::Array(vec) => {
                proof {
                    lemma_array_view(vec);
                }
                let ghost all = trees(vec@);
                let ghost pred = keeps(Some(key@), et@, *cmp_fn);
                let mut ret: Vec<Value> = Vec::new();
                assert(all.take(0).filter(pred) =~= trees(ret@)) by {
                    reveal(Seq::filter);
                }
                for v in it: vec
                    invariant
                        all == trees(it.seq()),
                        pred == keeps(Some(key@), et@, *cmp_fn),
                        trees(ret@) == all.take(it.index()).filter(pred),
                {
                    proof {
                        lemma_trees_take(it.seq(), it.index());
                        all.take(it.index()).lemma_filter_push(v@, pred);
                        lemma_trees_push(ret@, v);
                    }
                    if Self::filter_with_object(&v, key, et, cmp_fn) {
                        ret.push(v);
                    }
                }
                proof {
                    lemma_take_all(all);
                    lemma_array_view(ret);
                }
                Some(ValueWrapper::new(Value::Array(ret), false))
            },
            other => {
                self.val = other;
                None
            },
        }
    }

    /// Filters by a member where the key names one and the value is an array.
    fn take_with_key_type<F: PrivCmp>(
        &mut self,
        key: &Option<ValueFilterKey>,
        et: &ExprTerm,
        cmp_fn: &F,
    ) -> (r: Option<Self>)
        ensures
            final(self).leaves() == old(self).leaves(),
            match r {
                Some(w) => {
                    &&& old(self).value()@ is Array
                    &&& member_name(*key) is Some
                    &&& w.value()@ == take_tree(old(self).value()@, member_name(*key), et@, *cmp_fn)
                    &&& !w.leaves()
                    &&& final(self).value() == Value::Null
                },
                None => {
                    &&& !(old(self).value()@ is Array && member_name(*key) is Some)
                    &&& final(self).value() == old(self).value()
                },
            },
    {
        match key {
            Some(ValueFilterKey::String(key)) => self.take_object_in_array(key, et, cmp_fn),
            _ => None,
        }
    }

    /// Applies one predicate and hands the matches on in a new container that
    /// is no leaf. Of an array the result keeps, in order, the elements that
    /// pass: by their member of the name that `key` gives, where it gives
    /// one, else by themselves. An element that is no object, or has no such
    /// member, does not pass by a member. Any other value is compared itself
    /// and stays if it passes; else the result holds null. The container is
    /// consumed: it holds null afterwards.
    pub fn take_with<F: PrivCmp>(&mut self, key: &Option<ValueFilterKey>, et: &ExprTerm, cmp: F) -> (w:
        Self)
        ensures
            w.value()@ == take_tree(old(self).value()@, member_name(*key), et@, cmp),
            !w.leaves(),
            final(self).value() == Value::Null,
            final(self).leaves() == old(self).leaves(),
    {
        match self.take_with_key_type(key, et, &cmp) {
            Some(vw) => vw,
            _ => {
                match self.val.take() {
                    Value::Array(vec) => {
                        proof {
                            lemma_array_view(vec);
                        }
                        let ghost all = trees(vec@);
                        let ghost pred = keeps(None, et@, cmp);
                        let mut ret: Vec<Value> = Vec::new();
                        assert(all.take(0).filter(pred) =~= trees(ret@)) by {
                            reveal(Seq::filter);
                        }
                        for v in it: vec
                            invariant
                                all == trees(it.seq()),
                                pred == keeps(None, et@, cmp),
                                trees(ret@) == all.take(it.index()).filter(pred),
                        {
                            proof {
                                lemma_trees_take(it.seq(), it.index());
                                all.take(it.index()).lemma_filter_push(v@, pred);
                                lemma_trees_push(ret@, v);
                            }
                            if Self::cmp_with_term(&v, et, &cmp, false) {
                                ret.push(v);
                            }
                        }
                        proof {
                            lemma_take_all(all);
                            lemma_array_view(ret);
                        }
                        ValueWrapper::new(Value::Array(ret), false)
                    },
                    other => {
                        if Self::cmp_with_term(&other, et, &cmp, false) {
                            ValueWrapper::new(other, false)
                        } else {
                            ValueWrapper::new(Value::Null, false)
                        }
                    },
                }
            },
        }
    }

    /// Installs a value. The empty array and the empty object are installed
    /// as null.
    pub fn replace(&mut self, val: Value)
        ensures
            final(self).value() == (if empty(val@) {
                Value::Null
            } else {
                val
            }),
            final(self).leaves() == old(self).leaves(),
    {
        let is_null = match &val {
            Value::Array(v) => {
                proof {
                    lemma_array_view(*v);
                }
                v.len() == 0
            },
            Value::Object(m) => {
                proof {
                    lemma_object_view(*m);
                }
                m.len() == 0
            },
            _ => val.is_null(),
        };
        self.val = if is_null {
            Value::Null
        } else {
            val
        };
    }

    /// The leaf marker.
    pub fn is_leaves(&self) -> (r: bool)
        ensures
            r == self.leaves(),
    {
        self.leaves
    }

    /// The value, to read.
    pub fn get_val(&self) -> (v: &Value)
        ensures
            *v == self.value(),
    {
        &self.val
    }

    /// The value, to change in place: what is written through the reference
    /// is what the container holds afterwards.
    pub fn get_val_mut(&mut self) -> (v: &mut Value)
        ensures
            *v == old(self).value(),
            final(self).value() == *final(v),
            final(self).leaves() == old(self).leaves(),
    {
        &mut self.val
    }

    /// A copy of the value.
    pub fn clone_val(&self) -> (v: Value)
        ensures
            v@ == self.value()@,
    {
        self.val.clone()
    }

    /// Whether the value is an array.
    pub fn is_array(&self) -> (r: bool)
        ensures
            r == (self.value()@ is Array),
    {
        self.val.is_array()
    }

    /// The elements that a value is scanned as, moved out of it.
    fn into_elements(val: Value) -> (items: Vec<Value>)
        ensures
            trees(items@) == elements(val@),
    {
        match val {
            Value::Array(items) => {
                proof {
                    lemma_array_view(items);
                }
                items
            },
            other => {
                let mut items: Vec<Value> = Vec::new();
                proof {
                    lemma_trees_push(items@, other);
                    assert(trees(items@).push(other@) =~= seq![other@]);
                }
                items.push(other);
                items
            },
        }
    }

    /// Moves the elements into a map, each under its key, and consumes the
    /// container.
    fn into_map(&mut self) -> (map: IndexMap<String, Value>)
        ensures
            map_entries(map) == collect(elements(old(self).value()@)),
            final(self).value() == Value::Null,
            final(self).leaves() == old(self).leaves(),
    {
        let mut map = map_new();
        let items = Self::into_elements(self.val.take());
        let ghost all = trees(items@);
        for v in it: items
            invariant
                all == trees(it.seq()),
                map_entries(map) == collect(all.take(it.index())),
        {
            proof {
                lemma_trees_take(it.seq(), it.index());
                lemma_collect_push(all.take(it.index()), v@);
            }
            let key = uuid(&v);
            map_insert(&mut map, key, v);
        }
        proof {
            lemma_take_all(all);
        }
        map
    }

    /// The difference: the elements of `other` whose key is not a key of an
    /// element of this container, in the order of `other`, each key once.
    /// The result is an array in a new container that is no leaf. Both
    /// containers are consumed: they hold null afterwards.
    pub fn except(&mut self, other: &mut Self) -> (w: Self)
        ensures
            w.value()@ == Tree::Array(except_list(old(self).value()@, old(other).value()@)),
            !w.leaves(),
            final(self).value() == Value::Null,
            final(self).leaves() == old(self).leaves(),
            final(other).value() == Value::Null,
            final(other).leaves() == old(other).leaves(),
    {
        let map = self.into_map();
        let mut ret = map_new();
        let items = Self::into_elements(other.val.take());
        let ghost all = trees(items@);
        let ghost pred = keyed_out(map_entries(map));
        assert(all.take(0).filter(pred) =~= Seq::<Tree>::empty()) by {
            reveal(Seq::filter);
        }
        for v in it: items
            invariant
                all == trees(it.seq()),
                pred == keyed_out(map_entries(map)),
                map_entries(ret) == collect(all.take(it.index()).filter(pred)),
        {
            proof {
                lemma_trees_take(it.seq(), it.index());
                all.take(it.index()).lemma_filter_push(v@, pred);
                lemma_collect_push(all.take(it.index()).filter(pred), v@);
            }
            let key = uuid(&v);
            if !map_contains_key(&map, &key) {
                map_insert(&mut ret, key, v);
            }
        }
        let list = map_take_values(ret);
        proof {
            lemma_take_all(all);
            lemma_array_view(list);
        }
        ValueWrapper::new(Value::Array(list), false)
    }

    /// The intersection: the elements of `other` whose key is a key of an
    /// element of this container, in the order of `other`, each key once.
    /// The result is an array in a new container that is no leaf. Both
    /// containers are consumed: they hold null afterwards.
    pub fn intersect(&mut self, other: &mut Self) -> (w: Self)
        ensures
            w.value()@ == Tree::Array(intersect_list(old(self).value()@, old(other).value()@)),
            !w.leaves(),
            final(self).value() == Value::Null,
            final(self).leaves() == old(self).leaves(),
            final(other).value() == Value::Null,
            final(other).leaves() == old(other).leaves(),
    {
        let map = self.into_map();
        let mut ret = map_new();
        let items = Self::into_elements(other.val.take());
        let ghost all = trees(items@);
        let ghost pred = keyed_in(map_entries(map));
        assert(all.take(0).filter(pred) =~= Seq::<Tree>::empty()) by {
            reveal(Seq::filter);
        }
        for v in it: items
            invariant
                all == trees(it.seq()),
                pred == keyed_in(map_entries(map)),
                map_entries(ret) == collect(all.take(it.index()).filter(pred)),
        {
            proof {
                lemma_trees_take(it.seq(), it.index());
                all.take(it.index()).lemma_filter_push(v@, pred);
                lemma_collect_push(all.take(it.index()).filter(pred), v@);
            }
            let key = uuid(&v);
            if map_contains_key(&map, &key) {
                map_insert(&mut ret, key, v);
            }
        }
        let list = map_take_values(ret);
        proof {
            lemma_take_all(all);
            lemma_array_view(list);
        }
        ValueWrapper::new(Value::Array(list), false)
    }

    /// The union: the elements of this container, each key once, then the
    /// elements of `other` whose key has not come before, in the order of
    /// `other`. The result is an array, or null where there is no element, in
    /// a new container that is no leaf. Both containers are consumed: they
    /// hold null afterwards.
    pub fn union(&mut self, other: &mut Self) -> (w: Self)
        ensures
            w.value()@ == normalize(
                Tree::Array(union_list(old(self).value()@, old(other).value()@)),
            ),
            !w.leaves(),
            final(self).value() == Value::Null,
            final(self).leaves() == old(self).leaves(),
            final(other).value() == Value::Null,
            final(other).leaves() == old(other).leaves(),
    {
        let mut map = self.into_map();
        let items = Self::into_elements(other.val.take());
        let ghost all = trees(items@);
        let ghost base = map_entries(map);
        for v in it: items
            invariant
                all == trees(it.seq()),
                map_entries(map) == extend(base, all.take(it.index())),
        {
            proof {
                lemma_trees_take(it.seq(), it.index());
                lemma_extend_push(base, all.take(it.index()), v@);
            }
            let key = uuid(&v);
            if !map_contains_key(&map, &key) {
                map_insert(&mut map, key, v);
            }
        }
        let mut vw = ValueWrapper::new(Value::Null, false);
        let list = map_take_values(map);
        proof {
            lemma_take_all(all);
            lemma_array_view(list);
        }
        vw.replace(Value::Array(list));
        vw
    }
}

} // verus!
