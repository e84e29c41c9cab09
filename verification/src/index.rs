//! A collection of values kept in ascending order of their names, one value per name:
//! the shape of a `BTreeMap<String, V>` whose key is a field of the value.
use vstd::prelude::*;

use crate::text::{
    lemma_text_lt_asymmetric, lemma_text_lt_irreflexive, lemma_text_lt_total,
    lemma_text_lt_transitive, text_eq, text_less, text_lt,
};

verus! {

/// A value that carries its own name.
pub trait Named {
    spec fn name_view(&self) -> Seq<char>;

    fn name_str(&self) -> (r: &str)
        ensures
            r@ == self.name_view(),
    ;
}

/// Names, as `key` gives them, ascend strictly along `items`.
pub open spec fn ascend_by<T>(items: Seq<T>, key: spec_fn(T) -> Seq<char>) -> bool {
    forall|i: int, j: int|
        0 <= i < j < items.len() ==> text_lt(#[trigger] key(items[i]), #[trigger] key(items[j]))
}

/// Some item of `items` is named `name`.
pub open spec fn has_key_by<T>(items: Seq<T>, name: Seq<char>, key: spec_fn(T) -> Seq<char>) -> bool {
    exists|i: int| 0 <= i < items.len() && key(#[trigger] items[i]) == name
}

/// The index of an item named `name` (the only one, where names ascend).
pub open spec fn key_index_by<T>(items: Seq<T>, name: Seq<char>, key: spec_fn(T) -> Seq<char>) -> int {
    choose|i: int| 0 <= i < items.len() && key(#[trigger] items[i]) == name
}

/// How many items of `items` are named before `name`.
pub open spec fn rank_by<T>(items: Seq<T>, name: Seq<char>, key: spec_fn(T) -> Seq<char>) -> nat
    decreases items.len(),
{
    if items.len() == 0 {
        0
    } else {
        rank_by(items.drop_last(), name, key) + if text_lt(key(items.last()), name) {
            1nat
        } else {
            0nat
        }
    }
}

/// `items` with `v` put in its place: replacing the item of the same name, or else
/// after the items named before it.
pub open spec fn inserted_by<T>(items: Seq<T>, v: T, key: spec_fn(T) -> Seq<char>) -> Seq<T> {
    if has_key_by(items, key(v), key) {
        items.update(key_index_by(items, key(v), key), v)
    } else {
        items.insert(rank_by(items, key(v), key) as int, v)
    }
}

/// The item named `name`, if there is one.
pub open spec fn lookup_by<T>(items: Seq<T>, name: Seq<char>, key: spec_fn(T) -> Seq<char>) -> Option<T> {
    if has_key_by(items, name, key) {
        Some(items[key_index_by(items, name, key)])
    } else {
        None
    }
}

/// In ascending items, two items of the same name are one item.
pub proof fn lemma_ascend_unique<T>(items: Seq<T>, key: spec_fn(T) -> Seq<char>, i: int, j: int)
    requires
        ascend_by(items, key),
        0 <= i < items.len(),
        0 <= j < items.len(),
        key(items[i]) == key(items[j]),
    ensures
        i == j,
{
    if i < j {
        assert(text_lt(key(items[i]), key(items[j])));
        lemma_text_lt_irreflexive(key(items[i]));
    } else if j < i {
        assert(text_lt(key(items[j]), key(items[i])));
        lemma_text_lt_irreflexive(key(items[i]));
    }
}

/// In ascending items, the items named before `name` are exactly the first `k`.
pub proof fn lemma_rank_prefix<T>(items: Seq<T>, name: Seq<char>, key: spec_fn(T) -> Seq<char>, k: int)
    requires
        0 <= k <= items.len(),
        forall|i: int| 0 <= i < k ==> text_lt(key(#[trigger] items[i]), name),
        forall|i: int| k <= i < items.len() ==> !text_lt(key(#[trigger] items[i]), name),
    ensures
        rank_by(items, name, key) == k,
    decreases items.len(),
{
    if items.len() > 0 {
        let init = items.drop_last();
        if k == items.len() {
            assert forall|i: int| 0 <= i < k - 1 implies text_lt(key(#[trigger] init[i]), name) by {
                assert(init[i] == items[i]);
            }
            assert(text_lt(key(items[items.len() - 1]), name));
            lemma_rank_prefix(init, name, key, k - 1);
        } else {
            assert forall|i: int| 0 <= i < k implies text_lt(key(#[trigger] init[i]), name) by {
                assert(init[i] == items[i]);
            }
            assert forall|i: int| k <= i < init.len() implies !text_lt(key(#[trigger] init[i]), name) by {
                assert(init[i] == items[i]);
            }
            assert(!text_lt(key(items[items.len() - 1]), name));
            lemma_rank_prefix(init, name, key, k);
        }
    }
}

pub proof fn lemma_rank_bounded<T>(items: Seq<T>, name: Seq<char>, key: spec_fn(T) -> Seq<char>)
    ensures
        rank_by(items, name, key) <= items.len(),
    decreases items.len(),
{
    if items.len() > 0 {
        lemma_rank_bounded(items.drop_last(), name, key);
    }
}

/// Ranks agree on items mapped by a function that keeps names.
pub proof fn lemma_rank_map<T, W>(
    items: Seq<T>,
    name: Seq<char>,
    kt: spec_fn(T) -> Seq<char>,
    f: spec_fn(T) -> W,
    kw: spec_fn(W) -> Seq<char>,
)
    requires
        forall|x: T| #[trigger] kw(f(x)) == kt(x),
    ensures
        rank_by(items.map_values(f), name, kw) == rank_by(items, name, kt),
    decreases items.len(),
{
    if items.len() > 0 {
        assert(items.map_values(f).drop_last() =~= items.drop_last().map_values(f));
        assert(items.map_values(f).last() == f(items.last()));
        lemma_rank_map(items.drop_last(), name, kt, f, kw);
    }
}

/// Putting an item in its place commutes with a map that keeps names.
pub proof fn lemma_inserted_map<T, W>(
    items: Seq<T>,
    v: T,
    kt: spec_fn(T) -> Seq<char>,
    f: spec_fn(T) -> W,
    kw: spec_fn(W) -> Seq<char>,
)
    requires
        ascend_by(items, kt),
        forall|x: T| #[trigger] kw(f(x)) == kt(x),
    ensures
        inserted_by(items, v, kt).map_values(f) == inserted_by(items.map_values(f), f(v), kw),
        ascend_by(items.map_values(f), kw),
{
    let m = items.map_values(f);
    assert(kw(f(v)) == kt(v));
    assert forall|i: int, j: int| 0 <= i < j < m.len() implies text_lt(
        #[trigger] kw(m[i]),
        #[trigger] kw(m[j]),
    ) by {
        assert(kw(m[i]) == kt(items[i]));
        assert(kw(m[j]) == kt(items[j]));
    }
    if has_key_by(items, kt(v), kt) {
        let i = key_index_by(items, kt(v), kt);
        assert(kw(m[i]) == kt(items[i]));
        assert(has_key_by(m, kw(f(v)), kw));
        let j = key_index_by(m, kw(f(v)), kw);
        assert(kw(m[j]) == kt(items[j]));
        lemma_ascend_unique(items, kt, i, j);
        assert(inserted_by(items, v, kt).map_values(f) =~= inserted_by(m, f(v), kw));
    } else {
        assert(!has_key_by(m, kw(f(v)), kw)) by {
            if has_key_by(m, kw(f(v)), kw) {
                let j = key_index_by(m, kw(f(v)), kw);
                assert(kw(m[j]) == kt(items[j]));
            }
        }
        lemma_rank_map(items, kt(v), kt, f, kw);
        let r = rank_by(items, kt(v), kt) as int;
        assert(r <= items.len()) by {
            lemma_rank_bounded(items, kt(v), kt);
        }
        items.insert_ensures(r, v);
        m.insert_ensures(r, f(v));
        assert(inserted_by(items, v, kt).map_values(f) =~= inserted_by(m, f(v), kw));
    }
}

/// Looking a name up commutes with a map that keeps names.
pub proof fn lemma_lookup_map<T, W>(
    items: Seq<T>,
    name: Seq<char>,
    kt: spec_fn(T) -> Seq<char>,
    f: spec_fn(T) -> W,
    kw: spec_fn(W) -> Seq<char>,
)
    requires
        ascend_by(items, kt),
        forall|x: T| #[trigger] kw(f(x)) == kt(x),
    ensures
        lookup_by(items.map_values(f), name, kw) is Some <==> lookup_by(items, name, kt) is Some,
        lookup_by(items, name, kt) matches Some(x) ==> lookup_by(items.map_values(f), name, kw)
            == Some(f(x)),
{
    let m = items.map_values(f);
    if has_key_by(items, name, kt) {
        let i = key_index_by(items, name, kt);
        assert(kw(m[i]) == kt(items[i]));
        assert(has_key_by(m, name, kw));
        let j = key_index_by(m, name, kw);
        assert(kw(m[j]) == kt(items[j]));
        lemma_ascend_unique(items, kt, i, j);
    } else {
        if has_key_by(m, name, kw) {
            let j = key_index_by(m, name, kw);
            assert(kw(m[j]) == kt(items[j]));
        }
    }
}

/// Putting a value in its place keeps the names ascending; looking its name up then gives
/// that value, and looking up any other name gives what it gave before.
pub proof fn lemma_lookup_inserted<T>(items: Seq<T>, v: T, key: spec_fn(T) -> Seq<char>, name: Seq<char>)
    requires
        ascend_by(items, key),
    ensures
        ascend_by(inserted_by(items, v, key), key),
        lookup_by(inserted_by(items, v, key), key(v), key) == Some(v),
        name != key(v) ==> lookup_by(inserted_by(items, v, key), name, key) == lookup_by(
            items,
            name,
            key,
        ),
{
    let out = inserted_by(items, v, key);
    let n = key(v);
    if has_key_by(items, n, key) {
        let i = key_index_by(items, n, key);
        assert(out == items.update(i, v));
        assert forall|a: int, b: int| 0 <= a < b < out.len() implies text_lt(
            #[trigger] key(out[a]),
            #[trigger] key(out[b]),
        ) by {
            assert(key(out[a]) == key(items[a]));
            assert(key(out[b]) == key(items[b]));
        }
        assert(key(out[i]) == n);
        let j = key_index_by(out, n, key);
        lemma_ascend_unique(out, key, i, j);
        if name != n {
            if has_key_by(items, name, key) {
                let p = key_index_by(items, name, key);
                assert(key(out[p]) == name);
                let q = key_index_by(out, name, key);
                assert(key(items[q]) == key(out[q]));
                lemma_ascend_unique(items, key, p, q);
            } else {
                if has_key_by(out, name, key) {
                    let q = key_index_by(out, name, key);
                    assert(key(items[q]) == key(out[q]));
                }
            }
        }
    } else {
        let r = rank_by(items, n, key) as int;
        lemma_rank_bounded(items, n, key);
        assert(out == items.insert(r, v));
        items.insert_ensures(r, v);
        assert forall|k: int| 0 <= k < items.len() implies (text_lt(key(#[trigger] items[k]), n)
            <==> k < r) by {
            lemma_rank_split(items, n, key, k);
        }
        assert forall|a: int, b: int| 0 <= a < b < out.len() implies text_lt(
            #[trigger] key(out[a]),
            #[trigger] key(out[b]),
        ) by {
            if b < r {
                assert(out[a] == items[a] && out[b] == items[b]);
            } else if b == r {
                assert(out[a] == items[a]);
            } else if a < r {
                assert(out[a] == items[a] && out[b] == items[b - 1]);
                assert(key(items[b - 1]) != n);
                lemma_text_lt_total(key(items[b - 1]), n);
                lemma_text_lt_transitive(key(items[a]), n, key(items[b - 1]));
            } else if a == r {
                assert(out[b] == items[b - 1]);
                assert(key(items[b - 1]) != n);
                lemma_text_lt_total(key(items[b - 1]), n);
            } else {
                assert(out[a] == items[a - 1] && out[b] == items[b - 1]);
            }
        }
        assert(key(out[r]) == n);
        let j = key_index_by(out, n, key);
        lemma_ascend_unique(out, key, r, j);
        if name != n {
            if has_key_by(items, name, key) {
                let p = key_index_by(items, name, key);
                let pp = if p < r { p } else { p + 1 };
                assert(out[pp] == items[p]);
                let q = key_index_by(out, name, key);
                lemma_ascend_unique(out, key, pp, q);
            } else {
                if has_key_by(out, name, key) {
                    let q = key_index_by(out, name, key);
                    if q < r {
                        assert(out[q] == items[q]);
                    } else if q > r {
                        assert(out[q] == items[q - 1]);
                    }
                }
            }
        }
    }
}

/// In ascending items, the items named before `name` come first.
proof fn lemma_rank_split<T>(items: Seq<T>, name: Seq<char>, key: spec_fn(T) -> Seq<char>, k: int)
    requires
        ascend_by(items, key),
        0 <= k < items.len(),
    ensures
        text_lt(key(items[k]), name) <==> k < rank_by(items, name, key),
    decreases items.len(),
{
    let init = items.drop_last();
    let last = items.len() - 1;
    assert forall|a: int, b: int| 0 <= a < b < init.len() implies text_lt(
        #[trigger] key(init[a]),
        #[trigger] key(init[b]),
    ) by {
        assert(init[a] == items[a] && init[b] == items[b]);
    }
    lemma_rank_bounded(init, name, key);
    if k < last {
        assert(init[k] == items[k]);
        lemma_rank_split(init, name, key, k);
        if text_lt(key(items[last]), name) {
            assert(text_lt(key(items[k]), key(items[last])));
            lemma_text_lt_transitive(key(items[k]), key(items[last]), name);
        }
    } else {
        if text_lt(key(items[last]), name) {
            assert forall|i: int| 0 <= i < init.len() implies text_lt(key(#[trigger] init[i]), name) by {
                assert(init[i] == items[i]);
                assert(text_lt(key(items[i]), key(items[last])));
                lemma_text_lt_transitive(key(items[i]), key(items[last]), name);
            }
            lemma_rank_prefix(init, name, key, init.len() as int);
        }
    }
}

/// Names of [`Named`] values.
pub open spec fn name_key<V: Named>() -> spec_fn(V) -> Seq<char> {
    |v: V| v.name_view()
}

/// Values kept in ascending order of their names, with no name twice.
pub struct NameIndex<V> {
    items: Vec<V>,
}

impl<V: Named> View for NameIndex<V> {
    type V = Seq<V>;

    closed spec fn view(&self) -> Seq<V> {
        self.items@
    }
}

impl<V: Named> NameIndex<V> {
    /// The items ascend strictly by name.
    pub open spec fn wf(&self) -> bool {
        ascend_by(self@, name_key::<V>())
    }

    pub fn new() -> (r: Self)
        ensures
            r.wf(),
            r@ == Seq::<V>::empty(),
    {
        NameIndex { items: Vec::new() }
    }

    pub fn len(&self) -> (r: usize)
        ensures
            r == self@.len(),
    {
        self.items.len()
    }

    /// The values in ascending order of their names.
    pub fn values(&self) -> (r: &Vec<V>)
        ensures
            r@ == self@,
    {
        &self.items
    }

    /// Where `name` stands: the index of the first item not named before it.
    fn seek(&self, name: &str) -> (r: usize)
        requires
            self.wf(),
        ensures
            r <= self@.len(),
            forall|i: int| 0 <= i < r ==> text_lt((#[trigger] self@[i]).name_view(), name@),
            forall|i: int| r <= i < self@.len() ==> !text_lt(
                (#[trigger] self@[i]).name_view(),
                name@,
            ),
            rank_by(self@, name@, name_key::<V>()) == r,
    {
        let mut i: usize = 0;
        while i < self.items.len()
            invariant
                i <= self.items@.len(),
                self.wf(),
                forall|k: int| 0 <= k < i ==> text_lt((#[trigger] self@[k]).name_view(), name@),
            ensures
                i <= self.items@.len(),
                forall|k: int| 0 <= k < i ==> text_lt((#[trigger] self@[k]).name_view(), name@),
                i == self.items@.len() || !text_lt(self@[i as int].name_view(), name@),
            decreases self.items.len() - i,
        {
            if !text_less(self.items[i].name_str(), name) {
                break;
            }
            i = i + 1;
        }
        proof {
            assert forall|k: int| i <= k < self@.len() implies !text_lt(
                (#[trigger] self@[k]).name_view(),
                name@,
            ) by {
                if k > i {
                    let key = name_key::<V>();
                    assert(text_lt(key(self@[i as int]), key(self@[k])));
                    if text_lt(self@[k].name_view(), name@) {
                        lemma_text_lt_transitive(
                            self@[i as int].name_view(),
                            self@[k].name_view(),
                            name@,
                        );
                    }
                }
            }
            lemma_rank_prefix(self@, name@, name_key::<V>(), i as int);
        }
        i
    }

    /// The value named `name`, if there is one.
    pub fn get(&self, name: &str) -> (r: Option<&V>)
        requires
            self.wf(),
        ensures
            r is Some <==> lookup_by(self@, name@, name_key::<V>()) is Some,
            r matches Some(v) ==> lookup_by(self@, name@, name_key::<V>()) == Some(*v),
    {
        let i = self.seek(name);
        if i < self.items.len() && text_eq(self.items[i].name_str(), name) {
            proof {
                let j = key_index_by(self@, name@, name_key::<V>());
                lemma_ascend_unique(self@, name_key::<V>(), i as int, j);
            }
            Some(&self.items[i])
        } else {
            proof {
                assert forall|k: int| 0 <= k < self@.len() implies (#[trigger] self@[k]).name_view()
                    != name@ by {
                    if k < i {
                        lemma_text_lt_irreflexive(name@);
                    } else if k > i {
                        let key = name_key::<V>();
                        assert(text_lt(key(self@[i as int]), key(self@[k])));
                        if self@[k].name_view() == name@ {
                            lemma_text_lt_total(self@[i as int].name_view(), name@);
                        }
                    }
                }
            }
            None
        }
    }

    /// Puts `v` in its place: it replaces the value of the same name, or goes in
    /// after the values named before it.
    pub fn insert(&mut self, v: V)
        requires
            old(self).wf(),
        ensures
            final(self).wf(),
            final(self)@ == inserted_by(old(self)@, v, name_key::<V>()),
    {
        let ghost name = v.name_view();
        let ghost items = self@;
        let i = self.seek(v.name_str());
        if i < self.items.len() && text_eq(self.items[i].name_str(), v.name_str()) {
            self.items.set(i, v);
            proof {
                let j = key_index_by(items, name, name_key::<V>());
                lemma_ascend_unique(items, name_key::<V>(), i as int, j);
                assert forall|a: int, b: int| 0 <= a < b < self@.len() implies text_lt(
                    #[trigger] self@[a].name_view(),
                    #[trigger] self@[b].name_view(),
                ) by {
                    let key = name_key::<V>();
                    assert(text_lt(key(items[a]), key(items[b])));
                }
                assert(self@ == items.update(i as int, v));
            }
        } else {
            proof {
                assert forall|k: int| 0 <= k < items.len() implies (#[trigger] items[k]).name_view()
                    != name by {
                    if k < i {
                        lemma_text_lt_irreflexive(name);
                    } else if k > i {
                        let key = name_key::<V>();
                        assert(text_lt(key(items[i as int]), key(items[k])));
                        if items[k].name_view() == name {
                            lemma_text_lt_total(items[i as int].name_view(), name);
                        }
                    }
                }
            }
            self.items.insert(i, v);
            proof {
                assert forall|k: int| i < k < self@.len() implies text_lt(
                    name,
                    (#[trigger] self@[k]).name_view(),
                ) by {
                    assert(self@[k] == items[k - 1]);
                    lemma_text_lt_total(name, items[k - 1].name_view());
                }
                assert forall|a: int, b: int| 0 <= a < b < self@.len() implies text_lt(
                    #[trigger] self@[a].name_view(),
                    #[trigger] self@[b].name_view(),
                ) by {
                    let key = name_key::<V>();
                    if b < i {
                        assert(text_lt(key(items[a]), key(items[b])));
                    } else if b == i {
                    } else if a < i {
                        assert(self@[a] == items[a]);
                        lemma_text_lt_transitive(self@[a].name_view(), name, self@[b].name_view());
                    } else if a == i {
                    } else {
                        assert(text_lt(key(items[a - 1]), key(items[b - 1])));
                    }
                }
            }
        }
    }
}

} // verus!
