//! A table that keeps its rows in the order of their keys, each key once.
use vstd::prelude::*;

use crate::text::chars_of;

verus! {

/// What can be the key of a [`Table`]: a value with a total order.
pub trait TableKey: Sized {
    /// The value that two equal keys share.
    type Model;

    spec fn model(&self) -> Self::Model;

    /// Whether a key comes before another one.
    spec fn before(a: Self::Model, b: Self::Model) -> bool;

    /// `before` is a strict total order.
    proof fn order_is_total(a: Self::Model, b: Self::Model, c: Self::Model)
        ensures
            !Self::before(a, a),
            Self::before(a, b) && Self::before(b, c) ==> Self::before(a, c),
            a != b ==> Self::before(a, b) || Self::before(b, a),
    ;

    fn comes_before(&self, other: &Self) -> (r: bool)
        ensures
            r == Self::before(self.model(), other.model()),
    ;

    fn copy_key(&self) -> (r: Self)
        ensures
            r.model() == self.model(),
    ;
}

/// Whether the keys of the rows rise from row to row.
pub open spec fn rising<K: TableKey, V>(rows: Seq<(K::Model, V)>) -> bool {
    forall|i: int, j: int|
        0 <= i < j < rows.len() ==> K::before(#[trigger] rows[i].0, #[trigger] rows[j].0)
}

/// What the rows say of each key.
pub open spec fn rows_map<M, V>(rows: Seq<(M, V)>) -> Map<M, V> {
    Map::new(
        |k: M| exists|i: int| 0 <= i < rows.len() && (#[trigger] rows[i]).0 == k,
        |k: M| rows[choose|i: int| 0 <= i < rows.len() && (#[trigger] rows[i]).0 == k].1,
    )
}

#[verifier::reject_recursive_types(K)]
pub struct Table<K: TableKey, V> {
    rows: Vec<(K, V)>,
}

impl<K: TableKey, V> View for Table<K, V> {
    type V = Map<K::Model, V>;

    open spec fn view(&self) -> Map<K::Model, V> {
        rows_map(self.rows())
    }
}

pub closed spec fn row_models<K: TableKey, V>(rows: Seq<(K, V)>) -> Seq<(K::Model, V)> {
    Seq::new(rows.len(), |i: int| (rows[i].0.model(), rows[i].1))
}

impl<K: TableKey, V> Table<K, V> {
    /// The rows in order.
    pub closed spec fn rows(&self) -> Seq<(K::Model, V)> {
        row_models(self.rows@)
    }

    #[verifier::type_invariant]
    spec fn well_formed(self) -> bool {
        rising::<K, V>(self.rows())
    }

    /// The table without rows.
    pub fn new() -> (r: Self)
        ensures
            r.rows() == Seq::<(K::Model, V)>::empty(),
            r@ == Map::<K::Model, V>::empty(),
    {
        let r = Table { rows: Vec::new() };
        assert(r.rows() =~= Seq::empty());
        assert(r@ =~= Map::empty());
        r
    }

    /// How many rows there are.
    pub fn len(&self) -> (r: usize)
        ensures
            r == self.rows().len(),
            rising::<K, V>(self.rows()),
    {
        proof {
            use_type_invariant(self);
        }
        self.rows.len()
    }

    /// The key of a row.
    pub fn key_at(&self, i: usize) -> (r: &K)
        requires
            i < self.rows().len(),
        ensures
            r.model() == self.rows()[i as int].0,
    {
        &self.rows[i].0
    }

    /// The value of a row.
    pub fn value_at(&self, i: usize) -> (r: &V)
        requires
            i < self.rows().len(),
        ensures
            *r == self.rows()[i as int].1,
    {
        &self.rows[i].1
    }

    /// The number of rows whose keys come before `key`.
    fn rank(&self, key: &K) -> (r: usize)
        ensures
            r <= self.rows().len(),
            forall|j: int| 0 <= j < r ==> K::before((#[trigger] self.rows()[j]).0, key.model()),
            forall|j: int|
                r <= j < self.rows().len() ==> !K::before(
                    (#[trigger] self.rows()[j]).0,
                    key.model(),
                ),
            rising::<K, V>(self.rows()),
    {
        proof {
            use_type_invariant(self);
        }
        let mut i: usize = 0;
        while i < self.rows.len()
            invariant
                0 <= i <= self.rows().len(),
                self.rows().len() == self.rows@.len(),
                rising::<K, V>(self.rows()),
                forall|j: int|
                    0 <= j < i ==> K::before((#[trigger] self.rows()[j]).0, key.model()),
            decreases self.rows@.len() - i,
        {
            if !self.rows[i].0.comes_before(key) {
                proof {
                    assert(self.rows()[i as int].0 == self.rows@[i as int].0.model());
                    assert forall|j: int| i <= j < self.rows().len() implies !K::before(
                        (#[trigger] self.rows()[j]).0,
                        key.model(),
                    ) by {
                        if j > i {
                            K::order_is_total(
                                self.rows()[i as int].0,
                                self.rows()[j].0,
                                key.model(),
                            );
                        }
                    }
                }
                return i;
            }
            i += 1;
        }
        i
    }

    /// The row of `key`, if there is one.
    pub fn find(&self, key: &K) -> (r: Option<usize>)
        ensures
            match r {
                Some(i) => i < self.rows().len() && self.rows()[i as int].0 == key.model()
                    && self@.dom().contains(key.model()) && self@[key.model()]
                    == self.rows()[i as int].1,
                None => !self@.dom().contains(key.model()),
            },
    {
        let i = self.rank(key);
        let ghost k = key.model();
        if i < self.rows.len() && !key.comes_before(&self.rows[i].0) {
            proof {
                K::order_is_total(k, self.rows()[i as int].0, k);
                assert(self.rows()[i as int].0 == k);
                lemma_row_is_value::<K, V>(self.rows(), i as int);
            }
            Some(i)
        } else {
            proof {
                if self@.dom().contains(k) {
                    let j = choose|j: int|
                        0 <= j < self.rows().len() && (#[trigger] self.rows()[j]).0 == k;
                    K::order_is_total(k, k, k);
                    assert(j >= i);
                    if j > i {
                        assert(K::before(self.rows()[i as int].0, k));
                    }
                }
            }
            None
        }
    }

    /// Whether there is a row of `key`.
    pub fn contains(&self, key: &K) -> (r: bool)
        ensures
            r == self@.dom().contains(key.model()),
    {
        self.find(key).is_some()
    }

    /// The value of `key`, if there is a row of it.
    pub fn get(&self, key: &K) -> (r: Option<&V>)
        ensures
            match r {
                Some(v) => self@.dom().contains(key.model()) && *v == self@[key.model()],
                None => !self@.dom().contains(key.model()),
            },
    {
        match self.find(key) {
            Some(i) => Some(&self.rows[i].1),
            None => None,
        }
    }

    /// Gives `key` the value `value`, in place of the one it had if it had one.
    pub fn insert(&mut self, key: K, value: V) -> (r: Option<V>)
        ensures
            final(self)@ == old(self)@.insert(key.model(), value),
            match r {
                Some(v) => old(self)@.dom().contains(key.model()) && v == old(self)@[key.model()],
                None => !old(self)@.dom().contains(key.model()),
            },
    {
        let found = self.find(&key);
        let i = self.rank(&key);
        let ghost before = self.rows();
        let ghost k = key.model();
        let mut rows: Vec<(K, V)> = Vec::new();
        std::mem::swap(&mut rows, &mut self.rows);
        let ghost raw = rows@;
        assert(row_models(raw) =~= before);
        match found {
            Some(at) => {
                proof {
                    K::order_is_total(k, k, k);
                    if at < i {
                        assert(K::before(before[at as int].0, k));
                    }
                    if at > i {
                        K::order_is_total(before[i as int].0, before[at as int].0, k);
                        assert(K::before(before[i as int].0, before[at as int].0));
                    }
                }
                let old_row = rows.remove(at);
                rows.insert(at, (key, value));
                proof {
                    let after = row_models(rows@);
                    assert(after =~= before.update(at as int, (k, value)));
                    assert(rising::<K, V>(after));
                    lemma_update_map::<K, V>(before, at as int, value);
                }
                self.rows = rows;
                Some(old_row.1)
            },
            None => {
                rows.insert(i, (key, value));
                proof {
                    let after = row_models(rows@);
                    assert(after =~= before.insert(i as int, (k, value)));
                    lemma_insert_rising::<K, V>(before, i as int, k, value);
                }
                self.rows = rows;
                None
            },
        }
    }

    /// Gives the row at a position another value, and gives back the one it had.
    pub fn set_value_at(&mut self, i: usize, value: V) -> (r: V)
        requires
            i < old(self).rows().len(),
        ensures
            final(self).rows() == old(self).rows().update(
                i as int,
                (old(self).rows()[i as int].0, value),
            ),
            r == old(self).rows()[i as int].1,
            final(self)@ == old(self)@.insert(old(self).rows()[i as int].0, value),
    {
        proof {
            use_type_invariant(&*self);
        }
        let ghost before = self.rows();
        let mut rows: Vec<(K, V)> = Vec::new();
        std::mem::swap(&mut rows, &mut self.rows);
        assert(row_models(rows@) =~= before);
        let row = rows.remove(i);
        rows.insert(i, (row.0, value));
        proof {
            let after = row_models(rows@);
            assert(after =~= before.update(i as int, (before[i as int].0, value)));
            lemma_update_map::<K, V>(before, i as int, value);
        }
        self.rows = rows;
        row.1
    }

    /// Takes the row of `key` out.
    pub fn remove(&mut self, key: &K) -> (r: Option<V>)
        ensures
            final(self)@ == old(self)@.remove(key.model()),
            match r {
                Some(v) => old(self)@.dom().contains(key.model()) && v == old(self)@[key.model()],
                None => !old(self)@.dom().contains(key.model()),
            },
            r is None ==> final(self).rows() == old(self).rows(),
            r is Some ==> final(self).rows().len() + 1 == old(self).rows().len(),
    {
        proof {
            use_type_invariant(&*self);
        }
        let ghost before = self.rows();
        let ghost k = key.model();
        match self.find(key) {
            Some(at) => {
                let mut rows: Vec<(K, V)> = Vec::new();
                std::mem::swap(&mut rows, &mut self.rows);
                assert(row_models(rows@) =~= before);
                let row = rows.remove(at);
                proof {
                    let after = row_models(rows@);
                    assert(after =~= before.remove(at as int));
                    lemma_remove_rising::<K, V>(before, at as int);
                }
                self.rows = rows;
                Some(row.1)
            },
            None => {
                assert(self@ =~= self@.remove(k));
                None
            },
        }
    }
}

/// Each row of a table is what the table says of its key.
pub proof fn lemma_row_is_value<K: TableKey, V>(rows: Seq<(K::Model, V)>, i: int)
    requires
        rising::<K, V>(rows),
        0 <= i < rows.len(),
    ensures
        rows_map(rows).dom().contains(rows[i].0),
        rows_map(rows)[rows[i].0] == rows[i].1,
{
    let k = rows[i].0;
    let j = choose|j: int| 0 <= j < rows.len() && (#[trigger] rows[j]).0 == k;
    K::order_is_total(k, k, k);
    if j < i {
        assert(K::before(rows[j].0, rows[i].0));
    }
    if i < j {
        assert(K::before(rows[i].0, rows[j].0));
    }
}

proof fn lemma_update_map<K: TableKey, V>(rows: Seq<(K::Model, V)>, at: int, value: V)
    requires
        rising::<K, V>(rows),
        0 <= at < rows.len(),
    ensures
        rising::<K, V>(rows.update(at, (rows[at].0, value))),
        rows_map(rows.update(at, (rows[at].0, value))) == rows_map(rows).insert(
            rows[at].0,
            value,
        ),
{
    let k = rows[at].0;
    let after = rows.update(at, (k, value));
    assert(rising::<K, V>(after));
    let m = rows_map(after);
    let n = rows_map(rows).insert(k, value);
    assert forall|x: K::Model| m.dom().contains(x) == n.dom().contains(x) by {
        if m.dom().contains(x) {
            let j = choose|j: int| 0 <= j < after.len() && (#[trigger] after[j]).0 == x;
            assert(rows[j].0 == x);
        }
        if n.dom().contains(x) {
            if x == k {
                assert(after[at].0 == k);
            } else {
                let j = choose|j: int| 0 <= j < rows.len() && (#[trigger] rows[j]).0 == x;
                assert(after[j].0 == x);
            }
        }
    }
    assert forall|x: K::Model| m.dom().contains(x) implies m[x] == n[x] by {
        let j = choose|j: int| 0 <= j < after.len() && (#[trigger] after[j]).0 == x;
        lemma_row_is_value::<K, V>(after, j);
        lemma_row_is_value::<K, V>(rows, j);
        if j == at {
        } else {
            K::order_is_total(k, k, k);
            if x == k {
                if j < at {
                    assert(K::before(after[j].0, after[at].0));
                } else {
                    assert(K::before(after[at].0, after[j].0));
                }
            }
        }
    }
    assert(m =~= n);
}

proof fn lemma_insert_rising<K: TableKey, V>(
    rows: Seq<(K::Model, V)>,
    at: int,
    k: K::Model,
    value: V,
)
    requires
        rising::<K, V>(rows),
        0 <= at <= rows.len(),
        forall|j: int| 0 <= j < at ==> K::before((#[trigger] rows[j]).0, k),
        forall|j: int| at <= j < rows.len() ==> !K::before((#[trigger] rows[j]).0, k),
        !rows_map(rows).dom().contains(k),
    ensures
        rising::<K, V>(rows.insert(at, (k, value))),
        rows_map(rows.insert(at, (k, value))) == rows_map(rows).insert(k, value),
{
    let after = rows.insert(at, (k, value));
    assert forall|i: int, j: int| 0 <= i < j < after.len() implies K::before(
        #[trigger] after[i].0,
        #[trigger] after[j].0,
    ) by {
        let pi = if i < at {
            i
        } else {
            i - 1
        };
        let pj = if j < at {
            j
        } else {
            j - 1
        };
        if i == at {
            assert(rows[pj].0 != k);
            K::order_is_total(k, rows[pj].0, k);
            assert(after[j] == rows[pj]);
        } else if j == at {
            assert(after[i] == rows[pi]);
        } else {
            assert(after[i] == rows[pi]);
            assert(after[j] == rows[pj]);
        }
    }
    let m = rows_map(after);
    let n = rows_map(rows).insert(k, value);
    assert forall|x: K::Model| m.dom().contains(x) == n.dom().contains(x) by {
        if m.dom().contains(x) {
            let j = choose|j: int| 0 <= j < after.len() && (#[trigger] after[j]).0 == x;
            if j < at {
                assert(rows[j].0 == x);
            } else if j > at {
                assert(rows[j - 1].0 == x);
            }
        }
        if n.dom().contains(x) {
            if x == k {
                assert(after[at].0 == k);
            } else {
                let j = choose|j: int| 0 <= j < rows.len() && (#[trigger] rows[j]).0 == x;
                if j < at {
                    assert(after[j].0 == x);
                } else {
                    assert(after[j + 1].0 == x);
                }
            }
        }
    }
    assert forall|x: K::Model| m.dom().contains(x) implies m[x] == n[x] by {
        let j = choose|j: int| 0 <= j < after.len() && (#[trigger] after[j]).0 == x;
        lemma_row_is_value::<K, V>(after, j);
        if j < at {
            assert(after[j] == rows[j]);
            lemma_row_is_value::<K, V>(rows, j);
        } else if j > at {
            assert(after[j] == rows[j - 1]);
            lemma_row_is_value::<K, V>(rows, j - 1);
        }
    }
    assert(m =~= n);
}

proof fn lemma_remove_rising<K: TableKey, V>(rows: Seq<(K::Model, V)>, at: int)
    requires
        rising::<K, V>(rows),
        0 <= at < rows.len(),
    ensures
        rising::<K, V>(rows.remove(at)),
        rows_map(rows.remove(at)) == rows_map(rows).remove(rows[at].0),
{
    let k = rows[at].0;
    let after = rows.remove(at);
    assert forall|i: int, j: int| 0 <= i < j < after.len() implies K::before(
        #[trigger] after[i].0,
        #[trigger] after[j].0,
    ) by {
        let pi = if i < at {
            i
        } else {
            i + 1
        };
        let pj = if j < at {
            j
        } else {
            j + 1
        };
        assert(after[i] == rows[pi]);
        assert(after[j] == rows[pj]);
    }
    let m = rows_map(after);
    let n = rows_map(rows).remove(k);
    K::order_is_total(k, k, k);
    assert forall|x: K::Model| m.dom().contains(x) == n.dom().contains(x) by {
        if m.dom().contains(x) {
            let j = choose|j: int| 0 <= j < after.len() && (#[trigger] after[j]).0 == x;
            if j < at {
                assert(rows[j].0 == x);
                assert(K::before(rows[j].0, rows[at].0));
            } else {
                assert(rows[j + 1].0 == x);
                assert(K::before(rows[at].0, rows[j + 1].0));
            }
        }
        if n.dom().contains(x) {
            let j = choose|j: int| 0 <= j < rows.len() && (#[trigger] rows[j]).0 == x;
            if j < at {
                assert(after[j].0 == x);
            } else {
                assert(after[j - 1].0 == x);
            }
        }
    }
    assert forall|x: K::Model| m.dom().contains(x) implies m[x] == n[x] by {
        let j = choose|j: int| 0 <= j < after.len() && (#[trigger] after[j]).0 == x;
        lemma_row_is_value::<K, V>(after, j);
        if j < at {
            lemma_row_is_value::<K, V>(rows, j);
        } else {
            lemma_row_is_value::<K, V>(rows, j + 1);
        }
    }
    assert(m =~= n);
}

/// The values that the keys stand for.
pub open spec fn models<K: TableKey>(keys: Seq<K>) -> Seq<K::Model> {
    Seq::new(keys.len(), |i: int| keys[i].model())
}

/// Whether no value comes before one that stands earlier.
pub open spec fn in_order<K: TableKey>(s: Seq<K::Model>) -> bool {
    forall|i: int, j: int|
        0 <= i < j < s.len() ==> !K::before(#[trigger] s[j], #[trigger] s[i])
}

proof fn lemma_insert_in_order<K: TableKey>(s: Seq<K::Model>, at: int, x: K::Model)
    requires
        in_order::<K>(s),
        0 <= at <= s.len(),
        forall|i: int| 0 <= i < at ==> !K::before(x, #[trigger] s[i]),
        at < s.len() ==> K::before(x, s[at]),
    ensures
        in_order::<K>(s.insert(at, x)),
        s.insert(at, x).to_multiset() == s.to_multiset().insert(x),
{
    let t = s.insert(at, x);
    assert forall|i: int, j: int| 0 <= i < j < t.len() implies !K::before(
        #[trigger] t[j],
        #[trigger] t[i],
    ) by {
        let pi = if i < at {
            i
        } else {
            i - 1
        };
        let pj = if j < at {
            j
        } else {
            j - 1
        };
        if j == at {
            assert(t[i] == s[pi]);
        } else if i == at {
            assert(t[j] == s[pj]);
            K::order_is_total(s[pj], x, s[at]);
            if K::before(s[pj], x) {
                K::order_is_total(s[pj], x, s[at]);
                if pj > at {
                    assert(!K::before(s[pj], s[at]));
                } else {
                    K::order_is_total(s[at], s[at], s[at]);
                }
            }
        } else {
            assert(t[i] == s[pi]);
            assert(t[j] == s[pj]);
        }
    }
    s.to_multiset_ensures();
    let front = s.subrange(0, at);
    let back = s.subrange(at, s.len() as int);
    assert(s =~= front + back);
    assert(t =~= front.push(x) + back);
    vstd::seq_lib::lemma_multiset_commutative(front.push(x), back);
    vstd::seq_lib::lemma_multiset_commutative(front, back);
    front.to_multiset_ensures();
    assert(t.to_multiset() =~= s.to_multiset().insert(x));
}

/// The keys in their order.
pub fn sort_keys<K: TableKey>(keys: Vec<K>) -> (r: Vec<K>)
    ensures
        in_order::<K>(models(r@)),
        models(r@).to_multiset() == models(keys@).to_multiset(),
{
    let ghost all = keys@;
    let mut rest = keys;
    let mut out: Vec<K> = Vec::new();
    proof {
        assert(models(out@) =~= Seq::empty());
        assert(models(rest@) + models(out@) =~= models(rest@));
    }
    while rest.len() > 0
        invariant
            in_order::<K>(models(out@)),
            (models(rest@) + models(out@)).to_multiset() == models(all).to_multiset(),
        decreases rest@.len(),
    {
        let ghost rest_before = rest@;
        let ghost out_before = models(out@);
        let key = rest.pop().unwrap();
        let ghost x = key.model();
        let mut at: usize = 0;
        while at < out.len() && !key.comes_before(&out[at])
            invariant
                at <= out@.len(),
                x == key.model(),
                forall|i: int| 0 <= i < at ==> !K::before(x, #[trigger] models(out@)[i]),
            decreases out@.len() - at,
        {
            at += 1;
        }
        out.insert(at, key);
        proof {
            assert(models(out@) =~= out_before.insert(at as int, x));
            lemma_insert_in_order::<K>(out_before, at as int, x);
            let front = models(rest@);
            assert(models(rest_before) =~= front.push(x));
            vstd::seq_lib::lemma_multiset_commutative(front.push(x), out_before);
            vstd::seq_lib::lemma_multiset_commutative(front, models(out@));
            front.to_multiset_ensures();
            assert((front + models(out@)).to_multiset() =~= (front.push(x)
                + out_before).to_multiset());
        }
    }
    assert(models(rest@) + models(out@) =~= models(out@));
    out
}

/// Whether `a` comes before `b` where two rows of characters are compared
/// character by character.
pub open spec fn text_before(a: Seq<char>, b: Seq<char>) -> bool
    decreases a.len(),
{
    if b.len() == 0 {
        false
    } else if a.len() == 0 {
        true
    } else if a[0] != b[0] {
        a[0] < b[0]
    } else {
        text_before(a.skip(1), b.skip(1))
    }
}

pub proof fn text_order_is_total(a: Seq<char>, b: Seq<char>, c: Seq<char>)
    ensures
        !text_before(a, a),
        text_before(a, b) && text_before(b, c) ==> text_before(a, c),
        a != b ==> text_before(a, b) || text_before(b, a),
    decreases a.len() + b.len() + c.len(),
{
    if a.len() > 0 {
        if b.len() > 0 && c.len() > 0 {
            text_order_is_total(a.skip(1), b.skip(1), c.skip(1));
            if a[0] == b[0] && a.skip(1) == b.skip(1) {
                assert(a =~= seq![a[0]] + a.skip(1));
                assert(b =~= seq![b[0]] + b.skip(1));
            }
        } else if b.len() > 0 {
            text_order_is_total(a.skip(1), b.skip(1), c);
            if a[0] == b[0] && a.skip(1) == b.skip(1) {
                assert(a =~= seq![a[0]] + a.skip(1));
                assert(b =~= seq![b[0]] + b.skip(1));
            }
        } else {
            text_order_is_total(a.skip(1), b, c);
        }
    } else if b.len() == 0 {
        assert(a =~= b);
    }
}

/// Whether the characters of `a` come before those of `b`.
pub fn chars_before(a: &[char], b: &[char]) -> (r: bool)
    ensures
        r == text_before(a@, b@),
{
    let mut i: usize = 0;
    assert(a@.skip(0) =~= a@ && b@.skip(0) =~= b@);
    loop
        invariant
            i <= a@.len(),
            i <= b@.len(),
            text_before(a@, b@) == text_before(a@.skip(i as int), b@.skip(i as int)),
        decreases a@.len() - i,
    {
        if i >= b.len() {
            return false;
        }
        if i >= a.len() {
            return true;
        }
        if a[i] != b[i] {
            return a[i] < b[i];
        }
        assert(a@.skip(i as int).skip(1) =~= a@.skip(i + 1));
        assert(b@.skip(i as int).skip(1) =~= b@.skip(i + 1));
        i += 1;
    }
}

impl TableKey for String {
    type Model = Seq<char>;

    open spec fn model(&self) -> Seq<char> {
        self@
    }

    open spec fn before(a: Seq<char>, b: Seq<char>) -> bool {
        text_before(a, b)
    }

    proof fn order_is_total(a: Seq<char>, b: Seq<char>, c: Seq<char>) {
        text_order_is_total(a, b, c);
    }

    fn comes_before(&self, other: &Self) -> (r: bool) {
        let a = chars_of(self.as_str());
        let b = chars_of(other.as_str());
        chars_before(a.as_slice(), b.as_slice())
    }

    fn copy_key(&self) -> (r: Self) {
        self.clone()
    }
}

impl TableKey for u32 {
    type Model = u32;

    open spec fn model(&self) -> u32 {
        *self
    }

    open spec fn before(a: u32, b: u32) -> bool {
        a < b
    }

    proof fn order_is_total(a: u32, b: u32, c: u32) {
    }

    fn comes_before(&self, other: &Self) -> (r: bool) {
        *self < *other
    }

    fn copy_key(&self) -> (r: Self) {
        *self
    }
}

impl TableKey for u64 {
    type Model = u64;

    open spec fn model(&self) -> u64 {
        *self
    }

    open spec fn before(a: u64, b: u64) -> bool {
        a < b
    }

    proof fn order_is_total(a: u64, b: u64, c: u64) {
    }

    fn comes_before(&self, other: &Self) -> (r: bool) {
        *self < *other
    }

    fn copy_key(&self) -> (r: Self) {
        *self
    }
}

impl TableKey for i64 {
    type Model = i64;

    open spec fn model(&self) -> i64 {
        *self
    }

    open spec fn before(a: i64, b: i64) -> bool {
        a < b
    }

    proof fn order_is_total(a: i64, b: i64, c: i64) {
    }

    fn comes_before(&self, other: &Self) -> (r: bool) {
        *self < *other
    }

    fn copy_key(&self) -> (r: Self) {
        *self
    }
}

/// Texts are in the order of the first character in which they differ, and one that another goes on
/// from comes first.
pub proof fn texts_differ_in_their_first_difference(
    front: Seq<char>,
    x: char,
    y: char,
    a: Seq<char>,
    b: Seq<char>,
)
    ensures
        x != y ==> (text_before(front.push(x) + a, front.push(y) + b) <==> x < y),
        text_before(front, front.push(x) + a),
    decreases front.len(),
{
    let p = front.push(x) + a;
    let q = front.push(y) + b;
    if front.len() > 0 {
        let rest = front.skip(1);
        texts_differ_in_their_first_difference(rest, x, y, a, b);
        assert(p.skip(1) =~= rest.push(x) + a);
        assert(q.skip(1) =~= rest.push(y) + b);
        assert(p[0] == front[0] && q[0] == front[0]);
    } else {
        assert(p[0] == x && q[0] == y);
    }
}

} // verus!
