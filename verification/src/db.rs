//! Records that are kept on disk under their keys, and those that are in use.
use vstd::bytes::{u32_from_le_bytes, u32_to_le_bytes, u64_from_le_bytes, u64_to_le_bytes};
use vstd::prelude::*;

use crate::table::{chars_before, Table, TableKey};
#[allow(unused_imports)]
use crate::table::{rising, rows_map, text_before, text_order_is_total};
#[allow(unused_imports)]
use vstd::bytes::{
    lemma_auto_spec_u32_to_from_le_bytes, lemma_auto_spec_u64_to_from_le_bytes,
    spec_u32_from_le_bytes, spec_u32_to_le_bytes, spec_u64_from_le_bytes, spec_u64_to_le_bytes,
};

pub mod store;

verus! {

/// The key of a record.
pub trait PrimaryKey: Sized {
    /// The bytes that a key is stored as.
    spec fn stored(&self) -> Seq<u8>;

    /// The key that is stored as these bytes, where there is one.
    spec fn read(bytes: Seq<u8>) -> Option<Self>;

    /// A key that was stored is read back.
    proof fn reads_back(key: Self)
        ensures
            Self::read(key.stored()) == Some(key),
    ;

    fn to_bytes(&self) -> (r: Vec<u8>)
        ensures
            r@ == self.stored(),
    ;

    fn from_bytes(bytes: &[u8]) -> (r: Option<Self>)
        ensures
            r == Self::read(bytes@),
    ;
}

/// The eight bytes of a number, the lowest first.
impl PrimaryKey for u64 {
    open spec fn stored(&self) -> Seq<u8> {
        spec_u64_to_le_bytes(*self)
    }

    open spec fn read(bytes: Seq<u8>) -> Option<u64> {
        if bytes.len() == 8 {
            Some(spec_u64_from_le_bytes(bytes))
        } else {
            None
        }
    }

    proof fn reads_back(key: u64) {
        lemma_auto_spec_u64_to_from_le_bytes();
    }

    fn to_bytes(&self) -> (r: Vec<u8>) {
        u64_to_le_bytes(*self)
    }

    fn from_bytes(bytes: &[u8]) -> (r: Option<u64>) {
        if bytes.len() == 8 {
            Some(u64_from_le_bytes(bytes))
        } else {
            None
        }
    }
}

/// The four bytes of a number, the lowest first.
impl PrimaryKey for u32 {
    open spec fn stored(&self) -> Seq<u8> {
        spec_u32_to_le_bytes(*self)
    }

    open spec fn read(bytes: Seq<u8>) -> Option<u32> {
        if bytes.len() == 4 {
            Some(spec_u32_from_le_bytes(bytes))
        } else {
            None
        }
    }

    proof fn reads_back(key: u32) {
        lemma_auto_spec_u32_to_from_le_bytes();
    }

    fn to_bytes(&self) -> (r: Vec<u8>) {
        u32_to_le_bytes(*self)
    }

    fn from_bytes(bytes: &[u8]) -> (r: Option<u32>) {
        if bytes.len() == 4 {
            Some(u32_from_le_bytes(bytes))
        } else {
            None
        }
    }
}

/// Different keys are stored as different bytes.
pub proof fn keys_stay_apart<K: PrimaryKey>(a: K, b: K)
    requires
        a != b,
    ensures
        a.stored() != b.stored(),
{
    K::reads_back(a);
    K::reads_back(b);
}

/// What is kept under a key.
pub trait Record {
    type PrimaryKey: PrimaryKey;

    spec fn key(&self) -> Self::PrimaryKey;

    fn primary_key(&self) -> (r: Self::PrimaryKey)
        ensures
            r == self.key(),
    ;
}

/// The records that are in use.
#[verifier::reject_recursive_types(K)]
pub struct AccessCache<K: TableKey, V> {
    rows: Table<K, V>,
}

impl<K: TableKey, V> View for AccessCache<K, V> {
    type V = Map<K::Model, V>;

    open spec fn view(&self) -> Map<K::Model, V> {
        rows_map(self.rows())
    }
}

/// What is given of the records under a key that so many hold: one that nobody but the
/// cache holds is not given.
pub open spec fn given<M, V>(records: Map<M, V>, key: M, held: nat) -> Option<V> {
    if held > 1 && records.dom().contains(key) {
        Some(records[key])
    } else {
        None
    }
}

/// Those of the records that others than the cache hold. `held` says for each how many
/// hold it.
pub open spec fn still_held<M, V>(rows: Seq<(M, V)>, held: Seq<usize>) -> Map<M, V> {
    Map::new(
        |key: M|
            exists|i: int| 0 <= i < rows.len() && held[i] > 1 && (#[trigger] rows[i]).0 == key,
        |key: M| rows_map(rows)[key],
    )
}

impl<K: TableKey, V> AccessCache<K, V> {
    /// The records in the order of their keys.
    pub closed spec fn rows(&self) -> Seq<(K::Model, V)> {
        self.rows.rows()
    }

    pub fn new() -> (r: Self)
        ensures
            r@ == Map::<K::Model, V>::empty(),
    {
        AccessCache { rows: Table::new() }
    }

    /// The record under a key, whoever uses it.
    pub fn find(&self, index: &K) -> (r: Option<&V>)
        ensures
            match r {
                Some(value) => self@.dom().contains(index.model()) && *value
                    == self@[index.model()],
                None => !self@.dom().contains(index.model()),
            },
    {
        self.rows.get(index)
    }

    /// The record under a key, unless nobody but this cache holds it. `held` says how
    /// many do.
    pub fn get(&self, index: &K, held: usize) -> (r: Option<&V>)
        ensures
            match r {
                Some(value) => given(self@, index.model(), held as nat) == Some(*value),
                None => given(self@, index.model(), held as nat) is None,
            },
    {
        if held <= 1 {
            None
        } else {
            self.rows.get(index)
        }
    }

    pub fn insert(&mut self, index: K, value: V)
        ensures
            final(self)@ == old(self)@.insert(index.model(), value),
    {
        self.rows.insert(index, value);
    }

    /// Forgets the record under a key.
    pub fn invalidate(&mut self, index: &K)
        ensures
            final(self)@ == old(self)@.remove(index.model()),
    {
        self.rows.remove(index);
    }

    /// How many records there are.
    pub fn len(&self) -> (r: usize)
        ensures
            r == self.rows().len(),
            rising::<K, V>(self.rows()),
    {
        self.rows.len()
    }

    /// The record at a place in the order of the keys.
    pub fn value_at(&self, i: usize) -> (r: &V)
        requires
            i < self.rows().len(),
        ensures
            *r == self.rows()[i as int].1,
    {
        self.rows.value_at(i)
    }

    /// Forgets the records that nobody but this cache holds. `held` says for each, in
    /// the order of their keys, how many hold it.
    pub fn clear_stale(&mut self, held: &Vec<usize>)
        requires
            held@.len() == old(self).rows().len(),
        ensures
            final(self)@ == still_held(old(self).rows(), held@),
    {
        let ghost rows = self.rows.rows();
        let ghost start = self.rows@;
        let n = self.rows.len();
        let mut stale: Vec<K> = Vec::new();
        let mut i: usize = 0;
        while i < n
            invariant
                0 <= i <= n,
                n == rows.len(),
                n == held@.len(),
                rows == self.rows.rows(),
                start == self.rows@,
                rising::<K, V>(rows),
                forall|k: K::Model|
                    crate::table::models(stale@).contains(k) <==> exists|j: int|
                        0 <= j < i && held@[j] <= 1 && (#[trigger] rows[j]).0 == k,
            decreases n - i,
        {
            if held[i] <= 1 {
                let ghost before = crate::table::models(stale@);
                let key = self.rows.key_at(i).copy_key();
                let ghost model = key.model();
                stale.push(key);
                let ghost after = crate::table::models(stale@);
                assert(after =~= before.push(model));
                assert forall|k: K::Model| after.contains(k) <==> exists|j: int|
                    0 <= j < i + 1 && held@[j] <= 1 && (#[trigger] rows[j]).0 == k by {
                    if after.contains(k) {
                        let at = choose|at: int| 0 <= at < after.len() && after[at] == k;
                        if at < before.len() {
                            assert(before[at] == k);
                            assert(before.contains(k));
                        } else {
                            assert(rows[i as int].0 == k);
                        }
                    }
                    if exists|j: int| 0 <= j < i + 1 && held@[j] <= 1 && (#[trigger] rows[j]).0 == k
                    {
                        let j = choose|j: int|
                            0 <= j < i + 1 && held@[j] <= 1 && (#[trigger] rows[j]).0 == k;
                        if j < i {
                            assert(before.contains(k));
                            let at = choose|at: int| 0 <= at < before.len() && before[at] == k;
                            assert(after[at] == k);
                        } else {
                            assert(after[before.len() as int] == k);
                        }
                    }
                }
            }
            i += 1;
        }
        let ghost gone = crate::table::models(stale@);
        assert(gone.take(0).to_set() =~= Set::empty());
        assert(self.rows@ =~= start.remove_keys(gone.take(0).to_set()));
        let mut k: usize = 0;
        while k < stale.len()
            invariant
                0 <= k <= stale@.len(),
                gone == crate::table::models(stale@),
                self.rows@ == start.remove_keys(gone.take(k as int).to_set()),
            decreases stale@.len() - k,
        {
            self.rows.remove(&stale[k]);
            assert(gone[k as int] == stale@[k as int].model());
            assert(gone.take(k + 1) =~= gone.take(k as int).push(gone[k as int]));
            assert(self.rows@ =~= start.remove_keys(gone.take(k + 1).to_set())) by {
                assert forall|key: K::Model| gone.take(k + 1).to_set().contains(key) <==> (
                gone.take(k as int).to_set().contains(key) || key == gone[k as int]) by {
                    let a = gone.take(k as int);
                    let b = gone.take(k + 1);
                    if b.contains(key) {
                        let at = choose|at: int| 0 <= at < b.len() && b[at] == key;
                        if at < k {
                            assert(a[at] == key);
                        }
                    }
                    if a.contains(key) {
                        let at = choose|at: int| 0 <= at < a.len() && a[at] == key;
                        assert(b[at] == key);
                    }
                    if key == gone[k as int] {
                        assert(b[k as int] == key);
                    }
                }
            }
            k += 1;
        }
        proof {
            assert(gone.take(k as int) =~= gone);
            assert forall|key: K::Model|
                #![trigger self.rows@.dom().contains(key)]
                self.rows@.dom().contains(key) <==> exists|j: int|
                    0 <= j < held@.len() && held@[j] > 1 && (#[trigger] rows[j]).0 == key by {
                if self.rows@.dom().contains(key) {
                    let j = choose|j: int| 0 <= j < rows.len() && (#[trigger] rows[j]).0 == key;
                    assert(!gone.contains(key));
                    assert(held@[j] > 1);
                }
                if exists|j: int|
                    0 <= j < held@.len() && held@[j] > 1 && (#[trigger] rows[j]).0 == key {
                    let j = choose|j: int|
                        0 <= j < held@.len() && held@[j] > 1 && (#[trigger] rows[j]).0 == key;
                    assert(start.dom().contains(key));
                    if gone.contains(key) {
                        let other = choose|other: int|
                            0 <= other < rows.len() && held@[other] <= 1 && (
                            #[trigger] rows[other]).0 == key;
                        K::order_is_total(key, key, key);
                        if j < other {
                            assert(K::before(rows[j].0, rows[other].0));
                        } else {
                            assert(K::before(rows[other].0, rows[j].0));
                        }
                    }
                }
            }
            assert(self.rows@ =~= still_held(rows, held@));
        }
    }
}

/// A record that somebody holds is given as it was put in, as long as nothing else is put
/// in under its key and it is not forgotten: neither other records nor forgetting those
/// that nobody holds change that. One that nobody holds is not given, nor is one that was
/// never put in.
pub proof fn held_records_are_given<K: TableKey, V>(
    rows: Seq<(K::Model, V)>,
    held: Seq<usize>,
    key: K::Model,
    value: V,
    other: K::Model,
    another: V,
    users: nat,
)
    requires
        rising::<K, V>(rows),
        held.len() == rows.len(),
        other != key,
    ensures
        given(rows_map(rows).insert(key, value), key, users) == if users > 1 {
            Some(value)
        } else {
            None
        },
        given(rows_map(rows).insert(other, another), key, users) == given(
            rows_map(rows),
            key,
            users,
        ),
        given(rows_map(rows).remove(other), key, users) == given(rows_map(rows), key, users),
        given(rows_map(rows).remove(key), key, users) is None,
        given(Map::<K::Model, V>::empty(), key, users) is None,
        forall|i: int|
            0 <= i < rows.len() && (#[trigger] rows[i]).0 == key && held[i] > 1 ==> {
                &&& given(still_held(rows, held), key, held[i] as nat) == Some(rows[i].1)
                &&& given(rows_map(rows), key, held[i] as nat) == Some(rows[i].1)
            },
        forall|i: int|
            0 <= i < rows.len() && (#[trigger] rows[i]).0 == key && held[i] <= 1 ==> {
                &&& !still_held(rows, held).dom().contains(key)
                &&& given(rows_map(rows), key, held[i] as nat) is None
            },
        !rows_map(rows).dom().contains(key) ==> given(still_held(rows, held), key, users) is None,
{
    assert forall|i: int, j: int|
        0 <= i < rows.len() && 0 <= j < rows.len() && (#[trigger] rows[i]).0 == key && (
        #[trigger] rows[j]).0 == key implies i == j by {
        K::order_is_total(key, key, key);
        if i < j {
            assert(K::before(rows[i].0, rows[j].0));
        } else if j < i {
            assert(K::before(rows[j].0, rows[i].0));
        }
    }
    let kept = still_held(rows, held);
    assert forall|i: int| 0 <= i < rows.len() && (#[trigger] rows[i]).0 == key implies {
        &&& rows_map(rows).dom().contains(key)
        &&& rows_map(rows)[key] == rows[i].1
        &&& kept.dom().contains(key) == (held[i] > 1)
    } by {
        let found = choose|found: int| 0 <= found < rows.len() && (#[trigger] rows[found]).0 == key;
        assert(found == i);
    }
}

/// Whether bytes come before others where they are compared one by one.
pub open spec fn bytes_before(a: Seq<u8>, b: Seq<u8>) -> bool {
    text_before(as_chars(a), as_chars(b))
}

pub open spec fn as_chars(bytes: Seq<u8>) -> Seq<char> {
    Seq::new(bytes.len(), |i: int| bytes[i] as char)
}

fn chars_of_bytes(bytes: &Vec<u8>) -> (r: Vec<char>)
    ensures
        r@ == as_chars(bytes@),
{
    let mut out: Vec<char> = Vec::new();
    let mut i: usize = 0;
    while i < bytes.len()
        invariant
            0 <= i <= bytes@.len(),
            out@ == as_chars(bytes@.take(i as int)),
        decreases bytes@.len() - i,
    {
        out.push(bytes[i] as char);
        i += 1;
        assert(out@ =~= as_chars(bytes@.take(i as int)));
    }
    assert(bytes@.take(i as int) =~= bytes@);
    out
}

/// Whether a record is stored before another one: by the bytes of their keys, and of
/// those with the same key the one that came first.
pub open spec fn stored_before(keys: Seq<Vec<u8>>, a: usize, b: usize) -> bool {
    bytes_before(keys[a as int]@, keys[b as int]@) || (as_chars(keys[a as int]@) == as_chars(
        keys[b as int]@,
    ) && a < b)
}

proof fn lemma_stored_before(keys: Seq<Vec<u8>>, a: usize, b: usize, c: usize)
    ensures
        stored_before(keys, a, b) && stored_before(keys, b, c) ==> stored_before(keys, a, c),
        a < b && !bytes_before(keys[b as int]@, keys[a as int]@) ==> stored_before(keys, a, b),
{
    text_order_is_total(
        as_chars(keys[a as int]@),
        as_chars(keys[b as int]@),
        as_chars(keys[c as int]@),
    );
}

/// The order in which many records are stored at once, given their keys.
pub fn bulk_order(keys: &Vec<Vec<u8>>) -> (r: Vec<usize>)
    ensures
        r@.len() == keys@.len(),
        r@.no_duplicates(),
        forall|i: int| 0 <= i < r@.len() ==> #[trigger] r@[i] < keys@.len(),
        forall|i: int, j: int|
            0 <= i < j < r@.len() ==> stored_before(keys@, #[trigger] r@[i], #[trigger] r@[j]),
{
    let mut out: Vec<usize> = Vec::new();
    let mut next: usize = 0;
    while next < keys.len()
        invariant
            0 <= next <= keys@.len(),
            out@.len() == next,
            out@.no_duplicates(),
            forall|i: int| 0 <= i < out@.len() ==> #[trigger] out@[i] < next,
            forall|i: int, j: int|
                0 <= i < j < out@.len() ==> stored_before(
                    keys@,
                    #[trigger] out@[i],
                    #[trigger] out@[j],
                ),
        decreases keys@.len() - next,
    {
        let own = chars_of_bytes(&keys[next]);
        let mut at: usize = 0;
        let mut placed = false;
        while at < out.len() && !placed
            invariant
                at <= out@.len(),
                out@.len() == next,
                next < keys@.len(),
                own@ == as_chars(keys@[next as int]@),
                forall|i: int| 0 <= i < out@.len() ==> #[trigger] out@[i] < next,
                forall|i: int|
                    0 <= i < at ==> !bytes_before(
                        keys@[next as int]@,
                        keys@[#[trigger] out@[i] as int]@,
                    ),
                placed ==> at < out@.len() && bytes_before(
                    keys@[next as int]@,
                    keys@[out@[at as int] as int]@,
                ),
            decreases out@.len() - at + if placed {
                0int
            } else {
                1int
            },
        {
            let place: usize = out[at];
            let other = chars_of_bytes(&keys[place]);
            if chars_before(own.as_slice(), other.as_slice()) {
                placed = true;
            } else {
                at += 1;
            }
        }
        let ghost before = out@;
        out.insert(at, next);
        assert(out@ =~= before.insert(at as int, next));
        assert forall|i: int, j: int| 0 <= i < j < out@.len() implies stored_before(
            keys@,
            #[trigger] out@[i],
            #[trigger] out@[j],
        ) by {
            let pi = if i < at {
                i
            } else {
                i - 1
            };
            let pj = if j < at {
                j
            } else {
                j - 1
            };
            if j == at {
                assert(out@[i] == before[pi]);
                lemma_stored_before(keys@, before[pi], next, next);
            } else if i == at {
                assert(out@[j] == before[pj]);
                assert(stored_before(keys@, next, before[at as int]));
                lemma_stored_before(keys@, next, before[at as int], before[pj]);
            } else {
                assert(out@[i] == before[pi]);
                assert(out@[j] == before[pj]);
            }
        }
        assert(out@.no_duplicates()) by {
            assert forall|i: int, j: int| 0 <= i < out@.len() && 0 <= j < out@.len() && i
                != j implies out@[i] != out@[j] by {
                let pi = if i < at {
                    i
                } else {
                    i - 1
                };
                let pj = if j < at {
                    j
                } else {
                    j - 1
                };
                if i != at {
                    assert(out@[i] == before[pi]);
                }
                if j != at {
                    assert(out@[j] == before[pj]);
                }
            }
        }
        assert forall|i: int| 0 <= i < out@.len() implies #[trigger] out@[i] < next + 1 by {
            if i < at {
                assert(out@[i] == before[i]);
            } else if i > at {
                assert(out@[i] == before[i - 1]);
            }
        }
        next += 1;
    }
    out
}

/// The keys that are stored, without what is none.
pub open spec fn stored_keys<K: PrimaryKey>(raw: Seq<Vec<u8>>) -> Seq<K>
    decreases raw.len(),
{
    if raw.len() == 0 {
        Seq::empty()
    } else {
        let front = stored_keys::<K>(raw.drop_last());
        match K::read(raw.last()@) {
            Some(key) => front.push(key),
            None => front,
        }
    }
}

/// The keys that are stored, without what is none.
pub fn read_keys<K: PrimaryKey>(raw: &Vec<Vec<u8>>) -> (r: Vec<K>)
    ensures
        r@ == stored_keys::<K>(raw@),
{
    let mut out: Vec<K> = Vec::new();
    let mut i: usize = 0;
    while i < raw.len()
        invariant
            0 <= i <= raw@.len(),
            out@ == stored_keys::<K>(raw@.take(i as int)),
        decreases raw@.len() - i,
    {
        let ghost front = raw@.take(i + 1);
        assert(front.drop_last() =~= raw@.take(i as int));
        assert(front.last() == raw@[i as int]);
        if let Some(key) = K::from_bytes(raw[i].as_slice()) {
            out.push(key);
        }
        i += 1;
    }
    assert(raw@.take(i as int) =~= raw@);
    out
}

} // verus!
