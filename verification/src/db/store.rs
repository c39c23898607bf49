//! What is done to records that are kept on disk.
use vstd::prelude::*;

use super::{bulk_order, read_keys, AccessCache, PrimaryKey};
use crate::table::TableKey;
#[allow(unused_imports)]
use super::{stored_before, stored_keys};

verus! {

/// Something that is to be done on disk.
#[derive(Debug)]
pub enum DiskStep {
    /// Bytes are to be kept under a key.
    Write(Vec<u8>, Vec<u8>),
    /// What is kept under a key is to be removed.
    Remove(Vec<u8>),
}

#[verifier::ext_equal]
pub enum DiskModel {
    Write(Seq<u8>, Seq<u8>),
    Remove(Seq<u8>),
}

impl View for DiskStep {
    type V = DiskModel;

    open spec fn view(&self) -> DiskModel {
        match self {
            DiskStep::Write(key, bytes) => DiskModel::Write(key@, bytes@),
            DiskStep::Remove(key) => DiskModel::Remove(key@),
        }
    }
}

pub open spec fn disk_models(steps: Seq<DiskStep>) -> Seq<DiskModel> {
    Seq::new(steps.len(), |i: int| steps[i]@)
}

/// What is kept on disk after something was done there.
pub open spec fn done(disk: Map<Seq<u8>, Seq<u8>>, step: DiskModel) -> Map<Seq<u8>, Seq<u8>> {
    match step {
        DiskModel::Write(key, bytes) => disk.insert(key, bytes),
        DiskModel::Remove(key) => disk.remove(key),
    }
}

/// What is kept on disk after several things were done there.
pub open spec fn all_done(disk: Map<Seq<u8>, Seq<u8>>, steps: Seq<DiskModel>) -> Map<
    Seq<u8>,
    Seq<u8>,
>
    decreases steps.len(),
{
    if steps.len() == 0 {
        disk
    } else {
        done(all_done(disk, steps.drop_last()), steps.last())
    }
}

/// Where a record is found.
#[derive(Debug)]
pub enum Lookup<'a, V> {
    /// It is in use already.
    Cached(&'a V),
    /// It is to be read from what is kept under this key.
    Read(Vec<u8>),
}

/// The records of one kind: those in use are known, the others are on disk.
#[verifier::reject_recursive_types(K)]
pub struct DB<K: TableKey + PrimaryKey, V> {
    pub cache: AccessCache<K, V>,
}

/// The order in which records are stored at once.
pub open spec fn is_bulk_order(keys: Seq<Vec<u8>>, order: Seq<usize>) -> bool {
    &&& order.len() == keys.len()
    &&& order.no_duplicates()
    &&& forall|i: int| 0 <= i < order.len() ==> #[trigger] order[i] < keys.len()
    &&& forall|i: int, j: int|
        0 <= i < j < order.len() ==> stored_before(keys, #[trigger] order[i], #[trigger] order[j])
}

/// Whether these are the keys of records, as they are stored.
pub open spec fn are_stored_keys<K: PrimaryKey>(
    items: Seq<(K, Vec<u8>)>,
    keys: Seq<Vec<u8>>,
) -> bool {
    &&& keys.len() == items.len()
    &&& forall|i: int| 0 <= i < items.len() ==> (#[trigger] keys[i])@ == items[i].0.stored()
}

/// Whether records are written in this order.
pub open spec fn writes_in_order<K: PrimaryKey>(
    items: Seq<(K, Vec<u8>)>,
    order: Seq<usize>,
    steps: Seq<DiskModel>,
) -> bool {
    &&& steps.len() == order.len()
    &&& forall|i: int|
        0 <= i < order.len() ==> #[trigger] steps[i] == DiskModel::Write(
            items[order[i] as int].0.stored(),
            items[order[i] as int].1@,
        )
}

/// What storing many records at once does on disk: each is written once, by the bytes
/// of their keys.
pub open spec fn bulk_stored<K: PrimaryKey>(
    items: Seq<(K, Vec<u8>)>,
    steps: Seq<DiskModel>,
) -> bool {
    exists|keys: Seq<Vec<u8>>, order: Seq<usize>|
        #![trigger is_bulk_order(keys, order)]
        are_stored_keys(items, keys) && is_bulk_order(keys, order) && writes_in_order(
            items,
            order,
            steps,
        )
}

impl<K: TableKey + PrimaryKey, V> DB<K, V> {
    /// Begins with no record in use.
    pub fn create() -> (r: Self)
        ensures
            r.cache@ == Map::<K::Model, V>::empty(),
    {
        DB { cache: AccessCache::new() }
    }

    /// A record is to be stored, whose contents are `bytes`. What was in use under its
    /// key is forgotten, and so is each record that nobody uses any more. `held` says for
    /// each record in use, in the order of their keys, how many hold it.
    pub fn store(&mut self, key: K, bytes: Vec<u8>, held: &Vec<usize>) -> (r: DiskStep)
        requires
            held@.len() == old(self).cache.rows().len(),
        ensures
            r@ == DiskModel::Write(key.stored(), bytes@),
            forall|k: K::Model|
                #![trigger final(self).cache@.dom().contains(k)]
                final(self).cache@.dom().contains(k) <==> k != key.model() && exists|i: int|
                    0 <= i < held@.len() && held@[i] > 1 && (#[trigger] old(
                        self,
                    ).cache.rows()[i]).0 == k,
            forall|k: K::Model|
                final(self).cache@.dom().contains(k) ==> #[trigger] final(self).cache@[k] == old(
                    self,
                ).cache@[k],
    {
        self.cache.clear_stale(held);
        self.cache.invalidate(&key);
        DiskStep::Write(key.to_bytes(), bytes)
    }

    /// A record is wanted. `held` says how many hold the one that is in use.
    pub fn get(&self, index: &K, held: usize) -> (r: Lookup<'_, V>)
        ensures
            match r {
                Lookup::Cached(value) => held > 1 && self.cache@.dom().contains(index.model())
                    && *value == self.cache@[index.model()],
                Lookup::Read(key) => (held <= 1 || !self.cache@.dom().contains(index.model()))
                    && key@ == index.stored(),
            },
    {
        match self.cache.get(index, held) {
            Some(value) => Lookup::Cached(value),
            None => Lookup::Read(index.to_bytes()),
        }
    }

    /// A record was read, if it is there, and is in use from now on.
    pub fn found(&mut self, index: K, value: Option<V>)
        ensures
            final(self).cache@ == match value {
                Some(value) => old(self).cache@.insert(index.model(), value),
                None => old(self).cache@,
            },
    {
        if let Some(value) = value {
            self.cache.insert(index, value);
        }
    }

    /// A record is to be removed, which is on disk or not.
    pub fn remove(&mut self, index: &K, there: bool) -> (r: Option<DiskStep>)
        ensures
            if there {
                &&& r is Some
                &&& r->Some_0@ == DiskModel::Remove(index.stored())
                &&& final(self).cache@ == old(self).cache@.remove(index.model())
            } else {
                &&& r is None
                &&& *final(self) == *old(self)
            },
    {
        if !there {
            return None;
        }
        self.cache.invalidate(index);
        Some(DiskStep::Remove(index.to_bytes()))
    }

    /// A record was read, if it is there, and changed. It is in use as it is now, and not
    /// written.
    pub fn fetch_update(&mut self, index: K, changed: Option<V>)
        ensures
            final(self).cache@ == match changed {
                Some(value) => old(self).cache@.insert(index.model(), value),
                None => old(self).cache@,
            },
    {
        self.found(index, changed)
    }

    /// Many records are to be stored at once, given their keys and their contents.
    pub fn bulk_store(&self, items: &Vec<(K, Vec<u8>)>) -> (r: Vec<DiskStep>)
        ensures
            bulk_stored(items@, disk_models(r@)),
    {
        let mut keys: Vec<Vec<u8>> = Vec::new();
        let mut i: usize = 0;
        while i < items.len()
            invariant
                0 <= i <= items@.len(),
                keys@.len() == i,
                forall|j: int| 0 <= j < i ==> (#[trigger] keys@[j])@ == items@[j].0.stored(),
            decreases items@.len() - i,
        {
            keys.push(items[i].0.to_bytes());
            i += 1;
        }
        let order = bulk_order(&keys);
        assert(is_bulk_order(keys@, order@));
        let mut out: Vec<DiskStep> = Vec::new();
        let mut n: usize = 0;
        while n < order.len()
            invariant
                0 <= n <= order@.len(),
                out@.len() == n,
                is_bulk_order(keys@, order@),
                are_stored_keys(items@, keys@),
                forall|j: int|
                    0 <= j < n ==> (#[trigger] out@[j])@ == DiskModel::Write(
                        items@[order@[j] as int].0.stored(),
                        items@[order@[j] as int].1@,
                    ),
            decreases order@.len() - n,
        {
            let at: usize = order[n];
            let bytes = crate::text::sub_bytes(items[at].1.as_slice(), 0, items[at].1.len());
            assert(bytes@ =~= items@[at as int].1@);
            out.push(DiskStep::Write(items[at].0.to_bytes(), bytes));
            n += 1;
        }
        assert(writes_in_order(items@, order@, disk_models(out@)));
        out
    }

    /// The keys of what is on disk, without what is none.
    pub fn keys(&self, raw: &Vec<Vec<u8>>) -> (r: Vec<K>)
        ensures
            r@ == stored_keys::<K>(raw@),
    {
        read_keys::<K>(raw)
    }
}

/// A record that was stored is what is kept under its key, one that was removed is not
/// kept, and others are kept as they were.
pub proof fn stored_records_are_kept<K: PrimaryKey>(
    disk: Map<Seq<u8>, Seq<u8>>,
    key: K,
    bytes: Seq<u8>,
    other: K,
)
    ensures
        done(disk, DiskModel::Write(key.stored(), bytes)).dom().contains(key.stored()),
        done(disk, DiskModel::Write(key.stored(), bytes))[key.stored()] == bytes,
        !done(disk, DiskModel::Remove(key.stored())).dom().contains(key.stored()),
        other != key ==> {
            let written = done(disk, DiskModel::Write(key.stored(), bytes));
            let removed = done(disk, DiskModel::Remove(key.stored()));
            &&& written.dom().contains(other.stored()) <==> disk.dom().contains(other.stored())
            &&& removed.dom().contains(other.stored()) <==> disk.dom().contains(other.stored())
            &&& written[other.stored()] == disk[other.stored()]
            &&& disk.dom().contains(other.stored()) ==> removed[other.stored()]
                == disk[other.stored()]
        },
{
    if other != key {
        super::keys_stay_apart(other, key);
    }
}

/// What is kept on disk once records are stored that have different keys.
pub open spec fn with_items<K: PrimaryKey>(
    disk: Map<Seq<u8>, Seq<u8>>,
    items: Seq<(K, Vec<u8>)>,
) -> Map<Seq<u8>, Seq<u8>> {
    Map::new(
        |key: Seq<u8>| disk.dom().contains(key) || exists|i: int| is_item(items, i, key),
        |key: Seq<u8>|
            if exists|i: int| is_item(items, i, key) {
                items[choose|i: int| is_item(items, i, key)].1@
            } else {
                disk[key]
            },
    )
}

/// Whether the record at a place is stored under a key.
pub open spec fn is_item<K: PrimaryKey>(items: Seq<(K, Vec<u8>)>, i: int, key: Seq<u8>) -> bool {
    0 <= i < items.len() && items[i].0.stored() == key
}

pub open spec fn keys_differ<K: PrimaryKey>(items: Seq<(K, Vec<u8>)>) -> bool {
    forall|i: int, j: int|
        0 <= i < items.len() && 0 <= j < items.len() && i != j ==> (#[trigger] items[i]).0 != (
        #[trigger] items[j]).0
}

proof fn lemma_item_is_one<K: PrimaryKey>(items: Seq<(K, Vec<u8>)>, i: int, j: int, key: Seq<u8>)
    requires
        keys_differ(items),
        is_item(items, i, key),
        is_item(items, j, key),
    ensures
        i == j,
{
    if i != j {
        super::keys_stay_apart(items[i].0, items[j].0);
    }
}

proof fn lemma_order_is_complete(order: Seq<usize>, n: int, k: int)
    requires
        order.len() == n,
        order.no_duplicates(),
        forall|i: int| 0 <= i < n ==> #[trigger] order[i] < n,
        0 <= k < n,
    ensures
        exists|i: int| 0 <= i < n && #[trigger] order[i] == k,
{
    let places = Seq::new(order.len(), |i: int| order[i] as int);
    assert forall|i: int, j: int| 0 <= i < places.len() && 0 <= j < places.len() && i
        != j implies places[i] != places[j] by {
        assert(order[i] != order[j]);
    }
    assert(places.no_duplicates());
    places.unique_seq_to_set();
    let all = vstd::set_lib::set_int_range(0, n);
    vstd::set_lib::lemma_int_range(0, n);
    assert forall|x: int| places.to_set().contains(x) implies all.contains(x) by {
        let i = choose|i: int| 0 <= i < places.len() && places[i] == x;
        assert(order[i] < n);
    }
    vstd::seq_lib::seq_to_set_is_finite(places);
    vstd::set_lib::lemma_subset_equality(places.to_set(), all);
    assert(all.contains(k));
    assert(places.to_set().contains(k));
    let i = choose|i: int| 0 <= i < places.len() && places[i] == k;
    assert(order[i] == k);
}

/// After the first `m` writes, the disk holds the records that they write.
proof fn lemma_writes<K: PrimaryKey>(
    disk: Map<Seq<u8>, Seq<u8>>,
    items: Seq<(K, Vec<u8>)>,
    order: Seq<usize>,
    steps: Seq<DiskModel>,
    m: int,
    key: Seq<u8>,
)
    requires
        keys_differ(items),
        order.no_duplicates(),
        forall|i: int| 0 <= i < order.len() ==> #[trigger] order[i] < items.len(),
        writes_in_order(items, order, steps),
        0 <= m <= steps.len(),
    ensures
        ({
            let after = all_done(disk, steps.take(m));
            &&& forall|i: int|
                0 <= i < m && items[(#[trigger] order[i]) as int].0.stored() == key
                    ==> after.dom().contains(key) && after[key] == items[order[i] as int].1@
            &&& (forall|i: int|
                0 <= i < m ==> items[(#[trigger] order[i]) as int].0.stored() != key) ==> (
            after.dom().contains(key) <==> disk.dom().contains(key)) && after[key] == disk[key]
        }),
    decreases m,
{
    if m > 0 {
        lemma_writes(disk, items, order, steps, m - 1, key);
        let before = all_done(disk, steps.take(m - 1));
        let after = all_done(disk, steps.take(m));
        assert(steps.take(m).drop_last() =~= steps.take(m - 1));
        let last = order[m - 1] as int;
        assert(steps[m - 1] == DiskModel::Write(items[last].0.stored(), items[last].1@));
        assert(after == before.insert(items[last].0.stored(), items[last].1@));
        assert forall|i: int|
            0 <= i < m && items[(#[trigger] order[i]) as int].0.stored()
                == key implies after.dom().contains(key) && after[key]
            == items[order[i] as int].1@ by {
            if i < m - 1 {
                assert(order[i] != order[m - 1]);
                super::keys_stay_apart(items[order[i] as int].0, items[last].0);
            }
        }
    } else {
        assert(steps.take(0) =~= Seq::empty());
    }
}

/// Storing many records with different keys at once keeps each of them under its key,
/// and leaves what is kept under other keys as it was.
pub proof fn bulk_stores_keep_each_record<K: PrimaryKey>(
    disk: Map<Seq<u8>, Seq<u8>>,
    items: Seq<(K, Vec<u8>)>,
    steps: Seq<DiskModel>,
)
    requires
        keys_differ(items),
        bulk_stored(items, steps),
    ensures
        all_done(disk, steps) == with_items(disk, items),
        forall|i: int|
            0 <= i < items.len() ==> all_done(disk, steps).dom().contains(
                (#[trigger] items[i]).0.stored(),
            ) && all_done(disk, steps)[items[i].0.stored()] == items[i].1@,
        forall|key: Seq<u8>|
            (forall|i: int| !is_item(items, i, key)) ==> (#[trigger] all_done(
                disk,
                steps,
            ).dom().contains(key) <==> disk.dom().contains(key)) && (disk.dom().contains(key)
                ==> all_done(disk, steps)[key] == disk[key]),
{
    let (keys, order) = choose|keys: Seq<Vec<u8>>, order: Seq<usize>|
        #![trigger is_bulk_order(keys, order)]
        are_stored_keys(items, keys) && is_bulk_order(keys, order) && writes_in_order(
            items,
            order,
            steps,
        );
    let after = all_done(disk, steps);
    let wanted = with_items(disk, items);
    let n = items.len() as int;
    assert(steps.take(n) =~= steps);
    assert forall|key: Seq<u8>|
        #![trigger after.dom().contains(key)]
        #![trigger after[key]]
        (after.dom().contains(key) <==> wanted.dom().contains(key)) && (wanted.dom().contains(key)
            ==> after[key] == wanted[key]) by {
        lemma_writes(disk, items, order, steps, n, key);
        if exists|k: int| is_item(items, k, key) {
            let k = choose|k: int| is_item(items, k, key);
            lemma_order_is_complete(order, n, k);
            let i = choose|i: int| 0 <= i < n && #[trigger] order[i] == k;
            assert(items[order[i] as int].0.stored() == key);
        } else {
            assert forall|i: int| 0 <= i < n implies items[(
            #[trigger] order[i]) as int].0.stored() != key by {
                assert(!is_item(items, order[i] as int, key));
            }
        }
    }
    assert(after.dom() =~= wanted.dom());
    assert(after =~= wanted);
    assert forall|i: int| 0 <= i < items.len() implies after.dom().contains(
        (#[trigger] items[i]).0.stored(),
    ) && after[items[i].0.stored()] == items[i].1@ by {
        let key = items[i].0.stored();
        assert(is_item(items, i, key));
        let k = choose|k: int| is_item(items, k, key);
        lemma_item_is_one(items, i, k, key);
    }
    assert forall|key: Seq<u8>| (forall|i: int| !is_item(items, i, key)) implies (
    #[trigger] after.dom().contains(key) <==> disk.dom().contains(key)) && (disk.dom().contains(
        key,
    ) ==> after[key] == disk[key]) by {
        lemma_writes(disk, items, order, steps, n, key);
        assert forall|i: int| 0 <= i < n implies items[(#[trigger] order[i]) as int].0.stored()
            != key by {
            assert(!is_item(items, order[i] as int, key));
        }
    }
}

/// Whether all records of one row are in another one too.
pub open spec fn are_among<K: PrimaryKey>(
    items: Seq<(K, Vec<u8>)>,
    others: Seq<(K, Vec<u8>)>,
) -> bool {
    forall|i: int|
        0 <= i < items.len() ==> exists|j: int|
            0 <= j < others.len() && (#[trigger] others[j]).0 == (#[trigger] items[i]).0
                && others[j].1@ == items[i].1@
}

/// In which order many records with different keys are given makes no difference to
/// what is kept.
pub proof fn bulk_stores_in_any_order_agree<K: PrimaryKey>(
    disk: Map<Seq<u8>, Seq<u8>>,
    items: Seq<(K, Vec<u8>)>,
    steps: Seq<DiskModel>,
    others: Seq<(K, Vec<u8>)>,
    other_steps: Seq<DiskModel>,
)
    requires
        keys_differ(items),
        keys_differ(others),
        are_among(items, others),
        are_among(others, items),
        bulk_stored(items, steps),
        bulk_stored(others, other_steps),
    ensures
        all_done(disk, steps) == all_done(disk, other_steps),
{
    bulk_stores_keep_each_record(disk, items, steps);
    bulk_stores_keep_each_record(disk, others, other_steps);
    let a = all_done(disk, steps);
    let b = all_done(disk, other_steps);
    assert forall|key: Seq<u8>|
        #![trigger a.dom().contains(key)]
        #![trigger a[key]]
        (a.dom().contains(key) <==> b.dom().contains(key)) && (a.dom().contains(key) ==> a[key]
            == b[key]) by {
        if exists|i: int| is_item(items, i, key) {
            let i = choose|i: int| is_item(items, i, key);
            let j = choose|j: int|
                0 <= j < others.len() && (#[trigger] others[j]).0 == items[i].0 && others[j].1@
                    == items[i].1@;
            assert(others[j].0.stored() == key);
        } else if exists|j: int| is_item(others, j, key) {
            let j = choose|j: int| is_item(others, j, key);
            let i = choose|i: int|
                0 <= i < items.len() && (#[trigger] items[i]).0 == others[j].0 && items[i].1@
                    == others[j].1@;
            assert(is_item(items, i, key));
        }
    }
    assert(a.dom() =~= b.dom());
    assert(a =~= b);
}

} // verus!
