//! The downloads: those that go on, those that wait, and how the others ended.
use std::collections::hash_map::RandomState;

use ringmap::RingMap;
use vstd::prelude::*;

use crate::table::Table;

verus! {

#[verifier::external_type_specification]
#[verifier::external_body]
#[verifier::reject_recursive_types(K)]
#[verifier::reject_recursive_types(V)]
#[verifier::reject_recursive_types(S)]
pub struct ExRingMap<K, V, S>(RingMap<K, V, S>);

/// The pairs of a queue, in order.
pub uninterp spec fn queue_rows(queue: RingMap<u32, u64, RandomState>) -> Seq<(u32, u64)>;

/// Whether a key stands in a row of pairs.
pub open spec fn in_rows(rows: Seq<(u32, u64)>, key: u32) -> bool {
    exists|i: int| 0 <= i < rows.len() && (#[trigger] rows[i]).0 == key
}

/// Where a key stands in a row of pairs.
pub open spec fn place_in(rows: Seq<(u32, u64)>, key: u32) -> int {
    choose|i: int| 0 <= i < rows.len() && (#[trigger] rows[i]).0 == key
}

/// A queue with a pair at its end, or with another value for a key that it has.
pub open spec fn pushed(rows: Seq<(u32, u64)>, key: u32, value: u64) -> Seq<(u32, u64)> {
    if in_rows(rows, key) {
        rows.update(place_in(rows, key), (key, value))
    } else {
        rows.push((key, value))
    }
}

/// A queue without a key.
pub open spec fn taken_out(rows: Seq<(u32, u64)>, key: u32) -> Seq<(u32, u64)> {
    if in_rows(rows, key) {
        rows.remove(place_in(rows, key))
    } else {
        rows
    }
}

/// Whether no key occurs twice.
pub open spec fn keys_differ(rows: Seq<(u32, u64)>) -> bool {
    forall|i: int, j: int|
        0 <= i < j < rows.len() ==> (#[trigger] rows[i]).0 != (#[trigger] rows[j]).0
}

/// `new` of [`RingMap`] makes an empty map.
#[verifier::external_body]
fn new_queue() -> (r: RingMap<u32, u64, RandomState>)
    ensures
        queue_rows(r) == Seq::<(u32, u64)>::empty(),
{
    RingMap::new()
}

/// `push_back` of [`RingMap`] puts a pair at the end of the map, or gives a key
/// that the map has another value and leaves it in its place. No key occurs
/// twice.
#[verifier::external_body]
fn push_back(queue: &mut RingMap<u32, u64, RandomState>, key: u32, value: u64)
    ensures
        queue_rows(*final(queue)) == pushed(queue_rows(*old(queue)), key, value),
        keys_differ(queue_rows(*final(queue))),
{
    queue.push_back(key, value);
}

/// `pop_front` of [`RingMap`] takes the first pair out, if there is one.
#[verifier::external_body]
fn pop_front(queue: &mut RingMap<u32, u64, RandomState>) -> (r: Option<(u32, u64)>)
    ensures
        match r {
            Some(pair) => queue_rows(*old(queue)).len() > 0 && pair == queue_rows(*old(queue))[0]
                && queue_rows(*final(queue)) == queue_rows(*old(queue)).skip(1),
            None => queue_rows(*old(queue)).len() == 0 && queue_rows(*final(queue)) == queue_rows(
                *old(queue),
            ),
        },
{
    queue.pop_front()
}

/// `remove` of [`RingMap`] takes a key out, and leaves the others in their order.
#[verifier::external_body]
fn remove_key(queue: &mut RingMap<u32, u64, RandomState>, key: u32) -> (r: Option<u64>)
    ensures
        queue_rows(*final(queue)) == taken_out(queue_rows(*old(queue)), key),
        match r {
            Some(value) => in_rows(queue_rows(*old(queue)), key) && value == queue_rows(
                *old(queue),
            )[place_in(queue_rows(*old(queue)), key)].1,
            None => !in_rows(queue_rows(*old(queue)), key),
        },
{
    queue.remove(&key)
}

/// `contains_key` of [`RingMap`] says whether a key is there.
#[verifier::external_body]
fn contains_key(queue: &RingMap<u32, u64, RandomState>, key: u32) -> (r: bool)
    ensures
        r == in_rows(queue_rows(*queue), key),
{
    queue.contains_key(&key)
}

/// `get_index` of [`RingMap`] gives the pair at a place, if there is one.
#[verifier::external_body]
fn get_index(queue: &RingMap<u32, u64, RandomState>, index: usize) -> (r: Option<(u32, u64)>)
    ensures
        match r {
            Some(pair) => index < queue_rows(*queue).len() && pair == queue_rows(
                *queue,
            )[index as int],
            None => index >= queue_rows(*queue).len(),
        },
{
    queue.get_index(index).map(|pair| (*pair.0, *pair.1))
}

/// `len` of [`RingMap`] gives the number of pairs.
#[verifier::external_body]
fn count_keys(queue: &RingMap<u32, u64, RandomState>) -> (r: usize)
    ensures
        r == queue_rows(*queue).len(),
{
    queue.len()
}

/// The downloads: those that go on, those that wait, and how the others ended.
pub struct Downloads {
    pub download_queue: RingMap<u32, u64, RandomState>,
    /// Items that were found to be outdated, with when they were last updated.
    pub pending_queue: Table<u32, u64>,
    /// What is being downloaded, and how much of it is there.
    pub ongoing_download: Option<(u32, u64)>,
    pub completed_downloads: Table<u32, ()>,
    pub errorred_downloads: Table<u32, String>,
}

#[verifier::ext_equal]
pub struct DownloadsModel {
    pub queue: Seq<(u32, u64)>,
    pub pending: Map<u32, u64>,
    pub ongoing: Option<(u32, u64)>,
    pub completed: Set<u32>,
    pub errored: Map<u32, Seq<char>>,
}

/// A table of texts by numbers, by what it says.
pub open spec fn message_map(table: Map<u32, String>) -> Map<u32, Seq<char>> {
    Map::new(|k: u32| table.dom().contains(k), |k: u32| table[k]@)
}

impl View for Downloads {
    type V = DownloadsModel;

    open spec fn view(&self) -> DownloadsModel {
        DownloadsModel {
            queue: queue_rows(self.download_queue),
            pending: self.pending_queue@,
            ongoing: self.ongoing_download,
            completed: self.completed_downloads@.dom(),
            errored: message_map(self.errorred_downloads@),
        }
    }
}

impl DownloadsModel {
    /// Whether an item is being downloaded or waits for it.
    pub open spec fn is_downloading(self, id: u32) -> bool {
        (self.ongoing is Some && self.ongoing->Some_0.0 == id) || in_rows(self.queue, id)
    }

    /// Begins to download an item.
    pub open spec fn performing(self, id: u32) -> DownloadsModel {
        DownloadsModel { ongoing: Some((id, 0)), ..self }
    }

    /// The item that is to be downloaded next: the first that waits, if nothing
    /// is being downloaded.
    pub open spec fn next(self, logged_in: bool) -> Option<u32> {
        if logged_in && self.ongoing is None && self.queue.len() > 0 {
            Some(self.queue[0].0)
        } else {
            None
        }
    }

    /// The downloads after the next one was begun.
    pub open spec fn queued(self, logged_in: bool) -> DownloadsModel {
        match self.next(logged_in) {
            Some(id) => DownloadsModel { queue: self.queue.skip(1), ..self }.performing(id),
            None => self,
        }
    }

    /// The downloads after one was asked for.
    pub open spec fn requested(self, id: u32, logged_in: bool) -> DownloadsModel {
        if !logged_in || self.is_downloading(id) {
            self
        } else {
            let cleared = DownloadsModel { errored: self.errored.remove(id), ..self };
            if self.ongoing is None {
                cleared.performing(id)
            } else {
                DownloadsModel { queue: pushed(self.queue, id, 0), ..cleared }
            }
        }
    }

    /// The downloads after one that waited was cancelled.
    pub open spec fn cancelled(self, id: u32) -> DownloadsModel {
        if in_rows(self.queue, id) {
            DownloadsModel {
                queue: taken_out(self.queue, id),
                errored: self.errored.insert(id, "Cancelled"@),
                ..self
            }
        } else {
            self
        }
    }

    /// The downloads after one ended well.
    pub open spec fn completed_one(self, id: u32) -> DownloadsModel {
        DownloadsModel { ongoing: None, completed: self.completed.insert(id), ..self }
    }

    /// The downloads after one failed.
    pub open spec fn errored_one(self, id: u32, message: Seq<char>) -> DownloadsModel {
        DownloadsModel { ongoing: None, errored: self.errored.insert(id, message), ..self }
    }

    /// The downloads after one got on.
    pub open spec fn progressed(self, id: u32, size: u64) -> DownloadsModel {
        match self.ongoing {
            Some((current, _)) => if current == id {
                DownloadsModel { ongoing: Some((id, size)), ..self }
            } else {
                self
            },
            None => self,
        }
    }

    /// The downloads after items were put at the end of the queue.
    pub open spec fn appended(self, ids: Seq<u32>) -> DownloadsModel
        decreases ids.len(),
    {
        if ids.len() == 0 {
            self
        } else {
            let front = self.appended(ids.drop_last());
            DownloadsModel { queue: pushed(front.queue, ids.last(), 0), ..front }
        }
    }

    /// The downloads after items that were found to be outdated were put at the
    /// end of the queue.
    pub open spec fn pushed_pending(self, ids: Seq<u32>) -> DownloadsModel
        decreases ids.len(),
    {
        if ids.len() == 0 {
            self
        } else {
            let front = self.pushed_pending(ids.drop_last());
            let id = ids.last();
            if front.pending.dom().contains(id) {
                DownloadsModel {
                    pending: front.pending.remove(id),
                    queue: pushed(front.queue, id, 0),
                    ..front
                }
            } else {
                front
            }
        }
    }

    /// The downloads after items were found to be outdated.
    pub open spec fn outdated(self, found: Seq<(u32, u64)>) -> DownloadsModel
        decreases found.len(),
    {
        if found.len() == 0 {
            self
        } else {
            let front = self.outdated(found.drop_last());
            let (id, time) = found.last();
            if self.is_downloading(id) {
                front
            } else {
                DownloadsModel { pending: front.pending.insert(id, time), ..front }
            }
        }
    }
}

/// What came of a request for a download.
#[derive(Debug, Clone, Copy, PartialEq, Eq, Structural)]
pub enum Requested {
    NotLoggedIn,
    /// It goes on, or waits, already.
    Nothing,
    Started,
    Queued,
}

impl Default for Downloads {
    fn default() -> (r: Self)
        ensures
            r@ == (DownloadsModel {
                queue: Seq::empty(),
                pending: Map::empty(),
                ongoing: None,
                completed: Set::empty(),
                errored: Map::empty(),
            }),
    {
        let r = Downloads {
            download_queue: new_queue(),
            pending_queue: Table::new(),
            ongoing_download: None,
            completed_downloads: Table::new(),
            errorred_downloads: Table::new(),
        };
        assert(r@.completed =~= Set::empty());
        assert(r@.errored =~= Map::empty());
        r
    }
}

impl Downloads {
    /// Whether an item is being downloaded or waits for it.
    pub fn is_downloading(&self, id: u32) -> (r: bool)
        ensures
            r == self@.is_downloading(id),
    {
        let ongoing = match self.ongoing_download {
            Some((current, _)) => current == id,
            None => false,
        };
        ongoing || contains_key(&self.download_queue, id)
    }

    /// Whether an item waits.
    pub fn is_queued(&self, id: u32) -> (r: bool)
        ensures
            r == in_rows(self@.queue, id),
    {
        contains_key(&self.download_queue, id)
    }

    /// How many items wait.
    pub fn queue_len(&self) -> (r: usize)
        ensures
            r == self@.queue.len(),
    {
        count_keys(&self.download_queue)
    }

    /// An item that waits, and how much of it is there.
    pub fn queued_at(&self, i: usize) -> (r: (u32, u64))
        requires
            i < self@.queue.len(),
        ensures
            r == self@.queue[i as int],
    {
        match get_index(&self.download_queue, i) {
            Some(pair) => pair,
            None => (0, 0),
        }
    }

    /// Whether nothing waits.
    pub fn queue_is_empty(&self) -> (r: bool)
        ensures
            r == (self@.queue.len() == 0),
    {
        count_keys(&self.download_queue) == 0
    }

    /// Begins to download an item.
    pub fn perform_download(&mut self, id: u32)
        ensures
            final(self)@ == old(self)@.performing(id),
    {
        self.ongoing_download = Some((id, 0));
    }

    /// Begins the next download, if there is one and nothing goes on.
    pub fn queue_downloads(&mut self, logged_in: bool) -> (r: Option<u32>)
        ensures
            r == old(self)@.next(logged_in),
            final(self)@ == old(self)@.queued(logged_in),
    {
        if !logged_in || self.ongoing_download.is_some() {
            return None;
        }
        match pop_front(&mut self.download_queue) {
            Some((id, _)) => {
                self.perform_download(id);
                Some(id)
            },
            None => None,
        }
    }

    /// Asks for a download.
    pub fn request(&mut self, id: u32, logged_in: bool) -> (r: Requested)
        ensures
            final(self)@ == old(self)@.requested(id, logged_in),
            r == if !logged_in {
                Requested::NotLoggedIn
            } else if old(self)@.is_downloading(id) {
                Requested::Nothing
            } else if old(self)@.ongoing is None {
                Requested::Started
            } else {
                Requested::Queued
            },
    {
        let ghost start = self@;
        if !logged_in {
            return Requested::NotLoggedIn;
        }
        if self.is_downloading(id) {
            return Requested::Nothing;
        }
        let gone = self.errorred_downloads.remove(&id);
        assert(self@.errored =~= start.errored.remove(id));
        if self.ongoing_download.is_none() {
            self.perform_download(id);
            return Requested::Started;
        }
        push_back(&mut self.download_queue, id, 0);
        Requested::Queued
    }

    /// Cancels a download that waits.
    pub fn cancel(&mut self, id: u32) -> (r: bool)
        ensures
            final(self)@ == old(self)@.cancelled(id),
            r == in_rows(old(self)@.queue, id),
    {
        let ghost start = self@;
        match remove_key(&mut self.download_queue, id) {
            Some(_) => {
                self.errorred_downloads.insert(id, "Cancelled".to_owned());
                assert(self@.errored =~= start.errored.insert(id, "Cancelled"@));
                true
            },
            None => false,
        }
    }

    /// A download ended well.
    pub fn complete(&mut self, id: u32)
        ensures
            final(self)@ == old(self)@.completed_one(id),
    {
        let ghost start = self@;
        self.ongoing_download = None;
        self.completed_downloads.insert(id, ());
        assert(self@.completed =~= start.completed.insert(id));
    }

    /// A download failed.
    pub fn fail(&mut self, id: u32, message: String)
        ensures
            final(self)@ == old(self)@.errored_one(id, message@),
    {
        let ghost start = self@;
        let ghost view = message@;
        self.ongoing_download = None;
        self.errorred_downloads.insert(id, message);
        assert(self@.errored =~= start.errored.insert(id, view));
    }

    /// A download got on. Says whether it is the one that goes on.
    pub fn progress(&mut self, id: u32, size: u64) -> (r: bool)
        ensures
            final(self)@ == old(self)@.progressed(id, size),
            r == (old(self)@.ongoing is Some && old(self)@.ongoing->Some_0.0 == id),
    {
        match self.ongoing_download {
            Some((current, _)) => {
                if current != id {
                    return false;
                }
                self.ongoing_download = Some((id, size));
                true
            },
            None => false,
        }
    }

    /// Forgets an item that is no longer there.
    pub fn forget(&mut self, id: u32)
        ensures
            final(self)@ == (DownloadsModel {
                completed: old(self)@.completed.remove(id),
                ..old(self)@
            }),
    {
        let ghost start = self@;
        let gone = self.completed_downloads.remove(&id);
        assert(self@.completed =~= start.completed.remove(id));
    }

    /// Forgets downloads that ended well.
    pub fn clear_completed(&mut self, ids: &Vec<u32>)
        ensures
            final(self)@ == (DownloadsModel {
                completed: old(self)@.completed.difference(ids@.to_set()),
                ..old(self)@
            }),
    {
        let ghost start = self@;
        let mut i: usize = 0;
        assert(self@.completed =~= start.completed.difference(ids@.take(0).to_set()));
        while i < ids.len()
            invariant
                0 <= i <= ids@.len(),
                start == old(self)@,
                self@ == (DownloadsModel {
                    completed: start.completed.difference(ids@.take(i as int).to_set()),
                    ..start
                }),
            decreases ids@.len() - i,
        {
            let ghost before = self@.completed;
            let gone = self.completed_downloads.remove(&ids[i]);
            proof {
                lemma_take_one_more(ids@, i as int);
                assert(self@.completed =~= before.remove(ids@[i as int]));
                assert(self@.completed =~= start.completed.difference(
                    ids@.take(i + 1).to_set(),
                ));
            }
            i += 1;
        }
        assert(ids@.take(i as int) =~= ids@);
    }

    /// Forgets downloads that failed.
    pub fn clear_errored(&mut self, ids: &Vec<u32>)
        ensures
            final(self)@ == (DownloadsModel {
                errored: old(self)@.errored.remove_keys(ids@.to_set()),
                ..old(self)@
            }),
    {
        let ghost start = self@;
        let mut i: usize = 0;
        assert(self@.errored =~= start.errored.remove_keys(ids@.take(0).to_set()));
        while i < ids.len()
            invariant
                0 <= i <= ids@.len(),
                start == old(self)@,
                self@ == (DownloadsModel {
                    errored: start.errored.remove_keys(ids@.take(i as int).to_set()),
                    ..start
                }),
            decreases ids@.len() - i,
        {
            let ghost before = self@.errored;
            let gone = self.errorred_downloads.remove(&ids[i]);
            proof {
                lemma_take_one_more(ids@, i as int);
                assert(self@.errored =~= before.remove(ids@[i as int]));
                assert(self@.errored =~= start.errored.remove_keys(ids@.take(i + 1).to_set()));
            }
            i += 1;
        }
        assert(ids@.take(i as int) =~= ids@);
    }

    /// Puts items at the end of the queue and begins the next download.
    pub fn append(&mut self, ids: &Vec<u32>, logged_in: bool) -> (r: Option<u32>)
        ensures
            r == old(self)@.appended(ids@).next(logged_in),
            final(self)@ == old(self)@.appended(ids@).queued(logged_in),
    {
        let ghost start = self@;
        let mut i: usize = 0;
        while i < ids.len()
            invariant
                0 <= i <= ids@.len(),
                start == old(self)@,
                self@ == start.appended(ids@.take(i as int)),
            decreases ids@.len() - i,
        {
            proof {
                assert(ids@.take(i + 1).drop_last() =~= ids@.take(i as int));
                assert(ids@.take(i + 1).last() == ids@[i as int]);
            }
            push_back(&mut self.download_queue, ids[i], 0);
            i += 1;
        }
        assert(ids@.take(i as int) =~= ids@);
        self.queue_downloads(logged_in)
    }

    /// Puts items that were found to be outdated at the end of the queue and
    /// begins the next download.
    pub fn push_pending(&mut self, ids: &Vec<u32>, logged_in: bool) -> (r: Option<u32>)
        ensures
            r == old(self)@.pushed_pending(ids@).next(logged_in),
            final(self)@ == old(self)@.pushed_pending(ids@).queued(logged_in),
    {
        let ghost start = self@;
        let mut i: usize = 0;
        while i < ids.len()
            invariant
                0 <= i <= ids@.len(),
                start == old(self)@,
                self@ == start.pushed_pending(ids@.take(i as int)),
            decreases ids@.len() - i,
        {
            proof {
                assert(ids@.take(i + 1).drop_last() =~= ids@.take(i as int));
                assert(ids@.take(i + 1).last() == ids@[i as int]);
            }
            let id: u32 = ids[i];
            if self.pending_queue.remove(&id).is_some() {
                push_back(&mut self.download_queue, id, 0);
            } else {
                assert(self@.pending =~= start.pushed_pending(ids@.take(i as int)).pending);
            }
            i += 1;
        }
        assert(ids@.take(i as int) =~= ids@);
        self.queue_downloads(logged_in)
    }

    /// Notes items that were found to be outdated, but for those that are being
    /// downloaded or wait for it.
    pub fn note_outdated(&mut self, found: &Vec<(u32, u64)>)
        ensures
            final(self)@ == old(self)@.outdated(found@),
    {
        let ghost start = self@;
        let mut i: usize = 0;
        while i < found.len()
            invariant
                0 <= i <= found@.len(),
                start == old(self)@,
                self@ == start.outdated(found@.take(i as int)),
                self@.queue == start.queue,
                self@.ongoing == start.ongoing,
            decreases found@.len() - i,
        {
            proof {
                assert(found@.take(i + 1).drop_last() =~= found@.take(i as int));
                assert(found@.take(i + 1).last() == found@[i as int]);
            }
            let (id, time) = found[i];
            if !self.is_downloading(id) {
                self.pending_queue.insert(id, time);
            }
            i += 1;
        }
        assert(found@.take(i as int) =~= found@);
    }
}

pub proof fn lemma_take_one_more(ids: Seq<u32>, i: int)
    requires
        0 <= i < ids.len(),
    ensures
        ids.take(i + 1).to_set() == ids.take(i).to_set().insert(ids[i]),
{
    let short = ids.take(i);
    let long = ids.take(i + 1);
    assert(long =~= short.push(ids[i]));
    assert forall|x: u32| long.contains(x) <==> short.contains(x) || x == ids[i] by {
        if short.contains(x) {
            let k = choose|k: int| 0 <= k < short.len() && short[k] == x;
            assert(long[k] == x);
        }
        if x == ids[i] {
            assert(long[i] == x);
        }
        if long.contains(x) {
            let k = choose|k: int| 0 <= k < long.len() && long[k] == x;
            if k < i {
                assert(short[k] == x);
            }
        }
    }
    assert(long.to_set() =~= short.to_set().insert(ids[i]));
}

/// A download that was asked for goes on or waits afterwards, and asking for it
/// again changes nothing.
pub proof fn a_requested_download_is_not_lost(m: DownloadsModel, id: u32)
    ensures
        m.requested(id, true).is_downloading(id),
        m.requested(id, true).requested(id, true) == m.requested(id, true),
        !m.requested(id, true).errored.dom().contains(id) || m.is_downloading(id),
{
    let after = m.requested(id, true);
    if !m.is_downloading(id) && m.ongoing is Some {
        assert(after.queue == m.queue.push((id, 0u64)));
        assert(after.queue[m.queue.len() as int].0 == id);
    }
}

/// Without a login nothing is begun.
pub proof fn nothing_begins_without_a_login(m: DownloadsModel, id: u32, ids: Seq<u32>)
    ensures
        m.requested(id, false) == m,
        m.queued(false) == m,
        m.appended(ids).queued(false).ongoing == m.ongoing,
    decreases ids.len(),
{
    if ids.len() > 0 {
        nothing_begins_without_a_login(m, id, ids.drop_last());
    }
}

/// What goes on is not given up for what waits.
pub proof fn one_download_at_a_time(m: DownloadsModel, id: u32, logged_in: bool)
    requires
        m.ongoing is Some,
    ensures
        m.requested(id, logged_in).ongoing == m.ongoing,
        m.queued(logged_in).ongoing == m.ongoing,
{
}

/// Downloads are begun in the order in which they were put into the queue: those
/// before the last one do not move when another is asked for.
pub proof fn the_queue_keeps_its_order(m: DownloadsModel, id: u32, i: int)
    requires
        0 <= i < m.queue.len(),
    ensures
        i < m.requested(id, true).queue.len(),
        m.requested(id, true).queue[i].0 == m.queue[i].0,
{
}

/// A cancelled download does not wait any more, and is noted as cancelled.
pub proof fn a_cancelled_download_does_not_wait(m: DownloadsModel, id: u32)
    requires
        keys_differ(m.queue),
    ensures
        !in_rows(m.cancelled(id).queue, id),
        in_rows(m.queue, id) ==> m.cancelled(id).errored[id] == "Cancelled"@,
        forall|other: u32|
            other != id ==> (in_rows(m.cancelled(id).queue, other) <==> in_rows(m.queue, other)),
{
    if in_rows(m.queue, id) {
        let p = place_in(m.queue, id);
        let after = m.queue.remove(p);
        assert forall|i: int| 0 <= i < after.len() implies (#[trigger] after[i]).0 != id by {
            if i < p {
                assert(after[i] == m.queue[i]);
            } else {
                assert(after[i] == m.queue[i + 1]);
            }
        }
        assert forall|other: u32| other != id implies (in_rows(after, other) <==> in_rows(
            m.queue,
            other,
        )) by {
            if in_rows(m.queue, other) {
                let k = place_in(m.queue, other);
                if k < p {
                    assert(after[k].0 == other);
                } else {
                    assert(after[k - 1].0 == other);
                }
            }
            if in_rows(after, other) {
                let k = place_in(after, other);
                if k < p {
                    assert(m.queue[k].0 == other);
                } else {
                    assert(m.queue[k + 1].0 == other);
                }
            }
        }
    }
}

/// Items that are being downloaded, or wait for it, are not noted as outdated.
pub proof fn downloads_are_not_noted_as_outdated(
    m: DownloadsModel,
    found: Seq<(u32, u64)>,
    id: u32,
)
    requires
        m.is_downloading(id),
    ensures
        m.outdated(found).pending.dom().contains(id) == m.pending.dom().contains(id),
    decreases found.len(),
{
    if found.len() > 0 {
        downloads_are_not_noted_as_outdated(m, found.drop_last(), id);
    }
}

proof fn lemma_pushed(rows: Seq<(u32, u64)>, key: u32, value: u64)
    ensures
        rows.len() <= pushed(rows, key, value).len() <= rows.len() + 1,
        forall|i: int|
            0 <= i < rows.len() ==> (#[trigger] pushed(rows, key, value)[i]).0 == rows[i].0,
        forall|id: u32| #[trigger]
            in_rows(pushed(rows, key, value), id) <==> in_rows(rows, id) || id == key,
        !in_rows(rows, key) ==> pushed(rows, key, value) == rows.push((key, value)),
{
    let after = pushed(rows, key, value);
    assert forall|id: u32| #[trigger] in_rows(after, id) <==> in_rows(rows, id) || id == key by {
        if in_rows(after, id) {
            let k = place_in(after, id);
            if k < rows.len() {
                assert(rows[k].0 == id);
            }
        }
        if in_rows(rows, id) {
            let k = place_in(rows, id);
            assert(after[k].0 == id);
        }
        if id == key {
            if in_rows(rows, key) {
                assert(after[place_in(rows, key)].0 == id);
            } else {
                assert(after[rows.len() as int].0 == id);
            }
        }
    }
}

/// Whether everything that waits in a row waits in another one too, at the same place.
pub open spec fn waits_as_before(before: Seq<(u32, u64)>, after: Seq<(u32, u64)>) -> bool {
    &&& before.len() <= after.len()
    &&& forall|i: int| 0 <= i < before.len() ==> (#[trigger] after[i]).0 == before[i].0
}

/// Beginning the next download takes the first item that waits, leaves the others in their
/// order, and loses none: each that went on or waited goes on or waits. It begins whenever
/// it can: with a login, where nothing goes on and something waits.
pub proof fn beginning_the_next_loses_nothing(m: DownloadsModel, logged_in: bool)
    ensures
        ({
            let after = m.queued(logged_in);
            let begins = logged_in && m.ongoing is None && m.queue.len() > 0;
            &&& begins ==> after.ongoing == Some((m.queue[0].0, 0u64)) && after.queue.len()
                == m.queue.len() - 1
            &&& begins ==> forall|i: int|
                0 <= i < after.queue.len() ==> #[trigger] after.queue[i] == m.queue[i + 1]
            &&& begins ==> m.next(logged_in) == Some(m.queue[0].0)
            &&& !begins ==> after == m && m.next(logged_in) is None
            &&& after.pending == m.pending && after.completed == m.completed && after.errored
                == m.errored
            &&& forall|id: u32|
                #![trigger in_rows(m.queue, id)]
                (in_rows(m.queue, id) || (m.ongoing is Some && m.ongoing->Some_0.0 == id)) ==> (
                in_rows(after.queue, id) || (after.ongoing is Some && after.ongoing->Some_0.0
                    == id))
        }),
{
    let after = m.queued(logged_in);
    assert forall|id: u32|
        #![trigger in_rows(m.queue, id)]
        (in_rows(m.queue, id) || (m.ongoing is Some && m.ongoing->Some_0.0 == id)) implies (
    in_rows(after.queue, id) || (after.ongoing is Some && after.ongoing->Some_0.0 == id)) by {
        if in_rows(m.queue, id) && m.next(logged_in) is Some {
            let k = place_in(m.queue, id);
            if k > 0 {
                assert(after.queue[k - 1] == m.queue[k]);
                assert(after.queue[k - 1].0 == id);
            }
        }
    }
}

/// Items that were found to be outdated and are pushed wait to be downloaded, and are no
/// longer pending. What waited before keeps its place, other items neither wait nor stop
/// being pending, and nothing else changes.
pub proof fn pushed_items_wait(m: DownloadsModel, ids: Seq<u32>)
    ensures
        ({
            let after = m.pushed_pending(ids);
            &&& forall|id: u32|
                #![trigger in_rows(after.queue, id)]
                in_rows(after.queue, id) <==> in_rows(m.queue, id) || (ids.contains(id)
                    && m.pending.dom().contains(id))
            &&& waits_as_before(m.queue, after.queue)
            &&& forall|id: u32|
                #![trigger after.pending.dom().contains(id)]
                after.pending.dom().contains(id) <==> m.pending.dom().contains(id) && !ids.contains(
                    id,
                )
            &&& forall|id: u32|
                after.pending.dom().contains(id) ==> #[trigger] after.pending[id] == m.pending[id]
            &&& after.ongoing == m.ongoing && after.completed == m.completed && after.errored
                == m.errored
        }),
    decreases ids.len(),
{
    let after = m.pushed_pending(ids);
    if ids.len() > 0 {
        let fewer = ids.drop_last();
        let last = ids.last();
        pushed_items_wait(m, fewer);
        let front = m.pushed_pending(fewer);
        lemma_pushed(front.queue, last, 0);
        assert forall|id: u32| #[trigger] ids.contains(id) <==> fewer.contains(id) || id == last by {
            if ids.contains(id) {
                let k = choose|k: int| 0 <= k < ids.len() && ids[k] == id;
                if k < fewer.len() {
                    assert(fewer[k] == id);
                }
            }
            if fewer.contains(id) {
                let k = choose|k: int| 0 <= k < fewer.len() && fewer[k] == id;
                assert(ids[k] == id);
            }
            if id == last {
                assert(ids[ids.len() - 1] == id);
            }
        }
        assert forall|id: u32|
            #![trigger in_rows(after.queue, id)]
            in_rows(after.queue, id) <==> in_rows(m.queue, id) || (ids.contains(id)
                && m.pending.dom().contains(id)) by {
            assert(in_rows(front.queue, id) <==> in_rows(m.queue, id) || (fewer.contains(id)
                && m.pending.dom().contains(id)));
            assert(ids.contains(id) <==> fewer.contains(id) || id == last);
            assert(front.pending.dom().contains(last) <==> m.pending.dom().contains(last)
                && !fewer.contains(last));
        }
        assert forall|i: int| 0 <= i < m.queue.len() implies (#[trigger] after.queue[i]).0
            == m.queue[i].0 by {
            assert(front.queue[i].0 == m.queue[i].0);
        }
        assert forall|id: u32|
            #![trigger after.pending.dom().contains(id)]
            after.pending.dom().contains(id) <==> m.pending.dom().contains(id) && !ids.contains(
                id,
            ) by {
            assert(front.pending.dom().contains(id) <==> m.pending.dom().contains(id)
                && !fewer.contains(id));
            assert(ids.contains(id) <==> fewer.contains(id) || id == last);
        }
        assert forall|id: u32| after.pending.dom().contains(id) implies #[trigger] after.pending[id]
            == m.pending[id] by {
            assert(front.pending.dom().contains(id));
            assert(front.pending[id] == m.pending[id]);
        }
    }
}

/// An outdated item that is pushed is being downloaded or waits for it, also once the next
/// download was begun.
pub proof fn a_pushed_item_is_not_lost(m: DownloadsModel, ids: Seq<u32>, id: u32, logged_in: bool)
    requires
        ids.contains(id),
        m.pending.dom().contains(id),
    ensures
        m.pushed_pending(ids).is_downloading(id),
        m.pushed_pending(ids).queued(logged_in).is_downloading(id),
        !m.pushed_pending(ids).queued(logged_in).pending.dom().contains(id),
{
    pushed_items_wait(m, ids);
    let after = m.pushed_pending(ids);
    assert(in_rows(after.queue, id));
    assert(!after.pending.dom().contains(id));
    beginning_the_next_loses_nothing(after, logged_in);
}

/// Where nothing goes on and nothing waits, the first of the outdated items that are pushed
/// is begun, and the others wait in the order in which they were pushed.
pub proof fn pushed_items_keep_their_order(m: DownloadsModel, ids: Seq<u32>)
    requires
        ids.no_duplicates(),
        forall|i: int| 0 <= i < ids.len() ==> m.pending.dom().contains(#[trigger] ids[i]),
        forall|i: int| 0 <= i < ids.len() ==> !in_rows(m.queue, #[trigger] ids[i]),
    ensures
        m.pushed_pending(ids).queue == m.queue + Seq::new(ids.len(), |i: int| (ids[i], 0u64)),
        m.ongoing is None && m.queue.len() == 0 && ids.len() > 0 ==> m.pushed_pending(ids).next(true)
            == Some(ids[0]),
    decreases ids.len(),
{
    let added = Seq::new(ids.len(), |i: int| (ids[i], 0u64));
    if ids.len() > 0 {
        let fewer = ids.drop_last();
        let last = ids.last();
        assert forall|i: int| 0 <= i < fewer.len() implies m.pending.dom().contains(
            #[trigger] fewer[i],
        ) && !in_rows(m.queue, fewer[i]) by {
            assert(fewer[i] == ids[i]);
        }
        pushed_items_keep_their_order(m, fewer);
        pushed_items_wait(m, fewer);
        let front = m.pushed_pending(fewer);
        assert(!fewer.contains(last)) by {
            if fewer.contains(last) {
                let k = choose|k: int| 0 <= k < fewer.len() && fewer[k] == last;
                assert(ids[k] == ids[ids.len() - 1]);
            }
        }
        assert(m.pending.dom().contains(ids[ids.len() - 1]));
        assert(!in_rows(m.queue, ids[ids.len() - 1]));
        assert(front.pending.dom().contains(last));
        assert(!in_rows(front.queue, last));
        lemma_pushed(front.queue, last, 0);
        assert(m.pushed_pending(ids).queue =~= m.queue + added);
    } else {
        assert(m.pushed_pending(ids).queue =~= m.queue + added);
    }
    if m.queue.len() == 0 && ids.len() > 0 {
        pushed_items_wait(m, ids);
        assert(m.pushed_pending(ids).queue[0] == (ids[0], 0u64));
    }
}

/// Items that are put at the end of the queue wait to be downloaded, what waited before
/// keeps its place, and nothing else changes.
pub proof fn appended_items_wait(m: DownloadsModel, ids: Seq<u32>)
    ensures
        ({
            let after = m.appended(ids);
            &&& forall|id: u32|
                #![trigger in_rows(after.queue, id)]
                in_rows(after.queue, id) <==> in_rows(m.queue, id) || ids.contains(id)
            &&& waits_as_before(m.queue, after.queue)
            &&& after == (DownloadsModel { queue: after.queue, ..m })
        }),
    decreases ids.len(),
{
    let after = m.appended(ids);
    if ids.len() > 0 {
        let fewer = ids.drop_last();
        let last = ids.last();
        appended_items_wait(m, fewer);
        let front = m.appended(fewer);
        lemma_pushed(front.queue, last, 0);
        assert forall|id: u32|
            #![trigger in_rows(after.queue, id)]
            in_rows(after.queue, id) <==> in_rows(m.queue, id) || ids.contains(id) by {
            assert(in_rows(front.queue, id) <==> in_rows(m.queue, id) || fewer.contains(id));
            if ids.contains(id) {
                let k = choose|k: int| 0 <= k < ids.len() && ids[k] == id;
                if k < fewer.len() {
                    assert(fewer[k] == id);
                }
            }
            if fewer.contains(id) {
                let k = choose|k: int| 0 <= k < fewer.len() && fewer[k] == id;
                assert(ids[k] == id);
            }
            if id == last {
                assert(ids[ids.len() - 1] == id);
            }
        }
        assert forall|i: int| 0 <= i < m.queue.len() implies (#[trigger] after.queue[i]).0
            == m.queue[i].0 by {
            assert(front.queue[i].0 == m.queue[i].0);
        }
    }
}

/// A download that is asked for with a login begins where nothing goes on and waits behind
/// all others where something does. No other item is touched.
pub proof fn requests_touch_nothing_else(m: DownloadsModel, id: u32)
    requires
        !(m.ongoing is Some && m.ongoing->Some_0.0 == id),
        !in_rows(m.queue, id),
    ensures
        ({
            let after = m.requested(id, true);
            &&& m.ongoing is None ==> after.ongoing == Some((id, 0u64)) && after.queue == m.queue
            &&& m.ongoing is Some ==> after.ongoing == m.ongoing && after.queue == m.queue.push(
                (id, 0u64),
            )
            &&& after.pending == m.pending && after.completed == m.completed
            &&& after.errored == m.errored.remove(id)
        }),
{
}

/// A download that ended makes way for the next one: nothing goes on, how it ended is noted
/// for it and for no other, and what waits or is pending stays.
pub proof fn ended_downloads_make_way(m: DownloadsModel, id: u32, message: Seq<char>, other: u32)
    requires
        other != id,
    ensures
        m.completed_one(id).ongoing is None,
        m.completed_one(id).completed.contains(id),
        m.completed_one(id).completed.contains(other) == m.completed.contains(other),
        m.completed_one(id).queue == m.queue && m.completed_one(id).pending == m.pending,
        m.completed_one(id).errored == m.errored,
        m.errored_one(id, message).ongoing is None,
        m.errored_one(id, message).errored.dom().contains(id),
        m.errored_one(id, message).errored[id] == message,
        m.errored_one(id, message).errored.dom().contains(other) == m.errored.dom().contains(other),
        m.errored.dom().contains(other) ==> m.errored_one(id, message).errored[other]
            == m.errored[other],
        m.errored_one(id, message).queue == m.queue && m.errored_one(id, message).pending
            == m.pending,
        m.errored_one(id, message).completed == m.completed,
{
}

/// Progress is noted for the item that goes on and for no other.
pub proof fn progress_is_that_of_the_ongoing(m: DownloadsModel, id: u32, size: u64)
    ensures
        m.progressed(id, size) == (DownloadsModel { ongoing: m.progressed(id, size).ongoing, ..m }),
        m.ongoing is None ==> m.progressed(id, size).ongoing is None,
        m.ongoing is Some ==> m.progressed(id, size).ongoing is Some
            && m.progressed(id, size).ongoing->Some_0.0 == m.ongoing->Some_0.0,
        m.ongoing is Some && m.ongoing->Some_0.0 == id ==> m.progressed(id, size).ongoing->Some_0.1
            == size,
        m.ongoing is Some && m.ongoing->Some_0.0 != id ==> m.progressed(id, size).ongoing
            == m.ongoing,
{
}

/// Items that are found to be outdated are pending afterwards, unless they are being
/// downloaded or wait for it. Other items stay as they were, and so does everything else.
pub proof fn outdated_items_are_pending(m: DownloadsModel, found: Seq<(u32, u64)>, id: u32)
    requires
        !(m.ongoing is Some && m.ongoing->Some_0.0 == id),
        !in_rows(m.queue, id),
    ensures
        ({
            let after = m.outdated(found);
            &&& after == (DownloadsModel { pending: after.pending, ..m })
            &&& after.pending.dom().contains(id) <==> m.pending.dom().contains(id) || in_rows(
                found,
                id,
            )
            &&& in_rows(found, id) ==> exists|i: int|
                0 <= i < found.len() && #[trigger] found[i] == (id, after.pending[id])
            &&& !in_rows(found, id) && m.pending.dom().contains(id) ==> after.pending[id]
                == m.pending[id]
        }),
    decreases found.len(),
{
    if found.len() > 0 {
        let fewer = found.drop_last();
        let front = m.outdated(fewer);
        let after = m.outdated(found);
        outdated_items_are_pending(m, fewer, id);
        if in_rows(fewer, id) {
            let k = place_in(fewer, id);
            assert(found[k].0 == id);
        }
        if in_rows(found, id) {
            let k = place_in(found, id);
            if k < fewer.len() {
                assert(fewer[k].0 == id);
            }
        }
        if found.last().0 == id {
            assert(found[found.len() - 1].0 == id);
            assert(found[found.len() - 1] == (id, after.pending[id]));
        } else if in_rows(fewer, id) {
            let i = choose|i: int|
                0 <= i < fewer.len() && #[trigger] fewer[i] == (id, front.pending[id]);
            assert(found[i] == (id, after.pending[id]));
        }
    }
}

} // verus!
