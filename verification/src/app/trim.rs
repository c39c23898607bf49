//! What is deleted so that the program's files do not grow without end.
use vstd::prelude::*;

use crate::files::GIGA;
use crate::library::profile::ProfileSettings;
use crate::text::{chars_of, find_chars, string_of, sub_chars};
#[allow(unused_imports)]
use crate::text::find_from;

verus! {

/// The form of a date in the name of a snapshot, with what stands around it.
pub const SNAPSHOT_DATE_FORMAT: &'static str = "_%Y.%m.%d_%Hh%Mm%Ss.zip";

/// Whether a text is a date in this form.
pub uninterp spec fn is_date_in(text: Seq<char>, format: Seq<char>) -> bool;

/// [`chrono::NaiveDateTime::parse_from_str`] says whether a text is a date in a form.
/// Which texts are is left unsaid.
#[verifier::external_body]
fn parse_date(text: &str, format: &str) -> (r: bool)
    ensures
        r == is_date_in(text@, format@),
{
    chrono::NaiveDateTime::parse_from_str(text, format).is_ok()
}

/// What a file name says behind the name of a profile, where it is that of a
/// snapshot which the program made of it.
pub open spec fn snapshot_suffix(file: Seq<char>, profile: Seq<char>) -> Option<Seq<char>> {
    match find_from(file, profile, 0) {
        Some(i) => if file.take(i) == "LXCOMM_AUTO_BASIC_"@ {
            Some(file.skip(i + profile.len()))
        } else {
            None
        },
        None => None,
    }
}

/// Whether a file is a snapshot that the program made of a profile, where the
/// rest of its name is a date.
pub open spec fn is_automatic_snapshot(file: Seq<char>, profile: Seq<char>) -> bool {
    match snapshot_suffix(file, profile) {
        Some(suffix) => is_date_in(suffix, SNAPSHOT_DATE_FORMAT@),
        None => false,
    }
}

/// What a file name says behind the name of a profile, where it is that of a
/// snapshot which the program made of it.
pub fn split_snapshot_name(file: &str, profile: &str) -> (r: Option<String>)
    ensures
        match r {
            Some(suffix) => snapshot_suffix(file@, profile@) == Some(suffix@),
            None => snapshot_suffix(file@, profile@) is None,
        },
{
    let name = chars_of(file);
    let wanted = chars_of(profile);
    let prefix = chars_of("LXCOMM_AUTO_BASIC_");
    match find_chars(name.as_slice(), wanted.as_slice(), 0) {
        None => None,
        Some(i) => {
            proof {
                crate::text::lemma_find_from(file@, profile@, 0);
            }
            let front = sub_chars(name.as_slice(), 0, i);
            assert(front@ =~= file@.take(i as int));
            if !crate::text::same_chars(front.as_slice(), prefix.as_slice()) {
                return None;
            }
            let total: usize = name.len();
            let suffix = sub_chars(name.as_slice(), i + wanted.len(), total);
            assert(suffix@ =~= file@.skip(i + profile@.len()));
            Some(string_of(suffix.as_slice()))
        },
    }
}

/// Whether a file is a snapshot that the program made of a profile.
pub fn automatic_snapshot(file: &str, profile: &str) -> (r: bool)
    ensures
        r == is_automatic_snapshot(file@, profile@),
{
    match split_snapshot_name(file, profile) {
        Some(suffix) => parse_date(suffix.as_str(), SNAPSHOT_DATE_FORMAT),
        None => false,
    }
}

/// How many snapshots of a profile, and how many bytes of them, are kept.
#[derive(Debug, Clone, Copy, PartialEq, Eq, Structural)]
pub struct SnapshotLimits {
    pub number: usize,
    pub size: u64,
}

/// The limits of the snapshots of a profile. Those that hold what changed since
/// the one before have none.
pub open spec fn limits_of(settings: ProfileSettings) -> Option<SnapshotLimits> {
    if settings.automatic_snapshot_incremental || (settings.automatic_snapshot_number_limit == 0
        && settings.automatic_snapshot_size_limit == 0) {
        None
    } else {
        Some(
            SnapshotLimits {
                number: if settings.automatic_snapshot_number_limit == 0 {
                    usize::MAX
                } else {
                    settings.automatic_snapshot_number_limit as usize
                },
                size: if settings.automatic_snapshot_size_limit == 0 {
                    u64::MAX
                } else {
                    settings.automatic_snapshot_size_limit as u64
                },
            },
        )
    }
}

/// The limits of the snapshots of a profile.
pub fn snapshot_limits(settings: &ProfileSettings) -> (r: Option<SnapshotLimits>)
    ensures
        r == limits_of(*settings),
{
    if settings.automatic_snapshot_incremental {
        return None;
    }
    if settings.automatic_snapshot_number_limit == 0 && settings.automatic_snapshot_size_limit
        == 0 {
        return None;
    }
    let number: usize = if settings.automatic_snapshot_number_limit == 0 {
        usize::MAX
    } else {
        settings.automatic_snapshot_number_limit as usize
    };
    let size: u64 = if settings.automatic_snapshot_size_limit == 0 {
        u64::MAX
    } else {
        settings.automatic_snapshot_size_limit as u64
    };
    Some(SnapshotLimits { number, size })
}

/// The sum of sizes.
pub open spec fn sum(sizes: Seq<u64>) -> nat
    decreases sizes.len(),
{
    if sizes.len() == 0 {
        0
    } else {
        sum(sizes.drop_last()) + sizes.last() as nat
    }
}

/// Whether what is left after the first `k` keeps within limits.
pub open spec fn within(sizes: Seq<u64>, k: int, number: nat, size: nat) -> bool {
    sum(sizes.skip(k)) <= size && sizes.len() - k <= number
}

proof fn lemma_sum_skip(sizes: Seq<u64>, k: int)
    requires
        0 <= k < sizes.len(),
    ensures
        sum(sizes.skip(k)) == sizes[k] as nat + sum(sizes.skip(k + 1)),
    decreases sizes.len(),
{
    let rest = sizes.skip(k);
    if k + 1 == sizes.len() {
        assert(rest.drop_last() =~= Seq::<u64>::empty());
        assert(sizes.skip(k + 1) =~= Seq::<u64>::empty());
    } else {
        lemma_sum_skip(sizes.drop_last(), k);
        assert(sizes.drop_last().skip(k) =~= rest.drop_last());
        assert(sizes.drop_last().skip(k + 1) =~= sizes.skip(k + 1).drop_last());
    }
}

proof fn lemma_sum_parts(sizes: Seq<u64>, k: int)
    requires
        0 <= k <= sizes.len(),
    ensures
        sum(sizes) == sum(sizes.take(k)) + sum(sizes.skip(k)),
    decreases sizes.len() - k,
{
    if k == sizes.len() {
        assert(sizes.take(k) =~= sizes);
        assert(sizes.skip(k) =~= Seq::<u64>::empty());
    } else {
        lemma_sum_parts(sizes, k + 1);
        lemma_sum_skip(sizes, k);
        assert(sizes.take(k + 1).drop_last() =~= sizes.take(k));
    }
}

fn total(sizes: &Vec<u64>) -> (r: u64)
    requires
        sum(sizes@) <= u64::MAX,
    ensures
        r == sum(sizes@),
{
    let mut i: usize = 0;
    let mut all: u64 = 0;
    while i < sizes.len()
        invariant
            0 <= i <= sizes@.len(),
            sum(sizes@) <= u64::MAX,
            all == sum(sizes@.take(i as int)),
        decreases sizes@.len() - i,
    {
        proof {
            lemma_sum_parts(sizes@, i as int + 1);
            assert(sizes@.take(i + 1).drop_last() =~= sizes@.take(i as int));
        }
        all = all + sizes[i];
        i += 1;
    }
    assert(sizes@.take(i as int) =~= sizes@);
    all
}

/// How many snapshots are deleted, from the first on: as few as keep the others
/// within the limits.
pub fn trim_snapshots(sizes: &Vec<u64>, limits: SnapshotLimits) -> (r: usize)
    requires
        sum(sizes@) <= u64::MAX,
    ensures
        r <= sizes@.len(),
        within(sizes@, r as int, limits.number as nat, limits.size as nat),
        forall|k: int|
            0 <= k < r ==> !#[trigger] within(
                sizes@,
                k,
                limits.number as nat,
                limits.size as nat,
            ),
{
    let mut current: u64 = total(sizes);
    let mut i: usize = 0;
    let n: usize = sizes.len();
    assert(sizes@.skip(0) =~= sizes@);
    while i < n && (current > limits.size || n - i > limits.number)
        invariant
            0 <= i <= n,
            n == sizes@.len(),
            current == sum(sizes@.skip(i as int)),
            forall|k: int|
                0 <= k < i ==> !#[trigger] within(
                    sizes@,
                    k,
                    limits.number as nat,
                    limits.size as nat,
                ),
        decreases n - i,
    {
        proof {
            lemma_sum_skip(sizes@, i as int);
            assert(!within(sizes@, i as int, limits.number as nat, limits.size as nat));
        }
        current = current - sizes[i];
        i += 1;
    }
    proof {
        if i == n {
            assert(sizes@.skip(i as int) =~= Seq::<u64>::empty());
        }
    }
    i
}

/// A file of the image cache.
#[derive(Debug)]
pub struct ImageInfo {
    pub path: String,
    pub size: u64,
    /// When it was last used. Greater means later.
    pub accessed: u64,
}

pub open spec fn image_sizes(images: Seq<ImageInfo>) -> Seq<u64> {
    Seq::new(images.len(), |i: int| images[i].size)
}

/// Whether images stand in the order in which they were used, and those that were
/// used at the same time as they stood before.
pub open spec fn is_stable_order(order: Seq<int>, images: Seq<ImageInfo>) -> bool {
    &&& order.len() == images.len()
    &&& forall|i: int| 0 <= i < order.len() ==> 0 <= #[trigger] order[i] < images.len()
    &&& forall|i: int, j: int|
        0 <= i < j < order.len() ==> {
            ||| images[#[trigger] order[i]].accessed < images[#[trigger] order[j]].accessed
            ||| images[order[i]].accessed == images[order[j]].accessed && order[i] < order[j]
        }
}

pub open spec fn indices(order: Seq<usize>) -> Seq<int> {
    Seq::new(order.len(), |i: int| order[i] as int)
}

pub open spec fn sizes_in(order: Seq<int>, images: Seq<ImageInfo>) -> Seq<u64> {
    Seq::new(order.len(), |i: int| images[order[i]].size)
}

/// The places of images in the order in which they were used.
fn order_by_use(images: &Vec<ImageInfo>) -> (r: Vec<usize>)
    ensures
        is_stable_order(indices(r@), images@),
{
    let mut out: Vec<usize> = Vec::new();
    let mut i: usize = 0;
    while i < images.len()
        invariant
            0 <= i <= images@.len(),
            out@.len() == i,
            forall|k: int| 0 <= k < i ==> #[trigger] out@[k] < i,
            forall|k: int, l: int|
                0 <= k < l < i ==> {
                    ||| images@[#[trigger] out@[k] as int].accessed
                        < images@[#[trigger] out@[l] as int].accessed
                    ||| images@[out@[k] as int].accessed == images@[out@[l] as int].accessed
                        && out@[k] < out@[l]
                },
        decreases images@.len() - i,
    {
        let mut at: usize = i;
        while at > 0 && images[out[at - 1]].accessed > images[i].accessed
            invariant
                0 <= at <= i,
                i < images@.len(),
                out@.len() == i,
                forall|k: int| 0 <= k < i ==> #[trigger] out@[k] < i,
                forall|k: int|
                    at <= k < i ==> images@[#[trigger] out@[k] as int].accessed
                        > images@[i as int].accessed,
            decreases at,
        {
            at -= 1;
        }
        let ghost before = out@;
        out.insert(at, i);
        proof {
            assert forall|k: int, l: int| 0 <= k < l < i + 1 implies {
                ||| images@[#[trigger] out@[k] as int].accessed
                    < images@[#[trigger] out@[l] as int].accessed
                ||| images@[out@[k] as int].accessed == images@[out@[l] as int].accessed
                    && out@[k] < out@[l]
            } by {
                let p = if k < at {
                    k
                } else {
                    k - 1
                };
                let q = if l < at {
                    l
                } else {
                    l - 1
                };
                if k != at && l != at {
                    assert(out@[k] == before[p]);
                    assert(out@[l] == before[q]);
                } else if k == at {
                    assert(out@[l] == before[q]);
                    assert(out@[k] == i);
                } else {
                    assert(out@[k] == before[k]);
                    assert(out@[l] == i);
                    assert(k <= at - 1);
                    if k < at - 1 {
                        assert(before[k] < i && before[at - 1] < i);
                    }
                }
            }
        }
        i += 1;
    }
    proof {
        let order = indices(out@);
        assert forall|i: int, j: int| 0 <= i < j < order.len() implies {
            ||| images@[#[trigger] order[i]].accessed < images@[#[trigger] order[j]].accessed
            ||| images@[order[i]].accessed == images@[order[j]].accessed && order[i] < order[j]
        } by {
            assert(order[i] == out@[i] as int);
            assert(order[j] == out@[j] as int);
        }
        assert forall|i: int| 0 <= i < order.len() implies 0 <= #[trigger] order[i]
            < images@.len() by {
            assert(order[i] == out@[i] as int);
        }
    }
    out
}

/// Which images are deleted, in order: those that were used the longest ago, as
/// few as bring the others below the limit.
pub open spec fn images_trimmed(images: Seq<ImageInfo>, deleted: Seq<int>, limit: nat) -> bool {
    exists|order: Seq<int>| #[trigger]
        is_stable_order(order, images) && {
            let sizes = sizes_in(order, images);
            let n = deleted.len() as int;
            &&& n <= order.len()
            &&& deleted == order.take(n)
            &&& n < order.len() ==> sum(sizes.skip(n)) < limit
            &&& forall|k: int| 0 <= k < n ==> sum(#[trigger] sizes.skip(k)) >= limit
        }
}

proof fn lemma_sum_of_order(order: Seq<int>, images: Seq<ImageInfo>)
    requires
        is_stable_order(order, images),
    ensures
        sum(sizes_in(order, images)) == sum(image_sizes(images)),
    decreases images.len(),
{
    let n = images.len() as int;
    if n == 0 {
        assert(sizes_in(order, images) =~= image_sizes(images));
    } else {
        let k = find_place(order, images, n - 1);
        let rest = order.remove(k);
        let fewer = images.drop_last();
        assert forall|i: int| 0 <= i < rest.len() implies 0 <= #[trigger] rest[i] < fewer.len() by {
            let p = if i < k {
                i
            } else {
                i + 1
            };
            assert(rest[i] == order[p]);
            if p < k {
                assert(order[p] != order[k]);
            } else {
                assert(order[k] != order[p]);
            }
        }
        assert forall|i: int, j: int| 0 <= i < j < rest.len() implies {
            ||| fewer[#[trigger] rest[i]].accessed < fewer[#[trigger] rest[j]].accessed
            ||| fewer[rest[i]].accessed == fewer[rest[j]].accessed && rest[i] < rest[j]
        } by {
            let p = if i < k {
                i
            } else {
                i + 1
            };
            let q = if j < k {
                j
            } else {
                j + 1
            };
            assert(rest[i] == order[p] && rest[j] == order[q]);
        }
        lemma_sum_of_order(rest, fewer);
        let sizes = sizes_in(order, images);
        lemma_sum_parts(sizes, k);
        lemma_sum_skip(sizes, k);
        let short = sizes_in(rest, fewer);
        lemma_sum_parts(short, k);
        assert(short.take(k) =~= sizes.take(k));
        assert(short.skip(k) =~= sizes.skip(k + 1));
        assert(image_sizes(images).drop_last() =~= image_sizes(fewer));
    }
}

/// Where a place stands in an order of all places.
proof fn find_place(order: Seq<int>, images: Seq<ImageInfo>, x: int) -> (k: int)
    requires
        is_stable_order(order, images),
        0 <= x < images.len(),
    ensures
        0 <= k < order.len(),
        order[k] == x,
{
    assert forall|i: int, j: int| 0 <= i < j < order.len() implies order[i] != order[j] by {}
    assert(order.no_duplicates());
    let all = vstd::set_lib::set_int_range(0, images.len() as int);
    vstd::set_lib::lemma_int_range(0, images.len() as int);
    order.unique_seq_to_set();
    assert(order.to_set().subset_of(all));
    vstd::set_lib::lemma_subset_equality(order.to_set(), all);
    assert(all.contains(x));
    assert(order.to_set().contains(x));
    choose|k: int| 0 <= k < order.len() && order[k] == x
}

/// Which images are deleted, in order.
pub fn trim_image_cache(images: &Vec<ImageInfo>) -> (r: Vec<usize>)
    requires
        sum(image_sizes(images@)) <= u64::MAX,
    ensures
        images_trimmed(images@, indices(r@), GIGA as nat),
{
    let order = order_by_use(images);
    let ghost places = indices(order@);
    let ghost sizes = sizes_in(places, images@);
    let mut kept: Vec<u64> = Vec::new();
    let mut i: usize = 0;
    while i < order.len()
        invariant
            0 <= i <= order@.len(),
            places == indices(order@),
            is_stable_order(places, images@),
            sizes == sizes_in(places, images@),
            kept@ == sizes.take(i as int),
        decreases order@.len() - i,
    {
        assert(places[i as int] == order@[i as int] as int);
        kept.push(images[order[i]].size);
        assert(kept@ =~= sizes.take(i + 1));
        i += 1;
    }
    assert(kept@ =~= sizes);
    proof {
        lemma_sum_of_order(places, images@);
    }
    let mut current: u64 = total(&kept);
    let mut out: Vec<usize> = Vec::new();
    let n: usize = order.len();
    let mut k: usize = 0;
    assert(sizes.skip(0) =~= sizes);
    assert(indices(out@) =~= places.take(0));
    while k < n && current >= GIGA
        invariant
            0 <= k <= n,
            n == order@.len(),
            n == sizes.len(),
            kept@ == sizes,
            places == indices(order@),
            current == sum(sizes.skip(k as int)),
            indices(out@) == places.take(k as int),
            forall|j: int| 0 <= j < k ==> sum(#[trigger] sizes.skip(j)) >= GIGA,
        decreases n - k,
    {
        proof {
            lemma_sum_skip(sizes, k as int);
        }
        let ghost before = indices(out@);
        out.push(order[k]);
        assert(indices(out@) =~= before.push(order@[k as int] as int));
        assert(places.take(k + 1) =~= places.take(k as int).push(places[k as int]));
        current = current - kept[k];
        k += 1;
    }
    proof {
        assert(is_stable_order(places, images@));
        assert(indices(out@).len() == k);
    }
    out
}

/// Snapshots within the limits are not deleted.
pub proof fn nothing_is_deleted_within_the_limits(sizes: Seq<u64>, limits: SnapshotLimits, k: int)
    requires
        within(sizes, 0, limits.number as nat, limits.size as nat),
        0 <= k <= sizes.len(),
        forall|j: int|
            0 <= j < k ==> !#[trigger] within(sizes, j, limits.number as nat, limits.size as nat),
    ensures
        k == 0,
{
}

/// A limit of zero is none: snapshots are within the limits of a profile exactly where they are no
/// more, and no larger, than the limits that are set.
pub proof fn limits_of_zero_are_none(settings: ProfileSettings, sizes: Seq<u64>, k: int)
    requires
        0 <= k <= sizes.len() <= usize::MAX,
        sum(sizes) <= u64::MAX,
    ensures
        limits_of(settings) is None <==> settings.automatic_snapshot_incremental || (
        settings.automatic_snapshot_number_limit == 0 && settings.automatic_snapshot_size_limit
            == 0),
        limits_of(settings) matches Some(limits) ==> (within(
            sizes,
            k,
            limits.number as nat,
            limits.size as nat,
        ) <==> (settings.automatic_snapshot_number_limit > 0 ==> sizes.len() - k
            <= settings.automatic_snapshot_number_limit) && (settings.automatic_snapshot_size_limit
            > 0 ==> sum(sizes.skip(k)) <= settings.automatic_snapshot_size_limit)),
{
    lemma_sum_parts(sizes, k);
}

} // verus!
