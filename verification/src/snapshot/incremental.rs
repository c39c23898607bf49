//! That a profile comes back from an archive that keeps its directory as it was at first, and
//! what changed since.
use vstd::prelude::*;

#[allow(unused_imports)]
use super::archive::{
    archived, can_extend, entry_step, every_state_comes_back, has_record, incremental_load,
    is_left_out, is_record, record_time, records_of, restored, rising_times, same_path,
    ArchiveEntry, ArchiveError, EntryKind, LoadModel, StepModel,
};
#[allow(unused_imports)]
use super::basic::{
    all_loaded, below, cleared, directory, entry_node, extracted, has_records, inside, is_at,
    is_directory_walk, is_entry, lemma_apart, lemma_below, load_done, moved, packed, records_in,
    renamed_in, restored_in, tree_at, with_name, with_tree,
};
#[allow(unused_imports)]
use super::tree::{is_under, tree_of, EntryModel, NodeModel, TreeModel};
#[allow(unused_imports)]
use crate::numbers::{signed_reads_back, signed_text};
#[allow(unused_imports)]
use crate::paths::{components_of, is_directory_path, joined, lies_in};

verus! {

/// Packing a directory ends with an error if and only if it holds a link or something whose
/// name is no text.
pub proof fn packing_fails_for_links_and_names(prefix: Seq<char>, entries: Seq<ArchiveEntry>)
    ensures
        archived(prefix, entries).1 is None <==> forall|i: int|
            0 <= i < entries.len() ==> (#[trigger] entries[i]).kind != EntryKind::Link
                && entries[i].path is Some,
    decreases entries.len(),
{
    if entries.len() > 0 {
        let front = entries.drop_last();
        packing_fails_for_links_and_names(prefix, front);
        let ok = forall|i: int|
            0 <= i < entries.len() ==> (#[trigger] entries[i]).kind != EntryKind::Link
                && entries[i].path is Some;
        if ok {
            assert forall|i: int| 0 <= i < front.len() implies (#[trigger] front[i]).kind
                != EntryKind::Link && front[i].path is Some by {
                assert(front[i] == entries[i]);
            }
            assert(entries[entries.len() - 1] == entries.last());
            assert(entries[entries.len() - 1].kind != EntryKind::Link);
        }
        if archived(prefix, entries).1 is None {
            assert(archived(prefix, front).1 is None);
            assert forall|i: int| 0 <= i < entries.len() implies (#[trigger] entries[i]).kind
                != EntryKind::Link && entries[i].path is Some by {
                if i < front.len() {
                    assert(front[i] == entries[i]);
                }
            }
        }
    }
}

proof fn lemma_no_error_below(prefix: Seq<char>, entries: Seq<ArchiveEntry>, n: int)
    requires
        archived(prefix, entries).1 is None,
        0 <= n <= entries.len(),
    ensures
        archived(prefix, entries.take(n)).1 is None,
    decreases entries.len() - n,
{
    if n < entries.len() {
        lemma_no_error_below(prefix, entries, n + 1);
        assert(entries.take(n + 1).drop_last() =~= entries.take(n));
    } else {
        assert(entries.take(n) =~= entries);
    }
}

/// What an archive holds of the first entries of a directory that is packed below a name.
spec fn holds_first(
    prefix: Seq<char>,
    entries: Seq<ArchiveEntry>,
    contents: Seq<Seq<u8>>,
    n: int,
    archive: TreeModel,
) -> bool {
    &&& archive.dom().contains(prefix) && archive[prefix] is Dir
    &&& forall|path: Seq<char>| #[trigger]
        archive.dom().contains(path) ==> path == prefix || is_under(path, prefix)
    &&& forall|path: Seq<char>|
        #![trigger archive.dom().contains(below(prefix, path))]
        archive.dom().contains(below(prefix, path)) <==> path.len() > 0 && exists|i: int|
            i < n && is_entry(entries, i, path)
    &&& forall|path: Seq<char>, i: int|
        i < n && path.len() > 0 && #[trigger] is_entry(entries, i, path) ==> archive[below(
            prefix,
            path,
        )] == entry_node(entries[i], contents[i])
}

#[verifier::spinoff_prover]
#[verifier::rlimit(60)]
proof fn lemma_packed_below(
    prefix: Seq<char>,
    entries: Seq<ArchiveEntry>,
    contents: Seq<Seq<u8>>,
    n: int,
)
    requires
        is_directory_path(prefix),
        is_directory_walk(entries),
        archived(prefix, entries).1 is None,
        0 <= n <= entries.len(),
        entries.len() <= usize::MAX,
    ensures
        holds_first(
            prefix,
            entries,
            contents,
            n,
            packed(archived(prefix, entries.take(n)).0, contents),
        ),
    decreases n,
{
    lemma_no_error_below(prefix, entries, n);
    let archive = packed(archived(prefix, entries.take(n)).0, contents);
    if n > 0 {
        lemma_packed_below(prefix, entries, contents, n - 1);
        let steps = archived(prefix, entries.take(n - 1)).0;
        let before = packed(steps, contents);
        let entry = entries[n - 1];
        assert(entries.take(n).drop_last() =~= entries.take(n - 1));
        assert(entries.take(n).last() == entry);
        assert(entry_step(prefix, entry, n - 1) is Ok);
        let own = entry.path->Some_0@;
        assert(is_entry(entries, n - 1, own));
        if own.len() > 0 {
            assert(joined(prefix, own) =~= below(prefix, own));
            let step = entry_step(prefix, entry, n - 1)->Ok_0->Some_0;
            assert(archived(prefix, entries.take(n)).0 =~= steps.push(step));
            assert(steps.push(step).drop_last() =~= steps);
            assert(archive == before.insert(
                below(prefix, own),
                entry_node(entry, contents[n - 1]),
            ));
        } else {
            assert(entry_step(prefix, entry, n - 1) == Ok::<Option<StepModel>, ArchiveError>(None));
            assert(archive == before);
        }
        lemma_below(prefix, own);
        assert forall|path: Seq<char>|
            #![trigger archive.dom().contains(below(prefix, path))]
            archive.dom().contains(below(prefix, path)) <==> path.len() > 0 && exists|i: int|
                i < n && is_entry(entries, i, path) by {
            lemma_below(prefix, path);
            assert(before.dom().contains(below(prefix, path)) <==> path.len() > 0 && exists|i: int|
                i < n - 1 && is_entry(entries, i, path));
            if exists|i: int| i < n && is_entry(entries, i, path) {
                let i = choose|i: int| i < n && is_entry(entries, i, path);
                if i < n - 1 {
                    assert(i < n - 1 && is_entry(entries, i, path));
                }
            }
            if exists|i: int| i < n - 1 && is_entry(entries, i, path) {
                let i = choose|i: int| i < n - 1 && is_entry(entries, i, path);
                assert(i < n && is_entry(entries, i, path));
            }
            if below(prefix, path) == below(prefix, own) {
                assert(path == own);
            }
        }
        assert forall|path: Seq<char>, i: int|
            i < n && path.len() > 0 && #[trigger] is_entry(entries, i, path) implies archive[below(
            prefix,
            path,
        )] == entry_node(entries[i], contents[i]) by {
            lemma_below(prefix, path);
            if i == n - 1 {
                assert(path == own);
            } else if path == own {
                assert(is_entry(entries, n - 1, path));
            } else {
                assert(below(prefix, path) != below(prefix, own));
            }
        }
    } else {
        assert(entries.take(0) =~= Seq::empty());
        let steps = archived(prefix, entries.take(0)).0;
        assert(steps == seq![StepModel::AddDirectory(prefix)]);
        assert(steps.drop_last() =~= Seq::empty());
        assert(packed(steps.drop_last(), contents) =~= Map::empty());
        assert(archive =~= Map::empty().insert(prefix, NodeModel::Dir));
        assert forall|path: Seq<char>|
            #![trigger archive.dom().contains(below(prefix, path))]
            !archive.dom().contains(below(prefix, path)) by {
            lemma_below(prefix, path);
        }
        assert forall|path: Seq<char>, i: int|
            i < 0 && path.len() > 0 && #[trigger] is_entry(entries, i, path) implies false by {}
    }
}

/// An archive that a directory without links was put into below a name holds exactly what the
/// directory does below that name: each file and directory at its path there, the name itself,
/// and nothing else.
pub proof fn packed_directories_lie_below_their_name(
    prefix: Seq<char>,
    entries: Seq<ArchiveEntry>,
    contents: Seq<Seq<u8>>,
)
    requires
        is_directory_path(prefix),
        is_directory_walk(entries),
        archived(prefix, entries).1 is None,
        entries.len() <= usize::MAX,
    ensures
        ({
            let archive = packed(archived(prefix, entries).0, contents);
            &&& tree_at(archive, prefix) == directory(entries, contents)
            &&& archive.dom().contains(prefix) && archive[prefix] is Dir
            &&& forall|path: Seq<char>| #[trigger]
                archive.dom().contains(path) ==> path == prefix || (path.len() > prefix.len() + 1
                    && path.take(prefix.len() as int + 1) == prefix + seq!['/'])
            &&& forall|i: int|
                0 <= i < entries.len() && (#[trigger] entries[i]).path->Some_0@.len() > 0
                    ==> archive.dom().contains(prefix + seq!['/'] + entries[i].path->Some_0@)
        }),
{
    let n = entries.len() as int;
    lemma_packed_below(prefix, entries, contents, n);
    assert(entries.take(n) =~= entries);
    packing_fails_for_links_and_names(prefix, entries);
    let archive = packed(archived(prefix, entries).0, contents);
    let got = tree_at(archive, prefix);
    let wanted = directory(entries, contents);
    assert forall|path: Seq<char>| #[trigger] got.dom().contains(path) <==> wanted.dom().contains(
        path,
    ) by {
        assert(archive.dom().contains(below(prefix, path)) <==> path.len() > 0 && exists|i: int|
            i < n && is_entry(entries, i, path));
        if wanted.dom().contains(path) {
            let i = choose|i: int| is_entry(entries, i, path);
            assert(i < n && is_entry(entries, i, path));
        }
    }
    assert(got.dom() =~= wanted.dom());
    assert forall|path: Seq<char>| #[trigger] got.dom().contains(path) implies got[path]
        == wanted[path] by {
        let i = choose|i: int| is_entry(entries, i, path);
        assert(wanted.dom().contains(path));
        assert(is_entry(entries, i, path));
    }
    assert(got =~= wanted);
    assert forall|path: Seq<char>| #[trigger] archive.dom().contains(path) implies path == prefix
        || (path.len() > prefix.len() + 1 && path.take(prefix.len() as int + 1) == prefix
        + seq!['/']) by {
        if path != prefix {
            let rest = inside(path, prefix);
            assert(is_under(path, prefix));
            assert(below(prefix, rest) =~= path);
            assert(rest.len() > 0);
            assert(path.take(prefix.len() as int + 1) =~= prefix + seq!['/']);
        }
    }
    assert forall|i: int|
        0 <= i < entries.len() && (#[trigger] entries[i]).path->Some_0@.len()
            > 0 implies archive.dom().contains(prefix + seq!['/'] + entries[i].path->Some_0@) by {
        let path = entries[i].path->Some_0@;
        assert(is_entry(entries, i, path));
        assert(archive.dom().contains(below(prefix, path)));
    }
}

/// An archive with sets of changes beside the first state, each named after its time.
pub open spec fn with_records(
    archive: TreeModel,
    times: Seq<i64>,
    records: Seq<Seq<u8>>,
) -> TreeModel
    decreases times.len(),
{
    if times.len() == 0 {
        archive
    } else {
        with_records(archive, times.drop_last(), records).insert(
            signed_text(times.last() as int),
            NodeModel::File(records[times.len() - 1]),
        )
    }
}

proof fn lemma_times_are_records(time: i64)
    ensures
        is_record(signed_text(time as int)),
        record_time(signed_text(time as int)) == Some(time as int),
        signed_text(time as int).len() > 0,
{
    signed_reads_back(time);
    let name = signed_text(time as int);
    reveal_strlit("root");
    assert("root"@[0] == 'r');
    if name.contains('/') {
        let i = choose|i: int| 0 <= i < name.len() && name[i] == '/';
        assert(name[i] == '-' || '0' <= name[i] <= '9');
    }
    if name.contains('\\') {
        let i = choose|i: int| 0 <= i < name.len() && name[i] == '\\';
        assert(name[i] == '-' || '0' <= name[i] <= '9');
    }
    assert(name[0] == '-' || '0' <= name[0] <= '9');
}

proof fn lemma_with_records(archive: TreeModel, times: Seq<i64>, records: Seq<Seq<u8>>)
    requires
        rising_times(times),
    ensures
        forall|path: Seq<char>|
            #![trigger with_records(archive, times, records).dom().contains(path)]
            with_records(archive, times, records).dom().contains(path) <==> archive.dom().contains(
                path,
            ) || exists|i: int|
                0 <= i < times.len() && path == signed_text(#[trigger] times[i] as int),
        forall|path: Seq<char>|
            #![trigger with_records(archive, times, records)[path]]
            !is_record(path) && archive.dom().contains(path) ==> with_records(
                archive,
                times,
                records,
            )[path] == archive[path],
        forall|i: int|
            0 <= i < times.len() ==> with_records(archive, times, records)[signed_text(
                #[trigger] times[i] as int,
            )] == NodeModel::File(records[i]),
    decreases times.len(),
{
    if times.len() > 0 {
        let fewer = times.drop_last();
        assert forall|i: int, j: int| 0 <= i < j < fewer.len() implies #[trigger] fewer[i]
            < #[trigger] fewer[j] by {
            assert(times[i] < times[j]);
        }
        lemma_with_records(archive, fewer, records);
        let last = times.last();
        let name = signed_text(last as int);
        lemma_times_are_records(last);
        let all = with_records(archive, times, records);
        let front = with_records(archive, fewer, records);
        assert forall|path: Seq<char>|
            #![trigger all.dom().contains(path)]
            all.dom().contains(path) <==> archive.dom().contains(path) || exists|i: int|
                0 <= i < times.len() && path == signed_text(#[trigger] times[i] as int) by {
            assert(front.dom().contains(path) <==> archive.dom().contains(path) || exists|i: int|
                0 <= i < fewer.len() && path == signed_text(#[trigger] fewer[i] as int));
            if exists|i: int|
                0 <= i < fewer.len() && path == signed_text(#[trigger] fewer[i] as int) {
                let i = choose|i: int|
                    0 <= i < fewer.len() && path == signed_text(#[trigger] fewer[i] as int);
                assert(times[i] == fewer[i]);
            }
            if exists|i: int|
                0 <= i < times.len() && path == signed_text(#[trigger] times[i] as int) {
                let i = choose|i: int|
                    0 <= i < times.len() && path == signed_text(#[trigger] times[i] as int);
                if i < fewer.len() {
                    assert(times[i] == fewer[i]);
                }
            }
            if path == name {
                assert(times[times.len() - 1] == last);
            }
        }
        assert forall|i: int| 0 <= i < times.len() implies all[signed_text(
            #[trigger] times[i] as int,
        )] == NodeModel::File(records[i]) by {
            if i < fewer.len() {
                assert(fewer[i] == times[i]);
                assert(times[i] < times[times.len() - 1]);
                lemma_times_are_records(times[i]);
                assert(signed_text(times[i] as int) != name);
                assert(front[signed_text(fewer[i] as int)] == NodeModel::File(records[i]));
            }
        }
    }
}

/// The sets of changes of an archive are those that it was extended with, by their times: an
/// archive that was just made holds none.
pub proof fn archives_list_their_records(
    entries: Seq<ArchiveEntry>,
    contents: Seq<Seq<u8>>,
    times: Seq<i64>,
    records: Seq<Seq<u8>>,
    path: Seq<char>,
)
    requires
        is_directory_walk(entries),
        archived("root"@, entries).1 is None,
        entries.len() <= usize::MAX,
        rising_times(times),
        with_records(packed(archived("root"@, entries).0, contents), times, records).dom().contains(
            path,
        ),
    ensures
        is_record(path) <==> exists|i: int|
            0 <= i < times.len() && path == signed_text(#[trigger] times[i] as int),
        is_record(path) ==> record_time(path) is Some && exists|i: int|
            0 <= i < times.len() && record_time(path) == Some(#[trigger] times[i] as int),
        times.len() == 0 ==> !is_record(path),
{
    reveal_strlit("root");
    let root = "root"@;
    let archive = packed(archived(root, entries).0, contents);
    packed_directories_lie_below_their_name(root, entries, contents);
    lemma_with_records(archive, times, records);
    if archive.dom().contains(path) {
        if path != root {
            assert(path[4] == '/') by {
                assert(path.take(5)[4] == (root + seq!['/'])[4]);
            }
            assert(path.contains('/'));
        }
        assert(!is_record(path));
        if exists|i: int| 0 <= i < times.len() && path == signed_text(#[trigger] times[i] as int) {
            let i = choose|i: int|
                0 <= i < times.len() && path == signed_text(#[trigger] times[i] as int);
            lemma_times_are_records(times[i]);
        }
    } else {
        let i = choose|i: int|
            0 <= i < times.len() && path == signed_text(#[trigger] times[i] as int);
        lemma_times_are_records(times[i]);
        assert(record_time(path) == Some(times[i] as int));
    }
}

/// A profile comes back out of an archive as it was when the archive was last extended, under
/// another name, whatever was there before: the first state is packed below its name, each
/// later one adds what changed, and bringing the profile out applies all of that. An archive
/// that was just made gives the directory that it was made of. The directory to which it is
/// unpacked first and the one where it comes to lie do not lie in each other.
#[verifier::spinoff_prover]
#[verifier::rlimit(100)]
pub proof fn incremental_snapshots_give_the_last_state_back(
    entries: Seq<ArchiveEntry>,
    contents: Seq<Seq<u8>>,
    states: Seq<Seq<EntryModel>>,
    times: Seq<i64>,
    disk: TreeModel,
    working: Seq<char>,
    target: Seq<char>,
    data_name: Seq<char>,
    rename: Seq<char>,
    renamed: spec_fn(Seq<u8>, Seq<char>) -> Seq<u8>,
)
    requires
        is_directory_walk(entries),
        archived("root"@, entries).1 is None,
        entries.len() <= usize::MAX,
        states.len() > 0,
        forall|i: int|
            0 < i < states.len() ==> can_extend(states[i - 1], #[trigger] states[i]),
        tree_of(states[0]) == directory(entries, contents),
        !tree_of(states.last()).dom().contains(Seq::empty()),
        rising_times(times),
        times.len() == records_of(states).len(),
        tree_of(states.last()).dom().contains(data_name),
        tree_of(states.last())[data_name] is File,
        data_name[0] != '/',
        is_directory_path(working),
        !is_at(working, target),
        !is_at(target, working),
    ensures
        ({
            let archive = with_records(
                packed(archived("root"@, entries).0, contents),
                times,
                records_of(states),
            );
            let steps = incremental_load(working, target, data_name, rename, times);
            let (after, failed) = all_loaded(disk, archive, steps, renamed);
            &&& !failed
            &&& tree_at(after, target) == renamed_in(
                tree_of(states.last()),
                data_name,
                rename,
                renamed,
            )
        }),
{
    reveal_strlit("root");
    let name = "root"@;
    let base = packed(archived(name, entries).0, contents);
    let records = records_of(states);
    let archive = with_records(base, times, records);
    packed_directories_lie_below_their_name(name, entries, contents);
    lemma_with_records(base, times, records);
    every_state_comes_back(states);
    let last = tree_of(states.last());
    let root = below(working, name);
    let file = below(root, data_name);
    assert(joined(working, name) =~= root);
    assert(root.last() == name[3]);
    assert(data_name.len() > 0) by {
        if data_name.len() == 0 {
            assert(data_name =~= Seq::empty());
        }
    }
    assert(joined(root, data_name) =~= file);
    let one = cleared(disk, working);
    let two = extracted(one, archive, working);
    lemma_unpacked_state(one, archive, base, working, times, records, directory(entries, contents));
    assert(records_in(two, working, times) =~= records);
    let three = with_tree(two, root, last);
    assert(restored_in(two, working, root, times) == Some(three));
    let four = with_name(three, file, rename, renamed);
    let five = cleared(four, target);
    let six = moved(five, root, target);
    let seven = cleared(six, working);
    let steps = incremental_load(working, target, data_name, rename, times);
    reveal_with_fuel(all_loaded, 8);
    let s6 = steps.drop_last();
    let s5 = s6.drop_last();
    let s4 = s5.drop_last();
    let s3 = s4.drop_last();
    let s2 = s3.drop_last();
    let s1 = s2.drop_last();
    assert(s1.drop_last() =~= Seq::empty());
    assert(all_loaded(disk, archive, s1, renamed) == (one, false));
    assert(all_loaded(disk, archive, s2, renamed) == (two, false));
    assert(s3.last() == LoadModel::Restore(working, root, times));
    assert(all_loaded(disk, archive, s3, renamed) == (three, false));
    assert(all_loaded(disk, archive, s4, renamed) == (four, false));
    assert(all_loaded(disk, archive, s5, renamed) == (five, false));
    assert(all_loaded(disk, archive, s6, renamed) == (six, false));
    assert(all_loaded(disk, archive, steps, renamed) == (seven, false));
    lemma_below(root, data_name);
    assert(three[file] == last[data_name]);
    let wanted = renamed_in(last, data_name, rename, renamed);
    let got = tree_at(seven, target);
    lemma_below(working, name);
    assert forall|path: Seq<char>|
        #![trigger got.dom().contains(path)]
        #![trigger got[path]]
        (got.dom().contains(path) <==> wanted.dom().contains(path)) && (wanted.dom().contains(path)
            ==> got[path] == wanted[path]) by {
        let there = below(target, path);
        let here = below(root, path);
        lemma_below(target, path);
        lemma_below(root, path);
        lemma_apart(target, working, path);
        let deep = below(name, path);
        assert(here =~= below(working, deep));
        lemma_apart(working, target, deep);
        assert(seven.dom().contains(there) <==> six.dom().contains(there));
        assert(six.dom().contains(there) <==> five.dom().contains(here));
        assert(five.dom().contains(here) <==> four.dom().contains(here));
        assert(four.dom().contains(here) <==> three.dom().contains(here));
        assert(three.dom().contains(here) <==> last.dom().contains(path));
        if path != data_name {
            assert(here != file) by {
                lemma_below(root, data_name);
            }
        }
        if path.len() == 0 {
            assert(path =~= Seq::empty());
        }
    }
    assert(got.dom() =~= wanted.dom());
    assert(got =~= wanted);
}

/// What an archive with sets of changes gives when it is unpacked to where nothing is.
proof fn lemma_unpacked_state(
    disk: TreeModel,
    archive: TreeModel,
    base: TreeModel,
    working: Seq<char>,
    times: Seq<i64>,
    records: Seq<Seq<u8>>,
    first: TreeModel,
)
    requires
        forall|path: Seq<char>| #[trigger] disk.dom().contains(path) ==> !is_at(path, working),
        rising_times(times),
        times.len() == records.len(),
        archive == with_records(base, times, records),
        tree_at(base, "root"@) == first,
    ensures
        ({
            let after = extracted(disk, archive, working);
            &&& tree_at(after, below(working, "root"@)) == first
            &&& has_records(after, working, times)
            &&& records_in(after, working, times) == records
        }),
{
    reveal_strlit("root");
    let name = "root"@;
    let root = below(working, name);
    let after = extracted(disk, archive, working);
    lemma_with_records(base, times, records);
    let got = tree_at(after, root);
    assert forall|path: Seq<char>|
        #![trigger got.dom().contains(path)]
        #![trigger got[path]]
        (got.dom().contains(path) <==> first.dom().contains(path)) && (first.dom().contains(path)
            ==> got[path] == first[path]) by {
        let here = below(root, path);
        let deep = below(name, path);
        assert(here =~= below(working, deep));
        lemma_below(working, deep);
        assert(deep[4] == '/');
        assert(deep.contains('/'));
        assert(!is_record(deep));
        assert(!disk.dom().contains(here));
        assert(after.dom().contains(here) <==> archive.dom().contains(deep));
        if exists|i: int| 0 <= i < times.len() && deep == signed_text(#[trigger] times[i] as int) {
            let i = choose|i: int|
                0 <= i < times.len() && deep == signed_text(#[trigger] times[i] as int);
            lemma_times_are_records(times[i]);
        }
        assert(archive.dom().contains(deep) <==> base.dom().contains(deep));
        assert(tree_at(base, name).dom().contains(path) <==> path.len() > 0 && base.dom().contains(
            deep,
        ));
        if base.dom().contains(deep) {
            assert(archive[deep] == base[deep]);
        }
    }
    assert(got.dom() =~= first.dom());
    assert(got =~= first);
    assert forall|i: int| 0 <= i < times.len() implies after.dom().contains(
        below(working, signed_text(#[trigger] times[i] as int)),
    ) && after[below(working, signed_text(times[i] as int))] == NodeModel::File(records[i]) by {
        let own = signed_text(times[i] as int);
        lemma_below(working, own);
        assert(archive.dom().contains(own));
        assert(archive[own] == NodeModel::File(records[i]));
    }
    assert(records_in(after, working, times) =~= records);
}

/// A path is left out of a snapshot exactly where it leads, component by component, where one of
/// the paths leads that are ignored. Ignoring more paths leaves out more, and nothing less.
pub proof fn ignored_paths_are_left_out(ignored: Seq<String>, more: Seq<String>, path: Seq<char>)
    ensures
        is_left_out(ignored, path) <==> exists|i: int|
            0 <= i < ignored.len() && components_of((#[trigger] ignored[i])@) == components_of(path),
        is_left_out(ignored + more, path) <==> is_left_out(ignored, path) || is_left_out(
            more,
            path,
        ),
{
    lemma_left_out(ignored, path);
    lemma_left_out(more, path);
    let all = ignored + more;
    lemma_left_out(all, path);
    if is_left_out(ignored, path) {
        let i = choose|i: int|
            0 <= i < ignored.len() && components_of((#[trigger] ignored[i])@) == components_of(
                path,
            );
        assert(all[i] == ignored[i]);
    }
    if is_left_out(more, path) {
        let i = choose|i: int|
            0 <= i < more.len() && components_of((#[trigger] more[i])@) == components_of(path);
        assert(all[ignored.len() + i] == more[i]);
    }
    if is_left_out(all, path) {
        let i = choose|i: int|
            0 <= i < all.len() && components_of((#[trigger] all[i])@) == components_of(path);
        if i < ignored.len() {
            assert(all[i] == ignored[i]);
        } else {
            assert(all[i] == more[i - ignored.len()]);
        }
    }
}

proof fn lemma_same_path(a: Seq<char>, b: Seq<char>)
    ensures
        same_path(a, b) <==> components_of(a) == components_of(b),
{
    let x = components_of(a);
    let y = components_of(b);
    if same_path(a, b) {
        assert(x.take(y.len() as int) =~= x);
    }
    if x == y {
        assert(x.take(y.len() as int) =~= x);
    }
}

proof fn lemma_left_out(ignored: Seq<String>, path: Seq<char>)
    ensures
        is_left_out(ignored, path) <==> exists|i: int|
            0 <= i < ignored.len() && components_of((#[trigger] ignored[i])@) == components_of(path),
{
    if is_left_out(ignored, path) {
        let i = choose|i: int| 0 <= i < ignored.len() && same_path(path, (#[trigger] ignored[i])@);
        lemma_same_path(path, ignored[i]@);
    }
    if exists|i: int|
        0 <= i < ignored.len() && components_of((#[trigger] ignored[i])@) == components_of(path) {
        let i = choose|i: int|
            0 <= i < ignored.len() && components_of((#[trigger] ignored[i])@) == components_of(
                path,
            );
        lemma_same_path(path, ignored[i]@);
    }
}

} // verus!
