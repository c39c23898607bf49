//! That a profile comes back from an archive that keeps its directory as it was.
use vstd::prelude::*;

#[allow(unused_imports)]
use super::archive::{
    archived, entry_step, restored, working_path, ArchiveEntry, ArchiveError, EntryKind, LoadModel,
    SnapshotType, StepModel,
};
#[allow(unused_imports)]
use crate::numbers::signed_text;
#[allow(unused_imports)]
use super::tree::{is_under, NodeModel, TreeModel};
#[allow(unused_imports)]
use crate::paths::joined;

verus! {

/// What an entry of a directory is, where `contents` are those of the files.
pub open spec fn entry_node(entry: ArchiveEntry, contents: Seq<u8>) -> NodeModel {
    if entry.kind == EntryKind::File {
        NodeModel::File(contents)
    } else {
        NodeModel::Dir
    }
}

/// Whether an entry has this path below the directory.
pub open spec fn is_entry(entries: Seq<ArchiveEntry>, i: int, path: Seq<char>) -> bool {
    0 <= i < entries.len() && entries[i].path is Some && entries[i].path->Some_0@ == path
}

/// What a directory holds that a walk came by these entries in.
pub open spec fn directory(entries: Seq<ArchiveEntry>, contents: Seq<Seq<u8>>) -> TreeModel {
    Map::new(
        |path: Seq<char>| path.len() > 0 && exists|i: int| is_entry(entries, i, path),
        |path: Seq<char>|
            {
                let i = choose|i: int| is_entry(entries, i, path);
                entry_node(entries[i], contents[i])
            },
    )
}

/// Whether a walk over a directory can come by these entries: no path occurs twice, each
/// is below the directory, and the directory itself is no file.
pub open spec fn is_directory_walk(entries: Seq<ArchiveEntry>) -> bool {
    &&& forall|i: int, j: int, path: Seq<char>|
        #![trigger is_entry(entries, i, path), is_entry(entries, j, path)]
        is_entry(entries, i, path) && is_entry(entries, j, path) ==> i == j
    &&& forall|i: int, path: Seq<char>|
        #[trigger] is_entry(entries, i, path) ==> {
            &&& path.len() > 0 ==> path[0] != '/'
            &&& path.len() == 0 ==> entries[i].kind != EntryKind::File
        }
}

/// What an archive holds after something was put into it.
pub open spec fn with_step(archive: TreeModel, step: StepModel, contents: Seq<Seq<u8>>) -> TreeModel {
    match step {
        StepModel::AddDirectory(name) => archive.insert(name, NodeModel::Dir),
        StepModel::AddFile(name, i) => archive.insert(name, NodeModel::File(contents[i as int])),
    }
}

/// What an archive holds that these were put into.
pub open spec fn packed(steps: Seq<StepModel>, contents: Seq<Seq<u8>>) -> TreeModel
    decreases steps.len(),
{
    if steps.len() == 0 {
        Map::empty()
    } else {
        with_step(packed(steps.drop_last(), contents), steps.last(), contents)
    }
}

/// A path below a directory.
pub open spec fn below(dir: Seq<char>, path: Seq<char>) -> Seq<char> {
    dir + seq!['/'] + path
}

/// What of a path lies below a directory.
pub open spec fn inside(path: Seq<char>, dir: Seq<char>) -> Seq<char> {
    path.skip(dir.len() as int + 1)
}

/// Whether a path is that of a directory or lies below it.
pub open spec fn is_at(path: Seq<char>, dir: Seq<char>) -> bool {
    path == dir || is_under(path, dir)
}

/// What a directory of the disk holds.
pub open spec fn tree_at(disk: TreeModel, dir: Seq<char>) -> TreeModel {
    Map::new(
        |path: Seq<char>| path.len() > 0 && disk.dom().contains(below(dir, path)),
        |path: Seq<char>| disk[below(dir, path)],
    )
}

/// The disk without a directory.
pub open spec fn cleared(disk: TreeModel, dir: Seq<char>) -> TreeModel {
    Map::new(
        |path: Seq<char>| disk.dom().contains(path) && !is_at(path, dir),
        |path: Seq<char>| disk[path],
    )
}

/// The disk after an archive was unpacked into a directory.
pub open spec fn extracted(disk: TreeModel, archive: TreeModel, dir: Seq<char>) -> TreeModel {
    Map::new(
        |path: Seq<char>|
            disk.dom().contains(path) || path == dir || (is_under(path, dir)
                && archive.dom().contains(inside(path, dir))),
        |path: Seq<char>|
            if is_under(path, dir) && archive.dom().contains(inside(path, dir)) {
                archive[inside(path, dir)]
            } else if path == dir {
                NodeModel::Dir
            } else {
                disk[path]
            },
    )
}

/// The disk after a directory was moved to where none is.
pub open spec fn moved(disk: TreeModel, from: Seq<char>, to: Seq<char>) -> TreeModel {
    Map::new(
        |path: Seq<char>|
            if path == to {
                disk.dom().contains(from)
            } else if is_under(path, to) {
                disk.dom().contains(below(from, inside(path, to)))
            } else {
                disk.dom().contains(path) && !is_at(path, from)
            },
        |path: Seq<char>|
            if path == to {
                disk[from]
            } else if is_under(path, to) {
                disk[below(from, inside(path, to))]
            } else {
                disk[path]
            },
    )
}

/// The disk after a profile was given another name in the file that it is kept in.
/// `renamed` says what the file holds then.
pub open spec fn with_name(
    disk: TreeModel,
    file: Seq<char>,
    name: Seq<char>,
    renamed: spec_fn(Seq<u8>, Seq<char>) -> Seq<u8>,
) -> TreeModel {
    match disk[file] {
        NodeModel::File(bytes) => disk.insert(file, NodeModel::File(renamed(bytes, name))),
        NodeModel::Dir => disk,
    }
}

/// Whether the sets of changes of these times lie in a directory.
pub open spec fn has_records(disk: TreeModel, dir: Seq<char>, times: Seq<i64>) -> bool {
    forall|i: int|
        0 <= i < times.len() ==> disk.dom().contains(below(dir, signed_text(#[trigger] times[i] as int)))
            && disk[below(dir, signed_text(times[i] as int))] is File
}

/// The sets of changes of these times that lie in a directory.
pub open spec fn records_in(disk: TreeModel, dir: Seq<char>, times: Seq<i64>) -> Seq<Seq<u8>> {
    Seq::new(times.len(), |i: int| disk[below(dir, signed_text(times[i] as int))]->File_0)
}

/// The disk with something else in a directory.
pub open spec fn with_tree(disk: TreeModel, dir: Seq<char>, tree: TreeModel) -> TreeModel {
    Map::new(
        |path: Seq<char>|
            if is_under(path, dir) {
                tree.dom().contains(inside(path, dir))
            } else {
                disk.dom().contains(path)
            },
        |path: Seq<char>|
            if is_under(path, dir) {
                tree[inside(path, dir)]
            } else {
                disk[path]
            },
    )
}

/// The disk after the sets of changes that lie in one directory were applied to what lies in
/// another one, if they can be.
pub open spec fn restored_in(
    disk: TreeModel,
    from: Seq<char>,
    to: Seq<char>,
    times: Seq<i64>,
) -> Option<TreeModel> {
    if !has_records(disk, from, times) {
        None
    } else {
        match restored(tree_at(disk, to), Map::empty(), records_in(disk, from, times)) {
            Ok((tree, _)) => Some(with_tree(disk, to, tree)),
            Err(_) => None,
        }
    }
}

/// The disk after one step of bringing a profile out of an archive, and whether it is
/// the last one since it fails.
pub open spec fn load_done(
    disk: TreeModel,
    archive: TreeModel,
    step: LoadModel,
    renamed: spec_fn(Seq<u8>, Seq<char>) -> Seq<u8>,
) -> (TreeModel, bool) {
    match step {
        LoadModel::Clear(dir) | LoadModel::Discard(dir) | LoadModel::Remove(dir) => (
            cleared(disk, dir),
            false,
        ),
        LoadModel::Extract(dir) => (extracted(disk, archive, dir), false),
        LoadModel::Rename(file, name) => (with_name(disk, file, name, renamed), false),
        LoadModel::Move(from, to) => (moved(disk, from, to), false),
        LoadModel::Restore(from, to, times) => match restored_in(disk, from, to, times) {
            Some(after) => (after, false),
            None => (disk, true),
        },
        LoadModel::Fail(_) => (disk, true),
    }
}

/// The disk after steps of bringing a profile out of an archive, and whether they ended
/// with an error.
pub open spec fn all_loaded(
    disk: TreeModel,
    archive: TreeModel,
    steps: Seq<LoadModel>,
    renamed: spec_fn(Seq<u8>, Seq<char>) -> Seq<u8>,
) -> (TreeModel, bool)
    decreases steps.len(),
{
    if steps.len() == 0 {
        (disk, false)
    } else {
        let (before, failed) = all_loaded(disk, archive, steps.drop_last(), renamed);
        if failed {
            (before, true)
        } else {
            load_done(before, archive, steps.last(), renamed)
        }
    }
}

/// The steps that bring a profile out of an archive of this kind into a directory, by way
/// of another one.
pub open spec fn basic_load(
    kind: SnapshotType,
    working: Seq<char>,
    target: Seq<char>,
    data_name: Seq<char>,
    rename: Seq<char>,
) -> Seq<LoadModel> {
    if kind != SnapshotType::Basic {
        seq![LoadModel::Fail(ArchiveError::NotBasic)]
    } else {
        seq![
            LoadModel::Clear(working),
            LoadModel::Extract(working),
            LoadModel::Rename(joined(working, data_name), rename),
            LoadModel::Clear(target),
            LoadModel::Move(working, target),
            LoadModel::Discard(working),
        ]
    }
}

/// A directory with the profile in one of its files renamed.
pub open spec fn renamed_in(
    tree: TreeModel,
    data_name: Seq<char>,
    rename: Seq<char>,
    renamed: spec_fn(Seq<u8>, Seq<char>) -> Seq<u8>,
) -> TreeModel {
    match tree[data_name] {
        NodeModel::File(bytes) => tree.insert(data_name, NodeModel::File(renamed(bytes, rename))),
        NodeModel::Dir => tree,
    }
}

proof fn lemma_joined_with_nothing(path: Seq<char>)
    ensures
        joined(""@, path) == path,
{
    reveal_strlit("");
    assert(joined(""@, path) =~= path);
}

proof fn lemma_packed_first(entries: Seq<ArchiveEntry>, contents: Seq<Seq<u8>>, n: int)
    requires
        is_directory_walk(entries),
        archived(""@, entries).1 is None,
        0 <= n <= entries.len(),
        entries.len() <= usize::MAX,
    ensures
        archived(""@, entries.take(n)).1 is None,
        ({
            let archive = packed(archived(""@, entries.take(n)).0, contents);
            forall|path: Seq<char>|
                #![trigger archive.dom().contains(path)]
                (archive.dom().contains(path) <==> path.len() > 0 && exists|i: int|
                    i < n && is_entry(entries, i, path))
        }),
        ({
            let archive = packed(archived(""@, entries.take(n)).0, contents);
            forall|path: Seq<char>, i: int|
                i < n && path.len() > 0 && #[trigger] is_entry(entries, i, path) ==> archive[path]
                    == entry_node(entries[i], contents[i])
        }),
    decreases n,
{
    reveal_strlit("");
    lemma_no_error_before(entries, n);
    let archive = packed(archived(""@, entries.take(n)).0, contents);
    if n > 0 {
        lemma_packed_first(entries, contents, n - 1);
        let steps = archived(""@, entries.take(n - 1)).0;
        let before = packed(steps, contents);
        let entry = entries[n - 1];
        assert(entries.take(n).drop_last() =~= entries.take(n - 1));
        assert(entries.take(n).last() == entry);
        assert(entry_step(""@, entry, n - 1) is Ok);
        let own = entry.path->Some_0@;
        assert(is_entry(entries, n - 1, own));
        lemma_joined_with_nothing(own);
        if own.len() > 0 {
            let step = entry_step(""@, entry, n - 1)->Ok_0->Some_0;
            assert(archived(""@, entries.take(n)).0 =~= steps.push(step));
            assert(steps.push(step).drop_last() =~= steps);
            assert(archive == before.insert(own, entry_node(entry, contents[n - 1])));
        } else {
            assert(entry_step(""@, entry, n - 1) == Ok::<Option<StepModel>, ArchiveError>(None));
            assert(archive == before);
        }
        assert forall|path: Seq<char>|
            #![trigger archive.dom().contains(path)]
            (archive.dom().contains(path) <==> path.len() > 0 && exists|i: int|
                i < n && is_entry(entries, i, path)) by {
            assert(before.dom().contains(path) <==> path.len() > 0 && exists|i: int|
                i < n - 1 && is_entry(entries, i, path));
            if exists|i: int| i < n && is_entry(entries, i, path) {
                let i = choose|i: int| i < n && is_entry(entries, i, path);
                if i == n - 1 {
                    assert(path == own);
                } else {
                    assert(i < n - 1 && is_entry(entries, i, path));
                }
            }
            if exists|i: int| i < n - 1 && is_entry(entries, i, path) {
                let i = choose|i: int| i < n - 1 && is_entry(entries, i, path);
                assert(i < n && is_entry(entries, i, path));
            }
        }
        assert forall|path: Seq<char>, i: int|
            i < n && path.len() > 0 && #[trigger] is_entry(entries, i, path) implies archive[path]
            == entry_node(entries[i], contents[i]) by {
            if i == n - 1 {
                assert(path == own);
            } else if path == own {
                assert(is_entry(entries, n - 1, path));
            }
        }
    } else {
        assert(entries.take(0) =~= Seq::empty());
        assert(archive =~= Map::empty());
    }
}

proof fn lemma_no_error_before(entries: Seq<ArchiveEntry>, n: int)
    requires
        archived(""@, entries).1 is None,
        0 <= n <= entries.len(),
    ensures
        archived(""@, entries.take(n)).1 is None,
    decreases entries.len() - n,
{
    if n < entries.len() {
        lemma_no_error_before(entries, n + 1);
        assert(entries.take(n + 1).drop_last() =~= entries.take(n));
    } else {
        assert(entries.take(n) =~= entries);
    }
}

/// An archive that a directory without links was put into holds what the directory does.
pub proof fn packed_directories_are_complete(
    entries: Seq<ArchiveEntry>,
    contents: Seq<Seq<u8>>,
)
    requires
        is_directory_walk(entries),
        archived(""@, entries).1 is None,
        entries.len() <= usize::MAX,
    ensures
        packed(archived(""@, entries).0, contents) == directory(entries, contents),
{
    let n = entries.len() as int;
    lemma_packed_first(entries, contents, n);
    assert(entries.take(n) =~= entries);
    let archive = packed(archived(""@, entries).0, contents);
    let tree = directory(entries, contents);
    assert forall|path: Seq<char>| #[trigger] archive.dom().contains(path)
        <==> tree.dom().contains(path) by {
        if tree.dom().contains(path) {
            let i = choose|i: int| is_entry(entries, i, path);
            assert(i < n && is_entry(entries, i, path));
        }
    }
    assert(archive.dom() =~= tree.dom());
    assert forall|path: Seq<char>| #[trigger] archive.dom().contains(path) implies archive[path]
        == tree[path] by {
        let i = choose|i: int| is_entry(entries, i, path);
        assert(i < n && is_entry(entries, i, path));
    }
    assert(archive =~= tree);
}

pub(crate) proof fn lemma_below(dir: Seq<char>, path: Seq<char>)
    ensures
        is_under(below(dir, path), dir),
        inside(below(dir, path), dir) == path,
        below(dir, path) != dir,
{
    let full = below(dir, path);
    assert(full[dir.len() as int] == '/');
    assert(full.take(dir.len() as int) =~= dir);
    assert(full.skip(dir.len() as int + 1) =~= path);
}

pub(crate) proof fn lemma_apart(a: Seq<char>, b: Seq<char>, path: Seq<char>)
    requires
        !is_at(a, b),
        !is_at(b, a),
    ensures
        !is_at(below(a, path), b),
{
    let full = below(a, path);
    if full == b {
        lemma_below(a, path);
    } else if is_under(full, b) {
        let n = b.len() as int;
        if n < a.len() {
            assert(a.take(n) =~= full.take(n));
            assert(a[n] == full[n]);
        } else if n == a.len() {
            assert(full.take(n) =~= a);
        } else {
            assert(b.take(a.len() as int) =~= full.take(n).take(a.len() as int));
            assert(full.take(n).take(a.len() as int) =~= a);
            assert(b[a.len() as int] == full.take(n)[a.len() as int]);
            assert(full[a.len() as int] == '/');
        }
    }
}

/// A snapshot that keeps a directory as it is, loaded under another name, gives back what
/// the directory held, with the profile in it renamed, whatever was there before. The
/// directory to which it is unpacked first and the one where it comes to lie do not lie
/// in each other.
pub proof fn basic_snapshots_give_the_directory_back(
    entries: Seq<ArchiveEntry>,
    contents: Seq<Seq<u8>>,
    disk: TreeModel,
    working: Seq<char>,
    target: Seq<char>,
    data_name: Seq<char>,
    rename: Seq<char>,
    renamed: spec_fn(Seq<u8>, Seq<char>) -> Seq<u8>,
)
    requires
        is_directory_walk(entries),
        archived(""@, entries).1 is None,
        entries.len() <= usize::MAX,
        directory(entries, contents).dom().contains(data_name),
        directory(entries, contents)[data_name] is File,
        working.len() > 0,
        working.last() != '/',
        !is_at(working, target),
        !is_at(target, working),
    ensures
        ({
            let archive = packed(archived(""@, entries).0, contents);
            let steps = basic_load(SnapshotType::Basic, working, target, data_name, rename);
            let (after, failed) = all_loaded(disk, archive, steps, renamed);
            &&& !failed
            &&& tree_at(after, target) == renamed_in(
                directory(entries, contents),
                data_name,
                rename,
                renamed,
            )
        }),
{
    packed_directories_are_complete(entries, contents);
    let archive = directory(entries, contents);
    let steps = basic_load(SnapshotType::Basic, working, target, data_name, rename);
    let file = below(working, data_name);
    assert(data_name[0] != '/') by {
        let i = choose|i: int| is_entry(entries, i, data_name);
        assert(is_entry(entries, i, data_name));
    }
    assert(joined(working, data_name) =~= file);
    let one = cleared(disk, working);
    let two = extracted(one, archive, working);
    let three = with_name(two, file, rename, renamed);
    let four = cleared(three, target);
    let five = moved(four, working, target);
    let six = cleared(five, working);
    reveal_with_fuel(all_loaded, 7);
    assert(steps.drop_last().len() == 5);
    let s5 = steps.drop_last();
    let s4 = s5.drop_last();
    let s3 = s4.drop_last();
    let s2 = s3.drop_last();
    let s1 = s2.drop_last();
    assert(s1.drop_last() =~= Seq::empty());
    assert(all_loaded(disk, archive, s1, renamed) == (one, false));
    assert(all_loaded(disk, archive, s2, renamed) == (two, false));
    assert(all_loaded(disk, archive, s3, renamed) == (three, false));
    assert(all_loaded(disk, archive, s4, renamed) == (four, false));
    assert(all_loaded(disk, archive, s5, renamed) == (five, false));
    assert(all_loaded(disk, archive, steps, renamed) == (six, false));
    lemma_below(working, data_name);
    assert(two[file] == archive[data_name]);
    let wanted = renamed_in(archive, data_name, rename, renamed);
    let got = tree_at(six, target);
    assert forall|path: Seq<char>|
        #![trigger got.dom().contains(path)]
        #![trigger got[path]]
        (got.dom().contains(path) <==> wanted.dom().contains(path)) && (wanted.dom().contains(path)
            ==> got[path] == wanted[path]) by {
        let there = below(target, path);
        let here = below(working, path);
        lemma_below(target, path);
        lemma_below(working, path);
        lemma_apart(target, working, path);
        lemma_apart(working, target, path);
        assert(six.dom().contains(there) <==> five.dom().contains(there));
        assert(five.dom().contains(there) <==> four.dom().contains(here));
        assert(four.dom().contains(here) <==> three.dom().contains(here));
        assert(!one.dom().contains(here));
        assert(two.dom().contains(here) <==> archive.dom().contains(path));
        if path != data_name {
            assert(here != file) by {
                lemma_below(working, data_name);
            }
        }
    }
    assert(got.dom() =~= wanted.dom());
    assert(got =~= wanted);
}

/// An archive that holds something else than a directory as it was is refused before
/// anything is done.
pub proof fn other_archives_change_nothing(
    kind: SnapshotType,
    archive: TreeModel,
    disk: TreeModel,
    working: Seq<char>,
    target: Seq<char>,
    data_name: Seq<char>,
    rename: Seq<char>,
    renamed: spec_fn(Seq<u8>, Seq<char>) -> Seq<u8>,
)
    requires
        kind != SnapshotType::Basic,
    ensures
        all_loaded(
            disk,
            archive,
            basic_load(kind, working, target, data_name, rename),
            renamed,
        ) == (disk, true),
{
    let steps = basic_load(kind, working, target, data_name, rename);
    reveal_with_fuel(all_loaded, 2);
    assert(steps.drop_last() =~= Seq::empty());
}

} // verus!
