//! What holds of generating changes and applying them together.
use vstd::prelude::*;

#[allow(unused_imports)]
use super::codec::{decoded, encoded_all, readable};
#[allow(unused_imports)]
use super::diff::{diff_spans, edited, edited_by, generated, modify_ops};
#[allow(unused_imports)]
use super::ops::OpModel;
#[allow(unused_imports)]
use super::tree::{
    applied, blocked, contents_of, diffs_lead, distinct_paths, generated_dir, has_parent, is_under,
    new_part, new_parts, source_part, source_parts, stepped, stepped_all, tree_of, turned_to,
    with_parents, without_dir, written, EntryModel, NodeModel, TreeError, TreeModel, WorkModel,
};

verus! {

/// Whether everything in the tree stands in directories of the tree.
pub open spec fn is_tree(tree: TreeModel) -> bool {
    forall|k: Seq<char>, dir: Seq<char>|
        #![trigger tree.dom().contains(k), is_under(k, dir)]
        tree.dom().contains(k) && is_under(k, dir) ==> tree.dom().contains(dir) && tree[dir] is Dir
}

/// Whether every directory comes after all that lies below it.
pub open spec fn contents_first(entries: Seq<EntryModel>) -> bool {
    forall|i: int, j: int|
        0 <= i < j < entries.len() ==> !is_under(
            (#[trigger] entries[j]).path,
            (#[trigger] entries[i]).path,
        )
}

/// Whether the entries are what a walk over a directory comes by that visits the
/// contents of a directory before the directory.
pub open spec fn is_walk(entries: Seq<EntryModel>) -> bool {
    &&& distinct_paths(entries)
    &&& contents_first(entries)
    &&& is_tree(tree_of(entries))
}

/// Whether the cached contents are those of the files in the tree.
pub open spec fn cache_agrees(cache: Map<Seq<char>, Seq<u8>>, tree: TreeModel) -> bool {
    forall|k: Seq<char>| #[trigger]
        cache.dom().contains(k) ==> tree.dom().contains(k) && tree[k] == NodeModel::File(cache[k])
}

/// Whether the two states of each file that is in both trees fit into memory
/// together.
pub open spec fn sizes_fit(source: TreeModel, new: TreeModel) -> bool {
    forall|k: Seq<char>|
        #![trigger source.dom().contains(k), new.dom().contains(k)]
        source.dom().contains(k) && new.dom().contains(k) ==> match (source[k], new[k]) {
            (NodeModel::File(s), NodeModel::File(n)) => s.len() + n.len() <= u64::MAX,
            _ => true,
        }
}

/// Whether one of the first `i` entries has this path.
spec fn seen(entries: Seq<EntryModel>, i: int, k: Seq<char>) -> bool {
    exists|j: int| 0 <= j < i && (#[trigger] entries[j]).path == k
}

/// Applying two rows of changes one after the other is applying them as one row.
proof fn lemma_steps_concat(w: WorkModel, a: Seq<OpModel>, b: Seq<OpModel>)
    ensures
        stepped_all(w, a + b) == match stepped_all(w, a) {
            Err(e) => Err(e),
            Ok(m) => stepped_all(m, b),
        },
    decreases a.len(),
{
    if a.len() == 0 {
        assert(a + b =~= b);
    } else {
        assert((a + b)[0] == a[0]);
        assert((a + b).skip(1) =~= a.skip(1) + b);
        if let Ok(next) = stepped(w, a[0]) {
            lemma_steps_concat(next, a.skip(1), b);
        }
    }
}

proof fn lemma_one_step(w: WorkModel, op: OpModel)
    ensures
        stepped_all(w, seq![op]) == stepped(w, op),
{
    let ops = seq![op];
    assert(ops.skip(1) =~= Seq::empty());
    if let Ok(next) = stepped(w, op) {
        assert(stepped_all(next, ops.skip(1)) == Ok::<WorkModel, TreeError>(next));
    }
}

proof fn lemma_two_steps(w: WorkModel, a: OpModel, b: OpModel)
    ensures
        stepped_all(w, seq![a, b]) == match stepped(w, a) {
            Err(e) => Err(e),
            Ok(next) => stepped(next, b),
        },
{
    lemma_steps_concat(w, seq![a], seq![b]);
    assert(seq![a] + seq![b] =~= seq![a, b]);
    lemma_one_step(w, a);
    if let Ok(next) = stepped(w, a) {
        lemma_one_step(next, b);
    }
}

/// Changes to one file, once it is the one that changes are about, leave its
/// changed contents in the cache.
proof fn lemma_modify_run(
    w: WorkModel,
    name: Seq<char>,
    contents: Seq<u8>,
    ops: Seq<OpModel>,
    result: Seq<u8>,
)
    requires
        ops.len() > 0,
        w.last == Some(name),
        contents_of(w.tree, w.cache, name) == Ok::<Seq<u8>, TreeError>(contents),
        forall|i: int|
            0 <= i < ops.len() ==> (#[trigger] ops[i]) is Modify && ops[i].name() == name,
        edited_by(contents, w.offset, ops) == Some(result),
    ensures
        match stepped_all(w, ops) {
            Ok(end) => {
                &&& end.tree == w.tree
                &&& end.cache == w.cache.insert(name, result)
                &&& end.modified == w.modified.insert(name)
                &&& end.last == w.last
            },
            Err(_) => false,
        },
    decreases ops.len(),
{
    let op = ops[0];
    assert(op is Modify && op.name() == name);
    let (from, to, with) = (op->Modify_1, op->Modify_2, op->Modify_3);
    let (changed, offset) = edited(contents, w.offset, from, to, with)->0;
    let next = WorkModel {
        cache: w.cache.insert(name, changed),
        modified: w.modified.insert(name),
        offset,
        ..w
    };
    assert(stepped(w, op) == Ok::<WorkModel, TreeError>(next));
    let rest = ops.skip(1);
    if rest.len() == 0 {
        assert(stepped_all(next, rest) == Ok::<WorkModel, TreeError>(next));
        assert(edited_by(changed, offset, rest) == Some(changed));
    } else {
        assert forall|i: int| 0 <= i < rest.len() implies (#[trigger] rest[i]) is Modify
            && rest[i].name() == name by {
            assert(rest[i] == ops[i + 1]);
        }
        lemma_modify_run(next, name, changed, rest, result);
        assert(next.cache.insert(name, result) =~= w.cache.insert(name, result));
        assert(next.modified.insert(name) =~= w.modified.insert(name));
    }
}

proof fn lemma_modify_ops_shape(name: Seq<char>, spans: Seq<super::diff::DiffSpan>, new: Seq<u8>)
    ensures
        forall|i: int|
            0 <= i < modify_ops(name, spans, new).len() ==> (#[trigger] modify_ops(
                name,
                spans,
                new,
            )[i]) is Modify && modify_ops(name, spans, new)[i].name() == name,
    decreases spans.len(),
{
    if spans.len() > 0 {
        lemma_modify_ops_shape(name, spans.skip(1), new);
        let all = modify_ops(name, spans, new);
        let rest = modify_ops(name, spans.skip(1), new);
        assert forall|i: int| 0 <= i < all.len() implies (#[trigger] all[i]) is Modify
            && all[i].name() == name by {
            if !spans[0].equal && i > 0 {
                assert(all[i] == rest[i - 1]);
            }
        }
    }
}

/// Where the changes of all paths can be generated, so can those of each.
proof fn lemma_source_parts_ok(entries: Seq<EntryModel>, new: TreeModel)
    requires
        source_parts(entries, new) is Ok,
    ensures
        forall|i: int| 0 <= i < entries.len() ==> source_part(#[trigger] entries[i], new) is Ok,
    decreases entries.len(),
{
    if entries.len() > 0 {
        lemma_source_parts_ok(entries.drop_last(), new);
        assert forall|i: int| 0 <= i < entries.len() implies source_part(
            #[trigger] entries[i],
            new,
        ) is Ok by {
            if i < entries.len() - 1 {
                assert(entries[i] == entries.drop_last()[i]);
            }
        }
    }
}

/// Whether a path of the old tree leaves it before anything is written.
spec fn leaves(s: TreeModel, n: TreeModel, k: Seq<char>) -> bool {
    !n.dom().contains(k) || (s[k] is Dir && n[k] is File)
}

/// What holds while the changes of the first `i` old paths are applied.
spec fn midway(
    source: Seq<EntryModel>,
    n: TreeModel,
    i: int,
    w: WorkModel,
) -> bool {
    let s = tree_of(source);
    &&& forall|k: Seq<char>|
        #![trigger w.tree.dom().contains(k)]
        w.tree.dom().contains(k) <==> s.dom().contains(k) && !(seen(source, i, k) && leaves(
            s,
            n,
            k,
        ))
    &&& forall|k: Seq<char>|
        #![trigger w.tree[k]]
        w.tree.dom().contains(k) ==> w.tree[k] == if seen(source, i, k) && s[k] is File
            && n[k] is Dir {
            NodeModel::Dir
        } else {
            s[k]
        }
    &&& forall|k: Seq<char>|
        #![trigger w.cache.dom().contains(k)]
        w.cache.dom().contains(k) ==> if seen(source, i, k) {
            n.dom().contains(k) && n[k] == NodeModel::File(w.cache[k])
        } else {
            s.dom().contains(k) && s[k] == NodeModel::File(w.cache[k])
        }
    &&& forall|k: Seq<char>|
        #![trigger w.modified.contains(k)]
        w.modified.contains(k) ==> seen(source, i, k) && n.dom().contains(k) && n[k] is File
            && w.cache.dom().contains(k)
    &&& forall|k: Seq<char>|
        #![trigger seen(source, i, k)]
        seen(source, i, k) && n.dom().contains(k) && n[k] is File && !w.modified.contains(k)
            ==> s[k] == n[k]
    &&& match w.last {
        Some(k) => seen(source, i, k),
        None => true,
    }
}

proof fn lemma_seen_next(entries: Seq<EntryModel>, i: int, k: Seq<char>)
    requires
        0 <= i < entries.len(),
    ensures
        seen(entries, i + 1, k) <==> seen(entries, i, k) || k == entries[i].path,
{
    if seen(entries, i + 1, k) {
        let j = choose|j: int| 0 <= j < i + 1 && (#[trigger] entries[j]).path == k;
        if j < i {
            assert(seen(entries, i, k));
        }
    }
    if seen(entries, i, k) {
        let j = choose|j: int| 0 <= j < i && (#[trigger] entries[j]).path == k;
        assert(entries[j].path == k);
    }
    if k == entries[i].path {
        assert(entries[i].path == k);
    }
}

/// The directories above an old path are still there when its turn comes.
proof fn lemma_turn_to_source(source: Seq<EntryModel>, n: TreeModel, i: int, w: WorkModel)
    requires
        is_walk(source),
        0 <= i < source.len(),
        midway(source, n, i, w),
    ensures
        !seen(source, i, source[i].path),
        tree_of(source).dom().contains(source[i].path),
        tree_of(source)[source[i].path] == source[i].node,
        w.tree.dom().contains(source[i].path),
        w.tree[source[i].path] == source[i].node,
        turned_to(w, source[i].path) == Ok::<WorkModel, TreeError>(
            WorkModel { last: Some(source[i].path), offset: 0, ..w },
        ),
{
    let s = tree_of(source);
    let k = source[i].path;
    super::tree::lemma_entry_in_tree(source, i);
    if seen(source, i, k) {
        let j = choose|j: int| 0 <= j < i && (#[trigger] source[j]).path == k;
        assert(source[j].path != source[i].path);
    }
    assert forall|dir: Seq<char>| #[trigger] is_under(k, dir) implies w.tree.dom().contains(dir)
        && w.tree[dir] is Dir by {
        assert(s.dom().contains(k));
        assert(s.dom().contains(dir) && s[dir] is Dir);
        if seen(source, i, dir) {
            let j = choose|j: int| 0 <= j < i && (#[trigger] source[j]).path == dir;
            assert(!is_under(source[i].path, source[j].path));
        }
        assert(w.tree.dom().contains(dir));
        assert(w.tree[dir] == s[dir]);
    }
    assert(!blocked(w.tree, k));
    assert(with_parents(w.tree, k) =~= w.tree);
}

/// Nothing is left below an old directory that goes away when its turn comes.
proof fn lemma_nothing_below(source: Seq<EntryModel>, n: TreeModel, i: int, w: WorkModel)
    requires
        is_walk(source),
        is_tree(n),
        0 <= i < source.len(),
        midway(source, n, i, w),
        leaves(tree_of(source), n, source[i].path),
        forall|j: int| 0 <= j < source.len() ==> source_part(#[trigger] source[j], n) is Ok,
    ensures
        without_dir(w.tree, source[i].path) == w.tree.remove(source[i].path),
{
    let s = tree_of(source);
    let k = source[i].path;
    assert forall|x: Seq<char>| w.tree.dom().contains(x) implies !is_under(x, k) by {
        if is_under(x, k) {
            assert(s.dom().contains(x));
            let j = choose|j: int| 0 <= j < source.len() && (#[trigger] source[j]).path == x;
            assert(source[j].path == x);
            if j > i {
                assert(!is_under(source[j].path, source[i].path));
            }
            assert(j != i);
            assert(seen(source, i, x));
            if n.dom().contains(k) {
                assert(blocked(n, x));
                assert(source_part(source[j], n) is Ok);
            } else {
                if n.dom().contains(x) {
                    assert(n.dom().contains(k));
                }
            }
        }
    }
    assert(without_dir(w.tree, k) =~= w.tree.remove(k));
}

/// The changes of one old path keep what holds midway.
#[verifier::rlimit(60)]
#[verifier::spinoff_prover]
proof fn lemma_source_step(source: Seq<EntryModel>, n: TreeModel, i: int, w: WorkModel) -> (r: WorkModel)
    requires
        is_walk(source),
        is_tree(n),
        diffs_lead(tree_of(source), n),
        sizes_fit(tree_of(source), n),
        0 <= i < source.len(),
        midway(source, n, i, w),
        forall|j: int| 0 <= j < source.len() ==> source_part(#[trigger] source[j], n) is Ok,
    ensures
        stepped_all(w, source_part(source[i], n)->Ok_0) == Ok::<WorkModel, TreeError>(r),
        midway(source, n, i + 1, r),
{
    let s = tree_of(source);
    let k = source[i].path;
    let ops = source_part(source[i], n)->Ok_0;
    assert(source_part(source[i], n) is Ok);
    lemma_turn_to_source(source, n, i, w);
    let ready = WorkModel { last: Some(k), offset: 0, ..w };
    assert forall|x: Seq<char>| seen(source, i + 1, x) <==> seen(source, i, x) || x == k by {
        lemma_seen_next(source, i, x);
    }
    if leaves(s, n, k) {
        lemma_nothing_below(source, n, i, w);
    }
    let r = if !n.dom().contains(k) {
        lemma_one_step(w, OpModel::Delete(k));
        WorkModel { tree: w.tree.remove(k), cache: w.cache.remove(k), ..ready }
    } else {
        match (source[i].node, n[k]) {
            (NodeModel::File(a), NodeModel::File(b)) => {
                let spans = diff_spans(a, b);
                assert(s.dom().contains(k) && n.dom().contains(k));
                super::diff::generated_ops_lead_to_new(k, spans, a, b);
                lemma_modify_ops_shape(k, spans, b);
                assert(ops == modify_ops(k, spans, b));
                if ops.len() == 0 {
                    assert(ops =~= Seq::empty());
                    assert(a == b);
                    w
                } else {
                    if w.cache.dom().contains(k) {
                        assert(w.cache[k] == a);
                    }
                    assert(contents_of(ready.tree, ready.cache, k) == Ok::<Seq<u8>, TreeError>(a));
                    lemma_modify_run(ready, k, a, ops, b);
                    assert(ops[0].name() == k);
                    assert(turned_to(ready, k) == Ok::<WorkModel, TreeError>(ready));
                    assert(stepped_all(w, ops) == stepped_all(ready, ops));
                    stepped_all(ready, ops)->Ok_0
                }
            },
            (NodeModel::File(_), NodeModel::Dir) => {
                lemma_two_steps(w, OpModel::Delete(k), OpModel::CreateDir(k));
                WorkModel {
                    tree: w.tree.remove(k).insert(k, NodeModel::Dir),
                    cache: w.cache.remove(k),
                    ..ready
                }
            },
            (NodeModel::Dir, NodeModel::File(b)) => {
                lemma_two_steps(w, OpModel::Delete(k), OpModel::Create(k, b));
                WorkModel {
                    tree: w.tree.remove(k),
                    cache: w.cache.remove(k).insert(k, b),
                    modified: w.modified.insert(k),
                    ..ready
                }
            },
            (NodeModel::Dir, NodeModel::Dir) => {
                assert(ops =~= Seq::empty());
                w
            },
        }
    };
    assert(stepped_all(w, ops) == Ok::<WorkModel, TreeError>(r));
    assert forall|x: Seq<char>|
        #![trigger r.tree.dom().contains(x)]
        r.tree.dom().contains(x) <==> s.dom().contains(x) && !(seen(source, i + 1, x) && leaves(
            s,
            n,
            x,
        )) by {
        lemma_seen_next(source, i, x);
        assert(w.tree.dom().contains(x) <==> s.dom().contains(x) && !(seen(source, i, x) && leaves(
            s,
            n,
            x,
        )));
    }
    assert forall|x: Seq<char>|
        #![trigger r.tree[x]]
        r.tree.dom().contains(x) implies r.tree[x] == if seen(source, i + 1, x) && s[x] is File
        && n[x] is Dir {
        NodeModel::Dir
    } else {
        s[x]
    } by {
        lemma_seen_next(source, i, x);
        if x != k {
            assert(w.tree.dom().contains(x));
            assert(r.tree[x] == w.tree[x]);
        }
    }
    assert forall|x: Seq<char>|
        #![trigger r.cache.dom().contains(x)]
        r.cache.dom().contains(x) implies if seen(source, i + 1, x) {
        n.dom().contains(x) && n[x] == NodeModel::File(r.cache[x])
    } else {
        s.dom().contains(x) && s[x] == NodeModel::File(r.cache[x])
    } by {
        lemma_seen_next(source, i, x);
        if x != k {
            assert(w.cache.dom().contains(x));
        }
    }
    assert forall|x: Seq<char>|
        #![trigger r.modified.contains(x)]
        r.modified.contains(x) implies seen(source, i + 1, x) && n.dom().contains(x) && n[x] is File
        && r.cache.dom().contains(x) by {
        lemma_seen_next(source, i, x);
        if x != k {
            assert(w.modified.contains(x));
            assert(w.cache.dom().contains(x));
        } else {
            assert(!w.modified.contains(k));
        }
    }
    assert forall|x: Seq<char>|
        #![trigger seen(source, i + 1, x)]
        seen(source, i + 1, x) && n.dom().contains(x) && n[x] is File && !r.modified.contains(
            x,
        ) implies s[x] == n[x] by {
        lemma_seen_next(source, i, x);
        if x != k {
            assert(seen(source, i, x));
            assert(!w.modified.contains(x));
        }
    }
    lemma_seen_next(source, i, k);
    if let Some(x) = w.last {
        lemma_seen_next(source, i, x);
    }
    r
}

/// What holds after the changes of the first `i` old paths.
proof fn lemma_source_steps(
    source: Seq<EntryModel>,
    n: TreeModel,
    i: int,
    w: WorkModel,
) -> (r: WorkModel)
    requires
        is_walk(source),
        is_tree(n),
        diffs_lead(tree_of(source), n),
        sizes_fit(tree_of(source), n),
        0 <= i <= source.len(),
        midway(source, n, 0, w),
        forall|j: int| 0 <= j < source.len() ==> source_part(#[trigger] source[j], n) is Ok,
    ensures
        source_parts(source.take(i), n) is Ok,
        stepped_all(w, source_parts(source.take(i), n)->Ok_0) == Ok::<WorkModel, TreeError>(r),
        midway(source, n, i, r),
    decreases i,
{
    if i == 0 {
        w
    } else {
        let m = lemma_source_steps(source, n, i - 1, w);
        let front = source_parts(source.take(i - 1), n)->Ok_0;
        assert(source.take(i).drop_last() =~= source.take(i - 1));
        assert(source.take(i).last() == source[i - 1]);
        assert(source_part(source[i - 1], n) is Ok);
        let part = source_part(source[i - 1], n)->Ok_0;
        lemma_steps_concat(w, front, part);
        lemma_source_step(source, n, i - 1, m)
    }
}

/// What holds while the changes of the first `i` new paths are applied, after
/// those of all old paths.
spec fn late(
    s: TreeModel,
    new: Seq<EntryModel>,
    i: int,
    w: WorkModel,
) -> bool {
    let n = tree_of(new);
    &&& forall|k: Seq<char>|
        #![trigger w.tree.dom().contains(k)]
        w.tree.dom().contains(k) ==> n.dom().contains(k) && (n[k] is Dir <==> w.tree[k] is Dir)
            && (n[k] is File ==> s.dom().contains(k))
    &&& forall|k: Seq<char>|
        #![trigger n.dom().contains(k)]
        n.dom().contains(k) && n[k] is Dir && (s.dom().contains(k) || seen(new, i, k))
            ==> w.tree.dom().contains(k)
    &&& forall|k: Seq<char>|
        #![trigger w.cache.dom().contains(k)]
        w.cache.dom().contains(k) ==> n.dom().contains(k) && n[k] == NodeModel::File(w.cache[k])
    &&& forall|k: Seq<char>|
        #![trigger w.modified.contains(k)]
        w.modified.contains(k) ==> n.dom().contains(k) && n[k] is File && w.cache.dom().contains(k)
            && has_parent(w.tree, k)
    &&& forall|k: Seq<char>|
        #![trigger n.dom().contains(k)]
        n.dom().contains(k) && n[k] is File && !w.modified.contains(k) && (s.dom().contains(k)
            || seen(new, i, k)) ==> w.tree.dom().contains(k) && w.tree[k] == n[k]
    &&& match w.last {
        Some(k) => s.dom().contains(k) || seen(new, i, k),
        None => true,
    }
}

proof fn lemma_midway_is_late(source: Seq<EntryModel>, new: Seq<EntryModel>, w: WorkModel)
    requires
        is_walk(source),
        is_walk(new),
        midway(source, tree_of(new), source.len() as int, w),
    ensures
        late(tree_of(source), new, 0, w),
{
    let s = tree_of(source);
    let n = tree_of(new);
    let len = source.len() as int;
    assert forall|k: Seq<char>| seen(source, len, k) <==> s.dom().contains(k) by {
        if seen(source, len, k) {
            let j = choose|j: int| 0 <= j < len && (#[trigger] source[j]).path == k;
            assert(source[j].path == k);
        }
        if s.dom().contains(k) {
            let j = choose|j: int| 0 <= j < source.len() && (#[trigger] source[j]).path == k;
            assert(source[j].path == k);
        }
    }
    assert forall|k: Seq<char>| w.modified.contains(k) implies has_parent(w.tree, k) by {
        assert(s.dom().contains(k));
        assert forall|dir: Seq<char>| #[trigger] is_under(k, dir) implies w.tree.dom().contains(dir)
            && w.tree[dir] is Dir by {
            assert(s.dom().contains(dir) && s[dir] is Dir);
            assert(n.dom().contains(k));
            assert(n.dom().contains(dir) && n[dir] is Dir);
            assert(w.tree.dom().contains(dir));
        }
    }
    assert forall|k: Seq<char>|
        n.dom().contains(k) && n[k] is File && !w.modified.contains(k) && s.dom().contains(
            k,
        ) implies w.tree.dom().contains(k) && w.tree[k] == n[k] by {
        assert(seen(source, len, k));
        assert(s[k] == n[k]);
        assert(w.tree.dom().contains(k));
    }
    assert forall|k: Seq<char>| w.tree.dom().contains(k) implies n.dom().contains(k) && (n[k] is Dir
        <==> w.tree[k] is Dir) && (n[k] is File ==> s.dom().contains(k)) by {
        assert(seen(source, len, k));
        assert(w.tree[k] == if s[k] is File && n[k] is Dir {
            NodeModel::Dir
        } else {
            s[k]
        });
    }
}

/// The changes of one new path keep what holds late.
#[verifier::rlimit(60)]
#[verifier::spinoff_prover]
proof fn lemma_new_step(s: TreeModel, new: Seq<EntryModel>, i: int, w: WorkModel) -> (r: WorkModel)
    requires
        is_walk(new),
        0 <= i < new.len(),
        late(s, new, i, w),
        new_part(new[i], s) is Ok,
    ensures
        stepped_all(w, new_part(new[i], s)->Ok_0) == Ok::<WorkModel, TreeError>(r),
        late(s, new, i + 1, r),
{
    let n = tree_of(new);
    let k = new[i].path;
    super::tree::lemma_entry_in_tree(new, i);
    assert forall|x: Seq<char>| seen(new, i + 1, x) <==> seen(new, i, x) || x == k by {
        lemma_seen_next(new, i, x);
    }
    if s.dom().contains(k) {
        assert(new_part(new[i], s)->Ok_0 =~= Seq::empty());
        w
    } else {
        if seen(new, i, k) {
            let j = choose|j: int| 0 <= j < i && (#[trigger] new[j]).path == k;
            assert(new[j].path != new[i].path);
        }
        assert forall|dir: Seq<char>| #[trigger] is_under(k, dir) implies n.dom().contains(dir)
            && n[dir] is Dir by {
            assert(n.dom().contains(k));
        }
        assert(!blocked(w.tree, k));
        let tree = with_parents(w.tree, k);
        let ready = WorkModel { tree, last: Some(k), offset: 0, ..w };
        assert(turned_to(w, k) == Ok::<WorkModel, TreeError>(ready));
        assert forall|x: Seq<char>| w.modified.contains(x) implies has_parent(tree, x) by {
            assert forall|dir: Seq<char>| #[trigger] is_under(x, dir) implies tree.dom().contains(
                dir,
            ) && tree[dir] is Dir by {
                assert(w.tree.dom().contains(dir) && w.tree[dir] is Dir);
            }
        }
        match new[i].node {
            NodeModel::File(c) => {
                lemma_one_step(w, OpModel::Create(k, c));
                assert(has_parent(tree, k)) by {
                    assert forall|dir: Seq<char>| #[trigger] is_under(
                        k,
                        dir,
                    ) implies tree.dom().contains(dir) && tree[dir] is Dir by {
                        if w.tree.dom().contains(dir) {
                            assert(n[dir] is Dir);
                        }
                    }
                }
                WorkModel {
                    cache: w.cache.insert(k, c),
                    modified: w.modified.insert(k),
                    ..ready
                }
            },
            NodeModel::Dir => {
                lemma_one_step(w, OpModel::CreateDir(k));
                let r = WorkModel {
                    tree: if tree.dom().contains(k) {
                        tree
                    } else {
                        tree.insert(k, NodeModel::Dir)
                    },
                    ..ready
                };
                assert forall|x: Seq<char>| r.modified.contains(x) implies has_parent(r.tree, x) by {
                    assert(has_parent(tree, x));
                    assert forall|dir: Seq<char>| #[trigger] is_under(
                        x,
                        dir,
                    ) implies r.tree.dom().contains(dir) && r.tree[dir] is Dir by {
                        assert(tree.dom().contains(dir) && tree[dir] is Dir);
                    }
                }
                r
            },
        }
    }
}

proof fn lemma_new_parts_ok(entries: Seq<EntryModel>, source: TreeModel)
    requires
        new_parts(entries, source) is Ok,
    ensures
        forall|i: int| 0 <= i < entries.len() ==> new_part(#[trigger] entries[i], source) is Ok,
    decreases entries.len(),
{
    if entries.len() > 0 {
        lemma_new_parts_ok(entries.drop_last(), source);
        assert forall|i: int| 0 <= i < entries.len() implies new_part(
            #[trigger] entries[i],
            source,
        ) is Ok by {
            if i < entries.len() - 1 {
                assert(entries[i] == entries.drop_last()[i]);
            }
        }
    }
}

proof fn lemma_new_steps(s: TreeModel, new: Seq<EntryModel>, i: int, w: WorkModel) -> (r: WorkModel)
    requires
        is_walk(new),
        0 <= i <= new.len(),
        late(s, new, 0, w),
        forall|j: int| 0 <= j < new.len() ==> new_part(#[trigger] new[j], s) is Ok,
    ensures
        new_parts(new.take(i), s) is Ok,
        stepped_all(w, new_parts(new.take(i), s)->Ok_0) == Ok::<WorkModel, TreeError>(r),
        late(s, new, i, r),
    decreases i,
{
    if i == 0 {
        w
    } else {
        let m = lemma_new_steps(s, new, i - 1, w);
        let front = new_parts(new.take(i - 1), s)->Ok_0;
        assert(new.take(i).drop_last() =~= new.take(i - 1));
        assert(new.take(i).last() == new[i - 1]);
        assert(new_part(new[i - 1], s) is Ok);
        let part = new_part(new[i - 1], s)->Ok_0;
        lemma_steps_concat(w, front, part);
        lemma_new_step(s, new, i - 1, m)
    }
}

proof fn lemma_late_writes_new(s: TreeModel, new: Seq<EntryModel>, w: WorkModel)
    requires
        is_walk(new),
        late(s, new, new.len() as int, w),
    ensures
        written(w.tree, w.cache, w.modified) == Ok::<TreeModel, TreeError>(tree_of(new)),
        cache_agrees(w.cache, tree_of(new)),
{
    let n = tree_of(new);
    let len = new.len() as int;
    assert forall|k: Seq<char>| n.dom().contains(k) implies seen(new, len, k) by {
        let j = choose|j: int| 0 <= j < new.len() && (#[trigger] new[j]).path == k;
        assert(new[j].path == k);
    }
    assert forall|k: Seq<char>| #[trigger] w.modified.contains(k) implies !(w.tree.dom().contains(k)
        && w.tree[k] is Dir) by {
    }
    let result = written(w.tree, w.cache, w.modified);
    assert(result is Ok);
    assert(result->Ok_0 =~= n);
}

/// The changes that were generated between two trees, applied to the first,
/// give the second. Files whose contents are cached may be in the first tree,
/// and what is cached afterwards are contents of files of the second, so that the
/// next changes can be applied in turn.
pub proof fn generated_changes_lead_to_new(
    source: Seq<EntryModel>,
    new: Seq<EntryModel>,
    cache: Map<Seq<char>, Seq<u8>>,
)
    requires
        is_walk(source),
        is_walk(new),
        cache_agrees(cache, tree_of(source)),
        diffs_lead(tree_of(source), tree_of(new)),
        sizes_fit(tree_of(source), tree_of(new)),
        generated_dir(source, new) is Ok,
    ensures
        match applied(tree_of(source), cache, generated_dir(source, new)->Ok_0) {
            Ok((tree, kept)) => tree == tree_of(new) && cache_agrees(kept, tree_of(new)),
            Err(_) => false,
        },
{
    let s = tree_of(source);
    let n = tree_of(new);
    let start = WorkModel { tree: s, cache, modified: Set::empty(), last: None, offset: 0 };
    let first = source_parts(source, n)->Ok_0;
    let second = new_parts(new, s)->Ok_0;
    lemma_source_parts_ok(source, n);
    lemma_new_parts_ok(new, s);
    assert(source.take(source.len() as int) =~= source);
    assert(new.take(new.len() as int) =~= new);
    assert(midway(source, n, 0, start));
    let mid = lemma_source_steps(source, n, source.len() as int, start);
    lemma_midway_is_late(source, new, mid);
    let end = lemma_new_steps(s, new, new.len() as int, mid);
    lemma_steps_concat(start, first, second);
    lemma_late_writes_new(s, new, end);
}

/// Changes that were generated between two trees and written down, then read back
/// and applied to the first tree, give the second.
pub proof fn written_changes_lead_to_new(
    source: Seq<EntryModel>,
    new: Seq<EntryModel>,
    cache: Map<Seq<char>, Seq<u8>>,
)
    requires
        is_walk(source),
        is_walk(new),
        cache_agrees(cache, tree_of(source)),
        diffs_lead(tree_of(source), tree_of(new)),
        sizes_fit(tree_of(source), tree_of(new)),
        generated_dir(source, new) is Ok,
        forall|i: int|
            0 <= i < generated_dir(source, new)->Ok_0.len() ==> readable(
                #[trigger] generated_dir(source, new)->Ok_0[i],
            ),
    ensures
        match decoded(encoded_all(generated_dir(source, new)->Ok_0), 0) {
            Ok(ops) => match applied(tree_of(source), cache, ops) {
                Ok((tree, kept)) => tree == tree_of(new) && cache_agrees(kept, tree_of(new)),
                Err(_) => false,
            },
            Err(_) => false,
        },
{
    super::codec::encoded_ops_read_back(generated_dir(source, new)->Ok_0);
    generated_changes_lead_to_new(source, new, cache);
}

} // verus!
