//! Directory trees: the changes between two of them, and how changes are applied
//! to one.
//!
//! A tree is known by the paths of what it holds, relative to its root and with
//! `/` between their parts.
use vstd::prelude::*;

use super::diff::{edit_contents, generate_ops};
use super::ops::{OpModel, SnapshotOp};
use crate::table::Table;
use crate::text::{chars_of, same_text, string_of, sub_chars};
#[allow(unused_imports)]
use super::diff::{all_equal, diff_spans, edit_path, edited, generated};
#[allow(unused_imports)]
use super::ops::op_models;
#[allow(unused_imports)]
use crate::table::TableKey;

verus! {

/// What stands at a path.
#[derive(Debug, PartialEq)]
pub enum Node {
    Dir,
    File(Vec<u8>),
}

#[verifier::ext_equal]
pub enum NodeModel {
    Dir,
    File(Seq<u8>),
}

impl View for Node {
    type V = NodeModel;

    open spec fn view(&self) -> NodeModel {
        match self {
            Node::Dir => NodeModel::Dir,
            Node::File(contents) => NodeModel::File(contents@),
        }
    }
}

/// One path that a walk over a directory came by.
#[derive(Debug)]
pub struct TreeEntry {
    pub path: String,
    pub node: Node,
}

#[verifier::ext_equal]
pub struct EntryModel {
    pub path: Seq<char>,
    pub node: NodeModel,
}

impl View for TreeEntry {
    type V = EntryModel;

    open spec fn view(&self) -> EntryModel {
        EntryModel { path: self.path@, node: self.node@ }
    }
}

pub open spec fn entry_models(entries: Seq<TreeEntry>) -> Seq<EntryModel> {
    Seq::new(entries.len(), |i: int| entries[i]@)
}

pub type TreeModel = Map<Seq<char>, NodeModel>;

/// Whether no path occurs twice.
pub open spec fn distinct_paths(entries: Seq<EntryModel>) -> bool {
    forall|i: int, j: int|
        0 <= i < j < entries.len() ==> (#[trigger] entries[i]).path != (#[trigger] entries[j]).path
}

/// The tree that the entries describe.
pub open spec fn tree_of(entries: Seq<EntryModel>) -> TreeModel {
    Map::new(
        |k: Seq<char>| exists|i: int| 0 <= i < entries.len() && (#[trigger] entries[i]).path == k,
        |k: Seq<char>|
            entries[choose|i: int| 0 <= i < entries.len() && (#[trigger] entries[i]).path == k].node,
    )
}

/// Whether `path` lies somewhere below the directory `dir`.
pub open spec fn is_under(path: Seq<char>, dir: Seq<char>) -> bool {
    &&& dir.len() < path.len()
    &&& path[dir.len() as int] == '/'
    &&& path.take(dir.len() as int) == dir
}

/// Whether a file stands where `path` would need a directory.
pub open spec fn blocked(tree: TreeModel, path: Seq<char>) -> bool {
    exists|dir: Seq<char>|
        #[trigger] is_under(path, dir) && tree.dom().contains(dir) && tree[dir] is File
}

/// The tree with every directory above `path`.
pub open spec fn with_parents(tree: TreeModel, path: Seq<char>) -> TreeModel {
    Map::new(
        |k: Seq<char>| tree.dom().contains(k) || is_under(path, k),
        |k: Seq<char>|
            if tree.dom().contains(k) {
                tree[k]
            } else {
                NodeModel::Dir
            },
    )
}

/// The tree without the directory `dir` and all that lies below it.
pub open spec fn without_dir(tree: TreeModel, dir: Seq<char>) -> TreeModel {
    Map::new(
        |k: Seq<char>| tree.dom().contains(k) && k != dir && !is_under(k, dir),
        |k: Seq<char>| tree[k],
    )
}

/// Why changes cannot be generated or applied.
#[derive(Debug, Clone, Copy, PartialEq, Eq, Structural)]
pub enum TreeError {
    /// What a change is about does not exist.
    NotFound,
    /// A file stands where a path needs a directory.
    BlockedByFile,
    /// A directory stands where a file is to be read or written.
    IsADirectory,
    /// A changed range runs backwards or leaves the file.
    OutOfBounds,
    /// A file that was to be written was deleted again.
    ContentsGone,
}

/// What is under way while changes are applied.
#[verifier::ext_equal]
pub struct WorkModel {
    pub tree: TreeModel,
    /// The contents of files that were read or are to be written.
    pub cache: Map<Seq<char>, Seq<u8>>,
    /// The files that are to be written.
    pub modified: Set<Seq<char>>,
    /// The file or directory that the last change was about.
    pub last: Option<Seq<char>>,
    /// How far the last file's contents have moved by the changes to it.
    pub offset: u64,
}

/// The contents of a file, from the cache or else from the tree.
pub open spec fn contents_of(
    tree: TreeModel,
    cache: Map<Seq<char>, Seq<u8>>,
    name: Seq<char>,
) -> Result<Seq<u8>, TreeError> {
    if cache.dom().contains(name) {
        Ok(cache[name])
    } else if !tree.dom().contains(name) {
        Err(TreeError::NotFound)
    } else {
        match tree[name] {
            NodeModel::File(contents) => Ok(contents),
            NodeModel::Dir => Err(TreeError::IsADirectory),
        }
    }
}

/// Makes room for a change: a change to something else than the last one was
/// about first gets the directories above it, and begins with contents that have
/// not moved.
pub open spec fn turned_to(work: WorkModel, name: Seq<char>) -> Result<WorkModel, TreeError> {
    if work.last == Some(name) {
        Ok(work)
    } else if blocked(work.tree, name) {
        Err(TreeError::BlockedByFile)
    } else {
        Ok(
            WorkModel {
                tree: with_parents(work.tree, name),
                last: Some(name),
                offset: 0,
                ..work
            },
        )
    }
}

/// Applies one change. Deletions and new directories take effect at once, file
/// contents go to the cache.
pub open spec fn performed(work: WorkModel, op: OpModel) -> Result<WorkModel, TreeError> {
    let name = op.name();
    match op {
        OpModel::Delete(_) => if !work.tree.dom().contains(name) {
            Err(TreeError::NotFound)
        } else {
            Ok(
                WorkModel {
                    tree: match work.tree[name] {
                        NodeModel::File(_) => work.tree.remove(name),
                        NodeModel::Dir => without_dir(work.tree, name),
                    },
                    cache: work.cache.remove(name),
                    ..work
                },
            )
        },
        OpModel::CreateDir(_) => Ok(
            WorkModel {
                tree: if work.tree.dom().contains(name) {
                    work.tree
                } else {
                    work.tree.insert(name, NodeModel::Dir)
                },
                ..work
            },
        ),
        OpModel::Create(_, contents) => Ok(
            WorkModel {
                cache: work.cache.insert(name, contents),
                modified: work.modified.insert(name),
                ..work
            },
        ),
        OpModel::Modify(_, from, to, with) => match contents_of(work.tree, work.cache, name) {
            Err(e) => Err(e),
            Ok(contents) => match edited(contents, work.offset, from, to, with) {
                None => Err(TreeError::OutOfBounds),
                Some((changed, offset)) => Ok(
                    WorkModel {
                        cache: work.cache.insert(name, changed),
                        modified: work.modified.insert(name),
                        offset,
                        ..work
                    },
                ),
            },
        },
    }
}

pub open spec fn stepped(work: WorkModel, op: OpModel) -> Result<WorkModel, TreeError> {
    match turned_to(work, op.name()) {
        Err(e) => Err(e),
        Ok(ready) => performed(ready, op),
    }
}

/// Applies the changes in order.
pub open spec fn stepped_all(work: WorkModel, ops: Seq<OpModel>) -> Result<WorkModel, TreeError>
    decreases ops.len(),
{
    if ops.len() == 0 {
        Ok(work)
    } else {
        match stepped(work, ops[0]) {
            Err(e) => Err(e),
            Ok(next) => stepped_all(next, ops.skip(1)),
        }
    }
}

/// Whether the directory in which `name` stands exists.
pub open spec fn has_parent(tree: TreeModel, name: Seq<char>) -> bool {
    forall|dir: Seq<char>|
        #[trigger] is_under(name, dir) ==> tree.dom().contains(dir) && tree[dir] is Dir
}

/// Writes the modified files.
pub open spec fn written(
    tree: TreeModel,
    cache: Map<Seq<char>, Seq<u8>>,
    modified: Set<Seq<char>>,
) -> Result<TreeModel, TreeError> {
    if exists|k: Seq<char>| #[trigger] modified.contains(k) && !cache.dom().contains(k) {
        Err(TreeError::ContentsGone)
    } else if exists|k: Seq<char>| #[trigger]
        modified.contains(k) && tree.dom().contains(k) && tree[k] is Dir {
        Err(TreeError::IsADirectory)
    } else if exists|k: Seq<char>| #[trigger] modified.contains(k) && !has_parent(tree, k) {
        Err(TreeError::NotFound)
    } else {
        Ok(
            Map::new(
                |k: Seq<char>| tree.dom().contains(k) || modified.contains(k),
                |k: Seq<char>|
                    if modified.contains(k) {
                        NodeModel::File(cache[k])
                    } else {
                        tree[k]
                    },
            ),
        )
    }
}

/// The tree and the cache after the changes: they are applied in order, then the
/// files that they modified are written.
pub open spec fn applied(
    tree: TreeModel,
    cache: Map<Seq<char>, Seq<u8>>,
    ops: Seq<OpModel>,
) -> Result<(TreeModel, Map<Seq<char>, Seq<u8>>), TreeError> {
    let work = WorkModel { tree, cache, modified: Set::empty(), last: None, offset: 0 };
    match stepped_all(work, ops) {
        Err(e) => Err(e),
        Ok(end) => match written(end.tree, end.cache, end.modified) {
            Err(e) => Err(e),
            Ok(result) => Ok((result, end.cache)),
        },
    }
}

/// The changes that a path of the old tree calls for.
pub open spec fn source_part(entry: EntryModel, new: TreeModel) -> Result<
    Seq<OpModel>,
    TreeError,
> {
    let path = entry.path;
    if blocked(new, path) {
        Err(TreeError::BlockedByFile)
    } else if !new.dom().contains(path) {
        Ok(seq![OpModel::Delete(path)])
    } else {
        Ok(
            match (entry.node, new[path]) {
                (NodeModel::File(s), NodeModel::File(n)) => generated(path, Some(s), Some(n)),
                (NodeModel::File(_), NodeModel::Dir) => seq![
                    OpModel::Delete(path),
                    OpModel::CreateDir(path),
                ],
                (NodeModel::Dir, NodeModel::File(n)) => seq![
                    OpModel::Delete(path),
                    OpModel::Create(path, n),
                ],
                (NodeModel::Dir, NodeModel::Dir) => Seq::empty(),
            },
        )
    }
}

/// The changes that a path of the new tree calls for.
pub open spec fn new_part(entry: EntryModel, source: TreeModel) -> Result<
    Seq<OpModel>,
    TreeError,
> {
    let path = entry.path;
    if blocked(source, path) {
        Err(TreeError::BlockedByFile)
    } else if source.dom().contains(path) {
        Ok(Seq::empty())
    } else {
        Ok(
            match entry.node {
                NodeModel::File(n) => seq![OpModel::Create(path, n)],
                NodeModel::Dir => seq![OpModel::CreateDir(path)],
            },
        )
    }
}

pub open spec fn source_parts(entries: Seq<EntryModel>, new: TreeModel) -> Result<
    Seq<OpModel>,
    TreeError,
>
    decreases entries.len(),
{
    if entries.len() == 0 {
        Ok(Seq::empty())
    } else {
        match source_parts(entries.drop_last(), new) {
            Err(e) => Err(e),
            Ok(front) => match source_part(entries.last(), new) {
                Err(e) => Err(e),
                Ok(part) => Ok(front + part),
            },
        }
    }
}

pub open spec fn new_parts(entries: Seq<EntryModel>, source: TreeModel) -> Result<
    Seq<OpModel>,
    TreeError,
>
    decreases entries.len(),
{
    if entries.len() == 0 {
        Ok(Seq::empty())
    } else {
        match new_parts(entries.drop_last(), source) {
            Err(e) => Err(e),
            Ok(front) => match new_part(entries.last(), source) {
                Err(e) => Err(e),
                Ok(part) => Ok(front + part),
            },
        }
    }
}

/// The changes that turn the tree `source` into the tree `new`.
pub open spec fn generated_dir(source: Seq<EntryModel>, new: Seq<EntryModel>) -> Result<
    Seq<OpModel>,
    TreeError,
> {
    match source_parts(source, tree_of(new)) {
        Err(e) => Err(e),
        Ok(first) => match new_parts(new, tree_of(source)) {
            Err(e) => Err(e),
            Ok(second) => Ok(first + second),
        },
    }
}

/// Whether the comparison of each file that is in both trees led from one state
/// of it to the other, and found nothing where they are the same.
pub open spec fn diffs_lead(source: TreeModel, new: TreeModel) -> bool {
    forall|k: Seq<char>|
        #![trigger source.dom().contains(k), new.dom().contains(k)]
        source.dom().contains(k) && new.dom().contains(k) ==> diff_leads(source[k], new[k])
}

pub open spec fn diff_leads(source: NodeModel, new: NodeModel) -> bool {
    match (source, new) {
        (NodeModel::File(s), NodeModel::File(n)) => {
            &&& edit_path(diff_spans(s, n), s, n, 0, 0)
            &&& s == n ==> all_equal(diff_spans(s, n))
        },
        _ => true,
    }
}

/// Each entry is what the tree holds at its path.
pub proof fn lemma_entry_in_tree(entries: Seq<EntryModel>, i: int)
    requires
        distinct_paths(entries),
        0 <= i < entries.len(),
    ensures
        tree_of(entries).dom().contains(entries[i].path),
        tree_of(entries)[entries[i].path] == entries[i].node,
{
    let k = entries[i].path;
    let j = choose|j: int| 0 <= j < entries.len() && (#[trigger] entries[j]).path == k;
    assert(entries[j].path == k);
}

/// The entry at a path.
fn find_entry(entries: &Vec<TreeEntry>, path: &String) -> (r: Option<usize>)
    requires
        distinct_paths(entry_models(entries@)),
    ensures
        ({
            let tree = tree_of(entry_models(entries@));
            match r {
                Some(i) => i < entries@.len() && tree.dom().contains(path@) && tree[path@]
                    == entries@[i as int].node@,
                None => !tree.dom().contains(path@),
            }
        }),
{
    let ghost models = entry_models(entries@);
    let mut i: usize = 0;
    while i < entries.len()
        invariant
            0 <= i <= entries@.len(),
            models == entry_models(entries@),
            distinct_paths(models),
            forall|j: int| 0 <= j < i ==> (#[trigger] models[j]).path != path@,
        decreases entries@.len() - i,
    {
        if same_text(entries[i].path.as_str(), path.as_str()) {
            proof {
                assert(models[i as int].path == path@);
                lemma_entry_in_tree(models, i as int);
            }
            return Some(i);
        }
        i += 1;
    }
    None
}

/// Whether a file stands where `path` would need a directory.
fn is_blocked(entries: &Vec<TreeEntry>, path: &String) -> (r: bool)
    requires
        distinct_paths(entry_models(entries@)),
    ensures
        r == blocked(tree_of(entry_models(entries@)), path@),
{
    let ghost models = entry_models(entries@);
    let ghost tree = tree_of(models);
    let name = chars_of(path.as_str());
    let mut i: usize = 0;
    while i < entries.len()
        invariant
            0 <= i <= entries@.len(),
            models == entry_models(entries@),
            tree == tree_of(models),
            distinct_paths(models),
            name@ == path@,
            forall|j: int|
                0 <= j < i ==> !(is_under(path@, (#[trigger] models[j]).path)
                    && models[j].node is File),
        decreases entries@.len() - i,
    {
        let is_file = match &entries[i].node {
            Node::File(_) => true,
            Node::Dir => false,
        };
        if is_file && lies_under(&name, entries[i].path.as_str()) {
            proof {
                lemma_entry_in_tree(models, i as int);
                assert(is_under(path@, models[i as int].path));
            }
            return true;
        }
        assert(models[i as int].path == entries@[i as int].path@);
        assert(models[i as int].node is File == is_file);
        i += 1;
    }
    proof {
        if blocked(tree, path@) {
            let dir = choose|dir: Seq<char>| #[trigger]
                is_under(path@, dir) && tree.dom().contains(dir) && tree[dir] is File;
            let j = choose|j: int| 0 <= j < models.len() && (#[trigger] models[j]).path == dir;
            lemma_entry_in_tree(models, j);
        }
    }
    false
}

/// Whether a path lies below a directory.
fn lies_under(path: &Vec<char>, dir: &str) -> (r: bool)
    ensures
        r == is_under(path@, dir@),
{
    let d = chars_of(dir);
    if d.len() >= path.len() || path[d.len()] != '/' {
        return false;
    }
    let front = sub_chars(path.as_slice(), 0, d.len());
    assert(front@ =~= path@.take(d@.len() as int));
    crate::text::same_chars(front.as_slice(), d.as_slice())
}

fn append_ops(ops: &mut Vec<SnapshotOp>, more: Vec<SnapshotOp>)
    ensures
        op_models(final(ops)@) == op_models(old(ops)@) + op_models(more@),
{
    let ghost start = ops@;
    let ghost added = more@;
    let mut more = more;
    ops.append(&mut more);
    assert(ops@ == start + added);
    assert(op_models(ops@) =~= op_models(start) + op_models(added));
}

fn copy_bytes(s: &Vec<u8>) -> (r: Vec<u8>)
    ensures
        r@ == s@,
{
    vstd::slice::slice_to_vec(s.as_slice())
}

/// The changes that a path of the old tree calls for.
fn generate_for_source(entry: &TreeEntry, new: &Vec<TreeEntry>) -> (r: Result<
    Vec<SnapshotOp>,
    TreeError,
>)
    requires
        distinct_paths(entry_models(new@)),
    ensures
        match r {
            Ok(ops) => source_part(entry@, tree_of(entry_models(new@))) == Ok::<
                Seq<OpModel>,
                TreeError,
            >(op_models(ops@)) && (tree_of(entry_models(new@)).dom().contains(entry@.path)
                ==> diff_leads(entry@.node, tree_of(entry_models(new@))[entry@.path])),
            Err(e) => source_part(entry@, tree_of(entry_models(new@))) == Err::<
                Seq<OpModel>,
                TreeError,
            >(e),
        },
{
    if is_blocked(new, &entry.path) {
        return Err(TreeError::BlockedByFile);
    }
    let name = entry.path.clone();
    match find_entry(new, &entry.path) {
        None => {
            let r = vec![SnapshotOp::Delete(name)];
            assert(op_models(r@) =~= seq![OpModel::Delete(entry@.path)]);
            Ok(r)
        },
        Some(i) => match (&entry.node, &new[i].node) {
            (Node::File(s), Node::File(n)) => Ok(
                generate_ops(name, Some(s.as_slice()), Some(n.as_slice())),
            ),
            (Node::File(_), Node::Dir) => {
                let r = vec![SnapshotOp::Delete(name.clone()), SnapshotOp::CreateDir(name)];
                assert(op_models(r@) =~= seq![
                    OpModel::Delete(entry@.path),
                    OpModel::CreateDir(entry@.path),
                ]);
                Ok(r)
            },
            (Node::Dir, Node::File(n)) => {
                let contents = copy_bytes(n);
                let r = vec![SnapshotOp::Delete(name.clone()), SnapshotOp::Create(name, contents)];
                assert(op_models(r@) =~= seq![
                    OpModel::Delete(entry@.path),
                    OpModel::Create(entry@.path, n@),
                ]);
                Ok(r)
            },
            (Node::Dir, Node::Dir) => {
                let r: Vec<SnapshotOp> = Vec::new();
                assert(op_models(r@) =~= Seq::empty());
                Ok(r)
            },
        },
    }
}

/// The changes that a path of the new tree calls for.
fn generate_for_new(entry: &TreeEntry, source: &Vec<TreeEntry>) -> (r: Result<
    Vec<SnapshotOp>,
    TreeError,
>)
    requires
        distinct_paths(entry_models(source@)),
    ensures
        match r {
            Ok(ops) => new_part(entry@, tree_of(entry_models(source@))) == Ok::<
                Seq<OpModel>,
                TreeError,
            >(op_models(ops@)),
            Err(e) => new_part(entry@, tree_of(entry_models(source@))) == Err::<
                Seq<OpModel>,
                TreeError,
            >(e),
        },
{
    if is_blocked(source, &entry.path) {
        return Err(TreeError::BlockedByFile);
    }
    let mut r: Vec<SnapshotOp> = Vec::new();
    if find_entry(source, &entry.path).is_some() {
        assert(op_models(r@) =~= Seq::empty());
        return Ok(r);
    }
    match &entry.node {
        Node::File(n) => {
            r.push(SnapshotOp::Create(entry.path.clone(), copy_bytes(n)));
            assert(op_models(r@) =~= seq![OpModel::Create(entry@.path, n@)]);
        },
        Node::Dir => {
            r.push(SnapshotOp::CreateDir(entry.path.clone()));
            assert(op_models(r@) =~= seq![OpModel::CreateDir(entry@.path)]);
        },
    }
    Ok(r)
}

/// The changes that turn the tree `source` into the tree `new`, each given as
/// what a walk over it came by, in the walk's order.
pub fn generate_ops_dir(source: &Vec<TreeEntry>, new: &Vec<TreeEntry>) -> (r: Result<
    Vec<SnapshotOp>,
    TreeError,
>)
    requires
        distinct_paths(entry_models(source@)),
        distinct_paths(entry_models(new@)),
    ensures
        match r {
            Ok(ops) => generated_dir(entry_models(source@), entry_models(new@)) == Ok::<
                Seq<OpModel>,
                TreeError,
            >(op_models(ops@)) && diffs_lead(
                tree_of(entry_models(source@)),
                tree_of(entry_models(new@)),
            ),
            Err(e) => generated_dir(entry_models(source@), entry_models(new@)) == Err::<
                Seq<OpModel>,
                TreeError,
            >(e),
        },
{
    let ghost olds = entry_models(source@);
    let ghost news = entry_models(new@);
    let mut ops: Vec<SnapshotOp> = Vec::new();
    let mut i: usize = 0;
    assert(op_models(ops@) =~= Seq::empty());
    while i < source.len()
        invariant
            0 <= i <= source@.len(),
            olds == entry_models(source@),
            news == entry_models(new@),
            distinct_paths(olds),
            distinct_paths(news),
            source_parts(olds.take(i as int), tree_of(news)) == Ok::<Seq<OpModel>, TreeError>(
                op_models(ops@),
            ),
            forall|k: int|
                0 <= k < i && tree_of(news).dom().contains((#[trigger] olds[k]).path)
                    ==> diff_leads(olds[k].node, tree_of(news)[olds[k].path]),
        decreases source@.len() - i,
    {
        proof {
            assert(olds.take(i + 1).drop_last() =~= olds.take(i as int));
            assert(olds.take(i + 1).last() == source@[i as int]@);
        }
        match generate_for_source(&source[i], new) {
            Ok(part) => {
                append_ops(&mut ops, part);
            },
            Err(e) => {
                proof {
                    lemma_source_parts_fail(olds, tree_of(news), i + 1);
                }
                return Err(e);
            },
        }
        i += 1;
    }
    assert(olds.take(i as int) =~= olds);
    proof {
        let (s, n) = (tree_of(olds), tree_of(news));
        assert forall|k: Seq<char>|
            #![trigger s.dom().contains(k), n.dom().contains(k)]
            s.dom().contains(k) && n.dom().contains(k) implies diff_leads(s[k], n[k]) by {
            let j = choose|j: int| 0 <= j < olds.len() && (#[trigger] olds[j]).path == k;
            lemma_entry_in_tree(olds, j);
        }
    }
    let ghost first = op_models(ops@);
    let mut more: Vec<SnapshotOp> = Vec::new();
    let mut j: usize = 0;
    assert(op_models(more@) =~= Seq::empty());
    while j < new.len()
        invariant
            0 <= j <= new@.len(),
            olds == entry_models(source@),
            news == entry_models(new@),
            distinct_paths(olds),
            diffs_lead(tree_of(olds), tree_of(news)),
            source_parts(olds, tree_of(news)) == Ok::<Seq<OpModel>, TreeError>(first),
            new_parts(news.take(j as int), tree_of(olds)) == Ok::<Seq<OpModel>, TreeError>(
                op_models(more@),
            ),
        decreases new@.len() - j,
    {
        proof {
            assert(news.take(j + 1).drop_last() =~= news.take(j as int));
            assert(news.take(j + 1).last() == new@[j as int]@);
        }
        match generate_for_new(&new[j], source) {
            Ok(part) => {
                append_ops(&mut more, part);
            },
            Err(e) => {
                proof {
                    lemma_new_parts_fail(news, tree_of(olds), j + 1);
                }
                return Err(e);
            },
        }
        j += 1;
    }
    assert(news.take(j as int) =~= news);
    append_ops(&mut ops, more);
    Ok(ops)
}

/// Where the changes of the first paths fail, so do those of all.
proof fn lemma_source_parts_fail(entries: Seq<EntryModel>, new: TreeModel, i: int)
    requires
        0 <= i <= entries.len(),
        source_parts(entries.take(i), new) is Err,
    ensures
        source_parts(entries, new) == source_parts(entries.take(i), new),
    decreases entries.len(),
{
    if i < entries.len() {
        assert(entries.drop_last().take(i) =~= entries.take(i));
        lemma_source_parts_fail(entries.drop_last(), new, i);
    } else {
        assert(entries.take(i) =~= entries);
    }
}

proof fn lemma_new_parts_fail(entries: Seq<EntryModel>, source: TreeModel, i: int)
    requires
        0 <= i <= entries.len(),
        new_parts(entries.take(i), source) is Err,
    ensures
        new_parts(entries, source) == new_parts(entries.take(i), source),
    decreases entries.len(),
{
    if i < entries.len() {
        assert(entries.drop_last().take(i) =~= entries.take(i));
        lemma_new_parts_fail(entries.drop_last(), source, i);
    } else {
        assert(entries.take(i) =~= entries);
    }
}

/// What a table of files and directories holds.
pub open spec fn node_map(table: Map<Seq<char>, Node>) -> TreeModel {
    Map::new(|k: Seq<char>| table.dom().contains(k), |k: Seq<char>| table[k]@)
}

/// What a table of file contents holds.
pub open spec fn bytes_map(table: Map<Seq<char>, Vec<u8>>) -> Map<Seq<char>, Seq<u8>> {
    Map::new(|k: Seq<char>| table.dom().contains(k), |k: Seq<char>| table[k]@)
}

/// The files and directories of a tree.
pub type FileTree = Table<String, Node>;

/// The contents of files that were read or written while changes were applied.
pub type WorkingCache = Table<String, Vec<u8>>;

/// The tree that the entries describe.
pub fn tree_from_entries(entries: Vec<TreeEntry>) -> (r: FileTree)
    requires
        distinct_paths(entry_models(entries@)),
    ensures
        node_map(r@) == tree_of(entry_models(entries@)),
{
    let ghost all = entry_models(entries@);
    let ghost raw = entries@;
    let mut rest = entries;
    let mut tree: FileTree = Table::new();
    assert(rest@ =~= raw.take(rest@.len() as int));
    while rest.len() > 0
        invariant
            all == entry_models(raw),
            distinct_paths(all),
            rest@.len() <= raw.len(),
            rest@ == raw.take(rest@.len() as int),
            forall|k: Seq<char>|
                #![trigger tree@.dom().contains(k)]
                tree@.dom().contains(k) <==> exists|i: int|
                    rest@.len() <= i < all.len() && (#[trigger] all[i]).path == k,
            forall|i: int|
                rest@.len() <= i < all.len() ==> tree@.dom().contains((#[trigger] all[i]).path)
                    && tree@[all[i].path]@ == all[i].node,
        decreases rest@.len(),
    {
        let ghost n = rest@.len() - 1;
        let ghost before = tree@;
        let entry = rest.pop().unwrap();
        proof {
            assert(entry == raw[n]);
            assert(all[n] == entry@);
            assert(rest@ =~= raw.take(n));
        }
        tree.insert(entry.path, entry.node);
        proof {
            assert forall|k: Seq<char>|
                #![trigger tree@.dom().contains(k)]
                tree@.dom().contains(k) <==> exists|i: int|
                    n <= i < all.len() && (#[trigger] all[i]).path == k by {
                if tree@.dom().contains(k) {
                    if k == all[n].path {
                    } else {
                        assert(before.dom().contains(k));
                    }
                }
                if exists|i: int| n <= i < all.len() && (#[trigger] all[i]).path == k {
                    let i = choose|i: int| n <= i < all.len() && (#[trigger] all[i]).path == k;
                    if i > n {
                        assert(before.dom().contains(k));
                    }
                }
            }
        }
    }
    proof {
        let m = node_map(tree@);
        let t = tree_of(all);
        assert forall|k: Seq<char>| m.dom().contains(k) == t.dom().contains(k) by {
            assert(tree@.dom().contains(k) == m.dom().contains(k));
        }
        assert forall|k: Seq<char>| m.dom().contains(k) implies m[k] == t[k] by {
            let i = choose|i: int| 0 <= i < all.len() && (#[trigger] all[i]).path == k;
            lemma_entry_in_tree(all, i);
        }
        assert(m =~= t);
    }
    tree
}

struct Work {
    tree: FileTree,
    cache: WorkingCache,
    modified: Table<String, ()>,
    last: Option<String>,
    offset: u64,
}

impl View for Work {
    type V = WorkModel;

    closed spec fn view(&self) -> WorkModel {
        WorkModel {
            tree: node_map(self.tree@),
            cache: bytes_map(self.cache@),
            modified: self.modified@.dom(),
            last: match self.last {
                Some(name) => Some(name@),
                None => None,
            },
            offset: self.offset,
        }
    }
}

fn front_text(name: &Vec<char>, end: usize) -> (r: String)
    requires
        end <= name@.len(),
    ensures
        r@ == name@.take(end as int),
{
    let front = sub_chars(name.as_slice(), 0, end);
    assert(front@ =~= name@.take(end as int));
    string_of(front.as_slice())
}

/// Adds every directory above `name`.
fn add_parents(tree: &mut FileTree, name: &Vec<char>) -> (r: Result<(), TreeError>)
    ensures
        match r {
            Ok(()) => !blocked(node_map(old(tree)@), name@) && node_map(final(tree)@)
                == with_parents(node_map(old(tree)@), name@),
            Err(e) => e == TreeError::BlockedByFile && blocked(node_map(old(tree)@), name@),
        },
{
    let ghost start = node_map(tree@);
    let mut i: usize = 0;
    while i < name.len()
        invariant
            0 <= i <= name@.len(),
            start == node_map(old(tree)@),
            forall|k: Seq<char>|
                #![trigger node_map(tree@).dom().contains(k)]
                node_map(tree@).dom().contains(k) <==> start.dom().contains(k) || (is_under(
                    name@,
                    k,
                ) && k.len() < i),
            forall|k: Seq<char>|
                #![trigger node_map(tree@)[k]]
                node_map(tree@).dom().contains(k) ==> node_map(tree@)[k]
                    == with_parents(start, name@)[k],
            forall|k: Seq<char>| #[trigger]
                is_under(name@, k) && k.len() < i ==> !(start.dom().contains(k)
                    && start[k] is File),
        decreases name@.len() - i,
    {
        if name[i] == '/' {
            let dir = front_text(name, i);
            let ghost d = dir@;
            let ghost before = node_map(tree@);
            assert(is_under(name@, d));
            assert(before.dom().contains(d) == tree@.dom().contains(d));
            let (known, is_file): (bool, bool) = match tree.get(&dir) {
                Some(Node::File(_)) => (true, true),
                Some(Node::Dir) => (true, false),
                None => (false, false),
            };
            assert(known == before.dom().contains(d));
            if known {
                assert(before[d] == tree@[d]@);
                assert(start.dom().contains(d));
                assert(before[d] == start[d]);
                if is_file {
                    assert(start[d] is File);
                    return Err(TreeError::BlockedByFile);
                }
            } else {
                tree.insert(dir, Node::Dir);
                assert(node_map(tree@) =~= before.insert(d, NodeModel::Dir));
            }
            assert forall|k: Seq<char>| #[trigger] is_under(name@, k) && k.len() < i + 1 implies !(
            start.dom().contains(k) && start[k] is File) by {
                if k.len() == i {
                    assert(k == d);
                }
            }
            assert forall|k: Seq<char>|
                #![trigger node_map(tree@).dom().contains(k)]
                node_map(tree@).dom().contains(k) <==> start.dom().contains(k) || (is_under(
                    name@,
                    k,
                ) && k.len() < i + 1) by {
                assert(before.dom().contains(k) <==> start.dom().contains(k) || (is_under(
                    name@,
                    k,
                ) && k.len() < i));
                if is_under(name@, k) && k.len() == i {
                    assert(k == d);
                }
            }
        } else {
            assert forall|k: Seq<char>| #[trigger] is_under(name@, k) && k.len() < i + 1 implies !(
            start.dom().contains(k) && start[k] is File) by {
                assert(k.len() != i);
            }
        }
        i += 1;
    }
    assert(node_map(tree@) =~= with_parents(start, name@));
    Ok(())
}

/// Whether every directory above `name` exists.
fn parents_exist(tree: &FileTree, name: &Vec<char>) -> (r: bool)
    ensures
        r == has_parent(node_map(tree@), name@),
{
    let ghost model = node_map(tree@);
    let mut i: usize = 0;
    while i < name.len()
        invariant
            0 <= i <= name@.len(),
            model == node_map(tree@),
            forall|k: Seq<char>| #[trigger]
                is_under(name@, k) && k.len() < i ==> model.dom().contains(k) && model[k] is Dir,
        decreases name@.len() - i,
    {
        if name[i] == '/' {
            let dir = front_text(name, i);
            let ghost d = dir@;
            assert(is_under(name@, d));
            let is_dir = match tree.get(&dir) {
                Some(Node::Dir) => true,
                _ => false,
            };
            assert(is_dir == (model.dom().contains(d) && model[d] is Dir));
            if !is_dir {
                return false;
            }
        }
        assert forall|k: Seq<char>| #[trigger] is_under(name@, k) && k.len() < i
            + 1 implies model.dom().contains(k) && model[k] is Dir by {
            if k.len() == i {
                assert(k == name@.take(i as int));
            }
        }
        i += 1;
    }
    true
}

/// Takes the directory `dir` and all that lies below it out of the tree.
fn remove_dir_all(tree: &mut FileTree, dir: &str)
    ensures
        node_map(final(tree)@) == without_dir(node_map(old(tree)@), dir@),
{
    let ghost start = node_map(tree@);
    let mut i: usize = 0;
    loop
        invariant
            i <= tree.rows().len(),
            start == node_map(old(tree)@),
            node_map(tree@).submap_of(start),
            forall|k: Seq<char>|
                #![trigger node_map(tree@).dom().contains(k)]
                start.dom().contains(k) && k != dir@ && !is_under(k, dir@) ==> node_map(
                    tree@,
                ).dom().contains(k),
            forall|j: int|
                0 <= j < i ==> (#[trigger] tree.rows()[j]).0 != dir@ && !is_under(
                    tree.rows()[j].0,
                    dir@,
                ),
        decreases tree.rows().len(), tree.rows().len() - i,
    {
        let n = tree.len();
        if i >= n {
            proof {
                let end = node_map(tree@);
                assert forall|k: Seq<char>| end.dom().contains(k) implies k != dir@ && !is_under(
                    k,
                    dir@,
                ) by {
                    assert(tree@.dom().contains(k));
                    let j = choose|j: int|
                        0 <= j < tree.rows().len() && (#[trigger] tree.rows()[j]).0 == k;
                    assert(tree.rows()[j].0 == k);
                }
                assert(end =~= without_dir(start, dir@));
            }
            return ;
        }
        let key = tree.key_at(i).copy_key();
        let chars = chars_of(key.as_str());
        if same_text(key.as_str(), dir) || lies_under(&chars, dir) {
            let ghost before = node_map(tree@);
            proof {
                crate::table::lemma_row_is_value::<String, Node>(tree.rows(), i as int);
            }
            let taken = tree.remove(&key);
            proof {
                assert(node_map(tree@) =~= before.remove(key@));
            }
            i = 0;
        } else {
            i += 1;
        }
    }
}

impl Work {
    /// Makes room for a change to `name`.
    fn turn_to(&mut self, name: &str) -> (r: Result<(), TreeError>)
        ensures
            match r {
                Ok(()) => turned_to(old(self)@, name@) == Ok::<WorkModel, TreeError>(
                    final(self)@,
                ),
                Err(e) => turned_to(old(self)@, name@) == Err::<WorkModel, TreeError>(e),
            },
    {
        let same = match &self.last {
            Some(last) => same_text(last.as_str(), name),
            None => false,
        };
        if same {
            return Ok(());
        }
        let chars = chars_of(name);
        match add_parents(&mut self.tree, &chars) {
            Err(e) => Err(e),
            Ok(()) => {
                self.last = Some(name.to_owned());
                self.offset = 0;
                Ok(())
            },
        }
    }

    fn delete(&mut self, name: &String) -> (r: Result<(), TreeError>)
        ensures
            match r {
                Ok(()) => performed(old(self)@, OpModel::Delete(name@)) == Ok::<
                    WorkModel,
                    TreeError,
                >(final(self)@),
                Err(e) => performed(old(self)@, OpModel::Delete(name@)) == Err::<
                    WorkModel,
                    TreeError,
                >(e),
            },
    {
        let ghost start = self@;
        assert(start.tree.dom().contains(name@) == self.tree@.dom().contains(name@));
        let is_file = match self.tree.get(name) {
            None => return Err(TreeError::NotFound),
            Some(Node::File(_)) => true,
            Some(Node::Dir) => false,
        };
        if is_file {
            let taken = self.tree.remove(name);
            assert(node_map(self.tree@) =~= start.tree.remove(name@));
        } else {
            remove_dir_all(&mut self.tree, name.as_str());
        }
        let cached = self.cache.remove(name);
        assert(bytes_map(self.cache@) =~= start.cache.remove(name@));
        Ok(())
    }

    fn create_dir(&mut self, name: &String)
        ensures
            performed(old(self)@, OpModel::CreateDir(name@)) == Ok::<WorkModel, TreeError>(
                final(self)@,
            ),
    {
        let ghost start = self@;
        if !self.tree.contains(name) {
            self.tree.insert(name.clone(), Node::Dir);
            assert(node_map(self.tree@) =~= start.tree.insert(name@, NodeModel::Dir));
        }
    }

    fn store(&mut self, name: &String, contents: Vec<u8>)
        ensures
            final(self)@ == (WorkModel {
                cache: old(self)@.cache.insert(name@, contents@),
                modified: old(self)@.modified.insert(name@),
                ..old(self)@
            }),
    {
        let ghost start = self@;
        let ghost bytes = contents@;
        self.cache.insert(name.clone(), contents);
        assert(bytes_map(self.cache@) =~= start.cache.insert(name@, bytes));
        self.modified.insert(name.clone(), ());
        assert(self.modified@.dom() =~= start.modified.insert(name@));
    }

    fn read_contents(&mut self, name: &String) -> (r: Result<Vec<u8>, TreeError>)
        ensures
            final(self)@.tree == old(self)@.tree,
            final(self)@.modified == old(self)@.modified,
            final(self)@.last == old(self)@.last,
            final(self)@.offset == old(self)@.offset,
            final(self)@.cache == old(self)@.cache.remove(name@),
            match r {
                Ok(contents) => contents_of(old(self)@.tree, old(self)@.cache, name@) == Ok::<
                    Seq<u8>,
                    TreeError,
                >(contents@),
                Err(e) => contents_of(old(self)@.tree, old(self)@.cache, name@) == Err::<
                    Seq<u8>,
                    TreeError,
                >(e),
            },
    {
        let ghost start = self@;
        assert(start.tree.dom().contains(name@) == self.tree@.dom().contains(name@));
        assert(start.cache.dom().contains(name@) == self.cache@.dom().contains(name@));
        let cached = self.cache.remove(name);
        assert(bytes_map(self.cache@) =~= start.cache.remove(name@));
        match cached {
            Some(contents) => Ok(contents),
            None => match self.tree.get(name) {
                None => Err(TreeError::NotFound),
                Some(Node::Dir) => Err(TreeError::IsADirectory),
                Some(Node::File(contents)) => Ok(copy_bytes(contents)),
            },
        }
    }

    /// Applies one change.
    fn step(&mut self, op: &SnapshotOp) -> (r: Result<(), TreeError>)
        ensures
            match r {
                Ok(()) => stepped(old(self)@, op@) == Ok::<WorkModel, TreeError>(final(self)@),
                Err(e) => stepped(old(self)@, op@) == Err::<WorkModel, TreeError>(e),
            },
    {
        match self.turn_to(op.get_name()) {
            Err(e) => return Err(e),
            Ok(()) => {},
        }
        let ghost ready = self@;
        match op {
            SnapshotOp::Delete(name) => self.delete(name),
            SnapshotOp::CreateDir(name) => {
                self.create_dir(name);
                Ok(())
            },
            SnapshotOp::Create(name, contents) => {
                let copy = copy_bytes(contents);
                self.store(name, copy);
                Ok(())
            },
            SnapshotOp::Modify(name, from, to, with) => {
                let contents = match self.read_contents(name) {
                    Err(e) => return Err(e),
                    Ok(contents) => contents,
                };
                match edit_contents(&contents, self.offset, from, to, with) {
                    None => Err(TreeError::OutOfBounds),
                    Some((changed, offset)) => {
                        let ghost bytes = changed@;
                        self.store(name, changed);
                        self.offset = offset;
                        assert(ready.cache.remove(name@).insert(name@, bytes)
                            =~= ready.cache.insert(name@, bytes));
                        Ok(())
                    },
                }
            },
        }
    }

    /// Checks that every modified file can be written.
    fn check_writes(&self) -> (r: Result<(), TreeError>)
        ensures
            match r {
                Ok(()) => written(self@.tree, self@.cache, self@.modified) is Ok,
                Err(e) => written(self@.tree, self@.cache, self@.modified) == Err::<
                    TreeModel,
                    TreeError,
                >(e),
            },
    {
        let ghost model = self@;
        let n = self.modified.len();
        let mut i: usize = 0;
        while i < n
            invariant
                0 <= i <= n,
                n == self.modified.rows().len(),
                model == self@,
                crate::table::rising::<String, ()>(self.modified.rows()),
                forall|j: int|
                    0 <= j < i ==> model.cache.dom().contains(
                        (#[trigger] self.modified.rows()[j]).0,
                    ),
            decreases n - i,
        {
            let key = self.modified.key_at(i);
            proof {
                crate::table::lemma_row_is_value::<String, ()>(self.modified.rows(), i as int);
                assert(model.modified.contains(key@));
                assert(model.cache.dom().contains(key@) == self.cache@.dom().contains(key@));
            }
            if !self.cache.contains(key) {
                return Err(TreeError::ContentsGone);
            }
            i += 1;
        }
        assert forall|k: Seq<char>| #[trigger]
            model.modified.contains(k) implies model.cache.dom().contains(k) by {
            let j = choose|j: int|
                0 <= j < self.modified.rows().len() && (#[trigger] self.modified.rows()[j]).0 == k;
            assert(self.modified.rows()[j].0 == k);
        }
        let mut i: usize = 0;
        while i < n
            invariant
                0 <= i <= n,
                n == self.modified.rows().len(),
                model == self@,
                crate::table::rising::<String, ()>(self.modified.rows()),
                forall|k: Seq<char>| #[trigger]
                    model.modified.contains(k) ==> model.cache.dom().contains(k),
                forall|j: int|
                    0 <= j < i ==> !(model.tree.dom().contains(
                        (#[trigger] self.modified.rows()[j]).0,
                    ) && model.tree[self.modified.rows()[j].0] is Dir),
            decreases n - i,
        {
            let key = self.modified.key_at(i);
            proof {
                crate::table::lemma_row_is_value::<String, ()>(self.modified.rows(), i as int);
                assert(model.modified.contains(key@));
                assert(model.tree.dom().contains(key@) == self.tree@.dom().contains(key@));
            }
            let is_dir = match self.tree.get(key) {
                Some(Node::Dir) => true,
                _ => false,
            };
            if is_dir {
                return Err(TreeError::IsADirectory);
            }
            i += 1;
        }
        assert forall|k: Seq<char>| #[trigger] model.modified.contains(k) implies !(
        model.tree.dom().contains(k) && model.tree[k] is Dir) by {
            let j = choose|j: int|
                0 <= j < self.modified.rows().len() && (#[trigger] self.modified.rows()[j]).0 == k;
            assert(self.modified.rows()[j].0 == k);
        }
        let mut i: usize = 0;
        while i < n
            invariant
                0 <= i <= n,
                n == self.modified.rows().len(),
                model == self@,
                crate::table::rising::<String, ()>(self.modified.rows()),
                forall|k: Seq<char>| #[trigger]
                    model.modified.contains(k) ==> model.cache.dom().contains(k),
                forall|k: Seq<char>| #[trigger]
                    model.modified.contains(k) ==> !(model.tree.dom().contains(k)
                        && model.tree[k] is Dir),
                forall|j: int|
                    0 <= j < i ==> has_parent(
                        model.tree,
                        (#[trigger] self.modified.rows()[j]).0,
                    ),
            decreases n - i,
        {
            let key = self.modified.key_at(i);
            proof {
                crate::table::lemma_row_is_value::<String, ()>(self.modified.rows(), i as int);
                assert(model.modified.contains(key@));
            }
            let chars = chars_of(key.as_str());
            if !parents_exist(&self.tree, &chars) {
                return Err(TreeError::NotFound);
            }
            i += 1;
        }
        assert forall|k: Seq<char>| #[trigger] model.modified.contains(k) implies has_parent(
            model.tree,
            k,
        ) by {
            let j = choose|j: int|
                0 <= j < self.modified.rows().len() && (#[trigger] self.modified.rows()[j]).0 == k;
            assert(self.modified.rows()[j].0 == k);
        }
        Ok(())
    }

    /// Writes every modified file.
    fn write_all(&mut self)
        requires
            written(old(self)@.tree, old(self)@.cache, old(self)@.modified) is Ok,
        ensures
            written(old(self)@.tree, old(self)@.cache, old(self)@.modified) == Ok::<
                TreeModel,
                TreeError,
            >(final(self)@.tree),
            final(self)@.cache == old(self)@.cache,
    {
        let ghost start = self@;
        let n = self.modified.len();
        let mut i: usize = 0;
        while i < n
            invariant
                0 <= i <= n,
                n == self.modified.rows().len(),
                self@.cache == start.cache,
                self@.modified == start.modified,
                written(start.tree, start.cache, start.modified) is Ok,
                crate::table::rising::<String, ()>(self.modified.rows()),
                forall|k: Seq<char>|
                    #![trigger self@.tree.dom().contains(k)]
                    self@.tree.dom().contains(k) <==> start.tree.dom().contains(k) || exists|j: int|
                        0 <= j < i && (#[trigger] self.modified.rows()[j]).0 == k,
                forall|j: int|
                    0 <= j < i ==> self@.tree[(#[trigger] self.modified.rows()[j]).0]
                        == NodeModel::File(start.cache[self.modified.rows()[j].0]),
                forall|k: Seq<char>|
                    #![trigger self@.tree[k]]
                    start.tree.dom().contains(k) && (forall|j: int|
                        0 <= j < i ==> (#[trigger] self.modified.rows()[j]).0 != k)
                        ==> self@.tree[k] == start.tree[k],
            decreases n - i,
        {
            let key = self.modified.key_at(i).copy_key();
            let ghost before = self@;
            proof {
                crate::table::lemma_row_is_value::<String, ()>(self.modified.rows(), i as int);
                assert(start.modified.contains(key@));
                assert(before.cache.dom().contains(key@) == self.cache@.dom().contains(key@));
            }
            let contents = copy_bytes(self.cache.get(&key).unwrap());
            let ghost bytes = contents@;
            let ghost name = key@;
            self.tree.insert(key, Node::File(contents));
            proof {
                assert(node_map(self.tree@) =~= before.tree.insert(name, NodeModel::File(bytes)));
                assert(bytes == start.cache[name]);
                assert forall|k: Seq<char>|
                    #![trigger self@.tree.dom().contains(k)]
                    self@.tree.dom().contains(k) <==> start.tree.dom().contains(k) || exists|j: int|
                        0 <= j < i + 1 && (#[trigger] self.modified.rows()[j]).0 == k by {
                    assert(before.tree.dom().contains(k) <==> start.tree.dom().contains(k)
                        || exists|j: int|
                        0 <= j < i && (#[trigger] self.modified.rows()[j]).0 == k);
                    if k == name {
                        assert(self.modified.rows()[i as int].0 == k);
                    }
                }
            }
            i += 1;
        }
        proof {
            let target = written(start.tree, start.cache, start.modified)->Ok_0;
            assert forall|k: Seq<char>| self@.tree.dom().contains(k) == target.dom().contains(
                k,
            ) by {
                if start.modified.contains(k) {
                    let j = choose|j: int|
                        0 <= j < self.modified.rows().len() && (
                        #[trigger] self.modified.rows()[j]).0 == k;
                    assert(self.modified.rows()[j].0 == k);
                }
                if exists|j: int| 0 <= j < n && (#[trigger] self.modified.rows()[j]).0 == k {
                    assert(self.modified@.dom().contains(k));
                }
            }
            assert forall|k: Seq<char>| self@.tree.dom().contains(k) implies self@.tree[k]
                == target[k] by {
                if start.modified.contains(k) {
                    let j = choose|j: int|
                        0 <= j < self.modified.rows().len() && (
                        #[trigger] self.modified.rows()[j]).0 == k;
                    assert(self.modified.rows()[j].0 == k);
                } else {
                    assert forall|j: int| 0 <= j < n implies (#[trigger] self.modified.rows()[j]).0
                        != k by {
                        if self.modified.rows()[j].0 == k {
                            assert(self.modified@.dom().contains(k));
                        }
                    }
                }
            }
            assert(self@.tree =~= target);
        }
    }
}

/// Applies changes to a tree. The cache holds the contents of files as they are
/// in the tree, and is handed on from one set of changes to the next.
pub fn apply_ops(tree: FileTree, ops: &Vec<SnapshotOp>, cache: WorkingCache) -> (r: Result<
    (FileTree, WorkingCache),
    TreeError,
>)
    ensures
        match r {
            Ok((t, c)) => applied(node_map(tree@), bytes_map(cache@), op_models(ops@)) == Ok::<
                (TreeModel, Map<Seq<char>, Seq<u8>>),
                TreeError,
            >((node_map(t@), bytes_map(c@))),
            Err(e) => applied(node_map(tree@), bytes_map(cache@), op_models(ops@)) == Err::<
                (TreeModel, Map<Seq<char>, Seq<u8>>),
                TreeError,
            >(e),
        },
{
    let mut work = Work { tree, cache, modified: Table::new(), last: None, offset: 0 };
    let ghost all = op_models(ops@);
    let ghost start = work@;
    assert(start.modified =~= Set::empty());
    let mut i: usize = 0;
    assert(all.skip(0) =~= all);
    while i < ops.len()
        invariant
            0 <= i <= ops@.len(),
            all == op_models(ops@),
            start == (WorkModel {
                tree: node_map(tree@),
                cache: bytes_map(cache@),
                modified: Set::empty(),
                last: None,
                offset: 0,
            }),
            stepped_all(start, all) == stepped_all(work@, all.skip(i as int)),
        decreases ops@.len() - i,
    {
        assert(all.skip(i as int)[0] == ops@[i as int]@);
        assert(all.skip(i as int).skip(1) =~= all.skip(i + 1));
        match work.step(&ops[i]) {
            Err(e) => return Err(e),
            Ok(()) => {},
        }
        i += 1;
    }
    assert(all.skip(i as int) =~= Seq::empty());
    match work.check_writes() {
        Err(e) => Err(e),
        Ok(()) => {
            work.write_all();
            Ok((work.tree, work.cache))
        },
    }
}

} // verus!
