//! How paths are made up, and what lies where.
use vstd::prelude::*;

#[allow(unused_imports)]
use super::{
    components_of, extension_added, extension_is, extension_set, extension_start, file_name_of,
    has_name, is_directory_path, is_plain_name, joined, last_before, lemma_last_before_none,
    lemma_split_not_empty, lies_in, name_start, named_parts, names_something, parent_of, split_at,
    trimmed_path,
};
#[allow(unused_imports)]
use crate::text::{find_from, lemma_find_from, lemma_find_is_first, occurs_at};

verus! {

/// A text that is divided at a separator is divided there, and both sides are as they would be
/// alone.
pub proof fn texts_are_split_at_separators(a: Seq<char>, b: Seq<char>, separator: char)
    ensures
        split_at(a + seq![separator] + b, separator) == split_at(a, separator) + split_at(
            b,
            separator,
        ),
        !a.contains(separator) ==> split_at(a, separator) == seq![a],
    decreases a.len(),
{
    let mark = seq![separator];
    let whole = a + mark + b;
    lemma_find_from(a, mark, 0);
    match find_from(a, mark, 0) {
        Some(i) => {
            assert(a.subrange(i, i + 1)[0] == a[i]);
            assert(a.contains(a[i]));
            let rest = a.skip(i + 1);
            texts_are_split_at_separators(rest, b, separator);
            assert(whole.subrange(i, i + 1) =~= mark);
            assert forall|j: int| 0 <= j < i implies !occurs_at(whole, mark, j) by {
                if occurs_at(whole, mark, j) {
                    assert(whole.subrange(j, j + 1) =~= a.subrange(j, j + 1));
                    assert(occurs_at(a, mark, j));
                }
            }
            lemma_find_is_first(whole, mark, 0, i);
            assert(whole.take(i) =~= a.take(i));
            assert(whole.skip(i + 1) =~= rest + mark + b);
            assert(seq![a.take(i)] + (split_at(rest, separator) + split_at(b, separator)) =~= seq![
                a.take(i),
            ] + split_at(rest, separator) + split_at(b, separator));
        },
        None => {
            let n = a.len() as int;
            assert(whole.subrange(n, n + 1) =~= mark);
            assert forall|j: int| 0 <= j < n implies !occurs_at(whole, mark, j) by {
                if occurs_at(whole, mark, j) {
                    assert(whole.subrange(j, j + 1) =~= a.subrange(j, j + 1));
                    assert(occurs_at(a, mark, j));
                }
            }
            lemma_find_is_first(whole, mark, 0, n);
            assert(whole.take(n) =~= a);
            assert(whole.skip(n + 1) =~= b);
        },
    }
}

proof fn lemma_named_parts(some: Seq<Seq<char>>, more: Seq<Seq<char>>)
    ensures
        named_parts(some + more) == named_parts(some) + named_parts(more),
    decreases more.len(),
{
    if more.len() == 0 {
        assert(some + more =~= some);
        assert(named_parts(some) + named_parts(more) =~= named_parts(some));
    } else {
        lemma_named_parts(some, more.drop_last());
        assert((some + more).drop_last() =~= some + more.drop_last());
        assert((some + more).last() == more.last());
        assert(named_parts(some + more) =~= named_parts(some) + named_parts(more));
    }
}

proof fn lemma_plain(name: Seq<char>)
    requires
        is_plain_name(name),
    ensures
        name[0] != '/' && name[0] != '.',
        name.last() != '/' && name.last() != '.',
        names_something(name),
        name != seq!['.', '.'],
        forall|i: int| 0 <= i < name.len() ==> #[trigger] name[i] != '/' && name[i] != '.',
{
    assert forall|i: int| 0 <= i < name.len() implies #[trigger] name[i] != '/' && name[i]
        != '.' by {
        assert(name.contains(name[i]));
    }
    assert(seq!['.'][0] == '.');
    assert(seq!['.', '.'][0] == '.');
}

/// What lies in a directory has one component more than it, its name. So it lies in the directory,
/// and in all that the directory lies in.
pub proof fn names_are_the_last_component(dir: Seq<char>, name: Seq<char>, above: Seq<char>)
    requires
        is_directory_path(dir),
        is_plain_name(name),
    ensures
        components_of(joined(dir, name)) == components_of(dir).push(name),
        file_name_of(joined(dir, name)) == Some(name),
        lies_in(joined(dir, name), dir),
        lies_in(dir, above) ==> lies_in(joined(dir, name), above),
        !lies_in(dir, joined(dir, name)),
{
    lemma_plain(name);
    let path = joined(dir, name);
    assert(path =~= dir + seq!['/'] + name);
    texts_are_split_at_separators(dir, name, '/');
    let none = Seq::<char>::empty();
    texts_are_split_at_separators(name, none, '/');
    let parts = split_at(dir, '/');
    lemma_split_not_empty(dir, '/');
    assert(split_at(path, '/') == parts + seq![name]);
    lemma_named_parts(parts, seq![name]);
    assert(seq![name].drop_last() =~= Seq::<Seq<char>>::empty());
    assert(named_parts(seq![name].drop_last()) =~= Seq::<Seq<char>>::empty());
    assert(seq![name].last() == name);
    assert(named_parts(seq![name]) =~= seq![name]);
    assert(named_parts(split_at(path, '/')) =~= named_parts(parts).push(name));
    assert((parts + seq![name])[0] == parts[0]);
    assert(path[0] == dir[0]);
    let whole = components_of(path);
    let front = components_of(dir);
    assert(whole =~= front.push(name));
    assert(whole.take(front.len() as int) =~= front);
    if lies_in(dir, above) {
        let n = components_of(above).len() as int;
        assert(whole.take(n) =~= front.take(n));
    }
}

/// The parent of what lies in a directory is the directory, where that is not written as one that
/// is entered again.
pub proof fn directories_are_parents(dir: Seq<char>, name: Seq<char>)
    requires
        is_directory_path(dir),
        dir.last() != '.',
        is_plain_name(name),
    ensures
        parent_of(joined(dir, name)) == Some(dir),
{
    lemma_plain(name);
    let path = joined(dir, name);
    let start = dir.len() as int + 1;
    let n = path.len() as int;
    assert(path =~= dir + seq!['/'] + name);
    assert(path.last() == name.last());
    assert(trimmed_path(path) == path);
    assert forall|i: int| start <= i < n implies path[i] != '/' by {
        assert(path[i] == name[i - start]);
    }
    lemma_last_before_none(path, '/', start, n);
    assert(path[start - 1] == '/');
    assert(name_start(path) == start);
    let above = path.take(start);
    assert(above.drop_last() =~= dir);
    assert(above.last() == '/');
    assert(trimmed_path(dir) == dir);
    assert(trimmed_path(above) == dir);
}

/// Setting an extension replaces the one that a file has. Adding one puts it behind that.
pub proof fn extensions_are_replaced_or_added(
    dir: Seq<char>,
    name: Seq<char>,
    before: Seq<char>,
    after: Seq<char>,
)
    requires
        is_directory_path(dir),
        is_plain_name(name),
        is_plain_name(before),
        is_plain_name(after),
    ensures
        ({
            let path = dir + seq!['/'] + name + seq!['.'] + before;
            &&& extension_set(path, after) == dir + seq!['/'] + name + seq!['.'] + after
            &&& extension_added(path, after) == path + seq!['.'] + after
            &&& extension_is(path, after) <==> before == after
        }),
{
    lemma_plain(name);
    lemma_plain(before);
    reveal_strlit(".");
    assert("."@ =~= seq!['.']);
    let front = dir + seq!['/'] + name;
    let path = front + seq!['.'] + before;
    let start = dir.len() as int + 1;
    let dot = front.len() as int;
    let n = path.len() as int;
    assert(path.last() == before.last());
    assert(trimmed_path(path) == path);
    assert forall|i: int| start <= i < n implies path[i] != '/' by {
        if i < dot {
            assert(path[i] == name[i - start]);
        } else if i > dot {
            assert(path[i] == before[i - dot - 1]);
        }
    }
    lemma_last_before_none(path, '/', start, n);
    assert(path[start - 1] == '/');
    assert(name_start(path) == start);
    assert forall|i: int| dot < i < n implies path[i] != '.' by {
        assert(path[i] == before[i - dot - 1]);
    }
    lemma_last_before_none(path, '.', dot + 1, n);
    assert(path[dot] == '.');
    assert(extension_start(path) == Some(dot));
    assert(path.skip(start)[0] == name[0]);
    assert(seq!['.'][0] == '.');
    assert(seq!['.', '.'][0] == '.');
    assert(has_name(path));
    assert(path.take(dot) =~= front);
    assert(path.skip(dot + 1) =~= before);
    assert(extension_set(path, after) =~= front + seq!['.'] + after);
    assert(extension_added(path, after) =~= path + seq!['.'] + after);
}

} // verus!
