//! Paths as texts, with `/` between their parts.
use vstd::prelude::*;

use crate::text::{chars_of, find_chars, push_chars, same_chars, string_of, sub_chars};
#[allow(unused_imports)]
use crate::text::{find_from, lemma_find_from, lemma_find_shift, occurs_at, texts};

pub mod laws;

verus! {

/// `part` below `base`: an absolute `part` stands for itself, else there is one
/// separator between them unless `base` is empty or ends with one.
pub open spec fn joined(base: Seq<char>, part: Seq<char>) -> Seq<char> {
    if part.len() > 0 && part[0] == '/' {
        part
    } else if base.len() == 0 || base.last() == '/' {
        base + part
    } else {
        base.push('/') + part
    }
}

/// `part` below `base`.
pub fn join(base: &str, part: &str) -> (r: String)
    ensures
        r@ == joined(base@, part@),
{
    let p = chars_of(part);
    if p.len() > 0 && p[0] == '/' {
        return part.to_owned();
    }
    let mut out = chars_of(base);
    let n: usize = out.len();
    if n > 0 && out[n - 1] != '/' {
        out.push('/');
    }
    push_chars(&mut out, p.as_slice());
    string_of(out.as_slice())
}

/// `s` divided at each `separator`.
pub open spec fn split_at(s: Seq<char>, separator: char) -> Seq<Seq<char>>
    decreases s.len(),
{
    match find_from(s, seq![separator], 0) {
        Some(i) => if 0 <= i < s.len() {
            seq![s.take(i)] + split_at(s.skip(i + 1), separator)
        } else {
            seq![s]
        },
        None => seq![s],
    }
}

/// `s` divided at each `separator`.
pub fn split_chars(s: &[char], separator: char) -> (r: Vec<Vec<char>>)
    ensures
        texts(r@) == split_at(s@, separator),
{
    let mark: Vec<char> = vec![separator];
    assert(mark@ =~= seq![separator]);
    let total: usize = s.len();
    let mut out: Vec<Vec<char>> = Vec::new();
    let mut start: usize = 0;
    assert(texts(out@) =~= Seq::empty());
    assert(s@.skip(0) =~= s@);
    assert(texts(out@) + split_at(s@, separator) =~= split_at(s@, separator));
    loop
        invariant
            0 <= start <= total,
            total == s@.len(),
            mark@ == seq![separator],
            texts(out@) + split_at(s@.skip(start as int), separator) == split_at(s@, separator),
        decreases total - start,
    {
        let ghost rest = s@.skip(start as int);
        let ghost before = texts(out@);
        proof {
            lemma_find_shift(s@, mark@, start as int, 0);
            lemma_find_from(s@, mark@, start as int);
        }
        match find_chars(s, mark.as_slice(), start) {
            Some(i) => {
                let part = sub_chars(s, start, i);
                let ghost text = part@;
                out.push(part);
                proof {
                    assert(rest.take(i - start) =~= text);
                    assert(rest.skip(i - start + 1) =~= s@.skip(i + 1));
                    assert(texts(out@) =~= before.push(text));
                    assert(before + (seq![text] + split_at(s@.skip(i + 1), separator)) =~= texts(
                        out@,
                    ) + split_at(s@.skip(i + 1), separator));
                }
                start = i + 1;
            },
            None => {
                let part = sub_chars(s, start, total);
                let ghost text = part@;
                out.push(part);
                proof {
                    assert(rest =~= text);
                    assert(texts(out@) =~= before.push(text));
                    assert(before + seq![text] =~= texts(out@));
                }
                return out;
            },
        }
    }
}

/// Whether a part of a path names something: it is not empty and not the
/// directory itself.
pub open spec fn names_something(part: Seq<char>) -> bool {
    part.len() > 0 && part != seq!['.']
}

/// The parts of a path that name something.
pub open spec fn named_parts(parts: Seq<Seq<char>>) -> Seq<Seq<char>>
    decreases parts.len(),
{
    if parts.len() == 0 {
        Seq::empty()
    } else {
        let front = named_parts(parts.drop_last());
        if names_something(parts.last()) {
            front.push(parts.last())
        } else {
            front
        }
    }
}

/// The components of a path: the root of an absolute path, the leading dot of a
/// relative one that has it, and the parts that name something.
pub open spec fn components_of(path: Seq<char>) -> Seq<Seq<char>> {
    let parts = split_at(path, '/');
    let start = if path.len() > 0 && path[0] == '/' {
        seq![seq!['/']]
    } else if parts[0] == seq!['.'] {
        seq![seq!['.']]
    } else {
        Seq::empty()
    };
    start + named_parts(parts)
}

/// The last component of a path, unless it leads to a parent directory.
pub open spec fn file_name_of(path: Seq<char>) -> Option<Seq<char>> {
    let parts = named_parts(split_at(path, '/'));
    if parts.len() == 0 || parts.last() == seq!['.', '.'] {
        None
    } else {
        Some(parts.last())
    }
}

fn keep_named(parts: Vec<Vec<char>>) -> (r: Vec<Vec<char>>)
    ensures
        texts(r@) == named_parts(texts(parts@)),
{
    let dot: Vec<char> = vec!['.'];
    assert(dot@ =~= seq!['.']);
    let mut out: Vec<Vec<char>> = Vec::new();
    let mut i: usize = 0;
    assert(texts(out@) =~= Seq::empty());
    while i < parts.len()
        invariant
            0 <= i <= parts@.len(),
            dot@ == seq!['.'],
            texts(out@) == named_parts(texts(parts@).take(i as int)),
        decreases parts@.len() - i,
    {
        let ghost before = texts(out@);
        let ghost text = parts@[i as int]@;
        proof {
            assert(texts(parts@).take(i + 1).drop_last() =~= texts(parts@).take(i as int));
            assert(texts(parts@).take(i + 1).last() == text);
        }
        if parts[i].len() > 0 && !same_chars(parts[i].as_slice(), dot.as_slice()) {
            let copy = sub_chars(parts[i].as_slice(), 0, parts[i].len());
            assert(copy@ =~= text);
            out.push(copy);
            assert(texts(out@) =~= before.push(text));
        }
        i += 1;
    }
    assert(texts(parts@).take(i as int) =~= texts(parts@));
    out
}

proof fn lemma_split_not_empty(s: Seq<char>, separator: char)
    ensures
        split_at(s, separator).len() > 0,
{
}

/// The components of a path.
pub fn path_components(path: &str) -> (r: Vec<Vec<char>>)
    ensures
        texts(r@) == components_of(path@),
{
    let s = chars_of(path);
    let parts = split_chars(s.as_slice(), '/');
    proof {
        lemma_split_not_empty(s@, '/');
    }
    let dot: Vec<char> = vec!['.'];
    assert(dot@ =~= seq!['.']);
    let mut out: Vec<Vec<char>> = Vec::new();
    assert(texts(parts@)[0] == parts@[0]@);
    let ghost start = if path@.len() > 0 && path@[0] == '/' {
        seq![seq!['/']]
    } else if split_at(path@, '/')[0] == seq!['.'] {
        seq![seq!['.']]
    } else {
        Seq::empty()
    };
    if s.len() > 0 && s[0] == '/' {
        let root: Vec<char> = vec!['/'];
        assert(root@ =~= seq!['/']);
        out.push(root);
        assert(texts(out@) =~= start);
    } else if same_chars(parts[0].as_slice(), dot.as_slice()) {
        out.push(dot);
        assert(texts(out@) =~= start);
    } else {
        assert(texts(out@) =~= start);
    }
    let mut named = keep_named(parts);
    let ghost rest = named@;
    let ghost before = out@;
    out.append(&mut named);
    assert(out@ == before + rest);
    assert(texts(out@) =~= texts(before) + texts(rest));
    out
}

/// Whether a path begins at the root.
pub open spec fn is_absolute(path: Seq<char>) -> bool {
    path.len() > 0 && path[0] == '/'
}

/// Whether a path begins at the root.
pub fn path_is_absolute(path: &str) -> (r: bool)
    ensures
        r == is_absolute(path@),
{
    let s = chars_of(path);
    s.len() > 0 && s[0] == '/'
}

proof fn lemma_no_separator(s: Seq<char>, separator: char, k: int)
    requires
        0 <= k < split_at(s, separator).len(),
    ensures
        !split_at(s, separator)[k].contains(separator),
    decreases s.len(),
{
    let mark = seq![separator];
    lemma_find_from(s, mark, 0);
    let part = split_at(s, separator)[k];
    if part.contains(separator) {
        match find_from(s, mark, 0) {
            Some(i) => {
                if k == 0 {
                    let j = choose|j: int| 0 <= j < part.len() && part[j] == separator;
                    assert(s.subrange(j, j + 1) =~= mark);
                    assert(occurs_at(s, mark, j));
                } else {
                    lemma_no_separator(s.skip(i + 1), separator, k - 1);
                }
            },
            None => {
                let j = choose|j: int| 0 <= j < part.len() && part[j] == separator;
                assert(s.subrange(j, j + 1) =~= mark);
                assert(occurs_at(s, mark, j));
            },
        }
    }
}

proof fn lemma_named_part(parts: Seq<Seq<char>>, k: int)
    requires
        0 <= k < named_parts(parts).len(),
    ensures
        names_something(named_parts(parts)[k]),
        parts.contains(named_parts(parts)[k]),
    decreases parts.len(),
{
    let front = named_parts(parts.drop_last());
    if k < front.len() {
        lemma_named_part(parts.drop_last(), k);
        let i = choose|i: int|
            0 <= i < parts.drop_last().len() && parts.drop_last()[i] == front[k];
        assert(parts[i] == front[k]);
    } else {
        assert(parts[parts.len() - 1] == named_parts(parts)[k]);
    }
}

proof fn lemma_last_part(s: Seq<char>, separator: char)
    requires
        s.len() > 0,
        s.last() != separator,
    ensures
        split_at(s, separator).len() > 0,
        split_at(s, separator).last().len() > 0,
        split_at(s, separator).last().last() == s.last(),
    decreases s.len(),
{
    let mark = seq![separator];
    lemma_find_from(s, mark, 0);
    if let Some(i) = find_from(s, mark, 0) {
        assert(s.subrange(i, i + 1)[0] == separator);
        let rest = s.skip(i + 1);
        assert(s[i] == separator);
        assert(rest.last() == s.last());
        lemma_last_part(rest, separator);
        assert((seq![s.take(i)] + split_at(rest, separator)).last() == split_at(
            rest,
            separator,
        ).last());
    }
}

/// A path that ends neither in a separator nor in a dot names something.
pub proof fn lemma_names_something(path: Seq<char>)
    requires
        path.len() > 0,
        path.last() != '/',
        path.last() != '.',
    ensures
        file_name_of(path) is Some,
{
    lemma_last_part(path, '/');
    let parts = split_at(path, '/');
    let part = parts.last();
    assert(seq!['.'].last() == '.');
    assert(seq!['.', '.'].last() == '.');
    assert(names_something(part));
    assert(named_parts(parts).last() == part);
}

/// The components of a relative path that names something begin with no root and end
/// in a name.
pub proof fn lemma_relative_components(path: Seq<char>)
    requires
        !is_absolute(path),
        file_name_of(path) is Some,
    ensures
        components_of(path).len() > 0,
        components_of(path)[0] != seq!['/'],
        components_of(path).last() == file_name_of(path)->Some_0,
        names_something(components_of(path).last()),
        components_of(path).last() != seq!['.', '.'],
{
    let parts = split_at(path, '/');
    let named = named_parts(parts);
    lemma_named_part(parts, named.len() - 1);
    lemma_named_part(parts, 0);
    let k = choose|k: int| 0 <= k < parts.len() && parts[k] == named[0];
    lemma_no_separator(path, '/', k);
    assert(seq!['/'][0] == '/');
    assert(seq!['/'].contains('/'));
    assert(seq!['.'][0] == '.');
}

/// The last component of a path, unless it leads to a parent directory.
pub fn file_name(path: &str) -> (r: Option<String>)
    ensures
        match r {
            Some(name) => file_name_of(path@) == Some(name@),
            None => file_name_of(path@) is None,
        },
{
    let s = chars_of(path);
    let parts = split_chars(s.as_slice(), '/');
    let named = keep_named(parts);
    let up: Vec<char> = vec!['.', '.'];
    assert(up@ =~= seq!['.', '.']);
    let n: usize = named.len();
    if n == 0 {
        return None;
    }
    assert(texts(named@).last() == named@[n - 1]@);
    if same_chars(named[n - 1].as_slice(), up.as_slice()) {
        None
    } else {
        Some(string_of(named[n - 1].as_slice()))
    }
}

/// A path without separators at its end, and without parts there that name
/// nothing.
pub open spec fn trimmed_path(path: Seq<char>) -> Seq<char>
    decreases path.len(),
{
    let n = path.len();
    if n > 0 && (path.last() == '/' || (path.last() == '.' && n > 1 && path[n - 2] == '/')) {
        trimmed_path(path.drop_last())
    } else {
        path
    }
}

/// The last position of `c` before `end`.
pub open spec fn last_before(s: Seq<char>, c: char, end: int) -> Option<int>
    decreases end,
{
    if end <= 0 || end > s.len() {
        None
    } else if s[end - 1] == c {
        Some(end - 1)
    } else {
        last_before(s, c, end - 1)
    }
}

/// Where the last part of a path begins.
pub open spec fn name_start(path: Seq<char>) -> int {
    match last_before(path, '/', path.len() as int) {
        Some(i) => i + 1,
        None => 0,
    }
}

/// Whether the last part of a path names a file: it is not empty, and leads
/// neither to the directory itself nor to its parent.
pub open spec fn has_name(path: Seq<char>) -> bool {
    let name = path.skip(name_start(path));
    name.len() > 0 && name != seq!['.'] && name != seq!['.', '.']
}

/// Where the extension of a path's last part begins, with its dot. A dot at the
/// beginning of the part begins no extension.
pub open spec fn extension_start(path: Seq<char>) -> Option<int> {
    match last_before(path, '.', path.len() as int) {
        Some(i) => if i > name_start(path) {
            Some(i)
        } else {
            None
        },
        None => None,
    }
}

/// A path with another extension in place of the one that it has, if it has one.
pub open spec fn extension_set(path: Seq<char>, extension: Seq<char>) -> Seq<char> {
    let trimmed = trimmed_path(path);
    if !has_name(trimmed) {
        path
    } else {
        let stem = match extension_start(trimmed) {
            Some(i) => trimmed.take(i),
            None => trimmed,
        };
        if extension.len() == 0 {
            stem
        } else {
            stem + "."@ + extension
        }
    }
}

/// A path with another extension behind what it has.
pub open spec fn extension_added(path: Seq<char>, extension: Seq<char>) -> Seq<char> {
    let trimmed = trimmed_path(path);
    if !has_name(trimmed) {
        path
    } else if extension.len() == 0 {
        path
    } else {
        trimmed + "."@ + extension
    }
}

/// Whether a path has this extension.
pub open spec fn extension_is(path: Seq<char>, extension: Seq<char>) -> bool {
    let trimmed = trimmed_path(path);
    has_name(trimmed) && match extension_start(trimmed) {
        Some(i) => trimmed.skip(i + 1) == extension,
        None => false,
    }
}

fn trim_path(path: &str) -> (r: Vec<char>)
    ensures
        r@ == trimmed_path(path@),
{
    let all = chars_of(path);
    let mut n: usize = all.len();
    assert(all@.take(n as int) =~= all@);
    while n > 0 && (all[n - 1] == '/' || (all[n - 1] == '.' && n > 1 && all[n - 2] == '/'))
        invariant
            0 <= n <= all@.len(),
            trimmed_path(all@) == trimmed_path(all@.take(n as int)),
        decreases n,
    {
        assert(all@.take(n as int).drop_last() =~= all@.take(n - 1));
        n -= 1;
    }
    let r = sub_chars(all.as_slice(), 0, n);
    assert(r@ =~= all@.take(n as int));
    r
}

fn find_last(s: &[char], c: char) -> (r: Option<usize>)
    ensures
        match r {
            Some(i) => last_before(s@, c, s@.len() as int) == Some(i as int) && i < s@.len(),
            None => last_before(s@, c, s@.len() as int) is None,
        },
{
    let mut n: usize = s.len();
    while n > 0
        invariant
            0 <= n <= s@.len(),
            last_before(s@, c, s@.len() as int) == last_before(s@, c, n as int),
        decreases n,
    {
        if s[n - 1] == c {
            return Some(n - 1);
        }
        n -= 1;
    }
    None
}

fn find_name_start(s: &[char]) -> (r: usize)
    ensures
        r == name_start(s@),
        r <= s@.len(),
{
    let total: usize = s.len();
    match find_last(s, '/') {
        Some(i) => i + 1,
        None => 0,
    }
}

fn check_name(s: &[char]) -> (r: bool)
    ensures
        r == has_name(s@),
{
    let start = find_name_start(s);
    let name = sub_chars(s, start, s.len());
    assert(name@ =~= s@.skip(start as int));
    let dot: Vec<char> = vec!['.'];
    let up: Vec<char> = vec!['.', '.'];
    assert(dot@ =~= seq!['.']);
    assert(up@ =~= seq!['.', '.']);
    name.len() > 0 && !same_chars(name.as_slice(), dot.as_slice()) && !same_chars(
        name.as_slice(),
        up.as_slice(),
    )
}

fn find_extension(s: &[char]) -> (r: Option<usize>)
    ensures
        match r {
            Some(i) => extension_start(s@) == Some(i as int) && i < s@.len(),
            None => extension_start(s@) is None,
        },
{
    match find_last(s, '.') {
        Some(i) => if i > find_name_start(s) {
            Some(i)
        } else {
            None
        },
        None => None,
    }
}

/// A path with another extension in place of the one that it has, if it has one.
pub fn with_extension(path: &str, extension: &str) -> (r: String)
    ensures
        r@ == extension_set(path@, extension@),
{
    let trimmed = trim_path(path);
    if !check_name(trimmed.as_slice()) {
        return path.to_owned();
    }
    let n: usize = match find_extension(trimmed.as_slice()) {
        Some(i) => i,
        None => trimmed.len(),
    };
    let mut out = sub_chars(trimmed.as_slice(), 0, n);
    assert(n == trimmed@.len() ==> out@ =~= trimmed@);
    assert(out@ =~= trimmed@.take(n as int));
    let dot = chars_of(".");
    let ext = chars_of(extension);
    if ext.len() > 0 {
        push_chars(&mut out, dot.as_slice());
        push_chars(&mut out, ext.as_slice());
    }
    string_of(out.as_slice())
}

/// A path with another extension behind what it has.
pub fn added_extension(path: &str, extension: &str) -> (r: String)
    ensures
        r@ == extension_added(path@, extension@),
{
    let mut out = trim_path(path);
    let ext = chars_of(extension);
    if !check_name(out.as_slice()) || ext.len() == 0 {
        return path.to_owned();
    }
    let dot = chars_of(".");
    push_chars(&mut out, dot.as_slice());
    push_chars(&mut out, ext.as_slice());
    string_of(out.as_slice())
}

/// Whether a path has this extension.
pub fn has_extension(path: &str, extension: &str) -> (r: bool)
    ensures
        r == extension_is(path@, extension@),
{
    let trimmed = trim_path(path);
    if !check_name(trimmed.as_slice()) {
        return false;
    }
    match find_extension(trimmed.as_slice()) {
        Some(i) => {
            let total: usize = trimmed.len();
            let found = sub_chars(trimmed.as_slice(), i + 1, total);
            assert(found@ =~= trimmed@.skip(i + 1));
            let wanted = chars_of(extension);
            same_chars(found.as_slice(), wanted.as_slice())
        },
        None => false,
    }
}

/// Whether a path leads to a directory or to what lies in it.
pub open spec fn lies_in(path: Seq<char>, directory: Seq<char>) -> bool {
    let parts = components_of(path);
    let front = components_of(directory);
    front.len() <= parts.len() && parts.take(front.len() as int) == front
}

/// Whether a path leads to a directory or to what lies in it.
pub fn path_starts_with(path: &str, directory: &str) -> (r: bool)
    ensures
        r == lies_in(path@, directory@),
{
    let parts = path_components(path);
    let front = path_components(directory);
    let ghost p = components_of(path@);
    let ghost d = components_of(directory@);
    assert(p.len() == parts@.len() && d.len() == front@.len());
    if front.len() > parts.len() {
        return false;
    }
    let mut i: usize = 0;
    while i < front.len()
        invariant
            0 <= i <= front@.len(),
            front@.len() <= parts@.len(),
            p == texts(parts@),
            d == texts(front@),
            p == components_of(path@),
            d == components_of(directory@),
            forall|j: int| 0 <= j < i ==> #[trigger] p[j] == d[j],
        decreases front@.len() - i,
    {
        assert(p[i as int] == parts@[i as int]@);
        assert(d[i as int] == front@[i as int]@);
        if !same_chars(parts[i].as_slice(), front[i].as_slice()) {
            assert(p.take(d.len() as int)[i as int] != d[i as int]);
            return false;
        }
        i += 1;
    }
    assert(p.take(d.len() as int) =~= d);
    true
}

/// The path of the directory that a path lies in, if there is one.
pub open spec fn parent_of(path: Seq<char>) -> Option<Seq<char>> {
    let trimmed = trimmed_path(path);
    let start = name_start(trimmed);
    let above = trimmed_path(trimmed.take(start));
    if trimmed.len() == 0 {
        None
    } else if start > 0 && above.len() == 0 {
        Some(seq!['/'])
    } else {
        Some(above)
    }
}

/// The path of the directory that a path lies in, or the path itself where there
/// is none.
pub fn parent_or_self(path: &str) -> (r: String)
    ensures
        r@ == match parent_of(path@) {
            Some(parent) => parent,
            None => path@,
        },
{
    let trimmed = trim_path(path);
    if trimmed.len() == 0 {
        return path.to_owned();
    }
    let start = find_name_start(trimmed.as_slice());
    let front = sub_chars(trimmed.as_slice(), 0, start);
    assert(front@ =~= trimmed@.take(start as int));
    let text = string_of(front.as_slice());
    let above = trim_path(text.as_str());
    if start > 0 && above.len() == 0 {
        let root: Vec<char> = vec!['/'];
        assert(root@ =~= seq!['/']);
        return string_of(root.as_slice());
    }
    string_of(above.as_slice())
}

/// A character with an ASCII capital letter made small.
pub open spec fn ascii_lower(c: char) -> char {
    if 'A' <= c <= 'Z' {
        (c as u32 + 32) as char
    } else {
        c
    }
}

/// Whether two texts are the same but for the case of ASCII letters.
pub open spec fn same_ignoring_case(a: Seq<char>, b: Seq<char>) -> bool {
    a.len() == b.len() && forall|i: int|
        0 <= i < a.len() ==> ascii_lower(#[trigger] a[i]) == ascii_lower(b[i])
}

fn lower(c: char) -> (r: char)
    ensures
        r == ascii_lower(c),
{
    if 'A' <= c && c <= 'Z' {
        let n: u8 = c as u32 as u8;
        (n + 32) as char
    } else {
        c
    }
}

/// Whether two texts are the same but for the case of ASCII letters.
pub fn equal_ignoring_case(a: &[char], b: &[char]) -> (r: bool)
    ensures
        r == same_ignoring_case(a@, b@),
{
    if a.len() != b.len() {
        return false;
    }
    let mut i: usize = 0;
    while i < a.len()
        invariant
            0 <= i <= a@.len(),
            a@.len() == b@.len(),
            forall|k: int| 0 <= k < i ==> ascii_lower(#[trigger] a@[k]) == ascii_lower(b@[k]),
        decreases a@.len() - i,
    {
        if lower(a[i]) != lower(b[i]) {
            assert(ascii_lower(a@[i as int]) != ascii_lower(b@[i as int]));
            return false;
        }
        i += 1;
    }
    true
}

/// Whether a text can be the name of a file without an extension: it is not empty, and holds
/// neither a separator nor a dot.
pub open spec fn is_plain_name(name: Seq<char>) -> bool {
    name.len() > 0 && !name.contains('/') && !name.contains('.')
}

/// Whether a path is that of a directory as it is written: it is not empty, and no separator
/// stands at its end.
pub open spec fn is_directory_path(path: Seq<char>) -> bool {
    path.len() > 0 && path.last() != '/'
}

proof fn lemma_last_before_none(s: Seq<char>, c: char, from: int, end: int)
    requires
        0 <= from <= end <= s.len(),
        forall|i: int| from <= i < end ==> s[i] != c,
    ensures
        last_before(s, c, end) == last_before(s, c, from),
    decreases end - from,
{
    if from < end {
        lemma_last_before_none(s, c, from, end - 1);
        assert(s[end - 1] != c);
    }
}

proof fn lemma_last_before_bound(s: Seq<char>, c: char, end: int)
    requires
        0 <= end <= s.len(),
    ensures
        last_before(s, c, end) matches Some(i) ==> 0 <= i < end,
    decreases end,
{
    if end > 0 && s[end - 1] != c {
        lemma_last_before_bound(s, c, end - 1);
    }
}

/// A file in a directory lies behind one separator there, and setting an extension puts it
/// behind the name. The path has that extension then.
pub proof fn names_lie_in_their_directory(dir: Seq<char>, name: Seq<char>, extension: Seq<char>)
    requires
        is_directory_path(dir),
        is_plain_name(name),
        is_plain_name(extension),
    ensures
        joined(dir, name) == dir + seq!['/'] + name,
        extension_set(joined(dir, name), extension) == dir + seq!['/'] + name + seq!['.']
            + extension,
        extension_is(dir + seq!['/'] + name + seq!['.'] + extension, extension),
{
    let path = dir + seq!['/'] + name;
    let n = path.len() as int;
    let start: int = dir.len() as int + 1;
    assert(!name.contains('/') && !name.contains('.'));
    assert(name.contains(name[0]));
    assert(joined(dir, name) =~= path);
    assert(name.contains(name[name.len() - 1]));
    assert(path.last() == name[name.len() - 1]);
    assert(trimmed_path(path) == path);
    assert forall|i: int| start <= i < n implies path[i] != '/' && path[i] != '.' by {
        assert(path[i] == name[i - start]);
        assert(name.contains(name[i - start]));
    }
    lemma_last_before_none(path, '/', start, n);
    assert(path[start - 1] == '/');
    assert(name_start(path) == start);
    assert(path.skip(start) =~= name);
    assert(name != seq!['.'] && name != seq!['.', '.']) by {
        assert(seq!['.'][0] == '.');
        assert(seq!['.', '.'][0] == '.');
    }
    lemma_last_before_none(path, '.', start, n);
    lemma_last_before_bound(path, '.', start);
    assert(extension_start(path) is None);
    reveal_strlit(".");
    assert("."@ =~= seq!['.']);
    assert(extension_set(path, extension) =~= path + seq!['.'] + extension);
    let whole = path + seq!['.'] + extension;
    let m = whole.len() as int;
    assert(extension.contains(extension[extension.len() - 1]));
    assert(whole.last() == extension[extension.len() - 1]);
    assert(trimmed_path(whole) == whole);
    assert forall|i: int| n < i < m implies whole[i] != '/' && whole[i] != '.' by {
        assert(whole[i] == extension[i - n - 1]);
        assert(extension.contains(extension[i - n - 1]));
    }
    assert forall|i: int| start <= i < m implies whole[i] != '/' by {
        if i < n {
            assert(whole[i] == path[i]);
        }
    }
    lemma_last_before_none(whole, '/', start, m);
    assert(whole[start - 1] == '/');
    assert(name_start(whole) == start);
    lemma_last_before_none(whole, '.', n + 1, m);
    assert(whole[n] == '.');
    assert(extension_start(whole) == Some(n));
    assert(whole.skip(n + 1) =~= extension);
    assert(whole.skip(start)[0] == name[0]);
}

} // verus!
