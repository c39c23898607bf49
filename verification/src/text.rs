//! Text and byte searching, splitting and number writing on which the other
//! modules build. Texts are handled as sequences of characters, file contents
//! as sequences of bytes.
use vstd::prelude::*;
use vstd::string::StringExecFns;
use vstd::utf8::{decode_utf8, encode_utf8, valid_utf8};

pub mod laws;

verus! {

/// Whether `pattern` stands in `s` at position `i`.
pub open spec fn occurs_at<T>(s: Seq<T>, pattern: Seq<T>, i: int) -> bool {
    &&& 0 <= i
    &&& i + pattern.len() <= s.len()
    &&& s.subrange(i, i + pattern.len()) == pattern
}

/// The first position at or after `from` at which `pattern` stands in `s`.
pub open spec fn find_from<T>(s: Seq<T>, pattern: Seq<T>, from: int) -> Option<int>
    decreases s.len() - from + 1,
{
    if from < 0 || from + pattern.len() > s.len() {
        None
    } else if occurs_at(s, pattern, from) {
        Some(from)
    } else {
        find_from(s, pattern, from + 1)
    }
}

/// Whether `pattern` stands anywhere in `s`.
pub open spec fn contains_seq<T>(s: Seq<T>, pattern: Seq<T>) -> bool {
    exists|i: int| #[trigger] occurs_at(s, pattern, i)
}

/// `s` with every occurrence of `pattern`, taken from the left and without
/// overlap, replaced by `by`.
pub open spec fn replace_all<T>(s: Seq<T>, pattern: Seq<T>, by: Seq<T>) -> Seq<T>
    decreases s.len(),
{
    match find_from(s, pattern, 0) {
        Some(i) => if pattern.len() == 0 || i < 0 || i + pattern.len() > s.len() {
            s
        } else {
            s.subrange(0, i) + by + replace_all(s.skip(i + pattern.len()), pattern, by)
        },
        None => s,
    }
}

/// `s` with the first occurrence of `pattern` replaced by `by`.
pub open spec fn replace_first<T>(s: Seq<T>, pattern: Seq<T>, by: Seq<T>) -> Seq<T> {
    match find_from(s, pattern, 0) {
        Some(i) => s.subrange(0, i) + by + s.skip(i + pattern.len()),
        None => s,
    }
}

/// A found position is the first one: the pattern stands there, and at no
/// earlier place that was searched. Nothing found means that it stands nowhere.
pub proof fn lemma_find_from<T>(s: Seq<T>, pattern: Seq<T>, from: int)
    requires
        0 <= from,
    ensures
        match find_from(s, pattern, from) {
            Some(i) => {
                &&& from <= i
                &&& occurs_at(s, pattern, i)
                &&& forall|j: int| from <= j < i ==> !occurs_at(s, pattern, j)
            },
            None => forall|j: int| from <= j ==> !occurs_at(s, pattern, j),
        },
    decreases s.len() - from + 1,
{
    if from + pattern.len() <= s.len() && !occurs_at(s, pattern, from) {
        lemma_find_from(s, pattern, from + 1);
    }
}

/// A position where the pattern stands, with no earlier one, is what the search
/// finds.
pub proof fn lemma_find_is_first<T>(s: Seq<T>, pattern: Seq<T>, from: int, at: int)
    requires
        0 <= from <= at,
        occurs_at(s, pattern, at),
        forall|j: int| from <= j < at ==> !occurs_at(s, pattern, j),
    ensures
        find_from(s, pattern, from) == Some(at),
    decreases at - from,
{
    if from < at {
        lemma_find_is_first(s, pattern, from + 1, at);
    }
}

/// Two character slices hold the same characters.
pub fn same_chars(a: &[char], b: &[char]) -> (r: bool)
    ensures
        r == (a@ == b@),
{
    if a.len() != b.len() {
        return false;
    }
    let mut i: usize = 0;
    while i < a.len()
        invariant
            0 <= i <= a.len(),
            a.len() == b.len(),
            forall|j: int| 0 <= j < i ==> a@[j] == b@[j],
        decreases a.len() - i,
    {
        if a[i] != b[i] {
            return false;
        }
        i += 1;
    }
    assert(a@ =~= b@);
    true
}

/// Whether `pattern` stands in `s` at position `i`.
pub fn bytes_at(s: &[u8], pattern: &[u8], i: usize) -> (r: bool)
    ensures
        r == occurs_at(s@, pattern@, i as int),
{
    if pattern.len() > s.len() || i > s.len() - pattern.len() {
        return false;
    }
    let mut k: usize = 0;
    while k < pattern.len()
        invariant
            0 <= k <= pattern.len(),
            pattern.len() <= s.len(),
            i <= s.len() - pattern.len(),
            forall|j: int| 0 <= j < k ==> s@[i + j] == pattern@[j],
        decreases pattern.len() - k,
    {
        if s[i + k] != pattern[k] {
            assert(s@.subrange(i as int, i + pattern@.len())[k as int] != pattern@[k as int]);
            return false;
        }
        k += 1;
    }
    assert(s@.subrange(i as int, i + pattern@.len()) =~= pattern@);
    true
}

/// Whether `pattern` stands in `s` at position `i`.
pub fn chars_at(s: &[char], pattern: &[char], i: usize) -> (r: bool)
    ensures
        r == occurs_at(s@, pattern@, i as int),
{
    if pattern.len() > s.len() || i > s.len() - pattern.len() {
        return false;
    }
    let mut k: usize = 0;
    while k < pattern.len()
        invariant
            0 <= k <= pattern.len(),
            pattern.len() <= s.len(),
            i <= s.len() - pattern.len(),
            forall|j: int| 0 <= j < k ==> s@[i + j] == pattern@[j],
        decreases pattern.len() - k,
    {
        if s[i + k] != pattern[k] {
            assert(s@.subrange(i as int, i + pattern@.len())[k as int] != pattern@[k as int]);
            return false;
        }
        k += 1;
    }
    assert(s@.subrange(i as int, i + pattern@.len()) =~= pattern@);
    true
}

/// The first position at or after `from` at which `pattern` stands in `s`.
pub fn find_bytes(s: &[u8], pattern: &[u8], from: usize) -> (r: Option<usize>)
    ensures
        match r {
            Some(i) => find_from(s@, pattern@, from as int) == Some(i as int) && from <= i && i
                + pattern@.len() <= s@.len(),
            None => find_from(s@, pattern@, from as int) is None,
        },
{
    let mut i: usize = from;
    while i <= s.len() && pattern.len() <= s.len() - i
        invariant
            from <= i,
            i <= s.len() || i == from,
            find_from(s@, pattern@, from as int) == find_from(s@, pattern@, i as int),
        decreases s.len() + 1 - i,
    {
        if bytes_at(s, pattern, i) {
            return Some(i);
        }
        if i == s.len() {
            assert(find_from(s@, pattern@, i + 1) is None);
            return None;
        }
        i += 1;
    }
    None
}

/// The first position at or after `from` at which `pattern` stands in `s`.
pub fn find_chars(s: &[char], pattern: &[char], from: usize) -> (r: Option<usize>)
    ensures
        match r {
            Some(i) => find_from(s@, pattern@, from as int) == Some(i as int) && from <= i && i
                + pattern@.len() <= s@.len(),
            None => find_from(s@, pattern@, from as int) is None,
        },
{
    let mut i: usize = from;
    while i <= s.len() && pattern.len() <= s.len() - i
        invariant
            from <= i,
            i <= s.len() || i == from,
            find_from(s@, pattern@, from as int) == find_from(s@, pattern@, i as int),
        decreases s.len() + 1 - i,
    {
        if chars_at(s, pattern, i) {
            return Some(i);
        }
        if i == s.len() {
            assert(find_from(s@, pattern@, i + 1) is None);
            return None;
        }
        i += 1;
    }
    None
}

/// The bytes from `from` up to `to`.
pub fn sub_bytes(s: &[u8], from: usize, to: usize) -> (r: Vec<u8>)
    requires
        from <= to <= s@.len(),
    ensures
        r@ == s@.subrange(from as int, to as int),
{
    let mut out: Vec<u8> = Vec::new();
    let mut i: usize = from;
    while i < to
        invariant
            from <= i <= to <= s@.len(),
            out@ == s@.subrange(from as int, i as int),
        decreases to - i,
    {
        out.push(s[i]);
        i += 1;
        assert(s@.subrange(from as int, i as int) =~= s@.subrange(from as int, i - 1).push(
            s@[i - 1],
        ));
    }
    out
}

/// The characters from `from` up to `to`.
pub fn sub_chars(s: &[char], from: usize, to: usize) -> (r: Vec<char>)
    requires
        from <= to <= s@.len(),
    ensures
        r@ == s@.subrange(from as int, to as int),
{
    let mut out: Vec<char> = Vec::new();
    let mut i: usize = from;
    while i < to
        invariant
            from <= i <= to <= s@.len(),
            out@ == s@.subrange(from as int, i as int),
        decreases to - i,
    {
        out.push(s[i]);
        i += 1;
        assert(s@.subrange(from as int, i as int) =~= s@.subrange(from as int, i - 1).push(
            s@[i - 1],
        ));
    }
    out
}

/// Appends `more` to `out`.
pub fn push_chars(out: &mut Vec<char>, more: &[char])
    ensures
        final(out)@ == old(out)@ + more@,
{
    let ghost start = out@;
    let mut i: usize = 0;
    while i < more.len()
        invariant
            0 <= i <= more.len(),
            out@ == start + more@.subrange(0, i as int),
        decreases more.len() - i,
    {
        out.push(more[i]);
        i += 1;
        assert(start + more@.subrange(0, i as int) =~= (start + more@.subrange(0, i - 1)).push(
            more@[i - 1],
        ));
    }
    assert(more@.subrange(0, i as int) =~= more@);
}

/// Appends `more` to `out`.
pub fn push_bytes(out: &mut Vec<u8>, more: &[u8])
    ensures
        final(out)@ == old(out)@ + more@,
{
    let ghost start = out@;
    let mut i: usize = 0;
    while i < more.len()
        invariant
            0 <= i <= more.len(),
            out@ == start + more@.subrange(0, i as int),
        decreases more.len() - i,
    {
        out.push(more[i]);
        i += 1;
        assert(start + more@.subrange(0, i as int) =~= (start + more@.subrange(0, i - 1)).push(
            more@[i - 1],
        ));
    }
    assert(more@.subrange(0, i as int) =~= more@);
}

/// The characters of a text.
pub fn chars_of(s: &str) -> (r: Vec<char>)
    ensures
        r@ == s@,
{
    let mut out: Vec<char> = Vec::new();
    for c in it: s.chars()
        invariant
            it.seq() == s@,
            out@ == s@.subrange(0, it.index() as int),
    {
        out.push(c);
        assert(s@.subrange(0, it.index() + 1) =~= s@.subrange(0, it.index() as int).push(c));
    }
    assert(s@.subrange(0, s@.len() as int) =~= s@);
    out
}

/// The UTF-8 bytes of a text.
pub fn bytes_of(s: &str) -> (r: Vec<u8>)
    ensures
        r@ == encode_utf8(s@),
{
    vstd::slice::slice_to_vec(s.as_bytes())
}

/// [`String::push`] puts a character behind the last one.
#[verifier::external_body]
fn push_char(s: &mut String, c: char)
    ensures
        final(s)@ == old(s)@.push(c),
{
    s.push(c)
}

/// The text that consists of these characters.
pub fn string_of(s: &[char]) -> (r: String)
    ensures
        r@ == s@,
{
    let mut out = String::new();
    let mut i: usize = 0;
    assert(s@.subrange(0, 0) =~= Seq::<char>::empty());
    while i < s.len()
        invariant
            0 <= i <= s.len(),
            out@ == s@.subrange(0, i as int),
        decreases s.len() - i,
    {
        push_char(&mut out, s[i]);
        i += 1;
        assert(s@.subrange(0, i as int) =~= s@.subrange(0, i - 1).push(s@[i - 1]));
    }
    assert(s@.subrange(0, i as int) =~= s@);
    out
}

/// [`core::str::from_utf8`] gives the text that the bytes encode where they are
/// well-formed UTF-8, and fails where they are not.
#[verifier::external_body]
pub(crate) fn string_from_utf8(bytes: &[u8]) -> (r: Option<String>)
    ensures
        match r {
            Some(s) => valid_utf8(bytes@) && s@ == decode_utf8(bytes@),
            None => !valid_utf8(bytes@),
        },
{
    core::str::from_utf8(bytes).ok().map(str::to_owned)
}

/// Two texts are the same.
pub fn same_text(a: &str, b: &str) -> (r: bool)
    ensures
        r == (a@ == b@),
{
    let x = chars_of(a);
    let y = chars_of(b);
    same_chars(x.as_slice(), y.as_slice())
}

/// `a` followed by `b`.
pub fn join_two(a: &str, b: &str) -> (r: String)
    ensures
        r@ == a@ + b@,
{
    let mut out = a.to_owned();
    out.append(b);
    out
}

/// `s` with every occurrence of `pattern` replaced by `by`.
pub fn replace_chars(s: &[char], pattern: &[char], by: &[char]) -> (r: Vec<char>)
    requires
        pattern@.len() > 0,
    ensures
        r@ == replace_all(s@, pattern@, by@),
{
    let mut out: Vec<char> = Vec::new();
    let mut start: usize = 0;
    assert(s@.skip(0) =~= s@);
    assert(out@ + replace_all(s@, pattern@, by@) =~= replace_all(s@, pattern@, by@));
    loop
        invariant
            0 <= start <= s@.len(),
            pattern@.len() > 0,
            out@ + replace_all(s@.skip(start as int), pattern@, by@) == replace_all(
                s@,
                pattern@,
                by@,
            ),
        decreases s@.len() - start,
    {
        let ghost rest = s@.skip(start as int);
        proof {
            lemma_find_shift(s@, pattern@, start as int, 0);
        }
        match find_chars(s, pattern, start) {
            Some(i) => {
                let total: usize = s.len();
                let part = sub_chars(s, start, i);
                proof {
                    lemma_find_from(s@, pattern@, start as int);
                    let at = i - start;
                    assert(rest.subrange(0, at) =~= part@);
                    assert(rest.skip(at + pattern@.len()) =~= s@.skip(i + pattern@.len()));
                    assert(out@ + (part@ + by@ + replace_all(
                        s@.skip(i + pattern@.len()),
                        pattern@,
                        by@,
                    )) =~= out@ + part@ + by@ + replace_all(
                        s@.skip(i + pattern@.len()),
                        pattern@,
                        by@,
                    ));
                }
                push_chars(&mut out, part.as_slice());
                push_chars(&mut out, by);
                assert(i + pattern@.len() <= total);
                start = i + pattern.len();
            },
            None => {
                let part = sub_chars(s, start, s.len());
                assert(rest =~= part@);
                push_chars(&mut out, part.as_slice());
                return out;
            },
        }
    }
}

/// `s` with the first occurrence of `pattern` replaced by `by`.
pub fn replace_first_chars(s: &[char], pattern: &[char], by: &[char]) -> (r: Vec<char>)
    ensures
        r@ == replace_first(s@, pattern@, by@),
{
    match find_chars(s, pattern, 0) {
        Some(i) => {
            let mut out = sub_chars(s, 0, i);
            push_chars(&mut out, by);
            let total: usize = s.len();
            assert(i + pattern@.len() <= total);
            let rest = sub_chars(s, i + pattern.len(), total);
            push_chars(&mut out, rest.as_slice());
            assert(rest@ =~= s@.skip(i + pattern@.len()));
            out
        },
        None => sub_chars(s, 0, s.len()),
    }
}

/// Searching a tail of `s` finds the same place, counted from where the tail
/// begins.
pub proof fn lemma_find_shift<T>(s: Seq<T>, pattern: Seq<T>, start: int, from: int)
    requires
        0 <= start <= s.len(),
        0 <= from,
    ensures
        match find_from(s, pattern, start + from) {
            Some(i) => find_from(s.skip(start), pattern, from) == Some(i - start),
            None => find_from(s.skip(start), pattern, from) is None,
        },
    decreases s.len() - start - from + 1,
{
    let tail = s.skip(start);
    if from + pattern.len() <= tail.len() {
        assert(tail.subrange(from, from + pattern.len()) =~= s.subrange(
            start + from,
            start + from + pattern.len(),
        ));
        if !occurs_at(tail, pattern, from) {
            lemma_find_shift(s, pattern, start, from + 1);
        }
    }
}

/// `line` without the carriage return that ends it, if one does.
pub open spec fn strip_return(line: Seq<char>) -> Seq<char> {
    if line.len() > 0 && line.last() == '\r' {
        line.drop_last()
    } else {
        line
    }
}

/// The lines of a text: a line ends at a line feed, or at a carriage return and
/// a line feed, and what follows the last line end is a line where it is not
/// empty.
pub open spec fn lines_of(s: Seq<char>) -> Seq<Seq<char>>
    decreases s.len(),
{
    if s.len() == 0 {
        Seq::empty()
    } else {
        match find_from(s, seq!['\n'], 0) {
            Some(i) => if 0 <= i < s.len() {
                seq![strip_return(s.subrange(0, i))] + lines_of(s.skip(i + 1))
            } else {
                seq![s]
            },
            None => seq![s],
        }
    }
}

/// The texts in `parts`, each by its characters.
pub open spec fn texts(parts: Seq<Vec<char>>) -> Seq<Seq<char>> {
    parts.map_values(|p: Vec<char>| p@)
}

/// The lines of a text.
pub fn lines(s: &[char]) -> (r: Vec<Vec<char>>)
    ensures
        texts(r@) == lines_of(s@),
{
    let mut out: Vec<Vec<char>> = Vec::new();
    let feed: Vec<char> = vec!['\n'];
    assert(feed@ =~= seq!['\n']);
    let mut start: usize = 0;
    assert(s@.skip(0) =~= s@);
    assert(texts(out@) =~= Seq::empty());
    assert(texts(out@) + lines_of(s@) =~= lines_of(s@));
    while start < s.len()
        invariant
            0 <= start <= s@.len(),
            feed@ == seq!['\n'],
            texts(out@) + lines_of(s@.skip(start as int)) == lines_of(s@),
        decreases s@.len() - start,
    {
        let ghost rest = s@.skip(start as int);
        let ghost before = out@;
        proof {
            lemma_find_shift(s@, feed@, start as int, 0);
            lemma_find_from(s@, feed@, start as int);
        }
        match find_chars(s, feed.as_slice(), start) {
            Some(i) => {
                let end: usize = if i > start && s[i - 1] == '\r' {
                    i - 1
                } else {
                    i
                };
                let line = sub_chars(s, start, end);
                proof {
                    assert(rest.subrange(0, i - start) =~= s@.subrange(start as int, i as int));
                    assert(line@ =~= strip_return(rest.subrange(0, i - start)));
                    assert(rest.skip(i - start + 1) =~= s@.skip(i + 1));
                }
                out.push(line);
                proof {
                    assert(texts(out@) =~= texts(before) + seq![line@]);
                    assert(texts(before) + (seq![line@] + lines_of(s@.skip(i + 1))) =~= texts(out@)
                        + lines_of(s@.skip(i + 1)));
                }
                start = i + 1;
            },
            None => {
                let line = sub_chars(s, start, s.len());
                assert(line@ =~= rest);
                out.push(line);
                proof {
                    assert(texts(out@) =~= texts(before) + seq![line@]);
                    assert(s@.skip(s@.len() as int) =~= Seq::<char>::empty());
                    assert(lines_of(s@.skip(s@.len() as int)) =~= Seq::empty());
                }
                start = s.len();
            },
        }
    }
    assert(s@.skip(s@.len() as int) =~= Seq::<char>::empty());
    assert(lines_of(s@.skip(s@.len() as int)) =~= Seq::empty());
    assert(texts(out@) =~= lines_of(s@));
    out
}

/// `parts` one after the other with `separator` between each two.
pub open spec fn join_texts(parts: Seq<Seq<char>>, separator: Seq<char>) -> Seq<char>
    decreases parts.len(),
{
    if parts.len() == 0 {
        Seq::empty()
    } else if parts.len() == 1 {
        parts[0]
    } else {
        join_texts(parts.drop_last(), separator) + separator + parts.last()
    }
}

/// `parts` one after the other with `separator` between each two.
pub fn join_chars(parts: &Vec<Vec<char>>, separator: &[char]) -> (r: Vec<char>)
    ensures
        r@ == join_texts(texts(parts@), separator@),
{
    let mut out: Vec<char> = Vec::new();
    let mut i: usize = 0;
    while i < parts.len()
        invariant
            0 <= i <= parts.len(),
            out@ == join_texts(texts(parts@).take(i as int), separator@),
        decreases parts.len() - i,
    {
        let ghost before = texts(parts@).take(i as int);
        let ghost after = texts(parts@).take(i + 1);
        if i > 0 {
            push_chars(&mut out, separator);
        }
        push_chars(&mut out, parts[i].as_slice());
        proof {
            assert(after.drop_last() =~= before);
            assert(after.last() == parts@[i as int]@);
            assert(i == 0 ==> out@ =~= parts@[0]@);
        }
        i += 1;
    }
    assert(texts(parts@).take(i as int) =~= texts(parts@));
    out
}

/// Whether a character has the Unicode property `White_Space`.
pub uninterp spec fn whitespace_char(c: char) -> bool;

/// [`char::is_whitespace`] says whether a character has the Unicode property
/// `White_Space`. Which characters have it is left unsaid.
#[verifier::external_body]
fn is_whitespace(c: char) -> (r: bool)
    ensures
        r == whitespace_char(c),
{
    c.is_whitespace()
}

/// A text without the white space at its end.
pub open spec fn trimmed_end(s: Seq<char>) -> Seq<char>
    decreases s.len(),
{
    if s.len() > 0 && whitespace_char(s.last()) {
        trimmed_end(s.drop_last())
    } else {
        s
    }
}

/// Whether two texts are the same but for the white space at their ends.
pub fn same_trimmed(a: &str, b: &str) -> (r: bool)
    ensures
        r == (trimmed_end(a@) == trimmed_end(b@)),
{
    let x = trim_end(a);
    let y = trim_end(b);
    same_chars(x.as_slice(), y.as_slice())
}

/// A text without the white space at its end.
pub fn trim_end(s: &str) -> (r: Vec<char>)
    ensures
        r@ == trimmed_end(s@),
{
    let all = chars_of(s);
    let mut n: usize = all.len();
    assert(all@.take(n as int) =~= all@);
    while n > 0 && is_whitespace(all[n - 1])
        invariant
            0 <= n <= all@.len(),
            trimmed_end(all@) == trimmed_end(all@.take(n as int)),
        decreases n,
    {
        assert(all@.take(n as int).drop_last() =~= all@.take(n - 1));
        n -= 1;
    }
    let r = sub_chars(all.as_slice(), 0, n);
    assert(r@ =~= all@.take(n as int));
    r
}

/// A text without the white space at its beginning.
pub open spec fn trimmed_start(s: Seq<char>) -> Seq<char>
    decreases s.len(),
{
    if s.len() > 0 && whitespace_char(s[0]) {
        trimmed_start(s.skip(1))
    } else {
        s
    }
}

/// A text without the white space at its beginning and its end.
pub open spec fn trimmed(s: Seq<char>) -> Seq<char> {
    trimmed_start(trimmed_end(s))
}

/// A text without the white space at its beginning and its end.
pub fn trim(s: &str) -> (r: String)
    ensures
        r@ == trimmed(s@),
{
    let all = trim_end(s);
    let n: usize = all.len();
    let mut i: usize = 0;
    assert(all@.skip(0) =~= all@);
    while i < n && is_whitespace(all[i])
        invariant
            0 <= i <= n,
            n == all@.len(),
            trimmed_start(all@) == trimmed_start(all@.skip(i as int)),
        decreases n - i,
    {
        assert(all@.skip(i as int).skip(1) =~= all@.skip(i + 1));
        i += 1;
    }
    let r = sub_chars(all.as_slice(), i, n);
    assert(r@ =~= all@.skip(i as int));
    string_of(r.as_slice())
}

/// A text without the `end`s that it ends with.
pub open spec fn without_ends(s: Seq<char>, end: Seq<char>) -> Seq<char>
    decreases s.len(),
{
    if end.len() > 0 && occurs_at(s, end, s.len() - end.len()) {
        without_ends(s.take(s.len() - end.len()), end)
    } else {
        s
    }
}

/// A text without the `end`s that it ends with.
pub fn trim_end_matches(s: &str, end: &str) -> (r: String)
    requires
        end@.len() > 0,
    ensures
        r@ == without_ends(s@, end@),
{
    let mut all = chars_of(s);
    let e = chars_of(end);
    loop
        invariant
            e@ == end@,
            e@.len() > 0,
            without_ends(s@, end@) == without_ends(all@, end@),
        ensures
            all@ == without_ends(s@, end@),
        decreases all@.len(),
    {
        let n: usize = all.len();
        if e.len() > n || !chars_at(all.as_slice(), e.as_slice(), n - e.len()) {
            break;
        }
        let front = sub_chars(all.as_slice(), 0, n - e.len());
        assert(front@ =~= all@.take(n - e@.len()));
        all = front;
    }
    string_of(all.as_slice())
}

/// A text without the `start`s that it begins with.
pub open spec fn without_starts(s: Seq<char>, start: Seq<char>) -> Seq<char>
    decreases s.len(),
{
    if start.len() > 0 && occurs_at(s, start, 0) {
        without_starts(s.skip(start.len() as int), start)
    } else {
        s
    }
}

/// A text without the `start`s that it begins with.
pub fn trim_start_matches(s: &str, start: &str) -> (r: String)
    requires
        start@.len() > 0,
    ensures
        r@ == without_starts(s@, start@),
{
    let mut all = chars_of(s);
    let e = chars_of(start);
    loop
        invariant
            e@ == start@,
            e@.len() > 0,
            without_starts(s@, start@) == without_starts(all@, start@),
        ensures
            all@ == without_starts(s@, start@),
        decreases all@.len(),
    {
        let n: usize = all.len();
        if !chars_at(all.as_slice(), e.as_slice(), 0) {
            break;
        }
        let rest = sub_chars(all.as_slice(), e.len(), n);
        assert(rest@ =~= all@.skip(e@.len() as int));
        all = rest;
    }
    string_of(all.as_slice())
}

/// Whether `part` stands anywhere in `s`.
pub fn text_contains(s: &str, part: &str) -> (r: bool)
    ensures
        r == (find_from(s@, part@, 0) is Some),
{
    let a = chars_of(s);
    let b = chars_of(part);
    find_chars(a.as_slice(), b.as_slice(), 0).is_some()
}

/// Whether `s` begins with `part`.
pub fn text_starts_with(s: &str, part: &str) -> (r: bool)
    ensures
        r == occurs_at(s@, part@, 0),
{
    let a = chars_of(s);
    let b = chars_of(part);
    chars_at(a.as_slice(), b.as_slice(), 0)
}

} // verus!
