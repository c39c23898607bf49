//! What holds of texts that were searched, divided, trimmed and cut.
use vstd::prelude::*;

#[allow(unused_imports)]
use super::{
    find_from, join_texts, lemma_find_from, lines_of, occurs_at, replace_all, replace_first,
    strip_return, trimmed, trimmed_end, trimmed_start, whitespace_char, without_ends,
    without_starts,
};

verus! {

/// Whether a text holds another somewhere.
pub open spec fn holds_text(s: Seq<char>, part: Seq<char>) -> bool {
    exists|i: int| #[trigger] occurs_at(s, part, i)
}

pub(crate) proof fn lemma_join_front(first: Seq<char>, rest: Seq<Seq<char>>, separator: Seq<char>)
    requires
        rest.len() > 0,
    ensures
        join_texts(seq![first] + rest, separator) == first + separator + join_texts(
            rest,
            separator,
        ),
    decreases rest.len(),
{
    let all = seq![first] + rest;
    if rest.len() == 1 {
        assert(all.drop_last() =~= seq![first]);
        assert(all.last() == rest[0]);
        assert(join_texts(all.drop_last(), separator) == first);
    } else {
        lemma_join_front(first, rest.drop_last(), separator);
        assert(all.drop_last() =~= seq![first] + rest.drop_last());
        assert(all.last() == rest.last());
        assert(first + separator + join_texts(rest.drop_last(), separator) + separator
            + rest.last() =~= first + separator + (join_texts(rest.drop_last(), separator)
            + separator + rest.last()));
    }
}

/// Whether parts without the pattern, with the pattern between them, are the text.
pub open spec fn parts_around(parts: Seq<Seq<char>>, s: Seq<char>, pattern: Seq<char>) -> bool {
    &&& parts.len() > 0
    &&& join_texts(parts, pattern) == s
    &&& forall|i: int| 0 <= i < parts.len() ==> !holds_text(#[trigger] parts[i], pattern)
}

proof fn lemma_front_holds_nothing(s: Seq<char>, pattern: Seq<char>, i: int)
    requires
        pattern.len() > 0,
        find_from(s, pattern, 0) == Some(i),
    ensures
        occurs_at(s, pattern, i),
        !holds_text(s.subrange(0, i), pattern),
{
    lemma_find_from(s, pattern, 0);
    let front = s.subrange(0, i);
    if holds_text(front, pattern) {
        let j = choose|j: int| #[trigger] occurs_at(front, pattern, j);
        assert(front.subrange(j, j + pattern.len()) =~= s.subrange(j, j + pattern.len()));
        assert(occurs_at(s, pattern, j));
    }
}

/// Replacing a pattern keeps everything around it: the text is made up of parts that do not hold
/// the pattern, with the pattern between them, and the result of the same parts with the new text
/// between them.
pub proof fn all_but_the_pattern_is_kept(s: Seq<char>, pattern: Seq<char>, by: Seq<char>) -> (parts:
    Seq<Seq<char>>)
    requires
        pattern.len() > 0,
    ensures
        parts_around(parts, s, pattern),
        replace_all(s, pattern, by) == join_texts(parts, by),
        replace_first(s, pattern, by) == if parts.len() == 1 {
            s
        } else {
            parts[0] + by + join_texts(parts.skip(1), pattern)
        },
    decreases s.len(),
{
    lemma_find_from(s, pattern, 0);
    match find_from(s, pattern, 0) {
        None => {
            let parts = seq![s];
            assert(!holds_text(s, pattern));
            parts
        },
        Some(i) => {
            lemma_front_holds_nothing(s, pattern, i);
            let front = s.subrange(0, i);
            let tail = s.skip(i + pattern.len());
            let rest = all_but_the_pattern_is_kept(tail, pattern, by);
            let parts = seq![front] + rest;
            lemma_join_front(front, rest, pattern);
            lemma_join_front(front, rest, by);
            assert(s =~= front + pattern + tail);
            assert forall|k: int| 0 <= k < parts.len() implies !holds_text(
                #[trigger] parts[k],
                pattern,
            ) by {
                if k > 0 {
                    assert(parts[k] == rest[k - 1]);
                }
            }
            assert(parts.skip(1) =~= rest);
            assert(parts[0] == front);
            parts
        },
    }
}

/// The lines of a text hold no line breaks, and with line breaks between them they are the text,
/// but for a last line break.
pub proof fn lines_make_up_the_text(s: Seq<char>)
    ensures
        forall|i: int| 0 <= i < lines_of(s).len() ==> !(#[trigger] lines_of(s)[i]).contains('\n'),
        !s.contains('\r') ==> join_texts(lines_of(s), seq!['\n']) == s || join_texts(
            lines_of(s),
            seq!['\n'],
        ).push('\n') == s,
        s.len() == 0 <==> lines_of(s).len() == 0,
    decreases s.len(),
{
    let newline = seq!['\n'];
    let all = lines_of(s);
    lemma_find_from(s, newline, 0);
    if s.len() > 0 {
        match find_from(s, newline, 0) {
            None => {
                if s.contains('\n') {
                    let k = choose|k: int| 0 <= k < s.len() && s[k] == '\n';
                    assert(s.subrange(k, k + 1) =~= newline);
                    assert(occurs_at(s, newline, k));
                }
                assert(all =~= seq![s]);
            },
            Some(i) => {
                let front = s.subrange(0, i);
                let tail = s.skip(i + 1);
                let rest = lines_of(tail);
                lines_make_up_the_text(tail);
                assert(s.subrange(i, i + 1)[0] == '\n');
                assert(s =~= front + newline + tail);
                assert(all =~= seq![strip_return(front)] + rest);
                if front.contains('\n') {
                    let k = choose|k: int| 0 <= k < front.len() && front[k] == '\n';
                    assert(s.subrange(k, k + 1) =~= newline);
                    assert(occurs_at(s, newline, k));
                }
                assert forall|k: int| 0 <= k < all.len() implies !(#[trigger] all[k]).contains(
                    '\n',
                ) by {
                    if k > 0 {
                        assert(all[k] == rest[k - 1]);
                    } else if all[0].contains('\n') {
                        let j = choose|j: int| 0 <= j < all[0].len() && all[0][j] == '\n';
                        assert(front[j] == '\n');
                    }
                }
                if !s.contains('\r') {
                    if front.len() > 0 {
                        assert(front.last() == s[i - 1]);
                    }
                    assert(strip_return(front) == front);
                    if tail.contains('\r') {
                        let j = choose|j: int| 0 <= j < tail.len() && tail[j] == '\r';
                        assert(s[i + 1 + j] == '\r');
                    }
                    if tail.len() == 0 {
                        assert(all =~= seq![front]);
                        assert(join_texts(all, newline).push('\n') =~= s);
                    } else {
                        lemma_join_front(front, rest, newline);
                        if join_texts(rest, newline) == tail {
                            assert(join_texts(all, newline) =~= s);
                        } else {
                            assert(join_texts(all, newline).push('\n') =~= front + newline
                                + join_texts(rest, newline).push('\n'));
                        }
                    }
                }
            },
        }
    }
}

/// Whether a text is nothing but whitespace.
pub open spec fn is_blank(s: Seq<char>) -> bool {
    forall|i: int| 0 <= i < s.len() ==> whitespace_char(#[trigger] s[i])
}

/// Trimming the end of a text takes whitespace away, and nothing else, until there is none at the
/// end.
pub proof fn trimming_takes_the_blanks_at_the_end(s: Seq<char>)
    ensures
        ({
            let r = trimmed_end(s);
            &&& r.len() <= s.len()
            &&& r == s.take(r.len() as int)
            &&& is_blank(s.skip(r.len() as int))
            &&& r.len() > 0 ==> !whitespace_char(r.last())
        }),
    decreases s.len(),
{
    if s.len() > 0 && whitespace_char(s.last()) {
        let fewer = s.drop_last();
        trimming_takes_the_blanks_at_the_end(fewer);
        let n = trimmed_end(fewer).len() as int;
        assert(s.take(n) =~= fewer.take(n));
        assert forall|i: int| 0 <= i < s.skip(n).len() implies whitespace_char(
            #[trigger] s.skip(n)[i],
        ) by {
            if i < s.skip(n).len() - 1 {
                assert(s.skip(n)[i] == fewer.skip(n)[i]);
            }
        }
    } else {
        assert(s.take(s.len() as int) =~= s);
    }
}

/// Trimming a text leaves the part between its whitespace at the start and at the end, which
/// neither begins nor ends with whitespace.
pub proof fn trimming_takes_the_blanks_around(s: Seq<char>) -> (at: (int, int))
    ensures
        0 <= at.0 <= at.1 <= s.len(),
        trimmed(s) == s.subrange(at.0, at.1),
        is_blank(s.subrange(0, at.0)),
        is_blank(s.subrange(at.1, s.len() as int)),
        at.0 < at.1 ==> !whitespace_char(s[at.0]) && !whitespace_char(s[at.1 - 1]),
{
    trimming_takes_the_blanks_at_the_end(s);
    let front = trimmed_end(s);
    let end = front.len() as int;
    let start = lemma_trimmed_start(front);
    assert(trimmed(s) =~= s.subrange(start, end));
    assert forall|i: int| 0 <= i < start implies whitespace_char(
        #[trigger] s.subrange(0, start)[i],
    ) by {
        assert(s.subrange(0, start)[i] == front.subrange(0, start)[i]);
    }
    assert(s.subrange(end, s.len() as int) =~= s.skip(end));
    (start, end)
}

proof fn lemma_trimmed_start(s: Seq<char>) -> (at: int)
    ensures
        0 <= at <= s.len(),
        trimmed_start(s) == s.skip(at),
        is_blank(s.subrange(0, at)),
        at < s.len() ==> !whitespace_char(s[at]),
    decreases s.len(),
{
    if s.len() > 0 && whitespace_char(s[0]) {
        let tail = s.skip(1);
        let at = lemma_trimmed_start(tail);
        assert(tail.skip(at) =~= s.skip(at + 1));
        assert forall|i: int| 0 <= i < at + 1 implies whitespace_char(
            #[trigger] s.subrange(0, at + 1)[i],
        ) by {
            if i > 0 {
                assert(s.subrange(0, at + 1)[i] == tail.subrange(0, at)[i - 1]);
            }
        }
        at + 1
    } else {
        assert(s.skip(0) =~= s);
        0
    }
}

/// A text that is repeated.
pub open spec fn repeated(part: Seq<char>, times: nat) -> Seq<char>
    decreases times,
{
    if times == 0 {
        Seq::empty()
    } else {
        repeated(part, (times - 1) as nat) + part
    }
}

proof fn lemma_repeated_front(part: Seq<char>, times: nat)
    ensures
        repeated(part, times + 1) == part + repeated(part, times),
    decreases times,
{
    if times == 0 {
        assert(repeated(part, 0) + part =~= part + repeated(part, 0));
    } else {
        lemma_repeated_front(part, (times - 1) as nat);
        assert(part + repeated(part, (times - 1) as nat) + part =~= part + (repeated(
            part,
            (times - 1) as nat,
        ) + part));
    }
}

/// Taking an ending away takes it as often as it stands there, and nothing else.
pub proof fn endings_are_taken_away(s: Seq<char>, end: Seq<char>) -> (times: nat)
    requires
        end.len() > 0,
    ensures
        s == without_ends(s, end) + repeated(end, times),
        forall|front: Seq<char>| without_ends(s, end) != #[trigger] (front + end),
    decreases s.len(),
{
    if occurs_at(s, end, s.len() - end.len()) {
        let front = s.take(s.len() - end.len());
        let times = endings_are_taken_away(front, end);
        let kept = without_ends(front, end);
        assert(s =~= front + s.subrange(s.len() - end.len(), s.len() as int));
        assert(kept + repeated(end, times) + end =~= kept + (repeated(end, times) + end));
        (times + 1) as nat
    } else {
        assert forall|front: Seq<char>| s != #[trigger] (front + end) by {
            if s == front + end {
                assert(s.subrange(s.len() - end.len(), s.len() as int) =~= end);
            }
        }
        assert(s + repeated(end, 0) =~= s);
        0
    }
}

/// Taking a beginning away takes it as often as it stands there, and nothing else.
pub proof fn beginnings_are_taken_away(s: Seq<char>, start: Seq<char>) -> (times: nat)
    requires
        start.len() > 0,
    ensures
        s == repeated(start, times) + without_starts(s, start),
        forall|rest: Seq<char>| without_starts(s, start) != #[trigger] (start + rest),
    decreases s.len(),
{
    if occurs_at(s, start, 0) {
        let tail = s.skip(start.len() as int);
        let times = beginnings_are_taken_away(tail, start);
        let kept = without_starts(tail, start);
        lemma_repeated_front(start, times);
        assert(s =~= s.subrange(0, start.len() as int) + tail);
        assert(start + (repeated(start, times) + kept) =~= start + repeated(start, times) + kept);
        (times + 1) as nat
    } else {
        assert forall|rest: Seq<char>| s != #[trigger] (start + rest) by {
            if s == start + rest {
                assert(s.subrange(0, start.len() as int) =~= start);
            }
        }
        assert(repeated(start, 0) + s =~= s);
        0
    }
}

/// A text that was joined of others holds each of them.
pub proof fn joined_texts_hold_their_parts(parts: Seq<Seq<char>>, separator: Seq<char>, i: int)
    requires
        0 <= i < parts.len(),
    ensures
        holds_text(join_texts(parts, separator), parts[i]),
    decreases parts.len(),
{
    let all = join_texts(parts, separator);
    if parts.len() == 1 {
        assert(all.subrange(0, all.len() as int) =~= parts[i]);
        assert(occurs_at(all, parts[i], 0));
    } else {
        let front = join_texts(parts.drop_last(), separator);
        if i < parts.len() - 1 {
            joined_texts_hold_their_parts(parts.drop_last(), separator, i);
            let k = choose|k: int| #[trigger] occurs_at(front, parts[i], k);
            assert(all.subrange(k, k + parts[i].len()) =~= front.subrange(k, k + parts[i].len()));
            assert(occurs_at(all, parts[i], k));
        } else {
            let k: int = (front.len() + separator.len()) as int;
            assert(all.subrange(k, k + parts[i].len()) =~= parts[i]);
            assert(occurs_at(all, parts[i], k));
        }
    }
}

} // verus!
