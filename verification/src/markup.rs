//! Turns the markup of workshop descriptions into Markdown.
use vstd::prelude::*;

use crate::numbers::decimal_chars;
use crate::table::Table;
use crate::text::{
    chars_of, find_chars, push_chars, replace_chars, replace_first_chars, string_of,
    sub_chars,
};
#[allow(unused_imports)]
use crate::numbers::decimal_text;
#[allow(unused_imports)]
use crate::text::{
    contains_seq, find_from, lemma_find_from, lemma_find_is_first, occurs_at, replace_all,
    replace_first, strip_return,
};

pub mod laws;

verus! {

/// The bytes that a character takes in UTF-8.
pub open spec fn char_width(c: char) -> nat {
    let n = c as u32;
    if n < 0x80 {
        1
    } else if n < 0x800 {
        2
    } else if n < 0x10000 {
        3
    } else {
        4
    }
}

/// The bytes that a text takes in UTF-8.
pub open spec fn byte_len(s: Seq<char>) -> nat
    decreases s.len(),
{
    if s.len() == 0 {
        0
    } else {
        byte_len(s.drop_last()) + char_width(s.last())
    }
}

/// The first `left`, and the first `right` behind it.
pub open spec fn pair_of(s: Seq<char>, left: Seq<char>, right: Seq<char>) -> Option<(int, int)> {
    match find_from(s, left, 0) {
        None => None,
        Some(l) => match find_from(s, right, l + left.len()) {
            None => None,
            Some(r) => Some((l, r)),
        },
    }
}

/// The first `front`, the end of the first `back` behind it with at least one
/// character between them, and the first `right` behind that.
pub open spec fn match_of(
    s: Seq<char>,
    front: Seq<char>,
    back: Seq<char>,
    right: Seq<char>,
) -> Option<(int, int, int)> {
    match find_from(s, front, 0) {
        None => None,
        Some(l) => match find_from(s, back, l + front.len() + 1) {
            None => None,
            Some(e) => match find_from(s, right, e + back.len()) {
                None => None,
                Some(r) => Some((l, e + back.len(), r)),
            },
        },
    }
}

/// How the lines of a block are set.
#[derive(Debug, Clone, Copy, PartialEq, Eq, Structural)]
pub enum LineStyle {
    /// `> ` before each line, and a line feed between two of them.
    Quote,
    /// A line feed behind each line.
    List,
    /// As a list, with a number in place of the first dash of each line that has
    /// one.
    Ordered,
}

/// The first line of a text, and what follows it.
pub open spec fn first_line(s: Seq<char>) -> (Seq<char>, Seq<char>) {
    match find_from(s, seq!['\n'], 0) {
        Some(i) => (strip_return(s.take(i)), s.skip(i + 1)),
        None => (s, Seq::empty()),
    }
}

/// A line as its style sets it, and the number of lines that were numbered.
pub open spec fn styled_line(line: Seq<char>, style: LineStyle, index: nat) -> (Seq<char>, nat) {
    match style {
        LineStyle::Quote => ("> "@ + line, index),
        LineStyle::List => (line + "\n"@, index),
        LineStyle::Ordered => if find_from(line, " - "@, 0) is Some {
            (
                replace_first(line, " - "@, " "@ + decimal_text(index + 1) + ". "@) + "\n"@,
                index + 1,
            )
        } else {
            (line + "\n"@, index)
        },
    }
}

/// What is set between a line and the rest of its block.
pub open spec fn line_gap(style: LineStyle, rest: Seq<char>) -> Seq<char> {
    if style == LineStyle::Quote && rest.len() > 0 {
        "\n"@
    } else {
        Seq::empty()
    }
}

/// Three parts one after the other, where there are all three.
pub open spec fn around(
    front: Option<Seq<char>>,
    middle: Option<Seq<char>>,
    back: Option<Seq<char>>,
) -> Option<Seq<char>> {
    match (front, middle, back) {
        (Some(f), Some(m), Some(b)) => Some(f + m + b),
        _ => None,
    }
}

/// The Markdown fence before a code block.
pub open spec fn open_fence(code: Seq<char>) -> Seq<char> {
    if code.len() > 0 && code[0] == '\n' {
        "```"@
    } else {
        "```\n"@
    }
}

/// The Markdown fence behind a code block.
pub open spec fn close_fence(code: Seq<char>) -> Seq<char> {
    if code.len() > 0 && code.last() == '\n' {
        "```"@
    } else {
        "\n```"@
    }
}

/// The tags that stand for themselves, each replaced by what Markdown has for it.
pub open spec fn substituted(s: Seq<char>) -> Seq<char> {
    let t0 = replace_all(s, "[*]"@, " - "@);
    let t1 = replace_all(t0, "[b]"@, "**"@);
    let t2 = replace_all(t1, "[/b]"@, "**"@);
    let t3 = replace_all(t2, "[u]"@, "__"@);
    let t4 = replace_all(t3, "[/u]"@, "__"@);
    let t5 = replace_all(t4, "[i]"@, "*"@);
    let t6 = replace_all(t5, "[/i]"@, "*"@);
    let t7 = replace_all(t6, "[strike]"@, "~~"@);
    let t8 = replace_all(t7, "[/strike]"@, "~~"@);
    let t9 = replace_all(t8, "[spoiler]"@, "||"@);
    let t10 = replace_all(t9, "[/spoiler]"@, "||"@);
    t10
}

/// The digit of the header tag at `l`: the character whose number is two more
/// than the bytes before the tag.
pub open spec fn header_digit(s: Seq<char>, l: int) -> Option<char> {
    let n = byte_len(s.take(l)) + 2;
    if n < s.len() && '0' <= s[n as int] <= '9' {
        Some(s[n as int])
    } else {
        None
    }
}

/// The position two bytes behind `at`, where a character begins there.
pub open spec fn two_bytes_on(s: Seq<char>, at: int) -> Option<int> {
    if at < s.len() && char_width(s[at]) == 2 {
        Some(at + 1)
    } else if at + 1 < s.len() && char_width(s[at]) == 1 && char_width(s[at + 1]) == 1 {
        Some(at + 2)
    } else {
        None
    }
}

/// The tag that closes a header.
pub open spec fn header_close(digit: char) -> Seq<char> {
    "[/h"@ + seq![digit] + "]"@
}

/// As many number signs as the digit says.
pub open spec fn header_signs(digit: char) -> Seq<char> {
    Seq::new((digit as u32 - 48) as nat, |i: int| '#')
}

/// The lengths of the tags.
pub proof fn lemma_tag_lengths()
    ensures
        "[noparse]"@.len() == 9,
        "[/noparse"@.len() == 9,
        "[code]"@.len() == 6,
        "[/code]"@.len() == 7,
        "[hr]"@.len() == 4,
        "[/hr]"@.len() == 5,
        "[url"@.len() == 4,
        "]"@.len() == 1,
        "[/url]"@.len() == 6,
        "[quote]"@.len() == 7,
        "[/quote]"@.len() == 8,
        "[quote"@.len() == 6,
        "[list]"@.len() == 6,
        "[/list]"@.len() == 7,
        "[olist]"@.len() == 7,
        "[/olist]"@.len() == 8,
        "[h"@.len() == 2,
        "[/h"@.len() == 3,
{
    reveal_strlit("[noparse]");
    reveal_strlit("[/noparse");
    reveal_strlit("[code]");
    reveal_strlit("[/code]");
    reveal_strlit("[hr]");
    reveal_strlit("[/hr]");
    reveal_strlit("[url");
    reveal_strlit("]");
    reveal_strlit("[/url]");
    reveal_strlit("[quote]");
    reveal_strlit("[/quote]");
    reveal_strlit("[quote");
    reveal_strlit("[list]");
    reveal_strlit("[/list]");
    reveal_strlit("[olist]");
    reveal_strlit("[/olist]");
    reveal_strlit("[h");
    reveal_strlit("[/h");
}

/// A pair lies within the text, and its two tags do not overlap.
pub proof fn lemma_pair(s: Seq<char>, left: Seq<char>, right: Seq<char>)
    ensures
        match pair_of(s, left, right) {
            Some((l, r)) => 0 <= l && l + left.len() <= r && r + right.len() <= s.len(),
            None => true,
        },
{
    lemma_find_from(s, left, 0);
    if let Some(l) = find_from(s, left, 0) {
        lemma_find_from(s, right, l + left.len());
    }
}

pub proof fn lemma_match(s: Seq<char>, front: Seq<char>, back: Seq<char>, right: Seq<char>)
    ensures
        match match_of(s, front, back, right) {
            Some((l, i, r)) => {
                &&& 0 <= l
                &&& l + front.len() + 1 + back.len() <= i
                &&& i <= r
                &&& r + right.len() <= s.len()
            },
            None => true,
        },
{
    lemma_find_from(s, front, 0);
    if let Some(l) = find_from(s, front, 0) {
        lemma_find_from(s, back, l + front.len() + 1);
        if let Some(e) = find_from(s, back, l + front.len() + 1) {
            lemma_find_from(s, right, e + back.len());
        }
    }
}

/// The lines of a block as their style sets them, each turned into Markdown.
pub open spec fn styled_lines(s: Seq<char>, style: LineStyle, index: nat) -> Option<Seq<char>>
    decreases s.len(), 1int,
{
    if s.len() == 0 {
        Some(Seq::empty())
    } else {
        proof {
            lemma_find_from(s, seq!['\n'], 0);
        }
        let (line, rest) = first_line(s);
        match markdown(line) {
            None => None,
            Some(md) => {
                let (text, next) = styled_line(md, style, index);
                match styled_lines(rest, style, next) {
                    None => None,
                    Some(more) => Some(text + line_gap(style, rest) + more),
                }
            },
        }
    }
}

/// A text as Markdown. There is no result where a tag is cut off in a way that
/// leaves no whole characters behind it.
pub open spec fn markdown(s: Seq<char>) -> Option<Seq<char>>
    decreases s.len(), 0int,
{
    proof {
        lemma_tag_lengths();
        lemma_pair(s, "[noparse]"@, "[/noparse"@);
        lemma_pair(s, "[code]"@, "[/code]"@);
        lemma_pair(s, "[hr]"@, "[/hr]"@);
        lemma_match(s, "[url"@, "]"@, "[/url]"@);
        lemma_pair(s, "[quote]"@, "[/quote]"@);
        lemma_match(s, "[quote"@, "]"@, "[/quote]"@);
        lemma_pair(s, "[list]"@, "[/list]"@);
        lemma_pair(s, "[olist]"@, "[/olist]"@);
        lemma_find_from(s, "[h"@, 0);
    }
    if let Some((l, r)) = pair_of(s, "[noparse]"@, "[/noparse"@) {
        if r + 9 < s.len() && char_width(s[r + 9]) == 1 {
            around(markdown(s.take(l)), Some(s.subrange(l + 9, r)), markdown(s.skip(r + 10)))
        } else {
            None
        }
    } else if let Some((l, r)) = pair_of(s, "[code]"@, "[/code]"@) {
        let code = s.subrange(l + 6, r);
        around(
            markdown(s.take(l)),
            Some(open_fence(code) + code + close_fence(code)),
            markdown(s.skip(r + 7)),
        )
    } else if let Some((l, r)) = pair_of(s, "[hr]"@, "[/hr]"@) {
        around(markdown(s.take(l)), Some("\n---\n"@), markdown(s.skip(r + 5)))
    } else if let Some((l, i, r)) = match_of(s, "[url"@, "]"@, "[/url]"@) {
        if char_width(s[l + 4]) == 1 {
            around(
                markdown(s.take(l)),
                match markdown(s.subrange(i, r)) {
                    Some(shown) => Some(
                        "["@ + shown + "]("@ + s.subrange(l + 5, i - 1) + ")"@,
                    ),
                    None => None,
                },
                markdown(s.skip(r + 6)),
            )
        } else {
            None
        }
    } else if let Some((l, r)) = pair_of(s, "[quote]"@, "[/quote]"@) {
        around(
            markdown(s.take(l)),
            styled_lines(s.subrange(l + 7, r), LineStyle::Quote, 0),
            markdown(s.skip(r + 8)),
        )
    } else if let Some((l, i, r)) = match_of(s, "[quote"@, "]"@, "[/quote]"@) {
        if char_width(s[l + 6]) == 1 {
            around(
                markdown(s.take(l)),
                match styled_lines(s.subrange(i, r), LineStyle::Quote, 0) {
                    Some(quote) => Some(
                        "> *Originally posted by **"@ + s.subrange(l + 7, i - 1) + "**\n"@ + quote,
                    ),
                    None => None,
                },
                markdown(s.skip(r + 8)),
            )
        } else {
            None
        }
    } else if let Some((l, r)) = pair_of(s, "[list]"@, "[/list]"@) {
        around(
            markdown(s.take(l)),
            styled_lines(s.subrange(l + 6, r), LineStyle::List, 0),
            markdown(s.skip(r + 7)),
        )
    } else if let Some((l, r)) = pair_of(s, "[olist]"@, "[/olist]"@) {
        around(
            markdown(s.take(l)),
            styled_lines(s.subrange(l + 7, r), LineStyle::Ordered, 0),
            markdown(s.skip(r + 8)),
        )
    } else {
        match find_from(s, "[h"@, 0) {
            None => Some(substituted(s)),
            Some(l) => match header_digit(s, l) {
                None => Some(substituted(s)),
                Some(digit) => match two_bytes_on(s, l + 2) {
                    None => None,
                    Some(inner) => {
                        proof {
                            lemma_find_from(s, header_close(digit), inner);
                        }
                        match find_from(s, header_close(digit), inner) {
                            None => Some(substituted(s)),
                            Some(r) => around(
                                markdown(s.take(l)),
                                match markdown(s.subrange(inner, r)) {
                                    Some(title) => Some(header_signs(digit) + " "@ + title),
                                    None => None,
                                },
                                markdown(s.skip(r + 5)),
                            ),
                        }
                    },
                },
            },
        }
    }
}

/// The first `left` and the first `right` behind it, by the positions of their
/// first characters.
pub fn find_pair(subject: &[char], left: &str, right: &str) -> (r: Option<(usize, usize)>)
    ensures
        match r {
            Some((l, e)) => {
                &&& pair_of(subject@, left@, right@) == Some((l as int, e as int))
                &&& l + left@.len() <= e
                &&& e + right@.len() <= subject@.len()
            },
            None => pair_of(subject@, left@, right@) is None,
        },
{
    proof {
        lemma_pair(subject@, left@, right@);
    }
    let a = chars_of(left);
    let b = chars_of(right);
    let total: usize = subject.len();
    match find_chars(subject, a.as_slice(), 0) {
        None => None,
        Some(l) => {
            assert(l + left@.len() <= total);
            match find_chars(subject, b.as_slice(), l + a.len()) {
                None => None,
                Some(e) => Some((l, e)),
            }
        },
    }
}

/// The part of `left` before its `+`, the end of the part behind it with at least
/// one character between them, and the first `right` behind that, by position.
pub fn match_pair(subject: &[char], front: &str, back: &str, right: &str) -> (r: Option<
    (usize, usize, usize),
>)
    ensures
        match r {
            Some((l, i, e)) => {
                &&& match_of(subject@, front@, back@, right@) == Some(
                    (l as int, i as int, e as int),
                )
                &&& l + front@.len() + 1 + back@.len() <= i <= e
                &&& e + right@.len() <= subject@.len()
            },
            None => match_of(subject@, front@, back@, right@) is None,
        },
{
    proof {
        lemma_match(subject@, front@, back@, right@);
    }
    let a = chars_of(front);
    let b = chars_of(back);
    let c = chars_of(right);
    let total: usize = subject.len();
    match find_chars(subject, a.as_slice(), 0) {
        None => None,
        Some(l) => {
            assert(l + front@.len() <= total);
            if l + a.len() >= total {
                assert(find_from(subject@, back@, l + front@.len() + 1) is None);
                return None;
            }
            match find_chars(subject, b.as_slice(), l + a.len() + 1) {
                None => None,
                Some(e) => {
                    assert(e + back@.len() <= total);
                    match find_chars(subject, c.as_slice(), e + b.len()) {
                        None => None,
                        Some(r) => Some((l, e + b.len(), r)),
                    }
                },
            }
        },
    }
}

fn width_of(c: char) -> (r: usize)
    ensures
        r == char_width(c),
        1 <= r <= 4,
{
    let n: u32 = c as u32;
    if n < 0x80 {
        1
    } else if n < 0x800 {
        2
    } else if n < 0x10000 {
        3
    } else {
        4
    }
}

fn append_text(out: &mut Vec<char>, text: &str)
    ensures
        final(out)@ == old(out)@ + text@,
{
    let more = chars_of(text);
    push_chars(out, more.as_slice());
}

proof fn lemma_byte_len_grows(s: Seq<char>, i: int, j: int)
    requires
        0 <= i <= j <= s.len(),
    ensures
        byte_len(s.take(i)) + (j - i) <= byte_len(s.take(j)),
    decreases j - i,
{
    if i < j {
        lemma_byte_len_grows(s, i, j - 1);
        assert(s.take(j).drop_last() =~= s.take(j - 1));
    }
}

fn find_header_digit(s: &[char], l: usize) -> (r: Option<char>)
    requires
        l <= s@.len(),
    ensures
        r == header_digit(s@, l as int),
{
    let total: usize = s.len();
    let mut before: usize = 0;
    let mut i: usize = 0;
    while i < l
        invariant
            0 <= i <= l <= total,
            total == s@.len(),
            before == byte_len(s@.take(i as int)),
            before <= total,
        decreases l - i,
    {
        let w: usize = width_of(s[i]);
        proof {
            assert(s@.take(i + 1).drop_last() =~= s@.take(i as int));
            lemma_byte_len_grows(s@, i + 1, l as int);
        }
        if w > total - before {
            return None;
        }
        before += w;
        i += 1;
    }
    if 2 >= total - before {
        return None;
    }
    let c: char = s[before + 2];
    if '0' <= c && c <= '9' {
        Some(c)
    } else {
        None
    }
}

fn find_two_bytes_on(s: &[char], at: usize) -> (r: Option<usize>)
    requires
        at <= s@.len(),
    ensures
        match r {
            Some(i) => two_bytes_on(s@, at as int) == Some(i as int) && at <= i <= s@.len(),
            None => two_bytes_on(s@, at as int) is None,
        },
{
    let total: usize = s.len();
    if at < total && width_of(s[at]) == 2 {
        Some(at + 1)
    } else if at < total && 1 < total - at && width_of(s[at]) == 1 && width_of(s[at + 1]) == 1 {
        Some(at + 2)
    } else {
        None
    }
}

fn swap_tag(s: Vec<char>, tag: &str, by: &str) -> (r: Vec<char>)
    requires
        tag@.len() > 0,
    ensures
        r@ == replace_all(s@, tag@, by@),
{
    let a = chars_of(tag);
    let b = chars_of(by);
    replace_chars(s.as_slice(), a.as_slice(), b.as_slice())
}

proof fn lemma_substitutions_not_empty()
    ensures
        "[*]"@.len() > 0,
        "[b]"@.len() > 0,
        "[/b]"@.len() > 0,
        "[u]"@.len() > 0,
        "[/u]"@.len() > 0,
        "[i]"@.len() > 0,
        "[/i]"@.len() > 0,
        "[strike]"@.len() > 0,
        "[/strike]"@.len() > 0,
        "[spoiler]"@.len() > 0,
        "[/spoiler]"@.len() > 0,
{
    reveal_strlit("[*]");
    reveal_strlit("[b]");
    reveal_strlit("[/b]");
    reveal_strlit("[u]");
    reveal_strlit("[/u]");
    reveal_strlit("[i]");
    reveal_strlit("[/i]");
    reveal_strlit("[strike]");
    reveal_strlit("[/strike]");
    reveal_strlit("[spoiler]");
    reveal_strlit("[/spoiler]");
}

fn substitute(s: &[char]) -> (r: Vec<char>)
    ensures
        r@ == substituted(s@),
{
    proof {
        lemma_substitutions_not_empty();
    }
    let mut out = sub_chars(s, 0, s.len());
    assert(out@ =~= s@);
    out = swap_tag(out, "[*]", " - ");
    out = swap_tag(out, "[b]", "**");
    out = swap_tag(out, "[/b]", "**");
    out = swap_tag(out, "[u]", "__");
    out = swap_tag(out, "[/u]", "__");
    out = swap_tag(out, "[i]", "*");
    out = swap_tag(out, "[/i]", "*");
    out = swap_tag(out, "[strike]", "~~");
    out = swap_tag(out, "[/strike]", "~~");
    out = swap_tag(out, "[spoiler]", "||");
    out = swap_tag(out, "[/spoiler]", "||");
    out
}

/// Sets `text` between what stands before and behind it, each turned into
/// Markdown.
fn convert_around(s: &[char], l: usize, middle: Vec<char>, rest: usize) -> (r: Option<Vec<char>>)
    requires
        l < s@.len(),
        0 < rest <= s@.len(),
    ensures
        match r {
            Some(md) => around(
                markdown(s@.take(l as int)),
                Some(middle@),
                markdown(s@.skip(rest as int)),
            ) == Some(md@),
            None => around(
                markdown(s@.take(l as int)),
                Some(middle@),
                markdown(s@.skip(rest as int)),
            ) is None,
        },
    decreases s@.len(), 2int,
{
    let before = sub_chars(s, 0, l);
    let behind = sub_chars(s, rest, s.len());
    assert(before@ =~= s@.take(l as int));
    assert(behind@ =~= s@.skip(rest as int));
    let mut out = match convert(before.as_slice()) {
        None => return None,
        Some(front) => front,
    };
    let back = match convert(behind.as_slice()) {
        None => return None,
        Some(back) => back,
    };
    push_chars(&mut out, middle.as_slice());
    push_chars(&mut out, back.as_slice());
    Some(out)
}

/// The line that begins at `start`, and where the next one begins.
fn next_line(s: &[char], start: usize) -> (r: (Vec<char>, usize))
    requires
        start < s@.len(),
    ensures
        first_line(s@.skip(start as int)) == (r.0@, s@.skip(r.1 as int)),
        start < r.1 <= s@.len(),
        r.0@.len() <= s@.len() - start,
{
    let feed: Vec<char> = vec!['\n'];
    assert(feed@ =~= seq!['\n']);
    let total: usize = s.len();
    let ghost rest = s@.skip(start as int);
    proof {
        crate::text::lemma_find_shift(s@, feed@, start as int, 0);
        lemma_find_from(s@, feed@, start as int);
    }
    match find_chars(s, feed.as_slice(), start) {
        Some(i) => {
            let end: usize = if i > start && s[i - 1] == '\r' {
                i - 1
            } else {
                i
            };
            let line = sub_chars(s, start, end);
            assert(rest.take(i - start) =~= s@.subrange(start as int, i as int));
            assert(strip_return(rest.take(i - start)) =~= line@);
            assert(rest.skip(i - start + 1) =~= s@.skip(i + 1));
            (line, i + 1)
        },
        None => {
            let line = sub_chars(s, start, total);
            assert(line@ =~= rest);
            assert(s@.skip(total as int) =~= Seq::empty());
            (line, total)
        },
    }
}

/// Sets one line, and gives the number of lines that were numbered.
fn set_line(out: &mut Vec<char>, md: &Vec<char>, style: LineStyle, index: u64) -> (r: u64)
    requires
        index < u64::MAX,
    ensures
        final(out)@ == old(out)@ + styled_line(md@, style, index as nat).0,
        r == styled_line(md@, style, index as nat).1,
        r <= index + 1,
{
    let ghost before = out@;
    match style {
        LineStyle::Quote => {
            append_text(out, "> ");
            push_chars(out, md.as_slice());
            assert(out@ =~= before + ("> "@ + md@));
            index
        },
        LineStyle::List => {
            push_chars(out, md.as_slice());
            append_text(out, "\n");
            assert(out@ =~= before + (md@ + "\n"@));
            index
        },
        LineStyle::Ordered => {
            let dash = chars_of(" - ");
            if find_chars(md.as_slice(), dash.as_slice(), 0).is_some() {
                let mut number = chars_of(" ");
                let digits = decimal_chars(index + 1);
                push_chars(&mut number, digits.as_slice());
                append_text(&mut number, ". ");
                let numbered = replace_first_chars(
                    md.as_slice(),
                    dash.as_slice(),
                    number.as_slice(),
                );
                push_chars(out, numbered.as_slice());
                append_text(out, "\n");
                assert(out@ =~= before + (numbered@ + "\n"@));
                index + 1
            } else {
                push_chars(out, md.as_slice());
                append_text(out, "\n");
                assert(out@ =~= before + (md@ + "\n"@));
                index
            }
        },
    }
}

/// The lines of a block as their style sets them.
fn convert_lines(s: &[char], style: LineStyle) -> (r: Option<Vec<char>>)
    ensures
        match r {
            Some(md) => styled_lines(s@, style, 0) == Some(md@),
            None => styled_lines(s@, style, 0) is None,
        },
    decreases s@.len(), 5int,
{
    let total: usize = s.len();
    let mut out: Vec<char> = Vec::new();
    let mut index: u64 = 0;
    let mut start: usize = 0;
    assert(s@.skip(0) =~= s@);
    proof {
        if let Some(all) = styled_lines(s@, style, 0) {
            assert(out@ + all =~= all);
        }
    }
    while start < total
        invariant
            0 <= start <= total,
            total == s@.len(),
            index <= start,
            match styled_lines(s@.skip(start as int), style, index as nat) {
                None => styled_lines(s@, style, 0) is None,
                Some(more) => styled_lines(s@, style, 0) == Some(out@ + more),
            },
        decreases total - start,
    {
        let (line, next): (Vec<char>, usize) = next_line(s, start);
        let md = match convert(line.as_slice()) {
            None => return None,
            Some(md) => md,
        };
        let ghost before = out@;
        let ghost text = styled_line(md@, style, index as nat).0;
        let ghost gap = line_gap(style, s@.skip(next as int));
        index = set_line(&mut out, &md, style, index);
        match style {
            LineStyle::Quote => {
                if next < total {
                    append_text(&mut out, "\n");
                }
            },
            _ => {},
        }
        proof {
            assert(out@ =~= before + text + gap);
            if let Some(more) = styled_lines(s@.skip(next as int), style, index as nat) {
                assert(before + (text + gap + more) =~= out@ + more);
            }
        }
        start = next;
    }
    assert(s@.skip(start as int) =~= Seq::empty());
    assert(out@ + Seq::<char>::empty() =~= out@);
    Some(out)
}

/// A text as Markdown.
#[verifier::rlimit(80)]
fn convert(s: &[char]) -> (r: Option<Vec<char>>)
    ensures
        match r {
            Some(md) => markdown(s@) == Some(md@),
            None => markdown(s@) is None,
        },
    decreases s@.len(), 4int,
{
    proof {
        lemma_tag_lengths();
    }
    let total: usize = s.len();
    if let Some((l, r)) = find_pair(s, "[noparse]", "[/noparse") {
        if 9 < total - r && width_of(s[r + 9]) == 1 {
            let raw = sub_chars(s, l + 9, r);
            return convert_around(s, l, raw, r + 10);
        }
        return None;
    }
    if let Some((l, r)) = find_pair(s, "[code]", "[/code]") {
        let code = sub_chars(s, l + 6, r);
        let mut block: Vec<char> = Vec::new();
        if code.len() > 0 && code[0] == '\n' {
            append_text(&mut block, "```");
        } else {
            append_text(&mut block, "```\n");
        }
        push_chars(&mut block, code.as_slice());
        if code.len() > 0 && code[code.len() - 1] == '\n' {
            append_text(&mut block, "```");
        } else {
            append_text(&mut block, "\n```");
        }
        assert(block@ =~= open_fence(code@) + code@ + close_fence(code@));
        return convert_around(s, l, block, r + 7);
    }
    if let Some((l, r)) = find_pair(s, "[hr]", "[/hr]") {
        let rule = chars_of("\n---\n");
        return convert_around(s, l, rule, r + 5);
    }
    if let Some((l, i, r)) = match_pair(s, "[url", "]", "[/url]") {
        if width_of(s[l + 4]) != 1 {
            return None;
        }
        let link = sub_chars(s, l + 5, i - 1);
        let inner = sub_chars(s, i, r);
        let shown = match convert(inner.as_slice()) {
            None => return None,
            Some(shown) => shown,
        };
        let mut formatted = chars_of("[");
        push_chars(&mut formatted, shown.as_slice());
        append_text(&mut formatted, "](");
        push_chars(&mut formatted, link.as_slice());
        append_text(&mut formatted, ")");
        return convert_around(s, l, formatted, r + 6);
    }
    if let Some((l, r)) = find_pair(s, "[quote]", "[/quote]") {
        let inner = sub_chars(s, l + 7, r);
        return match convert_lines(inner.as_slice(), LineStyle::Quote) {
            None => None,
            Some(quote) => convert_around(s, l, quote, r + 8),
        };
    }
    if let Some((l, i, r)) = match_pair(s, "[quote", "]", "[/quote]") {
        if width_of(s[l + 6]) != 1 {
            return None;
        }
        let author = sub_chars(s, l + 7, i - 1);
        let inner = sub_chars(s, i, r);
        let quote = match convert_lines(inner.as_slice(), LineStyle::Quote) {
            None => return None,
            Some(quote) => quote,
        };
        let mut formatted = chars_of("> *Originally posted by **");
        push_chars(&mut formatted, author.as_slice());
        append_text(&mut formatted, "**\n");
        push_chars(&mut formatted, quote.as_slice());
        return convert_around(s, l, formatted, r + 8);
    }
    if let Some((l, r)) = find_pair(s, "[list]", "[/list]") {
        let inner = sub_chars(s, l + 6, r);
        return match convert_lines(inner.as_slice(), LineStyle::List) {
            None => None,
            Some(items) => convert_around(s, l, items, r + 7),
        };
    }
    if let Some((l, r)) = find_pair(s, "[olist]", "[/olist]") {
        let inner = sub_chars(s, l + 7, r);
        return match convert_lines(inner.as_slice(), LineStyle::Ordered) {
            None => None,
            Some(items) => convert_around(s, l, items, r + 8),
        };
    }
    convert_header(s)
}

/// What [`convert`] does with a text that holds none of the other blocks.
fn convert_header(s: &[char]) -> (r: Option<Vec<char>>)
    requires
        pair_of(s@, "[noparse]"@, "[/noparse"@) is None,
        pair_of(s@, "[code]"@, "[/code]"@) is None,
        pair_of(s@, "[hr]"@, "[/hr]"@) is None,
        match_of(s@, "[url"@, "]"@, "[/url]"@) is None,
        pair_of(s@, "[quote]"@, "[/quote]"@) is None,
        match_of(s@, "[quote"@, "]"@, "[/quote]"@) is None,
        pair_of(s@, "[list]"@, "[/list]"@) is None,
        pair_of(s@, "[olist]"@, "[/olist]"@) is None,
    ensures
        match r {
            Some(md) => markdown(s@) == Some(md@),
            None => markdown(s@) is None,
        },
    decreases s@.len(), 3int,
{
    proof {
        lemma_tag_lengths();
        lemma_find_from(s@, "[h"@, 0);
    }
    let open = chars_of("[h");
    let l: usize = match find_chars(s, open.as_slice(), 0) {
        None => return Some(substitute(s)),
        Some(l) => l,
    };
    let digit: char = match find_header_digit(s, l) {
        None => return Some(substitute(s)),
        Some(digit) => digit,
    };
    let total: usize = s.len();
    assert(l + open@.len() <= total);
    let start: usize = match find_two_bytes_on(s, l + 2) {
        None => return None,
        Some(start) => start,
    };
    let mut close = chars_of("[/h");
    close.push(digit);
    append_text(&mut close, "]");
    assert(close@ =~= header_close(digit));
    proof {
        lemma_find_from(s@, close@, start as int);
    }
    match find_chars(s, close.as_slice(), start) {
        None => Some(substitute(s)),
        Some(r) => {
            let inner = sub_chars(s, start, r);
            let title = match convert(inner.as_slice()) {
                None => return None,
                Some(title) => title,
            };
            let level: u32 = digit as u32 - 48;
            let mut header: Vec<char> = Vec::new();
            let mut k: u32 = 0;
            while k < level
                invariant
                    0 <= k <= level,
                    header@ == Seq::new(k as nat, |i: int| '#'),
                decreases level - k,
            {
                header.push('#');
                k += 1;
                assert(header@ =~= Seq::new(k as nat, |i: int| '#'));
            }
            assert(header@ =~= header_signs(digit));
            append_text(&mut header, " ");
            push_chars(&mut header, title.as_slice());
            assert(r + close@.len() <= total);
            convert_around(s, l, header, r + 5)
        },
    }
}

/// A text as Markdown, or `None` where a tag is cut off in a way that leaves no
/// whole characters behind it.
pub fn try_to_markdown(subject: &str) -> (r: Option<String>)
    ensures
        match r {
            Some(md) => markdown(subject@) == Some(md@),
            None => markdown(subject@) is None,
        },
{
    let s = chars_of(subject);
    match convert(s.as_slice()) {
        None => None,
        Some(md) => Some(string_of(md.as_slice())),
    }
}

/// A text as Markdown.
pub fn to_markdown(subject: &str) -> (r: String)
    requires
        markdown(subject@) is Some,
    ensures
        markdown(subject@) == Some(r@),
{
    match try_to_markdown(subject) {
        Some(md) => md,
        None => String::new(),
    }
}

/// Descriptions that were turned into Markdown.
pub struct MarkupCache {
    cached_results: Table<String, String>,
}

impl View for MarkupCache {
    type V = Map<Seq<char>, Seq<char>>;

    closed spec fn view(&self) -> Map<Seq<char>, Seq<char>> {
        Map::new(
            |k: Seq<char>| self.cached_results@.dom().contains(k),
            |k: Seq<char>| self.cached_results@[k]@,
        )
    }
}

impl Default for MarkupCache {
    fn default() -> (r: Self)
        ensures
            r@ == Map::<Seq<char>, Seq<char>>::empty(),
    {
        let r = MarkupCache { cached_results: Table::new() };
        assert(r@ =~= Map::empty());
        r
    }
}

impl MarkupCache {
    /// Turns `subject` into Markdown and keeps the result, unless that was done
    /// before. The result says whether there is one.
    pub fn cache_markup(&mut self, subject: &str) -> (r: bool)
        ensures
            r == (old(self)@.dom().contains(subject@) || markdown(subject@) is Some),
            final(self)@ == if old(self)@.dom().contains(subject@) || markdown(subject@) is None {
                old(self)@
            } else {
                old(self)@.insert(subject@, markdown(subject@)->0)
            },
    {
        let ghost before = self@;
        let key = subject.to_owned();
        assert(before.dom().contains(subject@) == self.cached_results@.dom().contains(key@));
        if self.cached_results.contains(&key) {
            return true;
        }
        match try_to_markdown(subject) {
            None => false,
            Some(md) => {
                let ghost text = md@;
                self.cached_results.insert(key, md);
                assert(self@ =~= before.insert(subject@, text));
                true
            },
        }
    }

    /// The Markdown of `subject`, if it was cached.
    pub fn get_markup(&self, subject: &str) -> (r: Option<&str>)
        ensures
            match r {
                Some(md) => self@.dom().contains(subject@) && self@[subject@] == md@,
                None => !self@.dom().contains(subject@),
            },
    {
        let key = subject.to_owned();
        match self.cached_results.get(&key) {
            Some(md) => Some(md.as_str()),
            None => None,
        }
    }
}

proof fn lemma_no_bracket_no_tag(s: Seq<char>, tag: Seq<char>, from: int, by: Seq<char>)
    requires
        forall|i: int| 0 <= i < s.len() ==> s[i] != '[',
        tag.len() > 0,
        tag[0] == '[',
        0 <= from,
    ensures
        find_from(s, tag, from) is None,
        replace_all(s, tag, by) == s,
{
    lemma_find_from(s, tag, from);
    lemma_find_from(s, tag, 0);
    if let Some(i) = find_from(s, tag, from) {
        assert(s.subrange(i, i + tag.len())[0] == s[i]);
    }
    if let Some(i) = find_from(s, tag, 0) {
        assert(s.subrange(i, i + tag.len())[0] == s[i]);
    }
}

/// A text without an opening bracket holds no tag, and stays as it is.
pub proof fn text_without_tags_is_unchanged(s: Seq<char>)
    requires
        forall|i: int| 0 <= i < s.len() ==> s[i] != '[',
    ensures
        markdown(s) == Some(s),
{
    lemma_tag_lengths();
    reveal_strlit("[noparse]");
    reveal_strlit("[code]");
    reveal_strlit("[hr]");
    reveal_strlit("[url");
    reveal_strlit("[quote]");
    reveal_strlit("[quote");
    reveal_strlit("[list]");
    reveal_strlit("[olist]");
    reveal_strlit("[h");
    reveal_strlit("[*]");
    reveal_strlit("[b]");
    reveal_strlit("[/b]");
    reveal_strlit("[u]");
    reveal_strlit("[/u]");
    reveal_strlit("[i]");
    reveal_strlit("[/i]");
    reveal_strlit("[strike]");
    reveal_strlit("[/strike]");
    reveal_strlit("[spoiler]");
    reveal_strlit("[/spoiler]");
    lemma_no_bracket_no_tag(s, "[noparse]"@, 0, s);
    lemma_no_bracket_no_tag(s, "[code]"@, 0, s);
    lemma_no_bracket_no_tag(s, "[hr]"@, 0, s);
    lemma_no_bracket_no_tag(s, "[url"@, 0, s);
    lemma_no_bracket_no_tag(s, "[quote]"@, 0, s);
    lemma_no_bracket_no_tag(s, "[quote"@, 0, s);
    lemma_no_bracket_no_tag(s, "[list]"@, 0, s);
    lemma_no_bracket_no_tag(s, "[olist]"@, 0, s);
    lemma_no_bracket_no_tag(s, "[h"@, 0, s);
    lemma_no_bracket_no_tag(s, "[*]"@, 0, " - "@);
    lemma_no_bracket_no_tag(s, "[b]"@, 0, "**"@);
    lemma_no_bracket_no_tag(s, "[/b]"@, 0, "**"@);
    lemma_no_bracket_no_tag(s, "[u]"@, 0, "__"@);
    lemma_no_bracket_no_tag(s, "[/u]"@, 0, "__"@);
    lemma_no_bracket_no_tag(s, "[i]"@, 0, "*"@);
    lemma_no_bracket_no_tag(s, "[/i]"@, 0, "*"@);
    lemma_no_bracket_no_tag(s, "[strike]"@, 0, "~~"@);
    lemma_no_bracket_no_tag(s, "[/strike]"@, 0, "~~"@);
    lemma_no_bracket_no_tag(s, "[spoiler]"@, 0, "||"@);
    lemma_no_bracket_no_tag(s, "[/spoiler]"@, 0, "||"@);
}

/// A tag that begins with the only bracket in it stands first where it was put behind
/// a text that does not hold it.
proof fn lemma_tag_is_first(s: Seq<char>, head: Seq<char>, tag: Seq<char>, from: int)
    requires
        0 <= from,
        occurs_at(s, head + tag, from),
        !contains_seq(head, tag),
        tag.len() > 0,
        tag[0] == '[',
        forall|k: int| 0 < k < tag.len() ==> tag[k] != '[',
    ensures
        find_from(s, tag, from) == Some((from + head.len()) as int),
{
    let stop = from + head.len();
    let both = s.subrange(from, from + (head + tag).len());
    assert(s.subrange(stop, stop + tag.len()) =~= both.skip(head.len() as int));
    assert((head + tag).skip(head.len() as int) =~= tag);
    assert forall|j: int| from <= j < stop implies !occurs_at(s, tag, j) by {
        if occurs_at(s, tag, j) {
            let found = s.subrange(j, j + tag.len());
            if j + tag.len() <= stop {
                assert(head.subrange(j - from, j - from + tag.len()) =~= found) by {
                    assert forall|k: int| 0 <= k < tag.len() implies head[j - from + k]
                        == #[trigger] found[k] by {
                        assert(both[j - from + k] == (head + tag)[j - from + k]);
                    }
                }
                assert(occurs_at(head, tag, j - from));
            } else {
                assert(both[head.len() as int] == s[stop]);
                assert(found[stop - j] == s[stop]);
            }
        }
    }
    lemma_find_is_first(s, tag, from, stop as int);
}

proof fn lemma_raw_branch(s: Seq<char>, l: int, r: int)
    requires
        pair_of(s, "[noparse]"@, "[/noparse"@) == Some((l, r)),
        r + 9 < s.len(),
        s[r + 9] == ']',
    ensures
        markdown(s) == around(
            markdown(s.take(l)),
            Some(s.subrange(l + 9, r)),
            markdown(s.skip(r + 10)),
        ),
{
}

/// What stands between the first `[noparse]` and the tag that closes it is copied,
/// whatever tags it holds, and what stands before and behind is turned into Markdown
/// apart from it.
#[verifier::spinoff_prover]
pub proof fn raw_text_is_copied(front: Seq<char>, raw: Seq<char>, back: Seq<char>)
    requires
        !contains_seq(front, "[noparse]"@),
        !contains_seq(raw, "[/noparse"@),
    ensures
        markdown(front + "[noparse]"@ + raw + "[/noparse]"@ + back) == around(
            markdown(front),
            Some(raw),
            markdown(back),
        ),
{
    lemma_tag_lengths();
    reveal_strlit("[noparse]");
    reveal_strlit("[/noparse");
    reveal_strlit("[/noparse]");
    let open = "[noparse]"@;
    let close = "[/noparse"@;
    let s = front + open + raw + "[/noparse]"@ + back;
    let l = front.len() as int;
    let r = l + 9 + raw.len();
    assert("[/noparse]"@ =~= close + seq![']']);
    assert(s.subrange(0, l + 9) =~= front + open);
    lemma_tag_is_first(s, front, open, 0);
    assert(s.subrange(l + 9, r + 9) =~= raw + close);
    lemma_tag_is_first(s, raw, close, l + 9);
    assert(pair_of(s, open, close) == Some((l, r)));
    assert(s[r + 9] == ']');
    lemma_raw_branch(s, l, r);
    assert(s.take(l) =~= front);
    assert(s.subrange(l + 9, r) =~= raw);
    assert(s.skip(r + 10) =~= back);
}

/// Whether a text holds no bracket.
pub open spec fn is_plain(s: Seq<char>) -> bool {
    forall|i: int| 0 <= i < s.len() ==> s[i] != '[' && s[i] != ']'
}

/// A tag does not stand in a text in which other characters follow the brackets.
proof fn lemma_no_such_tag(s: Seq<char>, tag: Seq<char>, first: int, second: int)
    requires
        tag.len() >= 3,
        tag[0] == '[',
        forall|i: int| 0 <= i < s.len() && s[i] == '[' ==> i == first || i == second,
        first + 2 < s.len() ==> s[first + 1] != tag[1] || s[first + 2] != tag[2],
        second + 2 < s.len() ==> s[second + 1] != tag[1] || s[second + 2] != tag[2],
    ensures
        find_from(s, tag, 0) is None,
{
    lemma_find_from(s, tag, 0);
    if let Some(i) = find_from(s, tag, 0) {
        let found = s.subrange(i, i + tag.len());
        assert(found[0] == s[i]);
        assert(found[1] == s[i + 1]);
        assert(found[2] == s[i + 2]);
    }
}

/// A link becomes a link of Markdown, with what it shows before where it leads.
#[verifier::spinoff_prover]
#[verifier::rlimit(60)]
pub proof fn links_are_converted(
    front: Seq<char>,
    link: Seq<char>,
    shown: Seq<char>,
    back: Seq<char>,
)
    requires
        is_plain(front),
        is_plain(link),
        is_plain(shown),
        is_plain(back),
    ensures
        markdown(front + "[url="@ + link + "]"@ + shown + "[/url]"@ + back) == Some(
            front + ("["@ + shown + "]("@ + link + ")"@) + back,
        ),
{
    lemma_tag_lengths();
    reveal_strlit("[noparse]");
    reveal_strlit("[code]");
    reveal_strlit("[hr]");
    reveal_strlit("[url");
    reveal_strlit("[url=");
    reveal_strlit("]");
    reveal_strlit("[/url]");
    let s = front + "[url="@ + link + "]"@ + shown + "[/url]"@ + back;
    let l = front.len() as int;
    let i = l + 6 + link.len();
    let r = i + shown.len();
    assert forall|k: int| 0 <= k < s.len() && s[k] == '[' implies k == l || k == r by {
        if k < l {
            assert(s[k] == front[k]);
        } else if l + 5 <= k < i - 1 {
            assert(s[k] == link[k - l - 5]);
        } else if i <= k < r {
            assert(s[k] == shown[k - i]);
        } else if r + 6 <= k {
            assert(s[k] == back[k - r - 6]);
        }
    }
    assert(s[l + 1] == 'u' && s[l + 2] == 'r');
    assert(s[r + 1] == '/' && s[r + 2] == 'u');
    lemma_no_such_tag(s, "[noparse]"@, l, r);
    lemma_no_such_tag(s, "[code]"@, l, r);
    lemma_no_such_tag(s, "[hr]"@, l, r);
    assert(s.subrange(l, l + 4) =~= "[url"@);
    assert forall|j: int| 0 <= j < l implies !occurs_at(s, "[url"@, j) by {
        if occurs_at(s, "[url"@, j) {
            assert(s.subrange(j, j + 4)[0] == s[j]);
        }
    }
    lemma_find_is_first(s, "[url"@, 0, l);
    assert(s.subrange(i - 1, i) =~= "]"@);
    assert forall|j: int| l + 5 <= j < i - 1 implies !occurs_at(s, "]"@, j) by {
        if occurs_at(s, "]"@, j) {
            assert(s.subrange(j, j + 1)[0] == s[j]);
            assert(s[j] == link[j - l - 5]);
        }
    }
    lemma_find_is_first(s, "]"@, l + 5, i - 1);
    assert(s.subrange(r, r + 6) =~= "[/url]"@);
    assert forall|j: int| i <= j < r implies !occurs_at(s, "[/url]"@, j) by {
        if occurs_at(s, "[/url]"@, j) {
            assert(s.subrange(j, j + 6)[0] == s[j]);
        }
    }
    lemma_find_is_first(s, "[/url]"@, i, r);
    assert(match_of(s, "[url"@, "]"@, "[/url]"@) == Some((l, i, r)));
    assert(s[l + 4] == '=');
    assert(s.take(l) =~= front);
    assert(s.subrange(i, r) =~= shown);
    assert(s.subrange(l + 5, i - 1) =~= link);
    assert(s.skip(r + 6) =~= back);
    text_without_tags_is_unchanged(front);
    text_without_tags_is_unchanged(shown);
    text_without_tags_is_unchanged(back);
}

proof fn lemma_narrow_text(s: Seq<char>)
    requires
        forall|i: int| 0 <= i < s.len() ==> char_width(#[trigger] s[i]) == 1,
    ensures
        byte_len(s) == s.len(),
    decreases s.len(),
{
    if s.len() > 0 {
        assert(char_width(s[s.len() - 1]) == 1);
        assert forall|i: int| 0 <= i < s.drop_last().len() implies char_width(
            #[trigger] s.drop_last()[i],
        ) == 1 by {
            assert(char_width(s[i]) == 1);
        }
        lemma_narrow_text(s.drop_last());
    }
}

/// A header becomes a header of Markdown, with as many number signs as its digit says,
/// where each character before it takes one byte.
#[verifier::spinoff_prover]
#[verifier::rlimit(60)]
pub proof fn headers_are_converted(
    front: Seq<char>,
    digit: char,
    title: Seq<char>,
    back: Seq<char>,
)
    requires
        is_plain(front),
        is_plain(title),
        is_plain(back),
        forall|i: int| 0 <= i < front.len() ==> char_width(#[trigger] front[i]) == 1,
        '0' <= digit <= '9',
    ensures
        markdown(front + ("[h"@ + seq![digit] + "]"@) + title + header_close(digit) + back) == Some(
            front + (header_signs(digit) + " "@ + title) + back,
        ),
{
    lemma_tag_lengths();
    reveal_strlit("[noparse]");
    reveal_strlit("[code]");
    reveal_strlit("[hr]");
    reveal_strlit("[url");
    reveal_strlit("[quote]");
    reveal_strlit("[quote");
    reveal_strlit("[list]");
    reveal_strlit("[olist]");
    reveal_strlit("[h");
    reveal_strlit("[/h");
    reveal_strlit("]");
    let close = header_close(digit);
    let s = front + ("[h"@ + seq![digit] + "]"@) + title + close + back;
    let l = front.len() as int;
    let r = l + 4 + title.len();
    assert(close.len() == 5);
    assert forall|k: int| 0 <= k < s.len() && s[k] == '[' implies k == l || k == r by {
        if k < l {
            assert(s[k] == front[k]);
        } else if l + 4 <= k < r {
            assert(s[k] == title[k - l - 4]);
        } else if r <= k < r + 5 {
            assert(s[k] == close[k - r]);
        } else if r + 5 <= k {
            assert(s[k] == back[k - r - 5]);
        }
    }
    assert(s[l + 1] == 'h' && s[l + 2] == digit && s[l + 3] == ']');
    assert(s[r + 1] == close[1] && s[r + 2] == close[2]);
    lemma_no_such_tag(s, "[noparse]"@, l, r);
    lemma_no_such_tag(s, "[code]"@, l, r);
    lemma_no_such_tag(s, "[hr]"@, l, r);
    lemma_no_such_tag(s, "[url"@, l, r);
    lemma_no_such_tag(s, "[quote]"@, l, r);
    lemma_no_such_tag(s, "[quote"@, l, r);
    lemma_no_such_tag(s, "[list]"@, l, r);
    lemma_no_such_tag(s, "[olist]"@, l, r);
    assert(s.subrange(l, l + 2) =~= "[h"@);
    assert forall|j: int| 0 <= j < l implies !occurs_at(s, "[h"@, j) by {
        if occurs_at(s, "[h"@, j) {
            assert(s.subrange(j, j + 2)[0] == s[j]);
        }
    }
    lemma_find_is_first(s, "[h"@, 0, l);
    assert(s.take(l) =~= front);
    lemma_narrow_text(front);
    assert(header_digit(s, l) == Some(digit));
    assert(two_bytes_on(s, l + 2) == Some(l + 4));
    assert(s.subrange(r, r + 5) =~= close);
    assert forall|j: int| l + 4 <= j < r implies !occurs_at(s, close, j) by {
        if occurs_at(s, close, j) {
            assert(s.subrange(j, j + 5)[0] == s[j]);
        }
    }
    lemma_find_is_first(s, close, l + 4, r);
    assert(s.subrange(l + 4, r) =~= title);
    assert(s.skip(r + 5) =~= back);
    text_without_tags_is_unchanged(front);
    text_without_tags_is_unchanged(title);
    text_without_tags_is_unchanged(back);
}

} // verus!
