//! Small additions to texts: splitting, shortening and listing them.
use vstd::prelude::*;

#[allow(unused_imports)]
use crate::markup::byte_len;
use crate::numbers::decimal_chars;
use crate::text::{chars_of, join_chars, push_chars, string_of, sub_chars};
#[allow(unused_imports)]
use crate::numbers::decimal_text;
#[allow(unused_imports)]
use crate::text::{join_texts, texts};

pub mod laws;

verus! {

/// Whether a character has the Unicode property `Lowercase`.
pub uninterp spec fn lowercase_char(c: char) -> bool;

/// [`char::is_lowercase`] says whether a character has the Unicode property
/// `Lowercase`. Which characters have it is left unsaid.
#[verifier::external_body]
fn is_lowercase(c: char) -> (r: bool)
    ensures
        r == lowercase_char(c),
{
    c.is_lowercase()
}

/// Whether a character has the Unicode property `Uppercase`.
pub uninterp spec fn uppercase_char(c: char) -> bool;

/// [`char::is_uppercase`] says whether a character has the Unicode property
/// `Uppercase`. Which characters have it is left unsaid.
#[verifier::external_body]
fn is_uppercase(c: char) -> (r: bool)
    ensures
        r == uppercase_char(c),
{
    c.is_uppercase()
}

/// `s` divided before each position that `cuts` marks.
pub open spec fn divided(s: Seq<char>, cuts: Seq<bool>) -> Seq<Seq<char>>
    decreases s.len(),
{
    if s.len() == 0 {
        Seq::empty()
    } else if s.len() == 1 {
        seq![s]
    } else {
        let front = divided(s.drop_last(), cuts.drop_last());
        if cuts.last() {
            front.push(seq![s.last()])
        } else {
            front.drop_last().push(front.last().push(s.last()))
        }
    }
}

proof fn lemma_divided_not_empty(s: Seq<char>, cuts: Seq<bool>)
    requires
        s.len() > 0,
    ensures
        divided(s, cuts).len() > 0,
    decreases s.len(),
{
    if s.len() > 1 {
        lemma_divided_not_empty(s.drop_last(), cuts.drop_last());
    }
}

/// `s` divided before each position that `cuts` marks.
fn divide(s: &[char], cuts: &Vec<bool>) -> (r: Vec<Vec<char>>)
    requires
        cuts@.len() == s@.len(),
    ensures
        texts(r@) == divided(s@, cuts@),
{
    let mut out: Vec<Vec<char>> = Vec::new();
    let mut piece: Vec<char> = Vec::new();
    let mut i: usize = 0;
    assert(texts(out@) =~= Seq::empty());
    while i < s.len()
        invariant
            0 <= i <= s@.len(),
            cuts@.len() == s@.len(),
            i == 0 ==> out@.len() == 0 && piece@.len() == 0,
            i > 0 ==> texts(out@).push(piece@) == divided(s@.take(i as int), cuts@.take(i as int)),
        decreases s@.len() - i,
    {
        let ghost before = texts(out@).push(piece@);
        let ghost piece_before = piece@;
        let c = s[i];
        if i > 0 && cuts[i] {
            out.push(piece);
            piece = Vec::new();
            assert(texts(out@) =~= before);
        }
        piece.push(c);
        proof {
            let s1 = s@.take(i + 1);
            let c1 = cuts@.take(i + 1);
            assert(s1.drop_last() =~= s@.take(i as int));
            assert(c1.drop_last() =~= cuts@.take(i as int));
            if i == 0 {
                assert(s1 =~= seq![c]);
                assert(piece@ =~= seq![c]);
                assert(texts(out@).push(piece@) =~= seq![s1]);
            } else if cuts@[i as int] {
                assert(piece@ =~= seq![c]);
            } else {
                assert(before.drop_last() =~= texts(out@));
                assert(before.last() == piece_before);
                assert(piece@ =~= piece_before.push(c));
            }
        }
        i += 1;
    }
    assert(s@.take(i as int) =~= s@);
    assert(cuts@.take(i as int) =~= cuts@);
    if i > 0 {
        let ghost before = texts(out@).push(piece@);
        out.push(piece);
        assert(texts(out@) =~= before);
    }
    out
}

fn strings_of(parts: &Vec<Vec<char>>) -> (r: Vec<String>)
    ensures
        string_views(r@) == texts(parts@),
{
    let mut out: Vec<String> = Vec::new();
    let mut i: usize = 0;
    while i < parts.len()
        invariant
            0 <= i <= parts@.len(),
            string_views(out@) == texts(parts@).take(i as int),
        decreases parts@.len() - i,
    {
        let ghost before = string_views(out@);
        out.push(string_of(parts[i].as_slice()));
        proof {
            assert(string_views(out@) =~= before.push(parts@[i as int]@));
            assert(texts(parts@).take(i + 1) =~= texts(parts@).take(i as int).push(
                parts@[i as int]@,
            ));
        }
        i += 1;
    }
    assert(texts(parts@).take(i as int) =~= texts(parts@));
    out
}

/// The characters of each text.
pub open spec fn string_views(parts: Seq<String>) -> Seq<Seq<char>> {
    Seq::new(parts.len(), |i: int| parts[i]@)
}

/// Where a text is divided between a lower case and an upper case character.
pub open spec fn case_cuts(s: Seq<char>) -> Seq<bool> {
    Seq::new(s.len(), |i: int| i > 0 && lowercase_char(s[i - 1]) && uppercase_char(s[i]))
}

/// Texts that can be divided between two neighbouring characters.
pub trait SplitAtBoundary {
    spec fn characters(&self) -> Seq<char>;

    /// The parts of the text, divided wherever `predicate` holds of two
    /// neighbouring characters.
    fn split_at_boundary<F: Fn(char, char) -> bool>(&self, predicate: F) -> (r: Vec<String>)
        requires
            forall|a: char, b: char| #[trigger] call_requires(predicate, (a, b)),
        ensures
            exists|cuts: Seq<bool>|
                {
                    &&& cuts.len() == self.characters().len()
                    &&& forall|i: int|
                        0 < i < cuts.len() ==> #[trigger] call_ensures(
                            predicate,
                            (self.characters()[i - 1], self.characters()[i]),
                            cuts[i],
                        )
                    &&& string_views(r@) == #[trigger] divided(self.characters(), cuts)
                },
    ;

    /// The parts of the text, divided between a lower case and an upper case
    /// character.
    fn split_at_case(&self) -> (r: Vec<String>)
        ensures
            string_views(r@) == divided(self.characters(), case_cuts(self.characters())),
    ;
}

impl SplitAtBoundary for str {
    open spec fn characters(&self) -> Seq<char> {
        self@
    }

    fn split_at_boundary<F: Fn(char, char) -> bool>(&self, predicate: F) -> (r: Vec<String>) {
        let s = chars_of(self);
        let mut cuts: Vec<bool> = Vec::new();
        let mut i: usize = 0;
        while i < s.len()
            invariant
                0 <= i <= s@.len(),
                s@ == self@,
                cuts@.len() == i,
                forall|a: char, b: char| #[trigger] call_requires(predicate, (a, b)),
                forall|k: int|
                    0 < k < i ==> #[trigger] call_ensures(predicate, (s@[k - 1], s@[k]), cuts@[k]),
            decreases s@.len() - i,
        {
            let cut: bool = if i == 0 {
                false
            } else {
                predicate(s[i - 1], s[i])
            };
            cuts.push(cut);
            i += 1;
        }
        let parts = divide(s.as_slice(), &cuts);
        let r = strings_of(&parts);
        assert(string_views(r@) == divided(self.characters(), cuts@));
        r
    }

    fn split_at_case(&self) -> (r: Vec<String>) {
        let s = chars_of(self);
        let mut cuts: Vec<bool> = Vec::new();
        let mut i: usize = 0;
        while i < s.len()
            invariant
                0 <= i <= s@.len(),
                cuts@.len() == i,
                forall|k: int| 0 <= k < i ==> cuts@[k] == case_cuts(s@)[k],
            decreases s@.len() - i,
        {
            let cut: bool = i > 0 && is_lowercase(s[i - 1]) && is_uppercase(s[i]);
            cuts.push(cut);
            i += 1;
        }
        assert(cuts@ =~= case_cuts(s@));
        let parts = divide(s.as_slice(), &cuts);
        strings_of(&parts)
    }
}

/// The parts of a divided text, one after the other, are the text.
pub proof fn parts_make_up_the_text(s: Seq<char>, cuts: Seq<bool>)
    requires
        cuts.len() == s.len(),
    ensures
        join_texts(divided(s, cuts), Seq::empty()) == s,
    decreases s.len(),
{
    let none = Seq::<char>::empty();
    if s.len() == 0 {
        assert(s =~= none);
    } else if s.len() > 1 {
        let front = divided(s.drop_last(), cuts.drop_last());
        lemma_divided_not_empty(s.drop_last(), cuts.drop_last());
        parts_make_up_the_text(s.drop_last(), cuts.drop_last());
        let all = divided(s, cuts);
        assert(s =~= s.drop_last().push(s.last()));
        if cuts.last() {
            assert(all.drop_last() =~= front);
            assert(join_texts(front, none) + none + seq![s.last()] =~= s);
        } else {
            assert(all.drop_last() =~= front.drop_last());
            assert(all.last() =~= front.last().push(s.last()));
            if front.len() == 1 {
                assert(all.len() == 1);
                assert(all[0] == all.last());
                assert(front[0] == front.last());
            } else {
                assert(join_texts(front.drop_last(), none) + none + front.last().push(s.last())
                    =~= (join_texts(front.drop_last(), none) + none + front.last()).push(s.last()));
            }
        }
    }
}

/// One entry of a list in the query part of an address.
pub open spec fn url_entry(name: Seq<char>, i: int, item: Seq<char>) -> Seq<char> {
    name + "["@ + decimal_text(i as nat) + "]="@ + item
}

/// A list in the query part of an address.
pub open spec fn url_array(name: Seq<char>, items: Seq<Seq<char>>) -> Seq<char> {
    join_texts(Seq::new(items.len(), |i: int| url_entry(name, i, items[i])), "&"@)
}

/// Lists that can stand in the query part of an address.
pub trait URLArrayListable {
    spec fn items(&self) -> Seq<Seq<char>>;

    fn into_url_array(&self, name: &str) -> (r: String)
        ensures
            r@ == url_array(name@, self.items()),
    ;
}

impl URLArrayListable for Vec<String> {
    open spec fn items(&self) -> Seq<Seq<char>> {
        string_views(self@)
    }

    fn into_url_array(&self, name: &str) -> (r: String) {
        let mut entries: Vec<Vec<char>> = Vec::new();
        let ghost all = Seq::new(
            self@.len(),
            |i: int| url_entry(name@, i, string_views(self@)[i]),
        );
        let mut i: usize = 0;
        while i < self.len()
            invariant
                0 <= i <= self@.len(),
                all == Seq::new(
                    self@.len(),
                    |i: int| url_entry(name@, i, string_views(self@)[i]),
                ),
                texts(entries@) == all.take(i as int),
            decreases self@.len() - i,
        {
            let mut entry = chars_of(name);
            let open = chars_of("[");
            let digits = decimal_chars(i as u64);
            let close = chars_of("]=");
            let item = chars_of(self[i].as_str());
            push_chars(&mut entry, open.as_slice());
            push_chars(&mut entry, digits.as_slice());
            push_chars(&mut entry, close.as_slice());
            push_chars(&mut entry, item.as_slice());
            let ghost text = entry@;
            let ghost before = texts(entries@);
            entries.push(entry);
            proof {
                assert(text == all[i as int]);
                assert(texts(entries@) =~= before.push(text));
                assert(all.take(i + 1) =~= all.take(i as int).push(text));
            }
            i += 1;
        }
        assert(all.take(i as int) =~= all);
        let separator = chars_of("&");
        let joined = join_chars(&entries, separator.as_slice());
        assert(self.items().len() == self@.len());
        assert(Seq::new(self.items().len(), |i: int| url_entry(name@, i, self.items()[i])) =~= all);
        string_of(joined.as_slice())
    }
}

/// Where a text is cut off that takes more than `max` bytes, by position: two
/// characters are kept at a time for as long as the first of them begins before
/// `max`.
pub open spec fn cut_from(s: Seq<char>, max: nat, at: int) -> int
    decreases s.len() + 2 - at,
{
    if at >= s.len() {
        0
    } else if byte_len(s.take(at)) < max {
        cut_from(s, max, at + 2)
    } else {
        at
    }
}

/// A text cut off to about `max` bytes, where it takes more.
pub open spec fn truncated_text(s: Seq<char>, max: nat) -> Seq<char> {
    if byte_len(s) > max {
        s.take(cut_from(s, max, 0))
    } else {
        s
    }
}

/// A cut off text with three dots behind it.
pub open spec fn truncated_overflow_text(s: Seq<char>, max: nat) -> Seq<char> {
    if byte_len(s) > max {
        s.take(cut_from(s, max, 0)) + "..."@
    } else {
        s
    }
}

fn width_of(c: char) -> (r: usize)
    ensures
        r == crate::markup::char_width(c),
        1 <= r <= 4,
{
    let n: u32 = c as u32;
    if n < 0x80 {
        1
    } else if n < 0x800 {
        2
    } else if n < 0x10000 {
        3
    } else {
        4
    }
}

/// Whether the first `end` characters take more than `max` bytes.
fn exceeds(s: &[char], end: usize, max: usize) -> (r: bool)
    requires
        end <= s@.len(),
    ensures
        r == (byte_len(s@.take(end as int)) > max),
{
    let mut sum: usize = 0;
    let mut i: usize = 0;
    assert(s@.take(0) =~= Seq::empty());
    while i < end
        invariant
            0 <= i <= end <= s@.len(),
            sum == byte_len(s@.take(i as int)),
            sum <= max,
        decreases end - i,
    {
        let w = width_of(s[i]);
        proof {
            assert(s@.take(i + 1).drop_last() =~= s@.take(i as int));
            lemma_byte_len_grows(s@, i + 1, end as int);
        }
        if w > max - sum {
            return true;
        }
        sum += w;
        i += 1;
    }
    false
}

proof fn lemma_byte_len_grows(s: Seq<char>, i: int, j: int)
    requires
        0 <= i <= j <= s.len(),
    ensures
        byte_len(s.take(i)) <= byte_len(s.take(j)),
    decreases j - i,
{
    if i < j {
        lemma_byte_len_grows(s, i, j - 1);
        assert(s.take(j).drop_last() =~= s.take(j - 1));
    }
}

fn find_cut(s: &[char], max: usize) -> (r: usize)
    ensures
        r == cut_from(s@, max as nat, 0),
        r <= s@.len(),
{
    let total: usize = s.len();
    let mut at: usize = 0;
    while at < total
        invariant
            total == s@.len(),
            cut_from(s@, max as nat, 0) == cut_from(s@, max as nat, at as int),
        decreases total - at,
    {
        if max == 0 || exceeds(s, at, max - 1) {
            return at;
        }
        if total - at < 2 {
            assert(cut_from(s@, max as nat, at + 2) == 0);
            return 0;
        }
        at += 2;
    }
    0
}

/// Texts that can be cut off.
pub trait Truncatable {
    spec fn whole(&self) -> Seq<char>;

    fn truncated(&self, max: usize) -> (r: String)
        ensures
            r@ == truncated_text(self.whole(), max as nat),
    ;

    fn truncated_overflow(&self, max: usize) -> (r: String)
        ensures
            r@ == truncated_overflow_text(self.whole(), max as nat),
    ;
}

impl Truncatable for str {
    open spec fn whole(&self) -> Seq<char> {
        self@
    }

    fn truncated(&self, max: usize) -> (r: String) {
        let s = chars_of(self);
        let total: usize = s.len();
        assert(s@.take(total as int) =~= s@);
        if exceeds(s.as_slice(), total, max) {
            let cut = find_cut(s.as_slice(), max);
            let kept = sub_chars(s.as_slice(), 0, cut);
            assert(kept@ =~= s@.take(cut as int));
            string_of(kept.as_slice())
        } else {
            string_of(s.as_slice())
        }
    }

    fn truncated_overflow(&self, max: usize) -> (r: String) {
        let s = chars_of(self);
        let total: usize = s.len();
        assert(s@.take(total as int) =~= s@);
        if exceeds(s.as_slice(), total, max) {
            let cut = find_cut(s.as_slice(), max);
            let mut kept = sub_chars(s.as_slice(), 0, cut);
            assert(kept@ =~= s@.take(cut as int));
            let dots = chars_of("...");
            push_chars(&mut kept, dots.as_slice());
            string_of(kept.as_slice())
        } else {
            string_of(s.as_slice())
        }
    }
}

} // verus!
