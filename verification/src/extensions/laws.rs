//! What holds of texts that were divided, cut and listed.
use vstd::prelude::*;

#[allow(unused_imports)]
use super::{
    case_cuts, cut_from, divided, lemma_divided_not_empty, lowercase_char, truncated_overflow_text,
    truncated_text, uppercase_char, url_array, url_entry,
};
#[allow(unused_imports)]
use crate::markup::{byte_len, char_width};
#[allow(unused_imports)]
use crate::numbers::decimal_text;
#[allow(unused_imports)]
use crate::text::laws::{holds_text, joined_texts_hold_their_parts};

verus! {

/// Where a part begins in the text that was divided.
pub open spec fn start_of(parts: Seq<Seq<char>>, k: int) -> int
    decreases k,
{
    if k <= 0 || k > parts.len() {
        0
    } else {
        start_of(parts, k - 1) + parts[k - 1].len()
    }
}

proof fn lemma_start_of(some: Seq<Seq<char>>, more: Seq<Seq<char>>, k: int)
    requires
        0 <= k <= some.len(),
        k <= more.len(),
        forall|i: int| 0 <= i < k ==> some[i] == more[i],
    ensures
        start_of(some, k) == start_of(more, k),
    decreases k,
{
    if k > 0 {
        lemma_start_of(some, more, k - 1);
    }
}

/// Whether a part is a piece of a text that is not empty, has no cut inside and, unless it is the
/// first, begins at a cut.
pub open spec fn is_part(
    s: Seq<char>,
    cuts: Seq<bool>,
    part: Seq<char>,
    at: int,
    is_first: bool,
) -> bool {
    &&& 0 < part.len()
    &&& 0 <= at && at + part.len() <= s.len()
    &&& part == s.subrange(at, at + part.len())
    &&& !is_first ==> cuts[at]
    &&& forall|i: int| at < i < at + part.len() ==> !#[trigger] cuts[i]
}

proof fn lemma_part_of_more(
    s: Seq<char>,
    cuts: Seq<bool>,
    part: Seq<char>,
    at: int,
    is_first: bool,
)
    requires
        cuts.len() == s.len(),
        s.len() > 0,
        is_part(s.drop_last(), cuts.drop_last(), part, at, is_first),
    ensures
        is_part(s, cuts, part, at, is_first),
        at + part.len() == s.len() - 1 && !cuts.last() ==> is_part(
            s,
            cuts,
            part.push(s.last()),
            at,
            is_first,
        ),
{
    let t = s.drop_last();
    let c = cuts.drop_last();
    let end = at + part.len();
    assert(c[at] == cuts[at]);
    assert(s.subrange(at, end) =~= t.subrange(at, end));
    assert forall|i: int| at < i < end implies !#[trigger] cuts[i] by {
        assert(c[i] == cuts[i]);
    }
    if end == s.len() - 1 {
        assert(s.subrange(at, end + 1) =~= part.push(s.last()));
    }
}

/// A text is divided exactly at its cuts, and the parts follow one another to its end.
pub proof fn texts_are_divided_at_their_cuts(s: Seq<char>, cuts: Seq<bool>)
    requires
        cuts.len() == s.len(),
    ensures
        ({
            let parts = divided(s, cuts);
            &&& start_of(parts, parts.len() as int) == s.len()
            &&& forall|k: int|
                0 <= k < parts.len() ==> is_part(
                    s,
                    cuts,
                    #[trigger] parts[k],
                    start_of(parts, k),
                    k == 0,
                )
        }),
    decreases s.len(),
{
    let parts = divided(s, cuts);
    if s.len() == 1 {
        assert(parts =~= seq![s]);
        assert(start_of(parts, 1) == start_of(parts, 0) + parts[0].len());
        assert(s.subrange(0, 1) =~= s);
    } else if s.len() > 1 {
        let t = s.drop_last();
        let c = cuts.drop_last();
        texts_are_divided_at_their_cuts(t, c);
        let front = divided(t, c);
        lemma_divided_not_empty(t, c);
        let m = front.len() as int;
        if cuts.last() {
            assert(parts =~= front.push(seq![s.last()]));
            lemma_start_of(front, parts, m);
            assert(start_of(parts, m + 1) == start_of(parts, m) + parts[m].len());
        } else {
            assert(parts =~= front.drop_last().push(front.last().push(s.last())));
            lemma_start_of(front, parts, m - 1);
            assert(start_of(parts, m) == start_of(parts, m - 1) + parts[m - 1].len());
            assert(start_of(front, m) == start_of(front, m - 1) + front[m - 1].len());
        }
        assert forall|k: int| 0 <= k < parts.len() implies is_part(
            s,
            cuts,
            #[trigger] parts[k],
            start_of(parts, k),
            k == 0,
        ) by {
            let at = start_of(parts, k);
            if k < m {
                lemma_start_of(front, parts, k);
                lemma_part_of_more(s, cuts, front[k], at, k == 0);
            } else {
                assert(parts[k] =~= s.subrange(at, at + 1));
            }
        }
    }
}

proof fn lemma_word(s: Seq<char>, part: Seq<char>, at: int, is_first: bool, i: int)
    requires
        is_part(s, case_cuts(s), part, at, is_first),
    ensures
        !is_first ==> 0 < at < s.len() && lowercase_char(s[at - 1]) && uppercase_char(part[0]),
        0 < i < part.len() ==> !(lowercase_char(part[i - 1]) && uppercase_char(part[i])),
{
    let cuts = case_cuts(s);
    assert(part[0] == s[at]);
    if 0 < i < part.len() {
        assert(!cuts[at + i]);
        assert(part[i] == s[at + i] && part[i - 1] == s[at + i - 1]);
    }
}

/// A text is divided between a lower case and an upper case character, and nowhere else.
pub proof fn words_begin_in_upper_case(s: Seq<char>, k: int, i: int)
    requires
        0 <= k < divided(s, case_cuts(s)).len(),
    ensures
        ({
            let part = divided(s, case_cuts(s))[k];
            let at = start_of(divided(s, case_cuts(s)), k);
            &&& k > 0 ==> 0 < at < s.len() && lowercase_char(s[at - 1]) && uppercase_char(part[0])
            &&& 0 < i < part.len() ==> !(lowercase_char(part[i - 1]) && uppercase_char(part[i]))
        }),
{
    let cuts = case_cuts(s);
    let parts = divided(s, cuts);
    let part = parts[k];
    let at = start_of(parts, k);
    assert(is_part(s, cuts, part, at, k == 0)) by {
        texts_are_divided_at_their_cuts(s, cuts);
    }
    lemma_word(s, part, at, k == 0, i);
}

proof fn lemma_cut(s: Seq<char>, max: nat, at: int)
    requires
        0 <= at,
        at >= 2 ==> at - 2 < s.len() && byte_len(s.take(at - 2)) < max,
    ensures
        ({
            let cut = cut_from(s, max, at);
            &&& 0 <= cut <= s.len()
            &&& cut > 0 ==> cut < s.len() && byte_len(s.take(cut)) >= max
            &&& cut >= 2 ==> byte_len(s.take(cut)) < max + 8
            &&& at % 2 == 0 ==> cut % 2 == 0
            &&& cut >= at || cut == 0
            &&& at % 2 == 0 ==> forall|i: int|
                at <= i < cut && i % 2 == 0 ==> byte_len(#[trigger] s.take(i)) < max
        }),
    decreases s.len() + 2 - at,
{
    if at < s.len() {
        if byte_len(s.take(at)) < max {
            lemma_cut(s, max, at + 2);
        } else if at >= 2 {
            let cut = s.take(at);
            let one_less = s.take(at - 1);
            assert(cut.drop_last() =~= one_less);
            assert(one_less.drop_last() =~= s.take(at - 2));
            assert(byte_len(one_less) == byte_len(s.take(at - 2)) + char_width(one_less.last()));
            assert(byte_len(cut) == byte_len(one_less) + char_width(cut.last()));
        }
    }
}

/// A text that is short enough is not cut. One that was cut begins as it did, and ends behind the
/// first pair of characters with which it is as long as was allowed, or is empty. Three dots then
/// stand behind it where they were asked for.
pub proof fn texts_are_cut_where_allowed(s: Seq<char>, max: nat)
    ensures
        ({
            let r = truncated_text(s, max);
            let fits = byte_len(s) <= max;
            &&& fits ==> r == s
            &&& r.len() <= s.len()
            &&& r == s.take(r.len() as int)
            &&& !fits && r.len() > 0 ==> byte_len(r) >= max && r.len() < s.len()
            &&& !fits ==> r.len() % 2 == 0 && byte_len(r) < max + 8
            &&& !fits ==> forall|i: int|
                0 <= i < r.len() && i % 2 == 0 ==> byte_len(#[trigger] s.take(i)) < max
            &&& truncated_overflow_text(s, max) == if fits {
                s
            } else {
                r + "..."@
            }
        }),
{
    lemma_cut(s, max, 0);
    assert(s.take(s.len() as int) =~= s);
}

/// A list in an address holds each item of the list, under its place.
pub proof fn addresses_hold_every_item(name: Seq<char>, items: Seq<Seq<char>>, i: int)
    requires
        0 <= i < items.len(),
    ensures
        holds_text(
            url_array(name, items),
            name + "["@ + decimal_text(i as nat) + "]="@ + items[i],
        ),
{
    let entries = Seq::new(items.len(), |i: int| url_entry(name, i, items[i]));
    joined_texts_hold_their_parts(entries, "&"@, i);
}

} // verus!
