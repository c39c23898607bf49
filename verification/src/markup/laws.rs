//! What becomes of the tags in a description.
use vstd::prelude::*;

#[allow(unused_imports)]
use super::{
    around, first_line, header_close, header_signs, headers_are_converted, is_plain, lemma_no_bracket_no_tag, lemma_tag_is_first,
    lemma_tag_lengths, line_gap, markdown, match_of, pair_of, styled_line, styled_lines,
    substituted, text_without_tags_is_unchanged, LineStyle,
};
#[allow(unused_imports)]
use crate::numbers::decimal_text;
#[allow(unused_imports)]
use crate::text::laws::lemma_join_front;
#[allow(unused_imports)]
use crate::text::{
    contains_seq, find_from, join_texts, lemma_find_from, lemma_find_is_first, lines_of,
    occurs_at, replace_all, replace_first, strip_return,
};

verus! {

/// Whether what follows each bracket of a text is not what follows the bracket of a tag.
spec fn differs(s: Seq<char>, tag: Seq<char>) -> bool {
    forall|i: int|
        0 <= i && i + tag.len() <= s.len() && #[trigger] s[i] == '[' ==> s[i + 1] != tag[1] || (
        tag.len() > 2 && s[i + 2] != tag[2]) || (tag.len() > 3 && s[i + 3] != tag[3])
}

proof fn lemma_absent(s: Seq<char>, tag: Seq<char>, by: Seq<char>)
    requires
        tag.len() >= 2,
        tag[0] == '[',
        differs(s, tag),
    ensures
        find_from(s, tag, 0) is None,
        replace_all(s, tag, by) == s,
{
    lemma_find_from(s, tag, 0);
    if let Some(i) = find_from(s, tag, 0) {
        let found = s.subrange(i, i + tag.len());
        assert(found[0] == s[i]);
        assert(found[1] == s[i + 1]);
        if tag.len() > 2 {
            assert(found[2] == s[i + 2]);
        }
        if tag.len() > 3 {
            assert(found[3] == s[i + 3]);
        }
    }
}

/// A tag behind a text without brackets is replaced, and what follows is seen to apart.
proof fn lemma_swapped(front: Seq<char>, tag: Seq<char>, back: Seq<char>, by: Seq<char>)
    requires
        is_plain(front),
        tag.len() >= 2,
        tag[0] == '[',
    ensures
        replace_all(front + tag + back, tag, by) == front + by + replace_all(back, tag, by),
{
    let s = front + tag + back;
    let l = front.len() as int;
    assert(s.subrange(l, l + tag.len()) =~= tag);
    assert forall|j: int| 0 <= j < l implies !occurs_at(s, tag, j) by {
        if occurs_at(s, tag, j) {
            assert(s.subrange(j, j + tag.len())[0] == s[j]);
            assert(s[j] == front[j]);
        }
    }
    lemma_find_is_first(s, tag, 0, l);
    assert(s.subrange(0, l) =~= front);
    assert(s.skip(l + tag.len()) =~= back);
}

/// The brackets of a text that holds two tags and nothing else with brackets.
proof fn lemma_two_brackets(
    front: Seq<char>,
    open: Seq<char>,
    inner: Seq<char>,
    close: Seq<char>,
    back: Seq<char>,
)
    requires
        is_plain(front),
        is_plain(inner),
        is_plain(back),
        open.len() >= 3,
        close.len() >= 3,
        forall|k: int| 0 < k < open.len() ==> open[k] != '[',
        forall|k: int| 0 < k < close.len() ==> close[k] != '[',
    ensures
        ({
            let s = front + open + inner + close + back;
            let l = front.len() as int;
            let r = l + open.len() + inner.len();
            &&& forall|i: int| 0 <= i < s.len() && #[trigger] s[i] == '[' ==> i == l || i == r
            &&& s[l + 1] == open[1] && s[l + 2] == open[2]
            &&& s[r + 1] == close[1] && s[r + 2] == close[2]
        }),
{
    let s = front + open + inner + close + back;
    let l = front.len() as int;
    let r = l + open.len() + inner.len();
    assert forall|i: int| 0 <= i < s.len() && #[trigger] s[i] == '[' implies i == l || i == r by {
        if i < l {
            assert(s[i] == front[i]);
        } else if l < i < l + open.len() {
            assert(s[i] == open[i - l]);
        } else if l + open.len() <= i < r {
            assert(s[i] == inner[i - l - open.len()]);
        } else if r < i < r + close.len() {
            assert(s[i] == close[i - r]);
        } else if r + close.len() <= i {
            assert(s[i] == back[i - r - close.len()]);
        }
    }
}

/// The marks that stand around a text of a style, and what Markdown has for them.
pub open spec fn is_style(open: Seq<char>, close: Seq<char>, by: Seq<char>) -> bool {
    ||| open == "[b]"@ && close == "[/b]"@ && by == "**"@
    ||| open == "[u]"@ && close == "[/u]"@ && by == "__"@
    ||| open == "[i]"@ && close == "[/i]"@ && by == "*"@
    ||| open == "[strike]"@ && close == "[/strike]"@ && by == "~~"@
    ||| open == "[spoiler]"@ && close == "[/spoiler]"@ && by == "||"@
}

proof fn lemma_no_blocks(s: Seq<char>)
    requires
        differs(s, "[noparse]"@),
        differs(s, "[code]"@),
        differs(s, "[hr]"@),
        differs(s, "[url"@),
        differs(s, "[quote]"@),
        differs(s, "[quote"@),
        differs(s, "[list]"@),
        differs(s, "[olist]"@),
        differs(s, "[h"@),
    ensures
        markdown(s) == Some(substituted(s)),
{
    lemma_tag_lengths();
    reveal_strlit("[noparse]");
    reveal_strlit("[code]");
    reveal_strlit("[hr]");
    reveal_strlit("[url");
    reveal_strlit("[quote]");
    reveal_strlit("[quote");
    reveal_strlit("[list]");
    reveal_strlit("[olist]");
    reveal_strlit("[h");
    lemma_absent(s, "[noparse]"@, s);
    lemma_absent(s, "[code]"@, s);
    lemma_absent(s, "[hr]"@, s);
    lemma_absent(s, "[url"@, s);
    lemma_absent(s, "[quote]"@, s);
    lemma_absent(s, "[quote"@, s);
    lemma_absent(s, "[list]"@, s);
    lemma_absent(s, "[olist]"@, s);
    lemma_absent(s, "[h"@, s);
}

#[verifier::spinoff_prover]
#[verifier::rlimit(60)]
proof fn lemma_style_bold(front: Seq<char>, inner: Seq<char>, back: Seq<char>)
    requires
        is_plain(front),
        is_plain(inner),
        is_plain(back),
    ensures
        markdown(front + "[b]"@ + inner + "[/b]"@ + back) == Some(
            front + "**"@ + inner + "**"@ + back,
        ),
{
    reveal_strlit("[noparse]");
    reveal_strlit("[code]");
    reveal_strlit("[hr]");
    reveal_strlit("[url");
    reveal_strlit("[quote]");
    reveal_strlit("[quote");
    reveal_strlit("[list]");
    reveal_strlit("[olist]");
    reveal_strlit("[h");
    reveal_strlit("[*]");
    reveal_strlit("[b]");
    reveal_strlit("[/b]");
    reveal_strlit("[u]");
    reveal_strlit("[/u]");
    reveal_strlit("[i]");
    reveal_strlit("[/i]");
    reveal_strlit("[strike]");
    reveal_strlit("[/strike]");
    reveal_strlit("[spoiler]");
    reveal_strlit("[/spoiler]");
    reveal_strlit("**");
    let by = "**"@;
    let open = "[b]"@;
    let close = "[/b]"@;
    let s = front + open + inner + close + back;
    lemma_two_brackets(front, open, inner, close, back);
    assert(s[(front.len() + open.len() + inner.len()) as int + 2] == close[2]);
    assert(s[(front.len() + open.len() + inner.len()) as int + 3] == close[3]);
    lemma_no_blocks(s);
    let ahead = front + by + inner;
    let t = ahead + close + back;
    let u = ahead + by + back;
    assert(is_plain(ahead)) by {
        assert forall|i: int| 0 <= i < ahead.len() implies ahead[i] != '[' && ahead[i] != ']' by {
            if i < front.len() {
                assert(ahead[i] == front[i]);
            } else if i < front.len() + by.len() {
                assert(ahead[i] == by[i - front.len()]);
            } else {
                assert(ahead[i] == inner[i - front.len() - by.len()]);
            }
        }
    }
    assert(is_plain(u)) by {
        assert forall|i: int| 0 <= i < u.len() implies u[i] != '[' && u[i] != ']' by {
            if i < ahead.len() {
                assert(u[i] == ahead[i]);
            } else if i < ahead.len() + by.len() {
                assert(u[i] == by[i - ahead.len()]);
            } else {
                assert(u[i] == back[i - ahead.len() - by.len()]);
            }
        }
    }
    let rest = inner + close + back;
    assert forall|i: int| 0 <= i < rest.len() && #[trigger] rest[i] == '[' implies i
        == inner.len() by {
        assert(rest[i] == s[front.len() + open.len() + i]);
    }
    assert(rest[inner.len() as int + 1] == '/');
    assert forall|i: int| 0 <= i < t.len() && #[trigger] t[i] == '[' implies i == ahead.len() by {
        if i < ahead.len() {
            assert(t[i] == ahead[i]);
        } else {
            assert(t[i] == rest[i - ahead.len() + inner.len()]);
        }
    }
    assert(t[ahead.len() as int + 1] == close[1] && t[ahead.len() as int + 2] == close[2]);
    lemma_absent(rest, open, by);
    assert(s =~= front + open + rest);
    lemma_swapped(front, open, rest, by);
    assert(front + by + rest =~= t);
    lemma_swapped(ahead, close, back, by);
    lemma_no_bracket_no_tag(back, close, 0, by);
    lemma_absent(s, "[*]"@, " - "@);
    lemma_no_bracket_no_tag(u, "[u]"@, 0, "__"@);
    lemma_no_bracket_no_tag(u, "[/u]"@, 0, "__"@);
    lemma_no_bracket_no_tag(u, "[i]"@, 0, "*"@);
    lemma_no_bracket_no_tag(u, "[/i]"@, 0, "*"@);
    lemma_no_bracket_no_tag(u, "[strike]"@, 0, "~~"@);
    lemma_no_bracket_no_tag(u, "[/strike]"@, 0, "~~"@);
    lemma_no_bracket_no_tag(u, "[spoiler]"@, 0, "||"@);
    lemma_no_bracket_no_tag(u, "[/spoiler]"@, 0, "||"@);
    assert(u =~= front + by + inner + by + back);
}

#[verifier::spinoff_prover]
#[verifier::rlimit(60)]
proof fn lemma_style_underlined(front: Seq<char>, inner: Seq<char>, back: Seq<char>)
    requires
        is_plain(front),
        is_plain(inner),
        is_plain(back),
    ensures
        markdown(front + "[u]"@ + inner + "[/u]"@ + back) == Some(
            front + "__"@ + inner + "__"@ + back,
        ),
{
    reveal_strlit("[noparse]");
    reveal_strlit("[code]");
    reveal_strlit("[hr]");
    reveal_strlit("[url");
    reveal_strlit("[quote]");
    reveal_strlit("[quote");
    reveal_strlit("[list]");
    reveal_strlit("[olist]");
    reveal_strlit("[h");
    reveal_strlit("[*]");
    reveal_strlit("[b]");
    reveal_strlit("[/b]");
    reveal_strlit("[u]");
    reveal_strlit("[/u]");
    reveal_strlit("[i]");
    reveal_strlit("[/i]");
    reveal_strlit("[strike]");
    reveal_strlit("[/strike]");
    reveal_strlit("[spoiler]");
    reveal_strlit("[/spoiler]");
    reveal_strlit("__");
    let by = "__"@;
    let open = "[u]"@;
    let close = "[/u]"@;
    let s = front + open + inner + close + back;
    lemma_two_brackets(front, open, inner, close, back);
    assert(s[(front.len() + open.len() + inner.len()) as int + 2] == close[2]);
    assert(s[(front.len() + open.len() + inner.len()) as int + 3] == close[3]);
    lemma_no_blocks(s);
    let ahead = front + by + inner;
    let t = ahead + close + back;
    let u = ahead + by + back;
    assert(is_plain(ahead)) by {
        assert forall|i: int| 0 <= i < ahead.len() implies ahead[i] != '[' && ahead[i] != ']' by {
            if i < front.len() {
                assert(ahead[i] == front[i]);
            } else if i < front.len() + by.len() {
                assert(ahead[i] == by[i - front.len()]);
            } else {
                assert(ahead[i] == inner[i - front.len() - by.len()]);
            }
        }
    }
    assert(is_plain(u)) by {
        assert forall|i: int| 0 <= i < u.len() implies u[i] != '[' && u[i] != ']' by {
            if i < ahead.len() {
                assert(u[i] == ahead[i]);
            } else if i < ahead.len() + by.len() {
                assert(u[i] == by[i - ahead.len()]);
            } else {
                assert(u[i] == back[i - ahead.len() - by.len()]);
            }
        }
    }
    let rest = inner + close + back;
    assert forall|i: int| 0 <= i < rest.len() && #[trigger] rest[i] == '[' implies i
        == inner.len() by {
        assert(rest[i] == s[front.len() + open.len() + i]);
    }
    assert(rest[inner.len() as int + 1] == '/');
    assert forall|i: int| 0 <= i < t.len() && #[trigger] t[i] == '[' implies i == ahead.len() by {
        if i < ahead.len() {
            assert(t[i] == ahead[i]);
        } else {
            assert(t[i] == rest[i - ahead.len() + inner.len()]);
        }
    }
    assert(t[ahead.len() as int + 1] == close[1] && t[ahead.len() as int + 2] == close[2]);
    lemma_absent(rest, open, by);
    assert(s =~= front + open + rest);
    lemma_swapped(front, open, rest, by);
    assert(front + by + rest =~= t);
    lemma_swapped(ahead, close, back, by);
    lemma_no_bracket_no_tag(back, close, 0, by);
    lemma_absent(s, "[*]"@, " - "@);
    lemma_absent(s, "[b]"@, "**"@);
    lemma_absent(s, "[/b]"@, "**"@);
    lemma_no_bracket_no_tag(u, "[i]"@, 0, "*"@);
    lemma_no_bracket_no_tag(u, "[/i]"@, 0, "*"@);
    lemma_no_bracket_no_tag(u, "[strike]"@, 0, "~~"@);
    lemma_no_bracket_no_tag(u, "[/strike]"@, 0, "~~"@);
    lemma_no_bracket_no_tag(u, "[spoiler]"@, 0, "||"@);
    lemma_no_bracket_no_tag(u, "[/spoiler]"@, 0, "||"@);
    assert(u =~= front + by + inner + by + back);
}

#[verifier::spinoff_prover]
#[verifier::rlimit(60)]
proof fn lemma_style_italic(front: Seq<char>, inner: Seq<char>, back: Seq<char>)
    requires
        is_plain(front),
        is_plain(inner),
        is_plain(back),
    ensures
        markdown(front + "[i]"@ + inner + "[/i]"@ + back) == Some(
            front + "*"@ + inner + "*"@ + back,
        ),
{
    reveal_strlit("[noparse]");
    reveal_strlit("[code]");
    reveal_strlit("[hr]");
    reveal_strlit("[url");
    reveal_strlit("[quote]");
    reveal_strlit("[quote");
    reveal_strlit("[list]");
    reveal_strlit("[olist]");
    reveal_strlit("[h");
    reveal_strlit("[*]");
    reveal_strlit("[b]");
    reveal_strlit("[/b]");
    reveal_strlit("[u]");
    reveal_strlit("[/u]");
    reveal_strlit("[i]");
    reveal_strlit("[/i]");
    reveal_strlit("[strike]");
    reveal_strlit("[/strike]");
    reveal_strlit("[spoiler]");
    reveal_strlit("[/spoiler]");
    reveal_strlit("*");
    let by = "*"@;
    let open = "[i]"@;
    let close = "[/i]"@;
    let s = front + open + inner + close + back;
    lemma_two_brackets(front, open, inner, close, back);
    assert(s[(front.len() + open.len() + inner.len()) as int + 2] == close[2]);
    assert(s[(front.len() + open.len() + inner.len()) as int + 3] == close[3]);
    lemma_no_blocks(s);
    let ahead = front + by + inner;
    let t = ahead + close + back;
    let u = ahead + by + back;
    assert(is_plain(ahead)) by {
        assert forall|i: int| 0 <= i < ahead.len() implies ahead[i] != '[' && ahead[i] != ']' by {
            if i < front.len() {
                assert(ahead[i] == front[i]);
            } else if i < front.len() + by.len() {
                assert(ahead[i] == by[i - front.len()]);
            } else {
                assert(ahead[i] == inner[i - front.len() - by.len()]);
            }
        }
    }
    assert(is_plain(u)) by {
        assert forall|i: int| 0 <= i < u.len() implies u[i] != '[' && u[i] != ']' by {
            if i < ahead.len() {
                assert(u[i] == ahead[i]);
            } else if i < ahead.len() + by.len() {
                assert(u[i] == by[i - ahead.len()]);
            } else {
                assert(u[i] == back[i - ahead.len() - by.len()]);
            }
        }
    }
    let rest = inner + close + back;
    assert forall|i: int| 0 <= i < rest.len() && #[trigger] rest[i] == '[' implies i
        == inner.len() by {
        assert(rest[i] == s[front.len() + open.len() + i]);
    }
    assert(rest[inner.len() as int + 1] == '/');
    assert forall|i: int| 0 <= i < t.len() && #[trigger] t[i] == '[' implies i == ahead.len() by {
        if i < ahead.len() {
            assert(t[i] == ahead[i]);
        } else {
            assert(t[i] == rest[i - ahead.len() + inner.len()]);
        }
    }
    assert(t[ahead.len() as int + 1] == close[1] && t[ahead.len() as int + 2] == close[2]);
    lemma_absent(rest, open, by);
    assert(s =~= front + open + rest);
    lemma_swapped(front, open, rest, by);
    assert(front + by + rest =~= t);
    lemma_swapped(ahead, close, back, by);
    lemma_no_bracket_no_tag(back, close, 0, by);
    lemma_absent(s, "[*]"@, " - "@);
    lemma_absent(s, "[b]"@, "**"@);
    lemma_absent(s, "[/b]"@, "**"@);
    lemma_absent(s, "[u]"@, "__"@);
    lemma_absent(s, "[/u]"@, "__"@);
    lemma_no_bracket_no_tag(u, "[strike]"@, 0, "~~"@);
    lemma_no_bracket_no_tag(u, "[/strike]"@, 0, "~~"@);
    lemma_no_bracket_no_tag(u, "[spoiler]"@, 0, "||"@);
    lemma_no_bracket_no_tag(u, "[/spoiler]"@, 0, "||"@);
    assert(u =~= front + by + inner + by + back);
}

#[verifier::spinoff_prover]
#[verifier::rlimit(60)]
proof fn lemma_style_struck(front: Seq<char>, inner: Seq<char>, back: Seq<char>)
    requires
        is_plain(front),
        is_plain(inner),
        is_plain(back),
    ensures
        markdown(front + "[strike]"@ + inner + "[/strike]"@ + back) == Some(
            front + "~~"@ + inner + "~~"@ + back,
        ),
{
    reveal_strlit("[noparse]");
    reveal_strlit("[code]");
    reveal_strlit("[hr]");
    reveal_strlit("[url");
    reveal_strlit("[quote]");
    reveal_strlit("[quote");
    reveal_strlit("[list]");
    reveal_strlit("[olist]");
    reveal_strlit("[h");
    reveal_strlit("[*]");
    reveal_strlit("[b]");
    reveal_strlit("[/b]");
    reveal_strlit("[u]");
    reveal_strlit("[/u]");
    reveal_strlit("[i]");
    reveal_strlit("[/i]");
    reveal_strlit("[strike]");
    reveal_strlit("[/strike]");
    reveal_strlit("[spoiler]");
    reveal_strlit("[/spoiler]");
    reveal_strlit("~~");
    let by = "~~"@;
    let open = "[strike]"@;
    let close = "[/strike]"@;
    let s = front + open + inner + close + back;
    lemma_two_brackets(front, open, inner, close, back);
    assert(s[(front.len() + open.len() + inner.len()) as int + 2] == close[2]);
    assert(s[(front.len() + open.len() + inner.len()) as int + 3] == close[3]);
    lemma_no_blocks(s);
    let ahead = front + by + inner;
    let t = ahead + close + back;
    let u = ahead + by + back;
    assert(is_plain(ahead)) by {
        assert forall|i: int| 0 <= i < ahead.len() implies ahead[i] != '[' && ahead[i] != ']' by {
            if i < front.len() {
                assert(ahead[i] == front[i]);
            } else if i < front.len() + by.len() {
                assert(ahead[i] == by[i - front.len()]);
            } else {
                assert(ahead[i] == inner[i - front.len() - by.len()]);
            }
        }
    }
    assert(is_plain(u)) by {
        assert forall|i: int| 0 <= i < u.len() implies u[i] != '[' && u[i] != ']' by {
            if i < ahead.len() {
                assert(u[i] == ahead[i]);
            } else if i < ahead.len() + by.len() {
                assert(u[i] == by[i - ahead.len()]);
            } else {
                assert(u[i] == back[i - ahead.len() - by.len()]);
            }
        }
    }
    let rest = inner + close + back;
    assert forall|i: int| 0 <= i < rest.len() && #[trigger] rest[i] == '[' implies i
        == inner.len() by {
        assert(rest[i] == s[front.len() + open.len() + i]);
    }
    assert(rest[inner.len() as int + 1] == '/');
    assert forall|i: int| 0 <= i < t.len() && #[trigger] t[i] == '[' implies i == ahead.len() by {
        if i < ahead.len() {
            assert(t[i] == ahead[i]);
        } else {
            assert(t[i] == rest[i - ahead.len() + inner.len()]);
        }
    }
    assert(t[ahead.len() as int + 1] == close[1] && t[ahead.len() as int + 2] == close[2]);
    lemma_absent(rest, open, by);
    assert(s =~= front + open + rest);
    lemma_swapped(front, open, rest, by);
    assert(front + by + rest =~= t);
    lemma_swapped(ahead, close, back, by);
    lemma_no_bracket_no_tag(back, close, 0, by);
    lemma_absent(s, "[*]"@, " - "@);
    lemma_absent(s, "[b]"@, "**"@);
    lemma_absent(s, "[/b]"@, "**"@);
    lemma_absent(s, "[u]"@, "__"@);
    lemma_absent(s, "[/u]"@, "__"@);
    lemma_absent(s, "[i]"@, "*"@);
    lemma_absent(s, "[/i]"@, "*"@);
    lemma_no_bracket_no_tag(u, "[spoiler]"@, 0, "||"@);
    lemma_no_bracket_no_tag(u, "[/spoiler]"@, 0, "||"@);
    assert(u =~= front + by + inner + by + back);
}

#[verifier::spinoff_prover]
#[verifier::rlimit(60)]
proof fn lemma_style_hidden(front: Seq<char>, inner: Seq<char>, back: Seq<char>)
    requires
        is_plain(front),
        is_plain(inner),
        is_plain(back),
    ensures
        markdown(front + "[spoiler]"@ + inner + "[/spoiler]"@ + back) == Some(
            front + "||"@ + inner + "||"@ + back,
        ),
{
    reveal_strlit("[noparse]");
    reveal_strlit("[code]");
    reveal_strlit("[hr]");
    reveal_strlit("[url");
    reveal_strlit("[quote]");
    reveal_strlit("[quote");
    reveal_strlit("[list]");
    reveal_strlit("[olist]");
    reveal_strlit("[h");
    reveal_strlit("[*]");
    reveal_strlit("[b]");
    reveal_strlit("[/b]");
    reveal_strlit("[u]");
    reveal_strlit("[/u]");
    reveal_strlit("[i]");
    reveal_strlit("[/i]");
    reveal_strlit("[strike]");
    reveal_strlit("[/strike]");
    reveal_strlit("[spoiler]");
    reveal_strlit("[/spoiler]");
    reveal_strlit("||");
    let by = "||"@;
    let open = "[spoiler]"@;
    let close = "[/spoiler]"@;
    let s = front + open + inner + close + back;
    lemma_two_brackets(front, open, inner, close, back);
    assert(s[(front.len() + open.len() + inner.len()) as int + 2] == close[2]);
    assert(s[(front.len() + open.len() + inner.len()) as int + 3] == close[3]);
    lemma_no_blocks(s);
    let ahead = front + by + inner;
    let t = ahead + close + back;
    let u = ahead + by + back;
    assert(is_plain(ahead)) by {
        assert forall|i: int| 0 <= i < ahead.len() implies ahead[i] != '[' && ahead[i] != ']' by {
            if i < front.len() {
                assert(ahead[i] == front[i]);
            } else if i < front.len() + by.len() {
                assert(ahead[i] == by[i - front.len()]);
            } else {
                assert(ahead[i] == inner[i - front.len() - by.len()]);
            }
        }
    }
    assert(is_plain(u)) by {
        assert forall|i: int| 0 <= i < u.len() implies u[i] != '[' && u[i] != ']' by {
            if i < ahead.len() {
                assert(u[i] == ahead[i]);
            } else if i < ahead.len() + by.len() {
                assert(u[i] == by[i - ahead.len()]);
            } else {
                assert(u[i] == back[i - ahead.len() - by.len()]);
            }
        }
    }
    let rest = inner + close + back;
    assert forall|i: int| 0 <= i < rest.len() && #[trigger] rest[i] == '[' implies i
        == inner.len() by {
        assert(rest[i] == s[front.len() + open.len() + i]);
    }
    assert(rest[inner.len() as int + 1] == '/');
    assert forall|i: int| 0 <= i < t.len() && #[trigger] t[i] == '[' implies i == ahead.len() by {
        if i < ahead.len() {
            assert(t[i] == ahead[i]);
        } else {
            assert(t[i] == rest[i - ahead.len() + inner.len()]);
        }
    }
    assert(t[ahead.len() as int + 1] == close[1] && t[ahead.len() as int + 2] == close[2]);
    lemma_absent(rest, open, by);
    assert(s =~= front + open + rest);
    lemma_swapped(front, open, rest, by);
    assert(front + by + rest =~= t);
    lemma_swapped(ahead, close, back, by);
    lemma_no_bracket_no_tag(back, close, 0, by);
    lemma_absent(s, "[*]"@, " - "@);
    lemma_absent(s, "[b]"@, "**"@);
    lemma_absent(s, "[/b]"@, "**"@);
    lemma_absent(s, "[u]"@, "__"@);
    lemma_absent(s, "[/u]"@, "__"@);
    lemma_absent(s, "[i]"@, "*"@);
    lemma_absent(s, "[/i]"@, "*"@);
    lemma_absent(s, "[strike]"@, "~~"@);
    lemma_absent(s, "[/strike]"@, "~~"@);
    assert(u =~= front + by + inner + by + back);
}

/// A text of a style stands between the marks of Markdown for it, and nothing else changes.
pub proof fn styles_are_converted(
    front: Seq<char>,
    open: Seq<char>,
    inner: Seq<char>,
    close: Seq<char>,
    back: Seq<char>,
    by: Seq<char>,
)
    requires
        is_plain(front),
        is_plain(inner),
        is_plain(back),
        is_style(open, close, by),
    ensures
        markdown(front + open + inner + close + back) == Some(front + by + inner + by + back),
{
    lemma_style_bold(front, inner, back);
    lemma_style_underlined(front, inner, back);
    lemma_style_italic(front, inner, back);
    lemma_style_struck(front, inner, back);
    lemma_style_hidden(front, inner, back);
}

/// A rule is drawn where one stands, whatever is written in it.
#[verifier::spinoff_prover]
pub proof fn rules_are_drawn(front: Seq<char>, inner: Seq<char>, back: Seq<char>)
    requires
        is_plain(front),
        is_plain(inner),
        is_plain(back),
    ensures
        markdown(front + "[hr]"@ + inner + "[/hr]"@ + back) == Some(front + "\n---\n"@ + back),
{
    lemma_tag_lengths();
    reveal_strlit("[noparse]");
    reveal_strlit("[code]");
    reveal_strlit("[hr]");
    reveal_strlit("[/hr]");
    let s = front + "[hr]"@ + inner + "[/hr]"@ + back;
    let l = front.len() as int;
    let r = l + 4 + inner.len();
    lemma_two_brackets(front, "[hr]"@, inner, "[/hr]"@, back);
    lemma_absent(s, "[noparse]"@, s);
    lemma_absent(s, "[code]"@, s);
    lemma_plain_holds_no_tag(inner, "[/hr]"@);
    lemma_pair_found(s, front, "[hr]"@, inner, "[/hr]"@, back);
    assert(s.take(l) =~= front);
    assert(s.skip(r + 5) =~= back);
    text_without_tags_is_unchanged(front);
    text_without_tags_is_unchanged(back);
}

/// A pair of tags is found where it stands, where nothing in it closes it before.
proof fn lemma_pair_found(
    s: Seq<char>,
    front: Seq<char>,
    open: Seq<char>,
    inner: Seq<char>,
    close: Seq<char>,
    back: Seq<char>,
)
    requires
        s == front + open + inner + close + back,
        is_plain(front),
        !contains_seq(inner, close),
        open.len() > 0,
        close.len() > 0,
        open[0] == '[',
        close[0] == '[',
        forall|k: int| 0 < k < open.len() ==> open[k] != '[',
        forall|k: int| 0 < k < close.len() ==> close[k] != '[',
    ensures
        pair_of(s, open, close) == Some(
            (front.len() as int, (front.len() + open.len() + inner.len()) as int),
        ),
{
    let l = front.len() as int;
    let i = l + open.len();
    if contains_seq(front, open) {
        let j = choose|j: int| #[trigger] occurs_at(front, open, j);
        assert(front.subrange(j, j + open.len())[0] == front[j]);
    }
    assert(s.subrange(0, (front + open).len() as int) =~= front + open);
    lemma_tag_is_first(s, front, open, 0);
    assert(s.subrange(i, i + (inner + close).len()) =~= inner + close);
    lemma_tag_is_first(s, inner, close, i);
}

proof fn lemma_plain_holds_no_tag(s: Seq<char>, tag: Seq<char>)
    requires
        is_plain(s),
        tag.len() > 0,
        tag[0] == '[',
    ensures
        !contains_seq(s, tag),
{
    if contains_seq(s, tag) {
        let j = choose|j: int| #[trigger] occurs_at(s, tag, j);
        assert(s.subrange(j, j + tag.len())[0] == s[j]);
    }
}

/// Code is copied between fences, each on a line of its own, whatever tags it holds.
#[verifier::spinoff_prover]
pub proof fn code_is_fenced(front: Seq<char>, code: Seq<char>, back: Seq<char>)
    requires
        is_plain(front),
        is_plain(back),
        !contains_seq(code, "[noparse]"@),
        !contains_seq(code, "[/code]"@),
    ensures
        ({
            let ahead = if code.len() > 0 && code[0] == '\n' {
                "```"@
            } else {
                "```\n"@
            };
            let behind = if code.len() > 0 && code.last() == '\n' {
                "```"@
            } else {
                "\n```"@
            };
            markdown(front + "[code]"@ + code + "[/code]"@ + back) == Some(
                front + (ahead + code + behind) + back,
            )
        }),
{
    lemma_tag_lengths();
    reveal_strlit("[noparse]");
    reveal_strlit("[code]");
    reveal_strlit("[/code]");
    let raw = "[noparse]"@;
    let s = front + "[code]"@ + code + "[/code]"@ + back;
    let l = front.len() as int;
    let r = l + 6 + code.len();
    lemma_find_from(s, raw, 0);
    if let Some(j) = find_from(s, raw, 0) {
        let found = s.subrange(j, j + 9);
        assert(found[0] == s[j] && found[1] == s[j + 1]);
        if j < l {
            assert(s[j] == front[j]);
        } else if j < l + 6 {
            assert(s[j] == "[code]"@[j - l]);
            assert(s[l + 1] == 'c');
        } else if j < r {
            if j + 9 <= r {
                assert(code.subrange(j - l - 6, j - l - 6 + 9) =~= found);
                assert(occurs_at(code, raw, j - l - 6));
            } else {
                assert(found[r - j] == s[r]);
                assert(s[r] == '[');
            }
        } else if j < r + 7 {
            assert(s[j] == "[/code]"@[j - r]);
            assert(s[r + 1] == '/');
        } else {
            assert(s[j] == back[j - r - 7]);
        }
    }
    lemma_pair_found(s, front, "[code]"@, code, "[/code]"@, back);
    assert(s.take(l) =~= front);
    assert(s.subrange(l + 6, r) =~= code);
    assert(s.skip(r + 7) =~= back);
    text_without_tags_is_unchanged(front);
    text_without_tags_is_unchanged(back);
}

/// Lines with a mark ahead of each.
pub open spec fn marked(lines: Seq<Seq<char>>, mark: Seq<char>) -> Seq<Seq<char>> {
    Seq::new(lines.len(), |i: int| mark + lines[i])
}

proof fn lemma_first_line(s: Seq<char>)
    requires
        s.len() > 0,
    ensures
        lines_of(s) == seq![first_line(s).0] + lines_of(first_line(s).1),
        first_line(s).1.len() < s.len(),
        first_line(s).1.len() == 0 <==> lines_of(first_line(s).1).len() == 0,
        forall|i: int| 0 <= i < first_line(s).0.len() ==> #[trigger] first_line(s).0[i] == s[i],
        first_line(s).0.len() <= s.len(),
        first_line(s).0.len() < s.len() ==> s[first_line(s).0.len() as int] == '\n' || s[first_line(
            s,
        ).0.len() as int] == '\r',
        forall|i: int|
            0 <= i < first_line(s).1.len() ==> #[trigger] first_line(s).1[i] == s[i + s.len()
                - first_line(s).1.len()],
{
    let newline = seq!['\n'];
    lemma_find_from(s, newline, 0);
    let (line, rest) = first_line(s);
    match find_from(s, newline, 0) {
        Some(i) => {
            assert(s.take(i) =~= s.subrange(0, i));
            assert(s.subrange(i, i + 1)[0] == s[i]);
        },
        None => {
            assert(lines_of(rest) =~= Seq::<Seq<char>>::empty());
        },
    }
    if rest.len() > 0 {
        lemma_find_from(rest, newline, 0);
    }
}

proof fn lemma_quoted(s: Seq<char>, index: nat)
    requires
        is_plain(s),
    ensures
        styled_lines(s, LineStyle::Quote, index) == Some(
            join_texts(marked(lines_of(s), "> "@), "\n"@),
        ),
    decreases s.len(),
{
    let all = marked(lines_of(s), "> "@);
    if s.len() == 0 {
        assert(join_texts(all, "\n"@) =~= Seq::<char>::empty());
    } else {
        lemma_first_line(s);
        let (line, rest) = first_line(s);
        assert(is_plain(line)) by {
            assert forall|i: int| 0 <= i < line.len() implies line[i] != '[' && line[i] != ']' by {
                assert(line[i] == s[i]);
            }
        }
        assert(is_plain(rest)) by {
            assert forall|i: int| 0 <= i < rest.len() implies rest[i] != '[' && rest[i] != ']' by {
                assert(rest[i] == s[i + s.len() - rest.len()]);
            }
        }
        text_without_tags_is_unchanged(line);
        lemma_quoted(rest, index);
        let more = marked(lines_of(rest), "> "@);
        assert(all =~= seq!["> "@ + line] + more);
        if rest.len() == 0 {
            assert(all =~= seq!["> "@ + line]);
            assert(("> "@ + line) + Seq::<char>::empty() + Seq::<char>::empty() =~= "> "@ + line);
        } else {
            lemma_join_front("> "@ + line, more, "\n"@);
        }
    }
}

/// Each line of a quote is marked as one.
#[verifier::spinoff_prover]
pub proof fn quotes_are_marked(front: Seq<char>, text: Seq<char>, back: Seq<char>)
    requires
        is_plain(front),
        is_plain(text),
        is_plain(back),
    ensures
        markdown(front + "[quote]"@ + text + "[/quote]"@ + back) == Some(
            front + join_texts(marked(lines_of(text), "> "@), "\n"@) + back,
        ),
{
    lemma_tag_lengths();
    reveal_strlit("[noparse]");
    reveal_strlit("[code]");
    reveal_strlit("[hr]");
    reveal_strlit("[url");
    reveal_strlit("[quote]");
    reveal_strlit("[/quote]");
    let s = front + "[quote]"@ + text + "[/quote]"@ + back;
    let l = front.len() as int;
    let r = l + 7 + text.len();
    lemma_two_brackets(front, "[quote]"@, text, "[/quote]"@, back);
    lemma_absent(s, "[noparse]"@, s);
    lemma_absent(s, "[code]"@, s);
    lemma_absent(s, "[hr]"@, s);
    lemma_absent(s, "[url"@, s);
    lemma_plain_holds_no_tag(text, "[/quote]"@);
    lemma_pair_found(s, front, "[quote]"@, text, "[/quote]"@, back);
    assert(s.take(l) =~= front);
    assert(s.subrange(l + 7, r) =~= text);
    assert(s.skip(r + 8) =~= back);
    text_without_tags_is_unchanged(front);
    text_without_tags_is_unchanged(back);
    lemma_quoted(text, 0);
}

/// A quote that says whom it is of says so ahead of the quoted lines.
#[verifier::spinoff_prover]
#[verifier::rlimit(60)]
pub proof fn quotes_name_their_author(
    front: Seq<char>,
    author: Seq<char>,
    text: Seq<char>,
    back: Seq<char>,
)
    requires
        is_plain(front),
        is_plain(author),
        is_plain(text),
        is_plain(back),
    ensures
        markdown(front + ("[quote="@ + author + "]"@) + text + "[/quote]"@ + back) == Some(
            front + ("> *Originally posted by **"@ + author + "**\n"@ + join_texts(
                marked(lines_of(text), "> "@),
                "\n"@,
            )) + back,
        ),
{
    lemma_tag_lengths();
    reveal_strlit("[noparse]");
    reveal_strlit("[code]");
    reveal_strlit("[hr]");
    reveal_strlit("[url");
    reveal_strlit("[quote]");
    reveal_strlit("[quote");
    reveal_strlit("[quote=");
    reveal_strlit("]");
    reveal_strlit("[/quote]");
    let open = "[quote="@ + author + "]"@;
    let s = front + open + text + "[/quote]"@ + back;
    let l = front.len() as int;
    let i = l + 8 + author.len();
    let r = i + text.len();
    assert(open.len() == 8 + author.len());
    assert forall|k: int| 0 < k < open.len() implies open[k] != '[' by {
        if k < 7 {
            assert(open[k] == "[quote="@[k]);
        } else if k < 7 + author.len() {
            assert(open[k] == author[k - 7]);
        }
    }
    lemma_two_brackets(front, open, text, "[/quote]"@, back);
    lemma_absent(s, "[noparse]"@, s);
    lemma_absent(s, "[code]"@, s);
    lemma_absent(s, "[hr]"@, s);
    lemma_absent(s, "[url"@, s);
    lemma_find_from(s, "[quote]"@, 0);
    if let Some(j) = find_from(s, "[quote]"@, 0) {
        let found = s.subrange(j, j + 7);
        assert(found[0] == s[j] && found[1] == s[j + 1] && found[6] == s[j + 6]);
        assert(s[l + 6] == open[6]);
    }
    assert(s.subrange(l, l + 6) =~= "[quote"@);
    assert forall|j: int| 0 <= j < l implies !occurs_at(s, "[quote"@, j) by {
        if occurs_at(s, "[quote"@, j) {
            assert(s.subrange(j, j + 6)[0] == s[j]);
        }
    }
    lemma_find_is_first(s, "[quote"@, 0, l);
    assert(s.subrange(i - 1, i) =~= "]"@);
    assert forall|j: int| l + 7 <= j < i - 1 implies !occurs_at(s, "]"@, j) by {
        if occurs_at(s, "]"@, j) {
            assert(s.subrange(j, j + 1)[0] == s[j]);
            assert(s[j] == author[j - l - 7]);
        }
    }
    lemma_find_is_first(s, "]"@, l + 7, i - 1);
    assert(s.subrange(r, r + 8) =~= "[/quote]"@);
    assert forall|j: int| i <= j < r implies !occurs_at(s, "[/quote]"@, j) by {
        if occurs_at(s, "[/quote]"@, j) {
            assert(s.subrange(j, j + 8)[0] == s[j]);
        }
    }
    lemma_find_is_first(s, "[/quote]"@, i, r);
    assert(match_of(s, "[quote"@, "]"@, "[/quote]"@) == Some((l, i, r)));
    assert(s[l + 6] == '=');
    assert(s.take(l) =~= front);
    assert(s.subrange(i, r) =~= text);
    assert(s.subrange(l + 7, i - 1) =~= author);
    assert(s.skip(r + 8) =~= back);
    text_without_tags_is_unchanged(front);
    text_without_tags_is_unchanged(back);
    lemma_quoted(text, 0);
}

/// Whether each bracket of a text is that of a mark ahead of an item.
pub open spec fn only_items(s: Seq<char>) -> bool {
    forall|i: int|
        0 <= i < s.len() && #[trigger] s[i] == '[' ==> i + 2 < s.len() && s[i + 1] == '*' && s[i + 2]
            == ']'
}

proof fn lemma_bare(s: Seq<char>)
    requires
        only_items(s),
    ensures
        forall|i: int|
            0 <= i < replace_all(s, "[*]"@, " - "@).len() ==> #[trigger] replace_all(
                s,
                "[*]"@,
                " - "@,
            )[i] != '[',
    decreases s.len(),
{
    reveal_strlit("[*]");
    reveal_strlit(" - ");
    let tag = "[*]"@;
    let all = replace_all(s, tag, " - "@);
    lemma_find_from(s, tag, 0);
    assert forall|i: int| 0 <= i < s.len() && #[trigger] s[i] == '[' implies occurs_at(
        s,
        tag,
        i,
    ) by {
        assert(s.subrange(i, i + 3) =~= tag);
    }
    if let Some(k) = find_from(s, tag, 0) {
        let tail = s.skip(k + 3);
        assert(only_items(tail)) by {
            assert forall|i: int| 0 <= i < tail.len() && #[trigger] tail[i] == '[' implies i + 2
                < tail.len() && tail[i + 1] == '*' && tail[i + 2] == ']' by {
                assert(tail[i] == s[i + k + 3]);
            }
        }
        lemma_bare(tail);
        let rest = replace_all(tail, tag, " - "@);
        assert(all == s.subrange(0, k) + " - "@ + rest);
        assert forall|i: int| 0 <= i < all.len() implies #[trigger] all[i] != '[' by {
            if i < k {
                assert(all[i] == s[i]);
            } else if i < k + 3 {
                assert(all[i] == " - "@[i - k]);
            } else {
                assert(all[i] == rest[i - k - 3]);
            }
        }
    } else {
        assert forall|i: int| 0 <= i < all.len() implies #[trigger] all[i] != '[' by {
            assert(all[i] == s[i]);
        }
    }
}

proof fn lemma_items_replaced(s: Seq<char>)
    requires
        only_items(s),
    ensures
        markdown(s) == Some(replace_all(s, "[*]"@, " - "@)),
{
    reveal_strlit("[noparse]");
    reveal_strlit("[code]");
    reveal_strlit("[hr]");
    reveal_strlit("[url");
    reveal_strlit("[quote]");
    reveal_strlit("[quote");
    reveal_strlit("[list]");
    reveal_strlit("[olist]");
    reveal_strlit("[h");
    reveal_strlit("[*]");
    reveal_strlit("[b]");
    reveal_strlit("[/b]");
    reveal_strlit("[u]");
    reveal_strlit("[/u]");
    reveal_strlit("[i]");
    reveal_strlit("[/i]");
    reveal_strlit("[strike]");
    reveal_strlit("[/strike]");
    reveal_strlit("[spoiler]");
    reveal_strlit("[/spoiler]");
    lemma_no_blocks(s);
    lemma_bare(s);
    let bare = replace_all(s, "[*]"@, " - "@);
    lemma_no_bracket_no_tag(bare, "[b]"@, 0, "**"@);
    lemma_no_bracket_no_tag(bare, "[/b]"@, 0, "**"@);
    lemma_no_bracket_no_tag(bare, "[u]"@, 0, "__"@);
    lemma_no_bracket_no_tag(bare, "[/u]"@, 0, "__"@);
    lemma_no_bracket_no_tag(bare, "[i]"@, 0, "*"@);
    lemma_no_bracket_no_tag(bare, "[/i]"@, 0, "*"@);
    lemma_no_bracket_no_tag(bare, "[strike]"@, 0, "~~"@);
    lemma_no_bracket_no_tag(bare, "[/strike]"@, 0, "~~"@);
    lemma_no_bracket_no_tag(bare, "[spoiler]"@, 0, "||"@);
    lemma_no_bracket_no_tag(bare, "[/spoiler]"@, 0, "||"@);
}

/// Lines of a list, each with what marks its items written anew and a line break behind it.
pub open spec fn listed(lines: Seq<Seq<char>>) -> Seq<Seq<char>> {
    Seq::new(lines.len(), |i: int| replace_all(lines[i], "[*]"@, " - "@) + "\n"@)
}

proof fn lemma_line_has_only_items(s: Seq<char>)
    requires
        s.len() > 0,
        only_items(s),
    ensures
        only_items(first_line(s).0),
        only_items(first_line(s).1),
{
    lemma_first_line(s);
    let (line, rest) = first_line(s);
    assert forall|i: int| 0 <= i < line.len() && #[trigger] line[i] == '[' implies i + 2
        < line.len() && line[i + 1] == '*' && line[i + 2] == ']' by {
        assert(s[i] == '[');
        if i + 1 < line.len() {
            assert(line[i + 1] == s[i + 1]);
        }
        if i + 2 < line.len() {
            assert(line[i + 2] == s[i + 2]);
        }
    }
    assert forall|i: int| 0 <= i < rest.len() && #[trigger] rest[i] == '[' implies i + 2
        < rest.len() && rest[i + 1] == '*' && rest[i + 2] == ']' by {
        let k = i + s.len() - rest.len();
        assert(s[k] == '[');
        assert(rest[i + 1] == s[k + 1] && rest[i + 2] == s[k + 2]);
    }
}

proof fn lemma_listed(s: Seq<char>, index: nat)
    requires
        only_items(s),
    ensures
        styled_lines(s, LineStyle::List, index) == Some(
            join_texts(listed(lines_of(s)), Seq::empty()),
        ),
    decreases s.len(),
{
    let none = Seq::<char>::empty();
    let all = listed(lines_of(s));
    if s.len() == 0 {
        assert(join_texts(all, none) =~= none);
    } else {
        lemma_first_line(s);
        lemma_line_has_only_items(s);
        let (line, rest) = first_line(s);
        lemma_items_replaced(line);
        lemma_listed(rest, index);
        let first = replace_all(line, "[*]"@, " - "@) + "\n"@;
        let more = listed(lines_of(rest));
        assert(all =~= seq![first] + more);
        if rest.len() == 0 {
            assert(all =~= seq![first]);
            assert(first + none + none =~= first);
        } else {
            lemma_join_front(first, more, none);
        }
    }
}

proof fn lemma_list_brackets(
    front: Seq<char>,
    open: Seq<char>,
    body: Seq<char>,
    close: Seq<char>,
    back: Seq<char>,
    tag: Seq<char>,
)
    requires
        is_plain(front),
        only_items(body),
        is_plain(back),
        open.len() >= 4,
        close.len() >= 4,
        tag.len() >= 2,
        tag[0] == '[',
        open[1] != tag[1],
        close[1] != tag[1],
        tag[1] != '*',
        forall|k: int| 0 < k < open.len() ==> open[k] != '[',
        forall|k: int| 0 < k < close.len() ==> close[k] != '[',
    ensures
        find_from(front + open + body + close + back, tag, 0) is None,
{
    let s = front + open + body + close + back;
    let l = front.len() as int;
    let i = l + open.len();
    let r = i + body.len();
    assert(differs(s, tag)) by {
        assert forall|k: int| 0 <= k && k + tag.len() <= s.len() && #[trigger] s[k]
            == '[' implies s[k + 1] != tag[1] by {
            if k < l {
                assert(s[k] == front[k]);
            } else if k < i {
                assert(s[k] == open[k - l]);
                assert(s[l + 1] == open[1]);
            } else if k < r {
                assert(s[k] == body[k - i]);
                assert(s[k + 1] == body[k - i + 1]);
            } else if k < r + close.len() {
                assert(s[k] == close[k - r]);
                assert(s[r + 1] == close[1]);
            } else {
                assert(s[k] == back[k - r - close.len()]);
            }
        }
    }
    lemma_absent(s, tag, s);
}

proof fn lemma_items_hold_no_tag(s: Seq<char>, tag: Seq<char>)
    requires
        only_items(s),
        tag.len() >= 2,
        tag[0] == '[',
        tag[1] != '*',
    ensures
        !contains_seq(s, tag),
{
    if contains_seq(s, tag) {
        let j = choose|j: int| #[trigger] occurs_at(s, tag, j);
        let found = s.subrange(j, j + tag.len());
        assert(found[0] == s[j] && found[1] == s[j + 1]);
    }
}

/// A list keeps all of its lines, with what marks its items written anew.
#[verifier::spinoff_prover]
pub proof fn lists_keep_their_lines(front: Seq<char>, body: Seq<char>, back: Seq<char>)
    requires
        is_plain(front),
        only_items(body),
        is_plain(back),
    ensures
        markdown(front + "[list]"@ + body + "[/list]"@ + back) == Some(
            front + join_texts(listed(lines_of(body)), Seq::empty()) + back,
        ),
{
    let open = "[list]"@;
    let close = "[/list]"@;
    let s = front + open + body + close + back;
    let l = front.len() as int;
    let r = l + 6 + body.len();
    lemma_tag_lengths();
    reveal_strlit("[noparse]");
    reveal_strlit("[code]");
    reveal_strlit("[hr]");
    reveal_strlit("[url");
    reveal_strlit("[quote]");
    reveal_strlit("[quote");
    reveal_strlit("[list]");
    reveal_strlit("[/list]");
    lemma_list_brackets(front, open, body, close, back, "[noparse]"@);
    lemma_list_brackets(front, open, body, close, back, "[code]"@);
    lemma_list_brackets(front, open, body, close, back, "[hr]"@);
    lemma_list_brackets(front, open, body, close, back, "[url"@);
    lemma_list_brackets(front, open, body, close, back, "[quote]"@);
    lemma_list_brackets(front, open, body, close, back, "[quote"@);
    lemma_items_hold_no_tag(body, close);
    lemma_pair_found(s, front, open, body, close, back);
    assert(s.take(l) =~= front);
    assert(s.subrange(l + 6, r) =~= body);
    assert(s.skip(r + 7) =~= back);
    text_without_tags_is_unchanged(front);
    text_without_tags_is_unchanged(back);
    lemma_listed(body, 0);
}

/// Items that are numbered, from the one behind a number on.
pub open spec fn numbered(items: Seq<Seq<char>>, index: nat) -> Seq<Seq<char>> {
    Seq::new(
        items.len(),
        |i: int| " "@ + decimal_text((index + i + 1) as nat) + ". "@ + items[i] + "\n"@,
    )
}

/// Whether each line of a text is an item of a list.
pub open spec fn are_items(s: Seq<char>, items: Seq<Seq<char>>) -> bool {
    &&& lines_of(s).len() == items.len()
    &&& forall|i: int|
        0 <= i < items.len() ==> #[trigger] lines_of(s)[i] == "[*]"@ + items[i] && is_plain(items[i])
}

proof fn lemma_item_numbered(item: Seq<char>, index: nat)
    requires
        is_plain(item),
    ensures
        markdown("[*]"@ + item) == Some(" - "@ + item),
        styled_line(" - "@ + item, LineStyle::Ordered, index) == (
            " "@ + decimal_text(index + 1) + ". "@ + item + "\n"@,
            index + 1,
        ),
{
    reveal_strlit("[*]");
    reveal_strlit(" - ");
    let tag = "[*]"@;
    let line = tag + item;
    let none = Seq::<char>::empty();
    assert(only_items(line)) by {
        assert forall|i: int| 0 <= i < line.len() && #[trigger] line[i] == '[' implies i + 2
            < line.len() && line[i + 1] == '*' && line[i + 2] == ']' by {
            if i < 3 {
                assert(line[i] == tag[i]);
                assert(line[1] == tag[1] && line[2] == tag[2]);
            } else {
                assert(line[i] == item[i - 3]);
            }
        }
    }
    lemma_items_replaced(line);
    assert(none + tag + item =~= line);
    lemma_swapped(none, tag, item, " - "@);
    lemma_no_bracket_no_tag(item, tag, 0, " - "@);
    let shown = " - "@ + item;
    assert(none + " - "@ + item =~= shown);
    assert(shown.subrange(0, 3) =~= " - "@);
    lemma_find_is_first(shown, " - "@, 0, 0);
    assert(shown.subrange(0, 0) =~= none);
    assert(shown.skip(3) =~= item);
    let by = " "@ + decimal_text(index + 1) + ". "@;
    assert(none + by + item =~= by + item);
}

proof fn lemma_numbered(s: Seq<char>, items: Seq<Seq<char>>, index: nat)
    requires
        are_items(s, items),
    ensures
        styled_lines(s, LineStyle::Ordered, index) == Some(
            join_texts(numbered(items, index), Seq::empty()),
        ),
    decreases s.len(),
{
    let none = Seq::<char>::empty();
    let all = numbered(items, index);
    if s.len() == 0 {
        assert(join_texts(all, none) =~= none);
    } else {
        lemma_first_line(s);
        let (line, rest) = first_line(s);
        assert(lines_of(s)[0] == line);
        let fewer = items.skip(1);
        assert(are_items(rest, fewer)) by {
            assert forall|i: int| 0 <= i < fewer.len() implies #[trigger] lines_of(rest)[i]
                == "[*]"@ + fewer[i] && is_plain(fewer[i]) by {
                assert(lines_of(s)[i + 1] == lines_of(rest)[i]);
                assert(fewer[i] == items[i + 1]);
            }
        }
        lemma_item_numbered(items[0], index);
        lemma_numbered(rest, fewer, index + 1);
        let more = numbered(fewer, index + 1);
        let first = " "@ + decimal_text(index + 1) + ". "@ + items[0] + "\n"@;
        assert(all =~= seq![first] + more) by {
            assert forall|i: int| 0 <= i < all.len() implies #[trigger] all[i] == (seq![first]
                + more)[i] by {
                if i > 0 {
                    assert(items[i] == fewer[i - 1]);
                    assert((index + 1 + (i - 1) + 1) as nat == (index + i + 1) as nat);
                }
            }
        }
        if rest.len() == 0 {
            assert(all =~= seq![first]);
            assert(first + none + none =~= first);
        } else {
            lemma_join_front(first, more, none);
        }
    }
}

/// The items of an ordered list are numbered one after the other, from one on.
#[verifier::spinoff_prover]
pub proof fn ordered_items_are_numbered(
    front: Seq<char>,
    body: Seq<char>,
    items: Seq<Seq<char>>,
    back: Seq<char>,
)
    requires
        is_plain(front),
        only_items(body),
        are_items(body, items),
        is_plain(back),
    ensures
        markdown(front + "[olist]"@ + body + "[/olist]"@ + back) == Some(
            front + join_texts(numbered(items, 0), Seq::empty()) + back,
        ),
{
    let open = "[olist]"@;
    let close = "[/olist]"@;
    let s = front + open + body + close + back;
    let l = front.len() as int;
    let r = l + 7 + body.len();
    lemma_tag_lengths();
    reveal_strlit("[noparse]");
    reveal_strlit("[code]");
    reveal_strlit("[hr]");
    reveal_strlit("[url");
    reveal_strlit("[quote]");
    reveal_strlit("[quote");
    reveal_strlit("[list]");
    reveal_strlit("[/list]");
    reveal_strlit("[olist]");
    reveal_strlit("[/olist]");
    lemma_list_brackets(front, open, body, close, back, "[noparse]"@);
    lemma_list_brackets(front, open, body, close, back, "[code]"@);
    lemma_list_brackets(front, open, body, close, back, "[hr]"@);
    lemma_list_brackets(front, open, body, close, back, "[url"@);
    lemma_list_brackets(front, open, body, close, back, "[quote]"@);
    lemma_list_brackets(front, open, body, close, back, "[quote"@);
    lemma_list_brackets(front, open, body, close, back, "[list]"@);
    lemma_items_hold_no_tag(body, close);
    lemma_pair_found(s, front, open, body, close, back);
    assert(s.take(l) =~= front);
    assert(s.subrange(l + 7, r) =~= body);
    assert(s.skip(r + 8) =~= back);
    text_without_tags_is_unchanged(front);
    text_without_tags_is_unchanged(back);
    lemma_numbered(body, items, 0);
}

/// A header has as many number signs as its digit says, where each character before it takes one
/// byte.
pub proof fn headers_have_their_signs(
    front: Seq<char>,
    digit: char,
    title: Seq<char>,
    back: Seq<char>,
    signs: Seq<char>,
)
    requires
        is_plain(front),
        is_plain(title),
        is_plain(back),
        forall|i: int| 0 <= i < front.len() ==> (#[trigger] front[i] as u32) < 0x80,
        '0' <= digit <= '9',
        signs.len() == digit as u32 - '0' as u32,
        forall|i: int| 0 <= i < signs.len() ==> #[trigger] signs[i] == '#',
    ensures
        markdown(
            front + ("[h"@ + seq![digit] + "]"@) + title + ("[/h"@ + seq![digit] + "]"@) + back,
        ) == Some(front + (signs + " "@ + title) + back),
{
    headers_are_converted(front, digit, title, back);
    assert(header_signs(digit) =~= signs);
}

} // verus!
