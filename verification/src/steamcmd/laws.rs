//! What comes of the bytes that SteamCMD prints.
use vstd::prelude::*;

#[allow(unused_imports)]
use super::{
    asks_for_input, cached_login_text, cursor_move_end, cursor_move_from, digits_run, displayed, download_text, dumped, ends_with, joined_answer,
    lemma_line_end_bounds, line_break_from, line_end, login_text, shown_line, stripped, taken_lines,
    total_size, EventModel,
};
#[allow(unused_imports)]
use crate::library::missing::ModIndex;
#[allow(unused_imports)]
use crate::numbers::{decimal_reads_back, decimal_text};
#[allow(unused_imports)]
use crate::text::laws::holds_text;
#[allow(unused_imports)]
use crate::text::{join_texts, occurs_at};

verus! {

/// Whether bytes hold no line break.
pub open spec fn is_one_line(b: Seq<u8>) -> bool {
    forall|i: int| 0 <= i < b.len() ==> #[trigger] b[i] != 10 && b[i] != 13
}

proof fn lemma_break_at(b: Seq<u8>, from: int, at: int)
    requires
        0 <= from <= at < b.len(),
        b[at] == 10 || b[at] == 13,
        forall|i: int| from <= i < at ==> #[trigger] b[i] != 10 && b[i] != 13,
    ensures
        line_break_from(b, from) == Some(at),
    decreases at - from,
{
    if from < at {
        lemma_break_at(b, from + 1, at);
    }
}

proof fn lemma_no_break(b: Seq<u8>, from: int)
    requires
        0 <= from,
        is_one_line(b),
    ensures
        line_break_from(b, from) is None,
    decreases b.len() - from,
{
    if from < b.len() {
        lemma_no_break(b, from + 1);
    }
}

proof fn lemma_no_move(b: Seq<u8>, from: int)
    requires
        0 <= from,
        forall|i: int| 0 <= i < b.len() ==> #[trigger] b[i] != 27,
    ensures
        cursor_move_from(b, from) is None,
    decreases b.len() - from,
{
    if from < b.len() {
        lemma_no_move(b, from + 1);
    }
}

/// What is told of a line: nothing where it repeats a prompt, no more than that there was one
/// where it repeats a login, and else the line.
pub open spec fn told_of(text: Seq<char>) -> Seq<EventModel> {
    if occurs_at(text, "Steam>"@, 0) {
        Seq::empty()
    } else if occurs_at(text, "login"@, 0) {
        seq![EventModel::Line("login [REDACTED]"@)]
    } else {
        seq![EventModel::Line(text)]
    }
}

/// A line that ends is told once, and what follows is told behind it, as if it had come alone.
/// A carriage return ahead of the line feed belongs to the line break.
pub proof fn lines_are_told_one_by_one(line: Seq<u8>, rest: Seq<u8>)
    requires
        is_one_line(line),
    ensures
        taken_lines(line + seq![10u8] + rest) == (
            told_of(displayed(stripped(line))) + taken_lines(rest).0,
            taken_lines(rest).1,
        ),
        taken_lines(line + seq![13u8, 10u8] + rest) == (
            told_of(displayed(stripped(line))) + taken_lines(rest).0,
            taken_lines(rest).1,
        ),
{
    let n = line.len() as int;
    let a = line + seq![10u8] + rest;
    let b = line + seq![13u8, 10u8] + rest;
    assert forall|i: int| 0 <= i < n implies #[trigger] a[i] != 10 && a[i] != 13 by {
        assert(a[i] == line[i]);
    }
    assert forall|i: int| 0 <= i < n implies #[trigger] b[i] != 10 && b[i] != 13 by {
        assert(b[i] == line[i]);
    }
    assert(a[n] == 10);
    assert(b[n] == 13 && b[n + 1] == 10);
    lemma_break_at(a, 0, n);
    lemma_break_at(b, 0, n);
    lemma_line_end_bounds(a);
    lemma_line_end_bounds(b);
    assert(a.take(n) =~= line);
    assert(b.take(n) =~= line);
    assert(a.skip(n + 1) =~= rest);
    assert(b.skip(n + 2) =~= rest);
    let more = taken_lines(rest).0;
    assert(Seq::<EventModel>::empty() + more =~= more);
}

/// A line that has not ended is kept until the rest of it comes.
pub proof fn unended_lines_are_kept(b: Seq<u8>)
    requires
        is_one_line(b),
        forall|i: int| 0 <= i < b.len() ==> #[trigger] b[i] != 27,
    ensures
        taken_lines(b) == (Seq::<EventModel>::empty(), b),
{
    lemma_no_break(b, 0);
    lemma_no_move(b, 0);
}

/// Nothing that is told holds what was entered with a login.
pub proof fn no_login_is_told(b: Seq<u8>, i: int)
    requires
        0 <= i < taken_lines(b).0.len(),
    ensures
        taken_lines(b).0[i] matches EventModel::Line(text) && (text == "login [REDACTED]"@
            || !occurs_at(text, "login"@, 0)),
    decreases b.len(),
{
    lemma_line_end_bounds(b);
    if let Some((line, all)) = line_end(b) {
        let rest = b.skip(all);
        let text = displayed(stripped(b.take(line)));
        let more = taken_lines(rest).0;
        match shown_line(text) {
            Some(shown) => {
                if i > 0 {
                    no_login_is_told(rest, i - 1);
                    assert(taken_lines(b).0[i] == more[i - 1]);
                } else {
                    assert(taken_lines(b).0[0] == EventModel::Line(shown));
                }
            },
            None => {
                no_login_is_told(rest, i);
            },
        }
    }
}

/// SteamCMD waits for input exactly where its prompt stands last, either bare or with one of the
/// two controls that it puts behind it.
pub proof fn prompts_ask_for_input(front: Seq<u8>, b: Seq<u8>)
    ensures
        ({
            let prompt = seq![83u8, 116u8, 101u8, 97u8, 109u8, 62u8];
            let reset = prompt + seq![27u8, 91u8, 48u8, 109u8];
            let cursor = prompt + seq![27u8, 91u8, 63u8, 50u8, 53u8, 104u8];
            &&& asks_for_input(front + prompt)
            &&& asks_for_input(front + reset)
            &&& asks_for_input(front + cursor)
            &&& asks_for_input(b) ==> b.len() >= 6 && (b.skip(b.len() - 6) == prompt || (b.len()
                >= 10 && b.skip(b.len() - 10) == reset) || (b.len() >= 12 && b.skip(b.len() - 12)
                == cursor))
        }),
{
    let prompt = seq![83u8, 116u8, 101u8, 97u8, 109u8, 62u8];
    let reset = prompt + seq![27u8, 91u8, 48u8, 109u8];
    let cursor = prompt + seq![27u8, 91u8, 63u8, 50u8, 53u8, 104u8];
    assert(super::prompt() =~= prompt);
    assert(super::prompt_reset() =~= reset);
    assert(super::prompt_cursor() =~= cursor);
    lemma_ends(front, prompt);
    lemma_ends(front, reset);
    lemma_ends(front, cursor);
    if ends_with(b, prompt) {
        assert(b.skip(b.len() - 6) =~= b.subrange(b.len() - 6, b.len() as int));
    }
    if ends_with(b, reset) {
        assert(b.skip(b.len() - 10) =~= b.subrange(b.len() - 10, b.len() as int));
    }
    if ends_with(b, cursor) {
        assert(b.skip(b.len() - 12) =~= b.subrange(b.len() - 12, b.len() as int));
    }
}

proof fn lemma_ends(front: Seq<u8>, end: Seq<u8>)
    ensures
        ends_with(front + end, end),
{
    let b = front + end;
    assert(b.subrange(b.len() - end.len(), b.len() as int) =~= end);
}

/// The lines of an answer follow one another, each on a line of its own.
pub proof fn answers_hold_their_lines(lines: Seq<Seq<char>>)
    ensures
        dumped(lines) == join_texts(lines, "\n"@),
        lines.len() > 0 ==> joined_answer(lines) == "\n"@ + join_texts(lines, "\n"@),
        lines.len() == 0 ==> joined_answer(lines).len() == 0,
    decreases lines.len(),
{
    if lines.len() > 0 {
        let front = lines.drop_last();
        answers_hold_their_lines(front);
        if lines.len() == 1 {
            assert(joined_answer(front) =~= Seq::<char>::empty());
            assert(joined_answer(lines) =~= "\n"@ + lines[0]);
        } else {
            assert("\n"@ + join_texts(front, "\n"@) + "\n"@ + lines.last() =~= "\n"@ + (join_texts(
                front,
                "\n"@,
            ) + "\n"@ + lines.last()));
        }
    }
}

/// What is installed takes as much as its parts, and an item that is named again takes nothing
/// more.
pub proof fn items_are_counted_once(index: ModIndex, ids: Seq<u32>, again: Seq<u32>)
    requires
        forall|i: int| 0 <= i < again.len() ==> ids.contains(#[trigger] again[i]),
    ensures
        total_size(index, ids + again) == total_size(index, ids),
    decreases again.len(),
{
    let all = ids + again;
    if again.len() == 0 {
        assert(all =~= ids);
    } else {
        let fewer = again.drop_last();
        assert forall|i: int| 0 <= i < fewer.len() implies ids.contains(#[trigger] fewer[i]) by {
            assert(fewer[i] == again[i]);
        }
        items_are_counted_once(index, ids, fewer);
        assert(all.drop_last() =~= ids + fewer);
        assert(all.last() == again[again.len() - 1]);
        let k = choose|k: int| 0 <= k < ids.len() && ids[k] == all.last();
        assert((ids + fewer)[k] == all.last());
    }
}

proof fn lemma_digits(b: Seq<u8>, at: int, digits: Seq<u8>)
    requires
        0 <= at,
        at + digits.len() < b.len(),
        b.subrange(at, at + digits.len()) == digits,
        forall|i: int| 0 <= i < digits.len() ==> 48 <= #[trigger] digits[i] <= 57,
        !(48 <= b[at + digits.len()] <= 57),
    ensures
        digits_run(b, at) == digits.len(),
    decreases digits.len(),
{
    if digits.len() > 0 {
        assert(b[at] == digits[0]);
        let rest = digits.skip(1);
        assert(b.subrange(at + 1, at + 1 + rest.len()) =~= rest) by {
            assert forall|i: int| 0 <= i < rest.len() implies b[at + 1 + i] == #[trigger] rest[i] by {
                assert(b.subrange(at, at + digits.len())[i + 1] == digits[i + 1]);
            }
        }
        lemma_digits(b, at + 1, rest);
    }
}

proof fn lemma_move_at(b: Seq<u8>, from: int, at: int, end: int)
    requires
        0 <= from <= at < b.len(),
        forall|i: int| from <= i < at ==> #[trigger] b[i] != 27,
        cursor_move_end(b, at) == Some(end),
    ensures
        cursor_move_from(b, from) == Some(end),
    decreases at - from,
{
    if from < at {
        lemma_move_at(b, from + 1, at, end);
    }
}

/// Where no line break has come, a control that moves the cursor ends a line too, and belongs to
/// it but for its last byte.
pub proof fn cursor_moves_end_lines(line: Seq<u8>, row: Seq<u8>, column: Seq<u8>, rest: Seq<u8>)
    requires
        is_one_line(line),
        is_one_line(rest),
        forall|i: int| 0 <= i < line.len() ==> #[trigger] line[i] != 27,
        row.len() > 0,
        column.len() > 0,
        forall|i: int| 0 <= i < row.len() ==> 48 <= #[trigger] row[i] <= 57,
        forall|i: int| 0 <= i < column.len() ==> 48 <= #[trigger] column[i] <= 57,
    ensures
        ({
            let all = line + seq![27u8, 91u8] + row + seq![59u8] + column;
            taken_lines(all + seq![72u8] + rest) == (
                told_of(displayed(stripped(all))) + taken_lines(rest).0,
                taken_lines(rest).1,
            )
        }),
{
    let all = line + seq![27u8, 91u8] + row + seq![59u8] + column;
    let b = all + seq![72u8] + rest;
    let at = line.len() as int;
    let semicolon = at + 2 + row.len();
    let end = all.len() as int;
    assert forall|i: int| 0 <= i < b.len() implies #[trigger] b[i] != 10 && b[i] != 13 by {
        if i < at {
            assert(b[i] == line[i]);
        } else if at + 2 <= i < semicolon {
            assert(b[i] == row[i - at - 2]);
        } else if semicolon < i < end {
            assert(b[i] == column[i - semicolon - 1]);
        } else if i > end {
            assert(b[i] == rest[i - end - 1]);
        }
    }
    lemma_no_break(b, 0);
    assert(b[at] == 27 && b[at + 1] == 91 && b[semicolon as int] == 59 && b[end] == 72);
    assert(b.subrange(at + 2, at + 2 + row.len()) =~= row);
    lemma_digits(b, at + 2, row);
    assert(b.subrange(semicolon + 1, semicolon + 1 + column.len()) =~= column);
    lemma_digits(b, semicolon + 1, column);
    assert(cursor_move_end(b, at) == Some(end));
    assert forall|i: int| 0 <= i < at implies #[trigger] b[i] != 27 by {
        assert(b[i] == line[i]);
    }
    lemma_move_at(b, 0, at, end);
    lemma_line_end_bounds(b);
    assert(line_end(b) == Some((end, end + 1)));
    assert(b.take(end) =~= all);
    assert(b.skip(end + 1) =~= rest);
    let more = taken_lines(rest).0;
    assert(Seq::<EventModel>::empty() + more =~= more);
}

/// What was entered to log in stands in the command, and is not told where SteamCMD repeats it.
pub proof fn entered_logins_are_not_told(user: Seq<char>, pass: Seq<char>, code: Seq<char>)
    ensures
        told_of(login_text(user, pass, code)) == seq![EventModel::Line("login [REDACTED]"@)],
        told_of(cached_login_text(user)) == seq![EventModel::Line("login [REDACTED]"@)],
        holds_text(login_text(user, pass, code), user),
        holds_text(login_text(user, pass, code), pass),
        holds_text(login_text(user, pass, code), code),
        holds_text(cached_login_text(user), user),
{
    reveal_strlit("login \"");
    reveal_strlit("login ");
    reveal_strlit("login");
    reveal_strlit("Steam>");
    let a = login_text(user, pass, code);
    let b = cached_login_text(user);
    assert(a.subrange(0, 5) =~= "login"@);
    assert(b.subrange(0, 5) =~= "login"@);
    if occurs_at(a, "Steam>"@, 0) {
        assert(a.subrange(0, 6)[0] == a[0]);
    }
    if occurs_at(b, "Steam>"@, 0) {
        assert(b.subrange(0, 6)[0] == b[0]);
    }
    let i = "login \""@.len() as int;
    let j = ("login \""@ + user + "\" \""@).len() as int;
    let k = ("login \""@ + user + "\" \""@ + pass + "\" \""@).len() as int;
    assert(a.subrange(i, i + user.len()) =~= user);
    assert(occurs_at(a, user, i));
    assert(a.subrange(j, j + pass.len()) =~= pass);
    assert(occurs_at(a, pass, j));
    assert(a.subrange(k, k + code.len()) =~= code);
    assert(occurs_at(a, code, k));
    assert(b.subrange(6, b.len() as int) =~= user);
    assert(occurs_at(b, user, 6));
}

/// A command to download names one item: those for different items differ.
pub proof fn commands_name_one_item(app: u64, a: u64, b: u64)
    ensures
        holds_text(download_text(app, a), decimal_text(app as nat)),
        holds_text(download_text(app, a), decimal_text(a as nat)),
        download_text(app, a) == download_text(app, b) ==> a == b,
{
    let front = "workshop_download_item "@ + decimal_text(app as nat) + " "@;
    let i = "workshop_download_item "@.len() as int;
    let x = decimal_text(a as nat);
    let y = decimal_text(b as nat);
    let n = decimal_text(app as nat);
    let k = front.len() as int;
    let all = download_text(app, a);
    assert(all.subrange(i, i + n.len()) =~= n);
    assert(occurs_at(all, n, i));
    assert(all.subrange(k, k + x.len()) =~= x);
    assert(occurs_at(all, x, k));
    if all == download_text(app, b) {
        assert((front + x).skip(k) =~= x);
        assert((front + y).skip(k) =~= y);
        decimal_reads_back(a);
        decimal_reads_back(b);
    }
}

} // verus!
