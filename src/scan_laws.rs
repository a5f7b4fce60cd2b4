//! Properties of the token stream that the scanner reports (`tokens_of`).
use vstd::prelude::*;

use crate::char_class::{is_name_char, is_punctuation, is_white_space, lemma_name_char_class};
use crate::lexical_analyzer::{
    lemma_line_end_bound, lemma_line_end_unique, lemma_name_run_bound, line_end, lines_of,
    mark, name_run, punctuation_kind, scan_line, scan_text, tokens_of, unknown_token_message,
    Lexeme, TokenKind,
};

verus! {

/// A character that is neither white space, punctuation nor part of a name.
pub open spec fn is_unrecognized(c: char) -> bool {
    !is_white_space(c) && !is_punctuation(c) && !is_name_char(c)
}

/// Every token of a line scan carries that line's number and a column within
/// the line, no smaller than where the scan started, and the columns grow
/// strictly from one token to the next.
pub proof fn lemma_scan_line_positions(l: Seq<char>, line: nat, col: int)
    requires
        0 <= col,
    ensures
        forall|k: int|
            0 <= k < scan_line(l, line, col).len() ==> {
                &&& (#[trigger] scan_line(l, line, col)[k]).line == line
                &&& col <= scan_line(l, line, col)[k].position < l.len()
            },
        forall|i: int, j: int|
            0 <= i < j < scan_line(l, line, col).len() ==> (#[trigger] scan_line(l, line, col)[i]).position
                < (#[trigger] scan_line(l, line, col)[j]).position,
    decreases l.len() - col,
{
    if col < l.len() {
        let c = l[col];
        if is_white_space(c) {
            lemma_scan_line_positions(l, line, col + 1);
        } else if is_punctuation(c) || !is_name_char(c) {
            lemma_scan_line_positions(l, line, col + 1);
        } else {
            lemma_name_run_bound(l, col);
            lemma_scan_line_positions(l, line, col + name_run(l, col));
        }
    }
}

proof fn lemma_scan_text_positions(s: Seq<char>, first: nat)
    ensures
        forall|k: int|
            0 <= k < scan_text(s, first).len() ==> {
                let t = #[trigger] scan_text(s, first)[k];
                &&& first <= t.line < first + lines_of(s).len()
                &&& t.position < lines_of(s)[t.line - first].len()
            },
        forall|i: int, j: int|
            0 <= i < j < scan_text(s, first).len() ==> {
                let a = #[trigger] scan_text(s, first)[i];
                let b = #[trigger] scan_text(s, first)[j];
                a.line < b.line || (a.line == b.line && a.position < b.position)
            },
    decreases s.len(),
{
    lemma_line_end_bound(s);
    let k = line_end(s);
    if k >= s.len() {
        lemma_scan_line_positions(s, first, 0);
    } else {
        let head = scan_line(s.take(k), first, 0);
        let tail = scan_text(s.skip(k + 1), first + 1);
        lemma_scan_line_positions(s.take(k), first, 0);
        lemma_scan_text_positions(s.skip(k + 1), first + 1);
        let all = scan_text(s, first);
        assert(all == head + tail);
        assert forall|m: int| 0 <= m < all.len() implies {
            let t = #[trigger] all[m];
            &&& first <= t.line < first + lines_of(s).len()
            &&& t.position < lines_of(s)[t.line - first].len()
        } by {
            if m >= head.len() {
                assert(all[m] == tail[m - head.len()]);
                assert(lines_of(s)[all[m].line - first] == lines_of(s.skip(k + 1))[all[m].line - (
                first + 1)]);
            } else {
                assert(all[m] == head[m]);
            }
        }
        assert forall|i: int, j: int| 0 <= i < j < all.len() implies {
            let a = #[trigger] all[i];
            let b = #[trigger] all[j];
            a.line < b.line || (a.line == b.line && a.position < b.position)
        } by {
            if i < head.len() && j < head.len() {
                assert(all[i] == head[i] && all[j] == head[j]);
            } else if i < head.len() {
                assert(all[i] == head[i] && all[j] == tail[j - head.len()]);
            } else {
                assert(all[i] == tail[i - head.len()] && all[j] == tail[j - head.len()]);
            }
        }
    }
}

/// Every notification for a text names one of its lines, counted from 1, and
/// a column inside that line: no column at or past the line's end.
pub proof fn law_tokens_within_lines(s: Seq<char>)
    ensures
        forall|k: int|
            0 <= k < tokens_of(s).len() ==> {
                let t = #[trigger] tokens_of(s)[k];
                &&& 1 <= t.line <= lines_of(s).len()
                &&& t.position < lines_of(s)[t.line - 1].len()
            },
{
    lemma_scan_text_positions(s, 1);
}

/// How many notifications the lines `ls` give, the first of them having
/// number `first`: the sum of the counts of each line.
pub open spec fn calls_by_line(ls: Seq<Seq<char>>, first: nat) -> nat
    decreases ls.len(),
{
    if ls.len() == 0 {
        0
    } else {
        scan_line(ls[0], first, 0).len() + calls_by_line(ls.drop_first(), first + 1)
    }
}

proof fn lemma_calls_by_line(s: Seq<char>, first: nat)
    ensures
        scan_text(s, first).len() == calls_by_line(lines_of(s), first),
    decreases s.len(),
{
    lemma_line_end_bound(s);
    let k = line_end(s);
    let ls = lines_of(s);
    if k >= s.len() {
        assert(ls[0] == s);
        assert(ls.drop_first() =~= Seq::<Seq<char>>::empty());
        assert(calls_by_line(ls.drop_first(), first + 1) == 0);
    } else {
        lemma_calls_by_line(s.skip(k + 1), first + 1);
        assert(ls[0] == s.take(k));
        assert(ls.drop_first() =~= lines_of(s.skip(k + 1)));
    }
    assert(calls_by_line(ls, first) == scan_line(ls[0], first, 0).len() + calls_by_line(
        ls.drop_first(),
        first + 1,
    ));
}

/// The number of notifications for a text is the sum, over its lines, of
/// the tokens and errors found on each line.
pub proof fn law_calls_add_up_by_line(s: Seq<char>)
    ensures
        tokens_of(s).len() == calls_by_line(lines_of(s), 1),
{
    lemma_calls_by_line(s, 1);
}

/// Notifications come in reading order: top to bottom, and left to right
/// within a line.
pub proof fn law_reading_order(s: Seq<char>)
    ensures
        forall|i: int, j: int|
            0 <= i < j < tokens_of(s).len() ==> {
                let a = #[trigger] tokens_of(s)[i];
                let b = #[trigger] tokens_of(s)[j];
                a.line < b.line || (a.line == b.line && a.position < b.position)
            },
{
    lemma_scan_text_positions(s, 1);
}

/// After a line separator the next line is scanned afresh: its tokens come
/// after those of the first line, carry the next line number, and their
/// columns count from 0 at the start of that line.
pub proof fn law_next_line_starts_fresh(a: Seq<char>, b: Seq<char>)
    requires
        forall|i: int| 0 <= i < a.len() ==> a[i] != '\n',
    ensures
        tokens_of(a + seq!['\n'] + b) == scan_line(a, 1, 0) + scan_text(b, 2),
{
    let s = a + seq!['\n'] + b;
    assert(s[a.len() as int] == '\n');
    assert forall|j: int| 0 <= j < a.len() implies s[j] != '\n' by {
        assert(s[j] == a[j]);
    }
    lemma_line_end_unique(s, a.len() as int);
    assert(s.take(a.len() as int) =~= a);
    assert(s.skip(a.len() as int + 1) =~= b);
}

/// A line of white space alone, the empty line among them, gives no
/// notification.
pub proof fn law_blank_line_silent(l: Seq<char>, line: nat, col: int)
    requires
        0 <= col,
        forall|i: int| 0 <= i < l.len() ==> is_white_space(#[trigger] l[i]),
    ensures
        scan_line(l, line, col) == Seq::<Lexeme>::empty(),
    decreases l.len() - col,
{
    if col < l.len() {
        law_blank_line_silent(l, line, col + 1);
    }
}

/// A text of white space alone, line separators included, gives no
/// notification; nor does the empty text.
pub proof fn law_blank_text_silent(s: Seq<char>)
    requires
        forall|i: int| 0 <= i < s.len() ==> is_white_space(#[trigger] s[i]),
    ensures
        tokens_of(s) == Seq::<Lexeme>::empty(),
{
    lemma_blank_text_silent(s, 1);
}

proof fn lemma_blank_text_silent(s: Seq<char>, first: nat)
    requires
        forall|i: int| 0 <= i < s.len() ==> is_white_space(#[trigger] s[i]),
    ensures
        scan_text(s, first) == Seq::<Lexeme>::empty(),
    decreases s.len(),
{
    lemma_line_end_bound(s);
    let k = line_end(s);
    if k >= s.len() {
        law_blank_line_silent(s, first, 0);
    } else {
        let head = s.take(k);
        let rest = s.skip(k + 1);
        assert forall|i: int| 0 <= i < head.len() implies is_white_space(#[trigger] head[i]) by {
            assert(head[i] == s[i]);
        }
        assert forall|i: int| 0 <= i < rest.len() implies is_white_space(#[trigger] rest[i]) by {
            assert(rest[i] == s[i + k + 1]);
        }
        law_blank_line_silent(head, first, 0);
        lemma_blank_text_silent(rest, first + 1);
        assert(scan_text(s, first) =~= Seq::<Lexeme>::empty());
    }
}

/// A punctuation character alone is exactly one notification of its own
/// kind, on line 1 at column 0.
pub proof fn law_single_punctuation(c: char)
    requires
        is_punctuation(c),
    ensures
        tokens_of(seq![c]) == seq![mark(punctuation_kind(c), 1, 0)],
{
    let s = seq![c];
    lemma_line_end_unique(s, 1);
    assert(scan_line(s, 1, 1) == Seq::<Lexeme>::empty());
    assert(tokens_of(s) =~= seq![mark(punctuation_kind(c), 1, 0)]);
}

/// Within a line, a maximal run of name characters is one `Name`
/// notification carrying the whole run, at the run's first column; the scan
/// goes on right after the run.
pub proof fn law_name_run_is_one_token(l: Seq<char>, line: nat, col: int, len: int)
    requires
        0 <= col,
        0 < len,
        col + len <= l.len(),
        forall|i: int| col <= i < col + len ==> is_name_char(#[trigger] l[i]),
        col + len == l.len() || !is_name_char(l[col + len]),
    ensures
        scan_line(l, line, col) == seq![
            Lexeme { kind: TokenKind::Name, text: l.subrange(col, col + len), line, position: col as nat },
        ] + scan_line(l, line, col + len),
{
    lemma_name_char_class(l[col]);
    lemma_name_run_exact(l, col, len);
}

/// A run of name characters taken as a whole text is exactly one `Name`
/// notification with the whole run.
pub proof fn law_name_text_is_one_token(run: Seq<char>)
    requires
        0 < run.len(),
        forall|i: int| 0 <= i < run.len() ==> is_name_char(#[trigger] run[i]),
    ensures
        tokens_of(run) == seq![
            Lexeme { kind: TokenKind::Name, text: run, line: 1, position: 0 },
        ],
{
    assert forall|j: int| 0 <= j < run.len() implies run[j] != '\n' by {
        assert(is_name_char(run[j]));
    }
    lemma_line_end_unique(run, run.len() as int);
    law_name_run_is_one_token(run, 1, 0, run.len() as int);
    assert(run.subrange(0, run.len() as int) =~= run);
    assert(scan_line(run, 1, run.len() as int) == Seq::<Lexeme>::empty());
    assert(tokens_of(run) =~= seq![Lexeme { kind: TokenKind::Name, text: run, line: 1, position: 0 }]);
}

proof fn lemma_name_run_exact(l: Seq<char>, col: int, len: int)
    requires
        0 <= col,
        0 <= len,
        col + len <= l.len(),
        forall|i: int| col <= i < col + len ==> is_name_char(#[trigger] l[i]),
        col + len == l.len() || !is_name_char(l[col + len]),
    ensures
        name_run(l, col) == len,
    decreases len,
{
    if len > 0 {
        lemma_name_run_exact(l, col + 1, len - 1);
    }
}

/// A character that starts no token is one error notification at its own
/// column, and the scan of the line goes on at the next column.
pub proof fn law_unrecognized_is_one_error(l: Seq<char>, line: nat, col: int)
    requires
        0 <= col < l.len(),
        is_unrecognized(l[col]),
    ensures
        scan_line(l, line, col) == seq![
            Lexeme { kind: TokenKind::Error, text: unknown_token_message(), line, position: col as nat },
        ] + scan_line(l, line, col + 1),
{
}

} // verus!
