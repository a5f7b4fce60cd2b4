//! The scanner: it walks a text line by line and reports each token, with its
//! line (counted from 1) and column (counted in characters from 0), to a
//! [`TokenCollector`].
use vstd::prelude::*;

use crate::char_class::{is_name_char, is_punctuation, is_white_space, name_char, white_space};

verus! {

/// The kinds of notification that a scanner sends.
#[derive(Clone, Copy, Debug, PartialEq, Eq, Structural)]
pub enum TokenKind {
    OpenBrace,
    CloseBrace,
    OpenParenthesis,
    CloseParenthesis,
    OpenAngleBracket,
    CloseAngleBracket,
    Dash,
    Colon,
    Name,
    Error,
}

/// One notification as a value: its kind, its text (the name for `Name`, the
/// message for `Error`, empty otherwise), its line and its column.
pub struct Lexeme {
    pub kind: TokenKind,
    pub text: Seq<char>,
    pub line: nat,
    pub position: nat,
}

/// The message that comes with a character that starts no token.
pub open spec fn unknown_token_message() -> Seq<char> {
    "Unknown token"@
}

/// A notification that carries no text.
pub open spec fn mark(kind: TokenKind, line: nat, position: nat) -> Lexeme {
    Lexeme { kind, text: Seq::empty(), line, position }
}

/// The kind of notification that a punctuation character stands for.
pub open spec fn punctuation_kind(c: char) -> TokenKind {
    if c == '{' {
        TokenKind::OpenBrace
    } else if c == '}' {
        TokenKind::CloseBrace
    } else if c == '(' {
        TokenKind::OpenParenthesis
    } else if c == ')' {
        TokenKind::CloseParenthesis
    } else if c == '<' {
        TokenKind::OpenAngleBracket
    } else if c == '>' {
        TokenKind::CloseAngleBracket
    } else if c == '-' {
        TokenKind::Dash
    } else {
        TokenKind::Colon
    }
}

/// How many name characters follow one another in `l` from column `col` on.
pub open spec fn name_run(l: Seq<char>, col: int) -> nat
    decreases l.len() - col,
{
    if 0 <= col < l.len() && is_name_char(l[col]) {
        1 + name_run(l, col + 1)
    } else {
        0
    }
}

/// How many white-space characters follow one another in `l` from column
/// `col` on.
pub open spec fn white_run(l: Seq<char>, col: int) -> nat
    decreases l.len() - col,
{
    if 0 <= col < l.len() && is_white_space(l[col]) {
        1 + white_run(l, col + 1)
    } else {
        0
    }
}

/// A name run never reaches past the end of the line.
pub proof fn lemma_name_run_bound(l: Seq<char>, col: int)
    requires
        0 <= col <= l.len(),
    ensures
        col + name_run(l, col) <= l.len(),
    decreases l.len() - col,
{
    if col < l.len() && is_name_char(l[col]) {
        lemma_name_run_bound(l, col + 1);
    }
}

/// The notifications for line `l` (number `line`) from column `col` to its
/// end. At each column, in this order: a white-space character is passed
/// over; a punctuation character is one token; a name character starts a
/// name that runs as far as name characters go; any other character is an
/// error of its own. A token is reported at the column where it starts.
pub open spec fn scan_line(l: Seq<char>, line: nat, col: int) -> Seq<Lexeme>
    decreases l.len() - col,
    via scan_line_decreases
{
    if col < 0 || col >= l.len() {
        Seq::empty()
    } else {
        let c = l[col];
        if is_white_space(c) {
            scan_line(l, line, col + 1)
        } else if is_punctuation(c) {
            seq![mark(punctuation_kind(c), line, col as nat)] + scan_line(l, line, col + 1)
        } else if is_name_char(c) {
            let e = col + name_run(l, col);
            seq![Lexeme { kind: TokenKind::Name, text: l.subrange(col, e), line, position: col as nat }]
                + scan_line(l, line, e)
        } else {
            seq![Lexeme { kind: TokenKind::Error, text: unknown_token_message(), line, position: col as nat }]
                + scan_line(l, line, col + 1)
        }
    }
}

/// Where the first line of `s` ends: the index of its first line separator,
/// or the length of `s` where it has none.
pub open spec fn line_end(s: Seq<char>) -> int
    decreases s.len(),
{
    if s.len() == 0 || s[0] == '\n' {
        0
    } else {
        1 + line_end(s.drop_first())
    }
}

/// The lines of `s`, split at each line separator; a text that ends with a
/// separator has an empty last line, and the empty text has one empty line.
pub open spec fn lines_of(s: Seq<char>) -> Seq<Seq<char>>
    decreases s.len(),
    via lines_of_decreases
{
    let k = line_end(s);
    if k >= s.len() {
        seq![s]
    } else {
        seq![s.take(k)] + lines_of(s.skip(k + 1))
    }
}

/// The notifications for the text `s`, whose first line has number `first`:
/// the lines one after the other, each scanned from column 0.
pub open spec fn scan_text(s: Seq<char>, first: nat) -> Seq<Lexeme>
    decreases s.len(),
    via scan_text_decreases
{
    let k = line_end(s);
    if k >= s.len() {
        scan_line(s, first, 0)
    } else {
        scan_line(s.take(k), first, 0) + scan_text(s.skip(k + 1), first + 1)
    }
}

/// The notifications for a whole text, whose first line is line 1.
pub open spec fn tokens_of(s: Seq<char>) -> Seq<Lexeme> {
    scan_text(s, 1)
}

/// The first line of a text ends within it.
pub proof fn lemma_line_end_bound(s: Seq<char>)
    ensures
        0 <= line_end(s) <= s.len(),
        line_end(s) < s.len() ==> s[line_end(s)] == '\n',
        forall|j: int| 0 <= j < line_end(s) ==> s[j] != '\n',
    decreases s.len(),
{
    if s.len() > 0 && s[0] != '\n' {
        lemma_line_end_bound(s.drop_first());
        assert forall|j: int| 0 <= j < line_end(s) implies s[j] != '\n' by {
            if j > 0 {
                assert(s[j] == s.drop_first()[j - 1]);
            }
        }
    }
}

/// `line_end` is the first separator: an index that has one there (or is the
/// end) and none before it is `line_end`.
pub proof fn lemma_line_end_unique(s: Seq<char>, k: int)
    requires
        0 <= k <= s.len(),
        k < s.len() ==> s[k] == '\n',
        forall|j: int| 0 <= j < k ==> s[j] != '\n',
    ensures
        line_end(s) == k,
    decreases s.len(),
{
    if s.len() > 0 && s[0] != '\n' {
        assert forall|j: int| 0 <= j < k - 1 implies s.drop_first()[j] != '\n' by {
            assert(s.drop_first()[j] == s[j + 1]);
        }
        lemma_line_end_unique(s.drop_first(), k - 1);
    }
}

/// A receiver of the scanner's notifications. Each method is a plain
/// notification that cannot fail; `received` is the ghost record of every
/// notification taken so far, which each method extends by one.
pub trait TokenCollector {
    spec fn received(&self) -> Seq<Lexeme>;

    fn open_brace(&mut self, line: u32, position: u32)
        ensures
            final(self).received() == old(self).received().push(
                mark(TokenKind::OpenBrace, line as nat, position as nat),
            ),
    ;

    fn close_brace(&mut self, line: u32, position: u32)
        ensures
            final(self).received() == old(self).received().push(
                mark(TokenKind::CloseBrace, line as nat, position as nat),
            ),
    ;

    fn open_parenthesis(&mut self, line: u32, position: u32)
        ensures
            final(self).received() == old(self).received().push(
                mark(TokenKind::OpenParenthesis, line as nat, position as nat),
            ),
    ;

    fn close_parenthesis(&mut self, line: u32, position: u32)
        ensures
            final(self).received() == old(self).received().push(
                mark(TokenKind::CloseParenthesis, line as nat, position as nat),
            ),
    ;

    fn open_angle_bracket(&mut self, line: u32, position: u32)
        ensures
            final(self).received() == old(self).received().push(
                mark(TokenKind::OpenAngleBracket, line as nat, position as nat),
            ),
    ;

    fn close_angle_bracket(&mut self, line: u32, position: u32)
        ensures
            final(self).received() == old(self).received().push(
                mark(TokenKind::CloseAngleBracket, line as nat, position as nat),
            ),
    ;

    fn dash(&mut self, line: u32, position: u32)
        ensures
            final(self).received() == old(self).received().push(
                mark(TokenKind::Dash, line as nat, position as nat),
            ),
    ;

    fn colon(&mut self, line: u32, position: u32)
        ensures
            final(self).received() == old(self).received().push(
                mark(TokenKind::Colon, line as nat, position as nat),
            ),
    ;

    fn name(&mut self, name: &str, line: u32, position: u32)
        ensures
            final(self).received() == old(self).received().push(
                Lexeme { kind: TokenKind::Name, text: name@, line: line as nat, position: position as nat },
            ),
    ;

    fn error(&mut self, message: &str, line: u32, position: u32)
        ensures
            final(self).received() == old(self).received().push(
                Lexeme { kind: TokenKind::Error, text: message@, line: line as nat, position: position as nat },
            ),
    ;
}

/// A notification as an executable value.
pub struct Token {
    pub kind: TokenKind,
    pub text: String,
    pub line: u32,
    pub position: u32,
}

impl View for Token {
    type V = Lexeme;

    open spec fn view(&self) -> Lexeme {
        Lexeme {
            kind: self.kind,
            text: self.text@,
            line: self.line as nat,
            position: self.position as nat,
        }
    }
}

/// A collector that keeps every notification, in the order received.
pub struct TokenRecorder {
    pub tokens: Vec<Token>,
}

impl TokenRecorder {
    /// A recorder that has received nothing.
    pub fn new() -> (r: TokenRecorder)
        ensures
            r.received() == Seq::<Lexeme>::empty(),
    {
        TokenRecorder { tokens: Vec::new() }
    }

    /// The notifications received so far.
    pub fn tokens(&self) -> (r: &Vec<Token>)
        ensures
            r@.map_values(|t: Token| t@) == self.received(),
    {
        &self.tokens
    }

    fn record(&mut self, kind: TokenKind, text: String, line: u32, position: u32)
        ensures
            final(self).received() == old(self).received().push(
                Lexeme { kind, text: text@, line: line as nat, position: position as nat },
            ),
    {
        let t = Token { kind, text, line, position };
        self.tokens.push(t);
        assert(self.tokens@.map_values(|t: Token| t@) =~= old(self).tokens@.map_values(
            |t: Token| t@,
        ).push(t@));
    }
}

impl TokenCollector for TokenRecorder {
    open spec fn received(&self) -> Seq<Lexeme> {
        self.tokens@.map_values(|t: Token| t@)
    }

    fn open_brace(&mut self, line: u32, position: u32) {
        self.record(TokenKind::OpenBrace, String::new(), line, position);
    }

    fn close_brace(&mut self, line: u32, position: u32) {
        self.record(TokenKind::CloseBrace, String::new(), line, position);
    }

    fn open_parenthesis(&mut self, line: u32, position: u32) {
        self.record(TokenKind::OpenParenthesis, String::new(), line, position);
    }

    fn close_parenthesis(&mut self, line: u32, position: u32) {
        self.record(TokenKind::CloseParenthesis, String::new(), line, position);
    }

    fn open_angle_bracket(&mut self, line: u32, position: u32) {
        self.record(TokenKind::OpenAngleBracket, String::new(), line, position);
    }

    fn close_angle_bracket(&mut self, line: u32, position: u32) {
        self.record(TokenKind::CloseAngleBracket, String::new(), line, position);
    }

    fn dash(&mut self, line: u32, position: u32) {
        self.record(TokenKind::Dash, String::new(), line, position);
    }

    fn colon(&mut self, line: u32, position: u32) {
        self.record(TokenKind::Colon, String::new(), line, position);
    }

    fn name(&mut self, name: &str, line: u32, position: u32) {
        self.record(TokenKind::Name, name.to_owned(), line, position);
    }

    fn error(&mut self, message: &str, line: u32, position: u32) {
        self.record(TokenKind::Error, message.to_owned(), line, position);
    }
}

/// The characters of `s`, in order.
pub fn chars_of(s: &str) -> (r: Vec<char>)
    ensures
        r@ == s@,
{
    let mut r: Vec<char> = Vec::new();
    for c in it: s.chars()
        invariant
            r@ == it.seq().take(it.index() as int),
    {
        r.push(c);
    }
    r
}

/// The scanner. It owns the collector that it reports to, and keeps the line
/// and the column that it has reached.
pub struct LexicalAnalyzer<C: TokenCollector> {
    collector: C,
    line_number: u32,
    position: u32,
}

impl<C: TokenCollector> LexicalAnalyzer<C> {
    /// The collector that the scanner reports to.
    pub closed spec fn sink(&self) -> C {
        self.collector
    }

    /// A scanner that reports to `collector`.
    pub fn new(collector: C) -> (r: Self)
        ensures
            r.sink() == collector,
    {
        LexicalAnalyzer { collector, line_number: 0, position: 0 }
    }

    /// The collector, to read what it has gathered.
    pub fn collector(&self) -> (r: &C)
        ensures
            *r == self.sink(),
    {
        &self.collector
    }

    /// Gives the collector back.
    pub fn into_collector(self) -> (r: C)
        ensures
            r == self.sink(),
    {
        self.collector
    }

    /// Scans the text `s` and reports its tokens, line after line, to the
    /// collector: exactly the notifications `tokens_of(s@)`, in that order.
    /// A character that starts no token is reported as an error, and the
    /// scan goes on at the next column.
    pub fn lex(&mut self, s: &str)
        requires
            s@.len() < u32::MAX,
        ensures
            final(self).sink().received() == old(self).sink().received() + tokens_of(s@),
    {
        let ghost before = self.collector.received();
        let chars = chars_of(s);
        let n = chars.len();
        let mut start: usize = 0;
        self.line_number = 1;
        self.position = 0;
        assert(s@.skip(0) =~= s@);
        loop
            invariant_except_break
                before + tokens_of(s@) == self.collector.received() + scan_text(
                    s@.skip(start as int),
                    self.line_number as nat,
                ),
            invariant
                chars@ == s@,
                n == s@.len(),
                n < u32::MAX,
                start <= n,
                1 <= self.line_number <= start + 1,
            ensures
                self.collector.received() == before + tokens_of(s@),
            decreases n - start,
        {
            let mut end: usize = start;
            while end < n && chars[end] != '\n'
                invariant
                    start <= end <= n,
                    n == chars@.len(),
                    forall|j: int| start <= j < end ==> chars@[j] != '\n',
                decreases n - end,
            {
                end = end + 1;
            }
            let ghost rest = s@.skip(start as int);
            proof {
                assert forall|j: int| 0 <= j < end - start implies rest[j] != '\n' by {
                    assert(rest[j] == chars@[start + j]);
                }
                if end < n {
                    assert(rest[end - start] == chars@[end as int]);
                }
                lemma_line_end_unique(rest, end - start);
            }
            let line = s.substring_char(start, end);
            assert(line@ =~= rest.take(end - start));
            let ghost at_line = self.collector.received();
            self.lex_line(line);
            if end == n {
                assert(rest.take(end - start) =~= rest);
                assert(self.collector.received() =~= before + tokens_of(s@));
                break;
            }
            assert(rest.skip(end - start + 1) =~= s@.skip(end + 1));
            assert(before + tokens_of(s@) =~= self.collector.received() + scan_text(
                s@.skip(end + 1),
                self.line_number as nat + 1,
            ));
            start = end + 1;
            self.line_number = self.line_number + 1;
        }
    }

    /// Scans one line, whose number is `line_number`, from its first column.
    fn lex_line(&mut self, line: &str)
        requires
            line@.len() < u32::MAX,
        ensures
            final(self).line_number == old(self).line_number,
            final(self).position == line@.len(),
            final(self).collector.received() == old(self).collector.received() + scan_line(
                line@,
                old(self).line_number as nat,
                0,
            ),
    {
        let ghost before = self.collector.received();
        let ghost ln = self.line_number as nat;
        let chars = chars_of(line);
        self.position = 0;
        assert(before + scan_line(line@, ln, 0) =~= self.collector.received() + scan_line(line@, ln, 0));
        while (self.position as usize) < chars.len()
            invariant
                chars@ == line@,
                chars@.len() < u32::MAX,
                self.line_number == ln,
                self.position <= chars@.len(),
                before + scan_line(line@, ln, 0) == self.collector.received() + scan_line(
                    line@,
                    ln,
                    self.position as int,
                ),
            decreases chars@.len() - self.position,
        {
            let ghost pos = self.position as int;
            let ghost at_pos = self.collector.received();
            if !self.find_token(line, &chars) {
                self.collector.error("Unknown token", self.line_number, self.position);
                assert(at_pos + scan_line(line@, ln, pos) =~= self.collector.received() + scan_line(line@, ln, pos + 1));
                self.position = self.position + 1;
            }
        }
    }

    /// Takes the token that starts at the current column, if any starts
    /// there, and reports it.
    fn find_token(&mut self, line: &str, chars: &Vec<char>) -> (r: bool)
        requires
            chars@ == line@,
            chars@.len() < u32::MAX,
            old(self).position < chars@.len(),
        ensures
            final(self).line_number == old(self).line_number,
            old(self).position <= final(self).position <= chars@.len(),
            r == (is_white_space(chars@[old(self).position as int]) || is_punctuation(
                chars@[old(self).position as int],
            ) || is_name_char(chars@[old(self).position as int])),
            final(self).collector.received().len() <= old(self).collector.received().len() + 1,
            final(self).collector.received().take(old(self).collector.received().len() as int)
                == old(self).collector.received(),
            r ==> old(self).position < final(self).position,
            r ==> old(self).collector.received() + scan_line(
                chars@,
                old(self).line_number as nat,
                old(self).position as int,
            ) == final(self).collector.received() + scan_line(
                chars@,
                old(self).line_number as nat,
                final(self).position as int,
            ),
            !r ==> final(self).position == old(self).position,
            !r ==> final(self).collector.received() == old(self).collector.received(),
            !r ==> scan_line(chars@, old(self).line_number as nat, old(self).position as int)
                == seq![
                Lexeme {
                    kind: TokenKind::Error,
                    text: unknown_token_message(),
                    line: old(self).line_number as nat,
                    position: old(self).position as nat,
                },
            ] + scan_line(chars@, old(self).line_number as nat, old(self).position + 1),
    {
        let ghost l = chars@;
        let ghost ln = self.line_number as nat;
        let ghost pos = self.position as int;
        let ghost before = self.collector.received();
        if self.find_whitespace(chars) {
            assert(self.collector.received().take(before.len() as int) =~= before);
            return true;
        }
        if self.find_single_char_token(chars) {
            assert(self.collector.received().take(before.len() as int) =~= before);
            assert(before + scan_line(l, ln, pos) =~= self.collector.received() + scan_line(l, ln, pos + 1));
            return true;
        }
        if self.find_name(line, chars) {
            assert(self.collector.received().take(before.len() as int) =~= before);
            assert(before + scan_line(l, ln, pos) =~= self.collector.received() + scan_line(
                l,
                ln,
                self.position as int,
            ));
            return true;
        }
        assert(self.collector.received().take(before.len() as int) =~= before);
        false
    }

    /// Passes over the run of white space at the current column.
    fn find_whitespace(&mut self, chars: &Vec<char>) -> (r: bool)
        requires
            chars@.len() < u32::MAX,
            old(self).position <= chars@.len(),
        ensures
            final(self).line_number == old(self).line_number,
            final(self).collector == old(self).collector,
            r == (old(self).position < chars@.len() && is_white_space(
                chars@[old(self).position as int],
            )),
            final(self).position == old(self).position + white_run(
                chars@,
                old(self).position as int,
            ),
            final(self).position <= chars@.len(),
            scan_line(chars@, old(self).line_number as nat, old(self).position as int)
                == scan_line(chars@, old(self).line_number as nat, final(self).position as int),
    {
        let ghost ln = self.line_number as nat;
        let start = self.position;
        while (self.position as usize) < chars.len() && white_space(chars[self.position as usize])
            invariant
                chars@.len() < u32::MAX,
                self.line_number == ln,
                self.collector == old(self).collector,
                start <= self.position <= chars@.len(),
                self.position > start ==> is_white_space(chars@[start as int]),
                start + white_run(chars@, start as int) == self.position + white_run(
                    chars@,
                    self.position as int,
                ),
                scan_line(chars@, ln, start as int) == scan_line(chars@, ln, self.position as int),
            decreases chars@.len() - self.position,
        {
            self.position = self.position + 1;
        }
        self.position > start
    }

    /// Reports the punctuation character at the current column, if it is one.
    fn find_single_char_token(&mut self, chars: &Vec<char>) -> (r: bool)
        requires
            chars@.len() < u32::MAX,
            old(self).position < chars@.len(),
        ensures
            final(self).line_number == old(self).line_number,
            r == is_punctuation(chars@[old(self).position as int]),
            r ==> final(self).position == old(self).position + 1,
            r ==> final(self).collector.received() == old(self).collector.received().push(
                mark(
                    punctuation_kind(chars@[old(self).position as int]),
                    old(self).line_number as nat,
                    old(self).position as nat,
                ),
            ),
            !r ==> final(self).position == old(self).position,
            !r ==> final(self).collector == old(self).collector,
    {
        let c = chars[self.position as usize];
        match c {
            '{' => self.collector.open_brace(self.line_number, self.position),
            '}' => self.collector.close_brace(self.line_number, self.position),
            '(' => self.collector.open_parenthesis(self.line_number, self.position),
            ')' => self.collector.close_parenthesis(self.line_number, self.position),
            '<' => self.collector.open_angle_bracket(self.line_number, self.position),
            '>' => self.collector.close_angle_bracket(self.line_number, self.position),
            '-' => self.collector.dash(self.line_number, self.position),
            ':' => self.collector.colon(self.line_number, self.position),
            _ => return false,
        }
        self.position = self.position + 1;
        true
    }

    /// Reports the name that starts at the current column, if one starts
    /// there, and passes over it.
    fn find_name(&mut self, line: &str, chars: &Vec<char>) -> (r: bool)
        requires
            chars@ == line@,
            chars@.len() < u32::MAX,
            old(self).position <= chars@.len(),
        ensures
            final(self).line_number == old(self).line_number,
            r == (old(self).position < chars@.len() && is_name_char(
                chars@[old(self).position as int],
            )),
            final(self).position <= chars@.len(),
            r ==> final(self).position == old(self).position + name_run(
                chars@,
                old(self).position as int,
            ),
            r ==> final(self).collector.received() == old(self).collector.received().push(
                Lexeme {
                    kind: TokenKind::Name,
                    text: chars@.subrange(
                        old(self).position as int,
                        old(self).position + name_run(chars@, old(self).position as int),
                    ),
                    line: old(self).line_number as nat,
                    position: old(self).position as nat,
                },
            ),
            !r ==> final(self).position == old(self).position,
            !r ==> final(self).collector == old(self).collector,
    {
        let start = self.position;
        proof {
            lemma_name_run_bound(chars@, start as int);
        }
        while (self.position as usize) < chars.len() && name_char(chars[self.position as usize])
            invariant
                chars@.len() < u32::MAX,
                self.line_number == old(self).line_number,
                self.collector == old(self).collector,
                start <= self.position <= chars@.len(),
                self.position > start ==> is_name_char(chars@[start as int]),
                start + name_run(chars@, start as int) == self.position + name_run(
                    chars@,
                    self.position as int,
                ),
            decreases chars@.len() - self.position,
        {
            self.position = self.position + 1;
        }
        if self.position > start {
            let name = line.substring_char(start as usize, self.position as usize);
            self.collector.name(name, self.line_number, start);
            true
        } else {
            false
        }
    }
}

#[via_fn]
proof fn lines_of_decreases(s: Seq<char>) {
    lemma_line_end_bound(s);
}

#[via_fn]
proof fn scan_text_decreases(s: Seq<char>, first: nat) {
    lemma_line_end_bound(s);
}

#[via_fn]
proof fn scan_line_decreases(l: Seq<char>, line: nat, col: int) {
    if 0 <= col < l.len() {
        lemma_name_run_bound(l, col);
    }
}

} // verus!
