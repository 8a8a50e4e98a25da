use vstd::prelude::*;
use vstd::string::StringExecFns;

verus! {

// ---------------------------------------------------------------------------
// Character classes of the language.
// ---------------------------------------------------------------------------

pub open spec fn is_whitespace_char(c: char) -> bool {
    c == ' ' || c == '\t' || c == '\r' || c == '\n'
}

pub open spec fn is_letter_char(c: char) -> bool {
    (('A' as u32) <= (c as u32) && (c as u32) <= ('Z' as u32)) || (('a' as u32) <= (c as u32) && (c
        as u32) <= ('z' as u32))
}

pub open spec fn is_digit_char(c: char) -> bool {
    ('0' as u32) <= (c as u32) && (c as u32) <= ('9' as u32)
}

/// Identifiers continue with letters, digits and `-`.
pub open spec fn is_identifier_char(c: char) -> bool {
    is_letter_char(c) || is_digit_char(c) || c == '-'
}

/// The characters that may follow `\` in a string literal.
pub open spec fn is_escape_char(c: char) -> bool {
    c == 'n' || c == 'r' || c == 't' || c == '"'
}

/// The character an escape stands for.
pub open spec fn escape_value(c: char) -> char {
    if c == 'n' {
        '\n'
    } else if c == 'r' {
        '\r'
    } else if c == 't' {
        '\t'
    } else {
        '"'
    }
}

fn is_whitespace(c: char) -> (b: bool)
    ensures
        b == is_whitespace_char(c),
{
    c == ' ' || c == '\t' || c == '\r' || c == '\n'
}

fn is_letter(c: char) -> (b: bool)
    ensures
        b == is_letter_char(c),
{
    let u = c as u32;
    (65 <= u && u <= 90) || (97 <= u && u <= 122)
}

fn is_digit(c: char) -> (b: bool)
    ensures
        b == is_digit_char(c),
{
    let u = c as u32;
    48 <= u && u <= 57
}

fn is_identifier(c: char) -> (b: bool)
    ensures
        b == is_identifier_char(c),
{
    is_letter(c) || is_digit(c) || c == '-'
}

// ---------------------------------------------------------------------------
// Position bookkeeping: the row and the column reached after consuming a
// prefix of the source.  The offset of the character at index `i` is `i`
// itself; the row is 1-based and a line break resets the column to 0.
// ---------------------------------------------------------------------------

pub open spec fn row_after(s: Seq<char>) -> int
    decreases s.len(),
{
    if s.len() == 0 {
        1
    } else {
        row_after(s.drop_last()) + if s.last() == '\n' {
            1int
        } else {
            0int
        }
    }
}

pub open spec fn col_after(s: Seq<char>) -> int
    decreases s.len(),
{
    if s.len() == 0 {
        0
    } else if s.last() == '\n' {
        0
    } else {
        col_after(s.drop_last()) + 1
    }
}

/// The row of the character at index `i`.
pub open spec fn row_of(s: Seq<char>, i: int) -> int {
    row_after(s.take(i + 1))
}

/// The column of the character at index `i`.
pub open spec fn col_of(s: Seq<char>, i: int) -> int {
    col_after(s.take(i + 1))
}

proof fn lemma_pos_after_push(s: Seq<char>, c: char)
    ensures
        row_after(s.push(c)) == row_after(s) + if c == '\n' {
            1int
        } else {
            0int
        },
        col_after(s.push(c)) == if c == '\n' {
            0int
        } else {
            col_after(s) + 1
        },
{
    assert(s.push(c).drop_last() == s);
    assert(s.push(c).last() == c);
}

proof fn lemma_pos_bounds(s: Seq<char>)
    ensures
        1 <= row_after(s) <= 1 + s.len(),
        0 <= col_after(s) <= s.len(),
    decreases s.len(),
{
    if s.len() > 0 {
        lemma_pos_bounds(s.drop_last());
    }
}

// ---------------------------------------------------------------------------
// Scanning: the greedy end of a run of characters satisfying a class, the
// value of a digit run, and the body of a string literal.
// ---------------------------------------------------------------------------

/// The first index at or after `i` whose character fails `pred` (or the end
/// of the input).
pub open spec fn scan_end(s: Seq<char>, i: int, pred: spec_fn(char) -> bool) -> int
    decreases s.len() - i,
{
    if 0 <= i < s.len() {
        if pred(s[i]) {
            scan_end(s, i + 1, pred)
        } else {
            i
        }
    } else if i < 0 {
        0
    } else {
        s.len() as int
    }
}

/// The end of the whitespace run at `i`.
pub open spec fn ws_end(s: Seq<char>, i: int) -> int {
    scan_end(s, i, |c: char| is_whitespace_char(c))
}

/// The end of the identifier run at `i`.
pub open spec fn ident_end(s: Seq<char>, i: int) -> int {
    scan_end(s, i, |c: char| is_identifier_char(c))
}

/// The end of the digit run at `i`.
pub open spec fn digits_end(s: Seq<char>, i: int) -> int {
    scan_end(s, i, |c: char| is_digit_char(c))
}

pub proof fn lemma_ws_end_bounds(s: Seq<char>, i: int)
    requires
        0 <= i <= s.len(),
    ensures
        i <= ws_end(s, i) <= s.len(),
    decreases s.len() - i,
{
    if i < s.len() && is_whitespace_char(s[i]) {
        lemma_ws_end_bounds(s, i + 1);
    }
}

pub proof fn lemma_ident_end_bounds(s: Seq<char>, i: int)
    requires
        0 <= i <= s.len(),
    ensures
        i <= ident_end(s, i) <= s.len(),
    decreases s.len() - i,
{
    if i < s.len() && is_identifier_char(s[i]) {
        lemma_ident_end_bounds(s, i + 1);
    }
}

pub proof fn lemma_digits_end_bounds(s: Seq<char>, i: int)
    requires
        0 <= i <= s.len(),
    ensures
        i <= digits_end(s, i) <= s.len(),
    decreases s.len() - i,
{
    if i < s.len() && is_digit_char(s[i]) {
        lemma_digits_end_bounds(s, i + 1);
    }
}

/// The value of a run of decimal digits.
pub open spec fn digits_val(s: Seq<char>) -> int
    decreases s.len(),
{
    if s.len() == 0 {
        0
    } else {
        digits_val(s.drop_last()) * 10 + ((s.last() as u32) - ('0' as u32))
    }
}

/// The outcome of scanning a string literal body that starts at `i` (the
/// index just after the opening quote): the literal's text and the index just
/// after the closing quote, or the failure the attempt runs into.
pub enum StrScanV {
    Done { text: Seq<char>, end: int },
    ErrEof,
    ErrEscape,
}

pub open spec fn str_scan(s: Seq<char>, i: int) -> StrScanV
    decreases s.len() - i,
{
    if i < 0 || i >= s.len() {
        StrScanV::ErrEof
    } else if s[i] == '"' {
        StrScanV::Done { text: Seq::empty(), end: i + 1 }
    } else if s[i] == '\\' {
        if i + 1 >= s.len() {
            StrScanV::ErrEof
        } else if is_escape_char(s[i + 1]) {
            match str_scan(s, i + 2) {
                StrScanV::Done { text, end } => StrScanV::Done {
                    text: seq![escape_value(s[i + 1])] + text,
                    end,
                },
                e => e,
            }
        } else {
            StrScanV::ErrEscape
        }
    } else {
        match str_scan(s, i + 1) {
            StrScanV::Done { text, end } => StrScanV::Done { text: seq![s[i]] + text, end },
            e => e,
        }
    }
}

/// `str_scan` with `acc` already read.
pub open spec fn str_scan_with(acc: Seq<char>, r: StrScanV) -> StrScanV {
    match r {
        StrScanV::Done { text, end } => StrScanV::Done { text: acc + text, end },
        e => e,
    }
}

proof fn lemma_str_scan_with_cons(acc: Seq<char>, c: char, r: StrScanV)
    ensures
        str_scan_with(acc, str_scan_with(seq![c], r)) == str_scan_with(acc.push(c), r),
{
    match r {
        StrScanV::Done { text, end } => {
            assert(acc + (seq![c] + text) =~= acc.push(c) + text);
        },
        _ => {},
    }
}

pub proof fn lemma_str_scan_end(s: Seq<char>, i: int)
    requires
        0 <= i <= s.len(),
    ensures
        match str_scan(s, i) {
            StrScanV::Done { text, end } => i + 1 <= end <= s.len(),
            _ => true,
        },
    decreases s.len() - i,
{
    if i < s.len() {
        if s[i] == '"' {
        } else if s[i] == '\\' {
            if i + 1 < s.len() && is_escape_char(s[i + 1]) {
                lemma_str_scan_end(s, i + 2);
            }
        } else {
            lemma_str_scan_end(s, i + 1);
        }
    }
}

/// A token produced from a live cursor consumes at least one character, the
/// cursor afterwards is never out of range, and the token stands between the
/// cursor that produced it and the cursor it leaves behind.
pub proof fn lemma_lex_step(s: Seq<char>, i: int)
    requires
        0 <= i < s.len(),
    ensures
        match lex_step(s, i) {
            LexStepV::Tok { t, next } => i + 2 <= next <= s.len() + 1 && i - 1 <= t.offset <= next
                - 2,
            LexStepV::Fail { e } => true,
        },
{
    lemma_ws_end_bounds(s, i);
    let j = ws_end(s, i);
    if j < s.len() {
        if is_letter_char(s[j]) {
            lemma_ident_end_bounds(s, j + 1);
            assert(ident_end(s, j) == ident_end(s, j + 1));
        } else if is_digit_char(s[j]) {
            lemma_digits_end_bounds(s, j + 1);
            assert(digits_end(s, j) == digits_end(s, j + 1));
        } else if s[j] == '"' {
            lemma_str_scan_end(s, j + 1);
        }
    }
}

/// Offsets never decrease: whatever token a request yields, the token the
/// following request yields starts at or after it.
pub proof fn lemma_token_offsets_monotonic(s: Seq<char>, i: int)
    requires
        0 <= i < s.len(),
    ensures
        match lex_step(s, i) {
            LexStepV::Tok { t, next } => next - 1 < s.len() ==> match lex_step(s, next - 1) {
                LexStepV::Tok { t: t2, next: n2 } => t.offset <= t2.offset,
                LexStepV::Fail { e } => true,
            },
            LexStepV::Fail { e } => true,
        },
{
    lemma_lex_step(s, i);
    match lex_step(s, i) {
        LexStepV::Tok { t, next } => {
            if next - 1 < s.len() {
                lemma_lex_step(s, next - 1);
            }
        },
        LexStepV::Fail { e } => {},
    }
}

// ---------------------------------------------------------------------------
// Tokens and lexical errors.
// ---------------------------------------------------------------------------

pub enum TokenTagV {
    LParen,
    RParen,
    Identifier(Seq<char>),
    IntegerLiteral(i32),
    StringLiteral(Seq<char>),
    EOF,
}

pub struct TokenV {
    pub tag: TokenTagV,
    pub offset: int,
    pub row: int,
    pub col: int,
}

pub struct LexicalErrorV {
    pub offset: int,
    pub row: int,
    pub col: int,
    pub message: Seq<char>,
}

#[derive(Debug, PartialEq)]
pub enum TokenTag {
    LParen,
    RParen,
    Identifier(String),
    IntegerLiteral(i32),
    StringLiteral(String),
    EOF,
}

#[derive(Debug, PartialEq)]
pub struct Token {
    pub tag: TokenTag,
    pub offset: i32,
    pub row: i32,
    pub col: i32,
}

#[derive(Debug, PartialEq)]
pub struct LexicalError {
    pub offset: i32,
    pub row: i32,
    pub col: i32,
    pub message: String,
}

impl View for TokenTag {
    type V = TokenTagV;

    open spec fn view(&self) -> TokenTagV {
        match self {
            TokenTag::LParen => TokenTagV::LParen,
            TokenTag::RParen => TokenTagV::RParen,
            TokenTag::Identifier(s) => TokenTagV::Identifier(s@),
            TokenTag::IntegerLiteral(v) => TokenTagV::IntegerLiteral(*v),
            TokenTag::StringLiteral(s) => TokenTagV::StringLiteral(s@),
            TokenTag::EOF => TokenTagV::EOF,
        }
    }
}

impl View for Token {
    type V = TokenV;

    open spec fn view(&self) -> TokenV {
        TokenV {
            tag: self.tag@,
            offset: self.offset as int,
            row: self.row as int,
            col: self.col as int,
        }
    }
}

impl View for LexicalError {
    type V = LexicalErrorV;

    open spec fn view(&self) -> LexicalErrorV {
        LexicalErrorV {
            offset: self.offset as int,
            row: self.row as int,
            col: self.col as int,
            message: self.message@,
        }
    }
}

impl Clone for TokenTag {
    fn clone(&self) -> (r: TokenTag)
        ensures
            r@ == self@,
    {
        match self {
            TokenTag::LParen => TokenTag::LParen,
            TokenTag::RParen => TokenTag::RParen,
            TokenTag::Identifier(s) => TokenTag::Identifier(s.clone()),
            TokenTag::IntegerLiteral(v) => TokenTag::IntegerLiteral(*v),
            TokenTag::StringLiteral(s) => TokenTag::StringLiteral(s.clone()),
            TokenTag::EOF => TokenTag::EOF,
        }
    }
}

impl Clone for Token {
    fn clone(&self) -> (r: Token)
        ensures
            r@ == self@,
    {
        Token { tag: self.tag.clone(), offset: self.offset, row: self.row, col: self.col }
    }
}

/// The token for `tag` standing at index `start` of the source.
pub open spec fn token_at(s: Seq<char>, start: int, tag: TokenTagV) -> TokenV {
    TokenV { tag, offset: start, row: row_of(s, start), col: col_of(s, start) }
}

/// The lexical error reported at the index `start` of the source.
pub open spec fn lex_error_at(s: Seq<char>, start: int, message: Seq<char>) -> LexicalErrorV {
    LexicalErrorV { offset: start, row: row_of(s, start), col: col_of(s, start), message }
}

// ---------------------------------------------------------------------------
// What one request for a token yields, given the source and the index of the
// current character: the token, together with the cursor the lexer stands on
// afterwards (as the count of consumed characters), or a lexical error.
// ---------------------------------------------------------------------------

pub enum LexStepV {
    Tok { t: TokenV, next: int },
    Fail { e: LexicalErrorV },
}

pub open spec fn lex_step(s: Seq<char>, i: int) -> LexStepV
    recommends
        0 <= i < s.len(),
{
    let j = ws_end(s, i);
    if j >= s.len() {
        LexStepV::Tok {
            t: TokenV {
                tag: TokenTagV::EOF,
                offset: s.len() - 1,
                row: row_after(s),
                col: col_after(s),
            },
            next: s.len() + 1int,
        }
    } else if s[j] == '(' {
        LexStepV::Tok { t: token_at(s, j, TokenTagV::LParen), next: j + 2 }
    } else if s[j] == ')' {
        LexStepV::Tok { t: token_at(s, j, TokenTagV::RParen), next: j + 2 }
    } else if is_letter_char(s[j]) {
        let k = ident_end(s, j);
        LexStepV::Tok { t: token_at(s, j, TokenTagV::Identifier(s.subrange(j, k))), next: k + 1 }
    } else if is_digit_char(s[j]) {
        let k = digits_end(s, j);
        let v = digits_val(s.subrange(j, k));
        if v <= i32::MAX {
            LexStepV::Tok {
                t: token_at(s, j, TokenTagV::IntegerLiteral(v as i32)),
                next: k + 1,
            }
        } else {
            LexStepV::Fail { e: lex_error_at(s, j, "number too large to fit in target type"@) }
        }
    } else if s[j] == '"' {
        match str_scan(s, j + 1) {
            StrScanV::Done { text, end } => LexStepV::Tok {
                t: token_at(s, j, TokenTagV::StringLiteral(text)),
                next: end + 1,
            },
            StrScanV::ErrEof => LexStepV::Fail {
                e: lex_error_at(s, j, "unexpected EOF when parsing string"@),
            },
            StrScanV::ErrEscape => LexStepV::Fail {
                e: lex_error_at(s, j, "unknown escaped character"@),
            },
        }
    } else {
        LexStepV::Fail { e: lex_error_at(s, j, "unexpected character"@) }
    }
}

// ---------------------------------------------------------------------------
// The lexer.
// ---------------------------------------------------------------------------

/// The state of the lexer: the source, the count of consumed characters
/// (`pos == code.len() + 1` once the cursor has stepped past the end), and
/// the position fields of the last consumed character.
pub struct LexerV {
    pub code: Seq<char>,
    pub pos: int,
    pub offset: int,
    pub row: int,
    pub col: int,
}

impl LexerV {
    /// The consumed prefix of the source.
    pub open spec fn consumed(self) -> Seq<char> {
        if self.pos <= self.code.len() {
            self.code.take(self.pos)
        } else {
            self.code
        }
    }

    /// The state invariant: the position fields describe the consumed prefix.
    pub open spec fn wf(self) -> bool {
        &&& 0 <= self.pos <= self.code.len() + 1
        &&& self.code.len() + 2 <= i32::MAX
        &&& self.offset == self.consumed().len() - 1
        &&& self.row == row_after(self.consumed())
        &&& self.col == col_after(self.consumed())
    }

    /// Whether a current character is under the cursor.
    pub open spec fn has_cur(self) -> bool {
        1 <= self.pos <= self.code.len()
    }

    /// The index of the current character.
    pub open spec fn cur_idx(self) -> int {
        self.pos - 1
    }

    /// The current character, if any.
    pub open spec fn cur(self) -> Option<char> {
        if self.has_cur() {
            Some(self.code[self.pos - 1])
        } else {
            None
        }
    }

    /// The end-of-input token the lexer reports at its current position.
    pub open spec fn eof_token(self) -> TokenV {
        TokenV { tag: TokenTagV::EOF, offset: self.offset, row: self.row, col: self.col }
    }
}

pub struct Lexer {
    code: Vec<char>,
    pos: usize,
    cur_offset: i32,
    cur_row: i32,
    cur_col: i32,
}

impl View for Lexer {
    type V = LexerV;

    closed spec fn view(&self) -> LexerV {
        LexerV {
            code: self.code@,
            pos: self.pos as int,
            offset: self.cur_offset as int,
            row: self.cur_row as int,
            col: self.cur_col as int,
        }
    }
}

/// Relies on str::chars: the characters of the text, in order.
#[verifier::external_body]
fn chars_of(code: &str) -> (v: Vec<char>)
    ensures
        v@ == code@,
{
    code.chars().collect()
}

/// Relies on String::from_iter over characters: the characters become the
/// string's contents, in order.
#[verifier::external_body]
fn string_from_chars(v: &Vec<char>) -> (s: String)
    ensures
        s@ == v@,
{
    v.iter().collect()
}

impl Lexer {
    /// A fresh lexer over `code`, with nothing consumed yet.
    pub fn new(code: &str) -> (l: Lexer)
        requires
            code@.len() + 2 <= i32::MAX,
        ensures
            l@.wf(),
            l@.code == code@,
            l@.pos == 0,
    {
        let v = chars_of(code);
        Lexer { code: v, pos: 0, cur_offset: -1, cur_row: 1, cur_col: 0 }
    }

    /// Consumes one character, updating offset, row and column; once the
    /// input is exhausted the cursor steps past the end and stays there.
    fn next_char(&mut self)
        requires
            old(self)@.wf(),
        ensures
            final(self)@.wf(),
            final(self)@.code == old(self)@.code,
            final(self)@.pos == if old(self)@.pos <= old(self)@.code.len() {
                old(self)@.pos + 1
            } else {
                old(self)@.pos
            },
    {
        proof {
            lemma_pos_bounds(old(self)@.consumed());
        }
        if self.pos < self.code.len() {
            let c = self.code[self.pos];
            self.pos = self.pos + 1;
            self.cur_offset = self.cur_offset + 1;
            self.cur_col = self.cur_col + 1;
            if c == '\n' {
                self.cur_col = 0;
                self.cur_row = self.cur_row + 1;
            }
            proof {
                let s = old(self)@.code;
                let p = old(self)@.pos;
                assert(s.take(p + 1) =~= s.take(p).push(s[p]));
                lemma_pos_after_push(s.take(p), s[p]);
            }
        } else if self.pos == self.code.len() {
            self.pos = self.pos + 1;
            proof {
                assert(self@.consumed() =~= old(self)@.consumed());
            }
        }
    }

    /// Primes the cursor and returns the first token of the source.
    pub fn init(&mut self) -> (r: Result<Token, LexicalError>)
        requires
            old(self)@.wf(),
            old(self)@.pos == 0,
        ensures
            final(self)@.wf(),
            final(self)@.code == old(self)@.code,
            ({
                let s = old(self)@.code;
                if s.len() == 0 {
                    &&& (r matches Ok(t) && t@ == (TokenV {
                        tag: TokenTagV::EOF,
                        offset: -1,
                        row: 1,
                        col: 0,
                    }))
                    &&& final(self)@.cur() is None
                    &&& final(self)@.pos == 1
                } else {
                    match lex_step(s, 0) {
                        LexStepV::Tok { t, next } => (r matches Ok(tok) && tok@ == t)
                            && final(self)@.pos == next,
                        LexStepV::Fail { e } => r matches Err(le) && le@ == e,
                    }
                }
            }),
    {
        self.next_char();
        self.next()
    }

    /// Skips whitespace and returns the next token.  Past the end of the
    /// input it keeps returning the end-of-input token at an unchanged
    /// position, and leaves the state untouched.
    #[verifier::loop_isolation(false)]
    pub fn next(&mut self) -> (r: Result<Token, LexicalError>)
        requires
            old(self)@.wf(),
        ensures
            final(self)@.wf(),
            final(self)@.code == old(self)@.code,
            final(self)@.pos >= old(self)@.pos,
            match old(self)@.cur() {
                Option::None => final(self)@ == old(self)@
                    && (r matches Ok(t) && t@ == old(self)@.eof_token()),
                Option::Some(_) => match lex_step(old(self)@.code, old(self)@.cur_idx()) {
                    LexStepV::Tok { t, next } => (r matches Ok(tok) && tok@ == t)
                        && final(self)@.pos == next,
                    LexStepV::Fail { e } => r matches Err(le) && le@ == e,
                },
            },
    {
        let ghost s = self@.code;
        let ghost i0 = self@.cur_idx();

        if self.pos < 1 || self.pos > self.code.len() {
            // no current character: the end of input again, state untouched
            return Ok(
                Token {
                    tag: TokenTag::EOF,
                    offset: self.cur_offset,
                    row: self.cur_row,
                    col: self.cur_col,
                },
            );
        }
        // skip whitespace
        loop
            invariant
                self@.wf(),
                self@.code == s,
                i0 + 1 <= self@.pos,
                if self@.has_cur() {
                    ws_end(s, i0) == ws_end(s, self@.cur_idx()) && i0 <= self@.cur_idx()
                } else {
                    self@.pos == s.len() + 1 && ws_end(s, i0) == s.len()
                },
            decreases s.len() + 2 - self@.pos,
        {
            if self.pos >= 1 && self.pos <= self.code.len() {
                let c = self.code[self.pos - 1];
                if is_whitespace(c) {
                    proof {
                        let m = self@.cur_idx();
                        assert(ws_end(s, m) == ws_end(s, m + 1));
                    }
                    self.next_char();
                } else {
                    break ;
                }
            } else {
                break ;
            }
        }
        if self.pos < 1 || self.pos > self.code.len() {
            // only whitespace was left: the end of input, at the position of
            // the last character
            proof {
                assert(self@.consumed() == s);
            }
            return Ok(
                Token {
                    tag: TokenTag::EOF,
                    offset: self.cur_offset,
                    row: self.cur_row,
                    col: self.cur_col,
                },
            );
        }
        let ghost j = self@.cur_idx();
        proof {
            assert(ws_end(s, j) == j);
            assert(self@.consumed() == s.take(j + 1));
        }
        let c = self.code[self.pos - 1];
        let start_offset = self.cur_offset;
        let start_row = self.cur_row;
        let start_col = self.cur_col;

        if c == '(' {
            let token = Token {
                tag: TokenTag::LParen,
                offset: start_offset,
                row: start_row,
                col: start_col,
            };
            self.next_char();
            return Ok(token);
        }
        if c == ')' {
            let token = Token {
                tag: TokenTag::RParen,
                offset: start_offset,
                row: start_row,
                col: start_col,
            };
            self.next_char();
            return Ok(token);
        }
        if is_letter(c) {
            let mut text: Vec<char> = Vec::new();
            proof {
                assert(text@ =~= s.subrange(j, j));
            }
            loop
                invariant
                    self@.wf(),
                    self@.code == s,
                    0 <= j,
                    j + 1 <= self@.pos,
                    if self@.has_cur() {
                        &&& ident_end(s, j) == ident_end(s, self@.cur_idx())
                        &&& j <= self@.cur_idx() <= s.len()
                        &&& text@ == s.subrange(j, self@.cur_idx())
                    } else {
                        &&& self@.pos == s.len() + 1
                        &&& ident_end(s, j) == s.len()
                        &&& text@ == s.subrange(j, s.len() as int)
                    },
                decreases s.len() + 2 - self@.pos,
            {
                if self.pos >= 1 && self.pos <= self.code.len() {
                    let c2 = self.code[self.pos - 1];
                    if is_identifier(c2) {
                        text.push(c2);
                        proof {
                            let m = self@.cur_idx();
                            assert(ident_end(s, m) == ident_end(s, m + 1));
                            assert(s.subrange(j, m + 1) =~= s.subrange(j, m).push(s[m]));
                        }
                        self.next_char();
                    } else {
                        break ;
                    }
                } else {
                    break ;
                }
            }
            proof {
                if self@.has_cur() {
                    assert(ident_end(s, self@.cur_idx()) == self@.cur_idx());
                }
            }
            let value = string_from_chars(&text);
            return Ok(
                Token {
                    tag: TokenTag::Identifier(value),
                    offset: start_offset,
                    row: start_row,
                    col: start_col,
                },
            );
        }
        if is_digit(c) {
            let mut value: i64 = 0;
            let mut overflow: bool = false;
            proof {
                assert(s.subrange(j, j) =~= Seq::<char>::empty());
            }
            loop
                invariant
                    self@.wf(),
                    self@.code == s,
                    0 <= j,
                    j + 1 <= self@.pos,
                    ({
                        let m = if self@.has_cur() {
                            self@.cur_idx()
                        } else {
                            s.len() as int
                        };
                        &&& j <= m <= s.len()
                        &&& (!overflow ==> 0 <= value <= i32::MAX && value == digits_val(
                            s.subrange(j, m),
                        ))
                        &&& (overflow ==> digits_val(s.subrange(j, m)) > i32::MAX)
                        &&& (self@.has_cur() ==> digits_end(s, j) == digits_end(s, m))
                        &&& (!self@.has_cur() ==> self@.pos == s.len() + 1 && digits_end(s, j)
                            == s.len())
                    }),
                decreases s.len() + 2 - self@.pos,
            {
                if self.pos >= 1 && self.pos <= self.code.len() {
                    let c2 = self.code[self.pos - 1];
                    if is_digit(c2) {
                        proof {
                            let m = self@.cur_idx();
                            assert(digits_end(s, m) == digits_end(s, m + 1));
                            assert(s.subrange(j, m + 1) =~= s.subrange(j, m).push(s[m]));
                            assert(s.subrange(j, m + 1).drop_last() =~= s.subrange(j, m));
                        }
                        let d = (c2 as u32) - 48;
                        if !overflow {
                            let next_val = value * 10 + (d as i64);
                            if next_val > 2147483647i64 {
                                overflow = true;
                            } else {
                                value = next_val;
                            }
                        }
                        self.next_char();
                    } else {
                        break ;
                    }
                } else {
                    break ;
                }
            }
            proof {
                if self@.has_cur() {
                    assert(digits_end(s, self@.cur_idx()) == self@.cur_idx());
                }
            }
            if overflow {
                return Err(
                    LexicalError {
                        offset: start_offset,
                        row: start_row,
                        col: start_col,
                        message: String::from_str("number too large to fit in target type"),
                    },
                );
            }
            return Ok(
                Token {
                    tag: TokenTag::IntegerLiteral(value as i32),
                    offset: start_offset,
                    row: start_row,
                    col: start_col,
                },
            );
        }
        if c == '"' {
            self.next_char();
            let mut text: Vec<char> = Vec::new();
            proof {
                let r0 = str_scan(s, j + 1);
                match r0 {
                    StrScanV::Done { text: t0, end } => {
                        assert(Seq::<char>::empty() + t0 =~= t0);
                    },
                    _ => {},
                }
                assert(str_scan_with(text@, r0) == r0);
            }
            loop
                invariant
                    self@.wf(),
                    self@.code == s,
                    0 <= j,
                    j + 2 <= self@.pos,
                    self@.pos <= s.len() + 1,
                    str_scan(s, j + 1) == str_scan_with(text@, str_scan(s, self@.pos - 1)),
                decreases s.len() + 2 - self@.pos,
            {
                if self.pos < 1 || self.pos > self.code.len() {
                    return Err(
                        LexicalError {
                            offset: start_offset,
                            row: start_row,
                            col: start_col,
                            message: String::from_str("unexpected EOF when parsing string"),
                        },
                    );
                }
                let c2 = self.code[self.pos - 1];
                if c2 == '\\' {
                    let ghost m = self@.cur_idx();
                    self.next_char();
                    if self.pos < 1 || self.pos > self.code.len() {
                        return Err(
                            LexicalError {
                                offset: start_offset,
                                row: start_row,
                                col: start_col,
                                message: String::from_str("unexpected EOF when parsing string"),
                            },
                        );
                    }
                    let c3 = self.code[self.pos - 1];
                    let esc: char;
                    if c3 == 'n' {
                        esc = '\n';
                    } else if c3 == 'r' {
                        esc = '\r';
                    } else if c3 == 't' {
                        esc = '\t';
                    } else if c3 == '"' {
                        esc = '"';
                    } else {
                        return Err(
                            LexicalError {
                                offset: start_offset,
                                row: start_row,
                                col: start_col,
                                message: String::from_str("unknown escaped character"),
                            },
                        );
                    }
                    proof {
                        assert(esc == escape_value(s[m + 1]));
                        assert(str_scan(s, m) == str_scan_with(
                            seq![escape_value(s[m + 1])],
                            str_scan(s, m + 2),
                        ));
                        lemma_str_scan_with_cons(text@, esc, str_scan(s, m + 2));
                    }
                    text.push(esc);
                    self.next_char();
                } else if c2 == '"' {
                    let ghost m = self@.cur_idx();
                    proof {
                        assert(str_scan(s, m) == (StrScanV::Done {
                            text: Seq::<char>::empty(),
                            end: m + 1,
                        }));
                        assert(text@ + Seq::<char>::empty() =~= text@);
                    }
                    self.next_char();
                    let value = string_from_chars(&text);
                    return Ok(
                        Token {
                            tag: TokenTag::StringLiteral(value),
                            offset: start_offset,
                            row: start_row,
                            col: start_col,
                        },
                    );
                } else {
                    let ghost m = self@.cur_idx();
                    proof {
                        assert(str_scan(s, m) == str_scan_with(seq![s[m]], str_scan(s, m + 1)));
                        lemma_str_scan_with_cons(text@, c2, str_scan(s, m + 1));
                    }
                    text.push(c2);
                    self.next_char();
                }
            }
        }
        // any other character is not part of the language
        return Err(
            LexicalError {
                offset: start_offset,
                row: start_row,
                col: start_col,
                message: String::from_str("unexpected character"),
            },
        );
    }
}

} // verus!
