//! Tokens, the lexer that cuts a source text into them, and the cursor
//! through which the parser reads them.

use vstd::prelude::*;
use vstd::string::*;
use vstd::utf8::*;
use crate::text::{ascii_chars, ascii_string, push_str, str_eq, utf8_string};
use crate::text::{lemma_ascii_delimited_valid};

verus! {

/// Why a source text could not be cut into tokens.
#[derive(Debug)]
pub enum TokenErrorKind {
    CannotTokenize,
}

/// A lexing failure, with the byte offset at which it was met.
#[derive(Debug)]
pub struct TokenError {
    pub error: TokenErrorKind,
    pub pos: usize,
}

/// `count` spaces.
pub open spec fn spaces(count: nat) -> Seq<char> {
    Seq::new(count, |i: int| ' ')
}

/// The diagnostic line that points at byte offset `pos`: that many spaces, a
/// caret, a space and the message.
pub open spec fn caret_line(pos: nat, message: Seq<char>) -> Seq<char> {
    spaces(pos) + "^ "@ + message
}

/// Builds the diagnostic line that points at `pos`.
pub fn caret_message(pos: usize, message: &str) -> (line: String)
    ensures
        line@ == caret_line(pos as nat, message@),
{
    let mut line = String::new();
    let mut i: usize = 0;
    proof {
        reveal_strlit(" ");
    }
    while i < pos
        invariant
            i <= pos,
            line@ == spaces(i as nat),
            " "@ == seq![' '],
        decreases pos - i,
    {
        push_str(&mut line, " ");
        i += 1;
        assert(line@ =~= spaces(i as nat));
    }
    push_str(&mut line, "^ ");
    push_str(&mut line, message);
    line
}

impl TokenError {
    pub fn new(e: TokenErrorKind, p: usize) -> (r: Self)
        ensures
            r.error == e,
            r.pos == p,
    {
        TokenError { error: e, pos: p }
    }

    /// The diagnostic line for this error.
    pub fn to_string(&self) -> (line: String)
        ensures
            line@ == caret_line(self.pos as nat, "Cannot tokenize!"@),
    {
        match &self.error {
            TokenErrorKind::CannotTokenize => caret_message(self.pos, "Cannot tokenize!"),
        }
    }
}

/// What a token is, with its text or value.
#[derive(Debug, PartialEq)]
pub enum TokenKind {
    TokenOp(String),
    TokenNum(u32),
    TokenIdt(String),
    TokenStr(String),
    TokenRsv(String),
    TokenEnd,
}

/// The mathematical content of a [`TokenKind`].
pub enum Lexeme {
    Op(Seq<char>),
    Num(u32),
    Idt(Seq<char>),
    Str(Seq<char>),
    Rsv(Seq<char>),
    End,
}

impl View for TokenKind {
    type V = Lexeme;

    open spec fn view(&self) -> Lexeme {
        match *self {
            TokenKind::TokenOp(s) => Lexeme::Op(s@),
            TokenKind::TokenNum(n) => Lexeme::Num(n),
            TokenKind::TokenIdt(s) => Lexeme::Idt(s@),
            TokenKind::TokenStr(s) => Lexeme::Str(s@),
            TokenKind::TokenRsv(s) => Lexeme::Rsv(s@),
            TokenKind::TokenEnd => Lexeme::End,
        }
    }
}

/// A token with the byte offset at which it starts.
#[derive(Debug)]
pub struct Token {
    pub kind: TokenKind,
    pub pos: usize,
}

/// The mathematical content of a [`Token`].
pub struct Lexed {
    pub kind: Lexeme,
    pub pos: nat,
}

impl View for Token {
    type V = Lexed;

    open spec fn view(&self) -> Lexed {
        Lexed { kind: self.kind@, pos: self.pos as nat }
    }
}

impl Token {
    pub fn new(k: TokenKind, p: usize) -> (r: Self)
        ensures
            r.kind == k,
            r.pos == p,
    {
        Token { kind: k, pos: p }
    }
}

/// The views of a run of tokens.
pub open spec fn lexed_seq(tokens: Seq<Token>) -> Seq<Lexed> {
    Seq::new(tokens.len(), |i: int| tokens[i]@)
}

/// A token stream is complete when it is closed by an end token.
pub open spec fn stream_complete(stream: Seq<Lexed>) -> bool {
    stream.len() > 0 && stream.last().kind is End
}

/// The kind of the token at `at`; past the stream, the end token.
pub open spec fn kind_at(stream: Seq<Lexed>, at: int) -> Lexeme {
    if 0 <= at < stream.len() {
        stream[at].kind
    } else {
        Lexeme::End
    }
}

/// Whether the token at `at` is the operator `op`.
pub open spec fn is_op_at(stream: Seq<Lexed>, at: int, op: Seq<char>) -> bool {
    kind_at(stream, at) == Lexeme::Op(op)
}

/// Whether the token at `at` is the reserved word `word`.
pub open spec fn is_rsv_at(stream: Seq<Lexed>, at: int, word: Seq<char>) -> bool {
    kind_at(stream, at) == Lexeme::Rsv(word)
}

/// The byte offset of the token at `at`.
pub open spec fn pos_at(stream: Seq<Lexed>, at: int) -> nat {
    if 0 <= at < stream.len() {
        stream[at].pos
    } else {
        0
    }
}

/// A cursor over a complete token stream. It only moves forward, and never
/// past the closing end token.
#[derive(Debug)]
pub struct Tokens {
    pub list: Vec<Token>,
    pub current: usize,
}

impl Tokens {
    /// The stream under the cursor.
    pub open spec fn stream(&self) -> Seq<Lexed> {
        lexed_seq(self.list@)
    }

    /// The cursor stands on a token of a complete stream.
    pub open spec fn wf(&self) -> bool {
        &&& stream_complete(self.stream())
        &&& self.current < self.list.len()
    }

    /// The kind of the token under the cursor.
    pub open spec fn head_kind(&self) -> Lexeme {
        kind_at(self.stream(), self.current as int)
    }

    /// The cursor of `self` moved by `by` tokens over the same list.
    pub open spec fn moved(&self, before: &Tokens, by: int) -> bool {
        &&& self.list == before.list
        &&& self.current == before.current + by
    }

    /// Takes the number under the cursor, if there is one.
    pub fn expect_num(&mut self) -> (r: Option<u32>)
        requires
            old(self).wf(),
        ensures
            final(self).wf(),
            match old(self).head_kind() {
                Lexeme::Num(n) => r == Some(n) && final(self).moved(old(self), 1),
                _ => r is None && final(self).moved(old(self), 0),
            },
    {
        let cur_tok = &self.list[self.current];
        match &cur_tok.kind {
            TokenKind::TokenNum(num) => {
                let n = *num;
                self.current += 1;
                Some(n)
            },
            _ => None,
        }
    }

    /// Takes the word `true` or `false` under the cursor, if there is one.
    pub fn expect_bl(&mut self) -> (r: Option<bool>)
        requires
            old(self).wf(),
        ensures
            final(self).wf(),
            r == if old(self).head_kind() == Lexeme::Rsv("true"@) {
                Some(true)
            } else if old(self).head_kind() == Lexeme::Rsv("false"@) {
                Some(false)
            } else {
                None
            },
            final(self).moved(old(self), if r is Some { 1int } else { 0int }),
    {
        let cur_tok = &self.list[self.current];
        match &cur_tok.kind {
            TokenKind::TokenRsv(word) => {
                if str_eq(word.as_str(), "true") {
                    self.current += 1;
                    Some(true)
                } else if str_eq(word.as_str(), "false") {
                    self.current += 1;
                    Some(false)
                } else {
                    None
                }
            },
            _ => None,
        }
    }

    /// Takes the operator under the cursor if it is `expect`.
    pub fn expect_op(&mut self, expect: &str) -> (r: bool)
        requires
            old(self).wf(),
        ensures
            final(self).wf(),
            r == is_op_at(old(self).stream(), old(self).current as int, expect@),
            final(self).moved(old(self), if r { 1int } else { 0int }),
    {
        let cur_tok = &self.list[self.current];
        match &cur_tok.kind {
            TokenKind::TokenOp(op) => {
                if str_eq(op.as_str(), expect) {
                    self.current += 1;
                    true
                } else {
                    false
                }
            },
            _ => false,
        }
    }

    /// Takes the identifier under the cursor, if there is one.
    pub fn expect_idt(&mut self) -> (r: Option<&str>)
        requires
            old(self).wf(),
        ensures
            final(self).wf(),
            match old(self).head_kind() {
                Lexeme::Idt(name) => r matches Some(s) && s@ == name && final(self).moved(
                    old(self),
                    1,
                ),
                _ => r is None && final(self).moved(old(self), 0),
            },
    {
        let cur_tok = &self.list[self.current];
        match &cur_tok.kind {
            TokenKind::TokenIdt(name) => {
                self.current += 1;
                Some(name.as_str())
            },
            _ => None,
        }
    }

    /// Takes the string literal under the cursor, if there is one.
    pub fn expect_str(&mut self) -> (r: Option<&str>)
        requires
            old(self).wf(),
        ensures
            final(self).wf(),
            match old(self).head_kind() {
                Lexeme::Str(text) => r matches Some(s) && s@ == text && final(self).moved(
                    old(self),
                    1,
                ),
                _ => r is None && final(self).moved(old(self), 0),
            },
    {
        let cur_tok = &self.list[self.current];
        match &cur_tok.kind {
            TokenKind::TokenStr(text) => {
                self.current += 1;
                Some(text.as_str())
            },
            _ => None,
        }
    }

    /// Takes the reserved word under the cursor if it is `expect`.
    pub fn expect_rsv(&mut self, expect: &str) -> (r: bool)
        requires
            old(self).wf(),
        ensures
            final(self).wf(),
            r == is_rsv_at(old(self).stream(), old(self).current as int, expect@),
            final(self).moved(old(self), if r { 1int } else { 0int }),
    {
        let cur_tok = &self.list[self.current];
        match &cur_tok.kind {
            TokenKind::TokenRsv(word) => {
                if str_eq(word.as_str(), expect) {
                    self.current += 1;
                    true
                } else {
                    false
                }
            },
            _ => false,
        }
    }

    /// Whether a token other than the end token is under the cursor.
    pub fn has_next(&self) -> (r: bool)
        requires
            self.wf(),
        ensures
            r == !(self.head_kind() is End),
    {
        let cur_tok = &self.list[self.current];
        match &cur_tok.kind {
            TokenKind::TokenEnd => false,
            _ => true,
        }
    }

    /// The byte offset of the token under the cursor.
    pub fn head(&self) -> (r: usize)
        requires
            self.wf(),
        ensures
            r == pos_at(self.stream(), self.current as int),
    {
        let cur_tok = &self.list[self.current];
        cur_tok.pos
    }

    /// The byte offset of the token `offset` tokens before the cursor, if
    /// there is one.
    pub fn head_before(&self, offset: usize) -> (r: Option<usize>)
        requires
            self.wf(),
        ensures
            r is Some <==> offset <= self.current,
            r matches Some(p) ==> p == pos_at(self.stream(), self.current - offset),
    {
        if offset <= self.current {
            Some(self.list[self.current - offset].pos)
        } else {
            None
        }
    }

    /// A cursor at the start of `v`.
    pub fn new(v: Vec<Token>) -> (r: Self)
        requires
            stream_complete(lexed_seq(v@)),
        ensures
            r.wf(),
            r.list == v,
            r.current == 0,
    {
        Self { list: v, current: 0 }
    }
}


/// The bytes that the lexer tells apart, by their ASCII codes.
pub const DIGIT_0: u8 = 48;

pub const DIGIT_9: u8 = 57;

pub const UPPER_A: u8 = 65;

pub const UPPER_Z: u8 = 90;

pub const LOWER_A: u8 = 97;

pub const LOWER_Z: u8 = 122;

pub const UNDERSCORE: u8 = 95;

pub const LESS: u8 = 60;

pub const GREATER: u8 = 62;

pub const EQUALS: u8 = 61;

pub const BANG: u8 = 33;

pub const PLUS: u8 = 43;

pub const STAR: u8 = 42;

pub const PAREN_OPEN: u8 = 40;

pub const PAREN_CLOSE: u8 = 41;

pub const BRACKET_OPEN: u8 = 91;

pub const BRACKET_CLOSE: u8 = 93;

pub const BRACE_OPEN: u8 = 123;

pub const BRACE_CLOSE: u8 = 125;

pub const AMPERSAND: u8 = 38;

pub const COMMA: u8 = 44;

pub const COLON: u8 = 58;

pub const SEMICOLON: u8 = 59;

pub const MINUS: u8 = 45;

pub const QUOTE: u8 = 34;

pub const SLASH: u8 = 47;

pub const SPACE: u8 = 32;

pub const TAB: u8 = 9;

pub const LINE_FEED: u8 = 10;

/// The classes of bytes of which the lexer scans runs.
#[derive(Clone, Copy, Debug)]
pub enum ByteClass {
    /// A decimal digit.
    Digit,
    /// One of `<`, `>`, `=`, `!`.
    Compare,
    /// The `>` that may follow a `-`.
    Arrow,
    /// A letter, a digit or `_`.
    Word,
    /// Anything but `"`.
    StrBody,
    /// Anything but a line feed.
    LineBody,
}

pub open spec fn is_digit(b: u8) -> bool {
    DIGIT_0 <= b <= DIGIT_9
}

pub open spec fn is_word_start(b: u8) -> bool {
    (UPPER_A <= b <= UPPER_Z) || (LOWER_A <= b <= LOWER_Z) || b == UNDERSCORE
}

pub open spec fn is_compare(b: u8) -> bool {
    b == LESS || b == GREATER || b == EQUALS || b == BANG
}

/// The bytes that are an operator on their own.
pub open spec fn is_single_op(b: u8) -> bool {
    b == PLUS || b == STAR || b == PAREN_OPEN || b == PAREN_CLOSE || b == BRACKET_OPEN || b == BRACKET_CLOSE || b == BRACE_OPEN || b
        == BRACE_CLOSE || b == AMPERSAND || b == COMMA || b == COLON || b == SEMICOLON
}

pub open spec fn is_space(b: u8) -> bool {
    b == SPACE || b == TAB || b == LINE_FEED
}

pub open spec fn in_class(class: ByteClass, b: u8) -> bool {
    match class {
        ByteClass::Digit => is_digit(b),
        ByteClass::Compare => is_compare(b),
        ByteClass::Arrow => b == GREATER,
        ByteClass::Word => is_word_start(b) || is_digit(b),
        ByteClass::StrBody => b != QUOTE,
        ByteClass::LineBody => b != LINE_FEED,
    }
}

/// Where the run of `class` bytes that starts at `from` ends: the first index
/// from `from` on that holds no byte of the class, or the length.
pub open spec fn run_end(bytes: Seq<u8>, class: ByteClass, from: int) -> int
    decreases bytes.len() - from,
{
    if 0 <= from < bytes.len() && in_class(class, bytes[from]) {
        run_end(bytes, class, from + 1)
    } else {
        from
    }
}

/// Whether a block comment closes at `at`: a `*` that a `/` follows, or that
/// is the last byte.
pub open spec fn closes_comment(bytes: Seq<u8>, at: int) -> bool {
    bytes[at] == STAR && (at + 1 >= bytes.len() || bytes[at + 1] == SLASH)
}

/// Where the block comment whose body starts at `from` closes, or the length
/// where it never does.
pub open spec fn comment_close(bytes: Seq<u8>, from: int) -> int
    decreases bytes.len() - from,
{
    if 0 <= from < bytes.len() && !closes_comment(bytes, from) {
        comment_close(bytes, from + 1)
    } else {
        from
    }
}

/// The number that a run of decimal digits writes.
pub open spec fn digits_value(digits: Seq<u8>) -> nat
    decreases digits.len(),
{
    if digits.len() == 0 {
        0
    } else {
        digits_value(digits.drop_last()) * 10 + (digits.last() - DIGIT_0) as nat
    }
}

/// The words that the language keeps for itself.
pub open spec fn is_reserved(word: Seq<char>) -> bool {
    word == "fn"@ || word == "let"@ || word == "static"@ || word == "if"@ || word == "else"@
        || word == "for"@ || word == "while"@ || word == "break"@ || word == "continue"@ || word
        == "return"@ || word == "i8"@ || word == "i16"@ || word == "i32"@ || word == "i64"@
        || word == "u8"@ || word == "u16"@ || word == "u32"@ || word == "u64"@ || word == "bool"@
        || word == "str"@ || word == "true"@ || word == "false"@
}

/// The token that a word is: a reserved word or an identifier.
pub open spec fn word_lexeme(word: Seq<char>) -> Lexeme {
    if is_reserved(word) {
        Lexeme::Rsv(word)
    } else {
        Lexeme::Idt(word)
    }
}

/// What the lexer does at one place of the source.
pub enum LexStep {
    /// A token starts here; the lexer goes on at `next`.
    Emit { kind: Lexeme, next: int },
    /// Blank space or a comment; the lexer goes on at `next`.
    Skip { next: int },
    /// No token can start here.
    Fail,
}

/// What the lexer does at byte `cur` of `bytes`.
///
/// A number is a maximal run of digits and must fit in 32 bits. A word is a
/// letter or `_` and the letters, digits and `_` after it. The comparison
/// characters after a comparison character belong to one operator, and so do
/// the `>` after a `-`.
///
/// A string literal holds at least the byte after its opening quote, and
/// runs to the next quote after that byte or to the end of the source. So
/// there is no empty literal: in `""` the second quote is the first byte of
/// the literal, which goes on to the quote after it. A literal that no
/// quote closes is a literal all the same, closed by the end of the source.
///
/// A line comment runs to the line feed, a block comment to its `*/`; the
/// end of the source closes either, and so does a `*` that is the last byte
/// of the source. The lexer then goes on past the end, where the end token
/// stands.
///
/// A `/` or a `"` that is the last byte starts nothing.
pub open spec fn lex_step(bytes: Seq<u8>, cur: int) -> LexStep
    recommends
        0 <= cur < bytes.len(),
{
    let b = bytes[cur];
    if is_digit(b) {
        let end = run_end(bytes, ByteClass::Digit, cur + 1);
        let value = digits_value(bytes.subrange(cur, end));
        if value <= u32::MAX {
            LexStep::Emit { kind: Lexeme::Num(value as u32), next: end }
        } else {
            LexStep::Fail
        }
    } else if is_single_op(b) {
        LexStep::Emit { kind: Lexeme::Op(ascii_chars(bytes.subrange(cur, cur + 1))), next: cur + 1 }
    } else if is_compare(b) {
        let end = run_end(bytes, ByteClass::Compare, cur + 1);
        LexStep::Emit { kind: Lexeme::Op(ascii_chars(bytes.subrange(cur, end))), next: end }
    } else if b == MINUS {
        let end = run_end(bytes, ByteClass::Arrow, cur + 1);
        LexStep::Emit { kind: Lexeme::Op(ascii_chars(bytes.subrange(cur, end))), next: end }
    } else if b == QUOTE {
        if cur + 1 >= bytes.len() {
            LexStep::Fail
        } else {
            let end = run_end(bytes, ByteClass::StrBody, cur + 2);
            LexStep::Emit {
                kind: Lexeme::Str(decode_utf8(bytes.subrange(cur + 1, end))),
                next: end + 1,
            }
        }
    } else if is_word_start(b) {
        let end = run_end(bytes, ByteClass::Word, cur + 1);
        LexStep::Emit { kind: word_lexeme(ascii_chars(bytes.subrange(cur, end))), next: end }
    } else if b == SLASH {
        if cur + 1 >= bytes.len() {
            LexStep::Fail
        } else if bytes[cur + 1] == SLASH {
            LexStep::Skip { next: run_end(bytes, ByteClass::LineBody, cur + 2) + 1 }
        } else if bytes[cur + 1] == STAR {
            LexStep::Skip { next: comment_close(bytes, cur + 2) + 2 }
        } else {
            LexStep::Emit {
                kind: Lexeme::Op(ascii_chars(bytes.subrange(cur, cur + 1))),
                next: cur + 1,
            }
        }
    } else if is_space(b) {
        LexStep::Skip { next: cur + 1 }
    } else {
        LexStep::Fail
    }
}

/// A run ends at or after its start, and within the bytes when it starts
/// there.
pub proof fn lemma_run_end_bounds(bytes: Seq<u8>, class: ByteClass, from: int)
    ensures
        from <= run_end(bytes, class, from),
        from <= bytes.len() ==> run_end(bytes, class, from) <= bytes.len(),
    decreases bytes.len() - from,
{
    if 0 <= from < bytes.len() && in_class(class, bytes[from]) {
        lemma_run_end_bounds(bytes, class, from + 1);
    }
}

/// A block comment closes at or after the start of its body, and within the
/// bytes when the body starts there.
pub proof fn lemma_comment_close_bounds(bytes: Seq<u8>, from: int)
    ensures
        from <= comment_close(bytes, from),
        from <= bytes.len() ==> comment_close(bytes, from) <= bytes.len(),
    decreases bytes.len() - from,
{
    if 0 <= from < bytes.len() && !closes_comment(bytes, from) {
        lemma_comment_close_bounds(bytes, from + 1);
    }
}

/// Every step of the lexer moves forward, and by no more than two bytes past
/// the end of the source.
pub proof fn lemma_step_advances(bytes: Seq<u8>, cur: int)
    requires
        0 <= cur < bytes.len(),
    ensures
        match lex_step(bytes, cur) {
            LexStep::Emit { kind, next } => cur < next <= bytes.len() + 1,
            LexStep::Skip { next } => cur < next <= bytes.len() + 2,
            LexStep::Fail => true,
        },
{
    lemma_run_end_bounds(bytes, ByteClass::Digit, cur + 1);
    lemma_run_end_bounds(bytes, ByteClass::Compare, cur + 1);
    lemma_run_end_bounds(bytes, ByteClass::Arrow, cur + 1);
    lemma_run_end_bounds(bytes, ByteClass::Word, cur + 1);
    lemma_run_end_bounds(bytes, ByteClass::StrBody, cur + 2);
    lemma_run_end_bounds(bytes, ByteClass::LineBody, cur + 2);
    lemma_comment_close_bounds(bytes, cur + 2);
}

/// The tokens of `bytes` from byte `cur` on, closed by the end token, or the
/// offset of the first byte at which no token can start.
pub open spec fn lex_from(bytes: Seq<u8>, cur: int) -> Result<Seq<Lexed>, nat>
    decreases bytes.len() + 2 - cur,
{
    if 0 <= cur < bytes.len() {
        match lex_step(bytes, cur) {
            LexStep::Emit { kind, next } => {
                proof {
                    lemma_step_advances(bytes, cur);
                }
                match lex_from(bytes, next) {
                    Ok(rest) => Ok(seq![Lexed { kind, pos: cur as nat }] + rest),
                    Err(at) => Err(at),
                }
            },
            LexStep::Skip { next } => {
                proof {
                    lemma_step_advances(bytes, cur);
                }
                lex_from(bytes, next)
            },
            LexStep::Fail => Err(cur as nat),
        }
    } else {
        Ok(seq![Lexed { kind: Lexeme::End, pos: if cur < 0 { 0 } else { cur as nat } }])
    }
}

/// The longest source, in bytes, whose offsets all fit.
pub open spec fn max_source_len() -> int {
    usize::MAX - 2
}

/// The tokens of the source `bytes`, or the offset of the first byte at which
/// no token can start. A source longer than [`max_source_len`] is refused at
/// offset 0.
pub open spec fn lex(bytes: Seq<u8>) -> Result<Seq<Lexed>, nat> {
    if bytes.len() > max_source_len() {
        Err(0)
    } else {
        lex_from(bytes, 0)
    }
}

/// The tokens that the lexer gives end with the end token.
pub proof fn lemma_lex_complete(bytes: Seq<u8>, cur: int)
    ensures
        lex_from(bytes, cur) matches Ok(stream) ==> stream_complete(stream),
    decreases bytes.len() + 2 - cur,
{
    if 0 <= cur < bytes.len() {
        lemma_step_advances(bytes, cur);
        match lex_step(bytes, cur) {
            LexStep::Emit { kind, next } => {
                lemma_lex_complete(bytes, next);
            },
            LexStep::Skip { next } => {
                lemma_lex_complete(bytes, next);
            },
            LexStep::Fail => {},
        }
    }
}


/// The tokens that the lexer gives stand in the order of the source: each
/// starts at or after the byte at which the lexer went on, and before the
/// token after it.
pub proof fn lemma_lex_ordered(bytes: Seq<u8>, cur: int)
    requires
        0 <= cur,
    ensures
        lex_from(bytes, cur) matches Ok(stream) ==> stream.len() > 0 && cur <= stream[0].pos
            && forall|i: int, j: int|
            0 <= i < j < stream.len() ==> (#[trigger] stream[i]).pos < (#[trigger] stream[j]).pos,
    decreases bytes.len() + 2 - cur,
{
    if 0 <= cur < bytes.len() {
        lemma_step_advances(bytes, cur);
        match lex_step(bytes, cur) {
            LexStep::Emit { kind, next } => {
                lemma_lex_ordered(bytes, next);
                match lex_from(bytes, next) {
                    Ok(rest) => {
                        let stream = seq![Lexed { kind, pos: cur as nat }] + rest;
                        assert forall|i: int, j: int| 0 <= i < j < stream.len() implies (
                        #[trigger] stream[i]).pos < (#[trigger] stream[j]).pos by {
                            assert(stream[j] == rest[j - 1]);
                            if i > 0 {
                                assert(stream[i] == rest[i - 1]);
                            } else if j > 1 {
                                assert(rest[0].pos < rest[j - 1].pos);
                            }
                        }
                    },
                    Err(_) => {},
                }
            },
            LexStep::Skip { next } => {
                lemma_lex_ordered(bytes, next);
            },
            LexStep::Fail => {},
        }
    }
}

/// Only the last token that the lexer gives is the end token, and every
/// token before it starts within the source.
pub proof fn lemma_lex_end(bytes: Seq<u8>, cur: int)
    requires
        0 <= cur,
    ensures
        lex_from(bytes, cur) matches Ok(stream) ==> stream.len() > 0 && stream.last().kind is End
            && forall|i: int|
            0 <= i < stream.len() - 1 ==> !((#[trigger] stream[i]).kind is End) && stream[i].pos
                < bytes.len(),
    decreases bytes.len() + 2 - cur,
{
    if 0 <= cur < bytes.len() {
        lemma_step_advances(bytes, cur);
        match lex_step(bytes, cur) {
            LexStep::Emit { kind, next } => {
                lemma_lex_end(bytes, next);
                match lex_from(bytes, next) {
                    Ok(rest) => {
                        let stream = seq![Lexed { kind, pos: cur as nat }] + rest;
                        assert(stream.last() == rest.last());
                        assert forall|i: int| 0 <= i < stream.len() - 1 implies !((
                        #[trigger] stream[i]).kind is End) && stream[i].pos < bytes.len() by {
                            if i > 0 {
                                assert(stream[i] == rest[i - 1]);
                            }
                        }
                    },
                    Err(_) => {},
                }
            },
            LexStep::Skip { next } => {
                lemma_lex_end(bytes, next);
            },
            LexStep::Fail => {},
        }
    }
}

/// The tokens `done` followed by the tokens of `bytes` from `cur` on.
pub open spec fn lex_onto(done: Seq<Lexed>, bytes: Seq<u8>, cur: int) -> Result<Seq<Lexed>, nat> {
    match lex_from(bytes, cur) {
        Ok(rest) => Ok(done + rest),
        Err(at) => Err(at),
    }
}

/// A run of digits writes no smaller a number than any of its prefixes.
proof fn lemma_digits_value_monotonic(digits: Seq<u8>, len: int)
    requires
        0 <= len <= digits.len(),
        forall|i: int| 0 <= i < digits.len() ==> is_digit(#[trigger] digits[i]),
    ensures
        digits_value(digits.subrange(0, len)) <= digits_value(digits),
    decreases digits.len() - len,
{
    if len == digits.len() {
        assert(digits.subrange(0, len) =~= digits);
    } else {
        let longer = digits.subrange(0, len + 1);
        assert(longer.drop_last() =~= digits.subrange(0, len));
        assert(is_digit(digits[len]));
        assert(longer.last() == digits[len]);
        lemma_digits_value_monotonic(digits, len + 1);
    }
}

fn digit_byte(b: u8) -> (r: bool)
    ensures
        r == is_digit(b),
{
    DIGIT_0 <= b && b <= DIGIT_9
}

fn word_start_byte(b: u8) -> (r: bool)
    ensures
        r == is_word_start(b),
{
    (UPPER_A <= b && b <= UPPER_Z) || (LOWER_A <= b && b <= LOWER_Z) || b == UNDERSCORE
}

fn compare_byte(b: u8) -> (r: bool)
    ensures
        r == is_compare(b),
{
    b == LESS || b == GREATER || b == EQUALS || b == BANG
}

fn single_op_byte(b: u8) -> (r: bool)
    ensures
        r == is_single_op(b),
{
    b == PLUS || b == STAR || b == PAREN_OPEN || b == PAREN_CLOSE || b == BRACKET_OPEN || b
        == BRACKET_CLOSE || b == BRACE_OPEN || b == BRACE_CLOSE || b == AMPERSAND || b == COMMA
        || b == COLON || b == SEMICOLON
}

fn space_byte(b: u8) -> (r: bool)
    ensures
        r == is_space(b),
{
    b == SPACE || b == TAB || b == LINE_FEED
}

fn class_has(class: ByteClass, b: u8) -> (r: bool)
    ensures
        r == in_class(class, b),
{
    match class {
        ByteClass::Digit => digit_byte(b),
        ByteClass::Compare => compare_byte(b),
        ByteClass::Arrow => b == GREATER,
        ByteClass::Word => word_start_byte(b) || digit_byte(b),
        ByteClass::StrBody => b != QUOTE,
        ByteClass::LineBody => b != LINE_FEED,
    }
}

/// Finds the end of the run of `class` bytes that starts at `from`.
fn scan_run(bytes: &[u8], class: ByteClass, from: usize) -> (end: usize)
    requires
        from <= bytes@.len(),
    ensures
        end == run_end(bytes@, class, from as int),
        from <= end <= bytes@.len(),
        forall|i: int| from <= i < end ==> in_class(class, #[trigger] bytes@[i]),
        end < bytes@.len() ==> !in_class(class, bytes@[end as int]),
{
    let mut i: usize = from;
    while i < bytes.len() && class_has(class, bytes[i])
        invariant
            from <= i <= bytes@.len(),
            run_end(bytes@, class, from as int) == run_end(bytes@, class, i as int),
            forall|k: int| from <= k < i ==> in_class(class, #[trigger] bytes@[k]),
        decreases bytes@.len() - i,
    {
        i += 1;
    }
    i
}

/// Whether `word` is kept by the language.
fn reserved_word(word: &str) -> (r: bool)
    ensures
        r == is_reserved(word@),
{
    str_eq(word, "fn") || str_eq(word, "let") || str_eq(word, "static") || str_eq(word, "if")
        || str_eq(word, "else") || str_eq(word, "for") || str_eq(word, "while") || str_eq(
        word,
        "break",
    ) || str_eq(word, "continue") || str_eq(word, "return") || str_eq(word, "i8") || str_eq(
        word,
        "i16",
    ) || str_eq(word, "i32") || str_eq(word, "i64") || str_eq(word, "u8") || str_eq(word, "u16")
        || str_eq(word, "u32") || str_eq(word, "u64") || str_eq(word, "bool") || str_eq(
        word,
        "str",
    ) || str_eq(word, "true") || str_eq(word, "false")
}

/// What one of the token lexers leaves behind: the token that [`lex_step`]
/// names, and the cursor where it says to go on.
pub open spec fn emitted(bytes: Seq<u8>, start: int, tok: Token, next: int) -> bool {
    lex_step(bytes, start) == (LexStep::Emit { kind: tok.kind@, next }) && tok.pos == start
}

/// Lexes the number at the cursor; `None` where it does not fit in 32 bits.
fn lex_num(bytes: &[u8], cur: &mut usize) -> (tok: Option<Token>)
    requires
        bytes@.len() <= max_source_len(),
        *old(cur) < bytes@.len(),
        is_digit(bytes@[*old(cur) as int]),
    ensures
        match tok {
            Some(t) => emitted(bytes@, *old(cur) as int, t, *final(cur) as int),
            None => lex_step(bytes@, *old(cur) as int) is Fail,
        },
{
    let start = *cur;
    let end = scan_run(bytes, ByteClass::Digit, start + 1);
    let ghost digits = bytes@.subrange(start as int, end as int);
    let mut value: u32 = 0;
    let mut i: usize = start;
    while i < end
        invariant
            start <= i <= end <= bytes@.len(),
            digits == bytes@.subrange(start as int, end as int),
            forall|k: int| 0 <= k < digits.len() ==> is_digit(#[trigger] digits[k]),
            value == digits_value(digits.subrange(0, i - start)),
            end == run_end(bytes@, ByteClass::Digit, start + 1),
            is_digit(bytes@[start as int]),
            start == *old(cur),
        decreases end - i,
    {
        assert(is_digit(digits[i - start]));
        let d: u64 = (bytes[i] - DIGIT_0) as u64;
        let wide: u64 = (value as u64) * 10 + d;
        proof {
            let longer = digits.subrange(0, i + 1 - start);
            assert(longer.drop_last() =~= digits.subrange(0, i - start));
            assert(longer.last() == bytes@[i as int]);
            assert(is_digit(digits[i - start]));
            assert(wide == digits_value(longer));
            lemma_digits_value_monotonic(digits, i + 1 - start);
        }
        if wide > u32::MAX as u64 {
            return None;
        }
        value = wide as u32;
        i += 1;
    }
    assert(digits.subrange(0, end - start) =~= digits);
    *cur = end;
    Some(Token::new(TokenKind::TokenNum(value), start))
}

/// Lexes the operator made of the comparison characters at the cursor.
fn lex_compare(bytes: &[u8], cur: &mut usize) -> (tok: Token)
    requires
        bytes@.len() <= max_source_len(),
        *old(cur) < bytes@.len(),
        is_compare(bytes@[*old(cur) as int]),
    ensures
        emitted(bytes@, *old(cur) as int, tok, *final(cur) as int),
{
    let start = *cur;
    let end = scan_run(bytes, ByteClass::Compare, start + 1);
    let op = ascii_string(bytes, start, end);
    *cur = end;
    Token::new(TokenKind::TokenOp(op), start)
}

/// Lexes the operator that starts with the `-` at the cursor.
fn lex_arw(bytes: &[u8], cur: &mut usize) -> (tok: Token)
    requires
        bytes@.len() <= max_source_len(),
        *old(cur) < bytes@.len(),
        bytes@[*old(cur) as int] == MINUS,
    ensures
        emitted(bytes@, *old(cur) as int, tok, *final(cur) as int),
{
    let start = *cur;
    let end = scan_run(bytes, ByteClass::Arrow, start + 1);
    let op = ascii_string(bytes, start, end);
    *cur = end;
    Token::new(TokenKind::TokenOp(op), start)
}

/// Lexes the operator that the single byte at the cursor is.
fn lex_single(bytes: &[u8], cur: &mut usize) -> (tok: Token)
    requires
        bytes@.len() <= max_source_len(),
        *old(cur) < bytes@.len(),
        is_single_op(bytes@[*old(cur) as int]) || (bytes@[*old(cur) as int] == SLASH && *old(cur)
            + 1 < bytes@.len() && bytes@[*old(cur) + 1] != SLASH && bytes@[*old(cur) + 1] != STAR),
    ensures
        emitted(bytes@, *old(cur) as int, tok, *final(cur) as int),
{
    let start = *cur;
    let op = ascii_string(bytes, start, start + 1);
    *cur = start + 1;
    Token::new(TokenKind::TokenOp(op), start)
}

/// Lexes the string literal whose opening quote is at the cursor.
fn lex_str(bytes: &[u8], cur: &mut usize) -> (tok: Token)
    requires
        bytes@.len() <= max_source_len(),
        valid_utf8(bytes@),
        *old(cur) + 1 < bytes@.len(),
        bytes@[*old(cur) as int] == QUOTE,
    ensures
        emitted(bytes@, *old(cur) as int, tok, *final(cur) as int),
{
    let start = *cur;
    let end = scan_run(bytes, ByteClass::StrBody, start + 2);
    proof {
        lemma_ascii_delimited_valid(bytes@, start + 1, end as int);
    }
    let text = match utf8_string(bytes, start + 1, end) {
        Some(s) => s,
        None => String::new(),
    };
    *cur = end + 1;
    Token::new(TokenKind::TokenStr(text), start)
}

/// Lexes the word at the cursor: a reserved word or an identifier.
fn lex_word(bytes: &[u8], cur: &mut usize) -> (tok: Token)
    requires
        bytes@.len() <= max_source_len(),
        *old(cur) < bytes@.len(),
        is_word_start(bytes@[*old(cur) as int]),
    ensures
        emitted(bytes@, *old(cur) as int, tok, *final(cur) as int),
{
    let start = *cur;
    let end = scan_run(bytes, ByteClass::Word, start + 1);
    let name = ascii_string(bytes, start, end);
    *cur = end;
    if reserved_word(name.as_str()) {
        Token::new(TokenKind::TokenRsv(name), start)
    } else {
        Token::new(TokenKind::TokenIdt(name), start)
    }
}

/// Skips the line comment that starts at the cursor.
fn skip_line_comment(bytes: &[u8], cur: &mut usize)
    requires
        *old(cur) + 1 < bytes@.len(),
        bytes@.len() <= max_source_len(),
        bytes@[*old(cur) as int] == SLASH,
        bytes@[*old(cur) + 1] == SLASH,
    ensures
        lex_step(bytes@, *old(cur) as int) == (LexStep::Skip { next: *final(cur) as int }),
{
    let end = scan_run(bytes, ByteClass::LineBody, *cur + 2);
    *cur = end + 1;
}

/// Skips the block comment that starts at the cursor.
fn skip_block_comment(bytes: &[u8], cur: &mut usize)
    requires
        *old(cur) + 1 < bytes@.len(),
        bytes@.len() <= max_source_len(),
        bytes@[*old(cur) as int] == SLASH,
        bytes@[*old(cur) + 1] == STAR,
    ensures
        lex_step(bytes@, *old(cur) as int) == (LexStep::Skip { next: *final(cur) as int }),
{
    let from = *cur + 2;
    let mut i: usize = from;
    while i < bytes.len() && !(bytes[i] == STAR && (i + 1 >= bytes.len() || bytes[i + 1] == SLASH))
        invariant
            from <= i <= bytes@.len(),
            comment_close(bytes@, from as int) == comment_close(bytes@, i as int),
        decreases bytes@.len() - i,
    {
        i += 1;
    }
    *cur = i + 2;
}

/// Cuts a source text into tokens.
///
/// The result is the stream that [`lex`] defines over the bytes of the text,
/// closed by the end token, or the error that points at the first byte at
/// which no token can start.
pub fn tokenize(formula: &str) -> (res: Result<Vec<Token>, TokenError>)
    ensures
        match lex(encode_utf8(formula@)) {
            Ok(stream) => res matches Ok(v) && lexed_seq(v@) == stream && stream_complete(stream),
            Err(at) => res matches Err(e) && e.pos == at && e.error is CannotTokenize,
        },
{
    let bytes = formula.as_bytes();
    proof {
        encode_utf8_valid_utf8(formula@);
    }
    if bytes.len() > usize::MAX - 2 {
        return Err(TokenError::new(TokenErrorKind::CannotTokenize, 0));
    }
    let mut tokens: Vec<Token> = Vec::new();
    let mut cur: usize = 0;
    assert(lexed_seq(tokens@) + lex_from(bytes@, 0)->Ok_0 =~= lex_from(bytes@, 0)->Ok_0);
    while cur < bytes.len()
        invariant
            valid_utf8(bytes@),
            bytes@ == encode_utf8(formula@),
            bytes@.len() <= max_source_len(),
            cur <= bytes@.len() + 2,
            lex_onto(lexed_seq(tokens@), bytes@, cur as int) == lex_from(bytes@, 0),
        decreases bytes@.len() + 2 - cur,
    {
        let start = cur;
        let b = bytes[cur];
        let ghost done = lexed_seq(tokens@);
        proof {
            lemma_step_advances(bytes@, cur as int);
        }
        let emit: Option<Token> = if digit_byte(b) {
            match lex_num(bytes, &mut cur) {
                Some(t) => Some(t),
                None => {
                    return Err(TokenError::new(TokenErrorKind::CannotTokenize, start));
                },
            }
        } else if single_op_byte(b) {
            Some(lex_single(bytes, &mut cur))
        } else if compare_byte(b) {
            Some(lex_compare(bytes, &mut cur))
        } else if b == MINUS {
            Some(lex_arw(bytes, &mut cur))
        } else if b == QUOTE {
            if cur + 1 >= bytes.len() {
                return Err(TokenError::new(TokenErrorKind::CannotTokenize, start));
            }
            Some(lex_str(bytes, &mut cur))
        } else if word_start_byte(b) {
            Some(lex_word(bytes, &mut cur))
        } else if b == SLASH {
            if cur + 1 >= bytes.len() {
                return Err(TokenError::new(TokenErrorKind::CannotTokenize, start));
            } else if bytes[cur + 1] == SLASH {
                skip_line_comment(bytes, &mut cur);
                None
            } else if bytes[cur + 1] == STAR {
                skip_block_comment(bytes, &mut cur);
                None
            } else {
                Some(lex_single(bytes, &mut cur))
            }
        } else if space_byte(b) {
            cur += 1;
            None
        } else {
            return Err(TokenError::new(TokenErrorKind::CannotTokenize, start));
        };
        match emit {
            Some(t) => {
                tokens.push(t);
                proof {
                    assert(lexed_seq(tokens@) =~= done.push(t@));
                    match lex_from(bytes@, cur as int) {
                        Ok(rest) => {
                            assert(done.push(t@) + rest =~= done + (seq![t@] + rest));
                        },
                        Err(_) => {},
                    }
                }
            },
            None => {},
        }
    }
    let ghost done = lexed_seq(tokens@);
    tokens.push(Token::new(TokenKind::TokenEnd, cur));
    proof {
        assert(lexed_seq(tokens@) =~= done + seq![Lexed { kind: Lexeme::End, pos: cur as nat }]);
        lemma_lex_complete(bytes@, 0);
    }
    Ok(tokens)
}

} // verus!
