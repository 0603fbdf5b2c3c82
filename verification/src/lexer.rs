use vstd::prelude::*;
use vstd::string::StringExecFns;

use crate::span::Span;
use crate::text::{
    are_char_indices, byte_len, byte_offset, char_indices, char_is_alphabetic,
    char_is_alphanumeric, char_is_ascii_alphanumeric, char_is_ascii_digit, char_is_whitespace,
    chars_equal_str, is_ascii_alnum_char, is_ascii_digit_char, is_ascii_letter, is_white_space,
    lemma_byte_offset_bound, lemma_byte_offset_end, lemma_byte_offset_mono, lemma_byte_offset_strict, source_chars,
    str_byte_len, string_push,
    unicode_alphabetic, unicode_alphanumeric,
};

verus! {

/// Token categories recognized by the hand-written lexer.
#[derive(Clone, Copy, Debug, PartialEq, Eq, Structural, Hash)]
pub enum TokenKind {
    Eof,
    Ident,
    Int,
    String,
    FormatString,
    Package,
    Use,
    Pub,
    Const,
    Static,
    Let,
    Var,
    Fn,
    Async,
    Await,
    Spawn,
    Defer,
    Return,
    Break,
    Continue,
    If,
    Else,
    Match,
    For,
    While,
    Loop,
    In,
    Where,
    Struct,
    Data,
    Enum,
    Trait,
    Impl,
    Extend,
    Type,
    Opaque,
    Extern,
    Unsafe,
    Is,
    As,
    Satisfies,
    NoneKw,
    TrueKw,
    FalseKw,
    SelfKw,
    MoveKw,
    LParen,
    RParen,
    LBrace,
    RBrace,
    LBracket,
    RBracket,
    Comma,
    Dot,
    DotDot,
    Colon,
    Semi,
    At,
    Arrow,
    FatArrow,
    Question,
    Eq,
    EqEq,
    BangEq,
    Plus,
    Minus,
    Star,
    Slash,
    Percent,
    Lt,
    Gt,
    LtEq,
    GtEq,
    Underscore,
}

/// A lexed token with its text and source span.
#[derive(Clone, Debug, PartialEq, Eq)]
pub struct Token {
    pub kind: TokenKind,
    pub text: String,
    pub span: Span,
}

/// A recoverable lexical error produced during tokenization.
#[derive(Clone, Debug, PartialEq, Eq)]
pub struct LexError {
    pub message: String,
    pub span: Span,
}

impl View for Token {
    type V = (TokenKind, Seq<char>, Span);

    open spec fn view(&self) -> (TokenKind, Seq<char>, Span) {
        (self.kind, self.text@, self.span)
    }
}

impl View for LexError {
    type V = (Seq<char>, Span);

    open spec fn view(&self) -> (Seq<char>, Span) {
        (self.message@, self.span)
    }
}

pub open spec fn tokens_view(tokens: Seq<Token>) -> Seq<(TokenKind, Seq<char>, Span)> {
    tokens.map_values(|t: Token| t@)
}

pub open spec fn errors_view(errors: Seq<LexError>) -> Seq<(Seq<char>, Span)> {
    errors.map_values(|e: LexError| e@)
}

// ---------------------------------------------------------------------------
// Keywords.
// ---------------------------------------------------------------------------

/// The keyword that `s` spells, if any.
pub open spec fn keyword_kind(s: Seq<char>) -> Option<TokenKind> {
    if s == "package"@ {
        Some(TokenKind::Package)
    } else if s == "use"@ {
        Some(TokenKind::Use)
    } else if s == "pub"@ {
        Some(TokenKind::Pub)
    } else if s == "const"@ {
        Some(TokenKind::Const)
    } else if s == "static"@ {
        Some(TokenKind::Static)
    } else if s == "let"@ {
        Some(TokenKind::Let)
    } else if s == "var"@ {
        Some(TokenKind::Var)
    } else if s == "fn"@ {
        Some(TokenKind::Fn)
    } else if s == "async"@ {
        Some(TokenKind::Async)
    } else if s == "await"@ {
        Some(TokenKind::Await)
    } else if s == "spawn"@ {
        Some(TokenKind::Spawn)
    } else if s == "defer"@ {
        Some(TokenKind::Defer)
    } else if s == "return"@ {
        Some(TokenKind::Return)
    } else if s == "break"@ {
        Some(TokenKind::Break)
    } else if s == "continue"@ {
        Some(TokenKind::Continue)
    } else if s == "if"@ {
        Some(TokenKind::If)
    } else if s == "else"@ {
        Some(TokenKind::Else)
    } else if s == "match"@ {
        Some(TokenKind::Match)
    } else if s == "for"@ {
        Some(TokenKind::For)
    } else if s == "while"@ {
        Some(TokenKind::While)
    } else if s == "loop"@ {
        Some(TokenKind::Loop)
    } else if s == "in"@ {
        Some(TokenKind::In)
    } else if s == "where"@ {
        Some(TokenKind::Where)
    } else if s == "struct"@ {
        Some(TokenKind::Struct)
    } else if s == "data"@ {
        Some(TokenKind::Data)
    } else if s == "enum"@ {
        Some(TokenKind::Enum)
    } else if s == "trait"@ {
        Some(TokenKind::Trait)
    } else if s == "impl"@ {
        Some(TokenKind::Impl)
    } else if s == "extend"@ {
        Some(TokenKind::Extend)
    } else if s == "type"@ {
        Some(TokenKind::Type)
    } else if s == "opaque"@ {
        Some(TokenKind::Opaque)
    } else if s == "extern"@ {
        Some(TokenKind::Extern)
    } else if s == "unsafe"@ {
        Some(TokenKind::Unsafe)
    } else if s == "is"@ {
        Some(TokenKind::Is)
    } else if s == "as"@ {
        Some(TokenKind::As)
    } else if s == "satisfies"@ {
        Some(TokenKind::Satisfies)
    } else if s == "none"@ {
        Some(TokenKind::NoneKw)
    } else if s == "true"@ {
        Some(TokenKind::TrueKw)
    } else if s == "false"@ {
        Some(TokenKind::FalseKw)
    } else if s == "self"@ {
        Some(TokenKind::SelfKw)
    } else if s == "move"@ {
        Some(TokenKind::MoveKw)
    } else {
        None
    }
}

/// The keyword token kind spelled by `label`, if any.
pub fn keyword_kind_for_label(label: &str) -> (kind: Option<TokenKind>)
    ensures
        kind == keyword_kind(label@),
{
    let cs = source_chars(label);
    let n = cs.len();
    assert(cs@.subrange(0, n as int) =~= label@);
    if chars_equal_str(&cs, 0, n, "package") {
        Some(TokenKind::Package)
    } else if chars_equal_str(&cs, 0, n, "use") {
        Some(TokenKind::Use)
    } else if chars_equal_str(&cs, 0, n, "pub") {
        Some(TokenKind::Pub)
    } else if chars_equal_str(&cs, 0, n, "const") {
        Some(TokenKind::Const)
    } else if chars_equal_str(&cs, 0, n, "static") {
        Some(TokenKind::Static)
    } else if chars_equal_str(&cs, 0, n, "let") {
        Some(TokenKind::Let)
    } else if chars_equal_str(&cs, 0, n, "var") {
        Some(TokenKind::Var)
    } else if chars_equal_str(&cs, 0, n, "fn") {
        Some(TokenKind::Fn)
    } else if chars_equal_str(&cs, 0, n, "async") {
        Some(TokenKind::Async)
    } else if chars_equal_str(&cs, 0, n, "await") {
        Some(TokenKind::Await)
    } else if chars_equal_str(&cs, 0, n, "spawn") {
        Some(TokenKind::Spawn)
    } else if chars_equal_str(&cs, 0, n, "defer") {
        Some(TokenKind::Defer)
    } else if chars_equal_str(&cs, 0, n, "return") {
        Some(TokenKind::Return)
    } else if chars_equal_str(&cs, 0, n, "break") {
        Some(TokenKind::Break)
    } else if chars_equal_str(&cs, 0, n, "continue") {
        Some(TokenKind::Continue)
    } else if chars_equal_str(&cs, 0, n, "if") {
        Some(TokenKind::If)
    } else if chars_equal_str(&cs, 0, n, "else") {
        Some(TokenKind::Else)
    } else if chars_equal_str(&cs, 0, n, "match") {
        Some(TokenKind::Match)
    } else if chars_equal_str(&cs, 0, n, "for") {
        Some(TokenKind::For)
    } else if chars_equal_str(&cs, 0, n, "while") {
        Some(TokenKind::While)
    } else if chars_equal_str(&cs, 0, n, "loop") {
        Some(TokenKind::Loop)
    } else if chars_equal_str(&cs, 0, n, "in") {
        Some(TokenKind::In)
    } else if chars_equal_str(&cs, 0, n, "where") {
        Some(TokenKind::Where)
    } else if chars_equal_str(&cs, 0, n, "struct") {
        Some(TokenKind::Struct)
    } else if chars_equal_str(&cs, 0, n, "data") {
        Some(TokenKind::Data)
    } else if chars_equal_str(&cs, 0, n, "enum") {
        Some(TokenKind::Enum)
    } else if chars_equal_str(&cs, 0, n, "trait") {
        Some(TokenKind::Trait)
    } else if chars_equal_str(&cs, 0, n, "impl") {
        Some(TokenKind::Impl)
    } else if chars_equal_str(&cs, 0, n, "extend") {
        Some(TokenKind::Extend)
    } else if chars_equal_str(&cs, 0, n, "type") {
        Some(TokenKind::Type)
    } else if chars_equal_str(&cs, 0, n, "opaque") {
        Some(TokenKind::Opaque)
    } else if chars_equal_str(&cs, 0, n, "extern") {
        Some(TokenKind::Extern)
    } else if chars_equal_str(&cs, 0, n, "unsafe") {
        Some(TokenKind::Unsafe)
    } else if chars_equal_str(&cs, 0, n, "is") {
        Some(TokenKind::Is)
    } else if chars_equal_str(&cs, 0, n, "as") {
        Some(TokenKind::As)
    } else if chars_equal_str(&cs, 0, n, "satisfies") {
        Some(TokenKind::Satisfies)
    } else if chars_equal_str(&cs, 0, n, "none") {
        Some(TokenKind::NoneKw)
    } else if chars_equal_str(&cs, 0, n, "true") {
        Some(TokenKind::TrueKw)
    } else if chars_equal_str(&cs, 0, n, "false") {
        Some(TokenKind::FalseKw)
    } else if chars_equal_str(&cs, 0, n, "self") {
        Some(TokenKind::SelfKw)
    } else if chars_equal_str(&cs, 0, n, "move") {
        Some(TokenKind::MoveKw)
    } else {
        None
    }
}

/// Whether `text` is a reserved keyword of the language.
pub fn is_keyword(text: &str) -> (keyword: bool)
    ensures
        keyword == keyword_kind(text@).is_some(),
{
    keyword_kind_for_label(text).is_some()
}

// ---------------------------------------------------------------------------
// Identifier chars.
// ---------------------------------------------------------------------------

/// A char that may start an identifier: `_`, an ASCII letter, or a
/// non-ASCII char with the Unicode `Alphabetic` property.
pub open spec fn ident_start_char(c: char) -> bool {
    ||| c == '_'
    ||| is_ascii_letter(c)
    ||| ((c as u32) >= 0x80 && unicode_alphabetic(c))
}

/// A char that may continue an identifier: `_`, an ASCII letter or digit, or
/// a non-ASCII alphanumeric char.
pub open spec fn ident_continue_char(c: char) -> bool {
    ||| c == '_'
    ||| is_ascii_alnum_char(c)
    ||| ((c as u32) >= 0x80 && unicode_alphanumeric(c))
}

pub open spec fn number_continue_char(c: char) -> bool {
    is_ascii_alnum_char(c) || c == '_'
}

pub fn is_ident_start(ch: char) -> (r: bool)
    ensures
        r == ident_start_char(ch),
{
    ch == '_' || char_is_alphabetic(ch)
}

pub fn is_ident_continue(ch: char) -> (r: bool)
    ensures
        r == ident_continue_char(ch),
{
    ch == '_' || char_is_alphanumeric(ch)
}

pub fn is_number_continue(ch: char) -> (r: bool)
    ensures
        r == number_continue_char(ch),
{
    char_is_ascii_alphanumeric(ch) || ch == '_'
}

pub fn is_line_break(ch: char) -> (r: bool)
    ensures
        r == (ch == '\n'),
{
    ch == '\n'
}

// ---------------------------------------------------------------------------
// The lexical grammar, as a step function over the chars of the source.
// ---------------------------------------------------------------------------

/// Byte span covering the chars with indices `i..j`.
pub open spec fn char_span(cs: Seq<char>, i: int, j: int) -> Span {
    Span { start: byte_offset(cs, i) as usize, end: byte_offset(cs, j) as usize }
}

pub open spec fn char_at(cs: Seq<char>, k: int) -> Option<char> {
    if 0 <= k < cs.len() {
        Some(cs[k])
    } else {
        None
    }
}

/// End of an identifier whose continuation starts at `k`.
pub open spec fn ident_end(cs: Seq<char>, k: int) -> int
    decreases cs.len() - k,
{
    if 0 <= k < cs.len() && ident_continue_char(cs[k]) {
        ident_end(cs, k + 1)
    } else {
        k
    }
}

/// End of a number literal whose continuation starts at `k`.
pub open spec fn number_end(cs: Seq<char>, k: int) -> int
    decreases cs.len() - k,
{
    if 0 <= k < cs.len() && number_continue_char(cs[k]) {
        number_end(cs, k + 1)
    } else {
        k
    }
}

/// End of a line comment body starting at `k`: the next newline, or the end.
pub open spec fn line_comment_end(cs: Seq<char>, k: int) -> int
    decreases cs.len() - k,
{
    if 0 <= k < cs.len() && cs[k] != '\n' {
        line_comment_end(cs, k + 1)
    } else {
        k
    }
}

/// Index just past the `*/` closing a block comment whose body starts at `k`.
pub open spec fn block_comment_end(cs: Seq<char>, k: int) -> Option<int>
    decreases cs.len() - k,
{
    if k < 0 || k >= cs.len() {
        None
    } else if cs[k] == '*' && k + 1 < cs.len() && cs[k + 1] == '/' {
        Some(k + 2)
    } else {
        block_comment_end(cs, k + 1)
    }
}

/// Index of the quote closing a string literal whose content starts at `k`;
/// a backslash escapes the char after it.
pub open spec fn string_close(cs: Seq<char>, k: int) -> Option<int>
    decreases cs.len() - k,
{
    if k < 0 || k >= cs.len() {
        None
    } else if cs[k] == '"' {
        Some(k)
    } else if cs[k] == '\\' {
        if k + 1 < cs.len() {
            string_close(cs, k + 2)
        } else {
            None
        }
    } else {
        string_close(cs, k + 1)
    }
}

pub open spec fn unexpected_char_message(c: char) -> Seq<char> {
    "unexpected character `"@.push(c) + "`"@
}

pub open spec fn single_char_kind(c: char) -> Option<TokenKind> {
    if c == '(' {
        Some(TokenKind::LParen)
    } else if c == ')' {
        Some(TokenKind::RParen)
    } else if c == '{' {
        Some(TokenKind::LBrace)
    } else if c == '}' {
        Some(TokenKind::RBrace)
    } else if c == '[' {
        Some(TokenKind::LBracket)
    } else if c == ']' {
        Some(TokenKind::RBracket)
    } else if c == ',' {
        Some(TokenKind::Comma)
    } else if c == ':' {
        Some(TokenKind::Colon)
    } else if c == ';' {
        Some(TokenKind::Semi)
    } else if c == '?' {
        Some(TokenKind::Question)
    } else if c == '@' {
        Some(TokenKind::At)
    } else if c == '+' {
        Some(TokenKind::Plus)
    } else if c == '*' {
        Some(TokenKind::Star)
    } else if c == '/' {
        Some(TokenKind::Slash)
    } else if c == '%' {
        Some(TokenKind::Percent)
    } else {
        None
    }
}

/// The kind of a two-char operator starting with `c` when followed by `d`.
pub open spec fn double_char_kind(c: char, d: char) -> Option<TokenKind> {
    if c == '.' && d == '.' {
        Some(TokenKind::DotDot)
    } else if c == '-' && d == '>' {
        Some(TokenKind::Arrow)
    } else if c == '=' && d == '>' {
        Some(TokenKind::FatArrow)
    } else if c == '=' && d == '=' {
        Some(TokenKind::EqEq)
    } else if c == '!' && d == '=' {
        Some(TokenKind::BangEq)
    } else if c == '<' && d == '=' {
        Some(TokenKind::LtEq)
    } else if c == '>' && d == '=' {
        Some(TokenKind::GtEq)
    } else {
        None
    }
}

/// The kind of an operator made of `c` alone, where `c` may start a longer one.
pub open spec fn lone_operator_kind(c: char) -> Option<TokenKind> {
    if c == '.' {
        Some(TokenKind::Dot)
    } else if c == '-' {
        Some(TokenKind::Minus)
    } else if c == '=' {
        Some(TokenKind::Eq)
    } else if c == '<' {
        Some(TokenKind::Lt)
    } else if c == '>' {
        Some(TokenKind::Gt)
    } else {
        None
    }
}

/// One lexing step at char index `i`: where the next step starts, the token
/// produced (if any) and the errors produced.
pub type Step = (int, Option<(TokenKind, Seq<char>, Span)>, Seq<(Seq<char>, Span)>);

pub open spec fn string_step(cs: Seq<char>, i: int, content: int, kind: TokenKind) -> Step {
    match string_close(cs, content) {
        Some(q) => (q + 1, Some((kind, cs.subrange(content, q), char_span(cs, i, q + 1))), seq![]),
        None => (
            cs.len() as int,
            None,
            seq![("unterminated string literal"@, char_span(cs, i, cs.len() as int))],
        ),
    }
}

pub open spec fn operator_step(cs: Seq<char>, i: int) -> Step {
    let c = cs[i];
    let n = cs.len() as int;
    if single_char_kind(c) is Some {
        (i + 1, Some((single_char_kind(c)->0, cs.subrange(i, i + 1), char_span(cs, i, i + 1))), seq![])
    } else if i + 1 < n && double_char_kind(c, cs[i + 1]) is Some {
        (
            i + 2,
            Some((double_char_kind(c, cs[i + 1])->0, cs.subrange(i, i + 2), char_span(cs, i, i + 2))),
            seq![],
        )
    } else if lone_operator_kind(c) is Some {
        (i + 1, Some((lone_operator_kind(c)->0, cs.subrange(i, i + 1), char_span(cs, i, i + 1))), seq![])
    } else if c == '!' {
        // A lone `!` is reported, and then also reported as an unexpected
        // character together with the char that follows it.
        let j = if i + 1 < n {
            i + 2
        } else {
            i + 1
        };
        (
            j,
            None,
            seq![
                ("unexpected `!`; only `!=` is currently supported"@, char_span(cs, i, i + 1)),
                (unexpected_char_message(c), char_span(cs, i, j)),
            ],
        )
    } else {
        (i + 1, None, seq![(unexpected_char_message(c), char_span(cs, i, i + 1))])
    }
}

/// The lexing step at char index `i < cs.len()`.
pub open spec fn step(cs: Seq<char>, i: int) -> Step {
    let c = cs[i];
    let n = cs.len() as int;
    if is_white_space(c) {
        (i + 1, None, seq![])
    } else if c == '/' && char_at(cs, i + 1) == Some('/') {
        (line_comment_end(cs, i + 2), None, seq![])
    } else if c == '/' && char_at(cs, i + 1) == Some('*') {
        match block_comment_end(cs, i + 2) {
            Some(j) => (j, None, seq![]),
            None => (n, None, seq![("unterminated block comment"@, char_span(cs, i, n))]),
        }
    } else if c == 'f' && char_at(cs, i + 1) == Some('"') {
        string_step(cs, i, i + 2, TokenKind::FormatString)
    } else if c == '"' {
        string_step(cs, i, i + 1, TokenKind::String)
    } else if is_ascii_digit_char(c) {
        let j = number_end(cs, i + 1);
        (j, Some((TokenKind::Int, cs.subrange(i, j), char_span(cs, i, j))), seq![])
    } else if c == '_' {
        (i + 1, Some((TokenKind::Underscore, cs.subrange(i, i + 1), char_span(cs, i, i + 1))), seq![])
    } else if ident_start_char(c) {
        let j = ident_end(cs, i + 1);
        let text = cs.subrange(i, j);
        let kind = match keyword_kind(text) {
            Some(k) => k,
            None => TokenKind::Ident,
        };
        (j, Some((kind, text, char_span(cs, i, j))), seq![])
    } else {
        operator_step(cs, i)
    }
}

pub open spec fn eof_token(cs: Seq<char>) -> (TokenKind, Seq<char>, Span) {
    (TokenKind::Eof, Seq::empty(), char_span(cs, cs.len() as int, cs.len() as int))
}

pub open spec fn prepend_token(
    t: Option<(TokenKind, Seq<char>, Span)>,
    rest: Seq<(TokenKind, Seq<char>, Span)>,
) -> Seq<(TokenKind, Seq<char>, Span)> {
    match t {
        Some(tok) => seq![tok] + rest,
        None => rest,
    }
}

/// Tokens and errors produced from char index `i` to the end of the source.
pub open spec fn lex_from(cs: Seq<char>, i: int) -> (
    Seq<(TokenKind, Seq<char>, Span)>,
    Seq<(Seq<char>, Span)>,
)
    decreases cs.len() - i,
{
    if i < 0 || i >= cs.len() {
        (seq![eof_token(cs)], seq![])
    } else {
        let s = step(cs, i);
        if s.0 <= i || s.0 > cs.len() {
            (seq![], seq![])
        } else {
            let rest = lex_from(cs, s.0);
            (prepend_token(s.1, rest.0), s.2 + rest.1)
        }
    }
}

/// The tokens and errors of a whole source text.
pub open spec fn lex_spec(cs: Seq<char>) -> (Seq<(TokenKind, Seq<char>, Span)>, Seq<(Seq<char>, Span)>) {
    lex_from(cs, 0)
}

// ---------------------------------------------------------------------------
// Facts about the grammar.
// ---------------------------------------------------------------------------

pub proof fn lemma_ident_end(cs: Seq<char>, k: int)
    requires
        0 <= k <= cs.len(),
    ensures
        k <= ident_end(cs, k) <= cs.len(),
        forall|m: int| k <= m < ident_end(cs, k) ==> ident_continue_char(#[trigger] cs[m]),
        ident_end(cs, k) < cs.len() ==> !ident_continue_char(cs[ident_end(cs, k)]),
    decreases cs.len() - k,
{
    if k < cs.len() && ident_continue_char(cs[k]) {
        lemma_ident_end(cs, k + 1);
    }
}

pub proof fn lemma_number_end(cs: Seq<char>, k: int)
    requires
        0 <= k <= cs.len(),
    ensures
        k <= number_end(cs, k) <= cs.len(),
        forall|m: int| k <= m < number_end(cs, k) ==> number_continue_char(#[trigger] cs[m]),
        number_end(cs, k) < cs.len() ==> !number_continue_char(cs[number_end(cs, k)]),
    decreases cs.len() - k,
{
    if k < cs.len() && number_continue_char(cs[k]) {
        lemma_number_end(cs, k + 1);
    }
}

pub proof fn lemma_line_comment_end(cs: Seq<char>, k: int)
    requires
        0 <= k <= cs.len(),
    ensures
        k <= line_comment_end(cs, k) <= cs.len(),
        forall|m: int| k <= m < line_comment_end(cs, k) ==> #[trigger] cs[m] != '\n',
        line_comment_end(cs, k) < cs.len() ==> cs[line_comment_end(cs, k)] == '\n',
    decreases cs.len() - k,
{
    if k < cs.len() && cs[k] != '\n' {
        lemma_line_comment_end(cs, k + 1);
    }
}

pub proof fn lemma_block_comment_end(cs: Seq<char>, k: int)
    requires
        0 <= k,
    ensures
        block_comment_end(cs, k) matches Some(j) ==> k + 2 <= j <= cs.len(),
    decreases cs.len() - k,
{
    if k < cs.len() && !(cs[k] == '*' && k + 1 < cs.len() && cs[k + 1] == '/') {
        lemma_block_comment_end(cs, k + 1);
    }
}

pub proof fn lemma_string_close(cs: Seq<char>, k: int)
    requires
        0 <= k,
    ensures
        string_close(cs, k) matches Some(q) ==> k <= q < cs.len() && cs[q] == '"',
    decreases cs.len() - k,
{
    if 0 <= k < cs.len() && cs[k] != '"' {
        if cs[k] == '\\' {
            if k + 1 < cs.len() {
                lemma_string_close(cs, k + 2);
            }
        } else {
            lemma_string_close(cs, k + 1);
        }
    }
}

/// Every step consumes at least one char and stays within the source.
pub proof fn lemma_step_progress(cs: Seq<char>, i: int)
    requires
        0 <= i < cs.len(),
    ensures
        i < step(cs, i).0 <= cs.len(),
{
    let c = cs[i];
    lemma_line_comment_end(cs, i + 1);
    if i + 2 <= cs.len() {
        lemma_line_comment_end(cs, i + 2);
    }
    lemma_block_comment_end(cs, i + 2);
    lemma_string_close(cs, i + 1);
    lemma_string_close(cs, i + 2);
    lemma_number_end(cs, i + 1);
    lemma_ident_end(cs, i + 1);
}

// ---------------------------------------------------------------------------
// Laws of the token stream.
// ---------------------------------------------------------------------------

/// A token covers the chars `a..b` of the source: its span is their byte
/// span, and (unless it is a string literal, whose text is the content
/// between the quotes) its text is those chars.
pub open spec fn token_covers(cs: Seq<char>, t: (TokenKind, Seq<char>, Span), a: int, b: int) -> bool {
    &&& 0 <= a <= b <= cs.len()
    &&& t.2 == char_span(cs, a, b)
    &&& (t.0 != TokenKind::String && t.0 != TokenKind::FormatString) ==> t.1 == cs.subrange(a, b)
}

/// The token covers some run of chars of the source.
pub open spec fn token_has_cover(cs: Seq<char>, t: (TokenKind, Seq<char>, Span)) -> bool {
    exists|a: int, b: int| #[trigger] token_covers(cs, t, a, b)
}

/// The shape every token stream produced from a source has.
pub open spec fn token_stream_well_formed(cs: Seq<char>, toks: Seq<(TokenKind, Seq<char>, Span)>) -> bool {
    &&& toks.len() >= 1
    &&& toks.last() == eof_token(cs)
    &&& forall|k: int| 0 <= k < toks.len() - 1 ==> (#[trigger] toks[k]).0 != TokenKind::Eof
    &&& forall|k: int| 0 <= k < toks.len() ==> token_has_cover(cs, #[trigger] toks[k])
    &&& forall|k: int, m: int|
        0 <= k < m < toks.len() ==> (#[trigger] toks[k]).2.end <= (#[trigger] toks[m]).2.start
    &&& forall|k: int|
        0 <= k < toks.len() ==> (#[trigger] toks[k]).2.start <= toks[k].2.end <= byte_len(cs)
}

/// The token a step produces covers exactly the chars the step consumes.
pub proof fn lemma_step_token(cs: Seq<char>, i: int)
    requires
        0 <= i < cs.len(),
    ensures
        step(cs, i).1 matches Some(t) ==> token_covers(cs, t, i, step(cs, i).0) && t.0
            != TokenKind::Eof,
{
    lemma_step_progress(cs, i);
    lemma_string_close(cs, i + 1);
    lemma_string_close(cs, i + 2);
    let c = cs[i];
    if ident_start_char(c) && !is_white_space(c) {
        let j = ident_end(cs, i + 1);
        let text = cs.subrange(i, j);
        if keyword_kind(text) is Some {
            assert(keyword_kind(text)->0 != TokenKind::String);
        }
    }
}

/// Tokens lexed from index `i` on start at or after the byte offset of `i`.
proof fn lemma_lex_from_shape(cs: Seq<char>, i: int)
    requires
        0 <= i <= cs.len(),
        byte_len(cs) <= usize::MAX,
    ensures
        token_stream_well_formed(cs, lex_from(cs, i).0),
        forall|k: int|
            0 <= k < lex_from(cs, i).0.len() ==> byte_offset(cs, i) <= (
            #[trigger] lex_from(cs, i).0[k]).2.start,
    decreases cs.len() - i,
{
    let toks = lex_from(cs, i).0;
    lemma_byte_offset_end(cs);
    if i >= cs.len() {
        let e = eof_token(cs);
        assert(cs.subrange(cs.len() as int, cs.len() as int) =~= Seq::<char>::empty());
        assert(token_covers(cs, e, cs.len() as int, cs.len() as int));
        assert(toks =~= seq![e]);
        assert(toks[0] == e);
        assert(token_covers(cs, toks[0], cs.len() as int, cs.len() as int));
        assert(token_has_cover(cs, toks[0]));
    } else {
        lemma_step_progress(cs, i);
        lemma_step_token(cs, i);
        let st = step(cs, i);
        let j = st.0;
        lemma_lex_from_shape(cs, j);
        let rest = lex_from(cs, j).0;
        lemma_byte_offset_mono(cs, i, j);
        lemma_byte_offset_bound(cs, i);
        lemma_byte_offset_bound(cs, j);
        match st.1 {
            Some(t) => {
                assert(toks =~= seq![t] + rest);
                assert(toks[0] == t);
                assert(t.2.start == byte_offset(cs, i));
                assert(t.2.end == byte_offset(cs, j));
                assert forall|k: int| 0 <= k < toks.len() implies token_has_cover(cs, #[trigger] toks[k]) by {
                    if k == 0 {
                        assert(token_covers(cs, toks[0], i, j));
                        assert(token_has_cover(cs, toks[0]));
                    } else {
                        assert(toks[k] == rest[k - 1]);
                    }
                }
                assert forall|k: int, m: int| 0 <= k < m < toks.len() implies (#[trigger] toks[k]).2.end
                    <= (#[trigger] toks[m]).2.start by {
                    if k == 0 {
                        assert(toks[m] == rest[m - 1]);
                    } else {
                        assert(toks[k] == rest[k - 1]);
                        assert(toks[m] == rest[m - 1]);
                    }
                }
                assert forall|k: int| 0 <= k < toks.len() - 1 implies (#[trigger] toks[k]).0
                    != TokenKind::Eof by {
                    if k > 0 {
                        assert(toks[k] == rest[k - 1]);
                    }
                }
                assert forall|k: int| 0 <= k < toks.len() implies byte_offset(cs, i) <= (
                #[trigger] toks[k]).2.start && toks[k].2.start <= toks[k].2.end <= byte_len(cs) by {
                    if k > 0 {
                        assert(toks[k] == rest[k - 1]);
                    }
                }
            },
            None => {
                assert(toks =~= rest);
                assert forall|k: int| 0 <= k < toks.len() implies token_has_cover(cs, #[trigger] toks[k]) by {
                    assert(toks[k] == rest[k]);
                }
            },
        }
    }
}

/// The laws of the token stream of any source text: it ends with the one
/// `Eof` token at the end of the source; every token covers a run of chars
/// (its span is their byte range and, except for string literals, its text is
/// those chars); and the spans are in source order without overlapping.
pub proof fn lemma_lex_well_formed(cs: Seq<char>)
    requires
        byte_len(cs) <= usize::MAX,
    ensures
        token_stream_well_formed(cs, lex_spec(cs).0),
{
    lemma_lex_from_shape(cs, 0);
}

// ---------------------------------------------------------------------------
// Keywords lex as themselves.
// ---------------------------------------------------------------------------

/// The token kinds that keywords lex to.
pub open spec fn is_keyword_kind(kind: TokenKind) -> bool {
    match kind {
        TokenKind::Package | TokenKind::Use | TokenKind::Pub | TokenKind::Const | TokenKind::Static | TokenKind::Let | TokenKind::Var | TokenKind::Fn | TokenKind::Async | TokenKind::Await | TokenKind::Spawn | TokenKind::Defer | TokenKind::Return | TokenKind::Break | TokenKind::Continue | TokenKind::If | TokenKind::Else | TokenKind::Match | TokenKind::For | TokenKind::While | TokenKind::Loop | TokenKind::In | TokenKind::Where | TokenKind::Struct | TokenKind::Data | TokenKind::Enum | TokenKind::Trait | TokenKind::Impl | TokenKind::Extend | TokenKind::Type | TokenKind::Opaque | TokenKind::Extern | TokenKind::Unsafe | TokenKind::Is | TokenKind::As | TokenKind::Satisfies | TokenKind::NoneKw | TokenKind::TrueKw | TokenKind::FalseKw | TokenKind::SelfKw | TokenKind::MoveKw => true,
        _ => false,
    }
}

/// The kind of the token that a word lexes to: its keyword, or `Ident`.
pub open spec fn word_kind(text: Seq<char>) -> TokenKind {
    match keyword_kind(text) {
        Some(k) => k,
        None => TokenKind::Ident,
    }
}

/// A word that starts with an ASCII letter and runs to the end of the text
/// as one identifier lexes to one token covering it, then `Eof`.
proof fn lemma_lex_single_word(s: Seq<char>)
    requires
        s.len() > 0,
        is_ascii_letter(s[0]),
        ident_end(s, 1) == s.len(),
    ensures
        lex_spec(s) == (seq![(word_kind(s), s, char_span(s, 0, s.len() as int)), eof_token(s)], Seq::<(Seq<char>, Span)>::empty()),
{
    let n = s.len() as int;
    lemma_ident_end(s, 1);
    if n > 1 {
        assert(ident_continue_char(s[1]));
    }
    assert(s.subrange(0, n) =~= s);
    let tok = (word_kind(s), s, char_span(s, 0, n));
    assert(step(s, 0) == (n, Some(tok), Seq::<(Seq<char>, Span)>::empty()));
    assert(lex_from(s, n) == (seq![eof_token(s)], Seq::<(Seq<char>, Span)>::empty()));
    assert(seq![tok] + seq![eof_token(s)] =~= seq![tok, eof_token(s)]);
    assert(Seq::<(Seq<char>, Span)>::empty() + Seq::<(Seq<char>, Span)>::empty() =~= Seq::<(Seq<char>, Span)>::empty());
}

/// Every keyword lexes to exactly one token of its kind, covering it, then
/// `Eof`, with no error.
proof fn lemma_keyword_lexes(s: Seq<char>)
    requires
        keyword_kind(s) is Some,
    ensures
        is_keyword_kind(keyword_kind(s)->0),
        lex_spec(s) == (seq![(keyword_kind(s)->0, s, char_span(s, 0, s.len() as int)), eof_token(s)], Seq::<(Seq<char>, Span)>::empty()),
{
    reveal_with_fuel(ident_end, 10);
    if s == "package"@ {
        reveal_strlit("package");
        lemma_lex_single_word(s);
    } else if s == "use"@ {
        reveal_strlit("use");
        lemma_lex_single_word(s);
    } else if s == "pub"@ {
        reveal_strlit("pub");
        lemma_lex_single_word(s);
    } else if s == "const"@ {
        reveal_strlit("const");
        lemma_lex_single_word(s);
    } else if s == "static"@ {
        reveal_strlit("static");
        lemma_lex_single_word(s);
    } else if s == "let"@ {
        reveal_strlit("let");
        lemma_lex_single_word(s);
    } else if s == "var"@ {
        reveal_strlit("var");
        lemma_lex_single_word(s);
    } else if s == "fn"@ {
        reveal_strlit("fn");
        lemma_lex_single_word(s);
    } else if s == "async"@ {
        reveal_strlit("async");
        lemma_lex_single_word(s);
    } else if s == "await"@ {
        reveal_strlit("await");
        lemma_lex_single_word(s);
    } else if s == "spawn"@ {
        reveal_strlit("spawn");
        lemma_lex_single_word(s);
    } else if s == "defer"@ {
        reveal_strlit("defer");
        lemma_lex_single_word(s);
    } else if s == "return"@ {
        reveal_strlit("return");
        lemma_lex_single_word(s);
    } else if s == "break"@ {
        reveal_strlit("break");
        lemma_lex_single_word(s);
    } else if s == "continue"@ {
        reveal_strlit("continue");
        lemma_lex_single_word(s);
    } else if s == "if"@ {
        reveal_strlit("if");
        lemma_lex_single_word(s);
    } else if s == "else"@ {
        reveal_strlit("else");
        lemma_lex_single_word(s);
    } else if s == "match"@ {
        reveal_strlit("match");
        lemma_lex_single_word(s);
    } else if s == "for"@ {
        reveal_strlit("for");
        lemma_lex_single_word(s);
    } else if s == "while"@ {
        reveal_strlit("while");
        lemma_lex_single_word(s);
    } else if s == "loop"@ {
        reveal_strlit("loop");
        lemma_lex_single_word(s);
    } else if s == "in"@ {
        reveal_strlit("in");
        lemma_lex_single_word(s);
    } else if s == "where"@ {
        reveal_strlit("where");
        lemma_lex_single_word(s);
    } else if s == "struct"@ {
        reveal_strlit("struct");
        lemma_lex_single_word(s);
    } else if s == "data"@ {
        reveal_strlit("data");
        lemma_lex_single_word(s);
    } else if s == "enum"@ {
        reveal_strlit("enum");
        lemma_lex_single_word(s);
    } else if s == "trait"@ {
        reveal_strlit("trait");
        lemma_lex_single_word(s);
    } else if s == "impl"@ {
        reveal_strlit("impl");
        lemma_lex_single_word(s);
    } else if s == "extend"@ {
        reveal_strlit("extend");
        lemma_lex_single_word(s);
    } else if s == "type"@ {
        reveal_strlit("type");
        lemma_lex_single_word(s);
    } else if s == "opaque"@ {
        reveal_strlit("opaque");
        lemma_lex_single_word(s);
    } else if s == "extern"@ {
        reveal_strlit("extern");
        lemma_lex_single_word(s);
    } else if s == "unsafe"@ {
        reveal_strlit("unsafe");
        lemma_lex_single_word(s);
    } else if s == "is"@ {
        reveal_strlit("is");
        lemma_lex_single_word(s);
    } else if s == "as"@ {
        reveal_strlit("as");
        lemma_lex_single_word(s);
    } else if s == "satisfies"@ {
        reveal_strlit("satisfies");
        lemma_lex_single_word(s);
    } else if s == "none"@ {
        reveal_strlit("none");
        lemma_lex_single_word(s);
    } else if s == "true"@ {
        reveal_strlit("true");
        lemma_lex_single_word(s);
    } else if s == "false"@ {
        reveal_strlit("false");
        lemma_lex_single_word(s);
    } else if s == "self"@ {
        reveal_strlit("self");
        lemma_lex_single_word(s);
    } else if s == "move"@ {
        reveal_strlit("move");
        lemma_lex_single_word(s);
    }
}

/// A text is a keyword exactly when the lexer reads it as one token of a
/// keyword kind that covers the whole text, followed by `Eof`, with no
/// error; that token's kind is the keyword's.
pub proof fn lemma_keyword_kind_agrees_with_lexer(s: Seq<char>, kind: TokenKind)
    requires
        byte_len(s) <= usize::MAX,
    ensures
        keyword_kind(s) == Some(kind) <==> (is_keyword_kind(kind) && lex_spec(s) == (
            seq![(kind, s, char_span(s, 0, s.len() as int)), eof_token(s)],
            Seq::<(Seq<char>, Span)>::empty(),
        )),
{
    if keyword_kind(s) == Some(kind) {
        lemma_keyword_lexes(s);
    }
    let n = s.len() as int;
    let tok = (kind, s, char_span(s, 0, n));
    if is_keyword_kind(kind) && lex_spec(s) == (seq![tok, eof_token(s)], Seq::<(Seq<char>, Span)>::empty()) {
        let toks = lex_spec(s).0;
        assert(toks[0] == tok);
        if n == 0 {
            assert(lex_spec(s).0 =~= seq![eof_token(s)]);
            assert(false);
        }
        lemma_step_progress(s, 0);
        lemma_step_token(s, 0);
        let st = step(s, 0);
        let j = st.0;
        assert(s.take(0) =~= Seq::<char>::empty());
        assert(tok.2.start == 0);
        match st.1 {
            Some(t) => {
                assert(toks =~= seq![t] + lex_from(s, j).0);
                assert(t == tok);
                let c = s[0];
                if ident_start_char(c) && !is_white_space(c) && c != '_' && !is_ascii_digit_char(c)
                    && c != '"' && !(c == 'f' && char_at(s, 1) == Some('"'))
                    && !(c == '/' && char_at(s, 1) == Some('/'))
                    && !(c == '/' && char_at(s, 1) == Some('*')) {
                    let e = ident_end(s, 1);
                    assert(t.1 == s.subrange(0, e));
                    assert(s.subrange(0, e) == s);
                    assert(keyword_kind(s) == Some(kind));
                }
            },
            None => {
                lemma_lex_from_shape(s, j);
                assert(toks =~= lex_from(s, j).0);
                lemma_byte_offset_strict(s, 0, j);
                lemma_byte_offset_bound(s, j);
                assert(false);
            },
        }
    }
}

// ---------------------------------------------------------------------------
// Punctuation tokens are spelled by their kind.
// ---------------------------------------------------------------------------

/// How each keyword, punctuation and operator token is written in source.
pub open spec fn token_spelling(kind: TokenKind) -> Option<Seq<char>> {
    match kind {
        TokenKind::LParen => Some(seq!['(']),
        TokenKind::RParen => Some(seq![')']),
        TokenKind::LBrace => Some(seq!['{']),
        TokenKind::RBrace => Some(seq!['}']),
        TokenKind::LBracket => Some(seq!['[']),
        TokenKind::RBracket => Some(seq![']']),
        TokenKind::Comma => Some(seq![',']),
        TokenKind::Dot => Some(seq!['.']),
        TokenKind::DotDot => Some(seq!['.', '.']),
        TokenKind::Colon => Some(seq![':']),
        TokenKind::Semi => Some(seq![';']),
        TokenKind::At => Some(seq!['@']),
        TokenKind::Arrow => Some(seq!['-', '>']),
        TokenKind::FatArrow => Some(seq!['=', '>']),
        TokenKind::Question => Some(seq!['?']),
        TokenKind::Eq => Some(seq!['=']),
        TokenKind::EqEq => Some(seq!['=', '=']),
        TokenKind::BangEq => Some(seq!['!', '=']),
        TokenKind::Plus => Some(seq!['+']),
        TokenKind::Minus => Some(seq!['-']),
        TokenKind::Star => Some(seq!['*']),
        TokenKind::Slash => Some(seq!['/']),
        TokenKind::Percent => Some(seq!['%']),
        TokenKind::Lt => Some(seq!['<']),
        TokenKind::Gt => Some(seq!['>']),
        TokenKind::LtEq => Some(seq!['<', '=']),
        TokenKind::GtEq => Some(seq!['>', '=']),
        TokenKind::Underscore => Some(seq!['_']),
        TokenKind::Package => Some("package"@),
        TokenKind::Use => Some("use"@),
        TokenKind::Pub => Some("pub"@),
        TokenKind::Const => Some("const"@),
        TokenKind::Static => Some("static"@),
        TokenKind::Let => Some("let"@),
        TokenKind::Var => Some("var"@),
        TokenKind::Fn => Some("fn"@),
        TokenKind::Async => Some("async"@),
        TokenKind::Await => Some("await"@),
        TokenKind::Spawn => Some("spawn"@),
        TokenKind::Defer => Some("defer"@),
        TokenKind::Return => Some("return"@),
        TokenKind::Break => Some("break"@),
        TokenKind::Continue => Some("continue"@),
        TokenKind::If => Some("if"@),
        TokenKind::Else => Some("else"@),
        TokenKind::Match => Some("match"@),
        TokenKind::For => Some("for"@),
        TokenKind::While => Some("while"@),
        TokenKind::Loop => Some("loop"@),
        TokenKind::In => Some("in"@),
        TokenKind::Where => Some("where"@),
        TokenKind::Struct => Some("struct"@),
        TokenKind::Data => Some("data"@),
        TokenKind::Enum => Some("enum"@),
        TokenKind::Trait => Some("trait"@),
        TokenKind::Impl => Some("impl"@),
        TokenKind::Extend => Some("extend"@),
        TokenKind::Type => Some("type"@),
        TokenKind::Opaque => Some("opaque"@),
        TokenKind::Extern => Some("extern"@),
        TokenKind::Unsafe => Some("unsafe"@),
        TokenKind::Is => Some("is"@),
        TokenKind::As => Some("as"@),
        TokenKind::Satisfies => Some("satisfies"@),
        TokenKind::NoneKw => Some("none"@),
        TokenKind::TrueKw => Some("true"@),
        TokenKind::FalseKw => Some("false"@),
        TokenKind::SelfKw => Some("self"@),
        TokenKind::MoveKw => Some("move"@),
        _ => None,
    }
}

proof fn lemma_step_spelling(cs: Seq<char>, i: int)
    requires
        0 <= i < cs.len(),
    ensures
        step(cs, i).1 matches Some(t) ==> (token_spelling(t.0) matches Some(p) ==> t.1 == p),
{
    let c = cs[i];
    assert(cs.subrange(i, i + 1) =~= seq![c]);
    if i + 1 < cs.len() {
        assert(cs.subrange(i, i + 2) =~= seq![c, cs[i + 1]]);
    }
    let st = step(cs, i);
    if ident_start_char(c) && !is_white_space(c) && c != '_' {
        let j = ident_end(cs, i + 1);
        let text = cs.subrange(i, j);
    }
}

proof fn lemma_lex_from_spelling(cs: Seq<char>, i: int)
    requires
        0 <= i <= cs.len(),
    ensures
        forall|k: int|
            0 <= k < lex_from(cs, i).0.len() ==> (token_spelling((#[trigger] lex_from(cs, i).0[k]).0) matches Some(p)
                ==> lex_from(cs, i).0[k].1 == p),
    decreases cs.len() - i,
{
    let toks = lex_from(cs, i).0;
    if i < cs.len() {
        lemma_step_progress(cs, i);
        lemma_step_spelling(cs, i);
        let st = step(cs, i);
        lemma_lex_from_spelling(cs, st.0);
        let rest = lex_from(cs, st.0).0;
        match st.1 {
            Some(t) => {
                assert(toks =~= seq![t] + rest);
                assert forall|k: int| 0 <= k < toks.len() implies (token_spelling((#[trigger] toks[k]).0) matches Some(p)
                    ==> toks[k].1 == p) by {
                    if k > 0 {
                        assert(toks[k] == rest[k - 1]);
                    }
                }
            },
            None => {
                assert(toks =~= rest);
            },
        }
    } else {
        assert(toks =~= seq![eof_token(cs)]);
    }
}

/// Every keyword, punctuation or operator token of any source is written as
/// its kind's spelling: the lexer never gives one operator's or keyword's
/// text another kind. Different punctuation and operator kinds have
/// different spellings.
pub proof fn lemma_tokens_spell_their_kind(cs: Seq<char>)
    ensures
        forall|k: int|
            0 <= k < lex_spec(cs).0.len() ==> (token_spelling((#[trigger] lex_spec(cs).0[k]).0) matches Some(p)
                ==> lex_spec(cs).0[k].1 == p),
        forall|a: TokenKind, b: TokenKind|
            !is_keyword_kind(a) && !is_keyword_kind(b) && #[trigger] token_spelling(a) is Some && token_spelling(a)
                == #[trigger] token_spelling(b) ==> a == b,
{
    lemma_lex_from_spelling(cs, 0);
    assert forall|a: TokenKind, b: TokenKind|
        !is_keyword_kind(a) && !is_keyword_kind(b) && #[trigger] token_spelling(a) is Some && token_spelling(a)
            == #[trigger] token_spelling(b) implies a == b by {
        let p = token_spelling(a)->0;
        let q = token_spelling(b)->0;
        assert(p.len() == q.len());
        assert(p[0] == q[0]);
        if p.len() > 1 {
            assert(p[1] == q[1]);
        }
    }
}

// ---------------------------------------------------------------------------
// The lexer.
// ---------------------------------------------------------------------------

/// Lex a source file into tokens and recoverable lexical errors.
pub fn lex(source: &str) -> (r: (Vec<Token>, Vec<LexError>))
    ensures
        (tokens_view(r.0@), errors_view(r.1@)) == lex_spec(source@),
        token_stream_well_formed(source@, tokens_view(r.0@)),
{
    let _len = str_byte_len(source);
    let mut lexer = Lexer::new(source);
    let r = lexer.lex_all();
    proof {
        lemma_lex_well_formed(source@);
    }
    r
}

/// Cursor over the chars of a source text.
pub struct Lexer<'a> {
    source: &'a str,
    chars: Vec<(usize, char)>,
    idx: usize,
}

proof fn lemma_map_concat<A, B>(s: Seq<A>, t: Seq<A>, f: spec_fn(A) -> B)
    ensures
        (s + t).map_values(f) =~= s.map_values(f) + t.map_values(f),
{
}

proof fn lemma_map_push<A, B>(s: Seq<A>, x: A, f: spec_fn(A) -> B)
    ensures
        s.push(x).map_values(f) =~= s.map_values(f).push(f(x)),
{
}

impl<'a> Lexer<'a> {
    /// The chars of the source being lexed.
    pub closed spec fn text(&self) -> Seq<char> {
        self.source@
    }

    /// Index of the next char to read.
    pub closed spec fn pos(&self) -> int {
        self.idx as int
    }

    pub closed spec fn wf(&self) -> bool {
        &&& are_char_indices(self.chars@, self.source@)
        &&& self.idx <= self.chars@.len()
        &&& byte_len(self.source@) == self.source.len()
    }

    proof fn lemma_wf(&self)
        requires
            self.wf(),
        ensures
            0 <= self.pos() <= self.text().len(),
            byte_len(self.text()) <= usize::MAX,
            forall|k: int| 0 <= k <= self.text().len() ==> byte_offset(self.text(), k) <= usize::MAX,
    {
        assert forall|k: int| 0 <= k <= self.text().len() implies byte_offset(self.text(), k)
            <= usize::MAX by {
            lemma_byte_offset_bound(self.text(), k);
        }
    }

    pub fn new(source: &'a str) -> (lexer: Self)
        ensures
            lexer.wf(),
            lexer.text() == source@,
            lexer.pos() == 0,
    {
        Self { source, chars: char_indices(source), idx: 0 }
    }

    #[verifier::rlimit(50)]
    pub fn lex_all(&mut self) -> (r: (Vec<Token>, Vec<LexError>))
        requires
            old(self).wf(),
        ensures
            final(self).wf(),
            final(self).text() == old(self).text(),
            final(self).pos() == old(self).text().len(),
            (tokens_view(r.0@), errors_view(r.1@)) == lex_from(old(self).text(), old(self).pos()),
    {
        let mut tokens: Vec<Token> = Vec::new();
        let mut errors: Vec<LexError> = Vec::new();
        let ghost cs = self.text();
        let ghost i0 = self.pos();

        loop
            invariant
                self.wf(),
                self.text() == cs,
                lex_from(cs, i0) == (
                    tokens_view(tokens@) + lex_from(cs, self.pos()).0,
                    errors_view(errors@) + lex_from(cs, self.pos()).1,
                ),
            ensures
                self.wf(),
                self.text() == cs,
                self.pos() == cs.len(),
                lex_from(cs, i0) == (
                    tokens_view(tokens@) + lex_from(cs, self.pos()).0,
                    errors_view(errors@) + lex_from(cs, self.pos()).1,
                ),
            decreases cs.len() - self.pos(),
        {
            proof {
                self.lemma_wf();
            }
            let peeked = self.peek();
            if peeked.is_none() {
                break;
            }
            let (start, ch) = peeked.unwrap();
            let ghost i = self.pos();
            let ghost tv = tokens_view(tokens@);
            let ghost ev = errors_view(errors@);
            proof {
                lemma_step_progress(cs, i);
                assert(lex_from(cs, i) == ({
                    let s = step(cs, i);
                    let rest = lex_from(cs, s.0);
                    (prepend_token(s.1, rest.0), s.2 + rest.1)
                }));
            }
            let (tok, mut errs) = self.lex_one(start, ch);
            let ghost st = step(cs, i);
            match tok {
                Some(t) => {
                    proof {
                        lemma_map_push(tokens@, t, |t: Token| t@);
                    }
                    tokens.push(t);
                    proof {
                        assert(tv + prepend_token(st.1, lex_from(cs, st.0).0) =~= tv.push(t@)
                            + lex_from(cs, st.0).0);
                    }
                },
                None => {},
            }
            proof {
                lemma_map_concat(errors@, errs@, |e: LexError| e@);
                assert(ev + (st.2 + lex_from(cs, st.0).1) =~= (ev + st.2) + lex_from(cs, st.0).1);
            }
            errors.append(&mut errs);
        }

        proof {
            self.lemma_wf();
        }
        let end = self.current_offset();
        let eof = Token { kind: TokenKind::Eof, text: String::new(), span: Span::new(end, end) };
        proof {
            lemma_map_push(tokens@, eof, |t: Token| t@);
            assert(eof@ == eof_token(cs));
            assert(tokens_view(tokens@) + seq![eof_token(cs)] =~= tokens_view(tokens@).push(eof@));
        }
        tokens.push(eof);
        (tokens, errors)
    }

    /// Lex whatever starts at the current char: at most one token and the
    /// errors found, as the grammar's step prescribes.
    fn lex_one(&mut self, start: usize, ch: char) -> (r: (Option<Token>, Vec<LexError>))
        requires
            old(self).wf(),
            old(self).pos() < old(self).text().len(),
            start == byte_offset(old(self).text(), old(self).pos()),
            ch == old(self).text()[old(self).pos()],
        ensures
            final(self).wf(),
            final(self).text() == old(self).text(),
            ({
                let st = step(old(self).text(), old(self).pos());
                &&& final(self).pos() == st.0
                &&& match r.0 {
                    Some(t) => st.1 == Some(t@),
                    None => st.1 is None,
                }
                &&& errors_view(r.1@) == st.2
            }),
    {
        let ghost cs = self.text();
        let ghost i = self.pos();
        let ghost n = cs.len() as int;
        proof {
            self.lemma_wf();
        }
        let mut errors: Vec<LexError> = Vec::new();
        if char_is_whitespace(ch) {
            self.bump();
            return (None, errors);
        }
        if ch == '/' {
            if self.peek_next_char() == Some('/') {
                self.bump();
                self.bump();
                self.consume_until(is_line_break);
                proof {
                    lemma_line_comment_end(cs, i + 2);
                    self.lemma_scan_is_line_comment_end(i + 2);
                }
                return (None, errors);
            }
            if self.peek_next_char() == Some('*') {
                self.bump();
                self.bump();
                let terminated = self.skip_block_comment_body();
                if !terminated {
                    let end = self.current_offset();
                    errors.push(
                        LexError {
                            message: String::from_str("unterminated block comment"),
                            span: Span::new(start, end),
                        },
                    );
                    proof {
                        assert(errors_view(errors@) =~= seq![errors@[0]@]);
                    }
                }
                return (None, errors);
            }
        }
        if ch == 'f' && self.peek_next_char() == Some('"') {
            let r = self.lex_string(true);
            match r {
                Ok(token) => {
                    return (Some(token), errors);
                },
                Err(error) => {
                    errors.push(error);
                    proof {
                        assert(errors_view(errors@) =~= seq![errors@[0]@]);
                    }
                    return (None, errors);
                },
            }
        }
        if ch == '"' {
            let r = self.lex_string(false);
            match r {
                Ok(token) => {
                    return (Some(token), errors);
                },
                Err(error) => {
                    errors.push(error);
                    proof {
                        assert(errors_view(errors@) =~= seq![errors@[0]@]);
                    }
                    return (None, errors);
                },
            }
        }
        if char_is_ascii_digit(ch) {
            return (Some(self.lex_number()), errors);
        }
        if ch == '_' {
            return (Some(self.single(TokenKind::Underscore)), errors);
        }
        if is_ident_start(ch) {
            return (Some(self.lex_ident_or_keyword()), errors);
        }
        let r = self.lex_operator(start, ch);
        r
    }

    /// The operators and the errors for chars that start nothing.
    fn lex_operator(&mut self, start: usize, ch: char) -> (r: (Option<Token>, Vec<LexError>))
        requires
            old(self).wf(),
            old(self).pos() < old(self).text().len(),
            start == byte_offset(old(self).text(), old(self).pos()),
            ch == old(self).text()[old(self).pos()],
        ensures
            final(self).wf(),
            final(self).text() == old(self).text(),
            ({
                let st = operator_step(old(self).text(), old(self).pos());
                &&& final(self).pos() == st.0
                &&& match r.0 {
                    Some(t) => st.1 == Some(t@),
                    None => st.1 is None,
                }
                &&& errors_view(r.1@) == st.2
            }),
    {
        let ghost cs = self.text();
        let ghost i = self.pos();
        proof {
            self.lemma_wf();
        }
        let mut errors: Vec<LexError> = Vec::new();
        let single = if ch == '(' {
            Some(TokenKind::LParen)
        } else if ch == ')' {
            Some(TokenKind::RParen)
        } else if ch == '{' {
            Some(TokenKind::LBrace)
        } else if ch == '}' {
            Some(TokenKind::RBrace)
        } else if ch == '[' {
            Some(TokenKind::LBracket)
        } else if ch == ']' {
            Some(TokenKind::RBracket)
        } else if ch == ',' {
            Some(TokenKind::Comma)
        } else if ch == ':' {
            Some(TokenKind::Colon)
        } else if ch == ';' {
            Some(TokenKind::Semi)
        } else if ch == '?' {
            Some(TokenKind::Question)
        } else if ch == '@' {
            Some(TokenKind::At)
        } else if ch == '+' {
            Some(TokenKind::Plus)
        } else if ch == '*' {
            Some(TokenKind::Star)
        } else if ch == '/' {
            Some(TokenKind::Slash)
        } else if ch == '%' {
            Some(TokenKind::Percent)
        } else {
            None
        };
        assert(single == single_char_kind(ch));
        if let Some(kind) = single {
            return (Some(self.single(kind)), errors);
        }
        let next = self.peek_next_char();
        let double = match next {
            Some(d) => {
                if ch == '.' && d == '.' {
                    Some(TokenKind::DotDot)
                } else if ch == '-' && d == '>' {
                    Some(TokenKind::Arrow)
                } else if ch == '=' && d == '>' {
                    Some(TokenKind::FatArrow)
                } else if ch == '=' && d == '=' {
                    Some(TokenKind::EqEq)
                } else if ch == '!' && d == '=' {
                    Some(TokenKind::BangEq)
                } else if ch == '<' && d == '=' {
                    Some(TokenKind::LtEq)
                } else if ch == '>' && d == '=' {
                    Some(TokenKind::GtEq)
                } else {
                    None
                }
            },
            None => None,
        };
        if let Some(kind) = double {
            assert(double == double_char_kind(ch, cs[i + 1]));
            self.bump();
            self.bump();
            let text = self.text_between(self.idx - 2, self.idx);
            let end = self.current_offset();
            return (Some(Token { kind, text, span: Span::new(start, end) }), errors);
        }
        assert(i + 1 < cs.len() ==> double_char_kind(ch, cs[i + 1]) is None);
        let lone = if ch == '.' {
            Some(TokenKind::Dot)
        } else if ch == '-' {
            Some(TokenKind::Minus)
        } else if ch == '=' {
            Some(TokenKind::Eq)
        } else if ch == '<' {
            Some(TokenKind::Lt)
        } else if ch == '>' {
            Some(TokenKind::Gt)
        } else {
            None
        };
        assert(lone == lone_operator_kind(ch));
        if let Some(kind) = lone {
            return (Some(self.single(kind)), errors);
        }
        if ch == '!' {
            self.bump();
            let end = self.current_offset();
            errors.push(
                LexError {
                    message: String::from_str("unexpected `!`; only `!=` is currently supported"),
                    span: Span::new(start, end),
                },
            );
        }
        self.bump();
        let end = self.current_offset();
        let mut message = String::from_str("unexpected character `");
        string_push(&mut message, ch);
        message.append("`");
        errors.push(LexError { message, span: Span::new(start, end) });
        proof {
            if ch == '!' {
                assert(errors_view(errors@) =~= seq![errors@[0]@, errors@[1]@]);
            } else {
                assert(errors_view(errors@) =~= seq![errors@[0]@]);
            }
        }
        (None, errors)
    }

    /// Skips a block comment body up to and including its `*/`; false when
    /// the source ends first.
    fn skip_block_comment_body(&mut self) -> (terminated: bool)
        requires
            old(self).wf(),
        ensures
            final(self).wf(),
            final(self).text() == old(self).text(),
            match block_comment_end(old(self).text(), old(self).pos()) {
                Some(j) => terminated && final(self).pos() == j,
                None => !terminated && final(self).pos() == old(self).text().len(),
            },
    {
        let ghost cs = self.text();
        let ghost k0 = self.pos();
        while self.peek().is_some()
            invariant
                self.wf(),
                self.text() == cs,
                cs == old(self).text(),
                k0 == old(self).pos(),
                k0 <= self.pos() <= cs.len(),
                block_comment_end(cs, k0) == block_comment_end(cs, self.pos()),
            decreases cs.len() - self.pos(),
        {
            proof {
                self.lemma_wf();
            }
            if self.peek_char() == Some('*') && self.peek_next_char() == Some('/') {
                self.bump();
                self.bump();
                return true;
            }
            self.bump();
        }
        false
    }

    fn lex_string(&mut self, is_format: bool) -> (r: Result<Token, LexError>)
        requires
            old(self).wf(),
            old(self).pos() < old(self).text().len(),
            is_format ==> old(self).pos() + 1 < old(self).text().len(),
        ensures
            final(self).wf(),
            final(self).text() == old(self).text(),
            ({
                let i = old(self).pos();
                let st = string_step(
                    old(self).text(),
                    i,
                    if is_format {
                        i + 2
                    } else {
                        i + 1
                    },
                    if is_format {
                        TokenKind::FormatString
                    } else {
                        TokenKind::String
                    },
                );
                &&& final(self).pos() == st.0
                &&& match r {
                    Ok(t) => st.1 == Some(t@) && st.2 == Seq::<(Seq<char>, Span)>::empty(),
                    Err(e) => st.1 is None && st.2 == seq![e@],
                }
            }),
    {
        let ghost cs = self.text();
        let ghost i = self.pos();
        let ghost content = if is_format {
            i + 2
        } else {
            i + 1
        };
        proof {
            self.lemma_wf();
        }
        let start = self.current_offset();
        if is_format {
            self.bump();
        }
        self.bump();
        let content_start = self.idx;
        loop
            invariant
                self.wf(),
                self.text() == cs,
                cs == old(self).text(),
                i == old(self).pos(),
                content == if is_format {
                    i + 2
                } else {
                    i + 1
                },
                content <= self.pos() <= cs.len(),
                content_start == content,
                start == byte_offset(cs, i),
                0 <= i < content,
                string_close(cs, content) == string_close(cs, self.pos()),
            ensures
                self.wf(),
                self.text() == cs,
                self.pos() == cs.len(),
                start == byte_offset(cs, i),
                string_close(cs, content) is None,
            decreases cs.len() - self.pos(),
        {
            proof {
                self.lemma_wf();
            }
            let peeked = self.peek_char();
            match peeked {
                None => {
                    break;
                },
                Some(c) => {
                    if c == '"' {
                        let text = self.text_between(content_start, self.idx);
                        self.bump();
                        let end = self.current_offset();
                        let kind = if is_format {
                            TokenKind::FormatString
                        } else {
                            TokenKind::String
                        };
                        return Ok(Token { kind, text, span: Span::new(start, end) });
                    }
                    if c == '\\' {
                        self.bump();
                        if self.peek().is_some() {
                            self.bump();
                        }
                        continue;
                    }
                    self.bump();
                },
            }
        }
        proof {
            self.lemma_wf();
        }
        let end = self.current_offset();
        Err(
            LexError {
                message: String::from_str("unterminated string literal"),
                span: Span::new(start, end),
            },
        )
    }

    fn lex_number(&mut self) -> (token: Token)
        requires
            old(self).wf(),
            old(self).pos() < old(self).text().len(),
        ensures
            final(self).wf(),
            final(self).text() == old(self).text(),
            ({
                let cs = old(self).text();
                let i = old(self).pos();
                let j = number_end(cs, i + 1);
                &&& final(self).pos() == j
                &&& token@ == (TokenKind::Int, cs.subrange(i, j), char_span(cs, i, j))
            }),
    {
        let ghost cs = self.text();
        let ghost i = self.pos();
        proof {
            self.lemma_wf();
        }
        let start_idx = self.idx;
        let start = self.current_offset();
        self.bump();
        self.consume_while(is_number_continue);
        proof {
            self.lemma_scan_is_number_end(i + 1);
            self.lemma_wf();
        }
        let text = self.text_between(start_idx, self.idx);
        let end = self.current_offset();
        Token { kind: TokenKind::Int, text, span: Span::new(start, end) }
    }

    fn lex_ident_or_keyword(&mut self) -> (token: Token)
        requires
            old(self).wf(),
            old(self).pos() < old(self).text().len(),
        ensures
            final(self).wf(),
            final(self).text() == old(self).text(),
            ({
                let cs = old(self).text();
                let i = old(self).pos();
                let j = ident_end(cs, i + 1);
                let text = cs.subrange(i, j);
                &&& final(self).pos() == j
                &&& token@ == (
                    match keyword_kind(text) {
                        Some(k) => k,
                        None => TokenKind::Ident,
                    },
                    text,
                    char_span(cs, i, j),
                )
            }),
    {
        let ghost cs = self.text();
        let ghost i = self.pos();
        proof {
            self.lemma_wf();
        }
        let start_idx = self.idx;
        let start = self.current_offset();
        self.bump();
        self.consume_while(is_ident_continue);
        proof {
            self.lemma_scan_is_ident_end(i + 1);
            self.lemma_wf();
        }
        let text = self.text_between(start_idx, self.idx);
        let kind = match keyword_kind_for_label(text.as_str()) {
            Some(kind) => kind,
            None => TokenKind::Ident,
        };
        let end = self.current_offset();
        Token { kind, text, span: Span::new(start, end) }
    }

    pub fn single(&mut self, kind: TokenKind) -> (token: Token)
        requires
            old(self).wf(),
            old(self).pos() < old(self).text().len(),
        ensures
            final(self).wf(),
            final(self).text() == old(self).text(),
            final(self).pos() == old(self).pos() + 1,
            ({
                let cs = old(self).text();
                let i = old(self).pos();
                token@ == (kind, cs.subrange(i, i + 1), char_span(cs, i, i + 1))
            }),
    {
        proof {
            self.lemma_wf();
        }
        let start_idx = self.idx;
        let start = self.current_offset();
        self.bump();
        proof {
            self.lemma_wf();
        }
        let text = self.text_between(start_idx, self.idx);
        let end = self.current_offset();
        Token { kind, text, span: Span::new(start, end) }
    }

    /// The source text of the chars with indices `from..to`.
    fn text_between(&self, from: usize, to: usize) -> (s: String)
        requires
            self.wf(),
            from <= to <= self.text().len(),
        ensures
            s@ == self.text().subrange(from as int, to as int),
    {
        let mut s = String::new();
        let mut i = from;
        while i < to
            invariant
                self.wf(),
                from <= i <= to <= self.text().len(),
                s@ == self.text().subrange(from as int, i as int),
            decreases to - i,
        {
            string_push(&mut s, self.chars[i].1);
            assert(self.text().subrange(from as int, i + 1) =~= self.text().subrange(
                from as int,
                i as int,
            ).push(self.text()[i as int]));
            i = i + 1;
        }
        s
    }

    /// Advances until the next char satisfies `predicate` (or the end).
    pub fn consume_until(&mut self, predicate: impl Fn(char) -> bool)
        requires
            old(self).wf(),
            forall|c: char| predicate.requires((c,)),
        ensures
            final(self).wf(),
            final(self).text() == old(self).text(),
            old(self).pos() <= final(self).pos() <= old(self).text().len(),
            forall|k: int|
                old(self).pos() <= k < final(self).pos() ==> predicate.ensures(
                    (#[trigger] old(self).text()[k],),
                    false,
                ),
            final(self).pos() < old(self).text().len() ==> predicate.ensures(
                (old(self).text()[final(self).pos()],),
                true,
            ),
    {
        let ghost cs = self.text();
        let ghost k0 = self.pos();
        loop
            invariant
                self.wf(),
                self.text() == cs,
                forall|c: char| predicate.requires((c,)),
                k0 <= self.pos() <= cs.len(),
                forall|k: int| k0 <= k < self.pos() ==> predicate.ensures((#[trigger] cs[k],), false),
            ensures
                self.wf(),
                self.text() == cs,
                k0 <= self.pos() <= cs.len(),
                forall|k: int| k0 <= k < self.pos() ==> predicate.ensures((#[trigger] cs[k],), false),
                self.pos() < cs.len() ==> predicate.ensures((cs[self.pos()],), true),
            decreases cs.len() - self.pos(),
        {
            match self.peek() {
                None => {
                    break;
                },
                Some((_, ch)) => {
                    if predicate(ch) {
                        break;
                    }
                    self.bump();
                },
            }
        }
    }

    /// Advances while the next char satisfies `predicate`.
    pub fn consume_while(&mut self, predicate: impl Fn(char) -> bool)
        requires
            old(self).wf(),
            forall|c: char| predicate.requires((c,)),
        ensures
            final(self).wf(),
            final(self).text() == old(self).text(),
            old(self).pos() <= final(self).pos() <= old(self).text().len(),
            forall|k: int|
                old(self).pos() <= k < final(self).pos() ==> predicate.ensures(
                    (#[trigger] old(self).text()[k],),
                    true,
                ),
            final(self).pos() < old(self).text().len() ==> predicate.ensures(
                (old(self).text()[final(self).pos()],),
                false,
            ),
    {
        let ghost cs = self.text();
        let ghost k0 = self.pos();
        loop
            invariant
                self.wf(),
                self.text() == cs,
                forall|c: char| predicate.requires((c,)),
                k0 <= self.pos() <= cs.len(),
                forall|k: int| k0 <= k < self.pos() ==> predicate.ensures((#[trigger] cs[k],), true),
            ensures
                self.wf(),
                self.text() == cs,
                k0 <= self.pos() <= cs.len(),
                forall|k: int| k0 <= k < self.pos() ==> predicate.ensures((#[trigger] cs[k],), true),
                self.pos() < cs.len() ==> predicate.ensures((cs[self.pos()],), false),
            decreases cs.len() - self.pos(),
        {
            match self.peek() {
                None => {
                    break;
                },
                Some((_, ch)) => {
                    if !predicate(ch) {
                        break;
                    }
                    self.bump();
                },
            }
        }
    }

    proof fn lemma_scan_is_line_comment_end(&self, k: int)
        requires
            0 <= k <= self.pos() <= self.text().len(),
            forall|m: int| k <= m < self.pos() ==> #[trigger] self.text()[m] != '\n',
            self.pos() < self.text().len() ==> self.text()[self.pos()] == '\n',
        ensures
            self.pos() == line_comment_end(self.text(), k),
        decreases self.pos() - k,
    {
        if k < self.pos() {
            self.lemma_scan_is_line_comment_end(k + 1);
        }
    }

    proof fn lemma_scan_is_number_end(&self, k: int)
        requires
            0 <= k <= self.pos() <= self.text().len(),
            forall|m: int| k <= m < self.pos() ==> number_continue_char(#[trigger] self.text()[m]),
            self.pos() < self.text().len() ==> !number_continue_char(self.text()[self.pos()]),
        ensures
            self.pos() == number_end(self.text(), k),
        decreases self.pos() - k,
    {
        if k < self.pos() {
            self.lemma_scan_is_number_end(k + 1);
        }
    }

    proof fn lemma_scan_is_ident_end(&self, k: int)
        requires
            0 <= k <= self.pos() <= self.text().len(),
            forall|m: int| k <= m < self.pos() ==> ident_continue_char(#[trigger] self.text()[m]),
            self.pos() < self.text().len() ==> !ident_continue_char(self.text()[self.pos()]),
        ensures
            self.pos() == ident_end(self.text(), k),
        decreases self.pos() - k,
    {
        if k < self.pos() {
            self.lemma_scan_is_ident_end(k + 1);
        }
    }

    /// Advances past the next char, returning it with its byte offset.
    pub fn bump(&mut self) -> (next: Option<(usize, char)>)
        requires
            old(self).wf(),
        ensures
            final(self).wf(),
            final(self).text() == old(self).text(),
            next == old(self).peek_spec(),
            final(self).pos() == if old(self).pos() < old(self).text().len() {
                old(self).pos() + 1
            } else {
                old(self).pos()
            },
    {
        let next = self.peek();
        if self.idx < self.chars.len() {
            self.idx = self.idx + 1;
        }
        next
    }

    pub open spec fn peek_spec(&self) -> Option<(usize, char)> {
        if self.pos() < self.text().len() {
            Some((byte_offset(self.text(), self.pos()) as usize, self.text()[self.pos()]))
        } else {
            None
        }
    }

    /// The next char with its byte offset, without advancing.
    pub fn peek(&self) -> (next: Option<(usize, char)>)
        requires
            self.wf(),
        ensures
            next == self.peek_spec(),
    {
        if self.idx < self.chars.len() {
            Some(self.chars[self.idx])
        } else {
            None
        }
    }

    /// The next char, without advancing.
    pub fn peek_char(&self) -> (next: Option<char>)
        requires
            self.wf(),
        ensures
            next == char_at(self.text(), self.pos()),
    {
        match self.peek() {
            Some((_, ch)) => Some(ch),
            None => None,
        }
    }

    /// The char after the next one, without advancing.
    pub fn peek_next_char(&self) -> (next: Option<char>)
        requires
            self.wf(),
        ensures
            next == char_at(self.text(), self.pos() + 1),
    {
        if self.idx < self.chars.len() && self.idx + 1 < self.chars.len() {
            Some(self.chars[self.idx + 1].1)
        } else {
            None
        }
    }

    /// Byte offset of the next char, or the source length at the end.
    pub fn current_offset(&self) -> (offset: usize)
        requires
            self.wf(),
        ensures
            offset == byte_offset(self.text(), self.pos()),
    {
        proof {
            lemma_byte_offset_end(self.text());
            self.lemma_wf();
        }
        match self.peek() {
            Some((offset, _)) => offset,
            None => self.source.len(),
        }
    }
}

} // verus!
