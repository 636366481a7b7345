//! Turns the lines of a C source file into a sequence of tokens.
use vstd::prelude::*;

use crate::names::{decimal, push_decimal};

verus! {

/// Why a run of digits and letters could not be read as a `u32` constant.
#[derive(Debug, Clone, Copy, PartialEq, Eq, Structural)]
pub enum IntErrorKind {
    Empty,
    InvalidDigit,
    PosOverflow,
}

/// Location of a token in the source code, used for error reporting.
/// Line and column numbers are 1-based; `(start, end]` is the column range
/// of the token in the line: a token in columns `a` to `b` has `start` `a - 1`
/// and `end` `b`.
#[derive(Debug, Clone, Copy, PartialEq, Eq, Structural)]
pub struct Location {
    pub line: usize,
    pub start: usize,
    pub end: usize,
}

impl Location {
    /// The location as `line L, columns S-E`.
    pub fn to_string(&self) -> (r: String)
        ensures
            r@ == "line "@ + decimal(self.line as nat) + ", columns "@ + decimal(self.start as nat)
                + "-"@ + decimal(self.end as nat),
    {
        let mut s = String::from_str("line ");
        push_decimal(&mut s, self.line);
        s.append(", columns ");
        push_decimal(&mut s, self.start);
        s.append("-");
        push_decimal(&mut s, self.end);
        s
    }
}

#[derive(Debug, Clone, Copy, PartialEq, Eq, Structural)]
pub enum LexerError {
    UnknownToken { line: usize, column: usize, character: char },
    ParseIntError(IntErrorKind, Location),
}

#[derive(Debug, Clone, PartialEq, Eq)]
pub enum TokenType {
    Identifier(String),
    Constant(u32),
    Keyword(Keyword),
    Symbol(Symbol),
    EndOfFile,
}

#[derive(Debug, Clone, Copy, PartialEq, Eq, Structural)]
pub enum Keyword {
    Int,
    Long,
    Void,
    Return,
    If,
    Else,
    Goto,
    Do,
    While,
    For,
    Break,
    Continue,
    Switch,
    Case,
    Default,
    Static,
    Extern,
}

#[derive(Debug, Clone, Copy, PartialEq, Eq, Structural)]
pub enum Symbol {
    OpenParen,
    CloseParen,
    OpenBrace,
    CloseBrace,
    Semicolon,
    Comma,
    Question,
    Colon,
    Exclamation,
    Tilde,
    Hyphen,
    DoubleHyphen,
    Plus,
    DoublePlus,
    Asterisk,
    Slash,
    Percent,
    Ampersand,
    Bar,
    Hat,
    DoubleLt,
    DoubleGt,
    DoubleAmp,
    DoubleBar,
    Equal,
    DoubleEqual,
    NotEqual,
    LessThan,
    GreaterThan,
    LessEqual,
    GreaterEqual,
    PlusEqual,
    MinusEqual,
    AsteriskEqual,
    SlashEqual,
    PercentEqual,
    DoubleLtEqual,
    DoubleGtEqual,
    AmpersandEqual,
    BarEqual,
    HatEqual,
}

#[derive(Debug, Clone, PartialEq, Eq)]
pub struct Token(pub TokenType, pub Location);

/// A token type with its identifier as a sequence of characters.
pub enum TokenTypeView {
    Identifier(Seq<char>),
    Constant(u32),
    Keyword(Keyword),
    Symbol(Symbol),
    EndOfFile,
}

pub struct TokenView {
    pub token_type: TokenTypeView,
    pub location: Location,
}

impl View for TokenType {
    type V = TokenTypeView;

    open spec fn view(&self) -> TokenTypeView {
        match self {
            TokenType::Identifier(s) => TokenTypeView::Identifier(s@),
            TokenType::Constant(v) => TokenTypeView::Constant(*v),
            TokenType::Keyword(k) => TokenTypeView::Keyword(*k),
            TokenType::Symbol(s) => TokenTypeView::Symbol(*s),
            TokenType::EndOfFile => TokenTypeView::EndOfFile,
        }
    }
}

impl View for Token {
    type V = TokenView;

    open spec fn view(&self) -> TokenView {
        TokenView { token_type: self.0@, location: self.1 }
    }
}

pub open spec fn tokens_view(tokens: Seq<Token>) -> Seq<TokenView> {
    tokens.map_values(|t: Token| t@)
}

/// The keyword spelled by `word`, if any.
pub open spec fn keyword_of(word: Seq<char>) -> Option<Keyword> {
    if word == seq!['i', 'n', 't'] {
        Some(Keyword::Int)
    } else if word == seq!['l', 'o', 'n', 'g'] {
        Some(Keyword::Long)
    } else if word == seq!['v', 'o', 'i', 'd'] {
        Some(Keyword::Void)
    } else if word == seq!['r', 'e', 't', 'u', 'r', 'n'] {
        Some(Keyword::Return)
    } else if word == seq!['i', 'f'] {
        Some(Keyword::If)
    } else if word == seq!['e', 'l', 's', 'e'] {
        Some(Keyword::Else)
    } else if word == seq!['g', 'o', 't', 'o'] {
        Some(Keyword::Goto)
    } else if word == seq!['d', 'o'] {
        Some(Keyword::Do)
    } else if word == seq!['w', 'h', 'i', 'l', 'e'] {
        Some(Keyword::While)
    } else if word == seq!['f', 'o', 'r'] {
        Some(Keyword::For)
    } else if word == seq!['b', 'r', 'e', 'a', 'k'] {
        Some(Keyword::Break)
    } else if word == seq!['c', 'o', 'n', 't', 'i', 'n', 'u', 'e'] {
        Some(Keyword::Continue)
    } else if word == seq!['s', 'w', 'i', 't', 'c', 'h'] {
        Some(Keyword::Switch)
    } else if word == seq!['c', 'a', 's', 'e'] {
        Some(Keyword::Case)
    } else if word == seq!['d', 'e', 'f', 'a', 'u', 'l', 't'] {
        Some(Keyword::Default)
    } else if word == seq!['s', 't', 'a', 't', 'i', 'c'] {
        Some(Keyword::Static)
    } else if word == seq!['e', 'x', 't', 'e', 'r', 'n'] {
        Some(Keyword::Extern)
    } else {
        None
    }
}

/// Unicode `White_Space`, the property that `char::is_whitespace` tests.
pub open spec fn spec_is_whitespace(c: char) -> bool {
    let u = c as u32;
    (0x09 <= u && u <= 0x0d) || u == 0x20 || u == 0x85 || u == 0xa0 || u == 0x1680 || (0x2000
        <= u && u <= 0x200a) || u == 0x2028 || u == 0x2029 || u == 0x202f || u == 0x205f || u
        == 0x3000
}

pub open spec fn spec_is_ascii_alphabetic(c: char) -> bool {
    let u = c as u32;
    (0x41 <= u && u <= 0x5a) || (0x61 <= u && u <= 0x7a)
}

pub open spec fn spec_is_ascii_digit(c: char) -> bool {
    let u = c as u32;
    0x30 <= u && u <= 0x39
}

pub open spec fn spec_is_identifier_start(c: char) -> bool {
    spec_is_ascii_alphabetic(c) || c == '_'
}

pub open spec fn spec_is_identifier_part(c: char) -> bool {
    spec_is_ascii_alphabetic(c) || spec_is_ascii_digit(c) || c == '_'
}

/// The first position at or after `j` that does not continue an identifier.
pub open spec fn spec_ident_end(cs: Seq<char>, j: int) -> int
    decreases cs.len() - j,
{
    if 0 <= j < cs.len() && spec_is_identifier_part(cs[j]) {
        spec_ident_end(cs, j + 1)
    } else {
        j
    }
}

/// Reads `s[i..]` as decimal digits after the value `acc` of `s[..i]`,
/// reporting the first failure from left to right, as `u32::from_str` does.
pub proof fn lemma_ident_end_bounds(cs: Seq<char>, j: int)
    ensures
        spec_ident_end(cs, j) >= j,
        0 <= j <= cs.len() ==> spec_ident_end(cs, j) <= cs.len(),
    decreases cs.len() - j,
{
    if 0 <= j < cs.len() && spec_is_identifier_part(cs[j]) {
        lemma_ident_end_bounds(cs, j + 1);
    }
}

pub open spec fn spec_parse_u32_from(s: Seq<char>, i: int, acc: nat) -> Result<u32, IntErrorKind>
    decreases s.len() - i,
{
    if i < 0 || i >= s.len() {
        Ok(acc as u32)
    } else if !spec_is_ascii_digit(s[i]) {
        Err(IntErrorKind::InvalidDigit)
    } else {
        let v = acc * 10 + ((s[i] as u32) - 0x30) as nat;
        if v > u32::MAX {
            Err(IntErrorKind::PosOverflow)
        } else {
            spec_parse_u32_from(s, i + 1, v)
        }
    }
}

pub open spec fn spec_parse_u32(s: Seq<char>) -> Result<u32, IntErrorKind> {
    if s.len() == 0 {
        Err(IntErrorKind::Empty)
    } else {
        spec_parse_u32_from(s, 0, 0)
    }
}

pub open spec fn next_is(cs: Seq<char>, i: int, c: char) -> bool {
    0 <= i + 1 < cs.len() && cs[i + 1] == c
}

/// The symbol that starts at `cs[i]` and the number of characters it spans.
pub open spec fn spec_symbol_at(cs: Seq<char>, i: int) -> Option<(Symbol, int)> {
    let c = cs[i];
    if c == '(' {
        Some((Symbol::OpenParen, 1))
    } else if c == ')' {
        Some((Symbol::CloseParen, 1))
    } else if c == '{' {
        Some((Symbol::OpenBrace, 1))
    } else if c == '}' {
        Some((Symbol::CloseBrace, 1))
    } else if c == ';' {
        Some((Symbol::Semicolon, 1))
    } else if c == ',' {
        Some((Symbol::Comma, 1))
    } else if c == '?' {
        Some((Symbol::Question, 1))
    } else if c == ':' {
        Some((Symbol::Colon, 1))
    } else if c == '~' {
        Some((Symbol::Tilde, 1))
    } else if c == '-' {
        if next_is(cs, i, '-') {
            Some((Symbol::DoubleHyphen, 2))
        } else if next_is(cs, i, '=') {
            Some((Symbol::MinusEqual, 2))
        } else {
            Some((Symbol::Hyphen, 1))
        }
    } else if c == '+' {
        if next_is(cs, i, '+') {
            Some((Symbol::DoublePlus, 2))
        } else if next_is(cs, i, '=') {
            Some((Symbol::PlusEqual, 2))
        } else {
            Some((Symbol::Plus, 1))
        }
    } else if c == '*' {
        if next_is(cs, i, '=') {
            Some((Symbol::AsteriskEqual, 2))
        } else {
            Some((Symbol::Asterisk, 1))
        }
    } else if c == '/' {
        if next_is(cs, i, '=') {
            Some((Symbol::SlashEqual, 2))
        } else {
            Some((Symbol::Slash, 1))
        }
    } else if c == '%' {
        if next_is(cs, i, '=') {
            Some((Symbol::PercentEqual, 2))
        } else {
            Some((Symbol::Percent, 1))
        }
    } else if c == '=' {
        if next_is(cs, i, '=') {
            Some((Symbol::DoubleEqual, 2))
        } else {
            Some((Symbol::Equal, 1))
        }
    } else if c == '!' {
        if next_is(cs, i, '=') {
            Some((Symbol::NotEqual, 2))
        } else {
            Some((Symbol::Exclamation, 1))
        }
    } else if c == '&' {
        if next_is(cs, i, '&') {
            Some((Symbol::DoubleAmp, 2))
        } else if next_is(cs, i, '=') {
            Some((Symbol::AmpersandEqual, 2))
        } else {
            Some((Symbol::Ampersand, 1))
        }
    } else if c == '|' {
        if next_is(cs, i, '|') {
            Some((Symbol::DoubleBar, 2))
        } else if next_is(cs, i, '=') {
            Some((Symbol::BarEqual, 2))
        } else {
            Some((Symbol::Bar, 1))
        }
    } else if c == '^' {
        if next_is(cs, i, '=') {
            Some((Symbol::HatEqual, 2))
        } else {
            Some((Symbol::Hat, 1))
        }
    } else if c == '<' {
        if next_is(cs, i, '<') {
            if next_is(cs, i + 1, '=') {
                Some((Symbol::DoubleLtEqual, 3))
            } else {
                Some((Symbol::DoubleLt, 2))
            }
        } else if next_is(cs, i, '=') {
            Some((Symbol::LessEqual, 2))
        } else {
            Some((Symbol::LessThan, 1))
        }
    } else if c == '>' {
        if next_is(cs, i, '>') {
            if next_is(cs, i + 1, '=') {
                Some((Symbol::DoubleGtEqual, 3))
            } else {
                Some((Symbol::DoubleGt, 2))
            }
        } else if next_is(cs, i, '=') {
            Some((Symbol::GreaterEqual, 2))
        } else {
            Some((Symbol::GreaterThan, 1))
        }
    } else {
        None
    }
}

pub open spec fn prepend_tokens(
    front: Seq<TokenView>,
    rest: Result<Seq<TokenView>, LexerError>,
) -> Result<Seq<TokenView>, LexerError> {
    match rest {
        Ok(t) => Ok(front + t),
        Err(e) => Err(e),
    }
}

/// One step of lexing at index `i` of a line: the tokens it produces (none
/// for white space, one otherwise) and the index where the next step starts.
/// The character at index `i` stands in column `i + 1`, so a token made of
/// the characters at indices `i..j` has the column range `(i, j]`.
pub open spec fn spec_lex_step(cs: Seq<char>, line: usize, i: int) -> Result<
    (Seq<TokenView>, int),
    LexerError,
> {
    let c = cs[i];
    let col = (i + 1) as usize;
    if spec_is_whitespace(c) {
        Ok((seq![], i + 1))
    } else if spec_is_identifier_start(c) {
        let j = spec_ident_end(cs, i + 1);
        let word = cs.subrange(i, j);
        let token_type = match keyword_of(word) {
            Some(k) => TokenTypeView::Keyword(k),
            None => TokenTypeView::Identifier(word),
        };
        let location = Location { line, start: i as usize, end: j as usize };
        Ok((seq![TokenView { token_type, location }], j))
    } else if spec_is_ascii_digit(c) {
        let j = spec_ident_end(cs, i + 1);
        let location = Location { line, start: i as usize, end: j as usize };
        match spec_parse_u32(cs.subrange(i, j)) {
            Ok(v) => Ok((seq![TokenView { token_type: TokenTypeView::Constant(v), location }], j)),
            Err(kind) => Err(LexerError::ParseIntError(kind, location)),
        }
    } else {
        match spec_symbol_at(cs, i) {
            None => Err(LexerError::UnknownToken { line, column: col, character: c }),
            Some((symbol, n)) => {
                let location = Location { line, start: i as usize, end: (i + n) as usize };
                Ok((seq![TokenView { token_type: TokenTypeView::Symbol(symbol), location }], i + n))
            },
        }
    }
}

pub proof fn lemma_lex_step_advances(cs: Seq<char>, line: usize, i: int)
    requires
        0 <= i < cs.len(),
    ensures
        spec_lex_step(cs, line, i) matches Ok((_, j)) ==> i < j <= cs.len(),
{
    lemma_ident_end_bounds(cs, i + 1);
}

/// The tokens of the characters `cs[i..]` of line number `line`.
pub open spec fn spec_lex_line(cs: Seq<char>, line: usize, i: int) -> Result<
    Seq<TokenView>,
    LexerError,
>
    decreases cs.len() - i,
{
    if i < 0 || i >= cs.len() {
        Ok(seq![])
    } else {
        match spec_lex_step(cs, line, i) {
            Err(e) => Err(e),
            Ok((t, j)) => {
                proof {
                    lemma_lex_step_advances(cs, line, i);
                }
                prepend_tokens(t, spec_lex_line(cs, line, j))
            },
        }
    }
}

/// The tokens of lines `k..` (line `k` has number `k + 1`), ending with the
/// end-of-file token on the line after the last.
pub open spec fn spec_lex_lines(lines: Seq<Seq<char>>, k: int) -> Result<
    Seq<TokenView>,
    LexerError,
>
    decreases lines.len() - k,
{
    if k < 0 || k >= lines.len() {
        Ok(
            seq![
                TokenView {
                    token_type: TokenTypeView::EndOfFile,
                    location: Location { line: (k + 1) as usize, start: 0, end: 0 },
                },
            ],
        )
    } else {
        match spec_lex_line(lines[k], (k + 1) as usize, 0) {
            Ok(t) => prepend_tokens(t, spec_lex_lines(lines, k + 1)),
            Err(e) => Err(e),
        }
    }
}

pub open spec fn spec_lex(lines: Seq<Seq<char>>) -> Result<Seq<TokenView>, LexerError> {
    spec_lex_lines(lines, 0)
}

pub open spec fn lines_view(lines: Seq<String>) -> Seq<Seq<char>> {
    lines.map_values(|s: String| s@)
}

fn is_whitespace(c: char) -> (r: bool)
    ensures
        r == spec_is_whitespace(c),
{
    let u = c as u32;
    (0x09 <= u && u <= 0x0d) || u == 0x20 || u == 0x85 || u == 0xa0 || u == 0x1680 || (0x2000
        <= u && u <= 0x200a) || u == 0x2028 || u == 0x2029 || u == 0x202f || u == 0x205f || u
        == 0x3000
}

fn is_ascii_alphabetic(c: char) -> (r: bool)
    ensures
        r == spec_is_ascii_alphabetic(c),
{
    let u = c as u32;
    (0x41 <= u && u <= 0x5a) || (0x61 <= u && u <= 0x7a)
}

fn is_ascii_digit(c: char) -> (r: bool)
    ensures
        r == spec_is_ascii_digit(c),
{
    let u = c as u32;
    0x30 <= u && u <= 0x39
}

fn is_identifier_part(c: char) -> (r: bool)
    ensures
        r == spec_is_identifier_part(c),
{
    is_ascii_alphabetic(c) || is_ascii_digit(c) || c == '_'
}

fn str_chars(s: &str) -> (v: Vec<char>)
    ensures
        v@ == s@,
{
    broadcast use vstd::string::group_string_axioms;

    let mut v: Vec<char> = Vec::new();
    for c in iter: s.chars()
        invariant
            v@ == iter.seq().take(iter.index() as int),
            iter.seq() == s@,
    {
        v.push(c);
    }
    v
}

/// Whether `s` spells exactly the characters of `word`.
fn str_is(s: &str, word: &[char]) -> (r: bool)
    ensures
        r == (s@ == word@),
{
    let cs = str_chars(s);
    if cs.len() != word.len() {
        return false;
    }
    let mut i: usize = 0;
    while i < cs.len()
        invariant
            cs@ == s@,
            cs.len() == word@.len(),
            i <= cs.len(),
            forall|j: int| 0 <= j < i ==> cs@[j] == word@[j],
        decreases cs.len() - i,
    {
        if cs[i] != word[i] {
            return false;
        }
        i = i + 1;
    }
    assert(cs@ =~= word@);
    true
}

impl Keyword {
    /// The keyword spelled by `value`, or `Err(())` if it spells none.
    pub fn try_from(value: &String) -> (r: Result<Keyword, ()>)
        ensures
            match keyword_of(value@) {
                Some(k) => r == Ok::<Keyword, ()>(k),
                None => r is Err,
            },
    {
        let s = value.as_str();
        if str_is(s, &['i', 'n', 't']) {
            Ok(Keyword::Int)
        } else if str_is(s, &['l', 'o', 'n', 'g']) {
            Ok(Keyword::Long)
        } else if str_is(s, &['v', 'o', 'i', 'd']) {
            Ok(Keyword::Void)
        } else if str_is(s, &['r', 'e', 't', 'u', 'r', 'n']) {
            Ok(Keyword::Return)
        } else if str_is(s, &['i', 'f']) {
            Ok(Keyword::If)
        } else if str_is(s, &['e', 'l', 's', 'e']) {
            Ok(Keyword::Else)
        } else if str_is(s, &['g', 'o', 't', 'o']) {
            Ok(Keyword::Goto)
        } else if str_is(s, &['d', 'o']) {
            Ok(Keyword::Do)
        } else if str_is(s, &['w', 'h', 'i', 'l', 'e']) {
            Ok(Keyword::While)
        } else if str_is(s, &['f', 'o', 'r']) {
            Ok(Keyword::For)
        } else if str_is(s, &['b', 'r', 'e', 'a', 'k']) {
            Ok(Keyword::Break)
        } else if str_is(s, &['c', 'o', 'n', 't', 'i', 'n', 'u', 'e']) {
            Ok(Keyword::Continue)
        } else if str_is(s, &['s', 'w', 'i', 't', 'c', 'h']) {
            Ok(Keyword::Switch)
        } else if str_is(s, &['c', 'a', 's', 'e']) {
            Ok(Keyword::Case)
        } else if str_is(s, &['d', 'e', 'f', 'a', 'u', 'l', 't']) {
            Ok(Keyword::Default)
        } else if str_is(s, &['s', 't', 'a', 't', 'i', 'c']) {
            Ok(Keyword::Static)
        } else if str_is(s, &['e', 'x', 't', 'e', 'r', 'n']) {
            Ok(Keyword::Extern)
        } else {
            Err(())
        }
    }
}

/// The end of the identifier-like run that starts before `j`.
fn ident_end(cs: &Vec<char>, j: usize) -> (r: usize)
    requires
        j <= cs.len(),
    ensures
        r as int == spec_ident_end(cs@, j as int),
        j <= r <= cs.len(),
{
    let mut k = j;
    while k < cs.len() && is_identifier_part(cs[k])
        invariant
            j <= k <= cs.len(),
            spec_ident_end(cs@, j as int) == spec_ident_end(cs@, k as int),
        decreases cs.len() - k,
    {
        k = k + 1;
    }
    k
}

/// Reads `cs[start..end]` as a decimal `u32`, as `u32::from_str` does.
fn parse_u32(cs: &Vec<char>, start: usize, end: usize) -> (r: Result<u32, IntErrorKind>)
    requires
        start <= end <= cs.len(),
    ensures
        r == spec_parse_u32(cs@.subrange(start as int, end as int)),
{
    let ghost s = cs@.subrange(start as int, end as int);
    if start == end {
        return Err(IntErrorKind::Empty);
    }
    let mut acc: u32 = 0;
    let mut i = start;
    while i < end
        invariant
            start <= i <= end <= cs.len(),
            s == cs@.subrange(start as int, end as int),
            spec_parse_u32(s) == spec_parse_u32_from(s, (i - start) as int, acc as nat),
        decreases end - i,
    {
        let c = cs[i];
        assert(s[(i - start) as int] == c);
        if !is_ascii_digit(c) {
            return Err(IntErrorKind::InvalidDigit);
        }
        let d = (c as u32) - 0x30;
        if acc > 429496729 || (acc == 429496729 && d > 5) {
            return Err(IntErrorKind::PosOverflow);
        }
        acc = acc * 10 + d;
        i = i + 1;
    }
    Ok(acc)
}

fn symbol_at(cs: &Vec<char>, i: usize) -> (r: Option<(Symbol, usize)>)
    requires
        i < cs.len(),
    ensures
        match spec_symbol_at(cs@, i as int) {
            Some((s, n)) => r == Some((s, n as usize)) && 1 <= n <= 3 && i + n <= cs.len(),
            None => r is None,
        },
{
    let c = cs[i];
    let n1 = if cs.len() - i > 1 { Some(cs[i + 1]) } else { None };
    let n2 = if cs.len() - i > 2 { Some(cs[i + 2]) } else { None };
    if c == '(' {
        Some((Symbol::OpenParen, 1))
    } else if c == ')' {
        Some((Symbol::CloseParen, 1))
    } else if c == '{' {
        Some((Symbol::OpenBrace, 1))
    } else if c == '}' {
        Some((Symbol::CloseBrace, 1))
    } else if c == ';' {
        Some((Symbol::Semicolon, 1))
    } else if c == ',' {
        Some((Symbol::Comma, 1))
    } else if c == '?' {
        Some((Symbol::Question, 1))
    } else if c == ':' {
        Some((Symbol::Colon, 1))
    } else if c == '~' {
        Some((Symbol::Tilde, 1))
    } else if c == '-' {
        if n1 == Some('-') {
            Some((Symbol::DoubleHyphen, 2))
        } else if n1 == Some('=') {
            Some((Symbol::MinusEqual, 2))
        } else {
            Some((Symbol::Hyphen, 1))
        }
    } else if c == '+' {
        if n1 == Some('+') {
            Some((Symbol::DoublePlus, 2))
        } else if n1 == Some('=') {
            Some((Symbol::PlusEqual, 2))
        } else {
            Some((Symbol::Plus, 1))
        }
    } else if c == '*' {
        if n1 == Some('=') {
            Some((Symbol::AsteriskEqual, 2))
        } else {
            Some((Symbol::Asterisk, 1))
        }
    } else if c == '/' {
        if n1 == Some('=') {
            Some((Symbol::SlashEqual, 2))
        } else {
            Some((Symbol::Slash, 1))
        }
    } else if c == '%' {
        if n1 == Some('=') {
            Some((Symbol::PercentEqual, 2))
        } else {
            Some((Symbol::Percent, 1))
        }
    } else if c == '=' {
        if n1 == Some('=') {
            Some((Symbol::DoubleEqual, 2))
        } else {
            Some((Symbol::Equal, 1))
        }
    } else if c == '!' {
        if n1 == Some('=') {
            Some((Symbol::NotEqual, 2))
        } else {
            Some((Symbol::Exclamation, 1))
        }
    } else if c == '&' {
        if n1 == Some('&') {
            Some((Symbol::DoubleAmp, 2))
        } else if n1 == Some('=') {
            Some((Symbol::AmpersandEqual, 2))
        } else {
            Some((Symbol::Ampersand, 1))
        }
    } else if c == '|' {
        if n1 == Some('|') {
            Some((Symbol::DoubleBar, 2))
        } else if n1 == Some('=') {
            Some((Symbol::BarEqual, 2))
        } else {
            Some((Symbol::Bar, 1))
        }
    } else if c == '^' {
        if n1 == Some('=') {
            Some((Symbol::HatEqual, 2))
        } else {
            Some((Symbol::Hat, 1))
        }
    } else if c == '<' {
        if n1 == Some('<') {
            if n2 == Some('=') {
                Some((Symbol::DoubleLtEqual, 3))
            } else {
                Some((Symbol::DoubleLt, 2))
            }
        } else if n1 == Some('=') {
            Some((Symbol::LessEqual, 2))
        } else {
            Some((Symbol::LessThan, 1))
        }
    } else if c == '>' {
        if n1 == Some('>') {
            if n2 == Some('=') {
                Some((Symbol::DoubleGtEqual, 3))
            } else {
                Some((Symbol::DoubleGt, 2))
            }
        } else if n1 == Some('=') {
            Some((Symbol::GreaterEqual, 2))
        } else {
            Some((Symbol::GreaterThan, 1))
        }
    } else {
        None
    }
}

/// Performs one step of lexing at index `i`, appending the tokens it
/// produces, and returns the index where the next step starts.
fn lex_step(line: &str, cs: &Vec<char>, line_number: usize, i: usize, tokens: &mut Vec<Token>) -> (r: Result<
    usize,
    LexerError,
>)
    requires
        cs@ == line@,
        cs.len() + 2 < usize::MAX,
        i < cs.len(),
    ensures
        match spec_lex_step(cs@, line_number, i as int) {
            Ok((t, j)) => r == Ok::<usize, LexerError>(j as usize) && tokens_view(final(tokens)@)
                == tokens_view(old(tokens)@) + t,
            Err(e) => r == Err::<usize, LexerError>(e),
        },
{
    let c = cs[i];
    let column = i + 1;
    if is_whitespace(c) {
        assert(tokens_view(tokens@) =~= tokens_view(tokens@) + seq![]);
        Ok(i + 1)
    } else if is_ascii_alphabetic(c) || c == '_' {
        let j = ident_end(cs, i + 1);
        let identifier = String::from_str(line.substring_char(i, j));
        let location = Location { line: line_number, start: i, end: j };
        let token = match Keyword::try_from(&identifier) {
            Ok(keyword) => Token(TokenType::Keyword(keyword), location),
            Err(_) => Token(TokenType::Identifier(identifier), location),
        };
        tokens.push(token);
        assert(tokens_view(tokens@) =~= tokens_view(old(tokens)@) + seq![token@]);
        Ok(j)
    } else if is_ascii_digit(c) {
        let j = ident_end(cs, i + 1);
        let location = Location { line: line_number, start: i, end: j };
        match parse_u32(cs, i, j) {
            Ok(value) => {
                let token = Token(TokenType::Constant(value), location);
                tokens.push(token);
                assert(tokens_view(tokens@) =~= tokens_view(old(tokens)@) + seq![token@]);
                Ok(j)
            },
            Err(kind) => Err(LexerError::ParseIntError(kind, location)),
        }
    } else {
        match symbol_at(cs, i) {
            None => Err(LexerError::UnknownToken { line: line_number, column, character: c }),
            Some((symbol, n)) => {
                let location = Location { line: line_number, start: i, end: i + n };
                let token = Token(TokenType::Symbol(symbol), location);
                tokens.push(token);
                assert(tokens_view(tokens@) =~= tokens_view(old(tokens)@) + seq![token@]);
                Ok(i + n)
            },
        }
    }
}

pub proof fn lemma_prepend_tokens_assoc(
    a: Seq<TokenView>,
    b: Seq<TokenView>,
    r: Result<Seq<TokenView>, LexerError>,
)
    ensures
        prepend_tokens(a, prepend_tokens(b, r)) == prepend_tokens(a + b, r),
{
    if let Ok(t) = r {
        assert(a + (b + t) =~= (a + b) + t);
    }
}

/// Appends the tokens of `line` (line number `line_number`) to `tokens`.
fn lex_line(line: &str, line_number: usize, tokens: &mut Vec<Token>) -> (r: Result<
    (),
    LexerError,
>)
    requires
        line@.len() + 2 < usize::MAX,
    ensures
        match spec_lex_line(line@, line_number, 0) {
            Ok(t) => r is Ok && tokens_view(final(tokens)@) == tokens_view(old(tokens)@) + t,
            Err(e) => r == Err::<(), LexerError>(e),
        },
{
    let cs = str_chars(line);
    let ghost added: Seq<TokenView> = seq![];
    let mut i: usize = 0;
    while i < cs.len()
        invariant
            cs@ == line@,
            cs.len() + 2 < usize::MAX,
            i <= cs.len(),
            tokens_view(tokens@) == tokens_view(old(tokens)@) + added,
            spec_lex_line(cs@, line_number, 0) == prepend_tokens(
                added,
                spec_lex_line(cs@, line_number, i as int),
            ),
        decreases cs.len() - i,
    {
        let ghost before = tokens_view(tokens@);
        proof {
            lemma_lex_step_advances(cs@, line_number, i as int);
        }
        match lex_step(line, &cs, line_number, i, tokens) {
            Ok(j) => {
                proof {
                    let t = spec_lex_step(cs@, line_number, i as int)->Ok_0.0;
                    lemma_prepend_tokens_assoc(added, t, spec_lex_line(cs@, line_number, j as int));
                    assert(tokens_view(tokens@) =~= tokens_view(old(tokens)@) + (added + t));
                    added = added + t;
                }
                i = j;
            },
            Err(e) => {
                return Err(e);
            },
        }
    }
    assert(tokens_view(tokens@) =~= tokens_view(old(tokens)@) + added);
    Ok(())
}

/// Splits the lines of a source file into tokens. Line numbers count from 1
/// in the order of `lines`; the last token is `EndOfFile`, on the line after
/// the last one.
pub fn lex(lines: &Vec<String>) -> (r: Result<Vec<Token>, LexerError>)
    requires
        lines.len() + 2 < usize::MAX,
        forall|k: int| 0 <= k < lines.len() ==> #[trigger] lines[k]@.len() + 2 < usize::MAX,
    ensures
        match spec_lex(lines_view(lines@)) {
            Ok(t) => r matches Ok(tokens) && tokens_view(tokens@) == t,
            Err(e) => r == Err::<Vec<Token>, LexerError>(e),
        },
{
    let ghost lv = lines_view(lines@);
    let mut tokens: Vec<Token> = Vec::new();
    let mut k: usize = 0;
    while k < lines.len()
        invariant
            lv == lines_view(lines@),
            lines.len() + 2 < usize::MAX,
            forall|k: int| 0 <= k < lines.len() ==> #[trigger] lines[k]@.len() + 2 < usize::MAX,
            k <= lines.len(),
            spec_lex(lv) == prepend_tokens(tokens_view(tokens@), spec_lex_lines(lv, k as int)),
        decreases lines.len() - k,
    {
        let ghost before = tokens_view(tokens@);
        assert(lv[k as int] == lines[k as int]@);
        let r = lex_line(lines[k].as_str(), k + 1, &mut tokens);
        match r {
            Ok(()) => {
                proof {
                    let t = spec_lex_line(lv[k as int], (k + 1) as usize, 0)->Ok_0;
                    match spec_lex_lines(lv, k + 1) {
                        Ok(u) => {
                            assert(before + (t + u) =~= (before + t) + u);
                        },
                        Err(_) => {},
                    }
                }
            },
            Err(e) => {
                return Err(e);
            },
        }
        k = k + 1;
    }
    let token = Token(TokenType::EndOfFile, Location { line: k + 1, start: 0, end: 0 });
    let ghost before = tokens@;
    tokens.push(token);
    assert(tokens_view(tokens@) =~= tokens_view(before) + seq![token@]);
    Ok(tokens)
}

/// How each symbol is spelt in C source.
pub open spec fn symbol_text(s: Symbol) -> Seq<char> {
    match s {
        Symbol::OpenParen => seq!['('],
        Symbol::CloseParen => seq![')'],
        Symbol::OpenBrace => seq!['{'],
        Symbol::CloseBrace => seq!['}'],
        Symbol::Semicolon => seq![';'],
        Symbol::Comma => seq![','],
        Symbol::Question => seq!['?'],
        Symbol::Colon => seq![':'],
        Symbol::Exclamation => seq!['!'],
        Symbol::Tilde => seq!['~'],
        Symbol::Hyphen => seq!['-'],
        Symbol::DoubleHyphen => seq!['-', '-'],
        Symbol::Plus => seq!['+'],
        Symbol::DoublePlus => seq!['+', '+'],
        Symbol::Asterisk => seq!['*'],
        Symbol::Slash => seq!['/'],
        Symbol::Percent => seq!['%'],
        Symbol::Ampersand => seq!['&'],
        Symbol::Bar => seq!['|'],
        Symbol::Hat => seq!['^'],
        Symbol::DoubleLt => seq!['<', '<'],
        Symbol::DoubleGt => seq!['>', '>'],
        Symbol::DoubleAmp => seq!['&', '&'],
        Symbol::DoubleBar => seq!['|', '|'],
        Symbol::Equal => seq!['='],
        Symbol::DoubleEqual => seq!['=', '='],
        Symbol::NotEqual => seq!['!', '='],
        Symbol::LessThan => seq!['<'],
        Symbol::GreaterThan => seq!['>'],
        Symbol::LessEqual => seq!['<', '='],
        Symbol::GreaterEqual => seq!['>', '='],
        Symbol::PlusEqual => seq!['+', '='],
        Symbol::MinusEqual => seq!['-', '='],
        Symbol::AsteriskEqual => seq!['*', '='],
        Symbol::SlashEqual => seq!['/', '='],
        Symbol::PercentEqual => seq!['%', '='],
        Symbol::DoubleLtEqual => seq!['<', '<', '='],
        Symbol::DoubleGtEqual => seq!['>', '>', '='],
        Symbol::AmpersandEqual => seq!['&', '='],
        Symbol::BarEqual => seq!['|', '='],
        Symbol::HatEqual => seq!['^', '='],
    }
}

/// A symbol token covers, in the line it was read from, exactly the spelling
/// of its symbol, and no longer symbol is spelt where it starts (the longest
/// symbol is read); other tokens are not concerned.
pub open spec fn spells_longest_symbol(t: TokenView, cs: Seq<char>) -> bool {
    match t.token_type {
        TokenTypeView::Symbol(s) => {
            &&& t.location.start <= t.location.end <= cs.len()
            &&& cs.subrange(t.location.start as int, t.location.end as int) == symbol_text(s)
            &&& forall|s2: Symbol|
                #![trigger symbol_text(s2)]
                symbol_text(s2).len() > symbol_text(s).len() && t.location.start + symbol_text(s2).len()
                    <= cs.len() ==> cs.subrange(
                    t.location.start as int,
                    t.location.start + symbol_text(s2).len(),
                ) != symbol_text(s2)
        },
        _ => true,
    }
}

proof fn lemma_symbol_at_spells(cs: Seq<char>, i: int)
    requires
        0 <= i < cs.len(),
    ensures
        spec_symbol_at(cs, i) matches Some((s, n)) ==> 0 < n && i + n <= cs.len() && cs.subrange(
            i,
            i + n,
        ) == symbol_text(s),
{
    if let Some((s, n)) = spec_symbol_at(cs, i) {
        assert(cs.subrange(i, i + n) =~= symbol_text(s));
    }
}

proof fn lemma_symbol_at_longest(cs: Seq<char>, i: int, s2: Symbol)
    requires
        0 <= i < cs.len(),
    ensures
        spec_symbol_at(cs, i) matches Some((s, n)) ==> (symbol_text(s2).len() > n && i + symbol_text(
            s2,
        ).len() <= cs.len() ==> cs.subrange(i, i + symbol_text(s2).len()) != symbol_text(s2)),
{
    let txt = symbol_text(s2);
    if let Some((s, n)) = spec_symbol_at(cs, i) {
        if txt.len() > n && i + txt.len() <= cs.len() && cs.subrange(i, i + txt.len()) == txt {
            assert(txt[0] == cs[i]);
            assert(txt[1] == cs[i + 1]);
            if txt.len() > 2 {
                assert(txt[2] == cs[i + 2]);
            }
        }
    }
}

proof fn lemma_lex_step_spells(cs: Seq<char>, line: usize, i: int)
    requires
        0 <= i < cs.len(),
        cs.len() < usize::MAX,
    ensures
        spec_lex_step(cs, line, i) matches Ok((t, _)) ==> forall|k: int|
            0 <= k < t.len() ==> (#[trigger] t[k]).location.line == line && spells_longest_symbol(t[k], cs),
{
    lemma_symbol_at_spells(cs, i);
    lemma_ident_end_bounds(cs, i + 1);
    assert forall|s2: Symbol| spec_symbol_at(cs, i) matches Some((s, n)) ==> (#[trigger] symbol_text(s2).len() > n && i
        + symbol_text(s2).len() <= cs.len() ==> cs.subrange(i, i + symbol_text(s2).len()) != symbol_text(s2)) by {
        lemma_symbol_at_longest(cs, i, s2);
    }
}

proof fn lemma_lex_line_spells(cs: Seq<char>, line: usize, i: int)
    requires
        cs.len() < usize::MAX,
    ensures
        spec_lex_line(cs, line, i) matches Ok(t) ==> forall|k: int|
            0 <= k < t.len() ==> (#[trigger] t[k]).location.line == line && spells_longest_symbol(t[k], cs),
    decreases cs.len() - i,
{
    if 0 <= i < cs.len() {
        lemma_lex_step_spells(cs, line, i);
        lemma_lex_step_advances(cs, line, i);
        if let Ok((t, j)) = spec_lex_step(cs, line, i) {
            lemma_lex_line_spells(cs, line, j);
            if let Ok(u) = spec_lex_line(cs, line, j) {
                assert forall|k: int| 0 <= k < (t + u).len() implies (#[trigger] (t + u)[k]).location.line
                    == line && spells_longest_symbol((t + u)[k], cs) by {
                    if k >= t.len() {
                        assert((t + u)[k] == u[k - t.len()]);
                    }
                }
            }
        }
    }
}

proof fn lemma_lex_lines_spell(lines: Seq<Seq<char>>, k: int)
    requires
        0 <= k,
        lines.len() < usize::MAX,
        forall|j: int| 0 <= j < lines.len() ==> #[trigger] lines[j].len() < usize::MAX,
    ensures
        spec_lex_lines(lines, k) matches Ok(t) ==> forall|m: int|
            0 <= m < t.len() && (#[trigger] t[m]).token_type is Symbol ==> k + 1 <= t[m].location.line
                <= lines.len() && spells_longest_symbol(t[m], lines[t[m].location.line - 1]),
    decreases lines.len() - k,
{
    if k < lines.len() {
        lemma_lex_line_spells(lines[k], (k + 1) as usize, 0);
        lemma_lex_lines_spell(lines, k + 1);
        if let Ok(t) = spec_lex_line(lines[k], (k + 1) as usize, 0) {
            if let Ok(u) = spec_lex_lines(lines, k + 1) {
                assert forall|m: int| 0 <= m < (t + u).len() && (#[trigger] (t + u)[m]).token_type is Symbol
                    implies k + 1 <= (t + u)[m].location.line <= lines.len() && spells_longest_symbol(
                    (t + u)[m],
                    lines[(t + u)[m].location.line - 1],
                ) by {
                    if m >= t.len() {
                        assert((t + u)[m] == u[m - t.len()]);
                    } else {
                        assert(t[m].location.line == k + 1);
                    }
                }
            }
        }
    }
}

/// The lexer's symbol tokens spell the source: each one stands on a line of
/// the input, the characters of that line that it covers are the spelling
/// of the symbol it holds, and no longer symbol starts there (so `>=` is
/// read as `GreaterEqual`, never as `>` and `=`, and `>` alone as
/// `GreaterThan`).
pub proof fn law_symbol_tokens_spell_the_source(lines: Seq<Seq<char>>)
    requires
        lines.len() < usize::MAX,
        forall|j: int| 0 <= j < lines.len() ==> #[trigger] lines[j].len() < usize::MAX,
    ensures
        spec_lex(lines) matches Ok(t) ==> forall|m: int|
            0 <= m < t.len() && (#[trigger] t[m]).token_type is Symbol ==> 1 <= t[m].location.line
                <= lines.len() && spells_longest_symbol(t[m], lines[t[m].location.line - 1]),
{
    lemma_lex_lines_spell(lines, 0);
}

} // verus!
