//! The parser reads its tokens through itertools' `MultiPeek`, which can look
//! any number of tokens ahead. The items here are its trusted interface.
use vstd::prelude::*;

use itertools::{Itertools, MultiPeek};

use crate::lexer::{Keyword, Token, TokenType};
use crate::types::IsType;

verus! {

#[verifier::external_type_specification]
#[verifier::external_body]
#[verifier::reject_recursive_types(I)]
pub struct ExMultiPeek<I: Iterator>(MultiPeek<I>);

/// The tokens that `next` has not yet handed out, in order.
pub uninterp spec fn pending_tokens(stream: MultiPeek<std::vec::IntoIter<Token>>) -> Seq<Token>;

/// How many tokens `peek` has looked at since the last `next` or
/// `reset_peek`.
pub uninterp spec fn peek_cursor(stream: MultiPeek<std::vec::IntoIter<Token>>) -> nat;

pub open spec fn spec_is_type_token(t: Token) -> bool {
    t.0 matches TokenType::Keyword(k) && (k == Keyword::Int || k == Keyword::Long)
}

pub open spec fn spec_is_specifier_token(t: Token) -> bool {
    t.0 matches TokenType::Keyword(k) && (k == Keyword::Int || k == Keyword::Long || k
        == Keyword::Static || k == Keyword::Extern)
}

/// How many tokens at the front of `s` are type specifiers.
pub open spec fn leading_type_tokens(s: Seq<Token>) -> nat
    decreases s.len(),
{
    if s.len() > 0 && spec_is_type_token(s[0]) {
        1 + leading_type_tokens(s.drop_first())
    } else {
        0
    }
}

/// How many tokens at the front of `s` are type or storage class specifiers.
pub open spec fn leading_specifier_tokens(s: Seq<Token>) -> nat
    decreases s.len(),
{
    if s.len() > 0 && spec_is_specifier_token(s[0]) {
        1 + leading_specifier_tokens(s.drop_first())
    } else {
        0
    }
}

pub proof fn lemma_leading_type_tokens_bound(s: Seq<Token>)
    ensures
        leading_type_tokens(s) <= s.len(),
    decreases s.len(),
{
    if s.len() > 0 && spec_is_type_token(s[0]) {
        lemma_leading_type_tokens_bound(s.drop_first());
    }
}

pub proof fn lemma_leading_specifier_tokens_bound(s: Seq<Token>)
    ensures
        leading_specifier_tokens(s) <= s.len(),
    decreases s.len(),
{
    if s.len() > 0 && spec_is_specifier_token(s[0]) {
        lemma_leading_specifier_tokens_bound(s.drop_first());
    }
}

pub fn is_type_token(t: &Token) -> (r: bool)
    ensures
        r == spec_is_type_token(*t),
{
    match &t.0 {
        TokenType::Keyword(k) => k.is_type(),
        _ => false,
    }
}

pub fn is_specifier_token(t: &Token) -> (r: bool)
    ensures
        r == spec_is_specifier_token(*t),
{
    match &t.0 {
        TokenType::Keyword(k) => match k {
            Keyword::Int | Keyword::Long | Keyword::Static | Keyword::Extern => true,
            _ => false,
        },
        _ => false,
    }
}

/// `Itertools::multipeek` on the tokens: a stream that hands out `tokens` in
/// order, with its peek cursor at the front.
#[verifier::external_body]
pub(crate) fn token_stream(tokens: Vec<Token>) -> (r: MultiPeek<std::vec::IntoIter<Token>>)
    ensures
        pending_tokens(r) == tokens@,
        peek_cursor(r) == 0,
{
    tokens.into_iter().multipeek()
}

/// `MultiPeek::next`: hands out the first pending token, if any, and resets
/// the peek cursor.
#[verifier::external_body]
pub(crate) fn next_token(stream: &mut MultiPeek<std::vec::IntoIter<Token>>) -> (r: Option<Token>)
    ensures
        pending_tokens(*old(stream)).len() > 0 ==> r == Some(pending_tokens(*old(stream))[0])
            && pending_tokens(*final(stream)) == pending_tokens(*old(stream)).drop_first(),
        pending_tokens(*old(stream)).len() == 0 ==> r is None && pending_tokens(*final(stream))
            == pending_tokens(*old(stream)),
        peek_cursor(*final(stream)) == 0,
{
    stream.next()
}

/// `MultiPeek::peek`, with the token it looks at copied out: the pending
/// token under the cursor, which then moves one further; nothing, and the
/// cursor stays, when the cursor is past the last pending token.
#[verifier::external_body]
pub(crate) fn peek_token(stream: &mut MultiPeek<std::vec::IntoIter<Token>>) -> (r: Option<Token>)
    ensures
        pending_tokens(*final(stream)) == pending_tokens(*old(stream)),
        peek_cursor(*old(stream)) < pending_tokens(*old(stream)).len() ==> r == Some(
            pending_tokens(*old(stream))[peek_cursor(*old(stream)) as int],
        ) && peek_cursor(*final(stream)) == peek_cursor(*old(stream)) + 1,
        peek_cursor(*old(stream)) >= pending_tokens(*old(stream)).len() ==> r is None
            && peek_cursor(*final(stream)) == peek_cursor(*old(stream)),
{
    stream.peek().cloned()
}

/// `MultiPeek::reset_peek`: moves the peek cursor back to the front.
#[verifier::external_body]
pub(crate) fn reset_peek(stream: &mut MultiPeek<std::vec::IntoIter<Token>>)
    ensures
        pending_tokens(*final(stream)) == pending_tokens(*old(stream)),
        peek_cursor(*final(stream)) == 0,
{
    stream.reset_peek()
}

/// The number of leading tokens that `take_leading` takes: type and storage
/// class specifiers, or type specifiers alone.
pub open spec fn leading_tokens(s: Seq<Token>, specifiers: bool) -> nat {
    if specifiers {
        leading_specifier_tokens(s)
    } else {
        leading_type_tokens(s)
    }
}

/// Whether `take_leading` takes the token.
pub fn is_taken(t: &Token, specifiers: bool) -> (r: bool)
    ensures
        r == if specifiers {
            spec_is_specifier_token(*t)
        } else {
            spec_is_type_token(*t)
        },
{
    if specifiers {
        is_specifier_token(t)
    } else {
        is_type_token(t)
    }
}

/// `Itertools::peeking_take_while`, collected with `collect_vec`: takes off
/// the stream the leading tokens that are specifiers (type and storage class
/// specifiers, or type specifiers alone), in order. The source leaves the
/// peek cursor at 0 or 1, or where it was when nothing was taken; which one
/// depends on the stream's internal buffer, so it is not stated.
#[verifier::external_body]
pub(crate) fn take_leading(stream: &mut MultiPeek<std::vec::IntoIter<Token>>, specifiers: bool) -> (r: Vec<
    Token,
>)
    ensures
        r@ == pending_tokens(*old(stream)).take(
            leading_tokens(pending_tokens(*old(stream)), specifiers) as int,
        ),
        pending_tokens(*final(stream)) == pending_tokens(*old(stream)).skip(
            leading_tokens(pending_tokens(*old(stream)), specifiers) as int,
        ),
{
    stream.peeking_take_while(|t| is_taken(t, specifiers)).collect_vec()
}

} // verus!
