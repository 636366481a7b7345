//! The grammar of the language, as spec functions from the pending tokens to
//! the parsed tree (as a view) and the tokens left over. Each function mirrors
//! one step of the recursive-descent parser in `parser`, including which
//! error it reports and where it stops.
use vstd::prelude::*;

use crate::lexer::{Keyword, Symbol, Token, TokenType};
use crate::parser::{
    Associativity, BinaryOperator, BlockItemView, DeclarationView, ExpressionView, FactorView,
    ForInitView, FuncDeclarationView, ParserErrorView, PostfixOp, PostfixView, PrimaryView,
    StatementView, StorageClass, TypedExpressionView, UnaryOperator, VariableDeclarationView,
};
use crate::token_stream::{
    leading_specifier_tokens, leading_type_tokens, lemma_leading_specifier_tokens_bound,
    lemma_leading_type_tokens_bound, spec_is_specifier_token, spec_is_type_token,
};
use crate::types::{spec_type_from_tokens, is_keyword_token, Constant, TypeView};

verus! {

pub type PResult<T> = Result<(T, Seq<Token>), ParserErrorView>;

pub open spec fn is_symbol_token(t: Token, sym: Symbol) -> bool {
    t.0 matches TokenType::Symbol(s) && s == sym
}

pub open spec fn front_is_symbol(s: Seq<Token>, sym: Symbol) -> bool {
    s.len() > 0 && is_symbol_token(s[0], sym)
}

pub open spec fn front_is_keyword(s: Seq<Token>, k: Keyword) -> bool {
    s.len() > 0 && is_keyword_token(s[0], k)
}

pub open spec fn typed(e: ExpressionView) -> TypedExpressionView {
    TypedExpressionView { expression: e, ty: None }
}

/// The tokens after the symbol `sym` at the front of `s`; an error naming
/// what was expected and the token found instead when `s` starts with
/// another token, and the end of the stream when `s` is empty.
pub open spec fn spec_expect_symbol(s: Seq<Token>, sym: Symbol, expected: Seq<char>) -> Result<
    Seq<Token>,
    ParserErrorView,
> {
    if s.len() == 0 {
        Err(ParserErrorView::EndOfTokenStream)
    } else if is_symbol_token(s[0], sym) {
        Ok(s.drop_first())
    } else {
        Err(ParserErrorView::UnexpectedToken { expected, found: s[0] })
    }
}

pub open spec fn spec_expect_keyword(s: Seq<Token>, k: Keyword, expected: Seq<char>) -> Result<
    Seq<Token>,
    ParserErrorView,
> {
    if s.len() == 0 {
        Err(ParserErrorView::EndOfTokenStream)
    } else if is_keyword_token(s[0], k) {
        Ok(s.drop_first())
    } else {
        Err(ParserErrorView::UnexpectedToken { expected, found: s[0] })
    }
}

pub open spec fn spec_expect_identifier(s: Seq<Token>, expected: Seq<char>) -> PResult<Seq<char>> {
    if s.len() == 0 {
        Err(ParserErrorView::EndOfTokenStream)
    } else {
        match s[0].0 {
            TokenType::Identifier(id) => Ok((id@, s.drop_first())),
            _ => Err(ParserErrorView::UnexpectedToken { expected, found: s[0] }),
        }
    }
}

pub open spec fn spec_expect_end_of_file(s: Seq<Token>) -> Result<Seq<Token>, ParserErrorView> {
    if s.len() == 0 {
        Err(ParserErrorView::EndOfTokenStream)
    } else if s[0].0 is EndOfFile {
        Ok(s.drop_first())
    } else {
        Err(ParserErrorView::UnexpectedToken { expected: "end of file"@, found: s[0] })
    }
}

/// An integer literal is an `int` when it fits one, else a `long`.
pub open spec fn spec_constant_of(v: u32) -> Constant {
    if v <= i32::MAX {
        Constant::Int(v as i32)
    } else {
        Constant::Long(v as i64)
    }
}

pub open spec fn spec_storage_class_of(k: Keyword) -> StorageClass {
    if k == Keyword::Static {
        StorageClass::Static
    } else {
        StorageClass::Extern
    }
}

/// Sorts declaration specifiers into type specifier tokens and storage class
/// keywords, or gives the first token that is neither.
pub open spec fn spec_split_specifiers(toks: Seq<Token>) -> Result<
    (Seq<Token>, Seq<Keyword>),
    Token,
>
    decreases toks.len(),
{
    if toks.len() == 0 {
        Ok((seq![], seq![]))
    } else {
        match spec_split_specifiers(toks.drop_last()) {
            Err(t) => Err(t),
            Ok((types, classes)) => {
                let t = toks.last();
                if spec_is_type_token(t) {
                    Ok((types.push(t), classes))
                } else if is_keyword_token(t, Keyword::Static) {
                    Ok((types, classes.push(Keyword::Static)))
                } else if is_keyword_token(t, Keyword::Extern) {
                    Ok((types, classes.push(Keyword::Extern)))
                } else {
                    Err(t)
                }
            },
        }
    }
}

pub open spec fn spec_types_and_storage_class(toks: Seq<Token>) -> Result<
    (TypeView, Option<StorageClass>),
    ParserErrorView,
> {
    match spec_split_specifiers(toks) {
        Err(t) => Err(ParserErrorView::InvalidTypeOrStorageClass(t)),
        Ok((types, classes)) => match spec_type_from_tokens(types) {
            Err(e) => Err(ParserErrorView::TypeError(e)),
            Ok(ty) => if classes.len() > 1 {
                Err(ParserErrorView::InvalidStorageClass)
            } else if classes.len() == 0 {
                Ok((ty, None))
            } else {
                Ok((ty, Some(spec_storage_class_of(classes[0]))))
            },
        },
    }
}

/// The parameters after the first, each a list of type specifiers and a name,
/// separated by commas.
pub open spec fn spec_params_loop(s: Seq<Token>, acc: Seq<(TypeView, Seq<char>)>) -> PResult<
    Seq<(TypeView, Seq<char>)>,
>
    decreases s.len(),
{
    let n = leading_type_tokens(s);
    match spec_type_from_tokens(s.take(n as int)) {
        Err(e) => Err(ParserErrorView::TypeError(e)),
        Ok(ty) => {
            proof {
                lemma_leading_type_tokens_bound(s);
            }
            match spec_expect_identifier(s.skip(n as int), "parameter name"@) {
                Err(e) => Err(e),
                Ok((id, s1)) => {
                    let acc2 = acc.push((ty, id));
                    if front_is_symbol(s1, Symbol::Comma) {
                        spec_params_loop(s1.drop_first(), acc2)
                    } else {
                        Ok((acc2, s1))
                    }
                },
            }
        },
    }
}

/// The parameter list of a function, after its `(`: `void`, or typed names.
pub open spec fn spec_params(s: Seq<Token>) -> PResult<Seq<(TypeView, Seq<char>)>> {
    if s.len() == 0 {
        Err(ParserErrorView::EndOfTokenStream)
    } else if is_keyword_token(s[0], Keyword::Void) {
        Ok((seq![], s.drop_first()))
    } else if spec_is_type_token(s[0]) {
        spec_params_loop(s, seq![])
    } else {
        Err(ParserErrorView::UnexpectedToken { expected: "type specifier"@, found: s[0] })
    }
}

pub open spec fn spec_unary_operator_of(t: Token) -> Option<UnaryOperator> {
    if is_symbol_token(t, Symbol::Tilde) {
        Some(UnaryOperator::Complement)
    } else if is_symbol_token(t, Symbol::Hyphen) {
        Some(UnaryOperator::Negate)
    } else if is_symbol_token(t, Symbol::Exclamation) {
        Some(UnaryOperator::LogicalNot)
    } else if is_symbol_token(t, Symbol::DoublePlus) {
        Some(UnaryOperator::PrefixIncrement)
    } else if is_symbol_token(t, Symbol::DoubleHyphen) {
        Some(UnaryOperator::PrefixDecrement)
    } else {
        None
    }
}

/// The binding strength of a symbol as an infix operator, if it is one.
pub open spec fn spec_precedence(op: Symbol) -> Option<i32> {
    match op {
        Symbol::Asterisk | Symbol::Slash | Symbol::Percent => Some(50),
        Symbol::Plus | Symbol::Hyphen => Some(45),
        Symbol::DoubleLt | Symbol::DoubleGt => Some(40),
        Symbol::LessThan | Symbol::GreaterThan | Symbol::LessEqual | Symbol::GreaterEqual => Some(
            35,
        ),
        Symbol::DoubleEqual | Symbol::NotEqual => Some(30),
        Symbol::Ampersand => Some(25),
        Symbol::Hat => Some(20),
        Symbol::Bar => Some(15),
        Symbol::DoubleAmp => Some(10),
        Symbol::DoubleBar => Some(5),
        Symbol::Question => Some(3),
        Symbol::Equal | Symbol::PlusEqual | Symbol::MinusEqual | Symbol::AsteriskEqual
        | Symbol::SlashEqual | Symbol::PercentEqual | Symbol::AmpersandEqual | Symbol::BarEqual
        | Symbol::HatEqual | Symbol::DoubleLtEqual | Symbol::DoubleGtEqual => Some(1),
        _ => None,
    }
}

pub open spec fn spec_associativity(op: Symbol) -> Associativity {
    match op {
        Symbol::Equal | Symbol::PlusEqual | Symbol::MinusEqual | Symbol::AsteriskEqual
        | Symbol::SlashEqual | Symbol::PercentEqual | Symbol::AmpersandEqual | Symbol::BarEqual
        | Symbol::HatEqual | Symbol::DoubleLtEqual | Symbol::DoubleGtEqual | Symbol::Question =>
            Associativity::RightToLeft,
        _ => Associativity::LeftToRight,
    }
}

/// The binary operator written by a left-associative infix symbol.
pub open spec fn spec_binary_operator_of(op: Symbol) -> BinaryOperator {
    match op {
        Symbol::Plus => BinaryOperator::Add,
        Symbol::Hyphen => BinaryOperator::Subtract,
        Symbol::Asterisk => BinaryOperator::Multiply,
        Symbol::Slash => BinaryOperator::Divide,
        Symbol::Percent => BinaryOperator::Remainder,
        Symbol::Ampersand => BinaryOperator::BitwiseAnd,
        Symbol::Bar => BinaryOperator::BitwiseOr,
        Symbol::Hat => BinaryOperator::BitwiseXor,
        Symbol::DoubleLt => BinaryOperator::LeftShift,
        Symbol::DoubleGt => BinaryOperator::RightShift,
        Symbol::DoubleAmp => BinaryOperator::LogicalAnd,
        Symbol::DoubleBar => BinaryOperator::LogicalOr,
        Symbol::DoubleEqual => BinaryOperator::Equal,
        Symbol::NotEqual => BinaryOperator::NotEqual,
        Symbol::LessThan => BinaryOperator::LessThan,
        Symbol::GreaterThan => BinaryOperator::GreaterThan,
        Symbol::LessEqual => BinaryOperator::LessEqual,
        _ => BinaryOperator::GreaterEqual,
    }
}

/// The right-hand side that an assignment operator stores: the right
/// operand for `=`, else the operation of the compound assignment on both.
/// `=` and the compound assignment symbols.
pub open spec fn is_assignment_symbol(op: Symbol) -> bool {
    spec_associativity(op) == Associativity::RightToLeft && op != Symbol::Question
}

pub open spec fn spec_op_to_assignment(op: Symbol, left: ExpressionView, right: ExpressionView) -> ExpressionView {
    let bin = |o: BinaryOperator|
        ExpressionView::BinaryOp { op: o, left: Box::new(typed(left)), right: Box::new(typed(right)) };
    match op {
        Symbol::PlusEqual => bin(BinaryOperator::Add),
        Symbol::MinusEqual => bin(BinaryOperator::Subtract),
        Symbol::AsteriskEqual => bin(BinaryOperator::Multiply),
        Symbol::SlashEqual => bin(BinaryOperator::Divide),
        Symbol::PercentEqual => bin(BinaryOperator::Remainder),
        Symbol::DoubleLtEqual => bin(BinaryOperator::LeftShift),
        Symbol::DoubleGtEqual => bin(BinaryOperator::RightShift),
        Symbol::AmpersandEqual => bin(BinaryOperator::BitwiseAnd),
        Symbol::BarEqual => bin(BinaryOperator::BitwiseOr),
        Symbol::HatEqual => bin(BinaryOperator::BitwiseXor),
        _ => right,
    }
}

/// The `++` and `--` that follow a primary expression.
pub open spec fn spec_postfix_ops(s: Seq<Token>) -> (Seq<PostfixOp>, Seq<Token>)
    decreases s.len(),
{
    if front_is_symbol(s, Symbol::DoublePlus) {
        let (ops, rest) = spec_postfix_ops(s.drop_first());
        (seq![PostfixOp::PostfixIncrement] + ops, rest)
    } else if front_is_symbol(s, Symbol::DoubleHyphen) {
        let (ops, rest) = spec_postfix_ops(s.drop_first());
        (seq![PostfixOp::PostfixDecrement] + ops, rest)
    } else {
        (seq![], s)
    }
}

pub open spec fn spec_primary(s: Seq<Token>) -> PResult<PrimaryView>
    decreases s.len(), 0nat,
{
    if s.len() == 0 {
        Err(ParserErrorView::EndOfTokenStream)
    } else {
        let t = s[0];
        let s1 = s.drop_first();
        match t.0 {
            TokenType::Constant(v) => Ok((PrimaryView::Constant(spec_constant_of(v)), s1)),
            TokenType::Identifier(id) => if front_is_symbol(s1, Symbol::OpenParen) {
                let s2 = s1.drop_first();
                let args = if front_is_symbol(s2, Symbol::CloseParen) {
                    Ok((seq![], s2))
                } else {
                    spec_arguments(s2, seq![])
                };
                match args {
                    Err(e) => Err(e),
                    Ok((args, s3)) => match spec_expect_symbol(s3, Symbol::CloseParen, "')'"@) {
                        Err(e) => Err(e),
                        Ok(s4) => Ok((PrimaryView::FunctionCall(id@, args), s4)),
                    },
                }
            } else {
                Ok((PrimaryView::Var(id@), s1))
            },
            TokenType::Symbol(Symbol::OpenParen) => match spec_expr(s1, 0) {
                Err(e) => Err(e),
                Ok((e, s2)) => match spec_expect_symbol(s2, Symbol::CloseParen, "')'"@) {
                    Err(err) => Err(err),
                    Ok(s3) => Ok((PrimaryView::Paren(Box::new(typed(e))), s3)),
                },
            },
            _ => Err(
                ParserErrorView::UnexpectedToken {
                    expected: "constant, identifier, or '('"@,
                    found: t,
                },
            ),
        }
    }
}

/// A non-empty comma-separated list of arguments; `acc` holds those read.
pub open spec fn spec_arguments(s: Seq<Token>, acc: Seq<TypedExpressionView>) -> PResult<
    Seq<TypedExpressionView>,
>
    decreases s.len(), 4nat,
{
    match spec_expr(s, 0) {
        Err(e) => Err(e),
        Ok((e, s1)) => {
            let acc2 = acc.push(typed(e));
            if front_is_symbol(s1, Symbol::Comma) {
                if s1.len() < s.len() {
                    spec_arguments(s1.drop_first(), acc2)
                } else {
                    Err(ParserErrorView::EndOfTokenStream)
                }
            } else {
                Ok((acc2, s1))
            }
        },
    }
}

pub open spec fn spec_postfix(s: Seq<Token>) -> PResult<PostfixView>
    decreases s.len(), 1nat,
{
    match spec_primary(s) {
        Err(e) => Err(e),
        Ok((p, s1)) => {
            let (ops, s2) = spec_postfix_ops(s1);
            Ok((PostfixView { primary: p, postfix: ops }, s2))
        },
    }
}

pub open spec fn spec_factor(s: Seq<Token>) -> PResult<FactorView>
    decreases s.len(), 2nat,
{
    if s.len() > 0 && spec_unary_operator_of(s[0]) is Some {
        match spec_factor(s.drop_first()) {
            Err(e) => Err(e),
            Ok((f, s1)) => Ok(
                (
                    FactorView::UnaryOp {
                        op: spec_unary_operator_of(s[0])->Some_0,
                        fac: Box::new(f),
                    },
                    s1,
                ),
            ),
        }
    } else if front_is_symbol(s, Symbol::OpenParen) && s.len() > 1 && spec_is_type_token(s[1]) {
        let s1 = s.drop_first();
        let n = leading_type_tokens(s1);
        proof {
            lemma_leading_type_tokens_bound(s1);
        }
        match spec_type_from_tokens(s1.take(n as int)) {
            Err(e) => Err(ParserErrorView::TypeError(e)),
            Ok(ty) => match spec_expect_symbol(s1.skip(n as int), Symbol::CloseParen, "')'"@) {
                Err(e) => Err(e),
                Ok(s2) => match spec_factor(s2) {
                    Err(e) => Err(e),
                    Ok((f, s3)) => Ok((FactorView::Cast { ty, fac: Box::new(f) }, s3)),
                },
            },
        }
    } else {
        match spec_postfix(s) {
            Err(e) => Err(e),
            Ok((p, s1)) => Ok((FactorView::Postfix(p), s1)),
        }
    }
}

/// An expression whose infix operators all bind at least as strongly as
/// `min_prec`.
pub open spec fn spec_expr(s: Seq<Token>, min_prec: i32) -> PResult<ExpressionView>
    decreases s.len(), 3nat,
{
    match spec_factor(s) {
        Err(e) => Err(e),
        Ok((f, s1)) => if s1.len() < s.len() {
            spec_climb(s1, ExpressionView::Factor(f), min_prec)
        } else {
            Err(ParserErrorView::EndOfTokenStream)
        },
    }
}

/// Precedence climbing: extends `left` with the infix operators in front of
/// `s` that bind at least as strongly as `min_prec`.
pub open spec fn spec_climb(s: Seq<Token>, left: ExpressionView, min_prec: i32) -> PResult<
    ExpressionView,
>
    decreases s.len(), 3nat,
{
    if s.len() > 0 && s[0].0 is Symbol && spec_precedence(s[0].0->Symbol_0) is Some
        && spec_precedence(s[0].0->Symbol_0)->Some_0 >= min_prec {
        let op = s[0].0->Symbol_0;
        let prec = spec_precedence(op)->Some_0;
        let s1 = s.drop_first();
        if spec_associativity(op) == Associativity::RightToLeft {
            if op == Symbol::Question {
                match spec_expr(s1, 0) {
                    Err(e) => Err(e),
                    Ok((middle, s2)) => match spec_expect_symbol(s2, Symbol::Colon, "':'"@) {
                        Err(e) => Err(e),
                        Ok(s3) => if s3.len() < s.len() {
                            match spec_expr(s3, prec) {
                                Err(e) => Err(e),
                                Ok((right, s4)) => if s4.len() < s.len() {
                                    spec_climb(
                                        s4,
                                        ExpressionView::Conditional {
                                            condition: Box::new(typed(left)),
                                            then_branch: Box::new(typed(middle)),
                                            else_branch: Box::new(typed(right)),
                                        },
                                        min_prec,
                                    )
                                } else {
                                    Err(ParserErrorView::EndOfTokenStream)
                                },
                            }
                        } else {
                            Err(ParserErrorView::EndOfTokenStream)
                        },
                    },
                }
            } else {
                match spec_expr(s1, prec) {
                    Err(e) => Err(e),
                    Ok((right, s2)) => if s2.len() < s.len() {
                        spec_climb(
                            s2,
                            ExpressionView::Assignment {
                                left: Box::new(typed(left)),
                                right: Box::new(typed(spec_op_to_assignment(op, left, right))),
                            },
                            min_prec,
                        )
                    } else {
                        Err(ParserErrorView::EndOfTokenStream)
                    },
                }
            }
        } else {
            match spec_expr(s1, (prec + 1) as i32) {
                Err(e) => Err(e),
                Ok((right, s2)) => if s2.len() < s.len() {
                    spec_climb(
                        s2,
                        ExpressionView::BinaryOp {
                            op: spec_binary_operator_of(op),
                            left: Box::new(typed(left)),
                            right: Box::new(typed(right)),
                        },
                        min_prec,
                    )
                } else {
                    Err(ParserErrorView::EndOfTokenStream)
                },
            }
        }
    } else {
        Ok((left, s))
    }
}

/// A parenthesised expression, as the statements `if`, `while`, `do` and
/// `switch` take it: `(`, the expression, `)`.
pub open spec fn spec_paren_condition(s: Seq<Token>) -> PResult<ExpressionView>
    decreases s.len(), 4nat,
{
    match spec_expect_symbol(s, Symbol::OpenParen, "'('"@) {
        Err(e) => Err(e),
        Ok(s1) => if s1.len() < s.len() {
            match spec_expr(s1, 0) {
                Err(e) => Err(e),
                Ok((c, s2)) => match spec_expect_symbol(s2, Symbol::CloseParen, "')'"@) {
                    Err(e) => Err(e),
                    Ok(s3) => Ok((c, s3)),
                },
            }
        } else {
            Err(ParserErrorView::EndOfTokenStream)
        },
    }
}

/// An expression followed by a `;`.
pub open spec fn spec_expr_semicolon(s: Seq<Token>) -> PResult<ExpressionView>
    decreases s.len(), 4nat,
{
    match spec_expr(s, 0) {
        Err(e) => Err(e),
        Ok((e, s1)) => match spec_expect_symbol(s1, Symbol::Semicolon, "';'"@) {
            Err(err) => Err(err),
            Ok(s2) => Ok((e, s2)),
        },
    }
}

/// The initialiser of a `for` statement, up to and including its `;`.
pub open spec fn spec_for_init(s: Seq<Token>) -> PResult<ForInitView>
    decreases s.len(), 7nat,
{
    if s.len() > 0 && spec_is_specifier_token(s[0]) {
        match spec_declaration(s) {
            Err(e) => Err(e),
            Ok((DeclarationView::Variable(v), s1)) => Ok((ForInitView::Declaration(v), s1)),
            Ok((DeclarationView::Function(_), _)) => Err(
                ParserErrorView::FunctionDeclarationInForInit,
            ),
        }
    } else if front_is_symbol(s, Symbol::Semicolon) {
        Ok((ForInitView::Expression(None), s.drop_first()))
    } else {
        match spec_expr_semicolon(s) {
            Err(e) => Err(e),
            Ok((e, s1)) => Ok((ForInitView::Expression(Some(typed(e))), s1)),
        }
    }
}

/// An optional expression that stops before `end`.
pub open spec fn spec_optional_expr(s: Seq<Token>, end: Symbol) -> PResult<
    Option<TypedExpressionView>,
>
    decreases s.len(), 4nat,
{
    if !front_is_symbol(s, end) {
        match spec_expr(s, 0) {
            Err(e) => Err(e),
            Ok((e, s1)) => Ok((Some(typed(e)), s1)),
        }
    } else {
        Ok((None, s))
    }
}

pub open spec fn spec_statement(s: Seq<Token>) -> PResult<StatementView>
    decreases s.len(), 6nat,
{
    if s.len() == 0 {
        Err(ParserErrorView::EndOfTokenStream)
    } else {
        let t = s[0];
        let s1 = s.drop_first();
        if is_keyword_token(t, Keyword::Return) {
            match spec_expr_semicolon(s1) {
                Err(e) => Err(e),
                Ok((e, s2)) => Ok((StatementView::Return(typed(e)), s2)),
            }
        } else if is_keyword_token(t, Keyword::Break) {
            match spec_expect_symbol(s1, Symbol::Semicolon, "';'"@) {
                Err(e) => Err(e),
                Ok(s2) => Ok((StatementView::Break(None), s2)),
            }
        } else if is_keyword_token(t, Keyword::Continue) {
            match spec_expect_symbol(s1, Symbol::Semicolon, "';'"@) {
                Err(e) => Err(e),
                Ok(s2) => Ok((StatementView::Continue(None), s2)),
            }
        } else if t.0 is Identifier && front_is_symbol(s1, Symbol::Colon) {
            match spec_statement(s1.drop_first()) {
                Err(e) => Err(e),
                Ok((st, s2)) => Ok((StatementView::Labeled(t.0->Identifier_0@, Box::new(st)), s2)),
            }
        } else if is_keyword_token(t, Keyword::Case) {
            match spec_expr(s1, 0) {
                Err(e) => Err(e),
                Ok((e, s2)) => match spec_expect_symbol(s2, Symbol::Colon, "':'"@) {
                    Err(err) => Err(err),
                    Ok(s3) => if s3.len() < s.len() {
                        match spec_statement(s3) {
                            Err(err) => Err(err),
                            Ok((st, s4)) => Ok(
                                (StatementView::Case(typed(e), Box::new(st), None), s4),
                            ),
                        }
                    } else {
                        Err(ParserErrorView::EndOfTokenStream)
                    },
                },
            }
        } else if is_keyword_token(t, Keyword::Default) {
            match spec_expect_symbol(s1, Symbol::Colon, "':'"@) {
                Err(e) => Err(e),
                Ok(s2) => if s2.len() < s.len() {
                    match spec_statement(s2) {
                        Err(e) => Err(e),
                        Ok((st, s3)) => Ok((StatementView::Default(Box::new(st), None), s3)),
                    }
                } else {
                    Err(ParserErrorView::EndOfTokenStream)
                },
            }
        } else if is_keyword_token(t, Keyword::Goto) {
            match spec_expect_identifier(s1, "label name"@) {
                Err(e) => Err(e),
                Ok((label, s2)) => match spec_expect_symbol(s2, Symbol::Semicolon, "';'"@) {
                    Err(e) => Err(e),
                    Ok(s3) => Ok((StatementView::Goto(label), s3)),
                },
            }
        } else if is_keyword_token(t, Keyword::If) {
            match spec_paren_condition(s1) {
                Err(e) => Err(e),
                Ok((c, s2)) => if s2.len() < s.len() {
                    match spec_statement(s2) {
                        Err(e) => Err(e),
                        Ok((then_branch, s3)) => if front_is_keyword(s3, Keyword::Else) {
                            if s3.len() < s.len() {
                                match spec_statement(s3.drop_first()) {
                                    Err(e) => Err(e),
                                    Ok((else_branch, s4)) => Ok(
                                        (
                                            StatementView::If {
                                                condition: typed(c),
                                                then_branch: Box::new(then_branch),
                                                else_branch: Some(Box::new(else_branch)),
                                            },
                                            s4,
                                        ),
                                    ),
                                }
                            } else {
                                Err(ParserErrorView::EndOfTokenStream)
                            }
                        } else {
                            Ok(
                                (
                                    StatementView::If {
                                        condition: typed(c),
                                        then_branch: Box::new(then_branch),
                                        else_branch: None,
                                    },
                                    s3,
                                ),
                            )
                        },
                    }
                } else {
                    Err(ParserErrorView::EndOfTokenStream)
                },
            }
        } else if is_keyword_token(t, Keyword::While) {
            match spec_paren_condition(s1) {
                Err(e) => Err(e),
                Ok((c, s2)) => if s2.len() < s.len() {
                    match spec_statement(s2) {
                        Err(e) => Err(e),
                        Ok((body, s3)) => Ok(
                            (
                                StatementView::While {
                                    condition: typed(c),
                                    body: Box::new(body),
                                    label: None,
                                },
                                s3,
                            ),
                        ),
                    }
                } else {
                    Err(ParserErrorView::EndOfTokenStream)
                },
            }
        } else if is_keyword_token(t, Keyword::Do) {
            match spec_statement(s1) {
                Err(e) => Err(e),
                Ok((body, s2)) => match spec_expect_keyword(s2, Keyword::While, "while"@) {
                    Err(e) => Err(e),
                    Ok(s3) => if s3.len() < s.len() {
                        match spec_paren_condition(s3) {
                            Err(e) => Err(e),
                            Ok((c, s4)) => match spec_expect_symbol(
                                s4,
                                Symbol::Semicolon,
                                "';'"@,
                            ) {
                                Err(e) => Err(e),
                                Ok(s5) => Ok(
                                    (
                                        StatementView::DoWhile {
                                            body: Box::new(body),
                                            condition: typed(c),
                                            label: None,
                                        },
                                        s5,
                                    ),
                                ),
                            },
                        }
                    } else {
                        Err(ParserErrorView::EndOfTokenStream)
                    },
                },
            }
        } else if is_keyword_token(t, Keyword::For) {
            match spec_expect_symbol(s1, Symbol::OpenParen, "'('"@) {
                Err(e) => Err(e),
                Ok(s2) => match spec_for_init(s2) {
                    Err(e) => Err(e),
                    Ok((init, s3)) => if s3.len() < s.len() {
                        match spec_optional_expr(s3, Symbol::Semicolon) {
                            Err(e) => Err(e),
                            Ok((condition, s4)) => match spec_expect_symbol(
                                s4,
                                Symbol::Semicolon,
                                "';'"@,
                            ) {
                                Err(e) => Err(e),
                                Ok(s5) => if s5.len() < s.len() {
                                    match spec_optional_expr(s5, Symbol::CloseParen) {
                                        Err(e) => Err(e),
                                        Ok((post, s6)) => match spec_expect_symbol(
                                            s6,
                                            Symbol::CloseParen,
                                            "')'"@,
                                        ) {
                                            Err(e) => Err(e),
                                            Ok(s7) => if s7.len() < s.len() {
                                                match spec_statement(s7) {
                                                    Err(e) => Err(e),
                                                    Ok((body, s8)) => Ok(
                                                        (
                                                            StatementView::For {
                                                                init,
                                                                condition,
                                                                post,
                                                                body: Box::new(body),
                                                                label: None,
                                                            },
                                                            s8,
                                                        ),
                                                    ),
                                                }
                                            } else {
                                                Err(ParserErrorView::EndOfTokenStream)
                                            },
                                        },
                                    }
                                } else {
                                    Err(ParserErrorView::EndOfTokenStream)
                                },
                            },
                        }
                    } else {
                        Err(ParserErrorView::EndOfTokenStream)
                    },
                },
            }
        } else if is_keyword_token(t, Keyword::Switch) {
            match spec_paren_condition(s1) {
                Err(e) => Err(e),
                Ok((c, s2)) => if s2.len() < s.len() {
                    match spec_statement(s2) {
                        Err(e) => Err(e),
                        Ok((body, s3)) => Ok(
                            (
                                StatementView::Switch {
                                    condition: typed(c),
                                    body: Box::new(body),
                                    label: None,
                                    cases: seq![],
                                    default_exists: false,
                                },
                                s3,
                            ),
                        ),
                    }
                } else {
                    Err(ParserErrorView::EndOfTokenStream)
                },
            }
        } else if is_symbol_token(t, Symbol::OpenBrace) {
            match spec_block(s) {
                Err(e) => Err(e),
                Ok((items, s2)) => Ok((StatementView::Block(items), s2)),
            }
        } else if is_symbol_token(t, Symbol::Semicolon) {
            Ok((StatementView::Null, s1))
        } else {
            match spec_expr_semicolon(s) {
                Err(e) => Err(e),
                Ok((e, s2)) => Ok((StatementView::Expression(typed(e)), s2)),
            }
        }
    }
}

/// `{`, block items up to the matching `}`, and that `}`.
pub open spec fn spec_block(s: Seq<Token>) -> PResult<Seq<BlockItemView>>
    decreases s.len(), 5nat,
{
    match spec_expect_symbol(s, Symbol::OpenBrace, "'{'"@) {
        Err(e) => Err(e),
        Ok(s1) => if s1.len() < s.len() {
            match spec_block_items(s1, seq![]) {
                Err(e) => Err(e),
                Ok((items, s2)) => match spec_expect_symbol(s2, Symbol::CloseBrace, "'}'"@) {
                    Err(e) => Err(e),
                    Ok(s3) => Ok((items, s3)),
                },
            }
        } else {
            Err(ParserErrorView::EndOfTokenStream)
        },
    }
}

/// Block items up to a `}`; `acc` holds those read.
pub open spec fn spec_block_items(s: Seq<Token>, acc: Seq<BlockItemView>) -> PResult<
    Seq<BlockItemView>,
>
    decreases s.len(), 8nat,
{
    if front_is_symbol(s, Symbol::CloseBrace) {
        Ok((acc, s))
    } else {
        match spec_block_item(s) {
            Err(e) => Err(e),
            Ok((item, s1)) => if s1.len() < s.len() {
                spec_block_items(s1, acc.push(item))
            } else {
                Err(ParserErrorView::EndOfTokenStream)
            },
        }
    }
}

pub open spec fn spec_block_item(s: Seq<Token>) -> PResult<BlockItemView>
    decreases s.len(), 7nat,
{
    if s.len() > 0 && spec_is_specifier_token(s[0]) {
        match spec_declaration(s) {
            Err(e) => Err(e),
            Ok((d, s1)) => Ok((BlockItemView::Declaration(d), s1)),
        }
    } else {
        match spec_statement(s) {
            Err(e) => Err(e),
            Ok((st, s1)) => Ok((BlockItemView::Statement(st), s1)),
        }
    }
}

pub open spec fn param_types(params: Seq<(TypeView, Seq<char>)>) -> Seq<TypeView> {
    params.map_values(|p: (TypeView, Seq<char>)| p.0)
}

pub open spec fn param_names(params: Seq<(TypeView, Seq<char>)>) -> Seq<Seq<char>> {
    params.map_values(|p: (TypeView, Seq<char>)| p.1)
}

/// The body of a function declaration after its `)`: a `;` for none, or a
/// block.
pub open spec fn spec_function_body(s: Seq<Token>) -> PResult<Option<Seq<BlockItemView>>>
    decreases s.len(), 6nat,
{
    if front_is_symbol(s, Symbol::Semicolon) {
        Ok((None, s.drop_first()))
    } else {
        match spec_block(s) {
            Err(e) => Err(e),
            Ok((b, s1)) => Ok((Some(b), s1)),
        }
    }
}

pub open spec fn spec_declaration(s: Seq<Token>) -> PResult<DeclarationView>
    decreases s.len(), 6nat,
{
    let n = leading_specifier_tokens(s);
    proof {
        lemma_leading_specifier_tokens_bound(s);
    }
    match spec_types_and_storage_class(s.take(n as int)) {
        Err(e) => Err(e),
        Ok((ty, storage_class)) => match spec_expect_identifier(s.skip(n as int), "identifier"@) {
            Err(e) => Err(e),
            Ok((identifier, s1)) => if front_is_symbol(s1, Symbol::OpenParen) {
                match spec_params(s1.drop_first()) {
                    Err(e) => Err(e),
                    Ok((params, s2)) => match spec_expect_symbol(s2, Symbol::CloseParen, "')'"@) {
                        Err(e) => Err(e),
                        Ok(s3) => if s3.len() < s.len() {
                            match spec_function_body(s3) {
                                Err(e) => Err(e),
                                Ok((body, s4)) => Ok(
                                    (
                                        DeclarationView::Function(
                                            FuncDeclarationView {
                                                identifier,
                                                parameters: param_names(params),
                                                body,
                                                ty: TypeView::Function {
                                                    params: param_types(params),
                                                    return_type: Box::new(ty),
                                                },
                                                storage_class,
                                            },
                                        ),
                                        s4,
                                    ),
                                ),
                            }
                        } else {
                            Err(ParserErrorView::EndOfTokenStream)
                        },
                    },
                }
            } else if s1.len() == 0 {
                Err(ParserErrorView::EndOfTokenStream)
            } else if is_symbol_token(s1[0], Symbol::Equal) {
                match spec_expr_semicolon(s1.drop_first()) {
                    Err(e) => Err(e),
                    Ok((e, s2)) => Ok(
                        (
                            DeclarationView::Variable(
                                VariableDeclarationView {
                                    identifier,
                                    initialiser: Some(typed(e)),
                                    ty,
                                    storage_class,
                                },
                            ),
                            s2,
                        ),
                    ),
                }
            } else if is_symbol_token(s1[0], Symbol::Semicolon) {
                Ok(
                    (
                        DeclarationView::Variable(
                            VariableDeclarationView {
                                identifier,
                                initialiser: None,
                                ty,
                                storage_class,
                            },
                        ),
                        s1.drop_first(),
                    ),
                )
            } else {
                Err(ParserErrorView::UnexpectedToken { expected: "'=' or ';'"@, found: s1[0] })
            },
        },
    }
}

/// Declarations up to the end-of-file token; `acc` holds those read.
pub open spec fn spec_declarations(s: Seq<Token>, acc: Seq<DeclarationView>) -> PResult<
    Seq<DeclarationView>,
>
    decreases s.len(), 7nat,
{
    if s.len() > 0 && s[0].0 is EndOfFile {
        Ok((acc, s))
    } else {
        match spec_declaration(s) {
            Err(e) => Err(e),
            Ok((d, s1)) => if s1.len() < s.len() {
                spec_declarations(s1, acc.push(d))
            } else {
                Err(ParserErrorView::EndOfTokenStream)
            },
        }
    }
}

/// The program that a token list spells: declarations, then the end-of-file
/// token.
pub open spec fn spec_parse(s: Seq<Token>) -> Result<Seq<DeclarationView>, ParserErrorView> {
    match spec_declarations(s, seq![]) {
        Err(e) => Err(e),
        Ok((decls, s1)) => match spec_expect_end_of_file(s1) {
            Err(e) => Err(e),
            Ok(_) => Ok(decls),
        },
    }
}

/// The rows of C's operator precedence table for the binary, conditional and
/// assignment operators, from the row that binds tightest: multiplicative
/// (`* / %`), additive (`+ -`), shift (`<< >>`), relational
/// (`< > <= >=`), equality (`== !=`), bitwise and, bitwise exclusive or,
/// bitwise or, logical and, logical or, conditional (`?`), assignment (`=`
/// and the compound assignments). None for a symbol that is no such
/// operator.
pub open spec fn c_precedence_row(op: Symbol) -> Option<nat> {
    match op {
        Symbol::Asterisk | Symbol::Slash | Symbol::Percent => Some(1),
        Symbol::Plus | Symbol::Hyphen => Some(2),
        Symbol::DoubleLt | Symbol::DoubleGt => Some(3),
        Symbol::LessThan | Symbol::GreaterThan | Symbol::LessEqual | Symbol::GreaterEqual => Some(4),
        Symbol::DoubleEqual | Symbol::NotEqual => Some(5),
        Symbol::Ampersand => Some(6),
        Symbol::Hat => Some(7),
        Symbol::Bar => Some(8),
        Symbol::DoubleAmp => Some(9),
        Symbol::DoubleBar => Some(10),
        Symbol::Question => Some(11),
        Symbol::Equal | Symbol::PlusEqual | Symbol::MinusEqual | Symbol::AsteriskEqual
        | Symbol::SlashEqual | Symbol::PercentEqual | Symbol::AmpersandEqual | Symbol::BarEqual
        | Symbol::HatEqual | Symbol::DoubleLtEqual | Symbol::DoubleGtEqual => Some(12),
        _ => None,
    }
}

proof fn lemma_precedence_by_row(op: Symbol)
    ensures
        spec_precedence(op) is Some <==> c_precedence_row(op) is Some,
        c_precedence_row(op) is Some ==> {
            let r = c_precedence_row(op)->Some_0;
            let p = spec_precedence(op)->Some_0;
            &&& 1 <= r <= 12
            &&& (r <= 10 ==> p == 55 - 5 * r)
            &&& (r == 11 ==> p == 3)
            &&& (r == 12 ==> p == 1)
        },
{
}

/// The parser's precedences order the operators as C's table does: an
/// operator binds tighter than another exactly when its row comes first, and
/// two operators share a precedence exactly when they share a row. So `<<`
/// binds looser than `+` and tighter than `<`, and `1 << 2 + 1` is
/// `1 << (2 + 1)`.
pub proof fn law_precedence_follows_c(a: Symbol, b: Symbol)
    ensures
        spec_precedence(a) is Some <==> c_precedence_row(a) is Some,
        spec_precedence(a) is Some && spec_precedence(b) is Some ==> {
            &&& (spec_precedence(a)->Some_0 > spec_precedence(b)->Some_0 <==> c_precedence_row(a)->Some_0
                < c_precedence_row(b)->Some_0)
            &&& (spec_precedence(a)->Some_0 == spec_precedence(b)->Some_0 <==> c_precedence_row(a)
                == c_precedence_row(b))
        },
{
    lemma_precedence_by_row(a);
    lemma_precedence_by_row(b);
}

/// The conditional and the assignments group from right to left, every other
/// binary operator from left to right, as in C.
pub proof fn law_associativity_follows_c(op: Symbol)
    requires
        c_precedence_row(op) is Some,
    ensures
        (spec_associativity(op) == Associativity::RightToLeft) <==> c_precedence_row(op)->Some_0 >= 11,
{
}

} // verus!
