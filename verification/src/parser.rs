//! The abstract syntax tree and the recursive-descent parser that builds it
//! from tokens.
use vstd::prelude::*;

use itertools::MultiPeek;

use crate::grammar::{PResult, front_is_symbol, front_is_keyword, typed, spec_expect_symbol, spec_expect_keyword, spec_expect_identifier, spec_expect_end_of_file, spec_constant_of, spec_split_specifiers, spec_types_and_storage_class, spec_params_loop, spec_params, spec_unary_operator_of, spec_precedence, spec_associativity, spec_binary_operator_of, spec_op_to_assignment, is_assignment_symbol, spec_postfix_ops, spec_primary, spec_arguments, spec_postfix, spec_factor, spec_expr, spec_climb, spec_paren_condition, spec_expr_semicolon, spec_for_init, spec_optional_expr, spec_statement, spec_block, spec_block_items, spec_block_item, param_types, param_names, spec_function_body, spec_declaration, spec_declarations, spec_parse};
use crate::lexer::{Keyword, Symbol, Token, TokenType};
use crate::token_stream::{pending_tokens, peek_cursor, spec_is_type_token, lemma_leading_type_tokens_bound, lemma_leading_specifier_tokens_bound, is_type_token, is_specifier_token, token_stream, next_token, peek_token, reset_peek, take_leading};
use crate::types::{
    lemma_types_view_push, spec_is_type_keyword, types_view, Constant,
    IsType, Type, TypeError, TypeErrorView, TypeView,
};

verus! {

#[derive(Debug)]
pub enum ParserError {
    UnexpectedToken { expected: String, found: Token },
    EndOfTokenStream,
    InvalidTypeOrStorageClass(Token),
    InvalidType,
    InvalidStorageClass,
    FunctionDeclarationInForInit,
    TypeError(TypeError),
}

pub enum ParserErrorView {
    UnexpectedToken { expected: Seq<char>, found: Token },
    EndOfTokenStream,
    InvalidTypeOrStorageClass(Token),
    InvalidType,
    InvalidStorageClass,
    FunctionDeclarationInForInit,
    TypeError(TypeErrorView),
}

impl View for ParserError {
    type V = ParserErrorView;

    open spec fn view(&self) -> ParserErrorView {
        match self {
            ParserError::UnexpectedToken { expected, found } => ParserErrorView::UnexpectedToken {
                expected: expected@,
                found: *found,
            },
            ParserError::EndOfTokenStream => ParserErrorView::EndOfTokenStream,
            ParserError::InvalidTypeOrStorageClass(t) => ParserErrorView::InvalidTypeOrStorageClass(
                *t,
            ),
            ParserError::InvalidType => ParserErrorView::InvalidType,
            ParserError::InvalidStorageClass => ParserErrorView::InvalidStorageClass,
            ParserError::FunctionDeclarationInForInit => ParserErrorView::FunctionDeclarationInForInit,
            ParserError::TypeError(e) => ParserErrorView::TypeError(e@),
        }
    }
}

#[derive(Debug)]
pub struct Program(pub Vec<Declaration>);

#[derive(Debug)]
pub enum Declaration {
    Variable(VariableDeclaration),
    Function(FuncDeclaration),
}

#[derive(Debug)]
pub struct FuncDeclaration {
    pub identifier: String,
    pub parameters: ParamList,
    pub body: Option<Block>,
    pub ty: Type,
    pub storage_class: Option<StorageClass>,
}

#[derive(Debug)]
pub struct VariableDeclaration {
    pub identifier: String,
    pub initialiser: Option<TypedExpression>,
    pub ty: Type,
    pub storage_class: Option<StorageClass>,
}

#[derive(Debug)]
pub struct ParamList(pub Vec<String>);

#[derive(Debug, Clone, Copy, PartialEq, Eq, Structural)]
pub enum StorageClass {
    Static,
    Extern,
}

#[derive(Debug)]
pub struct Block(pub Vec<BlockItem>);

#[derive(Debug)]
pub enum BlockItem {
    Statement(Statement),
    Declaration(Declaration),
}

#[derive(Debug)]
pub enum Statement {
    Return(TypedExpression),
    Labeled(String, Box<Statement>),
    Goto(String),
    Expression(TypedExpression),
    If {
        condition: TypedExpression,
        then_branch: Box<Statement>,
        else_branch: Option<Box<Statement>>,
    },
    Break(Option<String>),
    Continue(Option<String>),
    Case(TypedExpression, Box<Statement>, Option<String>),
    Default(Box<Statement>, Option<String>),
    While { condition: TypedExpression, body: Box<Statement>, label: Option<String> },
    DoWhile { body: Box<Statement>, condition: TypedExpression, label: Option<String> },
    For {
        init: ForInit,
        condition: Option<TypedExpression>,
        post: Option<TypedExpression>,
        body: Box<Statement>,
        label: Option<String>,
    },
    Switch {
        condition: TypedExpression,
        body: Box<Statement>,
        label: Option<String>,
        cases: Vec<Constant>,
        default_exists: bool,
    },
    Block(Block),
    Null,
}

#[derive(Debug)]
pub enum ForInit {
    Declaration(VariableDeclaration),
    Expression(Option<TypedExpression>),
}

#[derive(Debug)]
pub struct TypedExpression {
    pub expression: Expression,
    pub ty: Option<Type>,
}

#[derive(Debug)]
pub enum Expression {
    Factor(Factor),
    BinaryOp { op: BinaryOperator, left: Box<TypedExpression>, right: Box<TypedExpression> },
    Assignment { left: Box<TypedExpression>, right: Box<TypedExpression> },
    Conditional {
        condition: Box<TypedExpression>,
        then_branch: Box<TypedExpression>,
        else_branch: Box<TypedExpression>,
    },
}

#[derive(Debug, Clone, Copy, PartialEq, Eq, Structural)]
pub enum BinaryOperator {
    Add,
    Subtract,
    Multiply,
    Divide,
    Remainder,
    BitwiseAnd,
    BitwiseOr,
    BitwiseXor,
    LeftShift,
    RightShift,
    LogicalAnd,
    LogicalOr,
    Equal,
    NotEqual,
    LessThan,
    GreaterThan,
    LessEqual,
    GreaterEqual,
}

#[derive(Debug, Clone, Copy, PartialEq, Eq, Structural)]
pub enum Associativity {
    LeftToRight,
    RightToLeft,
}

#[derive(Debug)]
pub enum Factor {
    UnaryOp { op: UnaryOperator, fac: Box<Factor> },
    Postfix(Postfix),
    Cast { ty: Type, fac: Box<Factor> },
}

#[derive(Debug, Clone, Copy, PartialEq, Eq, Structural)]
pub enum UnaryOperator {
    Complement,
    Negate,
    LogicalNot,
    PrefixIncrement,
    PrefixDecrement,
}

#[derive(Debug)]
pub struct Postfix {
    pub primary: Primary,
    pub postfix: Vec<PostfixOp>,
}

#[derive(Debug, Clone, Copy, PartialEq, Eq, Structural)]
pub enum PostfixOp {
    PostfixIncrement,
    PostfixDecrement,
}

#[derive(Debug)]
pub enum Primary {
    Constant(Constant),
    Var(String),
    Paren(Box<TypedExpression>),
    FunctionCall(String, ArgumentList),
}

#[derive(Debug)]
pub struct ArgumentList(pub Vec<TypedExpression>);

// The same tree with identifiers as character sequences and lists as
// sequences: what the contracts speak of.
pub enum DeclarationView {
    Variable(VariableDeclarationView),
    Function(FuncDeclarationView),
}

pub struct FuncDeclarationView {
    pub identifier: Seq<char>,
    pub parameters: Seq<Seq<char>>,
    pub body: Option<Seq<BlockItemView>>,
    pub ty: TypeView,
    pub storage_class: Option<StorageClass>,
}

pub struct VariableDeclarationView {
    pub identifier: Seq<char>,
    pub initialiser: Option<TypedExpressionView>,
    pub ty: TypeView,
    pub storage_class: Option<StorageClass>,
}

pub enum BlockItemView {
    Statement(StatementView),
    Declaration(DeclarationView),
}

pub enum StatementView {
    Return(TypedExpressionView),
    Labeled(Seq<char>, Box<StatementView>),
    Goto(Seq<char>),
    Expression(TypedExpressionView),
    If {
        condition: TypedExpressionView,
        then_branch: Box<StatementView>,
        else_branch: Option<Box<StatementView>>,
    },
    Break(Option<Seq<char>>),
    Continue(Option<Seq<char>>),
    Case(TypedExpressionView, Box<StatementView>, Option<Seq<char>>),
    Default(Box<StatementView>, Option<Seq<char>>),
    While { condition: TypedExpressionView, body: Box<StatementView>, label: Option<Seq<char>> },
    DoWhile { body: Box<StatementView>, condition: TypedExpressionView, label: Option<Seq<char>> },
    For {
        init: ForInitView,
        condition: Option<TypedExpressionView>,
        post: Option<TypedExpressionView>,
        body: Box<StatementView>,
        label: Option<Seq<char>>,
    },
    Switch {
        condition: TypedExpressionView,
        body: Box<StatementView>,
        label: Option<Seq<char>>,
        cases: Seq<Constant>,
        default_exists: bool,
    },
    Block(Seq<BlockItemView>),
    Null,
}

pub enum ForInitView {
    Declaration(VariableDeclarationView),
    Expression(Option<TypedExpressionView>),
}

pub struct TypedExpressionView {
    pub expression: ExpressionView,
    pub ty: Option<TypeView>,
}

pub enum ExpressionView {
    Factor(FactorView),
    BinaryOp {
        op: BinaryOperator,
        left: Box<TypedExpressionView>,
        right: Box<TypedExpressionView>,
    },
    Assignment { left: Box<TypedExpressionView>, right: Box<TypedExpressionView> },
    Conditional {
        condition: Box<TypedExpressionView>,
        then_branch: Box<TypedExpressionView>,
        else_branch: Box<TypedExpressionView>,
    },
}

pub enum FactorView {
    UnaryOp { op: UnaryOperator, fac: Box<FactorView> },
    Postfix(PostfixView),
    Cast { ty: TypeView, fac: Box<FactorView> },
}

pub struct PostfixView {
    pub primary: PrimaryView,
    pub postfix: Seq<PostfixOp>,
}

pub enum PrimaryView {
    Constant(Constant),
    Var(Seq<char>),
    Paren(Box<TypedExpressionView>),
    FunctionCall(Seq<char>, Seq<TypedExpressionView>),
}

pub open spec fn strings_view(s: Seq<String>) -> Seq<Seq<char>> {
    s.map_values(|x: String| x@)
}

pub open spec fn opt_string_view(s: Option<String>) -> Option<Seq<char>> {
    match s {
        Some(x) => Some(x@),
        None => None,
    }
}

pub open spec fn opt_type_view(t: Option<Type>) -> Option<TypeView> {
    match t {
        Some(x) => Some(x@),
        None => None,
    }
}

impl TypedExpression {
    pub open spec fn view_of(self) -> TypedExpressionView
        decreases self, 0nat,
    {
        TypedExpressionView { expression: self.expression.view_of(), ty: opt_type_view(self.ty) }
    }
}

impl Expression {
    pub open spec fn view_of(self) -> ExpressionView
        decreases self, 0nat,
    {
        match self {
            Expression::Factor(f) => ExpressionView::Factor(f.view_of()),
            Expression::BinaryOp { op, left, right } => ExpressionView::BinaryOp {
                op,
                left: Box::new((*left).view_of()),
                right: Box::new((*right).view_of()),
            },
            Expression::Assignment { left, right } => ExpressionView::Assignment {
                left: Box::new((*left).view_of()),
                right: Box::new((*right).view_of()),
            },
            Expression::Conditional { condition, then_branch, else_branch } =>
                ExpressionView::Conditional {
                condition: Box::new((*condition).view_of()),
                then_branch: Box::new((*then_branch).view_of()),
                else_branch: Box::new((*else_branch).view_of()),
            },
        }
    }
}

impl Factor {
    pub open spec fn view_of(self) -> FactorView
        decreases self, 0nat,
    {
        match self {
            Factor::UnaryOp { op, fac } => FactorView::UnaryOp {
                op,
                fac: Box::new((*fac).view_of()),
            },
            Factor::Postfix(p) => FactorView::Postfix(p.view_of()),
            Factor::Cast { ty, fac } => FactorView::Cast {
                ty: ty@,
                fac: Box::new((*fac).view_of()),
            },
        }
    }
}

impl Postfix {
    pub open spec fn view_of(self) -> PostfixView
        decreases self, 0nat,
    {
        PostfixView { primary: self.primary.view_of(), postfix: self.postfix@ }
    }
}

impl Primary {
    pub open spec fn view_of(self) -> PrimaryView
        decreases self, 0nat,
    {
        match self {
            Primary::Constant(c) => PrimaryView::Constant(c),
            Primary::Var(s) => PrimaryView::Var(s@),
            Primary::Paren(e) => PrimaryView::Paren(Box::new((*e).view_of())),
            Primary::FunctionCall(f, args) => PrimaryView::FunctionCall(
                f@,
                typed_expressions_view(args.0@),
            ),
        }
    }
}

pub open spec fn typed_expressions_view(s: Seq<TypedExpression>) -> Seq<TypedExpressionView>
    decreases s, s.len(),
{
    if s.len() == 0 {
        seq![]
    } else {
        seq![s[0].view_of()] + typed_expressions_view(s.drop_first())
    }
}

pub open spec fn opt_typed_expression_view(e: Option<TypedExpression>) -> Option<
    TypedExpressionView,
> {
    match e {
        Some(x) => Some(x.view_of()),
        None => None,
    }
}

impl VariableDeclaration {
    pub open spec fn view_of(self) -> VariableDeclarationView {
        VariableDeclarationView {
            identifier: self.identifier@,
            initialiser: opt_typed_expression_view(self.initialiser),
            ty: self.ty@,
            storage_class: self.storage_class,
        }
    }
}

impl Statement {
    pub open spec fn view_of(self) -> StatementView
        decreases self, 0nat,
    {
        match self {
            Statement::Return(e) => StatementView::Return(e.view_of()),
            Statement::Labeled(l, s) => StatementView::Labeled(l@, Box::new((*s).view_of())),
            Statement::Goto(l) => StatementView::Goto(l@),
            Statement::Expression(e) => StatementView::Expression(e.view_of()),
            Statement::If { condition, then_branch, else_branch } => StatementView::If {
                condition: condition.view_of(),
                then_branch: Box::new((*then_branch).view_of()),
                else_branch: match else_branch {
                    Some(s) => Some(Box::new((*s).view_of())),
                    None => None,
                },
            },
            Statement::Break(l) => StatementView::Break(opt_string_view(l)),
            Statement::Continue(l) => StatementView::Continue(opt_string_view(l)),
            Statement::Case(e, s, l) => StatementView::Case(
                e.view_of(),
                Box::new((*s).view_of()),
                opt_string_view(l),
            ),
            Statement::Default(s, l) => StatementView::Default(
                Box::new((*s).view_of()),
                opt_string_view(l),
            ),
            Statement::While { condition, body, label } => StatementView::While {
                condition: condition.view_of(),
                body: Box::new((*body).view_of()),
                label: opt_string_view(label),
            },
            Statement::DoWhile { body, condition, label } => StatementView::DoWhile {
                body: Box::new((*body).view_of()),
                condition: condition.view_of(),
                label: opt_string_view(label),
            },
            Statement::For { init, condition, post, body, label } => StatementView::For {
                init: match init {
                    ForInit::Declaration(d) => ForInitView::Declaration(d.view_of()),
                    ForInit::Expression(e) => ForInitView::Expression(
                        opt_typed_expression_view(e),
                    ),
                },
                condition: opt_typed_expression_view(condition),
                post: opt_typed_expression_view(post),
                body: Box::new((*body).view_of()),
                label: opt_string_view(label),
            },
            Statement::Switch { condition, body, label, cases, default_exists } =>
                StatementView::Switch {
                condition: condition.view_of(),
                body: Box::new((*body).view_of()),
                label: opt_string_view(label),
                cases: cases@,
                default_exists,
            },
            Statement::Block(b) => StatementView::Block(block_items_view(b.0@)),
            Statement::Null => StatementView::Null,
        }
    }
}

impl BlockItem {
    pub open spec fn view_of(self) -> BlockItemView
        decreases self, 0nat,
    {
        match self {
            BlockItem::Statement(s) => BlockItemView::Statement(s.view_of()),
            BlockItem::Declaration(d) => BlockItemView::Declaration(d.view_of()),
        }
    }
}

impl Declaration {
    pub open spec fn view_of(self) -> DeclarationView
        decreases self, 0nat,
    {
        match self {
            Declaration::Variable(v) => DeclarationView::Variable(v.view_of()),
            Declaration::Function(f) => DeclarationView::Function(f.view_of()),
        }
    }
}

impl FuncDeclaration {
    pub open spec fn view_of(self) -> FuncDeclarationView
        decreases self, 0nat,
    {
        FuncDeclarationView {
            identifier: self.identifier@,
            parameters: strings_view(self.parameters.0@),
            body: match self.body {
                Some(b) => Some(block_items_view(b.0@)),
                None => None,
            },
            ty: self.ty@,
            storage_class: self.storage_class,
        }
    }
}

pub open spec fn block_items_view(s: Seq<BlockItem>) -> Seq<BlockItemView>
    decreases s, s.len(),
{
    if s.len() == 0 {
        seq![]
    } else {
        seq![s[0].view_of()] + block_items_view(s.drop_first())
    }
}

pub open spec fn declarations_view(s: Seq<Declaration>) -> Seq<DeclarationView>
    decreases s, s.len(),
{
    if s.len() == 0 {
        seq![]
    } else {
        seq![s[0].view_of()] + declarations_view(s.drop_first())
    }
}

impl View for Program {
    type V = Seq<DeclarationView>;

    open spec fn view(&self) -> Seq<DeclarationView> {
        declarations_view(self.0@)
    }
}

impl View for Declaration {
    type V = DeclarationView;

    open spec fn view(&self) -> DeclarationView {
        self.view_of()
    }
}

impl View for FuncDeclaration {
    type V = FuncDeclarationView;

    open spec fn view(&self) -> FuncDeclarationView {
        self.view_of()
    }
}

impl View for VariableDeclaration {
    type V = VariableDeclarationView;

    open spec fn view(&self) -> VariableDeclarationView {
        self.view_of()
    }
}

impl View for Block {
    type V = Seq<BlockItemView>;

    open spec fn view(&self) -> Seq<BlockItemView> {
        block_items_view(self.0@)
    }
}

impl View for BlockItem {
    type V = BlockItemView;

    open spec fn view(&self) -> BlockItemView {
        self.view_of()
    }
}

impl View for Statement {
    type V = StatementView;

    open spec fn view(&self) -> StatementView {
        self.view_of()
    }
}

impl View for TypedExpression {
    type V = TypedExpressionView;

    open spec fn view(&self) -> TypedExpressionView {
        self.view_of()
    }
}

impl View for Expression {
    type V = ExpressionView;

    open spec fn view(&self) -> ExpressionView {
        self.view_of()
    }
}

impl View for Factor {
    type V = FactorView;

    open spec fn view(&self) -> FactorView {
        self.view_of()
    }
}

impl View for Postfix {
    type V = PostfixView;

    open spec fn view(&self) -> PostfixView {
        self.view_of()
    }
}

impl View for Primary {
    type V = PrimaryView;

    open spec fn view(&self) -> PrimaryView {
        self.view_of()
    }
}

impl View for ArgumentList {
    type V = Seq<TypedExpressionView>;

    open spec fn view(&self) -> Seq<TypedExpressionView> {
        typed_expressions_view(self.0@)
    }
}


pub proof fn lemma_typed_expressions_view_push(s: Seq<TypedExpression>, x: TypedExpression)
    ensures
        typed_expressions_view(s.push(x)) == typed_expressions_view(s).push(x.view_of()),
    decreases s.len(),
{
    if s.len() == 0 {
        assert(s.push(x).drop_first() =~= s);
    } else {
        assert(s.push(x).drop_first() =~= s.drop_first().push(x));
        lemma_typed_expressions_view_push(s.drop_first(), x);
    }
    assert(typed_expressions_view(s.push(x)) =~= typed_expressions_view(s).push(x.view_of()));
}

pub proof fn lemma_block_items_view_push(s: Seq<BlockItem>, x: BlockItem)
    ensures
        block_items_view(s.push(x)) == block_items_view(s).push(x.view_of()),
    decreases s.len(),
{
    if s.len() == 0 {
        assert(s.push(x).drop_first() =~= s);
    } else {
        assert(s.push(x).drop_first() =~= s.drop_first().push(x));
        lemma_block_items_view_push(s.drop_first(), x);
    }
    assert(block_items_view(s.push(x)) =~= block_items_view(s).push(x.view_of()));
}

pub proof fn lemma_declarations_view_push(s: Seq<Declaration>, x: Declaration)
    ensures
        declarations_view(s.push(x)) == declarations_view(s).push(x.view_of()),
    decreases s.len(),
{
    if s.len() == 0 {
        assert(s.push(x).drop_first() =~= s);
    } else {
        assert(s.push(x).drop_first() =~= s.drop_first().push(x));
        lemma_declarations_view_push(s.drop_first(), x);
    }
    assert(declarations_view(s.push(x)) =~= declarations_view(s).push(x.view_of()));
}

pub proof fn lemma_typed_expressions_view_index(s: Seq<TypedExpression>)
    ensures
        typed_expressions_view(s).len() == s.len(),
        forall|i: int| 0 <= i < s.len() ==> #[trigger] typed_expressions_view(s)[i] == s[i].view_of(),
    decreases s.len(),
{
    if s.len() > 0 {
        lemma_typed_expressions_view_index(s.drop_first());
        assert forall|i: int| 0 <= i < s.len() implies #[trigger] typed_expressions_view(s)[i] == s[i].view_of() by {
            if i > 0 {
                assert(s.drop_first()[i - 1] == s[i]);
            }
        }
    }
}

pub proof fn lemma_block_items_view_index(s: Seq<BlockItem>)
    ensures
        block_items_view(s).len() == s.len(),
        forall|i: int| 0 <= i < s.len() ==> #[trigger] block_items_view(s)[i] == s[i].view_of(),
    decreases s.len(),
{
    if s.len() > 0 {
        lemma_block_items_view_index(s.drop_first());
        assert forall|i: int| 0 <= i < s.len() implies #[trigger] block_items_view(s)[i] == s[i].view_of() by {
            if i > 0 {
                assert(s.drop_first()[i - 1] == s[i]);
            }
        }
    }
}

pub proof fn lemma_declarations_view_index(s: Seq<Declaration>)
    ensures
        declarations_view(s).len() == s.len(),
        forall|i: int| 0 <= i < s.len() ==> #[trigger] declarations_view(s)[i] == s[i].view_of(),
    decreases s.len(),
{
    if s.len() > 0 {
        lemma_declarations_view_index(s.drop_first());
        assert forall|i: int| 0 <= i < s.len() implies #[trigger] declarations_view(s)[i] == s[i].view_of() by {
            if i > 0 {
                assert(s.drop_first()[i - 1] == s[i]);
            }
        }
    }
}

/// The pending tokens of a stream.
pub open spec fn pending(stream: MultiPeek<std::vec::IntoIter<Token>>) -> Seq<Token> {
    pending_tokens(stream)
}

/// What a parsing step that returned `r` and left `after` owes, given what
/// the grammar says of the tokens `before` it.
pub open spec fn parsed<T: View>(
    grammar: PResult<T::V>,
    r: Result<T, ParserError>,
    before: MultiPeek<std::vec::IntoIter<Token>>,
    after: MultiPeek<std::vec::IntoIter<Token>>,
) -> bool {
    match grammar {
        Ok((v, rest)) => r matches Ok(x) && x@ == v && pending(after) == rest && peek_cursor(after)
            == 0 && rest.len() < pending(before).len(),
        Err(e) => r matches Err(err) && err@ == e,
    }
}

fn error_str(expected: &str, found: Token) -> (r: ParserError)
    ensures
        r@ == (ParserErrorView::UnexpectedToken { expected: expected@, found }),
{
    ParserError::UnexpectedToken { expected: String::from_str(expected), found }
}

/// Whether the first pending token is the symbol `sym`; the stream is left as
/// it was.
fn peek_is_symbol(tokens: &mut MultiPeek<std::vec::IntoIter<Token>>, sym: Symbol) -> (r: bool)
    requires
        peek_cursor(*old(tokens)) == 0,
    ensures
        r == front_is_symbol(pending(*old(tokens)), sym),
        pending(*final(tokens)) == pending(*old(tokens)),
        peek_cursor(*final(tokens)) == 0,
{
    let t = peek_token(tokens);
    reset_peek(tokens);
    match t {
        Some(Token(TokenType::Symbol(s), _)) => s == sym,
        _ => false,
    }
}

/// The first two pending tokens, as far as there are any; the stream is left
/// as it was.
fn peek_two(tokens: &mut MultiPeek<std::vec::IntoIter<Token>>) -> (r: (Option<Token>, Option<Token>))
    requires
        peek_cursor(*old(tokens)) == 0,
    ensures
        pending(*old(tokens)).len() > 0 ==> r.0 == Some(pending(*old(tokens))[0]),
        pending(*old(tokens)).len() == 0 ==> r.0 is None,
        pending(*old(tokens)).len() > 1 ==> r.1 == Some(pending(*old(tokens))[1]),
        pending(*old(tokens)).len() <= 1 ==> r.1 is None,
        pending(*final(tokens)) == pending(*old(tokens)),
        peek_cursor(*final(tokens)) == 0,
{
    let first = peek_token(tokens);
    let second = if first.is_some() {
        peek_token(tokens)
    } else {
        None
    };
    reset_peek(tokens);
    (first, second)
}

fn expect_symbol(tokens: &mut MultiPeek<std::vec::IntoIter<Token>>, sym: Symbol, expected: &str) -> (r: Result<(), ParserError>)
    ensures
        match spec_expect_symbol(pending(*old(tokens)), sym, expected@) {
            Ok(rest) => r is Ok && pending(*final(tokens)) == rest && peek_cursor(*final(tokens))
                == 0,
            Err(e) => r matches Err(err) && err@ == e,
        },
{
    match next_token(tokens) {
        Some(token) => {
            if let TokenType::Symbol(s) = &token.0 {
                if *s == sym {
                    return Ok(());
                }
            }
            Err(error_str(expected, token))
        },
        None => Err(ParserError::EndOfTokenStream),
    }
}

fn expect_keyword(tokens: &mut MultiPeek<std::vec::IntoIter<Token>>, k: Keyword, expected: &str) -> (r: Result<(), ParserError>)
    ensures
        match spec_expect_keyword(pending(*old(tokens)), k, expected@) {
            Ok(rest) => r is Ok && pending(*final(tokens)) == rest && peek_cursor(*final(tokens))
                == 0,
            Err(e) => r matches Err(err) && err@ == e,
        },
{
    match next_token(tokens) {
        Some(token) => {
            if let TokenType::Keyword(kwd) = &token.0 {
                if *kwd == k {
                    return Ok(());
                }
            }
            Err(error_str(expected, token))
        },
        None => Err(ParserError::EndOfTokenStream),
    }
}

fn expect_identifier(tokens: &mut MultiPeek<std::vec::IntoIter<Token>>, expected: &str) -> (r: Result<String, ParserError>)
    ensures
        match spec_expect_identifier(pending(*old(tokens)), expected@) {
            Ok((id, rest)) => r matches Ok(x) && x@ == id && pending(*final(tokens)) == rest
                && peek_cursor(*final(tokens)) == 0,
            Err(e) => r matches Err(err) && err@ == e,
        },
{
    match next_token(tokens) {
        Some(token) => match token.0 {
            TokenType::Identifier(id) => Ok(id),
            _ => Err(error_str(expected, token)),
        },
        None => Err(ParserError::EndOfTokenStream),
    }
}

fn expect_end_of_file(tokens: &mut MultiPeek<std::vec::IntoIter<Token>>) -> (r: Result<(), ParserError>)
    ensures
        match spec_expect_end_of_file(pending(*old(tokens))) {
            Ok(rest) => r is Ok && pending(*final(tokens)) == rest,
            Err(e) => r matches Err(err) && err@ == e,
        },
{
    match next_token(tokens) {
        Some(token) => match token.0 {
            TokenType::EndOfFile => Ok(()),
            _ => Err(error_str("end of file", token)),
        },
        None => Err(ParserError::EndOfTokenStream),
    }
}

/// The constant an integer literal denotes: an `int` when it fits one, else a
/// `long`.
pub fn constant_of(v: u32) -> (r: Constant)
    ensures
        r == spec_constant_of(v),
{
    if v <= 2147483647 {
        Constant::Int(v as i32)
    } else {
        Constant::Long(v as i64)
    }
}

trait IsStorageClassSpecifier {
    fn is_storage_class_specifier(&self) -> bool;
}

impl IsStorageClassSpecifier for Keyword {
    fn is_storage_class_specifier(&self) -> (r: bool)
        ensures
            r == (*self == Keyword::Static || *self == Keyword::Extern),
    {
        match self {
            Keyword::Static | Keyword::Extern => true,
            _ => false,
        }
    }
}

trait IsSpecifier {
    fn is_specifier(&self) -> bool;
}

impl IsSpecifier for Keyword {
    fn is_specifier(&self) -> (r: bool)
        ensures
            r == (spec_is_type_keyword(*self) || *self == Keyword::Static || *self
                == Keyword::Extern),
    {
        self.is_type() || self.is_storage_class_specifier()
    }
}

/// Reads declaration specifiers: a type, and at most one storage class.
pub fn parse_types_and_storage_class(tokens: Vec<Token>) -> (r: Result<
    (Type, Option<StorageClass>),
    ParserError,
>)
    ensures
        match spec_types_and_storage_class(tokens@) {
            Ok((ty, sc)) => r matches Ok((t, c)) && t@ == ty && c == sc,
            Err(e) => r matches Err(err) && err@ == e,
        },
{
    let mut types: Vec<Token> = Vec::new();
    let mut storage_classes: Vec<Keyword> = Vec::new();
    let mut i: usize = 0;
    while i < tokens.len()
        invariant
            i <= tokens.len(),
            spec_split_specifiers(tokens@.take(i as int)) == Ok::<
                (Seq<Token>, Seq<Keyword>),
                Token,
            >((types@, storage_classes@)),
        decreases tokens.len() - i,
    {
        assert(tokens@.take(i + 1).drop_last() =~= tokens@.take(i as int));
        let token = tokens[i].deep_clone();
        let accepted = match &token.0 {
            TokenType::Keyword(kwd) => {
                if kwd.is_type() {
                    types.push(token.deep_clone());
                    true
                } else if kwd.is_storage_class_specifier() {
                    storage_classes.push(*kwd);
                    true
                } else {
                    false
                }
            },
            _ => false,
        };
        if !accepted {
            proof {
                let mut k = i + 1;
                assert(spec_split_specifiers(tokens@.take(k as int)) == Err::<
                    (Seq<Token>, Seq<Keyword>),
                    Token,
                >(token));
                lemma_split_specifiers_error_extends(tokens@, (i + 1) as int);
            }
            return Err(ParserError::InvalidTypeOrStorageClass(token));
        }
        i = i + 1;
    }
    assert(tokens@.take(tokens.len() as int) =~= tokens@);
    let ty = match Type::from_tokens(types.as_slice()) {
        Ok(ty) => ty,
        Err(e) => {
            return Err(ParserError::TypeError(e));
        },
    };
    if storage_classes.len() > 1 {
        return Err(ParserError::InvalidStorageClass);
    }
    let storage_class = if storage_classes.len() == 0 {
        None
    } else if storage_classes[0] == Keyword::Static {
        Some(StorageClass::Static)
    } else {
        Some(StorageClass::Extern)
    };
    Ok((ty, storage_class))
}

pub proof fn lemma_split_specifiers_error_extends(toks: Seq<Token>, k: int)
    requires
        0 <= k <= toks.len(),
        spec_split_specifiers(toks.take(k)) is Err,
    ensures
        spec_split_specifiers(toks) == spec_split_specifiers(toks.take(k)),
    decreases toks.len() - k,
{
    if k < toks.len() {
        assert(toks.take(k + 1).drop_last() =~= toks.take(k));
        lemma_split_specifiers_error_extends(toks, k + 1);
    } else {
        assert(toks.take(k) =~= toks);
    }
}

pub open spec fn params_view(v: Seq<(Type, String)>) -> Seq<(TypeView, Seq<char>)> {
    v.map_values(|p: (Type, String)| (p.0@, p.1@))
}

/// Reads a parameter list after its `(`: `void` for none, or typed names
/// separated by commas.
pub fn parse_params(tokens: &mut MultiPeek<std::vec::IntoIter<Token>>) -> (r: Result<
    Vec<(Type, String)>,
    ParserError,
>)
    requires
        peek_cursor(*old(tokens)) == 0,
    ensures
        match spec_params(pending(*old(tokens))) {
            Ok((v, rest)) => r matches Ok(x) && params_view(x@) == v && pending(*final(tokens))
                == rest && rest.len() < pending(*old(tokens)).len(),
            Err(e) => r matches Err(err) && err@ == e,
        },
{
    let (first, _) = peek_two(tokens);
    match first {
        Some(Token(TokenType::Keyword(Keyword::Void), _)) => {
            next_token(tokens);
            return Ok(Vec::new());
        },
        Some(Token(TokenType::Keyword(kwd), _)) => {
            if !kwd.is_type() {
                let found = next_token(tokens);
                return Err(error_str("type specifier", found.unwrap()));
            }
        },
        None => {
            return Err(ParserError::EndOfTokenStream);
        },
        _ => {
            let found = next_token(tokens);
            return Err(error_str("type specifier", found.unwrap()));
        },
    }
    let ghost s0 = pending(*tokens);
    let mut params: Vec<(Type, String)> = Vec::new();
    assert(params_view(params@) =~= seq![]);
    loop
        invariant
            s0 == pending(*old(tokens)),
            peek_cursor(*tokens) == 0,
            spec_params(s0) == spec_params_loop(pending(*tokens), params_view(params@)),
            s0.len() > 0 && spec_is_type_token(s0[0]),
            params@.len() == 0 ==> pending(*tokens) == s0,
            params@.len() > 0 ==> pending(*tokens).len() < s0.len(),
        decreases pending(*tokens).len(),
    {
        let ghost s = pending(*tokens);
        proof {
            lemma_leading_type_tokens_bound(s);
        }
        let types = take_leading(tokens, false);
        reset_peek(tokens);
        let ty = match Type::from_tokens(types.as_slice()) {
            Ok(ty) => ty,
            Err(e) => {
                return Err(ParserError::TypeError(e));
            },
        };
        let identifier = expect_identifier(tokens, "parameter name")?;
        let ghost before = params@;
        params.push((ty, identifier));
        assert(params_view(params@) =~= params_view(before).push((ty@, identifier@)));
        if !peek_is_symbol(tokens, Symbol::Comma) {
            return Ok(params);
        }
        next_token(tokens);
    }
}


pub open spec fn spec_typed_expr(s: Seq<Token>) -> PResult<TypedExpressionView> {
    match spec_expr(s, 0) {
        Ok((e, rest)) => Ok((typed(e), rest)),
        Err(e) => Err(e),
    }
}

/// The first pending token, if any; the stream is left as it was.
fn peek_first(tokens: &mut MultiPeek<std::vec::IntoIter<Token>>) -> (r: Option<Token>)
    requires
        peek_cursor(*old(tokens)) == 0,
    ensures
        pending(*old(tokens)).len() > 0 ==> r == Some(pending(*old(tokens))[0]),
        pending(*old(tokens)).len() == 0 ==> r is None,
        pending(*final(tokens)) == pending(*old(tokens)),
        peek_cursor(*final(tokens)) == 0,
{
    let t = peek_token(tokens);
    reset_peek(tokens);
    t
}

fn peek_is_keyword(tokens: &mut MultiPeek<std::vec::IntoIter<Token>>, k: Keyword) -> (r: bool)
    requires
        peek_cursor(*old(tokens)) == 0,
    ensures
        r == front_is_keyword(pending(*old(tokens)), k),
        pending(*final(tokens)) == pending(*old(tokens)),
        peek_cursor(*final(tokens)) == 0,
{
    match peek_first(tokens) {
        Some(t) => t.is_keyword(k),
        None => false,
    }
}

fn unary_operator_of(t: &Token) -> (r: Option<UnaryOperator>)
    ensures
        r == spec_unary_operator_of(*t),
{
    match &t.0 {
        TokenType::Symbol(Symbol::Tilde) => Some(UnaryOperator::Complement),
        TokenType::Symbol(Symbol::Hyphen) => Some(UnaryOperator::Negate),
        TokenType::Symbol(Symbol::Exclamation) => Some(UnaryOperator::LogicalNot),
        TokenType::Symbol(Symbol::DoublePlus) => Some(UnaryOperator::PrefixIncrement),
        TokenType::Symbol(Symbol::DoubleHyphen) => Some(UnaryOperator::PrefixDecrement),
        _ => None,
    }
}

impl TypedExpression {
    pub fn from(expression: Expression) -> (r: TypedExpression)
        ensures
            r@ == typed(expression@),
    {
        TypedExpression { expression, ty: None }
    }

    /// A copy of this expression.
    pub fn deep_clone(&self) -> (r: TypedExpression)
        ensures
            r@ == self@,
        decreases self, 0nat,
    {
        TypedExpression {
            expression: self.expression.deep_clone(),
            ty: match &self.ty {
                Some(t) => Some(t.deep_clone()),
                None => None,
            },
        }
    }

    pub fn to_ast(tokens: &mut MultiPeek<std::vec::IntoIter<Token>>) -> (r: Result<
        TypedExpression,
        ParserError,
    >)
        requires
            peek_cursor(*old(tokens)) == 0,
        ensures
            parsed::<TypedExpression>(
                spec_typed_expr(pending(*old(tokens))),
                r,
                *old(tokens),
                *final(tokens),
            ),
        decreases pending(*old(tokens)).len(), 4nat,
    {
        match Expression::parse_min_prec(tokens, 0) {
            Ok(e) => Ok(TypedExpression::from(e)),
            Err(e) => Err(e),
        }
    }
}

impl Expression {
    /// A copy of this expression.
    pub fn deep_clone(&self) -> (r: Expression)
        ensures
            r@ == self@,
        decreases self, 0nat,
    {
        match self {
            Expression::Factor(f) => Expression::Factor(f.deep_clone()),
            Expression::BinaryOp { op, left, right } => Expression::BinaryOp {
                op: *op,
                left: Box::new((**left).deep_clone()),
                right: Box::new((**right).deep_clone()),
            },
            Expression::Assignment { left, right } => Expression::Assignment {
                left: Box::new((**left).deep_clone()),
                right: Box::new((**right).deep_clone()),
            },
            Expression::Conditional { condition, then_branch, else_branch } =>
                Expression::Conditional {
                condition: Box::new((**condition).deep_clone()),
                then_branch: Box::new((**then_branch).deep_clone()),
                else_branch: Box::new((**else_branch).deep_clone()),
            },
        }
    }

    pub fn to_ast(tokens: &mut MultiPeek<std::vec::IntoIter<Token>>) -> (r: Result<
        Expression,
        ParserError,
    >)
        requires
            peek_cursor(*old(tokens)) == 0,
        ensures
            parsed::<Expression>(spec_expr(pending(*old(tokens)), 0), r, *old(tokens), *final(tokens)),
    {
        Self::parse_min_prec(tokens, 0)
    }

    /// Precedence climbing: an expression whose infix operators all bind at
    /// least as strongly as `min_prec`.
    pub fn parse_min_prec(tokens: &mut MultiPeek<std::vec::IntoIter<Token>>, min_prec: i32) -> (r: Result<
        Expression,
        ParserError,
    >)
        requires
            peek_cursor(*old(tokens)) == 0,
        ensures
            parsed::<Expression>(
                spec_expr(pending(*old(tokens)), min_prec),
                r,
                *old(tokens),
                *final(tokens),
            ),
        decreases pending(*old(tokens)).len(), 3nat,
    {
        let ghost s0 = pending(*tokens);
        let f = Factor::to_ast(tokens)?;
        let mut left = Expression::Factor(f);
        loop
            invariant
                s0 == pending(*old(tokens)),
                peek_cursor(*tokens) == 0,
                pending(*tokens).len() < s0.len(),
                spec_expr(s0, min_prec) == spec_climb(pending(*tokens), left@, min_prec),
            decreases pending(*tokens).len(),
        {
            let ghost s = pending(*tokens);
            let op = match peek_first(tokens) {
                Some(Token(TokenType::Symbol(sym), _)) => sym,
                _ => {
                    return Ok(left);
                },
            };
            let prec = match Self::get_precedence(op) {
                Some(p) => {
                    if p >= min_prec {
                        p
                    } else {
                        return Ok(left);
                    }
                },
                None => {
                    return Ok(left);
                },
            };
            next_token(tokens);
            if Self::associativity(op) == Associativity::RightToLeft {
                if op == Symbol::Question {
                    let middle = Self::parse_min_prec(tokens, 0)?;
                    expect_symbol(tokens, Symbol::Colon, "':'")?;
                    let right = Self::parse_min_prec(tokens, prec)?;
                    left = Expression::Conditional {
                        condition: Box::new(TypedExpression::from(left)),
                        then_branch: Box::new(TypedExpression::from(middle)),
                        else_branch: Box::new(TypedExpression::from(right)),
                    };
                } else {
                    let right = Self::parse_min_prec(tokens, prec)?;
                    let left_copy = left.deep_clone();
                    left = Expression::Assignment {
                        left: Box::new(TypedExpression::from(left_copy)),
                        right: Box::new(TypedExpression::from(Self::op_to_assignment(op, left, right))),
                    };
                }
            } else {
                let right = Self::parse_min_prec(tokens, prec + 1)?;
                left = Expression::BinaryOp {
                    op: Self::binary_operator_of(op),
                    left: Box::new(TypedExpression::from(left)),
                    right: Box::new(TypedExpression::from(right)),
                };
            }
        }
    }

    fn binary_operator_of(op: Symbol) -> (r: BinaryOperator)
        ensures
            r == spec_binary_operator_of(op),
    {
        match op {
            Symbol::Plus => BinaryOperator::Add,
            Symbol::Hyphen => BinaryOperator::Subtract,
            Symbol::Asterisk => BinaryOperator::Multiply,
            Symbol::Slash => BinaryOperator::Divide,
            Symbol::Percent => BinaryOperator::Remainder,
            Symbol::Ampersand => BinaryOperator::BitwiseAnd,
            Symbol::Bar => BinaryOperator::BitwiseOr,
            Symbol::Hat => BinaryOperator::BitwiseXor,
            Symbol::DoubleLt => BinaryOperator::LeftShift,
            Symbol::DoubleGt => BinaryOperator::RightShift,
            Symbol::DoubleAmp => BinaryOperator::LogicalAnd,
            Symbol::DoubleBar => BinaryOperator::LogicalOr,
            Symbol::DoubleEqual => BinaryOperator::Equal,
            Symbol::NotEqual => BinaryOperator::NotEqual,
            Symbol::LessThan => BinaryOperator::LessThan,
            Symbol::GreaterThan => BinaryOperator::GreaterThan,
            Symbol::LessEqual => BinaryOperator::LessEqual,
            _ => BinaryOperator::GreaterEqual,
        }
    }

    pub fn get_precedence(op: Symbol) -> (r: Option<i32>)
        ensures
            r == spec_precedence(op),
    {
        match op {
            Symbol::Asterisk | Symbol::Slash | Symbol::Percent => Some(50),
            Symbol::Plus | Symbol::Hyphen => Some(45),
            Symbol::DoubleLt | Symbol::DoubleGt => Some(40),
            Symbol::LessThan | Symbol::GreaterThan | Symbol::LessEqual | Symbol::GreaterEqual =>
                Some(35),
            Symbol::DoubleEqual | Symbol::NotEqual => Some(30),
            Symbol::Ampersand => Some(25),
            Symbol::Hat => Some(20),
            Symbol::Bar => Some(15),
            Symbol::DoubleAmp => Some(10),
            Symbol::DoubleBar => Some(5),
            Symbol::Question => Some(3),
            Symbol::Equal | Symbol::PlusEqual | Symbol::MinusEqual | Symbol::AsteriskEqual
            | Symbol::SlashEqual | Symbol::PercentEqual | Symbol::AmpersandEqual
            | Symbol::BarEqual | Symbol::HatEqual | Symbol::DoubleLtEqual
            | Symbol::DoubleGtEqual => Some(1),
            _ => None,
        }
    }

    pub fn associativity(op: Symbol) -> (r: Associativity)
        ensures
            r == spec_associativity(op),
    {
        match op {
            Symbol::Equal | Symbol::PlusEqual | Symbol::MinusEqual | Symbol::AsteriskEqual
            | Symbol::SlashEqual | Symbol::PercentEqual | Symbol::AmpersandEqual
            | Symbol::BarEqual | Symbol::HatEqual | Symbol::DoubleLtEqual | Symbol::DoubleGtEqual
            | Symbol::Question => Associativity::RightToLeft,
            _ => Associativity::LeftToRight,
        }
    }

    /// The value that an assignment operator stores: the right operand for
    /// `=`, else the operation of the compound assignment on both operands.
    /// The value an assignment with symbol `op` stores: the right operand for
    /// `=`, else the operation that the compound symbol names applied to both.
    pub fn op_to_assignment(op: Symbol, left: Expression, right: Expression) -> (r: Expression)
        requires
            is_assignment_symbol(op),
        ensures
            r@ == spec_op_to_assignment(op, left@, right@),
    {
        let bin = |o: BinaryOperator, l: Expression, r: Expression| -> (e: Expression)
            ensures
                e@ == (ExpressionView::BinaryOp {
                    op: o,
                    left: Box::new(typed(l@)),
                    right: Box::new(typed(r@)),
                }),
            {
                Expression::BinaryOp {
                    op: o,
                    left: Box::new(TypedExpression::from(l)),
                    right: Box::new(TypedExpression::from(r)),
                }
            };
        match op {
            Symbol::PlusEqual => bin(BinaryOperator::Add, left, right),
            Symbol::MinusEqual => bin(BinaryOperator::Subtract, left, right),
            Symbol::AsteriskEqual => bin(BinaryOperator::Multiply, left, right),
            Symbol::SlashEqual => bin(BinaryOperator::Divide, left, right),
            Symbol::PercentEqual => bin(BinaryOperator::Remainder, left, right),
            Symbol::DoubleLtEqual => bin(BinaryOperator::LeftShift, left, right),
            Symbol::DoubleGtEqual => bin(BinaryOperator::RightShift, left, right),
            Symbol::AmpersandEqual => bin(BinaryOperator::BitwiseAnd, left, right),
            Symbol::BarEqual => bin(BinaryOperator::BitwiseOr, left, right),
            Symbol::HatEqual => bin(BinaryOperator::BitwiseXor, left, right),
            _ => right,
        }
    }
}

impl Factor {
    /// A copy of this factor.
    pub fn deep_clone(&self) -> (r: Factor)
        ensures
            r@ == self@,
        decreases self, 0nat,
    {
        match self {
            Factor::UnaryOp { op, fac } => Factor::UnaryOp {
                op: *op,
                fac: Box::new((**fac).deep_clone()),
            },
            Factor::Postfix(p) => Factor::Postfix(p.deep_clone()),
            Factor::Cast { ty, fac } => Factor::Cast {
                ty: ty.deep_clone(),
                fac: Box::new((**fac).deep_clone()),
            },
        }
    }

    pub fn to_ast(tokens: &mut MultiPeek<std::vec::IntoIter<Token>>) -> (r: Result<
        Factor,
        ParserError,
    >)
        requires
            peek_cursor(*old(tokens)) == 0,
        ensures
            parsed::<Factor>(spec_factor(pending(*old(tokens))), r, *old(tokens), *final(tokens)),
        decreases pending(*old(tokens)).len(), 2nat,
    {
        let (first, second) = peek_two(tokens);
        let unary = match &first {
            Some(t) => unary_operator_of(t),
            None => None,
        };
        if let Some(op) = unary {
            next_token(tokens);
            let inner = Factor::to_ast(tokens)?;
            return Ok(Factor::UnaryOp { op, fac: Box::new(inner) });
        }
        let is_cast = match (&first, &second) {
            (Some(Token(TokenType::Symbol(Symbol::OpenParen), _)), Some(t)) => is_type_token(t),
            _ => false,
        };
        if is_cast {
            next_token(tokens);
            let ghost s1 = pending(*tokens);
            proof {
                lemma_leading_type_tokens_bound(s1);
            }
            let ty_tokens = take_leading(tokens, false);
            reset_peek(tokens);
            let ty = match Type::from_tokens(ty_tokens.as_slice()) {
                Ok(ty) => ty,
                Err(e) => {
                    return Err(ParserError::TypeError(e));
                },
            };
            expect_symbol(tokens, Symbol::CloseParen, "')'")?;
            let inner = Factor::to_ast(tokens)?;
            Ok(Factor::Cast { ty, fac: Box::new(inner) })
        } else {
            match Postfix::to_ast(tokens) {
                Ok(p) => Ok(Factor::Postfix(p)),
                Err(e) => Err(e),
            }
        }
    }
}

impl Postfix {
    /// A copy of this postfix expression.
    pub fn deep_clone(&self) -> (r: Postfix)
        ensures
            r@ == self@,
        decreases self, 0nat,
    {
        let mut ops: Vec<PostfixOp> = Vec::new();
        let mut i: usize = 0;
        while i < self.postfix.len()
            invariant
                i <= self.postfix.len(),
                ops@ == self.postfix@.take(i as int),
            decreases self.postfix.len() - i,
        {
            ops.push(self.postfix[i]);
            assert(ops@ =~= self.postfix@.take(i + 1));
            i = i + 1;
        }
        assert(ops@ =~= self.postfix@);
        Postfix { primary: self.primary.deep_clone(), postfix: ops }
    }

    pub fn to_ast(tokens: &mut MultiPeek<std::vec::IntoIter<Token>>) -> (r: Result<
        Postfix,
        ParserError,
    >)
        requires
            peek_cursor(*old(tokens)) == 0,
        ensures
            parsed::<Postfix>(spec_postfix(pending(*old(tokens))), r, *old(tokens), *final(tokens)),
        decreases pending(*old(tokens)).len(), 1nat,
    {
        let primary = Primary::to_ast(tokens)?;
        let ghost s1 = pending(*tokens);
        let mut postfix: Vec<PostfixOp> = Vec::new();
        loop
            invariant
                spec_primary(pending(*old(tokens))) == Ok::<(PrimaryView, Seq<Token>), ParserErrorView>((primary@, s1)),
                s1.len() < pending(*old(tokens)).len(),
                peek_cursor(*tokens) == 0,
                pending(*tokens).len() <= s1.len(),
                spec_postfix_ops(s1) == (postfix@ + spec_postfix_ops(pending(*tokens)).0, spec_postfix_ops(pending(*tokens)).1),
            decreases pending(*tokens).len(),
        {
            let ghost s = pending(*tokens);
            let op = match peek_first(tokens) {
                Some(Token(TokenType::Symbol(Symbol::DoublePlus), _)) => PostfixOp::PostfixIncrement,
                Some(Token(TokenType::Symbol(Symbol::DoubleHyphen), _)) => PostfixOp::PostfixDecrement,
                _ => {
                    assert(postfix@ + seq![] =~= postfix@);
                    return Ok(Postfix { primary, postfix });
                },
            };
            next_token(tokens);
            let ghost before = postfix@;
            postfix.push(op);
            assert(before + (seq![op] + spec_postfix_ops(pending(*tokens)).0) =~= postfix@ + spec_postfix_ops(pending(*tokens)).0);
        }
    }
}

impl Primary {
    /// A copy of this primary expression.
    pub fn deep_clone(&self) -> (r: Primary)
        ensures
            r@ == self@,
        decreases self, 0nat,
    {
        match self {
            Primary::Constant(c) => Primary::Constant(*c),
            Primary::Var(s) => Primary::Var(s.clone()),
            Primary::Paren(e) => Primary::Paren(Box::new((**e).deep_clone())),
            Primary::FunctionCall(name, args) => Primary::FunctionCall(name.clone(), args.deep_clone()),
        }
    }

    pub fn to_ast(tokens: &mut MultiPeek<std::vec::IntoIter<Token>>) -> (r: Result<
        Primary,
        ParserError,
    >)
        requires
            peek_cursor(*old(tokens)) == 0,
        ensures
            parsed::<Primary>(spec_primary(pending(*old(tokens))), r, *old(tokens), *final(tokens)),
        decreases pending(*old(tokens)).len(), 0nat,
    {
        let token = match next_token(tokens) {
            Some(t) => t,
            None => {
                return Err(ParserError::EndOfTokenStream);
            },
        };
        match token.0 {
            TokenType::Constant(v) => Ok(Primary::Constant(constant_of(v))),
            TokenType::Identifier(identifier) => {
                if peek_is_symbol(tokens, Symbol::OpenParen) {
                    next_token(tokens);
                    let args = if !peek_is_symbol(tokens, Symbol::CloseParen) {
                        ArgumentList::to_ast(tokens)?
                    } else {
                        ArgumentList(Vec::new())
                    };
                    expect_symbol(tokens, Symbol::CloseParen, "')'")?;
                    Ok(Primary::FunctionCall(identifier, args))
                } else {
                    Ok(Primary::Var(identifier))
                }
            },
            TokenType::Symbol(Symbol::OpenParen) => {
                let expr = TypedExpression::to_ast(tokens)?;
                expect_symbol(tokens, Symbol::CloseParen, "')'")?;
                Ok(Primary::Paren(Box::new(expr)))
            },
            _ => Err(error_str("constant, identifier, or '('", token)),
        }
    }
}

impl ArgumentList {
    /// A copy of this argument list.
    pub fn deep_clone(&self) -> (r: ArgumentList)
        ensures
            r@ == self@,
        decreases self, 0nat,
    {
        let mut args: Vec<TypedExpression> = Vec::new();
        let mut i: usize = 0;
        while i < self.0.len()
            invariant
                i <= self.0.len(),
                typed_expressions_view(args@) == typed_expressions_view(self.0@.take(i as int)),
            decreases self.0.len() - i,
        {
            proof {
                assert(decreases_to!(*self => self.0));
                assert(decreases_to!(self.0 => self.0@));
                assert(decreases_to!(self.0@ => self.0@[i as int]));
            }
            let a = self.0[i].deep_clone();
            proof {
                lemma_typed_expressions_view_push(args@, a);
                lemma_typed_expressions_view_push(self.0@.take(i as int), self.0@[i as int]);
                assert(self.0@.take(i + 1) =~= self.0@.take(i as int).push(self.0@[i as int]));
            }
            args.push(a);
            i = i + 1;
        }
        assert(self.0@.take(self.0.len() as int) =~= self.0@);
        ArgumentList(args)
    }

    pub fn to_ast(tokens: &mut MultiPeek<std::vec::IntoIter<Token>>) -> (r: Result<
        ArgumentList,
        ParserError,
    >)
        requires
            peek_cursor(*old(tokens)) == 0,
        ensures
            parsed::<ArgumentList>(
                spec_arguments(pending(*old(tokens)), seq![]),
                r,
                *old(tokens),
                *final(tokens),
            ),
        decreases pending(*old(tokens)).len(), 5nat,
    {
        let ghost s0 = pending(*tokens);
        let mut args: Vec<TypedExpression> = Vec::new();
        loop
            invariant
                s0 == pending(*old(tokens)),
                peek_cursor(*tokens) == 0,
                args@.len() == 0 ==> pending(*tokens) == s0,
                args@.len() > 0 ==> pending(*tokens).len() < s0.len(),
                spec_arguments(s0, seq![]) == spec_arguments(pending(*tokens), typed_expressions_view(args@)),
            decreases pending(*tokens).len(),
        {
            let ghost s = pending(*tokens);
            let arg = TypedExpression::to_ast(tokens)?;
            proof {
                lemma_typed_expressions_view_push(args@, arg);
            }
            args.push(arg);
            if peek_is_symbol(tokens, Symbol::Comma) {
                next_token(tokens);
            } else {
                return Ok(ArgumentList(args));
            }
        }
    }
}


/// `(`, an expression, `)`: the condition of `if`, `while`, `do` and
/// `switch`.
fn paren_condition(tokens: &mut MultiPeek<std::vec::IntoIter<Token>>) -> (r: Result<
    Expression,
    ParserError,
>)
    requires
        peek_cursor(*old(tokens)) == 0,
    ensures
        parsed::<Expression>(spec_paren_condition(pending(*old(tokens))), r, *old(tokens), *final(tokens)),
    decreases pending(*old(tokens)).len(), 4nat,
{
    expect_symbol(tokens, Symbol::OpenParen, "'('")?;
    let condition = Expression::parse_min_prec(tokens, 0)?;
    expect_symbol(tokens, Symbol::CloseParen, "')'")?;
    Ok(condition)
}

/// An expression followed by `;`.
fn expr_semicolon(tokens: &mut MultiPeek<std::vec::IntoIter<Token>>) -> (r: Result<
    Expression,
    ParserError,
>)
    requires
        peek_cursor(*old(tokens)) == 0,
    ensures
        parsed::<Expression>(spec_expr_semicolon(pending(*old(tokens))), r, *old(tokens), *final(tokens)),
    decreases pending(*old(tokens)).len(), 4nat,
{
    let e = Expression::parse_min_prec(tokens, 0)?;
    expect_symbol(tokens, Symbol::Semicolon, "';'")?;
    Ok(e)
}

/// An expression, unless the next token is `end`.
fn optional_expr(tokens: &mut MultiPeek<std::vec::IntoIter<Token>>, end: Symbol) -> (r: Result<
    Option<TypedExpression>,
    ParserError,
>)
    requires
        peek_cursor(*old(tokens)) == 0,
    ensures
        match spec_optional_expr(pending(*old(tokens)), end) {
            Ok((v, rest)) => r matches Ok(x) && opt_typed_expression_view(x) == v && pending(
                *final(tokens),
            ) == rest && peek_cursor(*final(tokens)) == 0 && rest.len() <= pending(
                *old(tokens),
            ).len(),
            Err(e) => r matches Err(err) && err@ == e,
        },
    decreases pending(*old(tokens)).len(), 4nat,
{
    if !peek_is_symbol(tokens, end) {
        let e = TypedExpression::to_ast(tokens)?;
        Ok(Some(e))
    } else {
        Ok(None)
    }
}

impl ForInit {
    pub fn to_ast(tokens: &mut MultiPeek<std::vec::IntoIter<Token>>) -> (r: Result<
        ForInit,
        ParserError,
    >)
        requires
            peek_cursor(*old(tokens)) == 0,
        ensures
            match spec_for_init(pending(*old(tokens))) {
                Ok((v, rest)) => r matches Ok(x) && x.view_of() == v && pending(*final(tokens))
                    == rest && peek_cursor(*final(tokens)) == 0 && rest.len() < pending(
                    *old(tokens),
                ).len(),
                Err(e) => r matches Err(err) && err@ == e,
            },
        decreases pending(*old(tokens)).len(), 7nat,
    {
        let first = peek_first(tokens);
        let is_declaration = match &first {
            Some(t) => is_specifier_token(t),
            None => false,
        };
        if is_declaration {
            match Declaration::to_ast(tokens)? {
                Declaration::Variable(v) => Ok(ForInit::Declaration(v)),
                Declaration::Function(_) => Err(ParserError::FunctionDeclarationInForInit),
            }
        } else if peek_is_symbol(tokens, Symbol::Semicolon) {
            next_token(tokens);
            Ok(ForInit::Expression(None))
        } else {
            let e = expr_semicolon(tokens)?;
            Ok(ForInit::Expression(Some(TypedExpression::from(e))))
        }
    }

    pub open spec fn view_of(self) -> ForInitView {
        match self {
            ForInit::Declaration(d) => ForInitView::Declaration(d.view_of()),
            ForInit::Expression(e) => ForInitView::Expression(opt_typed_expression_view(e)),
        }
    }
}

impl Statement {
    pub fn to_ast(tokens: &mut MultiPeek<std::vec::IntoIter<Token>>) -> (r: Result<
        Statement,
        ParserError,
    >)
        requires
            peek_cursor(*old(tokens)) == 0,
        ensures
            parsed::<Statement>(spec_statement(pending(*old(tokens))), r, *old(tokens), *final(tokens)),
        decreases pending(*old(tokens)).len(), 6nat,
    {
        let (first, second) = peek_two(tokens);
        let token = match first {
            Some(t) => t,
            None => {
                return Err(ParserError::EndOfTokenStream);
            },
        };
        let labeled = match (&token.0, &second) {
            (TokenType::Identifier(_), Some(Token(TokenType::Symbol(Symbol::Colon), _))) => true,
            _ => false,
        };
        if labeled {
            next_token(tokens);
            next_token(tokens);
            let stmt = Statement::to_ast(tokens)?;
            let label = match token.0 {
                TokenType::Identifier(id) => id,
                _ => String::new(),
            };
            return Ok(Statement::Labeled(label, Box::new(stmt)));
        }
        match token.0 {
            TokenType::Keyword(Keyword::Return) => {
                next_token(tokens);
                let e = expr_semicolon(tokens)?;
                Ok(Statement::Return(TypedExpression::from(e)))
            },
            TokenType::Keyword(Keyword::Break) => {
                next_token(tokens);
                expect_symbol(tokens, Symbol::Semicolon, "';'")?;
                Ok(Statement::Break(None))
            },
            TokenType::Keyword(Keyword::Continue) => {
                next_token(tokens);
                expect_symbol(tokens, Symbol::Semicolon, "';'")?;
                Ok(Statement::Continue(None))
            },
            TokenType::Keyword(Keyword::Case) => {
                next_token(tokens);
                let value = Expression::parse_min_prec(tokens, 0)?;
                expect_symbol(tokens, Symbol::Colon, "':'")?;
                let stmt = Statement::to_ast(tokens)?;
                Ok(Statement::Case(TypedExpression::from(value), Box::new(stmt), None))
            },
            TokenType::Keyword(Keyword::Default) => {
                next_token(tokens);
                expect_symbol(tokens, Symbol::Colon, "':'")?;
                let stmt = Statement::to_ast(tokens)?;
                Ok(Statement::Default(Box::new(stmt), None))
            },
            TokenType::Keyword(Keyword::Goto) => {
                next_token(tokens);
                let label = expect_identifier(tokens, "label name")?;
                expect_symbol(tokens, Symbol::Semicolon, "';'")?;
                Ok(Statement::Goto(label))
            },
            TokenType::Keyword(Keyword::If) => {
                next_token(tokens);
                let condition = paren_condition(tokens)?;
                let then_branch = Statement::to_ast(tokens)?;
                if peek_is_keyword(tokens, Keyword::Else) {
                    next_token(tokens);
                    let else_branch = Statement::to_ast(tokens)?;
                    Ok(
                        Statement::If {
                            condition: TypedExpression::from(condition),
                            then_branch: Box::new(then_branch),
                            else_branch: Some(Box::new(else_branch)),
                        },
                    )
                } else {
                    Ok(
                        Statement::If {
                            condition: TypedExpression::from(condition),
                            then_branch: Box::new(then_branch),
                            else_branch: None,
                        },
                    )
                }
            },
            TokenType::Keyword(Keyword::While) => {
                next_token(tokens);
                let condition = paren_condition(tokens)?;
                let body = Statement::to_ast(tokens)?;
                Ok(
                    Statement::While {
                        condition: TypedExpression::from(condition),
                        body: Box::new(body),
                        label: None,
                    },
                )
            },
            TokenType::Keyword(Keyword::Do) => {
                next_token(tokens);
                let body = Statement::to_ast(tokens)?;
                expect_keyword(tokens, Keyword::While, "while")?;
                let condition = paren_condition(tokens)?;
                expect_symbol(tokens, Symbol::Semicolon, "';'")?;
                Ok(
                    Statement::DoWhile {
                        body: Box::new(body),
                        condition: TypedExpression::from(condition),
                        label: None,
                    },
                )
            },
            TokenType::Keyword(Keyword::For) => {
                next_token(tokens);
                expect_symbol(tokens, Symbol::OpenParen, "'('")?;
                let init = ForInit::to_ast(tokens)?;
                let condition = optional_expr(tokens, Symbol::Semicolon)?;
                expect_symbol(tokens, Symbol::Semicolon, "';'")?;
                let post = optional_expr(tokens, Symbol::CloseParen)?;
                expect_symbol(tokens, Symbol::CloseParen, "')'")?;
                let body = Statement::to_ast(tokens)?;
                Ok(Statement::For { init, condition, post, body: Box::new(body), label: None })
            },
            TokenType::Keyword(Keyword::Switch) => {
                next_token(tokens);
                let condition = paren_condition(tokens)?;
                let body = Statement::to_ast(tokens)?;
                Ok(
                    Statement::Switch {
                        condition: TypedExpression::from(condition),
                        body: Box::new(body),
                        label: None,
                        cases: Vec::new(),
                        default_exists: false,
                    },
                )
            },
            TokenType::Symbol(Symbol::OpenBrace) => {
                let block = Block::to_ast(tokens)?;
                Ok(Statement::Block(block))
            },
            TokenType::Symbol(Symbol::Semicolon) => {
                next_token(tokens);
                Ok(Statement::Null)
            },
            _ => {
                let e = expr_semicolon(tokens)?;
                Ok(Statement::Expression(TypedExpression::from(e)))
            },
        }
    }
}

impl Block {
    pub fn to_ast(tokens: &mut MultiPeek<std::vec::IntoIter<Token>>) -> (r: Result<
        Block,
        ParserError,
    >)
        requires
            peek_cursor(*old(tokens)) == 0,
        ensures
            parsed::<Block>(spec_block(pending(*old(tokens))), r, *old(tokens), *final(tokens)),
        decreases pending(*old(tokens)).len(), 5nat,
    {
        expect_symbol(tokens, Symbol::OpenBrace, "'{'")?;
        let ghost s1 = pending(*tokens);
        let mut items: Vec<BlockItem> = Vec::new();
        assert(block_items_view(items@) =~= seq![]);
        loop
            invariant
                spec_expect_symbol(pending(*old(tokens)), Symbol::OpenBrace, "'{'"@) == Ok::<
                    Seq<Token>,
                    ParserErrorView,
                >(s1),
                s1.len() < pending(*old(tokens)).len(),
                peek_cursor(*tokens) == 0,
                pending(*tokens).len() <= s1.len(),
                spec_block_items(s1, seq![]) == spec_block_items(
                    pending(*tokens),
                    block_items_view(items@),
                ),
            decreases pending(*tokens).len(),
        {
            if peek_is_symbol(tokens, Symbol::CloseBrace) {
                expect_symbol(tokens, Symbol::CloseBrace, "'}'")?;
                return Ok(Block(items));
            }
            let item = BlockItem::to_ast(tokens)?;
            proof {
                lemma_block_items_view_push(items@, item);
            }
            items.push(item);
        }
    }
}

impl BlockItem {
    pub fn to_ast(tokens: &mut MultiPeek<std::vec::IntoIter<Token>>) -> (r: Result<
        BlockItem,
        ParserError,
    >)
        requires
            peek_cursor(*old(tokens)) == 0,
        ensures
            parsed::<BlockItem>(spec_block_item(pending(*old(tokens))), r, *old(tokens), *final(tokens)),
        decreases pending(*old(tokens)).len(), 7nat,
    {
        let first = peek_first(tokens);
        let is_declaration = match &first {
            Some(t) => is_specifier_token(t),
            None => false,
        };
        if is_declaration {
            let d = Declaration::to_ast(tokens)?;
            Ok(BlockItem::Declaration(d))
        } else {
            let s = Statement::to_ast(tokens)?;
            Ok(BlockItem::Statement(s))
        }
    }
}

/// The body of a function declaration after its `)`: `;` for none, or a
/// block.
fn function_body(tokens: &mut MultiPeek<std::vec::IntoIter<Token>>) -> (r: Result<
    Option<Block>,
    ParserError,
>)
    requires
        peek_cursor(*old(tokens)) == 0,
    ensures
        match spec_function_body(pending(*old(tokens))) {
            Ok((v, rest)) => r matches Ok(x) && (match x {
                Some(b) => v == Some(b@),
                None => v is None,
            }) && pending(*final(tokens)) == rest && peek_cursor(*final(tokens)) == 0
                && rest.len() < pending(*old(tokens)).len(),
            Err(e) => r matches Err(err) && err@ == e,
        },
    decreases pending(*old(tokens)).len(), 6nat,
{
    if peek_is_symbol(tokens, Symbol::Semicolon) {
        next_token(tokens);
        Ok(None)
    } else {
        let b = Block::to_ast(tokens)?;
        Ok(Some(b))
    }
}

impl Declaration {
    #[verifier::loop_isolation(false)]
    pub fn to_ast(tokens: &mut MultiPeek<std::vec::IntoIter<Token>>) -> (r: Result<
        Declaration,
        ParserError,
    >)
        requires
            peek_cursor(*old(tokens)) == 0,
        ensures
            parsed::<Declaration>(spec_declaration(pending(*old(tokens))), r, *old(tokens), *final(tokens)),
        decreases pending(*old(tokens)).len(), 6nat,
    {
        let ghost s = pending(*tokens);
        proof {
            lemma_leading_specifier_tokens_bound(s);
        }
        let specifiers = take_leading(tokens, true);
        reset_peek(tokens);
        let (ty, storage_class) = parse_types_and_storage_class(specifiers)?;
        let identifier = expect_identifier(tokens, "identifier")?;
        if peek_is_symbol(tokens, Symbol::OpenParen) {
            next_token(tokens);
            let parameters = parse_params(tokens)?;
            let mut types: Vec<Type> = Vec::new();
            let mut identifiers: Vec<String> = Vec::new();
            let mut i: usize = 0;
            while i < parameters.len()
                invariant
                    i <= parameters.len(),
                    types_view(types@) == param_types(params_view(parameters@.take(i as int))),
                    strings_view(identifiers@) == param_names(params_view(parameters@.take(i as int))),
                decreases parameters.len() - i,
            {
                let t = parameters[i].0.deep_clone();
                let name = parameters[i].1.clone();
                proof {
                    lemma_types_view_push(types@, t);
                    assert(parameters@.take(i + 1) =~= parameters@.take(i as int).push(parameters@[i as int]));
                    assert(param_types(params_view(parameters@.take(i + 1))) =~= param_types(params_view(parameters@.take(i as int))).push(t@));
                    assert(param_names(params_view(parameters@.take(i + 1))) =~= param_names(params_view(parameters@.take(i as int))).push(name@));
                    assert(strings_view(identifiers@.push(name)) =~= strings_view(identifiers@).push(name@));
                }
                types.push(t);
                identifiers.push(name);
                i = i + 1;
            }
            assert(parameters@.take(parameters.len() as int) =~= parameters@);
            expect_symbol(tokens, Symbol::CloseParen, "')'")?;
            let body = function_body(tokens)?;
            Ok(
                Declaration::Function(
                    FuncDeclaration {
                        identifier,
                        parameters: ParamList(identifiers),
                        body,
                        storage_class,
                        ty: Type::Function { params: types, return_type: Box::new(ty) },
                    },
                ),
            )
        } else {
            match next_token(tokens) {
                Some(token) => match token.0 {
                    TokenType::Symbol(Symbol::Equal) => {
                        let e = expr_semicolon(tokens)?;
                        Ok(
                            Declaration::Variable(
                                VariableDeclaration {
                                    identifier,
                                    initialiser: Some(TypedExpression::from(e)),
                                    storage_class,
                                    ty,
                                },
                            ),
                        )
                    },
                    TokenType::Symbol(Symbol::Semicolon) => Ok(
                        Declaration::Variable(
                            VariableDeclaration { identifier, initialiser: None, storage_class, ty },
                        ),
                    ),
                    _ => Err(error_str("'=' or ';'", token)),
                },
                None => Err(ParserError::EndOfTokenStream),
            }
        }
    }
}

impl Program {
    pub fn to_ast(tokens: &mut MultiPeek<std::vec::IntoIter<Token>>) -> (r: Result<
        Program,
        ParserError,
    >)
        requires
            peek_cursor(*old(tokens)) == 0,
        ensures
            match spec_parse(pending(*old(tokens))) {
                Ok(v) => r matches Ok(p) && p@ == v,
                Err(e) => r matches Err(err) && err@ == e,
            },
    {
        let ghost s0 = pending(*tokens);
        let mut declarations: Vec<Declaration> = Vec::new();
        assert(declarations_view(declarations@) =~= seq![]);
        loop
            invariant
                s0 == pending(*old(tokens)),
                peek_cursor(*tokens) == 0,
                spec_declarations(s0, seq![]) == spec_declarations(
                    pending(*tokens),
                    declarations_view(declarations@),
                ),
            decreases pending(*tokens).len(),
        {
            let at_end = match peek_first(tokens) {
                Some(Token(TokenType::EndOfFile, _)) => true,
                _ => false,
            };
            if at_end {
                expect_end_of_file(tokens)?;
                return Ok(Program(declarations));
            }
            let d = Declaration::to_ast(tokens)?;
            proof {
                lemma_declarations_view_push(declarations@, d);
            }
            declarations.push(d);
        }
    }
}

/// Parses a token list into a program.
pub fn parse(tokens: Vec<Token>) -> (r: Result<Program, ParserError>)
    ensures
        match spec_parse(tokens@) {
            Ok(v) => r matches Ok(p) && p@ == v,
            Err(e) => r matches Err(err) && err@ == e,
        },
{
    let mut stream = token_stream(tokens);
    Program::to_ast(&mut stream)
}

} // verus!
