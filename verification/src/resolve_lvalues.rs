//! Lvalue checking: the left side of every assignment, and the operand of
//! every increment or decrement, must be a variable, possibly in
//! parentheses.
use vstd::prelude::*;

use crate::parser::{
    lemma_block_items_view_index,
    lemma_declarations_view_index, Block, BlockItem, BlockItemView, Declaration,
    DeclarationView, Expression, ExpressionView, Factor, FactorView, ForInit, ForInitView,
    Postfix, Primary, PrimaryView, Program, Statement, StatementView,
    TypedExpression, TypedExpressionView, UnaryOperator,
};
use crate::semantic_analysis::{semantic_outcome, SemanticError, SemanticErrorView};

verus! {

pub open spec fn spec_is_lvalue(e: TypedExpressionView) -> bool
    decreases e, 2nat,
{
    match e.expression {
        ExpressionView::Factor(f) => spec_is_lvalue_factor(f),
        _ => false,
    }
}

pub open spec fn spec_is_lvalue_factor(f: FactorView) -> bool
    decreases f, 1nat,
{
    match f {
        FactorView::Postfix(p) => p.postfix.len() == 0 && spec_is_lvalue_primary(p.primary),
        _ => false,
    }
}

pub open spec fn spec_is_lvalue_primary(p: PrimaryView) -> bool
    decreases p, 0nat,
{
    match p {
        PrimaryView::Var(_) => true,
        PrimaryView::Paren(e) => spec_is_lvalue(*e),
        _ => false,
    }
}

/// The first of two checks that finds something.
pub open spec fn first_of<T>(a: Option<T>, b: Option<T>) -> Option<T> {
    match a {
        Some(x) => Some(x),
        None => b,
    }
}

/// The first expression in `e` that is used as an lvalue and is not one.
pub open spec fn spec_lvalue_error(e: TypedExpressionView) -> Option<ExpressionView>
    decreases e, 2nat,
{
    match e.expression {
        ExpressionView::Factor(f) => spec_lvalue_error_factor(f),
        ExpressionView::BinaryOp { op: _, left, right } => first_of(
            spec_lvalue_error(*left),
            spec_lvalue_error(*right),
        ),
        ExpressionView::Assignment { left, right } => {
            if spec_is_lvalue(*left) {
                first_of(spec_lvalue_error(*left), spec_lvalue_error(*right))
            } else {
                Some(left.expression)
            }
        },
        ExpressionView::Conditional { condition, then_branch, else_branch } => first_of(
            spec_lvalue_error(*condition),
            first_of(spec_lvalue_error(*then_branch), spec_lvalue_error(*else_branch)),
        ),
    }
}

pub open spec fn spec_lvalue_error_factor(f: FactorView) -> Option<ExpressionView>
    decreases f, 1nat,
{
    match f {
        FactorView::UnaryOp { op, fac } => {
            if (op == UnaryOperator::PrefixIncrement || op == UnaryOperator::PrefixDecrement)
                && !spec_is_lvalue_factor(*fac) {
                Some(ExpressionView::Factor(f))
            } else {
                spec_lvalue_error_factor(*fac)
            }
        },
        FactorView::Postfix(p) => {
            if p.postfix.len() > 1 || (p.postfix.len() > 0 && !spec_is_lvalue_primary(p.primary)) {
                Some(ExpressionView::Factor(f))
            } else {
                spec_lvalue_error_primary(p.primary)
            }
        },
        FactorView::Cast { ty: _, fac } => spec_lvalue_error_factor(*fac),
    }
}

/// Arguments of a call are not looked into.
pub open spec fn spec_lvalue_error_primary(p: PrimaryView) -> Option<ExpressionView>
    decreases p, 0nat,
{
    match p {
        PrimaryView::Paren(e) => spec_lvalue_error(*e),
        _ => None,
    }
}

pub open spec fn spec_lvalue_error_opt(e: Option<TypedExpressionView>) -> Option<ExpressionView> {
    match e {
        Some(x) => spec_lvalue_error(x),
        None => None,
    }
}

/// Initialisers of declarations are not looked into.
pub open spec fn spec_lvalue_error_statement(s: StatementView) -> Option<ExpressionView>
    decreases s, 0nat,
{
    match s {
        StatementView::Return(e) => spec_lvalue_error(e),
        StatementView::Expression(e) => spec_lvalue_error(e),
        StatementView::Labeled(_, body) => spec_lvalue_error_statement(*body),
        StatementView::If { condition, then_branch, else_branch } => first_of(
            spec_lvalue_error(condition),
            first_of(
                spec_lvalue_error_statement(*then_branch),
                match else_branch {
                    Some(e) => spec_lvalue_error_statement(*e),
                    None => None,
                },
            ),
        ),
        StatementView::Block(items) => spec_lvalue_error_items(items),
        StatementView::While { condition, body, label: _ } => first_of(
            spec_lvalue_error(condition),
            spec_lvalue_error_statement(*body),
        ),
        StatementView::DoWhile { body, condition, label: _ } => first_of(
            spec_lvalue_error_statement(*body),
            spec_lvalue_error(condition),
        ),
        StatementView::For { init, condition, post, body, label: _ } => first_of(
            match init {
                ForInitView::Declaration(_) => None,
                ForInitView::Expression(e) => spec_lvalue_error_opt(e),
            },
            first_of(
                spec_lvalue_error_opt(condition),
                first_of(spec_lvalue_error_opt(post), spec_lvalue_error_statement(*body)),
            ),
        ),
        StatementView::Case(e, body, _) => first_of(
            spec_lvalue_error(e),
            spec_lvalue_error_statement(*body),
        ),
        StatementView::Default(body, _) => spec_lvalue_error_statement(*body),
        StatementView::Switch { condition, body, .. } => first_of(
            spec_lvalue_error(condition),
            spec_lvalue_error_statement(*body),
        ),
        _ => None,
    }
}

pub open spec fn spec_lvalue_error_declaration(d: DeclarationView) -> Option<ExpressionView>
    decreases d, 0nat,
{
    match d {
        DeclarationView::Function(f) => match f.body {
            Some(body) => spec_lvalue_error_items(body),
            None => None,
        },
        DeclarationView::Variable(_) => None,
    }
}

pub open spec fn spec_lvalue_error_item(item: BlockItemView) -> Option<ExpressionView>
    decreases item, 0nat,
{
    match item {
        BlockItemView::Statement(s) => spec_lvalue_error_statement(s),
        BlockItemView::Declaration(d) => spec_lvalue_error_declaration(d),
    }
}

pub open spec fn spec_lvalue_error_items(items: Seq<BlockItemView>) -> Option<ExpressionView>
    decreases items, items.len(),
{
    if items.len() == 0 {
        None
    } else {
        first_of(spec_lvalue_error_items(items.drop_last()), spec_lvalue_error_item(items.last()))
    }
}

pub open spec fn spec_lvalue_error_declarations(ds: Seq<DeclarationView>) -> Option<ExpressionView>
    decreases ds.len(),
{
    if ds.len() == 0 {
        None
    } else {
        first_of(
            spec_lvalue_error_declarations(ds.drop_last()),
            spec_lvalue_error_declaration(ds.last()),
        )
    }
}

/// The program unchanged if every lvalue in it is valid, else the first
/// invalid one.
pub open spec fn spec_resolve_lvalues(p: Seq<DeclarationView>) -> Result<
    Seq<DeclarationView>,
    SemanticErrorView,
> {
    match spec_lvalue_error_declarations(p) {
        None => Ok(p),
        Some(e) => Err(SemanticErrorView::InvalidLvalue(e)),
    }
}


pub open spec fn opt_expression_view(e: Option<Expression>) -> Option<ExpressionView> {
    match e {
        Some(x) => Some(x@),
        None => None,
    }
}

impl TypedExpression {
    fn is_lvalue(&self) -> (r: bool)
        ensures
            r == spec_is_lvalue(self@),
        decreases self, 2nat,
    {
        match &self.expression {
            Expression::Factor(f) => f.is_lvalue(),
            _ => false,
        }
    }

    fn lvalue_error(&self) -> (r: Option<Expression>)
        ensures
            opt_expression_view(r) == spec_lvalue_error(self@),
        decreases self, 2nat,
    {
        match &self.expression {
            Expression::Factor(f) => f.lvalue_error(),
            Expression::BinaryOp { op: _, left, right } => {
                let a = left.lvalue_error();
                if a.is_some() {
                    a
                } else {
                    right.lvalue_error()
                }
            },
            Expression::Assignment { left, right } => {
                if left.is_lvalue() {
                    let a = left.lvalue_error();
                    if a.is_some() {
                        a
                    } else {
                        right.lvalue_error()
                    }
                } else {
                    Some(left.expression.deep_clone())
                }
            },
            Expression::Conditional { condition, then_branch, else_branch } => {
                let a = condition.lvalue_error();
                if a.is_some() {
                    return a;
                }
                let b = then_branch.lvalue_error();
                if b.is_some() {
                    return b;
                }
                else_branch.lvalue_error()
            },
        }
    }
}

fn opt_lvalue_error(e: &Option<TypedExpression>) -> (r: Option<Expression>)
    ensures
        opt_expression_view(r) == spec_lvalue_error_opt(
            match e {
                Some(x) => Some(x@),
                None => None,
            },
        ),
{
    match e {
        Some(x) => x.lvalue_error(),
        None => None,
    }
}

impl Factor {
    fn is_lvalue(&self) -> (r: bool)
        ensures
            r == spec_is_lvalue_factor(self@),
        decreases self, 1nat,
    {
        match self {
            Factor::Postfix(p) => {
                assert(self@ == FactorView::Postfix(p@));
                p.postfix.len() == 0 && p.primary.is_lvalue()
            },
            _ => false,
        }
    }

    fn lvalue_error(&self) -> (r: Option<Expression>)
        ensures
            opt_expression_view(r) == spec_lvalue_error_factor(self@),
        decreases self, 1nat,
    {
        match self {
            Factor::UnaryOp { op, fac } => {
                assert(self@ == FactorView::UnaryOp { op: *op, fac: Box::new((**fac)@) });
                if (*op == UnaryOperator::PrefixIncrement || *op == UnaryOperator::PrefixDecrement)
                    && !fac.is_lvalue() {
                    Some(Expression::Factor(self.deep_clone()))
                } else {
                    fac.lvalue_error()
                }
            },
            Factor::Postfix(p) => {
                assert(self@ == FactorView::Postfix(p@));
                if p.postfix.len() > 1 || (p.postfix.len() > 0 && !p.primary.is_lvalue()) {
                    Some(Expression::Factor(self.deep_clone()))
                } else {
                    p.primary.lvalue_error()
                }
            },
            Factor::Cast { ty: _, fac } => fac.lvalue_error(),
        }
    }
}

impl Primary {
    fn is_lvalue(&self) -> (r: bool)
        ensures
            r == spec_is_lvalue_primary(self@),
        decreases self, 0nat,
    {
        match self {
            Primary::Var(_) => true,
            Primary::Paren(e) => e.is_lvalue(),
            _ => false,
        }
    }

    fn lvalue_error(&self) -> (r: Option<Expression>)
        ensures
            opt_expression_view(r) == spec_lvalue_error_primary(self@),
        decreases self, 0nat,
    {
        match self {
            Primary::Paren(e) => e.lvalue_error(),
            _ => None,
        }
    }
}

impl Statement {
    fn lvalue_error(&self) -> (r: Option<Expression>)
        ensures
            opt_expression_view(r) == spec_lvalue_error_statement(self@),
        decreases self, 0nat,
    {
        match self {
            Statement::Return(e) => e.lvalue_error(),
            Statement::Expression(e) => e.lvalue_error(),
            Statement::Labeled(_, body) => body.lvalue_error(),
            Statement::If { condition, then_branch, else_branch } => {
                let a = condition.lvalue_error();
                if a.is_some() {
                    return a;
                }
                let b = then_branch.lvalue_error();
                if b.is_some() {
                    return b;
                }
                match else_branch {
                    Some(e) => e.lvalue_error(),
                    None => None,
                }
            },
            Statement::Block(block) => block.lvalue_error(),
            Statement::While { condition, body, label: _ } => {
                let a = condition.lvalue_error();
                if a.is_some() {
                    a
                } else {
                    body.lvalue_error()
                }
            },
            Statement::DoWhile { body, condition, label: _ } => {
                let a = body.lvalue_error();
                if a.is_some() {
                    a
                } else {
                    condition.lvalue_error()
                }
            },
            Statement::For { init, condition, post, body, label: _ } => {
                let a = match init {
                    ForInit::Declaration(_) => None,
                    ForInit::Expression(e) => opt_lvalue_error(e),
                };
                if a.is_some() {
                    return a;
                }
                let b = opt_lvalue_error(condition);
                if b.is_some() {
                    return b;
                }
                let c = opt_lvalue_error(post);
                if c.is_some() {
                    return c;
                }
                body.lvalue_error()
            },
            Statement::Case(e, body, _) => {
                let a = e.lvalue_error();
                if a.is_some() {
                    a
                } else {
                    body.lvalue_error()
                }
            },
            Statement::Default(body, _) => body.lvalue_error(),
            Statement::Switch { condition, body, .. } => {
                let a = condition.lvalue_error();
                if a.is_some() {
                    a
                } else {
                    body.lvalue_error()
                }
            },
            _ => None,
        }
    }
}

impl Declaration {
    fn lvalue_error(&self) -> (r: Option<Expression>)
        ensures
            opt_expression_view(r) == spec_lvalue_error_declaration(self@),
        decreases self, 2nat,
    {
        match self {
            Declaration::Function(f) => match &f.body {
                Some(body) => body.lvalue_error(),
                None => None,
            },
            Declaration::Variable(_) => None,
        }
    }
}

impl BlockItem {
    fn lvalue_error(&self) -> (r: Option<Expression>)
        ensures
            opt_expression_view(r) == spec_lvalue_error_item(self@),
        decreases self, 3nat,
    {
        match self {
            BlockItem::Statement(s) => s.lvalue_error(),
            BlockItem::Declaration(d) => d.lvalue_error(),
        }
    }
}

proof fn lemma_lvalue_error_items_found(items: Seq<BlockItemView>, k: int)
    requires
        0 <= k <= items.len(),
        spec_lvalue_error_items(items.take(k)) is Some,
    ensures
        spec_lvalue_error_items(items) == spec_lvalue_error_items(items.take(k)),
    decreases items.len() - k,
{
    if k < items.len() {
        assert(items.take(k + 1).drop_last() =~= items.take(k));
        lemma_lvalue_error_items_found(items, k + 1);
    } else {
        assert(items.take(k) =~= items);
    }
}

impl Block {
    fn lvalue_error(&self) -> (r: Option<Expression>)
        ensures
            opt_expression_view(r) == spec_lvalue_error_items(self@),
        decreases self, 4nat,
    {
        proof {
            lemma_block_items_view_index(self.0@);
            assert(self@.take(0) =~= seq![]);
        }
        let mut i: usize = 0;
        while i < self.0.len()
            invariant
                i <= self.0.len(),
                self@.len() == self.0@.len(),
                forall|j: int| 0 <= j < self.0@.len() ==> #[trigger] self@[j] == self.0@[j].view_of(),
                spec_lvalue_error_items(self@.take(i as int)) is None,
            decreases self.0.len() - i,
        {
            proof {
                assert(decreases_to!(*self => self.0));
                assert(decreases_to!(self.0 => self.0@));
                assert(decreases_to!(self.0@ => self.0@[i as int]));
                assert(self@.take(i + 1).drop_last() =~= self@.take(i as int));
            }
            let a = self.0[i].lvalue_error();
            if a.is_some() {
                proof {
                    lemma_lvalue_error_items_found(self@, i + 1);
                }
                return a;
            }
            i = i + 1;
        }
        proof {
            assert(self@.take(self@.len() as int) =~= self@);
        }
        None
    }
}

proof fn lemma_lvalue_error_declarations_found(ds: Seq<DeclarationView>, k: int)
    requires
        0 <= k <= ds.len(),
        spec_lvalue_error_declarations(ds.take(k)) is Some,
    ensures
        spec_lvalue_error_declarations(ds) == spec_lvalue_error_declarations(ds.take(k)),
    decreases ds.len() - k,
{
    if k < ds.len() {
        assert(ds.take(k + 1).drop_last() =~= ds.take(k));
        lemma_lvalue_error_declarations_found(ds, k + 1);
    } else {
        assert(ds.take(k) =~= ds);
    }
}

/// The program unchanged if every assignment and increment applies to a
/// variable; else an error that holds the first offending expression.
pub fn resolve_lvalues(program: Program) -> (r: Result<Program, SemanticError>)
    ensures
        semantic_outcome(r, spec_resolve_lvalues(program@)),
{
    proof {
        lemma_declarations_view_index(program.0@);
        assert(program@.take(0) =~= seq![]);
    }
    let mut i: usize = 0;
    while i < program.0.len()
        invariant
            i <= program.0.len(),
            program@.len() == program.0@.len(),
            forall|j: int| 0 <= j < program.0@.len() ==> #[trigger] program@[j] == program.0@[j].view_of(),
            spec_lvalue_error_declarations(program@.take(i as int)) is None,
        decreases program.0.len() - i,
    {
        proof {
            assert(program@.take(i + 1).drop_last() =~= program@.take(i as int));
        }
        match program.0[i].lvalue_error() {
            Some(e) => {
                proof {
                    lemma_lvalue_error_declarations_found(program@, i + 1);
                }
                return Err(SemanticError::InvalidLvalue(e));
            },
            None => {},
        }
        i = i + 1;
    }
    proof {
        assert(program@.take(program@.len() as int) =~= program@);
    }
    Ok(program)
}

} // verus!
