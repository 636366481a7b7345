//! Variable resolution with a single scope: every variable declared in a
//! function gets a fresh name, a name declared twice is refused, and every
//! use of a variable is pointed at its declaration. Function names, and
//! declarations at file scope, are left as they are.
use vstd::prelude::*;

use crate::name_map::NameMap;
use crate::names::{bump, bump_count, numbered_name};
use crate::parser::{
    block_items_view, declarations_view, lemma_block_items_view_index,
    lemma_block_items_view_push, lemma_declarations_view_index, lemma_declarations_view_push,
    lemma_typed_expressions_view_index, lemma_typed_expressions_view_push, strings_view,
    typed_expressions_view, ArgumentList, Block, BlockItem, BlockItemView, Declaration,
    DeclarationView, Expression, ExpressionView, Factor, FactorView, ForInit, ForInitView,
    FuncDeclaration, FuncDeclarationView, ParamList, Postfix, PostfixView, Primary,
    PrimaryView, Program, Statement, StatementView, TypedExpression, TypedExpressionView,
    VariableDeclaration, VariableDeclarationView,
};
use crate::resolve_identifiers::variable_name;
use crate::semantic_analysis::{semantic_outcome, SemanticError, SemanticErrorView};

verus! {

/// The variables declared so far, each with its fresh name.
pub type Names = Map<Seq<char>, Seq<char>>;

pub open spec fn spec_lookup_name(m: Names, id: Seq<char>) -> Result<Seq<char>, SemanticErrorView> {
    if m.contains_key(id) {
        Ok(m[id])
    } else {
        Err(SemanticErrorView::IdentifierNotDeclared(id))
    }
}

pub open spec fn spec_vars_expression(e: TypedExpressionView, m: Names) -> Result<
    TypedExpressionView,
    SemanticErrorView,
>
    decreases e, 3nat,
{
    match e.expression {
        ExpressionView::Factor(f) => match spec_vars_factor(f, m) {
            Ok(f2) => Ok(TypedExpressionView { expression: ExpressionView::Factor(f2), ..e }),
            Err(x) => Err(x),
        },
        ExpressionView::BinaryOp { op, left, right } => match spec_vars_expression(*left, m) {
            Ok(l) => match spec_vars_expression(*right, m) {
                Ok(r) => Ok(
                    TypedExpressionView {
                        expression: ExpressionView::BinaryOp {
                            op,
                            left: Box::new(l),
                            right: Box::new(r),
                        },
                        ..e
                    },
                ),
                Err(x) => Err(x),
            },
            Err(x) => Err(x),
        },
        ExpressionView::Assignment { left, right } => match spec_vars_expression(*left, m) {
            Ok(l) => match spec_vars_expression(*right, m) {
                Ok(r) => Ok(
                    TypedExpressionView {
                        expression: ExpressionView::Assignment {
                            left: Box::new(l),
                            right: Box::new(r),
                        },
                        ..e
                    },
                ),
                Err(x) => Err(x),
            },
            Err(x) => Err(x),
        },
        ExpressionView::Conditional { condition, then_branch, else_branch } =>
            match spec_vars_expression(*condition, m) {
            Ok(c) => match spec_vars_expression(*then_branch, m) {
                Ok(t) => match spec_vars_expression(*else_branch, m) {
                    Ok(f) => Ok(
                        TypedExpressionView {
                            expression: ExpressionView::Conditional {
                                condition: Box::new(c),
                                then_branch: Box::new(t),
                                else_branch: Box::new(f),
                            },
                            ..e
                        },
                    ),
                    Err(x) => Err(x),
                },
                Err(x) => Err(x),
            },
            Err(x) => Err(x),
        },
    }
}

pub open spec fn spec_vars_factor(f: FactorView, m: Names) -> Result<FactorView, SemanticErrorView>
    decreases f, 2nat,
{
    match f {
        FactorView::UnaryOp { op, fac } => match spec_vars_factor(*fac, m) {
            Ok(g) => Ok(FactorView::UnaryOp { op, fac: Box::new(g) }),
            Err(x) => Err(x),
        },
        FactorView::Postfix(p) => match spec_vars_primary(p.primary, m) {
            Ok(q) => Ok(FactorView::Postfix(PostfixView { primary: q, postfix: p.postfix })),
            Err(x) => Err(x),
        },
        FactorView::Cast { ty, fac } => match spec_vars_factor(*fac, m) {
            Ok(g) => Ok(FactorView::Cast { ty, fac: Box::new(g) }),
            Err(x) => Err(x),
        },
    }
}

pub open spec fn spec_vars_primary(p: PrimaryView, m: Names) -> Result<PrimaryView, SemanticErrorView>
    decreases p, 1nat,
{
    match p {
        PrimaryView::Var(id) => match spec_lookup_name(m, id) {
            Ok(u) => Ok(PrimaryView::Var(u)),
            Err(x) => Err(x),
        },
        PrimaryView::Paren(e) => match spec_vars_expression(*e, m) {
            Ok(e2) => Ok(PrimaryView::Paren(Box::new(e2))),
            Err(x) => Err(x),
        },
        PrimaryView::Constant(_) => Ok(p),
        PrimaryView::FunctionCall(name, args) => match spec_vars_arguments(args, m) {
            Ok(a) => Ok(PrimaryView::FunctionCall(name, a)),
            Err(x) => Err(x),
        },
    }
}

pub open spec fn spec_vars_arguments(args: Seq<TypedExpressionView>, m: Names) -> Result<
    Seq<TypedExpressionView>,
    SemanticErrorView,
>
    decreases args, args.len(),
{
    if args.len() == 0 {
        Ok(seq![])
    } else {
        match spec_vars_arguments(args.drop_last(), m) {
            Ok(done) => match spec_vars_expression(args.last(), m) {
                Ok(x) => Ok(done.push(x)),
                Err(e) => Err(e),
            },
            Err(e) => Err(e),
        }
    }
}

pub open spec fn spec_vars_optional(e: Option<TypedExpressionView>, m: Names) -> Result<
    Option<TypedExpressionView>,
    SemanticErrorView,
> {
    match e {
        Some(x) => match spec_vars_expression(x, m) {
            Ok(y) => Ok(Some(y)),
            Err(err) => Err(err),
        },
        None => Ok(None),
    }
}


/// The names declared so far and the counter that numbers fresh names.
pub struct VarState {
    pub names: Names,
    pub counter: usize,
}

pub type VarResult<T> = Result<(T, VarState), SemanticErrorView>;

pub open spec fn spec_vars_declare(st: VarState, id: Seq<char>) -> VarResult<Seq<char>> {
    if st.names.contains_key(id) {
        Err(SemanticErrorView::IdentifierAlreadyDeclared(id))
    } else {
        let u = variable_name(id, st.counter);
        Ok((u, VarState { names: st.names.insert(id, u), counter: bump(st.counter) }))
    }
}

/// The initialiser sees the variable it initialises.
pub open spec fn spec_vars_variable(v: VariableDeclarationView, st: VarState) -> VarResult<
    VariableDeclarationView,
> {
    match spec_vars_declare(st, v.identifier) {
        Ok((u, st1)) => match spec_vars_optional(v.initialiser, st1.names) {
            Ok(init) => Ok((VariableDeclarationView { identifier: u, initialiser: init, ..v }, st1)),
            Err(x) => Err(x),
        },
        Err(x) => Err(x),
    }
}

pub open spec fn spec_vars_statement(s: StatementView, st: VarState) -> VarResult<StatementView>
    decreases s, 0nat,
{
    match s {
        StatementView::Return(e) => match spec_vars_expression(e, st.names) {
            Ok(e2) => Ok((StatementView::Return(e2), st)),
            Err(x) => Err(x),
        },
        StatementView::Expression(e) => match spec_vars_expression(e, st.names) {
            Ok(e2) => Ok((StatementView::Expression(e2), st)),
            Err(x) => Err(x),
        },
        StatementView::If { condition, then_branch, else_branch } => match spec_vars_expression(
            condition,
            st.names,
        ) {
            Ok(cond) => match spec_vars_statement(*then_branch, st) {
                Ok((t, st1)) => match else_branch {
                    None => Ok(
                        (
                            StatementView::If {
                                condition: cond,
                                then_branch: Box::new(t),
                                else_branch: None,
                            },
                            st1,
                        ),
                    ),
                    Some(e) => match spec_vars_statement(*e, st1) {
                        Ok((e2, st2)) => Ok(
                            (
                                StatementView::If {
                                    condition: cond,
                                    then_branch: Box::new(t),
                                    else_branch: Some(Box::new(e2)),
                                },
                                st2,
                            ),
                        ),
                        Err(x) => Err(x),
                    },
                },
                Err(x) => Err(x),
            },
            Err(x) => Err(x),
        },
        StatementView::Block(items) => match spec_vars_items(items, st) {
            Ok((b, st1)) => Ok((StatementView::Block(b), st1)),
            Err(x) => Err(x),
        },
        StatementView::Labeled(l, body) => match spec_vars_statement(*body, st) {
            Ok((b, st1)) => Ok((StatementView::Labeled(l, Box::new(b)), st1)),
            Err(x) => Err(x),
        },
        StatementView::While { condition, body, label } => match spec_vars_expression(
            condition,
            st.names,
        ) {
            Ok(cond) => match spec_vars_statement(*body, st) {
                Ok((b, st1)) => Ok(
                    (StatementView::While { condition: cond, body: Box::new(b), label }, st1),
                ),
                Err(x) => Err(x),
            },
            Err(x) => Err(x),
        },
        StatementView::DoWhile { body, condition, label } => match spec_vars_statement(*body, st) {
            Ok((b, st1)) => match spec_vars_expression(condition, st1.names) {
                Ok(cond) => Ok(
                    (StatementView::DoWhile { body: Box::new(b), condition: cond, label }, st1),
                ),
                Err(x) => Err(x),
            },
            Err(x) => Err(x),
        },
        StatementView::For { init, condition, post, body, label } => match spec_vars_for_init(
            init,
            st,
        ) {
            Ok((i2, st1)) => match spec_vars_optional(condition, st1.names) {
                Ok(cond) => match spec_vars_optional(post, st1.names) {
                    Ok(p) => match spec_vars_statement(*body, st1) {
                        Ok((b, st2)) => Ok(
                            (
                                StatementView::For {
                                    init: i2,
                                    condition: cond,
                                    post: p,
                                    body: Box::new(b),
                                    label,
                                },
                                st2,
                            ),
                        ),
                        Err(x) => Err(x),
                    },
                    Err(x) => Err(x),
                },
                Err(x) => Err(x),
            },
            Err(x) => Err(x),
        },
        StatementView::Case(e, body, l) => match spec_vars_expression(e, st.names) {
            Ok(e2) => match spec_vars_statement(*body, st) {
                Ok((b, st1)) => Ok((StatementView::Case(e2, Box::new(b), l), st1)),
                Err(x) => Err(x),
            },
            Err(x) => Err(x),
        },
        StatementView::Default(body, l) => match spec_vars_statement(*body, st) {
            Ok((b, st1)) => Ok((StatementView::Default(Box::new(b), l), st1)),
            Err(x) => Err(x),
        },
        StatementView::Switch { condition, body, label, cases, default_exists } =>
            match spec_vars_expression(condition, st.names) {
            Ok(cond) => match spec_vars_statement(*body, st) {
                Ok((b, st1)) => Ok(
                    (
                        StatementView::Switch {
                            condition: cond,
                            body: Box::new(b),
                            label,
                            cases,
                            default_exists,
                        },
                        st1,
                    ),
                ),
                Err(x) => Err(x),
            },
            Err(x) => Err(x),
        },
        _ => Ok((s, st)),
    }
}

pub open spec fn spec_vars_for_init(init: ForInitView, st: VarState) -> VarResult<ForInitView> {
    match init {
        ForInitView::Declaration(d) => match spec_vars_variable(d, st) {
            Ok((d2, st2)) => Ok((ForInitView::Declaration(d2), st2)),
            Err(x) => Err(x),
        },
        ForInitView::Expression(e) => match spec_vars_optional(e, st.names) {
            Ok(e2) => Ok((ForInitView::Expression(e2), st)),
            Err(x) => Err(x),
        },
    }
}

/// A function declared inside a block is left as it is.
pub open spec fn spec_vars_item(item: BlockItemView, st: VarState) -> VarResult<BlockItemView>
    decreases item, 1nat,
{
    match item {
        BlockItemView::Statement(s) => match spec_vars_statement(s, st) {
            Ok((s2, st2)) => Ok((BlockItemView::Statement(s2), st2)),
            Err(x) => Err(x),
        },
        BlockItemView::Declaration(DeclarationView::Variable(v)) => match spec_vars_variable(v, st) {
            Ok((v2, st2)) => Ok((BlockItemView::Declaration(DeclarationView::Variable(v2)), st2)),
            Err(x) => Err(x),
        },
        BlockItemView::Declaration(DeclarationView::Function(_)) => Ok((item, st)),
    }
}

pub open spec fn spec_vars_items(items: Seq<BlockItemView>, st: VarState) -> VarResult<
    Seq<BlockItemView>,
>
    decreases items, items.len(),
{
    if items.len() == 0 {
        Ok((seq![], st))
    } else {
        match spec_vars_items(items.drop_last(), st) {
            Ok((done, st1)) => match spec_vars_item(items.last(), st1) {
                Ok((x, st2)) => Ok((done.push(x), st2)),
                Err(e) => Err(e),
            },
            Err(e) => Err(e),
        }
    }
}

pub open spec fn spec_vars_params(ps: Seq<Seq<char>>, st: VarState) -> VarResult<Seq<Seq<char>>>
    decreases ps.len(),
{
    if ps.len() == 0 {
        Ok((seq![], st))
    } else {
        match spec_vars_params(ps.drop_last(), st) {
            Ok((done, st1)) => match spec_vars_declare(st1, ps.last()) {
                Ok((u, st2)) => Ok((done.push(u), st2)),
                Err(x) => Err(x),
            },
            Err(x) => Err(x),
        }
    }
}

/// A function with a body has its parameters declared, then its body
/// resolved; other declarations are left as they are.
pub open spec fn spec_vars_declaration(d: DeclarationView, st: VarState) -> VarResult<
    DeclarationView,
> {
    match d {
        DeclarationView::Function(f) => match f.body {
            Some(b) => match spec_vars_params(f.parameters, st) {
                Ok((ps, st1)) => match spec_vars_items(b, st1) {
                    Ok((b2, st2)) => Ok(
                        (
                            DeclarationView::Function(
                                FuncDeclarationView { parameters: ps, body: Some(b2), ..f },
                            ),
                            st2,
                        ),
                    ),
                    Err(x) => Err(x),
                },
                Err(x) => Err(x),
            },
            None => Ok((d, st)),
        },
        DeclarationView::Variable(_) => Ok((d, st)),
    }
}

pub open spec fn spec_vars_declarations(ds: Seq<DeclarationView>, st: VarState) -> VarResult<
    Seq<DeclarationView>,
>
    decreases ds.len(),
{
    if ds.len() == 0 {
        Ok((seq![], st))
    } else {
        match spec_vars_declarations(ds.drop_last(), st) {
            Ok((done, st1)) => match spec_vars_declaration(ds.last(), st1) {
                Ok((x, st2)) => Ok((done.push(x), st2)),
                Err(e) => Err(e),
            },
            Err(e) => Err(e),
        }
    }
}

/// The program with its variables resolved in one scope for the whole
/// program, or the first error found.
/// The program with its variables resolved, fresh names numbered from
/// `counter` on, and the counter after the last one; or the first error.
pub open spec fn spec_resolve_variables_from(p: Seq<DeclarationView>, counter: usize) -> Result<
    (Seq<DeclarationView>, usize),
    SemanticErrorView,
> {
    match spec_vars_declarations(p, VarState { names: Map::empty(), counter }) {
        Ok((q, st)) => Ok((q, st.counter)),
        Err(e) => Err(e),
    }
}

pub open spec fn spec_resolve_variables(p: Seq<DeclarationView>) -> Result<
    Seq<DeclarationView>,
    SemanticErrorView,
> {
    match spec_vars_declarations(p, VarState { names: Map::empty(), counter: 0 }) {
        Ok((q, _)) => Ok(q),
        Err(e) => Err(e),
    }
}

fn lookup_name(names: &NameMap<String>, identifier: String) -> (r: Result<String, SemanticError>)
    ensures
        semantic_outcome(r, spec_lookup_name(names@, identifier@)),
{
    match names.get(&identifier) {
        Some(u) => Ok(u.clone()),
        None => Err(SemanticError::IdentifierNotDeclared(identifier)),
    }
}

impl TypedExpression {
    fn resolve_variables(self, names: &NameMap<String>) -> (r: Result<
        TypedExpression,
        SemanticError,
    >)
        ensures
            semantic_outcome(r, spec_vars_expression(self@, names@)),
        decreases self, 3nat,
    {
        let TypedExpression { expression, ty } = self;
        let e = match expression {
            Expression::Factor(f) => Expression::Factor(f.resolve_variables(names)?),
            Expression::BinaryOp { op, left, right } => {
                let l = (*left).resolve_variables(names)?;
                let r = (*right).resolve_variables(names)?;
                Expression::BinaryOp { op, left: Box::new(l), right: Box::new(r) }
            },
            Expression::Assignment { left, right } => {
                let l = (*left).resolve_variables(names)?;
                let r = (*right).resolve_variables(names)?;
                Expression::Assignment { left: Box::new(l), right: Box::new(r) }
            },
            Expression::Conditional { condition, then_branch, else_branch } => {
                let c = (*condition).resolve_variables(names)?;
                let t = (*then_branch).resolve_variables(names)?;
                let f = (*else_branch).resolve_variables(names)?;
                Expression::Conditional {
                    condition: Box::new(c),
                    then_branch: Box::new(t),
                    else_branch: Box::new(f),
                }
            },
        };
        Ok(TypedExpression { expression: e, ty })
    }
}

fn resolve_optional_variables(e: Option<TypedExpression>, names: &NameMap<String>) -> (r: Result<
    Option<TypedExpression>,
    SemanticError,
>)
    ensures
        match spec_vars_optional(
            match e {
                Some(x) => Some(x@),
                None => None,
            },
            names@,
        ) {
            Ok(v) => r matches Ok(x) && match x {
                Some(y) => v == Some(y@),
                None => v is None,
            },
            Err(err) => r matches Err(x) && x@ == err,
        },
{
    match e {
        Some(x) => Ok(Some(x.resolve_variables(names)?)),
        None => Ok(None),
    }
}

impl Factor {
    fn resolve_variables(self, names: &NameMap<String>) -> (r: Result<
        Factor,
        SemanticError,
    >)
        ensures
            semantic_outcome(r, spec_vars_factor(self@, names@)),
        decreases self, 2nat,
    {
        let ghost sv = self@;
        match self {
            Factor::UnaryOp { op, fac } => {
                assert(sv == FactorView::UnaryOp { op, fac: Box::new((*fac)@) });
                let g = (*fac).resolve_variables(names)?;
                Ok(Factor::UnaryOp { op, fac: Box::new(g) })
            },
            Factor::Postfix(p) => {
                assert(sv == FactorView::Postfix(p@));
                let Postfix { primary, postfix } = p;
                let ghost pf = postfix@;
                let q = primary.resolve_variables(names)?;
                let np = Postfix { primary: q, postfix };
                assert(np@ == PostfixView { primary: q@, postfix: pf });
                Ok(Factor::Postfix(np))
            },
            Factor::Cast { ty, fac } => {
                assert(sv == FactorView::Cast { ty: ty@, fac: Box::new((*fac)@) });
                let g = (*fac).resolve_variables(names)?;
                Ok(Factor::Cast { ty, fac: Box::new(g) })
            },
        }
    }
}

impl Primary {
    fn resolve_variables(self, names: &NameMap<String>) -> (r: Result<
        Primary,
        SemanticError,
    >)
        ensures
            semantic_outcome(r, spec_vars_primary(self@, names@)),
        decreases self, 1nat,
    {
        match self {
            Primary::Var(identifier) => Ok(Primary::Var(lookup_name(names, identifier)?)),
            Primary::Paren(e) => Ok(Primary::Paren(Box::new((*e).resolve_variables(names)?))),
            Primary::Constant(v) => Ok(Primary::Constant(v)),
            Primary::FunctionCall(name, arguments) => {
                let args = arguments.resolve_variables(names)?;
                Ok(Primary::FunctionCall(name, args))
            },
        }
    }
}

proof fn lemma_vars_arguments_error(args: Seq<TypedExpressionView>, k: int, m: Names)
    requires
        0 <= k <= args.len(),
        spec_vars_arguments(args.take(k), m) is Err,
    ensures
        spec_vars_arguments(args, m) == spec_vars_arguments(args.take(k), m),
    decreases args.len() - k,
{
    if k < args.len() {
        assert(args.take(k + 1).drop_last() =~= args.take(k));
        lemma_vars_arguments_error(args, k + 1, m);
    } else {
        assert(args.take(k) =~= args);
    }
}

impl ArgumentList {
    #[verifier::loop_isolation(false)]
    fn resolve_variables(self, names: &NameMap<String>) -> (r: Result<
        ArgumentList,
        SemanticError,
    >)
        ensures
            semantic_outcome(r, spec_vars_arguments(self@, names@)),
        decreases self, 0nat,
    {
        let ghost orig = self;
        proof {
            lemma_typed_expressions_view_index(orig.0@);
            assert(orig@.take(0) =~= seq![]);
        }
        let ArgumentList(args) = self;
        let mut out: Vec<TypedExpression> = Vec::new();
        for a in it: args
            invariant
                it.seq() == orig.0@,
                it.index() <= orig.0@.len(),
                spec_vars_arguments(orig@.take(it.index() as int), names@) == Result::<
                    Seq<TypedExpressionView>,
                    SemanticErrorView,
                >::Ok(typed_expressions_view(out@)),
        {
            let ghost i = it.index();
            proof {
                assert(a == orig.0@[i as int]);
                assert(decreases_to!(orig => orig.0));
                assert(decreases_to!(orig.0 => orig.0@));
                assert(decreases_to!(orig.0@ => orig.0@[i as int]));
                assert(orig@.take(i + 1).drop_last() =~= orig@.take(i as int));
            }
            let x = match a.resolve_variables(names) {
                Ok(x) => x,
                Err(e) => {
                    proof {
                        lemma_vars_arguments_error(orig@, i + 1, names@);
                    }
                    return Err(e);
                },
            };
            proof {
                lemma_typed_expressions_view_push(out@, x);
            }
            out.push(x);
        }
        proof {
            assert(orig@.take(orig@.len() as int) =~= orig@);
        }
        Ok(ArgumentList(out))
    }
}



pub open spec fn var_state(names: NameMap<String>, counter: usize) -> VarState {
    VarState { names: names@, counter }
}

/// `r` and the state `after` are what `expected` says.
pub open spec fn var_outcome<T: View>(
    r: Result<T, SemanticError>,
    expected: VarResult<T::V>,
    after: VarState,
) -> bool {
    match expected {
        Ok((v, st)) => r matches Ok(x) && x@ == v && after == st,
        Err(e) => r matches Err(x) && x@ == e,
    }
}

fn declare_name(names: &mut NameMap<String>, counter: &mut usize, identifier: String) -> (r: Result<
    String,
    SemanticError,
>)
    ensures
        var_outcome(
            r,
            spec_vars_declare(var_state(*old(names), *old(counter)), identifier@),
            var_state(*final(names), *final(counter)),
        ),
{
    if names.contains_key(&identifier) {
        return Err(SemanticError::IdentifierAlreadyDeclared(identifier));
    }
    let unique_name = numbered_name("var_", identifier.as_str(), *counter);
    *counter = bump_count(*counter);
    names.insert(identifier, unique_name.clone());
    Ok(unique_name)
}

impl VariableDeclaration {
    fn resolve_variables(self, names: &mut NameMap<String>, counter: &mut usize) -> (r: Result<
        VariableDeclaration,
        SemanticError,
    >)
        ensures
            var_outcome(
                r,
                spec_vars_variable(self@, var_state(*old(names), *old(counter))),
                var_state(*final(names), *final(counter)),
            ),
    {
        let VariableDeclaration { identifier, initialiser, ty, storage_class } = self;
        let identifier = declare_name(names, counter, identifier)?;
        let initialiser = resolve_optional_variables(initialiser, names)?;
        Ok(VariableDeclaration { identifier, initialiser, ty, storage_class })
    }
}

impl ForInit {
    fn resolve_variables(self, names: &mut NameMap<String>, counter: &mut usize) -> (r: Result<
        ForInit,
        SemanticError,
    >)
        ensures
            var_outcome(
                r,
                spec_vars_for_init(self.view_of(), var_state(*old(names), *old(counter))),
                var_state(*final(names), *final(counter)),
            ),
    {
        match self {
            ForInit::Declaration(d) => Ok(ForInit::Declaration(d.resolve_variables(names, counter)?)),
            ForInit::Expression(e) => Ok(ForInit::Expression(resolve_optional_variables(e, names)?)),
        }
    }
}

impl Statement {
    fn resolve_variables(self, names: &mut NameMap<String>, counter: &mut usize) -> (r: Result<
        Statement,
        SemanticError,
    >)
        ensures
            var_outcome(
                r,
                spec_vars_statement(self@, var_state(*old(names), *old(counter))),
                var_state(*final(names), *final(counter)),
            ),
        decreases self, 0nat,
    {
        match self {
            Statement::Return(e) => Ok(Statement::Return(e.resolve_variables(names)?)),
            Statement::Expression(e) => Ok(Statement::Expression(e.resolve_variables(names)?)),
            Statement::If { condition, then_branch, else_branch } => {
                let c = condition.resolve_variables(names)?;
                let t = (*then_branch).resolve_variables(names, counter)?;
                let e = match else_branch {
                    Some(e) => Some(Box::new((*e).resolve_variables(names, counter)?)),
                    None => None,
                };
                Ok(Statement::If { condition: c, then_branch: Box::new(t), else_branch: e })
            },
            Statement::Block(block) => Ok(Statement::Block(block.resolve_variables(names, counter)?)),
            Statement::Labeled(l, body) => {
                let b = (*body).resolve_variables(names, counter)?;
                Ok(Statement::Labeled(l, Box::new(b)))
            },
            Statement::While { condition, body, label } => {
                let c = condition.resolve_variables(names)?;
                let b = (*body).resolve_variables(names, counter)?;
                Ok(Statement::While { condition: c, body: Box::new(b), label })
            },
            Statement::DoWhile { body, condition, label } => {
                let b = (*body).resolve_variables(names, counter)?;
                let c = condition.resolve_variables(names)?;
                Ok(Statement::DoWhile { body: Box::new(b), condition: c, label })
            },
            Statement::For { init, condition, post, body, label } => {
                let i2 = init.resolve_variables(names, counter)?;
                let c = resolve_optional_variables(condition, names)?;
                let p = resolve_optional_variables(post, names)?;
                let b = (*body).resolve_variables(names, counter)?;
                Ok(
                    Statement::For {
                        init: i2,
                        condition: c,
                        post: p,
                        body: Box::new(b),
                        label,
                    },
                )
            },
            Statement::Case(e, body, l) => {
                let e2 = e.resolve_variables(names)?;
                let b = (*body).resolve_variables(names, counter)?;
                Ok(Statement::Case(e2, Box::new(b), l))
            },
            Statement::Default(body, l) => {
                let b = (*body).resolve_variables(names, counter)?;
                Ok(Statement::Default(Box::new(b), l))
            },
            Statement::Switch { condition, body, label, cases, default_exists } => {
                let c = condition.resolve_variables(names)?;
                let b = (*body).resolve_variables(names, counter)?;
                Ok(
                    Statement::Switch {
                        condition: c,
                        body: Box::new(b),
                        label,
                        cases,
                        default_exists,
                    },
                )
            },
            Statement::Null => Ok(Statement::Null),
            Statement::Goto(l) => Ok(Statement::Goto(l)),
            Statement::Break(l) => Ok(Statement::Break(l)),
            Statement::Continue(l) => Ok(Statement::Continue(l)),
        }
    }
}

impl BlockItem {
    fn resolve_variables(self, names: &mut NameMap<String>, counter: &mut usize) -> (r: Result<
        BlockItem,
        SemanticError,
    >)
        ensures
            var_outcome(
                r,
                spec_vars_item(self@, var_state(*old(names), *old(counter))),
                var_state(*final(names), *final(counter)),
            ),
        decreases self, 1nat,
    {
        match self {
            BlockItem::Statement(s) => Ok(BlockItem::Statement(s.resolve_variables(names, counter)?)),
            BlockItem::Declaration(Declaration::Variable(v)) => Ok(
                BlockItem::Declaration(Declaration::Variable(v.resolve_variables(names, counter)?)),
            ),
            BlockItem::Declaration(Declaration::Function(f)) => Ok(
                BlockItem::Declaration(Declaration::Function(f)),
            ),
        }
    }
}

proof fn lemma_vars_items_error(items: Seq<BlockItemView>, k: int, st: VarState)
    requires
        0 <= k <= items.len(),
        spec_vars_items(items.take(k), st) is Err,
    ensures
        spec_vars_items(items, st) == spec_vars_items(items.take(k), st),
    decreases items.len() - k,
{
    if k < items.len() {
        assert(items.take(k + 1).drop_last() =~= items.take(k));
        lemma_vars_items_error(items, k + 1, st);
    } else {
        assert(items.take(k) =~= items);
    }
}

impl Block {
    #[verifier::loop_isolation(false)]
    fn resolve_variables(self, names: &mut NameMap<String>, counter: &mut usize) -> (r: Result<
        Block,
        SemanticError,
    >)
        ensures
            var_outcome(
                r,
                spec_vars_items(self@, var_state(*old(names), *old(counter))),
                var_state(*final(names), *final(counter)),
            ),
        decreases self, 2nat,
    {
        let ghost orig = self;
        let ghost st0 = var_state(*names, *counter);
        proof {
            lemma_block_items_view_index(orig.0@);
            assert(orig@.take(0) =~= seq![]);
        }
        let Block(items) = self;
        let mut out: Vec<BlockItem> = Vec::new();
        for item in it: items
            invariant
                it.seq() == orig.0@,
                it.index() <= orig.0@.len(),
                spec_vars_items(orig@.take(it.index() as int), st0) == VarResult::<
                    Seq<BlockItemView>,
                >::Ok((block_items_view(out@), var_state(*names, *counter))),
        {
            let ghost i = it.index();
            proof {
                assert(item == orig.0@[i as int]);
                assert(decreases_to!(orig => orig.0));
                assert(decreases_to!(orig.0 => orig.0@));
                assert(decreases_to!(orig.0@ => orig.0@[i as int]));
                assert(orig@.take(i + 1).drop_last() =~= orig@.take(i as int));
            }
            let x = match item.resolve_variables(names, counter) {
                Ok(x) => x,
                Err(e) => {
                    proof {
                        lemma_vars_items_error(orig@, i + 1, st0);
                    }
                    return Err(e);
                },
            };
            proof {
                lemma_block_items_view_push(out@, x);
            }
            out.push(x);
        }
        proof {
            assert(orig@.take(orig@.len() as int) =~= orig@);
        }
        Ok(Block(out))
    }
}

proof fn lemma_vars_params_error(ps: Seq<Seq<char>>, k: int, st: VarState)
    requires
        0 <= k <= ps.len(),
        spec_vars_params(ps.take(k), st) is Err,
    ensures
        spec_vars_params(ps, st) == spec_vars_params(ps.take(k), st),
    decreases ps.len() - k,
{
    if k < ps.len() {
        assert(ps.take(k + 1).drop_last() =~= ps.take(k));
        lemma_vars_params_error(ps, k + 1, st);
    } else {
        assert(ps.take(k) =~= ps);
    }
}

#[verifier::loop_isolation(false)]
fn declare_params(parameters: ParamList, names: &mut NameMap<String>, counter: &mut usize) -> (r:
    Result<ParamList, SemanticError>)
    ensures
        match spec_vars_params(strings_view(parameters.0@), var_state(*old(names), *old(counter))) {
            Ok((ps, st1)) => r matches Ok(x) && strings_view(x.0@) == ps && var_state(
                *final(names),
                *final(counter),
            ) == st1,
            Err(e) => r matches Err(x) && x@ == e,
        },
{
    let ghost ps0 = strings_view(parameters.0@);
    let ghost st0 = var_state(*names, *counter);
    proof {
        assert(ps0.take(0) =~= seq![]);
    }
    let ParamList(params) = parameters;
    let mut out: Vec<String> = Vec::new();
    proof {
        assert(strings_view(out@) =~= seq![]);
    }
    for p in it: params
        invariant
            it.seq().map_values(|x: String| x@) == ps0,
            it.index() <= ps0.len(),
            spec_vars_params(ps0.take(it.index() as int), st0) == VarResult::<Seq<Seq<char>>>::Ok(
                (strings_view(out@), var_state(*names, *counter)),
            ),
    {
        let ghost i = it.index();
        proof {
            assert(ps0.take(i + 1).drop_last() =~= ps0.take(i as int));
            assert(ps0[i as int] == p@);
        }
        let x = match declare_name(names, counter, p) {
            Ok(x) => x,
            Err(e) => {
                proof {
                    lemma_vars_params_error(ps0, i + 1, st0);
                }
                return Err(e);
            },
        };
        proof {
            assert(strings_view(out@.push(x)) =~= strings_view(out@).push(x@));
        }
        out.push(x);
    }
    proof {
        assert(ps0.take(ps0.len() as int) =~= ps0);
    }
    Ok(ParamList(out))
}

impl Declaration {
    /// A declaration at file scope.
    fn resolve_variables(self, names: &mut NameMap<String>, counter: &mut usize) -> (r: Result<
        Declaration,
        SemanticError,
    >)
        ensures
            var_outcome(
                r,
                spec_vars_declaration(self@, var_state(*old(names), *old(counter))),
                var_state(*final(names), *final(counter)),
            ),
    {
        match self {
            Declaration::Function(f) => {
                let FuncDeclaration { identifier, parameters, body, ty, storage_class } = f;
                match body {
                    Some(b) => {
                        let parameters = declare_params(parameters, names, counter)?;
                        let b2 = b.resolve_variables(names, counter)?;
                        Ok(
                            Declaration::Function(
                                FuncDeclaration {
                                    identifier,
                                    parameters,
                                    body: Some(b2),
                                    ty,
                                    storage_class,
                                },
                            ),
                        )
                    },
                    None => Ok(
                        Declaration::Function(
                            FuncDeclaration { identifier, parameters, body: None, ty, storage_class },
                        ),
                    ),
                }
            },
            Declaration::Variable(v) => Ok(Declaration::Variable(v)),
        }
    }
}

proof fn lemma_vars_declarations_error(ds: Seq<DeclarationView>, k: int, st: VarState)
    requires
        0 <= k <= ds.len(),
        spec_vars_declarations(ds.take(k), st) is Err,
    ensures
        spec_vars_declarations(ds, st) == spec_vars_declarations(ds.take(k), st),
    decreases ds.len() - k,
{
    if k < ds.len() {
        assert(ds.take(k + 1).drop_last() =~= ds.take(k));
        lemma_vars_declarations_error(ds, k + 1, st);
    } else {
        assert(ds.take(k) =~= ds);
    }
}

/// Gives every variable declared in a function a fresh name, with one scope
/// for the whole program, and points every use of a variable at it; fresh
/// names are numbered from 0.
pub fn resolve_variables(program: Program) -> (r: Result<Program, SemanticError>)
    ensures
        semantic_outcome(r, spec_resolve_variables(program@)),
{
    let mut counter: usize = 0;
    resolve_variables_numbered(program, &mut counter)
}

/// Variable resolution with fresh names numbered from `counter` on; the
/// counter is left after the last number taken, for the next program.
#[verifier::loop_isolation(false)]
pub fn resolve_variables_numbered(program: Program, counter: &mut usize) -> (r: Result<
    Program,
    SemanticError,
>)
    ensures
        match spec_resolve_variables_from(program@, *old(counter)) {
            Ok((q, c)) => r matches Ok(x) && x@ == q && *final(counter) == c,
            Err(e) => r matches Err(x) && x@ == e,
        },
{
    let ghost orig = program;
    let mut names: NameMap<String> = NameMap::new();
    let ghost st0 = var_state(names, *counter);
    proof {
        lemma_declarations_view_index(orig.0@);
        assert(orig@.take(0) =~= seq![]);
        assert(st0 == VarState { names: Map::empty(), counter: *counter });
    }
    let Program(declarations) = program;
    let mut out: Vec<Declaration> = Vec::new();
    for d in it: declarations
        invariant
            it.seq() == orig.0@,
            it.index() <= orig.0@.len(),
            spec_vars_declarations(orig@.take(it.index() as int), st0) == VarResult::<
                Seq<DeclarationView>,
            >::Ok((declarations_view(out@), var_state(names, *counter))),
    {
        let ghost i = it.index();
        proof {
            assert(d == orig.0@[i as int]);
            assert(orig@.take(i + 1).drop_last() =~= orig@.take(i as int));
        }
        let x = match d.resolve_variables(&mut names, counter) {
            Ok(x) => x,
            Err(e) => {
                proof {
                    lemma_vars_declarations_error(orig@, i + 1, st0);
                }
                return Err(e);
            },
        };
        proof {
            lemma_declarations_view_push(out@, x);
        }
        out.push(x);
    }
    proof {
        assert(orig@.take(orig@.len() as int) =~= orig@);
    }
    Ok(Program(out))
}

} // verus!
