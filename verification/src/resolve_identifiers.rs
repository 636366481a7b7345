//! Identifier resolution: every variable declared in a block gets a fresh
//! name, every use of a name is pointed at the declaration in scope, and
//! conflicting declarations in one scope are refused.
use vstd::prelude::*;

use crate::name_map::{map_of, NameMap};
use crate::names::{bump, bump_count, numbered, numbered_name};
use crate::parser::{
    block_items_view, declarations_view, lemma_block_items_view_index,
    lemma_block_items_view_push, lemma_declarations_view_index, lemma_declarations_view_push,
    lemma_typed_expressions_view_index, lemma_typed_expressions_view_push, strings_view,
    typed_expressions_view, ArgumentList, Block, BlockItem, BlockItemView, Declaration,
    DeclarationView, Expression, ExpressionView, Factor, FactorView, ForInit, ForInitView,
    FuncDeclaration, FuncDeclarationView, ParamList, Postfix, PostfixView, Primary,
    PrimaryView, Program, Statement, StatementView, StorageClass, TypedExpression,
    TypedExpressionView, VariableDeclaration, VariableDeclarationView,
};
use crate::semantic_analysis::{semantic_outcome, SemanticError, SemanticErrorView};

verus! {

/// What a name in scope stands for: the name it was given, whether it was
/// declared in the innermost scope, and whether it has linkage.
pub struct InfoView {
    pub unique_name: Seq<char>,
    pub from_current_scope: bool,
    pub has_linkage: bool,
}

/// The names in scope, and whether the scope is the file's.
pub struct ResolverView {
    pub map: Map<Seq<char>, InfoView>,
    pub file_scope: bool,
}

pub type Scope = Map<Seq<char>, InfoView>;

/// The fresh name of a block-scope variable.
pub open spec fn variable_name(name: Seq<char>, id: usize) -> Seq<char> {
    numbered("var_"@, name, id as nat)
}

/// The scope seen from a block nested in `m`: the same names, none of them
/// declared in the new scope.
pub open spec fn outer_scope(m: Scope) -> Scope {
    Map::new(
        |k: Seq<char>| m.contains_key(k),
        |k: Seq<char>| InfoView { from_current_scope: false, ..m[k] },
    )
}

pub open spec fn new_scope(r: ResolverView) -> ResolverView {
    ResolverView { map: outer_scope(r.map), file_scope: false }
}

pub open spec fn is_extern(sc: Option<StorageClass>) -> bool {
    sc == Some(StorageClass::Extern)
}

pub type DeclareResult = Result<(Seq<char>, ResolverView, usize), SemanticErrorView>;

pub open spec fn spec_declare_variable(
    r: ResolverView,
    id: Seq<char>,
    sc: Option<StorageClass>,
    c: usize,
) -> DeclareResult {
    if r.file_scope {
        Ok(
            (
                id,
                ResolverView {
                    map: r.map.insert(
                        id,
                        InfoView { unique_name: id, from_current_scope: true, has_linkage: true },
                    ),
                    ..r
                },
                c,
            ),
        )
    } else if r.map.contains_key(id) && r.map[id].from_current_scope && !(r.map[id].has_linkage
        && is_extern(sc)) {
        Err(SemanticErrorView::ConflictingLocalDeclarations(id))
    } else if is_extern(sc) {
        Ok(
            (
                id,
                ResolverView {
                    map: r.map.insert(
                        id,
                        InfoView { unique_name: id, from_current_scope: true, has_linkage: true },
                    ),
                    ..r
                },
                c,
            ),
        )
    } else {
        let u = variable_name(id, c);
        Ok(
            (
                u,
                ResolverView {
                    map: r.map.insert(
                        id,
                        InfoView { unique_name: u, from_current_scope: true, has_linkage: false },
                    ),
                    ..r
                },
                bump(c),
            ),
        )
    }
}

pub open spec fn spec_declare_function(
    r: ResolverView,
    id: Seq<char>,
    has_body: bool,
    sc: Option<StorageClass>,
) -> Result<ResolverView, SemanticErrorView> {
    if !r.file_scope && has_body {
        Err(SemanticErrorView::FunctionBodyInDeclaration)
    } else if !r.file_scope && sc == Some(StorageClass::Static) {
        Err(SemanticErrorView::InvalidStorageClass(id))
    } else if r.map.contains_key(id) && r.map[id].from_current_scope && !r.map[id].has_linkage {
        Err(SemanticErrorView::IdentifierAlreadyDeclared(id))
    } else {
        Ok(
            ResolverView {
                map: r.map.insert(
                    id,
                    InfoView { unique_name: id, from_current_scope: true, has_linkage: true },
                ),
                ..r
            },
        )
    }
}

pub open spec fn spec_resolve_name(m: Scope, id: Seq<char>) -> Result<Seq<char>, SemanticErrorView> {
    if m.contains_key(id) {
        Ok(m[id].unique_name)
    } else {
        Err(SemanticErrorView::IdentifierNotDeclared(id))
    }
}

pub open spec fn spec_ident_expression(e: TypedExpressionView, m: Scope) -> Result<
    TypedExpressionView,
    SemanticErrorView,
>
    decreases e, 3nat,
{
    match e.expression {
        ExpressionView::Factor(f) => match spec_ident_factor(f, m) {
            Ok(f2) => Ok(TypedExpressionView { expression: ExpressionView::Factor(f2), ..e }),
            Err(x) => Err(x),
        },
        ExpressionView::BinaryOp { op, left, right } => match spec_ident_expression(*left, m) {
            Ok(l) => match spec_ident_expression(*right, m) {
                Ok(r) => Ok(
                    TypedExpressionView {
                        expression: ExpressionView::BinaryOp {
                            op,
                            left: Box::new(l),
                            right: Box::new(r),
                        },
                        ..e
                    },
                ),
                Err(x) => Err(x),
            },
            Err(x) => Err(x),
        },
        ExpressionView::Assignment { left, right } => match spec_ident_expression(*left, m) {
            Ok(l) => match spec_ident_expression(*right, m) {
                Ok(r) => Ok(
                    TypedExpressionView {
                        expression: ExpressionView::Assignment {
                            left: Box::new(l),
                            right: Box::new(r),
                        },
                        ..e
                    },
                ),
                Err(x) => Err(x),
            },
            Err(x) => Err(x),
        },
        ExpressionView::Conditional { condition, then_branch, else_branch } =>
            match spec_ident_expression(*condition, m) {
            Ok(c) => match spec_ident_expression(*then_branch, m) {
                Ok(t) => match spec_ident_expression(*else_branch, m) {
                    Ok(f) => Ok(
                        TypedExpressionView {
                            expression: ExpressionView::Conditional {
                                condition: Box::new(c),
                                then_branch: Box::new(t),
                                else_branch: Box::new(f),
                            },
                            ..e
                        },
                    ),
                    Err(x) => Err(x),
                },
                Err(x) => Err(x),
            },
            Err(x) => Err(x),
        },
    }
}

pub open spec fn spec_ident_factor(f: FactorView, m: Scope) -> Result<FactorView, SemanticErrorView>
    decreases f, 2nat,
{
    match f {
        FactorView::UnaryOp { op, fac } => match spec_ident_factor(*fac, m) {
            Ok(g) => Ok(FactorView::UnaryOp { op, fac: Box::new(g) }),
            Err(x) => Err(x),
        },
        FactorView::Postfix(p) => match spec_ident_primary(p.primary, m) {
            Ok(q) => Ok(FactorView::Postfix(PostfixView { primary: q, postfix: p.postfix })),
            Err(x) => Err(x),
        },
        FactorView::Cast { ty, fac } => match spec_ident_factor(*fac, m) {
            Ok(g) => Ok(FactorView::Cast { ty, fac: Box::new(g) }),
            Err(x) => Err(x),
        },
    }
}

pub open spec fn spec_ident_primary(p: PrimaryView, m: Scope) -> Result<PrimaryView, SemanticErrorView>
    decreases p, 1nat,
{
    match p {
        PrimaryView::Var(id) => match spec_resolve_name(m, id) {
            Ok(u) => Ok(PrimaryView::Var(u)),
            Err(x) => Err(x),
        },
        PrimaryView::Paren(e) => match spec_ident_expression(*e, m) {
            Ok(e2) => Ok(PrimaryView::Paren(Box::new(e2))),
            Err(x) => Err(x),
        },
        PrimaryView::Constant(_) => Ok(p),
        PrimaryView::FunctionCall(name, args) => match spec_resolve_name(m, name) {
            Ok(u) => match spec_ident_arguments(args, m) {
                Ok(a) => Ok(PrimaryView::FunctionCall(u, a)),
                Err(x) => Err(x),
            },
            Err(x) => Err(x),
        },
    }
}

pub open spec fn spec_ident_arguments(args: Seq<TypedExpressionView>, m: Scope) -> Result<
    Seq<TypedExpressionView>,
    SemanticErrorView,
>
    decreases args, args.len(),
{
    if args.len() == 0 {
        Ok(seq![])
    } else {
        match spec_ident_arguments(args.drop_last(), m) {
            Ok(done) => match spec_ident_expression(args.last(), m) {
                Ok(x) => Ok(done.push(x)),
                Err(e) => Err(e),
            },
            Err(e) => Err(e),
        }
    }
}

pub open spec fn spec_ident_optional(e: Option<TypedExpressionView>, m: Scope) -> Result<
    Option<TypedExpressionView>,
    SemanticErrorView,
> {
    match e {
        Some(x) => match spec_ident_expression(x, m) {
            Ok(y) => Ok(Some(y)),
            Err(err) => Err(err),
        },
        None => Ok(None),
    }
}

pub type IdentResult<T> = Result<(T, ResolverView, usize), SemanticErrorView>;

/// The initialiser sees the variable it initialises.
pub open spec fn spec_ident_variable(v: VariableDeclarationView, r: ResolverView, c: usize) -> IdentResult<
    VariableDeclarationView,
> {
    match spec_declare_variable(r, v.identifier, v.storage_class, c) {
        Ok((u, r1, c1)) => match spec_ident_optional(v.initialiser, r1.map) {
            Ok(init) => Ok(
                (VariableDeclarationView { identifier: u, initialiser: init, ..v }, r1, c1),
            ),
            Err(x) => Err(x),
        },
        Err(x) => Err(x),
    }
}

/// Parameters are declared one after the other in the function's own scope.
pub open spec fn spec_ident_params(ps: Seq<Seq<char>>, r: ResolverView, c: usize) -> IdentResult<
    Seq<Seq<char>>,
>
    decreases ps.len(),
{
    if ps.len() == 0 {
        Ok((seq![], r, c))
    } else {
        match spec_ident_params(ps.drop_last(), r, c) {
            Ok((done, r1, c1)) => match spec_declare_variable(r1, ps.last(), None, c1) {
                Ok((u, r2, c2)) => Ok((done.push(u), r2, c2)),
                Err(x) => Err(x),
            },
            Err(x) => Err(x),
        }
    }
}

pub open spec fn spec_ident_function(f: FuncDeclarationView, r: ResolverView, c: usize) -> IdentResult<
    FuncDeclarationView,
>
    decreases f, 1nat,
{
    match spec_declare_function(r, f.identifier, f.body is Some, f.storage_class) {
        Ok(r1) => match spec_ident_params(f.parameters, new_scope(r1), c) {
            Ok((ps, inner, c1)) => match f.body {
                Some(b) => match spec_ident_items(b, inner, c1) {
                    Ok((b2, _, c2)) => Ok(
                        (
                            FuncDeclarationView { parameters: ps, body: Some(b2), ..f },
                            r1,
                            c2,
                        ),
                    ),
                    Err(x) => Err(x),
                },
                None => Ok((FuncDeclarationView { parameters: ps, body: None, ..f }, r1, c1)),
            },
            Err(x) => Err(x),
        },
        Err(x) => Err(x),
    }
}

/// A declaration inside a block: a function there may not have a body.
pub open spec fn spec_ident_local_declaration(d: DeclarationView, r: ResolverView, c: usize) -> IdentResult<
    DeclarationView,
>
    decreases d, 2nat,
{
    match d {
        DeclarationView::Variable(v) => match spec_ident_variable(v, r, c) {
            Ok((v2, r2, c2)) => Ok((DeclarationView::Variable(v2), r2, c2)),
            Err(x) => Err(x),
        },
        DeclarationView::Function(f) => {
            if f.body is Some {
                Err(SemanticErrorView::FunctionBodyInDeclaration)
            } else {
                match spec_ident_function(f, r, c) {
                    Ok((f2, r2, c2)) => Ok((DeclarationView::Function(f2), r2, c2)),
                    Err(x) => Err(x),
                }
            }
        },
    }
}

pub open spec fn spec_ident_statement(s: StatementView, r: ResolverView, c: usize) -> Result<
    (StatementView, usize),
    SemanticErrorView,
>
    decreases s, 0nat,
{
    match s {
        StatementView::Return(e) => match spec_ident_expression(e, r.map) {
            Ok(e2) => Ok((StatementView::Return(e2), c)),
            Err(x) => Err(x),
        },
        StatementView::Expression(e) => match spec_ident_expression(e, r.map) {
            Ok(e2) => Ok((StatementView::Expression(e2), c)),
            Err(x) => Err(x),
        },
        StatementView::If { condition, then_branch, else_branch } => match spec_ident_expression(
            condition,
            r.map,
        ) {
            Ok(cond) => match spec_ident_statement(*then_branch, r, c) {
                Ok((t, c1)) => match else_branch {
                    None => Ok(
                        (
                            StatementView::If {
                                condition: cond,
                                then_branch: Box::new(t),
                                else_branch: None,
                            },
                            c1,
                        ),
                    ),
                    Some(e) => match spec_ident_statement(*e, r, c1) {
                        Ok((e2, c2)) => Ok(
                            (
                                StatementView::If {
                                    condition: cond,
                                    then_branch: Box::new(t),
                                    else_branch: Some(Box::new(e2)),
                                },
                                c2,
                            ),
                        ),
                        Err(x) => Err(x),
                    },
                },
                Err(x) => Err(x),
            },
            Err(x) => Err(x),
        },
        StatementView::Block(items) => match spec_ident_items(items, new_scope(r), c) {
            Ok((b, _, c1)) => Ok((StatementView::Block(b), c1)),
            Err(x) => Err(x),
        },
        StatementView::Labeled(l, body) => match spec_ident_statement(*body, r, c) {
            Ok((b, c1)) => Ok((StatementView::Labeled(l, Box::new(b)), c1)),
            Err(x) => Err(x),
        },
        StatementView::While { condition, body, label } => match spec_ident_expression(
            condition,
            r.map,
        ) {
            Ok(cond) => match spec_ident_statement(*body, r, c) {
                Ok((b, c1)) => Ok(
                    (StatementView::While { condition: cond, body: Box::new(b), label }, c1),
                ),
                Err(x) => Err(x),
            },
            Err(x) => Err(x),
        },
        StatementView::DoWhile { body, condition, label } => match spec_ident_statement(*body, r, c) {
            Ok((b, c1)) => match spec_ident_expression(condition, r.map) {
                Ok(cond) => Ok(
                    (StatementView::DoWhile { body: Box::new(b), condition: cond, label }, c1),
                ),
                Err(x) => Err(x),
            },
            Err(x) => Err(x),
        },
        StatementView::For { init, condition, post, body, label } => {
            let inner = new_scope(r);
            match spec_ident_for_init(init, inner, c) {
                Ok((i2, r1, c1)) => match spec_ident_optional(condition, r1.map) {
                    Ok(cond) => match spec_ident_optional(post, r1.map) {
                        Ok(p) => match spec_ident_statement(*body, r1, c1) {
                            Ok((b, c2)) => Ok(
                                (
                                    StatementView::For {
                                        init: i2,
                                        condition: cond,
                                        post: p,
                                        body: Box::new(b),
                                        label,
                                    },
                                    c2,
                                ),
                            ),
                            Err(x) => Err(x),
                        },
                        Err(x) => Err(x),
                    },
                    Err(x) => Err(x),
                },
                Err(x) => Err(x),
            }
        },
        StatementView::Case(e, body, l) => match spec_ident_expression(e, r.map) {
            Ok(e2) => match spec_ident_statement(*body, r, c) {
                Ok((b, c1)) => Ok((StatementView::Case(e2, Box::new(b), l), c1)),
                Err(x) => Err(x),
            },
            Err(x) => Err(x),
        },
        StatementView::Default(body, l) => match spec_ident_statement(*body, r, c) {
            Ok((b, c1)) => Ok((StatementView::Default(Box::new(b), l), c1)),
            Err(x) => Err(x),
        },
        StatementView::Switch { condition, body, label, cases, default_exists } =>
            match spec_ident_expression(condition, r.map) {
            Ok(cond) => match spec_ident_statement(*body, r, c) {
                Ok((b, c1)) => Ok(
                    (
                        StatementView::Switch {
                            condition: cond,
                            body: Box::new(b),
                            label,
                            cases,
                            default_exists,
                        },
                        c1,
                    ),
                ),
                Err(x) => Err(x),
            },
            Err(x) => Err(x),
        },
        _ => Ok((s, c)),
    }
}

pub open spec fn spec_ident_for_init(init: ForInitView, r: ResolverView, c: usize) -> IdentResult<
    ForInitView,
> {
    match init {
        ForInitView::Declaration(d) => match spec_ident_variable(d, r, c) {
            Ok((d2, r2, c2)) => Ok((ForInitView::Declaration(d2), r2, c2)),
            Err(x) => Err(x),
        },
        ForInitView::Expression(e) => match spec_ident_optional(e, r.map) {
            Ok(e2) => Ok((ForInitView::Expression(e2), r, c)),
            Err(x) => Err(x),
        },
    }
}

pub open spec fn spec_ident_item(item: BlockItemView, r: ResolverView, c: usize) -> IdentResult<
    BlockItemView,
>
    decreases item, 3nat,
{
    match item {
        BlockItemView::Statement(s) => match spec_ident_statement(s, r, c) {
            Ok((s2, c2)) => Ok((BlockItemView::Statement(s2), r, c2)),
            Err(x) => Err(x),
        },
        BlockItemView::Declaration(d) => match spec_ident_local_declaration(d, r, c) {
            Ok((d2, r2, c2)) => Ok((BlockItemView::Declaration(d2), r2, c2)),
            Err(x) => Err(x),
        },
    }
}

pub open spec fn spec_ident_items(items: Seq<BlockItemView>, r: ResolverView, c: usize) -> IdentResult<
    Seq<BlockItemView>,
>
    decreases items, items.len(),
{
    if items.len() == 0 {
        Ok((seq![], r, c))
    } else {
        match spec_ident_items(items.drop_last(), r, c) {
            Ok((done, r1, c1)) => match spec_ident_item(items.last(), r1, c1) {
                Ok((x, r2, c2)) => Ok((done.push(x), r2, c2)),
                Err(e) => Err(e),
            },
            Err(e) => Err(e),
        }
    }
}

pub open spec fn spec_ident_top_declaration(d: DeclarationView, r: ResolverView, c: usize) -> IdentResult<
    DeclarationView,
> {
    match d {
        DeclarationView::Variable(v) => match spec_ident_variable(v, r, c) {
            Ok((v2, r2, c2)) => Ok((DeclarationView::Variable(v2), r2, c2)),
            Err(x) => Err(x),
        },
        DeclarationView::Function(f) => match spec_ident_function(f, r, c) {
            Ok((f2, r2, c2)) => Ok((DeclarationView::Function(f2), r2, c2)),
            Err(x) => Err(x),
        },
    }
}

pub open spec fn spec_ident_declarations(ds: Seq<DeclarationView>, r: ResolverView, c: usize) -> IdentResult<
    Seq<DeclarationView>,
>
    decreases ds.len(),
{
    if ds.len() == 0 {
        Ok((seq![], r, c))
    } else {
        match spec_ident_declarations(ds.drop_last(), r, c) {
            Ok((done, r1, c1)) => match spec_ident_top_declaration(ds.last(), r1, c1) {
                Ok((x, r2, c2)) => Ok((done.push(x), r2, c2)),
                Err(e) => Err(e),
            },
            Err(e) => Err(e),
        }
    }
}

/// The resolver at the start: the file scope, with nothing declared.
pub open spec fn initial_resolver() -> ResolverView {
    ResolverView { map: Map::empty(), file_scope: true }
}

/// The program with every identifier resolved, or the first error found.
pub open spec fn spec_resolve_identifiers(p: Seq<DeclarationView>) -> Result<
    Seq<DeclarationView>,
    SemanticErrorView,
> {
    match spec_resolve_identifiers_from(p, 0) {
        Ok((q, _)) => Ok(q),
        Err(e) => Err(e),
    }
}

/// The program with every identifier resolved, fresh names numbered from
/// `counter` on, and the counter after the last one; or the first error.
pub open spec fn spec_resolve_identifiers_from(p: Seq<DeclarationView>, counter: usize) -> Result<
    (Seq<DeclarationView>, usize),
    SemanticErrorView,
> {
    match spec_ident_declarations(p, initial_resolver(), counter) {
        Ok((q, _, c)) => Ok((q, c)),
        Err(e) => Err(e),
    }
}


pub struct IdentifierInfo {
    pub unique_name: String,
    pub from_current_scope: bool,
    pub has_linkage: bool,
}

impl View for IdentifierInfo {
    type V = InfoView;

    open spec fn view(&self) -> InfoView {
        InfoView {
            unique_name: self.unique_name@,
            from_current_scope: self.from_current_scope,
            has_linkage: self.has_linkage,
        }
    }
}

impl IdentifierInfo {
    /// The same binding, seen from a nested scope.
    pub fn new_scope(&self) -> (r: IdentifierInfo)
        ensures
            r@ == (InfoView { from_current_scope: false, ..self@ }),
    {
        IdentifierInfo {
            unique_name: self.unique_name.clone(),
            from_current_scope: false,
            has_linkage: self.has_linkage,
        }
    }
}

pub struct IdentifierResolver {
    pub identifier_map: NameMap<IdentifierInfo>,
    pub file_scope: bool,
}

impl View for IdentifierResolver {
    type V = ResolverView;

    open spec fn view(&self) -> ResolverView {
        ResolverView { map: self.identifier_map@, file_scope: self.file_scope }
    }
}

/// `r` and the counter `after` are what `expected` says.
pub open spec fn counted_outcome<T: View>(
    r: Result<T, SemanticError>,
    expected: Result<(T::V, usize), SemanticErrorView>,
    after: usize,
) -> bool {
    match expected {
        Ok((v, c)) => r matches Ok(x) && x@ == v && after == c,
        Err(e) => r matches Err(x) && x@ == e,
    }
}

/// `r`, the resolver `r_after` and the counter `c_after` are what `expected`
/// says.
pub open spec fn ident_outcome<T: View>(
    r: Result<T, SemanticError>,
    expected: IdentResult<T::V>,
    r_after: ResolverView,
    c_after: usize,
) -> bool {
    match expected {
        Ok((v, r2, c2)) => r matches Ok(x) && x@ == v && r_after == r2 && c_after == c2,
        Err(e) => r matches Err(x) && x@ == e,
    }
}

impl IdentifierResolver {
    pub fn new() -> (r: IdentifierResolver)
        ensures
            r@ == initial_resolver(),
    {
        IdentifierResolver { identifier_map: NameMap::new(), file_scope: true }
    }

    /// The resolver for a scope nested in this one.
    pub fn new_scope(&self) -> (r: IdentifierResolver)
        ensures
            r@ == new_scope(self@),
    {
        let mut m: NameMap<IdentifierInfo> = NameMap::new();
        let n = self.identifier_map.entries.len();
        let mut i: usize = 0;
        proof {
            assert(self.identifier_map.entries@.take(0) =~= seq![]);
            assert(m@ =~= outer_scope(map_of(self.identifier_map.entries@.take(0))));
        }
        while i < n
            invariant
                n == self.identifier_map.entries.len(),
                i <= n,
                m@ == outer_scope(map_of(self.identifier_map.entries@.take(i as int))),
            decreases n - i,
        {
            let k = self.identifier_map.entries[i].0.clone();
            let info = self.identifier_map.entries[i].1.new_scope();
            proof {
                let s = self.identifier_map.entries@;
                assert(s.take(i + 1).drop_last() =~= s.take(i as int));
                let prev = map_of(s.take(i as int));
                assert(outer_scope(prev.insert(k@, s[i as int].1@)) =~= outer_scope(prev).insert(
                    k@,
                    info@,
                ));
            }
            m.insert(k, info);
            i = i + 1;
        }
        proof {
            assert(self.identifier_map.entries@.take(n as int) =~= self.identifier_map.entries@);
        }
        IdentifierResolver { identifier_map: m, file_scope: false }
    }

    pub fn resolve_identifier(&self, identifier: String) -> (r: Result<String, SemanticError>)
        ensures
            semantic_outcome(r, spec_resolve_name(self@.map, identifier@)),
    {
        match self.identifier_map.get(&identifier) {
            Some(info) => Ok(info.unique_name.clone()),
            None => Err(SemanticError::IdentifierNotDeclared(identifier)),
        }
    }

    pub fn declare_variable(
        &mut self,
        identifier: String,
        storage_class: Option<StorageClass>,
        counter: &mut usize,
    ) -> (r: Result<String, SemanticError>)
        ensures
            match spec_declare_variable(old(self)@, identifier@, storage_class, *old(counter)) {
                Ok((u, r1, c1)) => r matches Ok(x) && x@ == u && final(self)@ == r1
                    && *final(counter) == c1,
                Err(e) => r matches Err(x) && x@ == e,
            },
            r is Err ==> final(self)@ == old(self)@ && *final(counter) == *old(counter),
    {
        let is_extern = match storage_class {
            Some(StorageClass::Extern) => true,
            _ => false,
        };
        if self.file_scope {
            self.identifier_map.insert(
                identifier.clone(),
                IdentifierInfo {
                    unique_name: identifier.clone(),
                    from_current_scope: true,
                    has_linkage: true,
                },
            );
            return Ok(identifier);
        }
        match self.identifier_map.get(&identifier) {
            Some(prev) => {
                if prev.from_current_scope && !(prev.has_linkage && is_extern) {
                    return Err(SemanticError::ConflictingLocalDeclarations(identifier));
                }
            },
            None => {},
        }
        if is_extern {
            self.identifier_map.insert(
                identifier.clone(),
                IdentifierInfo {
                    unique_name: identifier.clone(),
                    from_current_scope: true,
                    has_linkage: true,
                },
            );
            Ok(identifier)
        } else {
            let unique_name = numbered_name("var_", identifier.as_str(), *counter);
            *counter = bump_count(*counter);
            self.identifier_map.insert(
                identifier,
                IdentifierInfo {
                    unique_name: unique_name.clone(),
                    from_current_scope: true,
                    has_linkage: false,
                },
            );
            Ok(unique_name)
        }
    }

    pub fn declare_function(
        &mut self,
        identifier: String,
        has_body: bool,
        storage_class: Option<StorageClass>,
    ) -> (r: Result<String, SemanticError>)
        ensures
            match spec_declare_function(old(self)@, identifier@, has_body, storage_class) {
                Ok(r1) => r matches Ok(x) && x@ == identifier@ && final(self)@ == r1,
                Err(e) => r matches Err(x) && x@ == e,
            },
            r is Err ==> final(self)@ == old(self)@,
    {
        if !self.file_scope {
            if has_body {
                return Err(SemanticError::FunctionBodyInDeclaration);
            }
            if storage_class == Some(StorageClass::Static) {
                return Err(SemanticError::InvalidStorageClass(identifier));
            }
        }
        match self.identifier_map.get(&identifier) {
            Some(prev) => {
                if prev.from_current_scope && !prev.has_linkage {
                    return Err(SemanticError::IdentifierAlreadyDeclared(identifier));
                }
            },
            None => {},
        }
        self.identifier_map.insert(
            identifier.clone(),
            IdentifierInfo {
                unique_name: identifier.clone(),
                from_current_scope: true,
                has_linkage: true,
            },
        );
        Ok(identifier)
    }
}


impl TypedExpression {
    fn resolve_identifiers(self, resolver: &IdentifierResolver) -> (r: Result<
        TypedExpression,
        SemanticError,
    >)
        ensures
            semantic_outcome(r, spec_ident_expression(self@, resolver@.map)),
        decreases self, 3nat,
    {
        let TypedExpression { expression, ty } = self;
        let e = match expression {
            Expression::Factor(f) => Expression::Factor(f.resolve_identifiers(resolver)?),
            Expression::BinaryOp { op, left, right } => {
                let l = (*left).resolve_identifiers(resolver)?;
                let r = (*right).resolve_identifiers(resolver)?;
                Expression::BinaryOp { op, left: Box::new(l), right: Box::new(r) }
            },
            Expression::Assignment { left, right } => {
                let l = (*left).resolve_identifiers(resolver)?;
                let r = (*right).resolve_identifiers(resolver)?;
                Expression::Assignment { left: Box::new(l), right: Box::new(r) }
            },
            Expression::Conditional { condition, then_branch, else_branch } => {
                let c = (*condition).resolve_identifiers(resolver)?;
                let t = (*then_branch).resolve_identifiers(resolver)?;
                let f = (*else_branch).resolve_identifiers(resolver)?;
                Expression::Conditional {
                    condition: Box::new(c),
                    then_branch: Box::new(t),
                    else_branch: Box::new(f),
                }
            },
        };
        Ok(TypedExpression { expression: e, ty })
    }
}

fn resolve_optional(e: Option<TypedExpression>, resolver: &IdentifierResolver) -> (r: Result<
    Option<TypedExpression>,
    SemanticError,
>)
    ensures
        match spec_ident_optional(
            match e {
                Some(x) => Some(x@),
                None => None,
            },
            resolver@.map,
        ) {
            Ok(v) => r matches Ok(x) && match x {
                Some(y) => v == Some(y@),
                None => v is None,
            },
            Err(err) => r matches Err(x) && x@ == err,
        },
{
    match e {
        Some(x) => Ok(Some(x.resolve_identifiers(resolver)?)),
        None => Ok(None),
    }
}

impl Factor {
    fn resolve_identifiers(self, resolver: &IdentifierResolver) -> (r: Result<
        Factor,
        SemanticError,
    >)
        ensures
            semantic_outcome(r, spec_ident_factor(self@, resolver@.map)),
        decreases self, 2nat,
    {
        let ghost sv = self@;
        match self {
            Factor::UnaryOp { op, fac } => {
                assert(sv == FactorView::UnaryOp { op, fac: Box::new((*fac)@) });
                let g = (*fac).resolve_identifiers(resolver)?;
                Ok(Factor::UnaryOp { op, fac: Box::new(g) })
            },
            Factor::Postfix(p) => {
                assert(sv == FactorView::Postfix(p@));
                let Postfix { primary, postfix } = p;
                let ghost pf = postfix@;
                let q = primary.resolve_identifiers(resolver)?;
                let np = Postfix { primary: q, postfix };
                assert(np@ == PostfixView { primary: q@, postfix: pf });
                Ok(Factor::Postfix(np))
            },
            Factor::Cast { ty, fac } => {
                assert(sv == FactorView::Cast { ty: ty@, fac: Box::new((*fac)@) });
                let g = (*fac).resolve_identifiers(resolver)?;
                Ok(Factor::Cast { ty, fac: Box::new(g) })
            },
        }
    }
}

impl Primary {
    fn resolve_identifiers(self, resolver: &IdentifierResolver) -> (r: Result<
        Primary,
        SemanticError,
    >)
        ensures
            semantic_outcome(r, spec_ident_primary(self@, resolver@.map)),
        decreases self, 1nat,
    {
        match self {
            Primary::Var(identifier) => Ok(Primary::Var(resolver.resolve_identifier(identifier)?)),
            Primary::Paren(e) => Ok(Primary::Paren(Box::new((*e).resolve_identifiers(resolver)?))),
            Primary::Constant(v) => Ok(Primary::Constant(v)),
            Primary::FunctionCall(name, arguments) => {
                let resolved = resolver.resolve_identifier(name)?;
                let args = arguments.resolve_identifiers(resolver)?;
                Ok(Primary::FunctionCall(resolved, args))
            },
        }
    }
}

proof fn lemma_ident_arguments_error(args: Seq<TypedExpressionView>, k: int, m: Scope)
    requires
        0 <= k <= args.len(),
        spec_ident_arguments(args.take(k), m) is Err,
    ensures
        spec_ident_arguments(args, m) == spec_ident_arguments(args.take(k), m),
    decreases args.len() - k,
{
    if k < args.len() {
        assert(args.take(k + 1).drop_last() =~= args.take(k));
        lemma_ident_arguments_error(args, k + 1, m);
    } else {
        assert(args.take(k) =~= args);
    }
}

impl ArgumentList {
    #[verifier::loop_isolation(false)]
    fn resolve_identifiers(self, resolver: &IdentifierResolver) -> (r: Result<
        ArgumentList,
        SemanticError,
    >)
        ensures
            semantic_outcome(r, spec_ident_arguments(self@, resolver@.map)),
        decreases self, 0nat,
    {
        let ghost orig = self;
        proof {
            lemma_typed_expressions_view_index(orig.0@);
            assert(orig@.take(0) =~= seq![]);
        }
        let ArgumentList(args) = self;
        let mut out: Vec<TypedExpression> = Vec::new();
        for a in it: args
            invariant
                it.seq() == orig.0@,
                it.index() <= orig.0@.len(),
                spec_ident_arguments(orig@.take(it.index() as int), resolver@.map) == Result::<
                    Seq<TypedExpressionView>,
                    SemanticErrorView,
                >::Ok(typed_expressions_view(out@)),
        {
            let ghost i = it.index();
            proof {
                assert(a == orig.0@[i as int]);
                assert(decreases_to!(orig => orig.0));
                assert(decreases_to!(orig.0 => orig.0@));
                assert(decreases_to!(orig.0@ => orig.0@[i as int]));
                assert(orig@.take(i + 1).drop_last() =~= orig@.take(i as int));
            }
            let x = match a.resolve_identifiers(resolver) {
                Ok(x) => x,
                Err(e) => {
                    proof {
                        lemma_ident_arguments_error(orig@, i + 1, resolver@.map);
                    }
                    return Err(e);
                },
            };
            proof {
                lemma_typed_expressions_view_push(out@, x);
            }
            out.push(x);
        }
        proof {
            assert(orig@.take(orig@.len() as int) =~= orig@);
        }
        Ok(ArgumentList(out))
    }
}


impl Statement {
    fn resolve_identifiers(self, resolver: &IdentifierResolver, counter: &mut usize) -> (r: Result<
        Statement,
        SemanticError,
    >)
        ensures
            counted_outcome(r, spec_ident_statement(self@, resolver@, *old(counter)), *final(counter)),
        decreases self, 0nat,
    {
        match self {
            Statement::Return(e) => Ok(Statement::Return(e.resolve_identifiers(resolver)?)),
            Statement::Expression(e) => Ok(Statement::Expression(e.resolve_identifiers(resolver)?)),
            Statement::If { condition, then_branch, else_branch } => {
                let c = condition.resolve_identifiers(resolver)?;
                let t = (*then_branch).resolve_identifiers(resolver, counter)?;
                let e = match else_branch {
                    Some(e) => Some(Box::new((*e).resolve_identifiers(resolver, counter)?)),
                    None => None,
                };
                Ok(Statement::If { condition: c, then_branch: Box::new(t), else_branch: e })
            },
            Statement::Block(block) => {
                let mut inner = resolver.new_scope();
                let b = block.resolve_identifiers(&mut inner, counter)?;
                Ok(Statement::Block(b))
            },
            Statement::Labeled(l, body) => {
                let b = (*body).resolve_identifiers(resolver, counter)?;
                Ok(Statement::Labeled(l, Box::new(b)))
            },
            Statement::While { condition, body, label } => {
                let c = condition.resolve_identifiers(resolver)?;
                let b = (*body).resolve_identifiers(resolver, counter)?;
                Ok(Statement::While { condition: c, body: Box::new(b), label })
            },
            Statement::DoWhile { body, condition, label } => {
                let b = (*body).resolve_identifiers(resolver, counter)?;
                let c = condition.resolve_identifiers(resolver)?;
                Ok(Statement::DoWhile { body: Box::new(b), condition: c, label })
            },
            Statement::For { init, condition, post, body, label } => {
                let mut inner = resolver.new_scope();
                let i2 = init.resolve_identifiers(&mut inner, counter)?;
                let c = resolve_optional(condition, &inner)?;
                let p = resolve_optional(post, &inner)?;
                let b = (*body).resolve_identifiers(&inner, counter)?;
                Ok(
                    Statement::For {
                        init: i2,
                        condition: c,
                        post: p,
                        body: Box::new(b),
                        label,
                    },
                )
            },
            Statement::Case(e, body, l) => {
                let e2 = e.resolve_identifiers(resolver)?;
                let b = (*body).resolve_identifiers(resolver, counter)?;
                Ok(Statement::Case(e2, Box::new(b), l))
            },
            Statement::Default(body, l) => {
                let b = (*body).resolve_identifiers(resolver, counter)?;
                Ok(Statement::Default(Box::new(b), l))
            },
            Statement::Switch { condition, body, label, cases, default_exists } => {
                let c = condition.resolve_identifiers(resolver)?;
                let b = (*body).resolve_identifiers(resolver, counter)?;
                Ok(
                    Statement::Switch {
                        condition: c,
                        body: Box::new(b),
                        label,
                        cases,
                        default_exists,
                    },
                )
            },
            Statement::Null => Ok(Statement::Null),
            Statement::Goto(l) => Ok(Statement::Goto(l)),
            Statement::Break(l) => Ok(Statement::Break(l)),
            Statement::Continue(l) => Ok(Statement::Continue(l)),
        }
    }
}

impl ForInit {
    fn resolve_identifiers(self, resolver: &mut IdentifierResolver, counter: &mut usize) -> (r:
        Result<ForInit, SemanticError>)
        ensures
            ident_outcome(
                r,
                spec_ident_for_init(self.view_of(), old(resolver)@, *old(counter)),
                final(resolver)@,
                *final(counter),
            ),
    {
        match self {
            ForInit::Declaration(d) => Ok(ForInit::Declaration(d.resolve_identifiers(resolver, counter)?)),
            ForInit::Expression(e) => Ok(ForInit::Expression(resolve_optional(e, resolver)?)),
        }
    }
}

impl View for ForInit {
    type V = ForInitView;

    open spec fn view(&self) -> ForInitView {
        self.view_of()
    }
}

impl VariableDeclaration {
    fn resolve_identifiers(self, resolver: &mut IdentifierResolver, counter: &mut usize) -> (r:
        Result<VariableDeclaration, SemanticError>)
        ensures
            ident_outcome(
                r,
                spec_ident_variable(self@, old(resolver)@, *old(counter)),
                final(resolver)@,
                *final(counter),
            ),
    {
        let VariableDeclaration { identifier, initialiser, ty, storage_class } = self;
        let identifier = resolver.declare_variable(identifier, storage_class, counter)?;
        let initialiser = resolve_optional(initialiser, resolver)?;
        Ok(VariableDeclaration { identifier, initialiser, ty, storage_class })
    }
}

#[verifier::loop_isolation(false)]
fn resolve_params(
    parameters: ParamList,
    resolver: &mut IdentifierResolver,
    counter: &mut usize,
) -> (r: Result<ParamList, SemanticError>)
    ensures
        match spec_ident_params(strings_view(parameters.0@), old(resolver)@, *old(counter)) {
            Ok((ps, r1, c1)) => r matches Ok(x) && strings_view(x.0@) == ps && final(resolver)@ == r1
                && *final(counter) == c1,
            Err(e) => r matches Err(x) && x@ == e,
        },
{
    let ghost names = strings_view(parameters.0@);
    let ghost r0 = resolver@;
    let ghost c0 = *counter;
    proof {
        assert(names.take(0) =~= seq![]);
    }
    let ParamList(params) = parameters;
    let mut out: Vec<String> = Vec::new();
    proof {
        assert(strings_view(out@) =~= seq![]);
    }
    for p in it: params
        invariant
            it.seq().map_values(|x: String| x@) == names,
            it.index() <= names.len(),
            spec_ident_params(names.take(it.index() as int), r0, c0) == IdentResult::<
                Seq<Seq<char>>,
            >::Ok((strings_view(out@), resolver@, *counter)),
    {
        let ghost i = it.index();
        proof {
            assert(names.take(i + 1).drop_last() =~= names.take(i as int));
            assert(names[i as int] == p@);
        }
        let x = match resolver.declare_variable(p, None, counter) {
            Ok(x) => x,
            Err(e) => {
                proof {
                    lemma_ident_params_error(names, i + 1, r0, c0);
                }
                return Err(e);
            },
        };
        proof {
            assert(strings_view(out@.push(x)) =~= strings_view(out@).push(x@));
        }
        out.push(x);
    }
    proof {
        assert(names.take(names.len() as int) =~= names);
    }
    Ok(ParamList(out))
}

proof fn lemma_ident_params_error(ps: Seq<Seq<char>>, k: int, r: ResolverView, c: usize)
    requires
        0 <= k <= ps.len(),
        spec_ident_params(ps.take(k), r, c) is Err,
    ensures
        spec_ident_params(ps, r, c) == spec_ident_params(ps.take(k), r, c),
    decreases ps.len() - k,
{
    if k < ps.len() {
        assert(ps.take(k + 1).drop_last() =~= ps.take(k));
        lemma_ident_params_error(ps, k + 1, r, c);
    } else {
        assert(ps.take(k) =~= ps);
    }
}

impl FuncDeclaration {
    fn resolve_identifiers(self, resolver: &mut IdentifierResolver, counter: &mut usize) -> (r:
        Result<FuncDeclaration, SemanticError>)
        ensures
            ident_outcome(
                r,
                spec_ident_function(self@, old(resolver)@, *old(counter)),
                final(resolver)@,
                *final(counter),
            ),
        decreases self, 1nat,
    {
        let ghost orig = self;
        let FuncDeclaration { identifier, parameters, body, ty, storage_class } = self;
        let identifier = resolver.declare_function(identifier, body.is_some(), storage_class)?;
        let mut inner = resolver.new_scope();
        let parameters = resolve_params(parameters, &mut inner, counter)?;
        let body = match body {
            Some(b) => {
                proof {
                    assert(decreases_to!(orig => b));
                }
                Some(b.resolve_identifiers(&mut inner, counter)?)
            },
            None => None,
        };
        Ok(FuncDeclaration { identifier, parameters, body, ty, storage_class })
    }
}

impl Declaration {
    /// A declaration inside a block.
    fn resolve_local_identifiers(self, resolver: &mut IdentifierResolver, counter: &mut usize) -> (r:
        Result<Declaration, SemanticError>)
        ensures
            ident_outcome(
                r,
                spec_ident_local_declaration(self@, old(resolver)@, *old(counter)),
                final(resolver)@,
                *final(counter),
            ),
        decreases self, 2nat,
    {
        match self {
            Declaration::Variable(v) => Ok(Declaration::Variable(v.resolve_identifiers(resolver, counter)?)),
            Declaration::Function(f) => {
                if f.body.is_some() {
                    Err(SemanticError::FunctionBodyInDeclaration)
                } else {
                    Ok(Declaration::Function(f.resolve_identifiers(resolver, counter)?))
                }
            },
        }
    }

    /// A declaration at file scope.
    fn resolve_identifiers(self, resolver: &mut IdentifierResolver, counter: &mut usize) -> (r:
        Result<Declaration, SemanticError>)
        ensures
            ident_outcome(
                r,
                spec_ident_top_declaration(self@, old(resolver)@, *old(counter)),
                final(resolver)@,
                *final(counter),
            ),
    {
        match self {
            Declaration::Variable(v) => Ok(Declaration::Variable(v.resolve_identifiers(resolver, counter)?)),
            Declaration::Function(f) => Ok(Declaration::Function(f.resolve_identifiers(resolver, counter)?)),
        }
    }
}

impl BlockItem {
    fn resolve_identifiers(self, resolver: &mut IdentifierResolver, counter: &mut usize) -> (r:
        Result<BlockItem, SemanticError>)
        ensures
            ident_outcome(
                r,
                spec_ident_item(self@, old(resolver)@, *old(counter)),
                final(resolver)@,
                *final(counter),
            ),
        decreases self, 3nat,
    {
        match self {
            BlockItem::Statement(s) => Ok(BlockItem::Statement(s.resolve_identifiers(resolver, counter)?)),
            BlockItem::Declaration(d) => Ok(
                BlockItem::Declaration(d.resolve_local_identifiers(resolver, counter)?),
            ),
        }
    }
}

proof fn lemma_ident_items_error(items: Seq<BlockItemView>, k: int, r: ResolverView, c: usize)
    requires
        0 <= k <= items.len(),
        spec_ident_items(items.take(k), r, c) is Err,
    ensures
        spec_ident_items(items, r, c) == spec_ident_items(items.take(k), r, c),
    decreases items.len() - k,
{
    if k < items.len() {
        assert(items.take(k + 1).drop_last() =~= items.take(k));
        lemma_ident_items_error(items, k + 1, r, c);
    } else {
        assert(items.take(k) =~= items);
    }
}

impl Block {
    #[verifier::loop_isolation(false)]
    fn resolve_identifiers(self, resolver: &mut IdentifierResolver, counter: &mut usize) -> (r:
        Result<Block, SemanticError>)
        ensures
            ident_outcome(
                r,
                spec_ident_items(self@, old(resolver)@, *old(counter)),
                final(resolver)@,
                *final(counter),
            ),
        decreases self, 4nat,
    {
        let ghost orig = self;
        let ghost r0 = resolver@;
        let ghost c0 = *counter;
        proof {
            lemma_block_items_view_index(orig.0@);
            assert(orig@.take(0) =~= seq![]);
        }
        let Block(items) = self;
        let mut out: Vec<BlockItem> = Vec::new();
        for item in it: items
            invariant
                it.seq() == orig.0@,
                it.index() <= orig.0@.len(),
                spec_ident_items(orig@.take(it.index() as int), r0, c0) == IdentResult::<
                    Seq<BlockItemView>,
                >::Ok((block_items_view(out@), resolver@, *counter)),
        {
            let ghost i = it.index();
            proof {
                assert(item == orig.0@[i as int]);
                assert(decreases_to!(orig => orig.0));
                assert(decreases_to!(orig.0 => orig.0@));
                assert(decreases_to!(orig.0@ => orig.0@[i as int]));
                assert(orig@.take(i + 1).drop_last() =~= orig@.take(i as int));
            }
            let x = match item.resolve_identifiers(resolver, counter) {
                Ok(x) => x,
                Err(e) => {
                    proof {
                        lemma_ident_items_error(orig@, i + 1, r0, c0);
                    }
                    return Err(e);
                },
            };
            proof {
                lemma_block_items_view_push(out@, x);
            }
            out.push(x);
        }
        proof {
            assert(orig@.take(orig@.len() as int) =~= orig@);
        }
        Ok(Block(out))
    }
}

proof fn lemma_ident_declarations_error(ds: Seq<DeclarationView>, k: int, r: ResolverView, c: usize)
    requires
        0 <= k <= ds.len(),
        spec_ident_declarations(ds.take(k), r, c) is Err,
    ensures
        spec_ident_declarations(ds, r, c) == spec_ident_declarations(ds.take(k), r, c),
    decreases ds.len() - k,
{
    if k < ds.len() {
        assert(ds.take(k + 1).drop_last() =~= ds.take(k));
        lemma_ident_declarations_error(ds, k + 1, r, c);
    } else {
        assert(ds.take(k) =~= ds);
    }
}

/// Gives every block-scope variable a fresh name and points every use of a
/// name at the declaration in scope; fresh names are numbered from 0.
pub fn resolve_identifiers(program: Program) -> (r: Result<Program, SemanticError>)
    ensures
        semantic_outcome(r, spec_resolve_identifiers(program@)),
{
    let mut counter: usize = 0;
    resolve_identifiers_numbered(program, &mut counter)
}

/// Identifier resolution with fresh names numbered from `counter` on; the
/// counter is left after the last number taken, for the next program.
#[verifier::loop_isolation(false)]
pub fn resolve_identifiers_numbered(program: Program, counter: &mut usize) -> (r: Result<
    Program,
    SemanticError,
>)
    ensures
        match spec_resolve_identifiers_from(program@, *old(counter)) {
            Ok((q, c)) => r matches Ok(x) && x@ == q && *final(counter) == c,
            Err(e) => r matches Err(x) && x@ == e,
        },
{
    let ghost orig = program;
    let ghost c0 = *counter;
    let mut resolver = IdentifierResolver::new();
    proof {
        lemma_declarations_view_index(orig.0@);
        assert(orig@.take(0) =~= seq![]);
    }
    let Program(declarations) = program;
    let mut out: Vec<Declaration> = Vec::new();
    for d in it: declarations
        invariant
            it.seq() == orig.0@,
            it.index() <= orig.0@.len(),
            spec_ident_declarations(orig@.take(it.index() as int), initial_resolver(), c0) == IdentResult::<
                Seq<DeclarationView>,
            >::Ok((declarations_view(out@), resolver@, *counter)),
    {
        let ghost i = it.index();
        proof {
            assert(d == orig.0@[i as int]);
            assert(orig@.take(i + 1).drop_last() =~= orig@.take(i as int));
        }
        let x = match d.resolve_identifiers(&mut resolver, counter) {
            Ok(x) => x,
            Err(e) => {
                proof {
                    lemma_ident_declarations_error(orig@, i + 1, initial_resolver(), c0);
                }
                return Err(e);
            },
        };
        proof {
            lemma_declarations_view_push(out@, x);
        }
        out.push(x);
    }
    proof {
        assert(orig@.take(orig@.len() as int) =~= orig@);
    }
    Ok(Program(out))
}

} // verus!
