//! Loop and switch resolution: every loop and switch gets a fresh label;
//! every `break`, `continue`, `case` and `default` learns the label of the
//! construct it belongs to; case values are checked for constancy and
//! duplicates.
use vstd::prelude::*;

use crate::names::{bump, bump_count, clone_name, numbered, numbered_name};
use crate::parser::{
    block_items_view, declarations_view, lemma_block_items_view_index,
    lemma_block_items_view_push, lemma_declarations_view_index, lemma_declarations_view_push,
    opt_string_view, Block, BlockItem, BlockItemView, Declaration, DeclarationView,
    FuncDeclaration, FuncDeclarationView, Program, Statement, StatementView,
};
use crate::semantic_analysis::{
    get_expression_value, semantic_outcome, spec_expression_value, SemanticError, SemanticErrorView,
};
use crate::tacky::{loops_resolved, loops_resolved_items, loops_resolved_program};
use crate::types::Constant;

verus! {

/// What the pass carries from one statement to the next: the case values and
/// whether a `default` was seen in the innermost switch, and the counters
/// that number loops and switches.
pub struct LoopState {
    pub cases: Seq<Constant>,
    pub default_used: bool,
    pub loops: usize,
    pub switches: usize,
}

/// The enclosing constructs of a statement, by label: the innermost loop, the
/// innermost switch, and the innermost of either (what `break` leaves).
pub struct LoopContext {
    pub current_loop: Option<Seq<char>>,
    pub current_switch: Option<Seq<char>>,
    pub break_target: Option<Seq<char>>,
}

pub type LoopResult<T> = Result<(T, LoopState), SemanticErrorView>;

/// The label of the loop numbered `id` of the given kind.
pub open spec fn loop_label(kind: Seq<char>, id: usize) -> Seq<char> {
    numbered("loop_"@, kind, id as nat)
}

/// The label of the switch numbered `id`.
pub open spec fn switch_label(id: usize) -> Seq<char> {
    numbered("switch"@, ""@, id as nat)
}

/// The context inside a loop labelled `label`.
pub open spec fn in_loop(ctx: LoopContext, label: Seq<char>) -> LoopContext {
    LoopContext {
        current_loop: Some(label),
        current_switch: ctx.current_switch,
        break_target: Some(label),
    }
}

pub open spec fn spec_loops_statement(s: StatementView, ctx: LoopContext, st: LoopState) -> LoopResult<
    StatementView,
>
    decreases s, 0nat,
{
    match s {
        StatementView::Labeled(l, body) => match spec_loops_statement(*body, ctx, st) {
            Ok((b, st2)) => Ok((StatementView::Labeled(l, Box::new(b)), st2)),
            Err(e) => Err(e),
        },
        StatementView::If { condition, then_branch, else_branch } => match spec_loops_statement(
            *then_branch,
            ctx,
            st,
        ) {
            Ok((t, st1)) => match else_branch {
                None => Ok(
                    (
                        StatementView::If { condition, then_branch: Box::new(t), else_branch: None },
                        st1,
                    ),
                ),
                Some(e) => match spec_loops_statement(*e, ctx, st1) {
                    Ok((e2, st2)) => Ok(
                        (
                            StatementView::If {
                                condition,
                                then_branch: Box::new(t),
                                else_branch: Some(Box::new(e2)),
                            },
                            st2,
                        ),
                    ),
                    Err(x) => Err(x),
                },
            },
            Err(x) => Err(x),
        },
        StatementView::Break(_) => match ctx.break_target {
            Some(_) => Ok((StatementView::Break(ctx.break_target), st)),
            None => Err(SemanticErrorView::BreakNotWithinLoopOrSwitch),
        },
        StatementView::Continue(_) => match ctx.current_loop {
            None => Err(SemanticErrorView::ContinueNotWithinLoop),
            Some(_) => Ok((StatementView::Continue(ctx.current_loop), st)),
        },
        StatementView::Default(body, _) => {
            if st.default_used {
                Err(SemanticErrorView::DuplicateDefaultLabel)
            } else if ctx.current_switch is None {
                Err(SemanticErrorView::DefaultNotWithinSwitch)
            } else {
                match spec_loops_statement(*body, ctx, LoopState { default_used: true, ..st }) {
                    Ok((b, st2)) => Ok((StatementView::Default(Box::new(b), ctx.current_switch), st2)),
                    Err(x) => Err(x),
                }
            }
        },
        StatementView::Case(e, body, _) => {
            if ctx.current_switch is None {
                Err(SemanticErrorView::CaseNotWithinSwitch)
            } else {
                match spec_expression_value(e.expression) {
                    None => Err(SemanticErrorView::NonConstantExpression),
                    Some(v) => if st.cases.contains(v) {
                        Err(SemanticErrorView::DuplicateCaseValue(v))
                    } else {
                        match spec_loops_statement(
                            *body,
                            ctx,
                            LoopState { cases: st.cases.push(v), ..st },
                        ) {
                            Ok((b, st2)) => Ok(
                                (StatementView::Case(e, Box::new(b), ctx.current_switch), st2),
                            ),
                            Err(x) => Err(x),
                        }
                    },
                }
            }
        },
        StatementView::While { condition, body, label: _ } => {
            let l = loop_label("while"@, st.loops);
            match spec_loops_statement(
                *body,
                in_loop(ctx, l),
                LoopState { loops: bump(st.loops), ..st },
            ) {
                Ok((b, st2)) => Ok(
                    (StatementView::While { condition, body: Box::new(b), label: Some(l) }, st2),
                ),
                Err(x) => Err(x),
            }
        },
        StatementView::DoWhile { body, condition, label: _ } => {
            let l = loop_label("do_while"@, st.loops);
            match spec_loops_statement(
                *body,
                in_loop(ctx, l),
                LoopState { loops: bump(st.loops), ..st },
            ) {
                Ok((b, st2)) => Ok(
                    (StatementView::DoWhile { body: Box::new(b), condition, label: Some(l) }, st2),
                ),
                Err(x) => Err(x),
            }
        },
        StatementView::For { init, condition, post, body, label: _ } => {
            let l = loop_label("for"@, st.loops);
            match spec_loops_statement(
                *body,
                in_loop(ctx, l),
                LoopState { loops: bump(st.loops), ..st },
            ) {
                Ok((b, st2)) => Ok(
                    (
                        StatementView::For {
                            init,
                            condition,
                            post,
                            body: Box::new(b),
                            label: Some(l),
                        },
                        st2,
                    ),
                ),
                Err(x) => Err(x),
            }
        },
        StatementView::Switch { condition, body, .. } => {
            let l = switch_label(st.switches);
            let inner = LoopState {
                cases: seq![],
                default_used: false,
                loops: st.loops,
                switches: bump(st.switches),
            };
            let inner_ctx = LoopContext {
                current_loop: ctx.current_loop,
                current_switch: Some(l),
                break_target: Some(l),
            };
            match spec_loops_statement(*body, inner_ctx, inner) {
                Ok((b, st2)) => Ok(
                    (
                        StatementView::Switch {
                            condition,
                            body: Box::new(b),
                            label: Some(l),
                            cases: st2.cases,
                            default_exists: st2.default_used,
                        },
                        LoopState { loops: st2.loops, switches: st2.switches, ..st },
                    ),
                ),
                Err(x) => Err(x),
            }
        },
        StatementView::Block(items) => match spec_loops_items(items, ctx, st) {
            Ok((b, st2)) => Ok((StatementView::Block(b), st2)),
            Err(x) => Err(x),
        },
        _ => Ok((s, st)),
    }
}

/// The statement is refused before the pass changes anything: a `break` or
/// `continue` with nothing to leave or continue, a `case` or `default`
/// outside a switch, a case value that is not a constant or repeats one, or
/// a second `default`.
pub open spec fn refused_at_head(s: StatementView, ctx: LoopContext, st: LoopState) -> bool {
    match s {
        StatementView::Break(_) => ctx.break_target is None,
        StatementView::Continue(_) => ctx.current_loop is None,
        StatementView::Default(_, _) => st.default_used || ctx.current_switch is None,
        StatementView::Case(e, _, _) => ctx.current_switch is None || match spec_expression_value(
            e.expression,
        ) {
            None => true,
            Some(v) => st.cases.contains(v),
        },
        _ => false,
    }
}

pub open spec fn spec_loops_item(item: BlockItemView, ctx: LoopContext, st: LoopState) -> LoopResult<
    BlockItemView,
>
    decreases item, 0nat,
{
    match item {
        BlockItemView::Statement(s) => match spec_loops_statement(s, ctx, st) {
            Ok((s2, st2)) => Ok((BlockItemView::Statement(s2), st2)),
            Err(x) => Err(x),
        },
        BlockItemView::Declaration(_) => Ok((item, st)),
    }
}

/// The items of a block, each resolved in the state the one before it left.
pub open spec fn spec_loops_items(
    items: Seq<BlockItemView>,
    ctx: LoopContext,
    st: LoopState,
) -> LoopResult<Seq<BlockItemView>>
    decreases items, items.len(),
{
    if items.len() == 0 {
        Ok((seq![], st))
    } else {
        match spec_loops_items(items.drop_last(), ctx, st) {
            Ok((done, st1)) => match spec_loops_item(items.last(), ctx, st1) {
                Ok((x, st2)) => Ok((done.push(x), st2)),
                Err(e) => Err(e),
            },
            Err(e) => Err(e),
        }
    }
}


/// The loop and switch counters of the pass.
pub struct LoopCounters {
    pub loops: usize,
    pub switches: usize,
}

pub open spec fn state_of(cases: Seq<Constant>, default_used: bool, c: LoopCounters) -> LoopState {
    LoopState { cases, default_used, loops: c.loops, switches: c.switches }
}

pub open spec fn context_of(
    current_loop: Option<String>,
    current_switch: Option<String>,
    break_target: Option<String>,
) -> LoopContext {
    LoopContext {
        current_loop: opt_string_view(current_loop),
        current_switch: opt_string_view(current_switch),
        break_target: opt_string_view(break_target),
    }
}

/// `r` is what `expected` says, and `after` the state it says.
pub open spec fn loop_outcome<T: View>(
    r: Result<T, SemanticError>,
    expected: LoopResult<T::V>,
    after: LoopState,
) -> bool {
    match expected {
        Ok((v, st)) => r matches Ok(x) && x@ == v && after == st,
        Err(e) => r matches Err(x) && x@ == e,
    }
}

fn contains_constant(cases: &Vec<Constant>, v: Constant) -> (r: bool)
    ensures
        r == cases@.contains(v),
{
    let mut i: usize = 0;
    while i < cases.len()
        invariant
            i <= cases.len(),
            forall|j: int| 0 <= j < i ==> cases@[j] != v,
        decreases cases.len() - i,
    {
        if cases[i] == v {
            return true;
        }
        i = i + 1;
    }
    false
}

impl Statement {
    fn resolve_loops(
        self,
        current_loop: &Option<String>,
        current_switch: &Option<String>,
        break_target: &Option<String>,
        cases: &mut Vec<Constant>,
        default_used: &mut bool,
        counters: &mut LoopCounters,
    ) -> (r: Result<Statement, SemanticError>)
        ensures
            loop_outcome(
                r,
                spec_loops_statement(
                    self@,
                    context_of(*current_loop, *current_switch, *break_target),
                    state_of(old(cases)@, *old(default_used), *old(counters)),
                ),
                state_of(final(cases)@, *final(default_used), *final(counters)),
            ),
            refused_at_head(
                self@,
                context_of(*current_loop, *current_switch, *break_target),
                state_of(old(cases)@, *old(default_used), *old(counters)),
            ) ==> r is Err && state_of(final(cases)@, *final(default_used), *final(counters))
                == state_of(old(cases)@, *old(default_used), *old(counters)),
        decreases self, 0nat,
    {
        match self {
            Statement::Labeled(label, body) => {
                let b = (*body).resolve_loops(
                    current_loop,
                    current_switch,
                    break_target,
                    cases,
                    default_used,
                    counters,
                )?;
                Ok(Statement::Labeled(label, Box::new(b)))
            },
            Statement::If { condition, then_branch, else_branch } => {
                let t = (*then_branch).resolve_loops(
                    current_loop,
                    current_switch,
                    break_target,
                    cases,
                    default_used,
                    counters,
                )?;
                let e = match else_branch {
                    Some(e) => Some(
                        Box::new(
                            (*e).resolve_loops(
                                current_loop,
                                current_switch,
                                break_target,
                                cases,
                                default_used,
                                counters,
                            )?,
                        ),
                    ),
                    None => None,
                };
                Ok(Statement::If { condition, then_branch: Box::new(t), else_branch: e })
            },
            Statement::Break(_) => {
                if break_target.is_some() {
                    Ok(Statement::Break(clone_name(break_target)))
                } else {
                    Err(SemanticError::BreakNotWithinLoopOrSwitch)
                }
            },
            Statement::Continue(_) => {
                if current_loop.is_none() {
                    Err(SemanticError::ContinueNotWithinLoop)
                } else {
                    Ok(Statement::Continue(clone_name(current_loop)))
                }
            },
            Statement::Default(body, _) => {
                if *default_used {
                    Err(SemanticError::DuplicateDefaultLabel)
                } else if current_switch.is_none() {
                    Err(SemanticError::DefaultNotWithinSwitch)
                } else {
                    *default_used = true;
                    let b = (*body).resolve_loops(
                        current_loop,
                        current_switch,
                        break_target,
                        cases,
                        default_used,
                        counters,
                    )?;
                    Ok(Statement::Default(Box::new(b), clone_name(current_switch)))
                }
            },
            Statement::Case(expression, body, _) => {
                if current_switch.is_none() {
                    return Err(SemanticError::CaseNotWithinSwitch);
                }
                match get_expression_value(&expression.expression) {
                    Some(value) => {
                        if contains_constant(cases, value) {
                            return Err(SemanticError::DuplicateCaseValue(value));
                        }
                        cases.push(value);
                    },
                    None => {
                        return Err(SemanticError::NonConstantExpression);
                    },
                }
                let b = (*body).resolve_loops(
                    current_loop,
                    current_switch,
                    break_target,
                    cases,
                    default_used,
                    counters,
                )?;
                Ok(Statement::Case(expression, Box::new(b), clone_name(current_switch)))
            },
            Statement::While { condition, body, label: _ } => {
                let label = numbered_name("loop_", "while", counters.loops);
                counters.loops = bump_count(counters.loops);
                let inner = Some(label.clone());
                let b = (*body).resolve_loops(
                    &inner,
                    current_switch,
                    &inner,
                    cases,
                    default_used,
                    counters,
                )?;
                Ok(Statement::While { condition, body: Box::new(b), label: Some(label) })
            },
            Statement::DoWhile { body, condition, label: _ } => {
                let label = numbered_name("loop_", "do_while", counters.loops);
                counters.loops = bump_count(counters.loops);
                let inner = Some(label.clone());
                let b = (*body).resolve_loops(
                    &inner,
                    current_switch,
                    &inner,
                    cases,
                    default_used,
                    counters,
                )?;
                Ok(Statement::DoWhile { body: Box::new(b), condition, label: Some(label) })
            },
            Statement::For { init, condition, post, body, label: _ } => {
                let label = numbered_name("loop_", "for", counters.loops);
                counters.loops = bump_count(counters.loops);
                let inner = Some(label.clone());
                let b = (*body).resolve_loops(
                    &inner,
                    current_switch,
                    &inner,
                    cases,
                    default_used,
                    counters,
                )?;
                Ok(
                    Statement::For {
                        init,
                        condition,
                        post,
                        body: Box::new(b),
                        label: Some(label),
                    },
                )
            },
            Statement::Switch { condition, body, .. } => {
                let label = numbered_name("switch", "", counters.switches);
                counters.switches = bump_count(counters.switches);
                let inner = Some(label.clone());
                let mut inner_cases: Vec<Constant> = Vec::new();
                let mut inner_default = false;
                let b = (*body).resolve_loops(
                    current_loop,
                    &inner,
                    &inner,
                    &mut inner_cases,
                    &mut inner_default,
                    counters,
                )?;
                Ok(
                    Statement::Switch {
                        condition,
                        body: Box::new(b),
                        label: Some(label),
                        cases: inner_cases,
                        default_exists: inner_default,
                    },
                )
            },
            Statement::Block(block) => {
                let b = block.resolve_loops(
                    current_loop,
                    current_switch,
                    break_target,
                    cases,
                    default_used,
                    counters,
                )?;
                Ok(Statement::Block(b))
            },
            Statement::Return(e) => Ok(Statement::Return(e)),
            Statement::Expression(e) => Ok(Statement::Expression(e)),
            Statement::Goto(l) => Ok(Statement::Goto(l)),
            Statement::Null => Ok(Statement::Null),
        }
    }
}

impl BlockItem {
    fn resolve_loops(
        self,
        current_loop: &Option<String>,
        current_switch: &Option<String>,
        break_target: &Option<String>,
        cases: &mut Vec<Constant>,
        default_used: &mut bool,
        counters: &mut LoopCounters,
    ) -> (r: Result<BlockItem, SemanticError>)
        ensures
            loop_outcome(
                r,
                spec_loops_item(
                    self@,
                    context_of(*current_loop, *current_switch, *break_target),
                    state_of(old(cases)@, *old(default_used), *old(counters)),
                ),
                state_of(final(cases)@, *final(default_used), *final(counters)),
            ),
        decreases self, 0nat,
    {
        match self {
            BlockItem::Statement(s) => {
                let s2 = s.resolve_loops(
                    current_loop,
                    current_switch,
                    break_target,
                    cases,
                    default_used,
                    counters,
                )?;
                Ok(BlockItem::Statement(s2))
            },
            BlockItem::Declaration(d) => Ok(BlockItem::Declaration(d)),
        }
    }
}

/// An error in a prefix of the items is the error of all of them.
proof fn lemma_loops_items_error(items: Seq<BlockItemView>, k: int, ctx: LoopContext, st: LoopState)
    requires
        0 <= k <= items.len(),
        spec_loops_items(items.take(k), ctx, st) is Err,
    ensures
        spec_loops_items(items, ctx, st) == spec_loops_items(items.take(k), ctx, st),
    decreases items.len() - k,
{
    if k < items.len() {
        assert(items.take(k + 1).drop_last() =~= items.take(k));
        lemma_loops_items_error(items, k + 1, ctx, st);
    } else {
        assert(items.take(k) =~= items);
    }
}

impl Block {
    #[verifier::loop_isolation(false)]
    fn resolve_loops(
        self,
        current_loop: &Option<String>,
        current_switch: &Option<String>,
        break_target: &Option<String>,
        cases: &mut Vec<Constant>,
        default_used: &mut bool,
        counters: &mut LoopCounters,
    ) -> (r: Result<Block, SemanticError>)
        ensures
            loop_outcome(
                r,
                spec_loops_items(
                    self@,
                    context_of(*current_loop, *current_switch, *break_target),
                    state_of(old(cases)@, *old(default_used), *old(counters)),
                ),
                state_of(final(cases)@, *final(default_used), *final(counters)),
            ),
        decreases self, 1nat,
    {
        let ghost orig = self;
        let ghost ctx = context_of(*current_loop, *current_switch, *break_target);
        let ghost st0 = state_of(cases@, *default_used, *counters);
        proof {
            lemma_block_items_view_index(orig.0@);
            assert(orig@.take(0) =~= seq![]);
        }
        let Block(items) = self;
        let mut out: Vec<BlockItem> = Vec::new();
        for item in it: items
            invariant
                it.seq() == orig.0@,
                it.index() <= orig.0@.len(),
                orig@.len() == orig.0@.len(),
                forall|i: int| 0 <= i < orig.0@.len() ==> #[trigger] orig@[i] == orig.0@[i].view_of(),
                ctx == context_of(*current_loop, *current_switch, *break_target),
                spec_loops_items(orig@.take(it.index() as int), ctx, st0) == LoopResult::<Seq<BlockItemView>>::Ok(
                    (block_items_view(out@), state_of(cases@, *default_used, *counters)),
                ),
        {
            let ghost i = it.index();
            proof {
                assert(item == orig.0@[i as int]);
                assert(decreases_to!(orig => orig.0));
                assert(decreases_to!(orig.0 => orig.0@));
                assert(decreases_to!(orig.0@ => orig.0@[i as int]));
                assert(orig@.take(i + 1).drop_last() =~= orig@.take(i as int));
            }
            let x = match item.resolve_loops(
                current_loop,
                current_switch,
                break_target,
                cases,
                default_used,
                counters,
            ) {
                Ok(x) => x,
                Err(e) => {
                    proof {
                        lemma_loops_items_error(orig@, i + 1, ctx, st0);
                    }
                    return Err(e);
                },
            };
            proof {
                lemma_block_items_view_push(out@, x);
            }
            out.push(x);
        }
        proof {
            assert(orig@.take(orig@.len() as int) =~= orig@);
        }
        Ok(Block(out))
    }
}

/// The context outside any loop or switch.
pub open spec fn top_context() -> LoopContext {
    LoopContext { current_loop: None, current_switch: None, break_target: None }
}

pub open spec fn spec_loops_declaration(d: DeclarationView, st: LoopState) -> LoopResult<
    DeclarationView,
> {
    match d {
        DeclarationView::Function(f) => match f.body {
            Some(body) => match spec_loops_items(body, top_context(), st) {
                Ok((b, st2)) => Ok(
                    (DeclarationView::Function(FuncDeclarationView { body: Some(b), ..f }), st2),
                ),
                Err(e) => Err(e),
            },
            None => Ok((d, st)),
        },
        DeclarationView::Variable(_) => Ok((d, st)),
    }
}

pub open spec fn spec_loops_declarations(ds: Seq<DeclarationView>, st: LoopState) -> LoopResult<
    Seq<DeclarationView>,
>
    decreases ds.len(),
{
    if ds.len() == 0 {
        Ok((seq![], st))
    } else {
        match spec_loops_declarations(ds.drop_last(), st) {
            Ok((done, st1)) => match spec_loops_declaration(ds.last(), st1) {
                Ok((x, st2)) => Ok((done.push(x), st2)),
                Err(e) => Err(e),
            },
            Err(e) => Err(e),
        }
    }
}

/// The state the pass starts in.
pub open spec fn initial_loop_state() -> LoopState {
    LoopState { cases: seq![], default_used: false, loops: 0, switches: 0 }
}

/// The program with loops and switches resolved, or the first error found.
/// The state the pass starts in when loops and switches are numbered from
/// the given counters.
pub open spec fn loop_start(c: LoopCounters) -> LoopState {
    LoopState { cases: seq![], default_used: false, loops: c.loops, switches: c.switches }
}

/// The program with loops and switches resolved, numbered from `c` on, and
/// the counters after the last numbers taken; or the first error found.
pub open spec fn spec_resolve_loops_from(p: Seq<DeclarationView>, c: LoopCounters) -> Result<
    (Seq<DeclarationView>, LoopCounters),
    SemanticErrorView,
> {
    match spec_loops_declarations(p, loop_start(c)) {
        Ok((q, st)) => Ok((q, LoopCounters { loops: st.loops, switches: st.switches })),
        Err(e) => Err(e),
    }
}

pub open spec fn spec_resolve_loops(p: Seq<DeclarationView>) -> Result<
    Seq<DeclarationView>,
    SemanticErrorView,
> {
    match spec_loops_declarations(p, initial_loop_state()) {
        Ok((q, _)) => Ok(q),
        Err(e) => Err(e),
    }
}

impl Declaration {
    fn resolve_loops(
        self,
        cases: &mut Vec<Constant>,
        default_used: &mut bool,
        counters: &mut LoopCounters,
    ) -> (r: Result<Declaration, SemanticError>)
        ensures
            loop_outcome(
                r,
                spec_loops_declaration(
                    self@,
                    state_of(old(cases)@, *old(default_used), *old(counters)),
                ),
                state_of(final(cases)@, *final(default_used), *final(counters)),
            ),
    {
        match self {
            Declaration::Function(f) => {
                let FuncDeclaration { identifier, parameters, body, ty, storage_class } = f;
                match body {
                    Some(b) => {
                        let b2 = b.resolve_loops(&None, &None, &None, cases, default_used, counters)?;
                        Ok(
                            Declaration::Function(
                                FuncDeclaration {
                                    identifier,
                                    parameters,
                                    body: Some(b2),
                                    ty,
                                    storage_class,
                                },
                            ),
                        )
                    },
                    None => Ok(
                        Declaration::Function(
                            FuncDeclaration { identifier, parameters, body: None, ty, storage_class },
                        ),
                    ),
                }
            },
            Declaration::Variable(v) => Ok(Declaration::Variable(v)),
        }
    }
}

proof fn lemma_loops_declarations_error(ds: Seq<DeclarationView>, k: int, st: LoopState)
    requires
        0 <= k <= ds.len(),
        spec_loops_declarations(ds.take(k), st) is Err,
    ensures
        spec_loops_declarations(ds, st) == spec_loops_declarations(ds.take(k), st),
    decreases ds.len() - k,
{
    if k < ds.len() {
        assert(ds.take(k + 1).drop_last() =~= ds.take(k));
        lemma_loops_declarations_error(ds, k + 1, st);
    } else {
        assert(ds.take(k) =~= ds);
    }
}

/// Labels every loop and switch of the program, and ties each `break`,
/// `continue`, `case` and `default` to the construct that encloses it;
/// loops and switches are numbered from 0.
pub fn resolve_loops(program: Program) -> (r: Result<Program, SemanticError>)
    ensures
        semantic_outcome(r, spec_resolve_loops(program@)),
{
    let mut counters = LoopCounters { loops: 0, switches: 0 };
    assert(loop_start(counters) == initial_loop_state());
    resolve_loops_numbered(program, &mut counters)
}

/// Loop resolution with loops and switches numbered from `counters` on; the
/// counters are left after the last numbers taken, for the next program.
#[verifier::loop_isolation(false)]
pub fn resolve_loops_numbered(program: Program, counters: &mut LoopCounters) -> (r: Result<
    Program,
    SemanticError,
>)
    ensures
        match spec_resolve_loops_from(program@, *old(counters)) {
            Ok((q, c)) => r matches Ok(x) && x@ == q && *final(counters) == c,
            Err(e) => r matches Err(x) && x@ == e,
        },
{
    let ghost orig = program;
    let mut cases: Vec<Constant> = Vec::new();
    let mut default_used = false;
    let ghost st0 = state_of(cases@, default_used, *counters);
    proof {
        lemma_declarations_view_index(orig.0@);
        assert(orig@.take(0) =~= seq![]);
        assert(st0 == loop_start(*counters));
    }
    let Program(declarations) = program;
    let mut out: Vec<Declaration> = Vec::new();
    for d in it: declarations
        invariant
            it.seq() == orig.0@,
            it.index() <= orig.0@.len(),
            spec_loops_declarations(orig@.take(it.index() as int), st0) == LoopResult::<
                Seq<DeclarationView>,
            >::Ok((declarations_view(out@), state_of(cases@, default_used, *counters))),
    {
        let ghost i = it.index();
        proof {
            assert(d == orig.0@[i as int]);
            assert(orig@.take(i + 1).drop_last() =~= orig@.take(i as int));
        }
        let x = match d.resolve_loops(&mut cases, &mut default_used, counters) {
            Ok(x) => x,
            Err(e) => {
                proof {
                    lemma_loops_declarations_error(orig@, i + 1, st0);
                }
                return Err(e);
            },
        };
        proof {
            lemma_declarations_view_push(out@, x);
        }
        out.push(x);
    }
    proof {
        assert(orig@.take(orig@.len() as int) =~= orig@);
    }
    Ok(Program(out))
}


proof fn lemma_loops_statement_resolved(s: StatementView, ctx: LoopContext, st: LoopState)
    requires
        spec_loops_statement(s, ctx, st) is Ok,
    ensures
        loops_resolved(spec_loops_statement(s, ctx, st)->Ok_0.0),
    decreases s, 0nat,
{
    match s {
        StatementView::Labeled(l, body) => {
            lemma_loops_statement_resolved(*body, ctx, st);
        },
        StatementView::If { condition, then_branch, else_branch } => {
            lemma_loops_statement_resolved(*then_branch, ctx, st);
            let st1 = spec_loops_statement(*then_branch, ctx, st)->Ok_0.1;
            match else_branch {
                Some(e) => {
                    lemma_loops_statement_resolved(*e, ctx, st1);
                },
                None => {},
            }
        },
        StatementView::Default(body, _) => {
            lemma_loops_statement_resolved(*body, ctx, LoopState { default_used: true, ..st });
        },
        StatementView::Case(e, body, _) => {
            let v = spec_expression_value(e.expression)->Some_0;
            lemma_loops_statement_resolved(*body, ctx, LoopState { cases: st.cases.push(v), ..st });
        },
        StatementView::While { condition, body, label: _ } => {
            let l = loop_label("while"@, st.loops);
            lemma_loops_statement_resolved(
                *body,
                in_loop(ctx, l),
                LoopState { loops: bump(st.loops), ..st },
            );
        },
        StatementView::DoWhile { body, condition, label: _ } => {
            let l = loop_label("do_while"@, st.loops);
            lemma_loops_statement_resolved(
                *body,
                in_loop(ctx, l),
                LoopState { loops: bump(st.loops), ..st },
            );
        },
        StatementView::For { init, condition, post, body, label: _ } => {
            let l = loop_label("for"@, st.loops);
            lemma_loops_statement_resolved(
                *body,
                in_loop(ctx, l),
                LoopState { loops: bump(st.loops), ..st },
            );
        },
        StatementView::Switch { condition, body, .. } => {
            let l = switch_label(st.switches);
            let inner = LoopState {
                cases: seq![],
                default_used: false,
                loops: st.loops,
                switches: bump(st.switches),
            };
            let inner_ctx = LoopContext {
                current_loop: ctx.current_loop,
                current_switch: Some(l),
                break_target: Some(l),
            };
            lemma_loops_statement_resolved(*body, inner_ctx, inner);
        },
        StatementView::Block(items) => {
            lemma_loops_items_resolved(items, ctx, st);
        },
        _ => {},
    }
}

proof fn lemma_loops_items_resolved(items: Seq<BlockItemView>, ctx: LoopContext, st: LoopState)
    requires
        spec_loops_items(items, ctx, st) is Ok,
    ensures
        loops_resolved_items(spec_loops_items(items, ctx, st)->Ok_0.0),
    decreases items, items.len(),
{
    if items.len() > 0 {
        lemma_loops_items_resolved(items.drop_last(), ctx, st);
        let (done, st1) = spec_loops_items(items.drop_last(), ctx, st)->Ok_0;
        let last = items.last();
        assert(spec_loops_item(last, ctx, st1) is Ok);
        let x = spec_loops_item(last, ctx, st1)->Ok_0.0;
        match last {
            BlockItemView::Statement(s) => {
                lemma_loops_statement_resolved(s, ctx, st1);
            },
            BlockItemView::Declaration(_) => {},
        }
        let out = spec_loops_items(items, ctx, st)->Ok_0.0;
        assert forall|i: int| 0 <= i < out.len() implies match #[trigger] out[i] {
            BlockItemView::Statement(s) => loops_resolved(s),
            BlockItemView::Declaration(_) => true,
        } by {
            if i < done.len() {
                assert(out[i] == done[i]);
            } else {
                assert(out[i] == x);
            }
        }
    }
}

proof fn lemma_loops_declarations_resolved(ds: Seq<DeclarationView>, st: LoopState)
    requires
        spec_loops_declarations(ds, st) is Ok,
    ensures
        loops_resolved_program(spec_loops_declarations(ds, st)->Ok_0.0),
    decreases ds.len(),
{
    if ds.len() > 0 {
        lemma_loops_declarations_resolved(ds.drop_last(), st);
        let (done, st1) = spec_loops_declarations(ds.drop_last(), st)->Ok_0;
        match ds.last() {
            DeclarationView::Function(f) => match f.body {
                Some(body) => {
                    lemma_loops_items_resolved(body, top_context(), st1);
                },
                None => {},
            },
            DeclarationView::Variable(_) => {},
        }
        let out = spec_loops_declarations(ds, st)->Ok_0.0;
        assert forall|i: int| 0 <= i < out.len() implies match #[trigger] out[i] {
            DeclarationView::Function(f) => match f.body {
                Some(b) => loops_resolved_items(b),
                None => true,
            },
            DeclarationView::Variable(_) => true,
        } by {
            if i < done.len() {
                assert(out[i] == done[i]);
            }
        }
    }
}

/// After loop resolution succeeds, every loop, switch, `break`, `continue`,
/// `case` and `default` of the program carries a label, and every case value
/// is a constant.
pub proof fn law_resolved_loops_are_labelled(p: Seq<DeclarationView>, c: LoopCounters)
    requires
        spec_resolve_loops_from(p, c) is Ok,
    ensures
        loops_resolved_program(spec_resolve_loops_from(p, c)->Ok_0.0),
{
    lemma_loops_declarations_resolved(p, loop_start(c));
}

} // verus!
