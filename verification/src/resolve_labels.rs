//! Label resolution: each function's labels get fresh names, a label
//! declared twice in one function is refused, and every `goto` is pointed at
//! the fresh name of its label, which must exist in the same function.
use vstd::prelude::*;

use crate::name_map::NameMap;
use crate::names::{bump, bump_count, numbered, numbered_name};
use crate::parser::{
    block_items_view, declarations_view, lemma_block_items_view_index,
    lemma_block_items_view_push, lemma_declarations_view_index, lemma_declarations_view_push,
    Block, BlockItem, BlockItemView, Declaration, DeclarationView, FuncDeclaration,
    FuncDeclarationView, Program, Statement, StatementView,
};
use crate::semantic_analysis::{semantic_outcome, SemanticError, SemanticErrorView};

verus! {

/// The labels seen so far in the current function, each with its fresh name,
/// and the counter that numbers fresh names.
pub struct LabelState {
    pub labels: Map<Seq<char>, Seq<char>>,
    pub counter: usize,
}

pub type LabelResult<T> = Result<(T, LabelState), SemanticErrorView>;

/// The fresh name of a label.
pub open spec fn label_name(label: Seq<char>, id: usize) -> Seq<char> {
    numbered("label_"@, label, id as nat)
}

/// Renames the labels that `s` declares, in the order they appear.
pub open spec fn spec_collect_statement(s: StatementView, st: LabelState) -> LabelResult<
    StatementView,
>
    decreases s, 0nat,
{
    match s {
        StatementView::Labeled(l, body) => {
            if st.labels.contains_key(l) {
                Err(SemanticErrorView::DuplicateLabel(l))
            } else {
                let u = label_name(l, st.counter);
                let st1 = LabelState { labels: st.labels.insert(l, u), counter: bump(st.counter) };
                match spec_collect_statement(*body, st1) {
                    Ok((b, st2)) => Ok((StatementView::Labeled(u, Box::new(b)), st2)),
                    Err(e) => Err(e),
                }
            }
        },
        StatementView::If { condition, then_branch, else_branch } => match spec_collect_statement(
            *then_branch,
            st,
        ) {
            Ok((t, st1)) => match else_branch {
                None => Ok(
                    (
                        StatementView::If { condition, then_branch: Box::new(t), else_branch: None },
                        st1,
                    ),
                ),
                Some(e) => match spec_collect_statement(*e, st1) {
                    Ok((e2, st2)) => Ok(
                        (
                            StatementView::If {
                                condition,
                                then_branch: Box::new(t),
                                else_branch: Some(Box::new(e2)),
                            },
                            st2,
                        ),
                    ),
                    Err(x) => Err(x),
                },
            },
            Err(x) => Err(x),
        },
        StatementView::Case(e, body, l) => match spec_collect_statement(*body, st) {
            Ok((b, st2)) => Ok((StatementView::Case(e, Box::new(b), l), st2)),
            Err(x) => Err(x),
        },
        StatementView::Default(body, l) => match spec_collect_statement(*body, st) {
            Ok((b, st2)) => Ok((StatementView::Default(Box::new(b), l), st2)),
            Err(x) => Err(x),
        },
        StatementView::While { condition, body, label } => match spec_collect_statement(*body, st) {
            Ok((b, st2)) => Ok((StatementView::While { condition, body: Box::new(b), label }, st2)),
            Err(x) => Err(x),
        },
        StatementView::DoWhile { body, condition, label } => match spec_collect_statement(
            *body,
            st,
        ) {
            Ok((b, st2)) => Ok(
                (StatementView::DoWhile { body: Box::new(b), condition, label }, st2),
            ),
            Err(x) => Err(x),
        },
        StatementView::For { init, condition, post, body, label } => match spec_collect_statement(
            *body,
            st,
        ) {
            Ok((b, st2)) => Ok(
                (StatementView::For { init, condition, post, body: Box::new(b), label }, st2),
            ),
            Err(x) => Err(x),
        },
        StatementView::Switch { condition, body, label, cases, default_exists } =>
            match spec_collect_statement(*body, st) {
            Ok((b, st2)) => Ok(
                (
                    StatementView::Switch {
                        condition,
                        body: Box::new(b),
                        label,
                        cases,
                        default_exists,
                    },
                    st2,
                ),
            ),
            Err(x) => Err(x),
        },
        StatementView::Block(items) => match spec_collect_items(items, st) {
            Ok((b, st2)) => Ok((StatementView::Block(b), st2)),
            Err(x) => Err(x),
        },
        _ => Ok((s, st)),
    }
}

pub open spec fn spec_collect_item(item: BlockItemView, st: LabelState) -> LabelResult<
    BlockItemView,
>
    decreases item, 0nat,
{
    match item {
        BlockItemView::Statement(s) => match spec_collect_statement(s, st) {
            Ok((s2, st2)) => Ok((BlockItemView::Statement(s2), st2)),
            Err(x) => Err(x),
        },
        BlockItemView::Declaration(_) => Ok((item, st)),
    }
}

pub open spec fn spec_collect_items(items: Seq<BlockItemView>, st: LabelState) -> LabelResult<
    Seq<BlockItemView>,
>
    decreases items, items.len(),
{
    if items.len() == 0 {
        Ok((seq![], st))
    } else {
        match spec_collect_items(items.drop_last(), st) {
            Ok((done, st1)) => match spec_collect_item(items.last(), st1) {
                Ok((x, st2)) => Ok((done.push(x), st2)),
                Err(e) => Err(e),
            },
            Err(e) => Err(e),
        }
    }
}

/// Points every `goto` of `s` at the fresh name of its label.
pub open spec fn spec_goto_statement(s: StatementView, labels: Map<Seq<char>, Seq<char>>) -> Result<
    StatementView,
    SemanticErrorView,
>
    decreases s, 0nat,
{
    match s {
        StatementView::Goto(l) => {
            if labels.contains_key(l) {
                Ok(StatementView::Goto(labels[l]))
            } else {
                Err(SemanticErrorView::LabelNotDeclared(l))
            }
        },
        StatementView::Labeled(l, body) => match spec_goto_statement(*body, labels) {
            Ok(b) => Ok(StatementView::Labeled(l, Box::new(b))),
            Err(e) => Err(e),
        },
        StatementView::If { condition, then_branch, else_branch } => match spec_goto_statement(
            *then_branch,
            labels,
        ) {
            Ok(t) => match else_branch {
                None => Ok(
                    StatementView::If { condition, then_branch: Box::new(t), else_branch: None },
                ),
                Some(e) => match spec_goto_statement(*e, labels) {
                    Ok(e2) => Ok(
                        StatementView::If {
                            condition,
                            then_branch: Box::new(t),
                            else_branch: Some(Box::new(e2)),
                        },
                    ),
                    Err(x) => Err(x),
                },
            },
            Err(x) => Err(x),
        },
        StatementView::Case(e, body, l) => match spec_goto_statement(*body, labels) {
            Ok(b) => Ok(StatementView::Case(e, Box::new(b), l)),
            Err(x) => Err(x),
        },
        StatementView::Default(body, l) => match spec_goto_statement(*body, labels) {
            Ok(b) => Ok(StatementView::Default(Box::new(b), l)),
            Err(x) => Err(x),
        },
        StatementView::While { condition, body, label } => match spec_goto_statement(*body, labels) {
            Ok(b) => Ok(StatementView::While { condition, body: Box::new(b), label }),
            Err(x) => Err(x),
        },
        StatementView::DoWhile { body, condition, label } => match spec_goto_statement(
            *body,
            labels,
        ) {
            Ok(b) => Ok(StatementView::DoWhile { body: Box::new(b), condition, label }),
            Err(x) => Err(x),
        },
        StatementView::For { init, condition, post, body, label } => match spec_goto_statement(
            *body,
            labels,
        ) {
            Ok(b) => Ok(StatementView::For { init, condition, post, body: Box::new(b), label }),
            Err(x) => Err(x),
        },
        StatementView::Switch { condition, body, label, cases, default_exists } =>
            match spec_goto_statement(*body, labels) {
            Ok(b) => Ok(
                StatementView::Switch { condition, body: Box::new(b), label, cases, default_exists },
            ),
            Err(x) => Err(x),
        },
        StatementView::Block(items) => match spec_goto_items(items, labels) {
            Ok(b) => Ok(StatementView::Block(b)),
            Err(x) => Err(x),
        },
        _ => Ok(s),
    }
}

pub open spec fn spec_goto_item(item: BlockItemView, labels: Map<Seq<char>, Seq<char>>) -> Result<
    BlockItemView,
    SemanticErrorView,
>
    decreases item, 0nat,
{
    match item {
        BlockItemView::Statement(s) => match spec_goto_statement(s, labels) {
            Ok(s2) => Ok(BlockItemView::Statement(s2)),
            Err(x) => Err(x),
        },
        BlockItemView::Declaration(_) => Ok(item),
    }
}

pub open spec fn spec_goto_items(
    items: Seq<BlockItemView>,
    labels: Map<Seq<char>, Seq<char>>,
) -> Result<Seq<BlockItemView>, SemanticErrorView>
    decreases items, items.len(),
{
    if items.len() == 0 {
        Ok(seq![])
    } else {
        match spec_goto_items(items.drop_last(), labels) {
            Ok(done) => match spec_goto_item(items.last(), labels) {
                Ok(x) => Ok(done.push(x)),
                Err(e) => Err(e),
            },
            Err(e) => Err(e),
        }
    }
}

/// A function body with its labels renamed and its gotos resolved against
/// the labels of that body alone, and the counter after it.
pub open spec fn spec_labels_body(body: Seq<BlockItemView>, counter: usize) -> Result<
    (Seq<BlockItemView>, usize),
    SemanticErrorView,
> {
    match spec_collect_items(body, LabelState { labels: Map::empty(), counter }) {
        Ok((b1, st)) => match spec_goto_items(b1, st.labels) {
            Ok(b2) => Ok((b2, st.counter)),
            Err(e) => Err(e),
        },
        Err(e) => Err(e),
    }
}

pub open spec fn spec_labels_declaration(d: DeclarationView, counter: usize) -> Result<
    (DeclarationView, usize),
    SemanticErrorView,
> {
    match d {
        DeclarationView::Function(f) => match f.body {
            Some(body) => match spec_labels_body(body, counter) {
                Ok((b, c)) => Ok(
                    (DeclarationView::Function(FuncDeclarationView { body: Some(b), ..f }), c),
                ),
                Err(e) => Err(e),
            },
            None => Ok((d, counter)),
        },
        DeclarationView::Variable(_) => Ok((d, counter)),
    }
}

pub open spec fn spec_labels_declarations(ds: Seq<DeclarationView>, counter: usize) -> Result<
    (Seq<DeclarationView>, usize),
    SemanticErrorView,
>
    decreases ds.len(),
{
    if ds.len() == 0 {
        Ok((seq![], counter))
    } else {
        match spec_labels_declarations(ds.drop_last(), counter) {
            Ok((done, c1)) => match spec_labels_declaration(ds.last(), c1) {
                Ok((x, c2)) => Ok((done.push(x), c2)),
                Err(e) => Err(e),
            },
            Err(e) => Err(e),
        }
    }
}

/// The program with its labels renamed and its gotos resolved, or the first
/// error found.
pub open spec fn spec_resolve_labels(p: Seq<DeclarationView>) -> Result<
    Seq<DeclarationView>,
    SemanticErrorView,
> {
    match spec_labels_declarations(p, 0) {
        Ok((q, _)) => Ok(q),
        Err(e) => Err(e),
    }
}


pub open spec fn label_state(labels: NameMap<String>, counter: usize) -> LabelState {
    LabelState { labels: labels@, counter }
}

/// `r` is what `expected` says, and `after` the state it says.
pub open spec fn label_outcome<T: View>(
    r: Result<T, SemanticError>,
    expected: LabelResult<T::V>,
    after: LabelState,
) -> bool {
    match expected {
        Ok((v, st)) => r matches Ok(x) && x@ == v && after == st,
        Err(e) => r matches Err(x) && x@ == e,
    }
}

impl Statement {
    fn collect_labels(self, labels: &mut NameMap<String>, counter: &mut usize) -> (r: Result<
        Statement,
        SemanticError,
    >)
        ensures
            label_outcome(
                r,
                spec_collect_statement(self@, label_state(*old(labels), *old(counter))),
                label_state(*final(labels), *final(counter)),
            ),
        decreases self, 0nat,
    {
        match self {
            Statement::Labeled(label, body) => {
                if labels.contains_key(&label) {
                    return Err(SemanticError::DuplicateLabel(label));
                }
                let unique = numbered_name("label_", label.as_str(), *counter);
                *counter = bump_count(*counter);
                labels.insert(label, unique.clone());
                let b = (*body).collect_labels(labels, counter)?;
                Ok(Statement::Labeled(unique, Box::new(b)))
            },
            Statement::If { condition, then_branch, else_branch } => {
                let t = (*then_branch).collect_labels(labels, counter)?;
                let e = match else_branch {
                    Some(e) => Some(Box::new((*e).collect_labels(labels, counter)?)),
                    None => None,
                };
                Ok(Statement::If { condition, then_branch: Box::new(t), else_branch: e })
            },
            Statement::Case(e, body, l) => {
                let b = (*body).collect_labels(labels, counter)?;
                Ok(Statement::Case(e, Box::new(b), l))
            },
            Statement::Default(body, l) => {
                let b = (*body).collect_labels(labels, counter)?;
                Ok(Statement::Default(Box::new(b), l))
            },
            Statement::While { condition, body, label } => {
                let b = (*body).collect_labels(labels, counter)?;
                Ok(Statement::While { condition, body: Box::new(b), label })
            },
            Statement::DoWhile { body, condition, label } => {
                let b = (*body).collect_labels(labels, counter)?;
                Ok(Statement::DoWhile { body: Box::new(b), condition, label })
            },
            Statement::For { init, condition, post, body, label } => {
                let b = (*body).collect_labels(labels, counter)?;
                Ok(Statement::For { init, condition, post, body: Box::new(b), label })
            },
            Statement::Switch { condition, body, label, cases, default_exists } => {
                let b = (*body).collect_labels(labels, counter)?;
                Ok(Statement::Switch { condition, body: Box::new(b), label, cases, default_exists })
            },
            Statement::Block(block) => {
                let b = block.collect_labels(labels, counter)?;
                Ok(Statement::Block(b))
            },
            Statement::Return(e) => Ok(Statement::Return(e)),
            Statement::Expression(e) => Ok(Statement::Expression(e)),
            Statement::Goto(l) => Ok(Statement::Goto(l)),
            Statement::Break(l) => Ok(Statement::Break(l)),
            Statement::Continue(l) => Ok(Statement::Continue(l)),
            Statement::Null => Ok(Statement::Null),
        }
    }

    fn resolve_labels(self, labels: &NameMap<String>) -> (r: Result<Statement, SemanticError>)
        ensures
            semantic_outcome(r, spec_goto_statement(self@, labels@)),
        decreases self, 0nat,
    {
        match self {
            Statement::Goto(label) => match labels.get(&label) {
                Some(unique) => Ok(Statement::Goto(unique.clone())),
                None => Err(SemanticError::LabelNotDeclared(label)),
            },
            Statement::Labeled(l, body) => {
                let b = (*body).resolve_labels(labels)?;
                Ok(Statement::Labeled(l, Box::new(b)))
            },
            Statement::If { condition, then_branch, else_branch } => {
                let t = (*then_branch).resolve_labels(labels)?;
                let e = match else_branch {
                    Some(e) => Some(Box::new((*e).resolve_labels(labels)?)),
                    None => None,
                };
                Ok(Statement::If { condition, then_branch: Box::new(t), else_branch: e })
            },
            Statement::Case(e, body, l) => {
                let b = (*body).resolve_labels(labels)?;
                Ok(Statement::Case(e, Box::new(b), l))
            },
            Statement::Default(body, l) => {
                let b = (*body).resolve_labels(labels)?;
                Ok(Statement::Default(Box::new(b), l))
            },
            Statement::While { condition, body, label } => {
                let b = (*body).resolve_labels(labels)?;
                Ok(Statement::While { condition, body: Box::new(b), label })
            },
            Statement::DoWhile { body, condition, label } => {
                let b = (*body).resolve_labels(labels)?;
                Ok(Statement::DoWhile { body: Box::new(b), condition, label })
            },
            Statement::For { init, condition, post, body, label } => {
                let b = (*body).resolve_labels(labels)?;
                Ok(Statement::For { init, condition, post, body: Box::new(b), label })
            },
            Statement::Switch { condition, body, label, cases, default_exists } => {
                let b = (*body).resolve_labels(labels)?;
                Ok(Statement::Switch { condition, body: Box::new(b), label, cases, default_exists })
            },
            Statement::Block(block) => {
                let b = block.resolve_labels(labels)?;
                Ok(Statement::Block(b))
            },
            Statement::Return(e) => Ok(Statement::Return(e)),
            Statement::Expression(e) => Ok(Statement::Expression(e)),
            Statement::Break(l) => Ok(Statement::Break(l)),
            Statement::Continue(l) => Ok(Statement::Continue(l)),
            Statement::Null => Ok(Statement::Null),
        }
    }
}

impl BlockItem {
    fn collect_labels(self, labels: &mut NameMap<String>, counter: &mut usize) -> (r: Result<
        BlockItem,
        SemanticError,
    >)
        ensures
            label_outcome(
                r,
                spec_collect_item(self@, label_state(*old(labels), *old(counter))),
                label_state(*final(labels), *final(counter)),
            ),
        decreases self, 0nat,
    {
        match self {
            BlockItem::Statement(s) => Ok(BlockItem::Statement(s.collect_labels(labels, counter)?)),
            BlockItem::Declaration(d) => Ok(BlockItem::Declaration(d)),
        }
    }

    fn resolve_labels(self, labels: &NameMap<String>) -> (r: Result<BlockItem, SemanticError>)
        ensures
            semantic_outcome(r, spec_goto_item(self@, labels@)),
        decreases self, 0nat,
    {
        match self {
            BlockItem::Statement(s) => Ok(BlockItem::Statement(s.resolve_labels(labels)?)),
            BlockItem::Declaration(d) => Ok(BlockItem::Declaration(d)),
        }
    }
}

proof fn lemma_collect_items_error(items: Seq<BlockItemView>, k: int, st: LabelState)
    requires
        0 <= k <= items.len(),
        spec_collect_items(items.take(k), st) is Err,
    ensures
        spec_collect_items(items, st) == spec_collect_items(items.take(k), st),
    decreases items.len() - k,
{
    if k < items.len() {
        assert(items.take(k + 1).drop_last() =~= items.take(k));
        lemma_collect_items_error(items, k + 1, st);
    } else {
        assert(items.take(k) =~= items);
    }
}

proof fn lemma_goto_items_error(items: Seq<BlockItemView>, k: int, labels: Map<Seq<char>, Seq<char>>)
    requires
        0 <= k <= items.len(),
        spec_goto_items(items.take(k), labels) is Err,
    ensures
        spec_goto_items(items, labels) == spec_goto_items(items.take(k), labels),
    decreases items.len() - k,
{
    if k < items.len() {
        assert(items.take(k + 1).drop_last() =~= items.take(k));
        lemma_goto_items_error(items, k + 1, labels);
    } else {
        assert(items.take(k) =~= items);
    }
}

impl Block {
    #[verifier::loop_isolation(false)]
    fn collect_labels(self, labels: &mut NameMap<String>, counter: &mut usize) -> (r: Result<
        Block,
        SemanticError,
    >)
        ensures
            label_outcome(
                r,
                spec_collect_items(self@, label_state(*old(labels), *old(counter))),
                label_state(*final(labels), *final(counter)),
            ),
        decreases self, 1nat,
    {
        let ghost orig = self;
        let ghost st0 = label_state(*labels, *counter);
        proof {
            lemma_block_items_view_index(orig.0@);
            assert(orig@.take(0) =~= seq![]);
        }
        let Block(items) = self;
        let mut out: Vec<BlockItem> = Vec::new();
        for item in it: items
            invariant
                it.seq() == orig.0@,
                it.index() <= orig.0@.len(),
                spec_collect_items(orig@.take(it.index() as int), st0) == LabelResult::<
                    Seq<BlockItemView>,
                >::Ok((block_items_view(out@), label_state(*labels, *counter))),
        {
            let ghost i = it.index();
            proof {
                assert(item == orig.0@[i as int]);
                assert(decreases_to!(orig => orig.0));
                assert(decreases_to!(orig.0 => orig.0@));
                assert(decreases_to!(orig.0@ => orig.0@[i as int]));
                assert(orig@.take(i + 1).drop_last() =~= orig@.take(i as int));
            }
            let x = match item.collect_labels(labels, counter) {
                Ok(x) => x,
                Err(e) => {
                    proof {
                        lemma_collect_items_error(orig@, i + 1, st0);
                    }
                    return Err(e);
                },
            };
            proof {
                lemma_block_items_view_push(out@, x);
            }
            out.push(x);
        }
        proof {
            assert(orig@.take(orig@.len() as int) =~= orig@);
        }
        Ok(Block(out))
    }

    #[verifier::loop_isolation(false)]
    fn resolve_labels(self, labels: &NameMap<String>) -> (r: Result<Block, SemanticError>)
        ensures
            semantic_outcome(r, spec_goto_items(self@, labels@)),
        decreases self, 1nat,
    {
        let ghost orig = self;
        proof {
            lemma_block_items_view_index(orig.0@);
            assert(orig@.take(0) =~= seq![]);
        }
        let Block(items) = self;
        let mut out: Vec<BlockItem> = Vec::new();
        for item in it: items
            invariant
                it.seq() == orig.0@,
                it.index() <= orig.0@.len(),
                spec_goto_items(orig@.take(it.index() as int), labels@) == Result::<
                    Seq<BlockItemView>,
                    SemanticErrorView,
                >::Ok(block_items_view(out@)),
        {
            let ghost i = it.index();
            proof {
                assert(item == orig.0@[i as int]);
                assert(decreases_to!(orig => orig.0));
                assert(decreases_to!(orig.0 => orig.0@));
                assert(decreases_to!(orig.0@ => orig.0@[i as int]));
                assert(orig@.take(i + 1).drop_last() =~= orig@.take(i as int));
            }
            let x = match item.resolve_labels(labels) {
                Ok(x) => x,
                Err(e) => {
                    proof {
                        lemma_goto_items_error(orig@, i + 1, labels@);
                    }
                    return Err(e);
                },
            };
            proof {
                lemma_block_items_view_push(out@, x);
            }
            out.push(x);
        }
        proof {
            assert(orig@.take(orig@.len() as int) =~= orig@);
        }
        Ok(Block(out))
    }
}

impl Declaration {
    fn resolve_labels(self, counter: &mut usize) -> (r: Result<Declaration, SemanticError>)
        ensures
            match spec_labels_declaration(self@, *old(counter)) {
                Ok((d, c)) => r matches Ok(x) && x@ == d && *final(counter) == c,
                Err(e) => r matches Err(x) && x@ == e,
            },
    {
        match self {
            Declaration::Function(f) => {
                let FuncDeclaration { identifier, parameters, body, ty, storage_class } = f;
                match body {
                    Some(b) => {
                        let mut labels: NameMap<String> = NameMap::new();
                        let b1 = b.collect_labels(&mut labels, counter)?;
                        let b2 = b1.resolve_labels(&labels)?;
                        Ok(
                            Declaration::Function(
                                FuncDeclaration {
                                    identifier,
                                    parameters,
                                    body: Some(b2),
                                    ty,
                                    storage_class,
                                },
                            ),
                        )
                    },
                    None => Ok(
                        Declaration::Function(
                            FuncDeclaration { identifier, parameters, body: None, ty, storage_class },
                        ),
                    ),
                }
            },
            Declaration::Variable(v) => Ok(Declaration::Variable(v)),
        }
    }
}

proof fn lemma_labels_declarations_error(ds: Seq<DeclarationView>, k: int, counter: usize)
    requires
        0 <= k <= ds.len(),
        spec_labels_declarations(ds.take(k), counter) is Err,
    ensures
        spec_labels_declarations(ds, counter) == spec_labels_declarations(ds.take(k), counter),
    decreases ds.len() - k,
{
    if k < ds.len() {
        assert(ds.take(k + 1).drop_last() =~= ds.take(k));
        lemma_labels_declarations_error(ds, k + 1, counter);
    } else {
        assert(ds.take(k) =~= ds);
    }
}

/// Renames the labels of each function and resolves its gotos against them;
/// fresh names are numbered from 0.
pub fn resolve_labels(program: Program) -> (r: Result<Program, SemanticError>)
    ensures
        semantic_outcome(r, spec_resolve_labels(program@)),
{
    let mut counter: usize = 0;
    resolve_labels_numbered(program, &mut counter)
}

/// Label resolution with fresh names numbered from `counter` on; the counter
/// is left after the last number taken, for the next program.
#[verifier::loop_isolation(false)]
pub fn resolve_labels_numbered(program: Program, counter: &mut usize) -> (r: Result<
    Program,
    SemanticError,
>)
    ensures
        match spec_labels_declarations(program@, *old(counter)) {
            Ok((q, c)) => r matches Ok(x) && x@ == q && *final(counter) == c,
            Err(e) => r matches Err(x) && x@ == e,
        },
{
    let ghost orig = program;
    let ghost c0 = *counter;
    proof {
        lemma_declarations_view_index(orig.0@);
        assert(orig@.take(0) =~= seq![]);
    }
    let Program(declarations) = program;
    let mut out: Vec<Declaration> = Vec::new();
    for d in it: declarations
        invariant
            it.seq() == orig.0@,
            it.index() <= orig.0@.len(),
            spec_labels_declarations(orig@.take(it.index() as int), c0) == Result::<
                (Seq<DeclarationView>, usize),
                SemanticErrorView,
            >::Ok((declarations_view(out@), *counter)),
    {
        let ghost i = it.index();
        proof {
            assert(d == orig.0@[i as int]);
            assert(orig@.take(i + 1).drop_last() =~= orig@.take(i as int));
        }
        let x = match d.resolve_labels(counter) {
            Ok(x) => x,
            Err(e) => {
                proof {
                    lemma_labels_declarations_error(orig@, i + 1, c0);
                }
                return Err(e);
            },
        };
        proof {
            lemma_declarations_view_push(out@, x);
        }
        out.push(x);
    }
    proof {
        assert(orig@.take(orig@.len() as int) =~= orig@);
    }
    Ok(Program(out))
}


/// The labels that `s` declares, in the statements the pass looks into.
pub open spec fn defined_labels(s: StatementView) -> Set<Seq<char>>
    decreases s, 0nat,
{
    match s {
        StatementView::Labeled(l, body) => set![l] + defined_labels(*body),
        StatementView::If { condition: _, then_branch, else_branch } => defined_labels(*then_branch)
            + match else_branch {
            Some(e) => defined_labels(*e),
            None => Set::empty(),
        },
        StatementView::Case(_, body, _) => defined_labels(*body),
        StatementView::Default(body, _) => defined_labels(*body),
        StatementView::While { condition: _, body, label: _ } => defined_labels(*body),
        StatementView::DoWhile { body, condition: _, label: _ } => defined_labels(*body),
        StatementView::For { init: _, condition: _, post: _, body, label: _ } => defined_labels(*body),
        StatementView::Switch { condition: _, body, .. } => defined_labels(*body),
        StatementView::Block(items) => defined_labels_items(items),
        _ => Set::empty(),
    }
}

pub open spec fn defined_labels_items(items: Seq<BlockItemView>) -> Set<Seq<char>>
    decreases items, items.len(),
{
    if items.len() == 0 {
        Set::empty()
    } else {
        defined_labels_items(items.drop_last()) + match items.last() {
            BlockItemView::Statement(s) => defined_labels(s),
            BlockItemView::Declaration(_) => Set::empty(),
        }
    }
}

/// The labels that the gotos of `s` name.
pub open spec fn goto_targets(s: StatementView) -> Set<Seq<char>>
    decreases s, 0nat,
{
    match s {
        StatementView::Goto(l) => set![l],
        StatementView::Labeled(_, body) => goto_targets(*body),
        StatementView::If { condition: _, then_branch, else_branch } => goto_targets(*then_branch)
            + match else_branch {
            Some(e) => goto_targets(*e),
            None => Set::empty(),
        },
        StatementView::Case(_, body, _) => goto_targets(*body),
        StatementView::Default(body, _) => goto_targets(*body),
        StatementView::While { condition: _, body, label: _ } => goto_targets(*body),
        StatementView::DoWhile { body, condition: _, label: _ } => goto_targets(*body),
        StatementView::For { init: _, condition: _, post: _, body, label: _ } => goto_targets(*body),
        StatementView::Switch { condition: _, body, .. } => goto_targets(*body),
        StatementView::Block(items) => goto_targets_items(items),
        _ => Set::empty(),
    }
}

pub open spec fn goto_targets_items(items: Seq<BlockItemView>) -> Set<Seq<char>>
    decreases items, items.len(),
{
    if items.len() == 0 {
        Set::empty()
    } else {
        goto_targets_items(items.drop_last()) + match items.last() {
            BlockItemView::Statement(s) => goto_targets(s),
            BlockItemView::Declaration(_) => Set::empty(),
        }
    }
}

/// Every binding of `new` is one of `old`, or names a label in `defs`.
pub open spec fn bindings_within(
    old: Map<Seq<char>, Seq<char>>,
    new: Map<Seq<char>, Seq<char>>,
    defs: Set<Seq<char>>,
) -> bool {
    forall|k: Seq<char>| #[trigger]
        new.contains_key(k) ==> (old.contains_key(k) && new[k] == old[k]) || defs.contains(new[k])
}

proof fn lemma_collect_bindings(s: StatementView, st: LabelState)
    requires
        spec_collect_statement(s, st) is Ok,
    ensures
        bindings_within(
            st.labels,
            spec_collect_statement(s, st)->Ok_0.1.labels,
            defined_labels(spec_collect_statement(s, st)->Ok_0.0),
        ),
    decreases s, 0nat,
{
    let (out, st2) = spec_collect_statement(s, st)->Ok_0;
    match s {
        StatementView::Labeled(l, body) => {
            let u = label_name(l, st.counter);
            let st1 = LabelState { labels: st.labels.insert(l, u), counter: bump(st.counter) };
            lemma_collect_bindings(*body, st1);
            let b2 = spec_collect_statement(*body, st1)->Ok_0.0;
            assert(out == StatementView::Labeled(u, Box::new(b2)));
            assert(defined_labels(out) == set![u] + defined_labels(b2));
        },
        StatementView::If { condition, then_branch, else_branch } => {
            lemma_collect_bindings(*then_branch, st);
            let (t2, st1) = spec_collect_statement(*then_branch, st)->Ok_0;
            match else_branch {
                Some(e) => {
                    lemma_collect_bindings(*e, st1);
                    let e2 = spec_collect_statement(*e, st1)->Ok_0.0;
                    assert(out == StatementView::If {
                        condition,
                        then_branch: Box::new(t2),
                        else_branch: Some(Box::new(e2)),
                    });
                    assert(defined_labels(out) == defined_labels(t2) + defined_labels(e2));
                },
                None => {
                    assert(out == StatementView::If {
                        condition,
                        then_branch: Box::new(t2),
                        else_branch: None,
                    });
                    assert(defined_labels(out) == defined_labels(t2) + Set::<Seq<char>>::empty());
                },
            }
        },
        StatementView::Case(e, body, l) => {
            lemma_collect_bindings(*body, st);
        },
        StatementView::Default(body, l) => {
            lemma_collect_bindings(*body, st);
        },
        StatementView::While { condition, body, label } => {
            lemma_collect_bindings(*body, st);
        },
        StatementView::DoWhile { body, condition, label } => {
            lemma_collect_bindings(*body, st);
        },
        StatementView::For { init, condition, post, body, label } => {
            lemma_collect_bindings(*body, st);
        },
        StatementView::Switch { condition, body, label, cases, default_exists } => {
            lemma_collect_bindings(*body, st);
        },
        StatementView::Block(items) => {
            lemma_collect_bindings_items(items, st);
        },
        _ => {},
    }
}

proof fn lemma_collect_bindings_items(items: Seq<BlockItemView>, st: LabelState)
    requires
        spec_collect_items(items, st) is Ok,
    ensures
        bindings_within(
            st.labels,
            spec_collect_items(items, st)->Ok_0.1.labels,
            defined_labels_items(spec_collect_items(items, st)->Ok_0.0),
        ),
    decreases items, items.len(),
{
    if items.len() == 0 {
    } else {
        lemma_collect_bindings_items(items.drop_last(), st);
        let (done, st1) = spec_collect_items(items.drop_last(), st)->Ok_0;
        let last = items.last();
        assert(spec_collect_item(last, st1) is Ok);
        let (x, st2) = spec_collect_item(last, st1)->Ok_0;
        let xdefs = match x {
            BlockItemView::Statement(s2) => defined_labels(s2),
            BlockItemView::Declaration(_) => Set::empty(),
        };
        match last {
            BlockItemView::Statement(s) => {
                lemma_collect_bindings(s, st1);
            },
            BlockItemView::Declaration(_) => {},
        }
        assert(bindings_within(st1.labels, st2.labels, xdefs));
        let out = spec_collect_items(items, st)->Ok_0.0;
        assert(out.drop_last() =~= done);
        assert(out.last() == x);
        assert(defined_labels_items(out) == defined_labels_items(done) + xdefs);
    }
}

proof fn lemma_goto_targets(s: StatementView, m: Map<Seq<char>, Seq<char>>, defs: Set<Seq<char>>)
    requires
        spec_goto_statement(s, m) is Ok,
        forall|k: Seq<char>| #[trigger] m.contains_key(k) ==> defs.contains(m[k]),
    ensures
        goto_targets(spec_goto_statement(s, m)->Ok_0).subset_of(defs),
        defined_labels(spec_goto_statement(s, m)->Ok_0) == defined_labels(s),
    decreases s, 0nat,
{
    let out = spec_goto_statement(s, m)->Ok_0;
    match s {
        StatementView::Goto(l) => {
            assert(out == StatementView::Goto(m[l]));
            assert(goto_targets(out) =~= set![m[l]]);
        },
        StatementView::Labeled(l, body) => {
            lemma_goto_targets(*body, m, defs);
        },
        StatementView::If { condition, then_branch, else_branch } => {
            lemma_goto_targets(*then_branch, m, defs);
            let t2 = spec_goto_statement(*then_branch, m)->Ok_0;
            match else_branch {
                Some(e) => {
                    lemma_goto_targets(*e, m, defs);
                    let e2 = spec_goto_statement(*e, m)->Ok_0;
                    assert(out == StatementView::If {
                        condition,
                        then_branch: Box::new(t2),
                        else_branch: Some(Box::new(e2)),
                    });
                },
                None => {
                    assert(out == StatementView::If {
                        condition,
                        then_branch: Box::new(t2),
                        else_branch: None,
                    });
                    assert(goto_targets(out) =~= goto_targets(t2));
                },
            }
        },
        StatementView::Case(e, body, l) => {
            lemma_goto_targets(*body, m, defs);
        },
        StatementView::Default(body, l) => {
            lemma_goto_targets(*body, m, defs);
        },
        StatementView::While { condition, body, label } => {
            lemma_goto_targets(*body, m, defs);
        },
        StatementView::DoWhile { body, condition, label } => {
            lemma_goto_targets(*body, m, defs);
        },
        StatementView::For { init, condition, post, body, label } => {
            lemma_goto_targets(*body, m, defs);
        },
        StatementView::Switch { condition, body, label, cases, default_exists } => {
            lemma_goto_targets(*body, m, defs);
        },
        StatementView::Block(items) => {
            lemma_goto_targets_items(items, m, defs);
        },
        _ => {
            assert(goto_targets(out) =~= Set::<Seq<char>>::empty());
        },
    }
}

proof fn lemma_goto_targets_items(
    items: Seq<BlockItemView>,
    m: Map<Seq<char>, Seq<char>>,
    defs: Set<Seq<char>>,
)
    requires
        spec_goto_items(items, m) is Ok,
        forall|k: Seq<char>| #[trigger] m.contains_key(k) ==> defs.contains(m[k]),
    ensures
        goto_targets_items(spec_goto_items(items, m)->Ok_0).subset_of(defs),
        defined_labels_items(spec_goto_items(items, m)->Ok_0) == defined_labels_items(items),
    decreases items, items.len(),
{
    if items.len() == 0 {
        assert(spec_goto_items(items, m)->Ok_0 =~= items);
        assert(goto_targets_items(items) =~= Set::<Seq<char>>::empty());
    } else {
        lemma_goto_targets_items(items.drop_last(), m, defs);
        let done = spec_goto_items(items.drop_last(), m)->Ok_0;
        let last = items.last();
        assert(spec_goto_item(last, m) is Ok);
        let x = spec_goto_item(last, m)->Ok_0;
        match last {
            BlockItemView::Statement(s) => {
                lemma_goto_targets(s, m, defs);
                assert(x == BlockItemView::Statement(spec_goto_statement(s, m)->Ok_0));
            },
            BlockItemView::Declaration(_) => {
                assert(x == last);
            },
        }
        let out = spec_goto_items(items, m)->Ok_0;
        assert(out.drop_last() =~= done);
        assert(out.last() == x);
    }
}

/// In a function body that label resolution gives, every goto names a label
/// that the same body declares.
pub proof fn law_gotos_target_declared_labels(body: Seq<BlockItemView>, counter: usize)
    requires
        spec_labels_body(body, counter) is Ok,
    ensures
        goto_targets_items(spec_labels_body(body, counter)->Ok_0.0).subset_of(
            defined_labels_items(spec_labels_body(body, counter)->Ok_0.0),
        ),
{
    let st0 = LabelState { labels: Map::empty(), counter };
    let (b1, st) = spec_collect_items(body, st0)->Ok_0;
    lemma_collect_bindings_items(body, st0);
    let defs = defined_labels_items(b1);
    assert forall|k: Seq<char>| #[trigger] st.labels.contains_key(k) implies defs.contains(
        st.labels[k],
    ) by {}
    lemma_goto_targets_items(b1, st.labels, defs);
}


/// Every goto of a function body names a label of that body.
pub open spec fn gotos_resolved(d: DeclarationView) -> bool {
    match d {
        DeclarationView::Function(f) => match f.body {
            Some(b) => goto_targets_items(b).subset_of(defined_labels_items(b)),
            None => true,
        },
        DeclarationView::Variable(_) => true,
    }
}

proof fn lemma_labels_declarations_resolved(ds: Seq<DeclarationView>, counter: usize)
    requires
        spec_labels_declarations(ds, counter) is Ok,
    ensures
        forall|i: int|
            0 <= i < spec_labels_declarations(ds, counter)->Ok_0.0.len() ==> gotos_resolved(
                #[trigger] spec_labels_declarations(ds, counter)->Ok_0.0[i],
            ),
    decreases ds.len(),
{
    if ds.len() > 0 {
        lemma_labels_declarations_resolved(ds.drop_last(), counter);
        let (done, c1) = spec_labels_declarations(ds.drop_last(), counter)->Ok_0;
        let last = ds.last();
        assert(spec_labels_declaration(last, c1) is Ok);
        let x = spec_labels_declaration(last, c1)->Ok_0.0;
        match last {
            DeclarationView::Function(f) => match f.body {
                Some(body) => {
                    law_gotos_target_declared_labels(body, c1);
                },
                None => {},
            },
            DeclarationView::Variable(v) => {
                assert(x == last);
            },
        }
        assert(gotos_resolved(x));
        let out = spec_labels_declarations(ds, counter)->Ok_0.0;
        assert forall|i: int| 0 <= i < out.len() implies gotos_resolved(#[trigger] out[i]) by {
            if i < done.len() {
                assert(out[i] == done[i]);
            } else {
                assert(out[i] == x);
            }
        }
    }
}

/// After label resolution succeeds, every goto of every function names a
/// label declared in that same function.
pub proof fn law_resolved_gotos_stay_in_their_function(p: Seq<DeclarationView>, counter: usize)
    requires
        spec_labels_declarations(p, counter) is Ok,
    ensures
        forall|i: int|
            0 <= i < spec_labels_declarations(p, counter)->Ok_0.0.len() ==> gotos_resolved(
                #[trigger] spec_labels_declarations(p, counter)->Ok_0.0[i],
            ),
{
    lemma_labels_declarations_resolved(p, counter);
}

} // verus!
