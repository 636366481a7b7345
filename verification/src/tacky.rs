//! TACKY, the three-address intermediate form, and the lowering of the
//! resolved syntax tree into it.
use vstd::prelude::*;

use crate::names::{bump, bump_count, decimal, numbered, numbered_name, push_decimal};
use crate::parser::{
    lemma_typed_expressions_view_index, strings_view, ArgumentList,
    Expression, Factor, Postfix, Primary, TypedExpression, Block, BlockItem, Declaration,
    ForInit, Statement, VariableDeclaration, Program as AstProgram, FuncDeclaration,
    lemma_block_items_view_index,
    lemma_declarations_view_index,
    BinaryOperator as AstBinaryOperator, BlockItemView, DeclarationView, ExpressionView,
    FactorView, ForInitView, PostfixOp, PrimaryView, StatementView, TypedExpressionView,
    UnaryOperator, VariableDeclarationView,
};
use crate::resolve_labels::{
    defined_labels, defined_labels_items, goto_targets, goto_targets_items,
};
use crate::semantic_analysis::{get_expression_value, spec_expression_value};
use crate::types::Constant;

verus! {

#[derive(Debug, Clone, Copy, PartialEq, Eq, Structural)]
pub enum BinaryOperator {
    Add,
    Subtract,
    Multiply,
    Divide,
    Remainder,
    BitwiseAnd,
    BitwiseOr,
    BitwiseXor,
    LeftShift,
    RightShift,
    Equal,
    NotEqual,
    LessThan,
    GreaterThan,
    LessEqual,
    GreaterEqual,
}

#[derive(Debug)]
pub enum Value {
    Constant(u32),
    Var(String),
}

#[derive(Debug)]
pub enum Instruction {
    Return(Value),
    UnaryOp { op: UnaryOperator, src: Value, dst: Value },
    BinaryOp { op: BinaryOperator, val1: Value, val2: Value, dst: Value },
    Copy { src: Value, dst: Value },
    Jump(String),
    JumpIfZero { val: Value, target: String },
    JumpIfNotZero { val: Value, target: String },
    Label(String),
    FunCall { name: String, args: Vec<Value>, dst: Value },
}

#[derive(Debug)]
pub struct FuncDef {
    pub identifier: String,
    pub params: Vec<String>,
    pub body: Vec<Instruction>,
}

#[derive(Debug)]
pub struct Program(pub Vec<FuncDef>);

pub enum ValueView {
    Constant(u32),
    Var(Seq<char>),
}

pub enum InstructionView {
    Return(ValueView),
    UnaryOp { op: UnaryOperator, src: ValueView, dst: ValueView },
    BinaryOp { op: BinaryOperator, val1: ValueView, val2: ValueView, dst: ValueView },
    Copy { src: ValueView, dst: ValueView },
    Jump(Seq<char>),
    JumpIfZero { val: ValueView, target: Seq<char> },
    JumpIfNotZero { val: ValueView, target: Seq<char> },
    Label(Seq<char>),
    FunCall { name: Seq<char>, args: Seq<ValueView>, dst: ValueView },
}

pub struct FuncDefView {
    pub identifier: Seq<char>,
    pub params: Seq<Seq<char>>,
    pub body: Seq<InstructionView>,
}

impl View for Value {
    type V = ValueView;

    open spec fn view(&self) -> ValueView {
        match self {
            Value::Constant(c) => ValueView::Constant(*c),
            Value::Var(s) => ValueView::Var(s@),
        }
    }
}

pub open spec fn values_view(v: Seq<Value>) -> Seq<ValueView> {
    v.map_values(|x: Value| x@)
}

impl View for Instruction {
    type V = InstructionView;

    open spec fn view(&self) -> InstructionView {
        match self {
            Instruction::Return(v) => InstructionView::Return(v@),
            Instruction::UnaryOp { op, src, dst } => InstructionView::UnaryOp {
                op: *op,
                src: src@,
                dst: dst@,
            },
            Instruction::BinaryOp { op, val1, val2, dst } => InstructionView::BinaryOp {
                op: *op,
                val1: val1@,
                val2: val2@,
                dst: dst@,
            },
            Instruction::Copy { src, dst } => InstructionView::Copy { src: src@, dst: dst@ },
            Instruction::Jump(l) => InstructionView::Jump(l@),
            Instruction::JumpIfZero { val, target } => InstructionView::JumpIfZero {
                val: val@,
                target: target@,
            },
            Instruction::JumpIfNotZero { val, target } => InstructionView::JumpIfNotZero {
                val: val@,
                target: target@,
            },
            Instruction::Label(l) => InstructionView::Label(l@),
            Instruction::FunCall { name, args, dst } => InstructionView::FunCall {
                name: name@,
                args: values_view(args@),
                dst: dst@,
            },
        }
    }
}

pub open spec fn instructions_view(v: Seq<Instruction>) -> Seq<InstructionView> {
    v.map_values(|x: Instruction| x@)
}

impl View for FuncDef {
    type V = FuncDefView;

    open spec fn view(&self) -> FuncDefView {
        FuncDefView {
            identifier: self.identifier@,
            params: strings_view(self.params@),
            body: instructions_view(self.body@),
        }
    }
}

impl View for Program {
    type V = Seq<FuncDefView>;

    open spec fn view(&self) -> Seq<FuncDefView> {
        self.0@.map_values(|f: FuncDef| f@)
    }
}

/// The counters that number temporaries and jump labels.
#[derive(Clone, Copy)]
pub struct TackyCounters {
    pub unary: usize,
    pub binary: usize,
    pub label: usize,
    pub call: usize,
}

pub open spec fn tacky_binary_op(op: AstBinaryOperator) -> Option<BinaryOperator> {
    match op {
        AstBinaryOperator::Add => Some(BinaryOperator::Add),
        AstBinaryOperator::Subtract => Some(BinaryOperator::Subtract),
        AstBinaryOperator::Multiply => Some(BinaryOperator::Multiply),
        AstBinaryOperator::Divide => Some(BinaryOperator::Divide),
        AstBinaryOperator::Remainder => Some(BinaryOperator::Remainder),
        AstBinaryOperator::BitwiseAnd => Some(BinaryOperator::BitwiseAnd),
        AstBinaryOperator::BitwiseOr => Some(BinaryOperator::BitwiseOr),
        AstBinaryOperator::BitwiseXor => Some(BinaryOperator::BitwiseXor),
        AstBinaryOperator::LeftShift => Some(BinaryOperator::LeftShift),
        AstBinaryOperator::RightShift => Some(BinaryOperator::RightShift),
        AstBinaryOperator::Equal => Some(BinaryOperator::Equal),
        AstBinaryOperator::NotEqual => Some(BinaryOperator::NotEqual),
        AstBinaryOperator::LessThan => Some(BinaryOperator::LessThan),
        AstBinaryOperator::GreaterThan => Some(BinaryOperator::GreaterThan),
        AstBinaryOperator::LessEqual => Some(BinaryOperator::LessEqual),
        AstBinaryOperator::GreaterEqual => Some(BinaryOperator::GreaterEqual),
        _ => None,
    }
}

/// A constant as the 32 bits that TACKY carries.
pub open spec fn constant_bits(c: Constant) -> u32 {
    match c {
        Constant::Int(v) => v as u32,
        Constant::Long(v) => v as u32,
    }
}

pub open spec fn unary_temp(n: usize) -> ValueView {
    ValueView::Var(numbered("unary_op"@, ""@, n as nat))
}

pub open spec fn binary_temp(n: usize) -> ValueView {
    ValueView::Var(numbered("binary_op"@, ""@, n as nat))
}

pub open spec fn call_temp(n: usize) -> ValueView {
    ValueView::Var(numbered("call"@, ""@, n as nat))
}

pub open spec fn jump_label(name: Seq<char>, n: usize) -> Seq<char> {
    numbered("label_"@, name, n as nat)
}

/// The counters after two jump labels were taken.
pub open spec fn two_labels(c: TackyCounters) -> TackyCounters {
    TackyCounters { label: bump(bump(c.label)), ..c }
}

/// The counters after two jump labels and a result temporary were taken.
pub open spec fn two_labels_and_temp(c: TackyCounters) -> TackyCounters {
    TackyCounters { label: bump(bump(c.label)), binary: bump(c.binary), ..c }
}

pub open spec fn step_op(op: UnaryOperator) -> BinaryOperator {
    if op == UnaryOperator::PrefixIncrement {
        BinaryOperator::Add
    } else {
        BinaryOperator::Subtract
    }
}

pub open spec fn postfix_step_op(op: PostfixOp) -> BinaryOperator {
    if op == PostfixOp::PostfixIncrement {
        BinaryOperator::Add
    } else {
        BinaryOperator::Subtract
    }
}

pub type Lowered = (Seq<InstructionView>, ValueView, TackyCounters);

pub open spec fn spec_tacky_expression(e: TypedExpressionView, c: TackyCounters) -> Lowered
    decreases e, 3nat,
{
    match e.expression {
        ExpressionView::Factor(f) => spec_tacky_factor(f, c),
        ExpressionView::BinaryOp { op, left, right } => match tacky_binary_op(op) {
            Some(bop) => {
                let (i1, v1, c1) = spec_tacky_expression(*left, c);
                let (i2, v2, c2) = spec_tacky_expression(*right, c1);
                let dst = binary_temp(c2.binary);
                (
                    i1 + i2 + seq![InstructionView::BinaryOp { op: bop, val1: v1, val2: v2, dst }],
                    dst,
                    TackyCounters { binary: bump(c2.binary), ..c2 },
                )
            },
            None => {
                let end = jump_label("binop_end"@, c.label);
                let out = binary_temp(c.binary);
                if op == AstBinaryOperator::LogicalAnd {
                    let f = jump_label("binop_false"@, bump(c.label));
                    let (i1, v1, c1) = spec_tacky_expression(*left, two_labels_and_temp(c));
                    let (i2, v2, c2) = spec_tacky_expression(*right, c1);
                    (
                        i1 + seq![InstructionView::JumpIfZero { val: v1, target: f }] + i2 + seq![
                            InstructionView::JumpIfZero { val: v2, target: f },
                            InstructionView::Copy { src: ValueView::Constant(1), dst: out },
                            InstructionView::Jump(end),
                            InstructionView::Label(f),
                            InstructionView::Copy { src: ValueView::Constant(0), dst: out },
                            InstructionView::Label(end),
                        ],
                        out,
                        c2,
                    )
                } else {
                    let t = jump_label("binop_true"@, bump(c.label));
                    let (i1, v1, c1) = spec_tacky_expression(*left, two_labels_and_temp(c));
                    let (i2, v2, c2) = spec_tacky_expression(*right, c1);
                    (
                        i1 + seq![InstructionView::JumpIfNotZero { val: v1, target: t }] + i2
                            + seq![
                            InstructionView::JumpIfNotZero { val: v2, target: t },
                            InstructionView::Copy { src: ValueView::Constant(0), dst: out },
                            InstructionView::Jump(end),
                            InstructionView::Label(t),
                            InstructionView::Copy { src: ValueView::Constant(1), dst: out },
                            InstructionView::Label(end),
                        ],
                        out,
                        c2,
                    )
                }
            },
        },
        ExpressionView::Assignment { left, right } => {
            let (i1, rv, c1) = spec_tacky_expression(*right, c);
            let (_, lv, c2) = spec_tacky_expression(*left, c1);
            (i1.push(InstructionView::Copy { src: rv, dst: lv }), lv, c2)
        },
        ExpressionView::Conditional { condition, then_branch, else_branch } => {
            let el = jump_label("cond_else"@, c.label);
            let end = jump_label("cond_end"@, bump(c.label));
            let out = binary_temp(c.binary);
            let (i1, cv, c1) = spec_tacky_expression(*condition, two_labels_and_temp(c));
            let (i2, tv, c2) = spec_tacky_expression(*then_branch, c1);
            let (i3, ev, c3) = spec_tacky_expression(*else_branch, c2);
            (
                i1 + seq![InstructionView::JumpIfZero { val: cv, target: el }] + i2 + seq![
                    InstructionView::Copy { src: tv, dst: out },
                    InstructionView::Jump(end),
                    InstructionView::Label(el),
                ] + i3 + seq![
                    InstructionView::Copy { src: ev, dst: out },
                    InstructionView::Label(end),
                ],
                out,
                c3,
            )
        },
    }
}

pub open spec fn spec_tacky_factor(f: FactorView, c: TackyCounters) -> Lowered
    decreases f, 2nat,
{
    match f {
        FactorView::UnaryOp { op, fac } => {
            let (i, v, c1) = spec_tacky_factor(*fac, c);
            let dst = unary_temp(c1.unary);
            let c2 = TackyCounters { unary: bump(c1.unary), ..c1 };
            if op == UnaryOperator::PrefixIncrement || op == UnaryOperator::PrefixDecrement {
                (
                    i + seq![
                        InstructionView::BinaryOp {
                            op: step_op(op),
                            val1: v,
                            val2: ValueView::Constant(1),
                            dst,
                        },
                        InstructionView::Copy { src: dst, dst: v },
                    ],
                    dst,
                    c2,
                )
            } else {
                (i.push(InstructionView::UnaryOp { op, src: v, dst }), dst, c2)
            }
        },
        FactorView::Postfix(p) => {
            let (i, v, c1) = spec_tacky_primary(p.primary, c);
            if p.postfix.len() > 0 {
                let dst = unary_temp(c1.unary);
                (
                    i + seq![
                        InstructionView::Copy { src: v, dst },
                        InstructionView::BinaryOp {
                            op: postfix_step_op(p.postfix[0]),
                            val1: dst,
                            val2: ValueView::Constant(1),
                            dst: v,
                        },
                    ],
                    dst,
                    TackyCounters { unary: bump(c1.unary), ..c1 },
                )
            } else {
                (i, v, c1)
            }
        },
        FactorView::Cast { ty: _, fac } => spec_tacky_factor(*fac, c),
    }
}

pub open spec fn spec_tacky_primary(p: PrimaryView, c: TackyCounters) -> Lowered
    decreases p, 1nat,
{
    match p {
        PrimaryView::Constant(k) => (seq![], ValueView::Constant(constant_bits(k)), c),
        PrimaryView::Var(id) => (seq![], ValueView::Var(id), c),
        PrimaryView::Paren(e) => spec_tacky_expression(*e, c),
        PrimaryView::FunctionCall(name, args) => {
            let (i, vs, c1) = spec_tacky_arguments(args, c);
            let dst = call_temp(c1.call);
            (
                i.push(InstructionView::FunCall { name, args: vs, dst }),
                dst,
                TackyCounters { call: bump(c1.call), ..c1 },
            )
        },
    }
}

/// The arguments of a call, evaluated from first to last.
pub open spec fn spec_tacky_arguments(args: Seq<TypedExpressionView>, c: TackyCounters) -> (
    Seq<InstructionView>,
    Seq<ValueView>,
    TackyCounters,
)
    decreases args, args.len(),
{
    if args.len() == 0 {
        (seq![], seq![], c)
    } else {
        let (i1, vs, c1) = spec_tacky_arguments(args.drop_last(), c);
        let (i2, v, c2) = spec_tacky_expression(args.last(), c1);
        (i1 + i2, vs.push(v), c2)
    }
}


/// The label a resolved construct carries.
pub open spec fn label_of(l: Option<Seq<char>>) -> Seq<char> {
    match l {
        Some(x) => x,
        None => seq![],
    }
}

/// The value of a case label, as TACKY carries it.
pub open spec fn case_bits(e: TypedExpressionView) -> u32 {
    match spec_expression_value(e.expression) {
        Some(k) => constant_bits(k),
        None => 0,
    }
}

/// The jump label of the case with value `k` in the switch labelled `l`.
pub open spec fn case_label(l: Seq<char>, k: u32) -> Seq<char> {
    l + ".case."@ + decimal(k as nat)
}

pub open spec fn continue_label(l: Seq<char>) -> Seq<char> {
    l + ".continue"@
}

pub open spec fn break_label(l: Seq<char>) -> Seq<char> {
    l + ".break"@
}

pub open spec fn start_label(l: Seq<char>) -> Seq<char> {
    l + ".start"@
}

pub open spec fn default_label(l: Seq<char>) -> Seq<char> {
    l + ".default"@
}

/// The tests of a switch: the controlling value against each case value in
/// turn, jumping to the first that is equal.
pub open spec fn spec_switch_dispatch(
    cases: Seq<Constant>,
    v: ValueView,
    l: Seq<char>,
    c: TackyCounters,
) -> (Seq<InstructionView>, TackyCounters)
    decreases cases.len(),
{
    if cases.len() == 0 {
        (seq![], c)
    } else {
        let (i1, c1) = spec_switch_dispatch(cases.drop_last(), v, l, c);
        let k = constant_bits(cases.last());
        let tmp = binary_temp(c1.binary);
        (
            i1 + seq![
                InstructionView::BinaryOp {
                    op: BinaryOperator::Equal,
                    val1: v,
                    val2: ValueView::Constant(k),
                    dst: tmp,
                },
                InstructionView::JumpIfNotZero { val: tmp, target: case_label(l, k) },
            ],
            TackyCounters { binary: bump(c1.binary), ..c1 },
        )
    }
}

/// A block-scope variable without storage class is assigned its
/// initialiser where it is declared; other declarations produce nothing.
pub open spec fn spec_tacky_local_variable(d: VariableDeclarationView, c: TackyCounters) -> (
    Seq<InstructionView>,
    TackyCounters,
) {
    match d.initialiser {
        Some(e) => if d.storage_class is None {
            let (i, v, c1) = spec_tacky_expression(e, c);
            (i.push(InstructionView::Copy { src: v, dst: ValueView::Var(d.identifier) }), c1)
        } else {
            (seq![], c)
        },
        None => (seq![], c),
    }
}

pub open spec fn spec_tacky_optional(e: Option<TypedExpressionView>, c: TackyCounters) -> (
    Seq<InstructionView>,
    TackyCounters,
) {
    match e {
        Some(x) => {
            let (i, _, c1) = spec_tacky_expression(x, c);
            (i, c1)
        },
        None => (seq![], c),
    }
}

pub open spec fn spec_tacky_statement(s: StatementView, c: TackyCounters) -> (
    Seq<InstructionView>,
    TackyCounters,
)
    decreases s, 0nat,
{
    match s {
        StatementView::Return(e) => {
            let (i, v, c1) = spec_tacky_expression(e, c);
            (i.push(InstructionView::Return(v)), c1)
        },
        StatementView::Expression(e) => {
            let (i, _, c1) = spec_tacky_expression(e, c);
            (i, c1)
        },
        StatementView::Null => (seq![], c),
        StatementView::If { condition, then_branch, else_branch } => {
            let el = jump_label("if_else"@, c.label);
            let end = jump_label("if_end"@, bump(c.label));
            let (i1, v, c1) = spec_tacky_expression(condition, two_labels(c));
            let (i2, c2) = spec_tacky_statement(*then_branch, c1);
            let (i3, c3) = match else_branch {
                Some(e) => spec_tacky_statement(*e, c2),
                None => (seq![], c2),
            };
            (
                i1 + seq![InstructionView::JumpIfZero { val: v, target: el }] + i2 + seq![
                    InstructionView::Jump(end),
                    InstructionView::Label(el),
                ] + i3 + seq![InstructionView::Label(end)],
                c3,
            )
        },
        StatementView::Block(items) => spec_tacky_items(items, c),
        StatementView::Labeled(l, body) => {
            let (i, c1) = spec_tacky_statement(*body, c);
            (seq![InstructionView::Label(l)] + i, c1)
        },
        StatementView::Goto(l) => (seq![InstructionView::Jump(l)], c),
        StatementView::Break(l) => (seq![InstructionView::Jump(break_label(label_of(l)))], c),
        StatementView::Continue(l) => (seq![InstructionView::Jump(continue_label(label_of(l)))], c),
        StatementView::While { condition, body, label } => {
            let l = label_of(label);
            let (i1, v, c1) = spec_tacky_expression(condition, c);
            let (i2, c2) = spec_tacky_statement(*body, c1);
            (
                seq![InstructionView::Label(continue_label(l))] + i1 + seq![
                    InstructionView::JumpIfZero { val: v, target: break_label(l) },
                ] + i2 + seq![
                    InstructionView::Jump(continue_label(l)),
                    InstructionView::Label(break_label(l)),
                ],
                c2,
            )
        },
        StatementView::DoWhile { body, condition, label } => {
            let l = label_of(label);
            let (i1, c1) = spec_tacky_statement(*body, c);
            let (i2, v, c2) = spec_tacky_expression(condition, c1);
            (
                seq![InstructionView::Label(start_label(l))] + i1 + seq![
                    InstructionView::Label(continue_label(l)),
                ] + i2 + seq![
                    InstructionView::JumpIfNotZero { val: v, target: start_label(l) },
                    InstructionView::Label(break_label(l)),
                ],
                c2,
            )
        },
        StatementView::For { init, condition, post, body, label } => {
            let l = label_of(label);
            let (i0, c0) = match init {
                ForInitView::Declaration(d) => spec_tacky_local_variable(d, c),
                ForInitView::Expression(e) => spec_tacky_optional(e, c),
            };
            let (i1, c1) = match condition {
                Some(e) => {
                    let (ic, v, cc) = spec_tacky_expression(e, c0);
                    (ic.push(InstructionView::JumpIfZero { val: v, target: break_label(l) }), cc)
                },
                None => (seq![], c0),
            };
            let (i2, c2) = spec_tacky_statement(*body, c1);
            let (i3, c3) = spec_tacky_optional(post, c2);
            (
                i0 + seq![InstructionView::Label(start_label(l))] + i1 + i2 + seq![
                    InstructionView::Label(continue_label(l)),
                ] + i3 + seq![
                    InstructionView::Jump(start_label(l)),
                    InstructionView::Label(break_label(l)),
                ],
                c3,
            )
        },
        StatementView::Switch { condition, body, label, cases, default_exists } => {
            let l = label_of(label);
            let (i1, v, c1) = spec_tacky_expression(condition, c);
            let (i2, c2) = spec_switch_dispatch(cases, v, l, c1);
            let tail = if default_exists {
                InstructionView::Jump(default_label(l))
            } else {
                InstructionView::Jump(break_label(l))
            };
            let (i3, c3) = spec_tacky_statement(*body, c2);
            (i1 + i2 + seq![tail] + i3 + seq![InstructionView::Label(break_label(l))], c3)
        },
        StatementView::Case(e, body, l) => {
            let (i, c1) = spec_tacky_statement(*body, c);
            (seq![InstructionView::Label(case_label(label_of(l), case_bits(e)))] + i, c1)
        },
        StatementView::Default(body, l) => {
            let (i, c1) = spec_tacky_statement(*body, c);
            (seq![InstructionView::Label(default_label(label_of(l)))] + i, c1)
        },
    }
}

pub open spec fn spec_tacky_item(item: BlockItemView, c: TackyCounters) -> (
    Seq<InstructionView>,
    TackyCounters,
)
    decreases item, 1nat,
{
    match item {
        BlockItemView::Statement(s) => spec_tacky_statement(s, c),
        BlockItemView::Declaration(DeclarationView::Variable(d)) => spec_tacky_local_variable(d, c),
        BlockItemView::Declaration(DeclarationView::Function(_)) => (seq![], c),
    }
}

pub open spec fn spec_tacky_items(items: Seq<BlockItemView>, c: TackyCounters) -> (
    Seq<InstructionView>,
    TackyCounters,
)
    decreases items, items.len(),
{
    if items.len() == 0 {
        (seq![], c)
    } else {
        let (i1, c1) = spec_tacky_items(items.drop_last(), c);
        let (i2, c2) = spec_tacky_item(items.last(), c1);
        (i1 + i2, c2)
    }
}

/// Each function with a body becomes a TACKY function that ends by
/// returning zero; other declarations produce nothing.
pub open spec fn spec_tacky_declarations(ds: Seq<DeclarationView>, c: TackyCounters) -> (
    Seq<FuncDefView>,
    TackyCounters,
)
    decreases ds.len(),
{
    if ds.len() == 0 {
        (seq![], c)
    } else {
        let (fs, c1) = spec_tacky_declarations(ds.drop_last(), c);
        match ds.last() {
            DeclarationView::Function(f) => match f.body {
                Some(b) => {
                    let (i, c2) = spec_tacky_items(b, c1);
                    (
                        fs.push(
                            FuncDefView {
                                identifier: f.identifier,
                                params: f.parameters,
                                body: i.push(InstructionView::Return(ValueView::Constant(0))),
                            },
                        ),
                        c2,
                    )
                },
                None => (fs, c1),
            },
            DeclarationView::Variable(_) => (fs, c1),
        }
    }
}

pub open spec fn zero_counters() -> TackyCounters {
    TackyCounters { unary: 0, binary: 0, label: 0, call: 0 }
}

/// The TACKY program of a resolved syntax tree.
pub open spec fn spec_to_tacky(p: Seq<DeclarationView>) -> Seq<FuncDefView> {
    spec_tacky_declarations(p, zero_counters()).0
}

/// Every loop, switch, `break`, `continue`, `case` and `default` carries
/// the label that loop resolution gives it, and every case value is a
/// constant.
pub open spec fn loops_resolved(s: StatementView) -> bool
    decreases s, 0nat,
{
    match s {
        StatementView::Labeled(_, body) => loops_resolved(*body),
        StatementView::If { condition: _, then_branch, else_branch } => loops_resolved(*then_branch)
            && match else_branch {
            Some(e) => loops_resolved(*e),
            None => true,
        },
        StatementView::Break(l) => l is Some,
        StatementView::Continue(l) => l is Some,
        StatementView::Case(e, body, l) => l is Some && spec_expression_value(e.expression) is Some
            && loops_resolved(*body),
        StatementView::Default(body, l) => l is Some && loops_resolved(*body),
        StatementView::While { condition: _, body, label } => label is Some && loops_resolved(*body),
        StatementView::DoWhile { body, condition: _, label } => label is Some && loops_resolved(
            *body,
        ),
        StatementView::For { init: _, condition: _, post: _, body, label } => label is Some
            && loops_resolved(*body),
        StatementView::Switch { condition: _, body, label, cases: _, default_exists: _ } => label
            is Some && loops_resolved(*body),
        StatementView::Block(items) => loops_resolved_items(items),
        _ => true,
    }
}

pub open spec fn loops_resolved_items(items: Seq<BlockItemView>) -> bool
    decreases items, items.len(),
{
    forall|i: int| 0 <= i < items.len() ==> match #[trigger] items[i] {
        BlockItemView::Statement(s) => loops_resolved(s),
        BlockItemView::Declaration(_) => true,
    }
}

pub open spec fn loops_resolved_program(p: Seq<DeclarationView>) -> bool {
    forall|i: int| 0 <= i < p.len() ==> match #[trigger] p[i] {
        DeclarationView::Function(f) => match f.body {
            Some(b) => loops_resolved_items(b),
            None => true,
        },
        DeclarationView::Variable(_) => true,
    }
}


/// `r` is the lowering `expected` describes, and `after` its counters.
pub open spec fn lowered(r: (Vec<Instruction>, Value), expected: Lowered, after: TackyCounters) -> bool {
    instructions_view(r.0@) == expected.0 && r.1@ == expected.1 && after == expected.2
}

impl Value {
    /// A copy of this value.
    pub fn duplicate(&self) -> (r: Value)
        ensures
            r@ == self@,
    {
        match self {
            Value::Constant(c) => Value::Constant(*c),
            Value::Var(s) => Value::Var(s.clone()),
        }
    }
}

fn emit(v: &mut Vec<Instruction>, i: Instruction)
    ensures
        instructions_view(final(v)@) == instructions_view(old(v)@).push(i@),
{
    let ghost before = v@;
    v.push(i);
    proof {
        assert(instructions_view(v@) =~= instructions_view(before).push(i@));
    }
}

fn emit_all(v: &mut Vec<Instruction>, w: Vec<Instruction>)
    ensures
        instructions_view(final(v)@) == instructions_view(old(v)@) + instructions_view(w@),
{
    let ghost before = v@;
    let mut w = w;
    let ghost wv = w@;
    v.append(&mut w);
    proof {
        assert(instructions_view(v@) =~= instructions_view(before) + instructions_view(wv));
    }
}

fn unary_temp_value(c: &mut TackyCounters) -> (r: Value)
    ensures
        r@ == unary_temp(old(c).unary),
        *final(c) == (TackyCounters { unary: bump(old(c).unary), ..*old(c) }),
{
    let r = Value::Var(numbered_name("unary_op", "", c.unary));
    c.unary = bump_count(c.unary);
    r
}

fn binary_temp_value(c: &mut TackyCounters) -> (r: Value)
    ensures
        r@ == binary_temp(old(c).binary),
        *final(c) == (TackyCounters { binary: bump(old(c).binary), ..*old(c) }),
{
    let r = Value::Var(numbered_name("binary_op", "", c.binary));
    c.binary = bump_count(c.binary);
    r
}

fn call_temp_value(c: &mut TackyCounters) -> (r: Value)
    ensures
        r@ == call_temp(old(c).call),
        *final(c) == (TackyCounters { call: bump(old(c).call), ..*old(c) }),
{
    let r = Value::Var(numbered_name("call", "", c.call));
    c.call = bump_count(c.call);
    r
}

fn next_jump_label(name: &str, c: &mut TackyCounters) -> (r: String)
    ensures
        r@ == jump_label(name@, old(c).label),
        *final(c) == (TackyCounters { label: bump(old(c).label), ..*old(c) }),
{
    let r = numbered_name("label_", name, c.label);
    c.label = bump_count(c.label);
    r
}

fn constant_to_bits(k: Constant) -> (r: u32)
    ensures
        r == constant_bits(k),
{
    match k {
        Constant::Int(v) => #[verifier::truncate] (v as u32),
        Constant::Long(v) => #[verifier::truncate] (v as u32),
    }
}

impl BinaryOperator {
    /// The TACKY operator for an operator of the syntax tree; none for the
    /// logical operators, which lower to jumps.
    pub fn try_from(op: AstBinaryOperator) -> (r: Result<BinaryOperator, ()>)
        ensures
            match tacky_binary_op(op) {
                Some(b) => r == Ok::<BinaryOperator, ()>(b),
                None => r is Err,
            },
    {
        match op {
            AstBinaryOperator::Add => Ok(BinaryOperator::Add),
            AstBinaryOperator::Subtract => Ok(BinaryOperator::Subtract),
            AstBinaryOperator::Multiply => Ok(BinaryOperator::Multiply),
            AstBinaryOperator::Divide => Ok(BinaryOperator::Divide),
            AstBinaryOperator::Remainder => Ok(BinaryOperator::Remainder),
            AstBinaryOperator::BitwiseAnd => Ok(BinaryOperator::BitwiseAnd),
            AstBinaryOperator::BitwiseOr => Ok(BinaryOperator::BitwiseOr),
            AstBinaryOperator::BitwiseXor => Ok(BinaryOperator::BitwiseXor),
            AstBinaryOperator::LeftShift => Ok(BinaryOperator::LeftShift),
            AstBinaryOperator::RightShift => Ok(BinaryOperator::RightShift),
            AstBinaryOperator::Equal => Ok(BinaryOperator::Equal),
            AstBinaryOperator::NotEqual => Ok(BinaryOperator::NotEqual),
            AstBinaryOperator::LessThan => Ok(BinaryOperator::LessThan),
            AstBinaryOperator::GreaterThan => Ok(BinaryOperator::GreaterThan),
            AstBinaryOperator::LessEqual => Ok(BinaryOperator::LessEqual),
            AstBinaryOperator::GreaterEqual => Ok(BinaryOperator::GreaterEqual),
            _ => Err(()),
        }
    }
}

impl TypedExpression {
    #[verifier::rlimit(60)]
    #[verifier::spinoff_prover]
    pub fn to_tacky(self, counters: &mut TackyCounters) -> (r: (Vec<Instruction>, Value))
        ensures
            lowered(r, spec_tacky_expression(self@, *old(counters)), *final(counters)),
        decreases self, 3nat,
    {
        let TypedExpression { expression, ty: _ } = self;
        match expression {
            Expression::Factor(f) => f.to_tacky(counters),
            Expression::BinaryOp { op, left, right } => match BinaryOperator::try_from(op) {
                Ok(bop) => {
                    let (mut i1, v1) = (*left).to_tacky(counters);
                    let (i2, v2) = (*right).to_tacky(counters);
                    let ghost g1 = instructions_view(i1@);
                    let ghost g2 = instructions_view(i2@);
                    let dst = binary_temp_value(counters);
                    let ins = Instruction::BinaryOp { op: bop, val1: v1, val2: v2, dst: dst.duplicate() };
                    let ghost gi = ins@;
                    emit_all(&mut i1, i2);
                    emit(&mut i1, ins);
                    assert(instructions_view(i1@) =~= g1 + g2 + seq![gi]);
                    (i1, dst)
                },
                Err(()) => {
                    let end = next_jump_label("binop_end", counters);
                    if op == AstBinaryOperator::LogicalAnd {
                        let f = next_jump_label("binop_false", counters);
                        let out = binary_temp_value(counters);
                        let (mut i1, v1) = (*left).to_tacky(counters);
                        let ghost g1 = instructions_view(i1@);
                        let ghost gv1 = v1@;
                        emit(&mut i1, Instruction::JumpIfZero { val: v1, target: f.clone() });
                        let (i2, v2) = (*right).to_tacky(counters);
                        let ghost g2 = instructions_view(i2@);
                        let ghost gv2 = v2@;
                        emit_all(&mut i1, i2);
                        emit(&mut i1, Instruction::JumpIfZero { val: v2, target: f.clone() });
                        emit(&mut i1, Instruction::Copy { src: Value::Constant(1), dst: out.duplicate() });
                        emit(&mut i1, Instruction::Jump(end.clone()));
                        emit(&mut i1, Instruction::Label(f.clone()));
                        emit(&mut i1, Instruction::Copy { src: Value::Constant(0), dst: out.duplicate() });
                        emit(&mut i1, Instruction::Label(end.clone()));
                        assert(instructions_view(i1@) =~= g1 + seq![InstructionView::JumpIfZero { val: gv1, target: f@ }] + g2 + seq![
                            InstructionView::JumpIfZero { val: gv2, target: f@ },
                            InstructionView::Copy { src: ValueView::Constant(1), dst: out@ },
                            InstructionView::Jump(end@),
                            InstructionView::Label(f@),
                            InstructionView::Copy { src: ValueView::Constant(0), dst: out@ },
                            InstructionView::Label(end@),
                        ]);
                        (i1, out)
                    } else {
                        let t = next_jump_label("binop_true", counters);
                        let out = binary_temp_value(counters);
                        let (mut i1, v1) = (*left).to_tacky(counters);
                        let ghost g1 = instructions_view(i1@);
                        let ghost gv1 = v1@;
                        emit(&mut i1, Instruction::JumpIfNotZero { val: v1, target: t.clone() });
                        let (i2, v2) = (*right).to_tacky(counters);
                        let ghost g2 = instructions_view(i2@);
                        let ghost gv2 = v2@;
                        emit_all(&mut i1, i2);
                        emit(&mut i1, Instruction::JumpIfNotZero { val: v2, target: t.clone() });
                        emit(&mut i1, Instruction::Copy { src: Value::Constant(0), dst: out.duplicate() });
                        emit(&mut i1, Instruction::Jump(end.clone()));
                        emit(&mut i1, Instruction::Label(t.clone()));
                        emit(&mut i1, Instruction::Copy { src: Value::Constant(1), dst: out.duplicate() });
                        emit(&mut i1, Instruction::Label(end.clone()));
                        assert(instructions_view(i1@) =~= g1 + seq![InstructionView::JumpIfNotZero { val: gv1, target: t@ }] + g2 + seq![
                            InstructionView::JumpIfNotZero { val: gv2, target: t@ },
                            InstructionView::Copy { src: ValueView::Constant(0), dst: out@ },
                            InstructionView::Jump(end@),
                            InstructionView::Label(t@),
                            InstructionView::Copy { src: ValueView::Constant(1), dst: out@ },
                            InstructionView::Label(end@),
                        ]);
                        (i1, out)
                    }
                },
            },
            Expression::Assignment { left, right } => {
                let (mut i1, rv) = (*right).to_tacky(counters);
                let (_, lv) = (*left).to_tacky(counters);
                emit(&mut i1, Instruction::Copy { src: rv, dst: lv.duplicate() });
                (i1, lv)
            },
            Expression::Conditional { condition, then_branch, else_branch } => {
                let el = next_jump_label("cond_else", counters);
                let end = next_jump_label("cond_end", counters);
                let out = binary_temp_value(counters);
                let (mut i1, cv) = (*condition).to_tacky(counters);
                let ghost g1 = instructions_view(i1@);
                let ghost gcv = cv@;
                emit(&mut i1, Instruction::JumpIfZero { val: cv, target: el.clone() });
                let (i2, tv) = (*then_branch).to_tacky(counters);
                let ghost g2 = instructions_view(i2@);
                let ghost gtv = tv@;
                emit_all(&mut i1, i2);
                emit(&mut i1, Instruction::Copy { src: tv, dst: out.duplicate() });
                emit(&mut i1, Instruction::Jump(end.clone()));
                emit(&mut i1, Instruction::Label(el.clone()));
                let (i3, ev) = (*else_branch).to_tacky(counters);
                let ghost g3 = instructions_view(i3@);
                let ghost gev = ev@;
                emit_all(&mut i1, i3);
                emit(&mut i1, Instruction::Copy { src: ev, dst: out.duplicate() });
                emit(&mut i1, Instruction::Label(end.clone()));
                assert(instructions_view(i1@) =~= g1 + seq![InstructionView::JumpIfZero { val: gcv, target: el@ }] + g2 + seq![
                    InstructionView::Copy { src: gtv, dst: out@ },
                    InstructionView::Jump(end@),
                    InstructionView::Label(el@),
                ] + g3 + seq![
                    InstructionView::Copy { src: gev, dst: out@ },
                    InstructionView::Label(end@),
                ]);
                (i1, out)
            },
        }
    }
}

impl Factor {
    pub fn to_tacky(self, counters: &mut TackyCounters) -> (r: (Vec<Instruction>, Value))
        ensures
            lowered(r, spec_tacky_factor(self@, *old(counters)), *final(counters)),
        decreases self, 2nat,
    {
        let ghost sv = self@;
        match self {
            Factor::UnaryOp { op, fac } => {
                assert(sv == FactorView::UnaryOp { op, fac: Box::new((*fac)@) });
                let (mut i, v) = (*fac).to_tacky(counters);
                let ghost g = instructions_view(i@);
                let ghost gv = v@;
                let dst = unary_temp_value(counters);
                if op == UnaryOperator::PrefixIncrement || op == UnaryOperator::PrefixDecrement {
                    let step = if op == UnaryOperator::PrefixIncrement {
                        BinaryOperator::Add
                    } else {
                        BinaryOperator::Subtract
                    };
                    emit(
                        &mut i,
                        Instruction::BinaryOp {
                            op: step,
                            val1: v.duplicate(),
                            val2: Value::Constant(1),
                            dst: dst.duplicate(),
                        },
                    );
                    emit(&mut i, Instruction::Copy { src: dst.duplicate(), dst: v });
                    assert(instructions_view(i@) =~= g + seq![
                        InstructionView::BinaryOp { op: step_op(op), val1: gv, val2: ValueView::Constant(1), dst: dst@ },
                        InstructionView::Copy { src: dst@, dst: gv },
                    ]);
                } else {
                    emit(&mut i, Instruction::UnaryOp { op, src: v, dst: dst.duplicate() });
                }
                (i, dst)
            },
            Factor::Postfix(p) => {
                assert(sv == FactorView::Postfix(p@));
                let Postfix { primary, postfix } = p;
                let (mut i, v) = primary.to_tacky(counters);
                let ghost g = instructions_view(i@);
                let ghost gv = v@;
                if postfix.len() > 0 {
                    let dst = unary_temp_value(counters);
                    let step = if postfix[0] == PostfixOp::PostfixIncrement {
                        BinaryOperator::Add
                    } else {
                        BinaryOperator::Subtract
                    };
                    emit(&mut i, Instruction::Copy { src: v.duplicate(), dst: dst.duplicate() });
                    emit(
                        &mut i,
                        Instruction::BinaryOp {
                            op: step,
                            val1: dst.duplicate(),
                            val2: Value::Constant(1),
                            dst: v,
                        },
                    );
                    assert(instructions_view(i@) =~= g + seq![
                        InstructionView::Copy { src: gv, dst: dst@ },
                        InstructionView::BinaryOp { op: postfix_step_op(postfix@[0]), val1: dst@, val2: ValueView::Constant(1), dst: gv },
                    ]);
                    (i, dst)
                } else {
                    (i, v)
                }
            },
            Factor::Cast { ty: _, fac } => (*fac).to_tacky(counters),
        }
    }
}

impl Primary {
    pub fn to_tacky(self, counters: &mut TackyCounters) -> (r: (Vec<Instruction>, Value))
        ensures
            lowered(r, spec_tacky_primary(self@, *old(counters)), *final(counters)),
        decreases self, 1nat,
    {
        match self {
            Primary::Constant(k) => {
                let r = (Vec::new(), Value::Constant(constant_to_bits(k)));
                assert(instructions_view(r.0@) =~= seq![]);
                r
            },
            Primary::Var(id) => {
                let r = (Vec::new(), Value::Var(id));
                assert(instructions_view(r.0@) =~= seq![]);
                r
            },
            Primary::Paren(e) => (*e).to_tacky(counters),
            Primary::FunctionCall(name, args) => {
                let (mut i, vs) = args.to_tacky(counters);
                let dst = call_temp_value(counters);
                emit(&mut i, Instruction::FunCall { name, args: vs, dst: dst.duplicate() });
                (i, dst)
            },
        }
    }
}

impl ArgumentList {
    #[verifier::loop_isolation(false)]
    pub fn to_tacky(self, counters: &mut TackyCounters) -> (r: (Vec<Instruction>, Vec<Value>))
        ensures
            instructions_view(r.0@) == spec_tacky_arguments(self@, *old(counters)).0,
            values_view(r.1@) == spec_tacky_arguments(self@, *old(counters)).1,
            *final(counters) == spec_tacky_arguments(self@, *old(counters)).2,
        decreases self, 0nat,
    {
        let ghost orig = self;
        let ghost c0 = *counters;
        proof {
            lemma_typed_expressions_view_index(orig.0@);
            assert(orig@.take(0) =~= seq![]);
        }
        let ArgumentList(args) = self;
        let mut instrs: Vec<Instruction> = Vec::new();
        let mut values: Vec<Value> = Vec::new();
        proof {
            assert(instructions_view(instrs@) =~= seq![]);
            assert(values_view(values@) =~= seq![]);
        }
        for a in it: args
            invariant
                it.seq() == orig.0@,
                it.index() <= orig.0@.len(),
                spec_tacky_arguments(orig@.take(it.index() as int), c0) == (
                    instructions_view(instrs@),
                    values_view(values@),
                    *counters,
                ),
        {
            let ghost i = it.index();
            proof {
                assert(a == orig.0@[i as int]);
                assert(decreases_to!(orig => orig.0));
                assert(decreases_to!(orig.0 => orig.0@));
                assert(decreases_to!(orig.0@ => orig.0@[i as int]));
                assert(orig@.take(i + 1).drop_last() =~= orig@.take(i as int));
            }
            let (ai, av) = a.to_tacky(counters);
            emit_all(&mut instrs, ai);
            let ghost before = values@;
            values.push(av);
            proof {
                assert(values_view(values@) =~= values_view(before).push(av@));
            }
        }
        proof {
            assert(orig@.take(orig@.len() as int) =~= orig@);
        }
        (instrs, values)
    }
}


pub open spec fn lowered_statement(
    r: Vec<Instruction>,
    expected: (Seq<InstructionView>, TackyCounters),
    after: TackyCounters,
) -> bool {
    instructions_view(r@) == expected.0 && after == expected.1
}

fn suffixed(l: &String, suffix: &str) -> (r: String)
    ensures
        r@ == l@ + suffix@,
{
    let mut s = l.clone();
    s.append(suffix);
    s
}

fn case_label_name(l: &String, k: u32) -> (r: String)
    ensures
        r@ == case_label(l@, k),
{
    let mut s = suffixed(l, ".case.");
    push_decimal(&mut s, k as usize);
    s
}

fn resolved_label(l: Option<String>) -> (r: String)
    ensures
        r@ == label_of(opt_string_view(l)),
{
    match l {
        Some(x) => x,
        None => String::new(),
    }
}

pub open spec fn opt_string_view(s: Option<String>) -> Option<Seq<char>> {
    match s {
        Some(x) => Some(x@),
        None => None,
    }
}

#[verifier::loop_isolation(false)]
fn switch_dispatch(cases: &Vec<Constant>, v: &Value, l: &String, counters: &mut TackyCounters) -> (r:
    Vec<Instruction>)
    ensures
        lowered_statement(r, spec_switch_dispatch(cases@, v@, l@, *old(counters)), *final(counters)),
{
    let ghost c0 = *counters;
    let mut out: Vec<Instruction> = Vec::new();
    proof {
        assert(cases@.take(0) =~= seq![]);
        assert(instructions_view(out@) =~= seq![]);
    }
    let mut i: usize = 0;
    while i < cases.len()
        invariant
            i <= cases.len(),
            spec_switch_dispatch(cases@.take(i as int), v@, l@, c0) == (
                instructions_view(out@),
                *counters,
            ),
        decreases cases.len() - i,
    {
        proof {
            assert(cases@.take(i + 1).drop_last() =~= cases@.take(i as int));
        }
        let k = constant_to_bits(cases[i]);
        let tmp = binary_temp_value(counters);
        let ghost g = instructions_view(out@);
        emit(
            &mut out,
            Instruction::BinaryOp {
                op: BinaryOperator::Equal,
                val1: v.duplicate(),
                val2: Value::Constant(k),
                dst: tmp.duplicate(),
            },
        );
        emit(&mut out, Instruction::JumpIfNotZero { val: tmp, target: case_label_name(l, k) });
        i = i + 1;
    }
    proof {
        assert(cases@.take(cases.len() as int) =~= cases@);
    }
    out
}

fn lower_local_variable(d: VariableDeclaration, counters: &mut TackyCounters) -> (r: Vec<
    Instruction,
>)
    ensures
        lowered_statement(r, spec_tacky_local_variable(d@, *old(counters)), *final(counters)),
{
    let VariableDeclaration { identifier, initialiser, ty: _, storage_class } = d;
    match initialiser {
        Some(e) => {
            if storage_class.is_none() {
                let (mut i, v) = e.to_tacky(counters);
                emit(&mut i, Instruction::Copy { src: v, dst: Value::Var(identifier) });
                i
            } else {
                let r = Vec::new();
                assert(instructions_view(r@) =~= seq![]);
                r
            }
        },
        None => {
            let r = Vec::new();
            assert(instructions_view(r@) =~= seq![]);
            r
        },
    }
}

fn lower_optional(e: Option<TypedExpression>, counters: &mut TackyCounters) -> (r: Vec<Instruction>)
    ensures
        lowered_statement(
            r,
            spec_tacky_optional(
                match e {
                    Some(x) => Some(x@),
                    None => None,
                },
                *old(counters),
            ),
            *final(counters),
        ),
{
    match e {
        Some(x) => x.to_tacky(counters).0,
        None => {
            let r = Vec::new();
            assert(instructions_view(r@) =~= seq![]);
            r
        },
    }
}

fn lower_if(s: Statement, counters: &mut TackyCounters) -> (r: Vec<Instruction>)
    requires
        s is If,
        loops_resolved(s@),
    ensures
        lowered_statement(r, spec_tacky_statement(s@, *old(counters)), *final(counters)),
    decreases s, 1nat,
{
    match s {
        Statement::If { condition, then_branch, else_branch } => {
            let el = next_jump_label("if_else", counters);
            let end = next_jump_label("if_end", counters);
            let (mut i1, v) = condition.to_tacky(counters);
            let ghost g1 = instructions_view(i1@);
            let ghost gv = v@;
            emit(&mut i1, Instruction::JumpIfZero { val: v, target: el.clone() });
            let i2 = (*then_branch).to_tacky(counters);
            let ghost g2 = instructions_view(i2@);
            emit_all(&mut i1, i2);
            emit(&mut i1, Instruction::Jump(end.clone()));
            emit(&mut i1, Instruction::Label(el.clone()));
            let i3 = match else_branch {
                Some(e) => (*e).to_tacky(counters),
                None => {
                    let r = Vec::new();
                    assert(instructions_view(r@) =~= seq![]);
                    r
                },
            };
            let ghost g3 = instructions_view(i3@);
            emit_all(&mut i1, i3);
            emit(&mut i1, Instruction::Label(end.clone()));
            assert(instructions_view(i1@) =~= g1 + seq![InstructionView::JumpIfZero { val: gv, target: el@ }] + g2 + seq![
                InstructionView::Jump(end@),
                InstructionView::Label(el@),
            ] + g3 + seq![InstructionView::Label(end@)]);
            i1
        },
        _ => Vec::new(),
    }
}

fn lower_while(s: Statement, counters: &mut TackyCounters) -> (r: Vec<Instruction>)
    requires
        s is While,
        loops_resolved(s@),
    ensures
        lowered_statement(r, spec_tacky_statement(s@, *old(counters)), *final(counters)),
    decreases s, 1nat,
{
    match s {
        Statement::While { condition, body, label } => {
            let l = resolved_label(label);
            let cont = suffixed(&l, ".continue");
            let brk = suffixed(&l, ".break");
            let mut out: Vec<Instruction> = Vec::new();
            emit(&mut out, Instruction::Label(cont.clone()));
            let (i1, v) = condition.to_tacky(counters);
            let ghost g1 = instructions_view(i1@);
            let ghost gv = v@;
            emit_all(&mut out, i1);
            emit(&mut out, Instruction::JumpIfZero { val: v, target: brk.clone() });
            let i2 = (*body).to_tacky(counters);
            let ghost g2 = instructions_view(i2@);
            emit_all(&mut out, i2);
            emit(&mut out, Instruction::Jump(cont.clone()));
            emit(&mut out, Instruction::Label(brk.clone()));
            assert(instructions_view(out@) =~= seq![InstructionView::Label(cont@)] + g1 + seq![
                InstructionView::JumpIfZero { val: gv, target: brk@ },
            ] + g2 + seq![InstructionView::Jump(cont@), InstructionView::Label(brk@)]);
            out
        },
        _ => Vec::new(),
    }
}

fn lower_do_while(s: Statement, counters: &mut TackyCounters) -> (r: Vec<Instruction>)
    requires
        s is DoWhile,
        loops_resolved(s@),
    ensures
        lowered_statement(r, spec_tacky_statement(s@, *old(counters)), *final(counters)),
    decreases s, 1nat,
{
    match s {
        Statement::DoWhile { body, condition, label } => {
            let l = resolved_label(label);
            let start = suffixed(&l, ".start");
            let cont = suffixed(&l, ".continue");
            let brk = suffixed(&l, ".break");
            let mut out: Vec<Instruction> = Vec::new();
            emit(&mut out, Instruction::Label(start.clone()));
            let i1 = (*body).to_tacky(counters);
            let ghost g1 = instructions_view(i1@);
            emit_all(&mut out, i1);
            emit(&mut out, Instruction::Label(cont.clone()));
            let (i2, v) = condition.to_tacky(counters);
            let ghost g2 = instructions_view(i2@);
            let ghost gv = v@;
            emit_all(&mut out, i2);
            emit(&mut out, Instruction::JumpIfNotZero { val: v, target: start.clone() });
            emit(&mut out, Instruction::Label(brk.clone()));
            assert(instructions_view(out@) =~= seq![InstructionView::Label(start@)] + g1 + seq![
                InstructionView::Label(cont@),
            ] + g2 + seq![
                InstructionView::JumpIfNotZero { val: gv, target: start@ },
                InstructionView::Label(brk@),
            ]);
            out
        },
        _ => Vec::new(),
    }
}

fn lower_for(s: Statement, counters: &mut TackyCounters) -> (r: Vec<Instruction>)
    requires
        s is For,
        loops_resolved(s@),
    ensures
        lowered_statement(r, spec_tacky_statement(s@, *old(counters)), *final(counters)),
    decreases s, 1nat,
{
    match s {
        Statement::For { init, condition, post, body, label } => {
            let l = resolved_label(label);
            let start = suffixed(&l, ".start");
            let cont = suffixed(&l, ".continue");
            let brk = suffixed(&l, ".break");
            let mut out = match init {
                ForInit::Declaration(d) => lower_local_variable(d, counters),
                ForInit::Expression(e) => lower_optional(e, counters),
            };
            let ghost g0 = instructions_view(out@);
            emit(&mut out, Instruction::Label(start.clone()));
            let i1 = match condition {
                Some(e) => {
                    let (mut ic, v) = e.to_tacky(counters);
                    emit(&mut ic, Instruction::JumpIfZero { val: v, target: brk.clone() });
                    ic
                },
                None => {
                    let r = Vec::new();
                    assert(instructions_view(r@) =~= seq![]);
                    r
                },
            };
            let ghost g1 = instructions_view(i1@);
            emit_all(&mut out, i1);
            let i2 = (*body).to_tacky(counters);
            let ghost g2 = instructions_view(i2@);
            emit_all(&mut out, i2);
            emit(&mut out, Instruction::Label(cont.clone()));
            let i3 = lower_optional(post, counters);
            let ghost g3 = instructions_view(i3@);
            emit_all(&mut out, i3);
            emit(&mut out, Instruction::Jump(start.clone()));
            emit(&mut out, Instruction::Label(brk.clone()));
            assert(instructions_view(out@) =~= g0 + seq![InstructionView::Label(start@)] + g1 + g2
                + seq![InstructionView::Label(cont@)] + g3 + seq![
                InstructionView::Jump(start@),
                InstructionView::Label(brk@),
            ]);
            out
        },
        _ => Vec::new(),
    }
}

fn lower_switch(s: Statement, counters: &mut TackyCounters) -> (r: Vec<Instruction>)
    requires
        s is Switch,
        loops_resolved(s@),
    ensures
        lowered_statement(r, spec_tacky_statement(s@, *old(counters)), *final(counters)),
    decreases s, 1nat,
{
    match s {
        Statement::Switch { condition, body, label, cases, default_exists } => {
            let l = resolved_label(label);
            let (mut out, v) = condition.to_tacky(counters);
            let ghost g1 = instructions_view(out@);
            let i2 = switch_dispatch(&cases, &v, &l, counters);
            let ghost g2 = instructions_view(i2@);
            emit_all(&mut out, i2);
            let tail = if default_exists {
                Instruction::Jump(suffixed(&l, ".default"))
            } else {
                Instruction::Jump(suffixed(&l, ".break"))
            };
            let ghost gt = tail@;
            emit(&mut out, tail);
            let i3 = (*body).to_tacky(counters);
            let ghost g3 = instructions_view(i3@);
            emit_all(&mut out, i3);
            let brk = suffixed(&l, ".break");
            emit(&mut out, Instruction::Label(brk.clone()));
            assert(instructions_view(out@) =~= g1 + g2 + seq![gt] + g3 + seq![
                InstructionView::Label(brk@),
            ]);
            out
        },
        _ => Vec::new(),
    }
}

impl Statement {
    #[verifier::rlimit(80)]
    #[verifier::spinoff_prover]
    pub fn to_tacky(self, counters: &mut TackyCounters) -> (r: Vec<Instruction>)
        requires
            loops_resolved(self@),
        ensures
            lowered_statement(r, spec_tacky_statement(self@, *old(counters)), *final(counters)),
        decreases self, 2nat,
    {
        if matches!(self, Statement::If { .. }) {
            return lower_if(self, counters);
        }
        if matches!(self, Statement::While { .. }) {
            return lower_while(self, counters);
        }
        if matches!(self, Statement::DoWhile { .. }) {
            return lower_do_while(self, counters);
        }
        if matches!(self, Statement::For { .. }) {
            return lower_for(self, counters);
        }
        if matches!(self, Statement::Switch { .. }) {
            return lower_switch(self, counters);
        }
        let ghost sv = self@;
        match self {
            Statement::Return(e) => {
                let (mut i, v) = e.to_tacky(counters);
                emit(&mut i, Instruction::Return(v));
                i
            },
            Statement::Expression(e) => e.to_tacky(counters).0,
            Statement::Null => {
                let r = Vec::new();
                assert(instructions_view(r@) =~= seq![]);
                r
            },
            Statement::Block(block) => block.to_tacky(counters),
            Statement::Labeled(l, body) => {
                let mut out: Vec<Instruction> = Vec::new();
                emit(&mut out, Instruction::Label(l));
                let ghost g0 = instructions_view(out@);
                assert(g0 =~= seq![InstructionView::Label(sv->Labeled_0)]);
                let i = (*body).to_tacky(counters);
                let ghost g = instructions_view(i@);
                emit_all(&mut out, i);
                assert(instructions_view(out@) =~= g0 + g);
                out
            },
            Statement::Goto(l) => {
                let mut out: Vec<Instruction> = Vec::new();
                emit(&mut out, Instruction::Jump(l));
                assert(instructions_view(out@) =~= seq![InstructionView::Jump(sv->Goto_0)]);
                out
            },
            Statement::Break(l) => {
                let target = suffixed(&resolved_label(l), ".break");
                let mut out: Vec<Instruction> = Vec::new();
                emit(&mut out, Instruction::Jump(target));
                assert(instructions_view(out@) =~= seq![InstructionView::Jump(break_label(label_of(sv->Break_0)))]);
                out
            },
            Statement::Continue(l) => {
                let target = suffixed(&resolved_label(l), ".continue");
                let mut out: Vec<Instruction> = Vec::new();
                emit(&mut out, Instruction::Jump(target));
                assert(instructions_view(out@) =~= seq![InstructionView::Jump(continue_label(label_of(sv->Continue_0)))]);
                out
            },
            Statement::Case(e, body, l) => {
                let k = match get_expression_value(&e.expression) {
                    Some(v) => constant_to_bits(v),
                    None => 0,
                };
                let name = case_label_name(&resolved_label(l), k);
                assert(name@ == case_label(label_of(sv->Case_2), case_bits(sv->Case_0)));
                let mut out: Vec<Instruction> = Vec::new();
                emit(&mut out, Instruction::Label(name));
                let ghost g0 = instructions_view(out@);
                assert(g0 =~= seq![InstructionView::Label(case_label(label_of(sv->Case_2), case_bits(sv->Case_0)))]);
                let i = (*body).to_tacky(counters);
                let ghost g = instructions_view(i@);
                emit_all(&mut out, i);
                assert(instructions_view(out@) =~= g0 + g);
                out
            },
            Statement::Default(body, l) => {
                let name = suffixed(&resolved_label(l), ".default");
                let mut out: Vec<Instruction> = Vec::new();
                emit(&mut out, Instruction::Label(name));
                let ghost g0 = instructions_view(out@);
                assert(g0 =~= seq![InstructionView::Label(default_label(label_of(sv->Default_1)))]);
                let i = (*body).to_tacky(counters);
                let ghost g = instructions_view(i@);
                emit_all(&mut out, i);
                assert(instructions_view(out@) =~= g0 + g);
                out
            },
            _ => Vec::new(),
        }
    }
}

impl BlockItem {
    pub fn to_tacky(self, counters: &mut TackyCounters) -> (r: Vec<Instruction>)
        requires
            match self@ {
                BlockItemView::Statement(s) => loops_resolved(s),
                BlockItemView::Declaration(_) => true,
            },
        ensures
            lowered_statement(r, spec_tacky_item(self@, *old(counters)), *final(counters)),
        decreases self, 3nat,
    {
        match self {
            BlockItem::Statement(s) => s.to_tacky(counters),
            BlockItem::Declaration(Declaration::Variable(d)) => lower_local_variable(d, counters),
            BlockItem::Declaration(Declaration::Function(_)) => {
                let r = Vec::new();
                assert(instructions_view(r@) =~= seq![]);
                r
            },
        }
    }
}

impl Block {
    #[verifier::loop_isolation(false)]
    pub fn to_tacky(self, counters: &mut TackyCounters) -> (r: Vec<Instruction>)
        requires
            loops_resolved_items(self@),
        ensures
            lowered_statement(r, spec_tacky_items(self@, *old(counters)), *final(counters)),
        decreases self, 4nat,
    {
        let ghost orig = self;
        let ghost c0 = *counters;
        proof {
            lemma_block_items_view_index(orig.0@);
            assert(orig@.take(0) =~= seq![]);
        }
        let Block(items) = self;
        let mut out: Vec<Instruction> = Vec::new();
        proof {
            assert(instructions_view(out@) =~= seq![]);
        }
        for item in it: items
            invariant
                it.seq() == orig.0@,
                it.index() <= orig.0@.len(),
                spec_tacky_items(orig@.take(it.index() as int), c0) == (
                    instructions_view(out@),
                    *counters,
                ),
        {
            let ghost i = it.index();
            proof {
                assert(item == orig.0@[i as int]);
                assert(decreases_to!(orig => orig.0));
                assert(decreases_to!(orig.0 => orig.0@));
                assert(decreases_to!(orig.0@ => orig.0@[i as int]));
                assert(orig@.take(i + 1).drop_last() =~= orig@.take(i as int));
                assert(orig@[i as int] == item@);
            }
            let x = item.to_tacky(counters);
            emit_all(&mut out, x);
        }
        proof {
            assert(orig@.take(orig@.len() as int) =~= orig@);
        }
        out
    }
}


/// Lowering into TACKY.
pub trait ToTacky: Sized {
    type Output;

    /// What the value must satisfy to be lowered.
    spec fn lowerable(&self) -> bool;

    /// What the lowering gives.
    spec fn lowers_to(&self, out: &Self::Output) -> bool;

    fn to_tacky(self) -> (r: Self::Output)
        requires
            self.lowerable(),
        ensures
            self.lowers_to(&r),
    ;
}

impl ToTacky for AstProgram {
    type Output = Program;

    open spec fn lowerable(&self) -> bool {
        loops_resolved_program(self@)
    }

    open spec fn lowers_to(&self, out: &Program) -> bool {
        out@ == spec_to_tacky(self@)
    }

    /// Each function with a body becomes a TACKY function; the counters that
    /// number temporaries and labels start at zero for the program.
    fn to_tacky(self) -> (r: Program) {
        let mut counters = TackyCounters { unary: 0, binary: 0, label: 0, call: 0 };
        self.to_tacky_numbered(&mut counters)
    }
}

impl AstProgram {
    /// Lowering with temporaries and labels numbered from `counters` on; the
    /// counters are left after the last numbers taken, for the next program.
    #[verifier::loop_isolation(false)]
    pub fn to_tacky_numbered(self, counters: &mut TackyCounters) -> (r: Program)
        requires
            loops_resolved_program(self@),
        ensures
            r@ == spec_tacky_declarations(self@, *old(counters)).0,
            *final(counters) == spec_tacky_declarations(self@, *old(counters)).1,
    {
        let ghost orig = self;
        let ghost c0 = *counters;
        proof {
            lemma_declarations_view_index(orig.0@);
            assert(orig@.take(0) =~= seq![]);
        }
        let AstProgram(declarations) = self;
        let mut funcs: Vec<FuncDef> = Vec::new();
        proof {
            assert(funcs@.map_values(|f: FuncDef| f@) =~= seq![]);
        }
        for d in it: declarations
            invariant
                it.seq() == orig.0@,
                it.index() <= orig.0@.len(),
                spec_tacky_declarations(orig@.take(it.index() as int), c0) == (
                    funcs@.map_values(|f: FuncDef| f@),
                    *counters,
                ),
        {
            let ghost i = it.index();
            proof {
                assert(d == orig.0@[i as int]);
                assert(orig@.take(i + 1).drop_last() =~= orig@.take(i as int));
                assert(orig@[i as int] == d@);
            }
            match d {
                Declaration::Function(f) => {
                    let FuncDeclaration { identifier, parameters, body, ty: _, storage_class: _ } = f;
                    match body {
                        Some(b) => {
                            let mut instrs = b.to_tacky(counters);
                            emit(&mut instrs, Instruction::Return(Value::Constant(0)));
                            let fd = FuncDef { identifier, params: parameters.0, body: instrs };
                            let ghost before = funcs@;
                            funcs.push(fd);
                            proof {
                                assert(funcs@.map_values(|f: FuncDef| f@) =~= before.map_values(
                                    |f: FuncDef| f@,
                                ).push(fd@));
                            }
                        },
                        None => {},
                    }
                },
                Declaration::Variable(_) => {},
            }
        }
        proof {
            assert(orig@.take(orig@.len() as int) =~= orig@);
        }
        Program(funcs)
    }
}


/// A unary operation of the instruction, if it is one, is complement,
/// negation or logical not: the increments lower to additions.
pub open spec fn plain_unary(i: InstructionView) -> bool {
    match i {
        InstructionView::UnaryOp { op, .. } => op == UnaryOperator::Complement || op
            == UnaryOperator::Negate || op == UnaryOperator::LogicalNot,
        _ => true,
    }
}

pub open spec fn all_plain_unary(s: Seq<InstructionView>) -> bool {
    forall|k: int| 0 <= k < s.len() ==> plain_unary(#[trigger] s[k])
}

proof fn lemma_plain_concat(a: Seq<InstructionView>, b: Seq<InstructionView>)
    requires
        all_plain_unary(a),
        all_plain_unary(b),
    ensures
        all_plain_unary(a + b),
{
    assert forall|k: int| 0 <= k < (a + b).len() implies plain_unary(#[trigger] (a + b)[k]) by {
        if k < a.len() {
            assert((a + b)[k] == a[k]);
        } else {
            assert((a + b)[k] == b[k - a.len()]);
        }
    }
}

proof fn lemma_plain_expression(e: TypedExpressionView, c: TackyCounters)
    ensures
        all_plain_unary(spec_tacky_expression(e, c).0),
    decreases e, 3nat,
{
    match e.expression {
        ExpressionView::Factor(f) => {
            lemma_plain_factor(f, c);
        },
        ExpressionView::BinaryOp { op, left, right } => match tacky_binary_op(op) {
            Some(bop) => {
                let (i1, v1, c1) = spec_tacky_expression(*left, c);
                let (i2, v2, c2) = spec_tacky_expression(*right, c1);
                lemma_plain_expression(*left, c);
                lemma_plain_expression(*right, c1);
                lemma_plain_concat(i1, i2);
                lemma_plain_concat(i1 + i2, seq![InstructionView::BinaryOp { op: bop, val1: v1, val2: v2, dst: binary_temp(c2.binary) }]);
            },
            None => {
                let end = jump_label("binop_end"@, c.label);
                let out = binary_temp(c.binary);
                let c0 = two_labels_and_temp(c);
                let (i1, v1, c1) = spec_tacky_expression(*left, c0);
                let (i2, v2, c2) = spec_tacky_expression(*right, c1);
                lemma_plain_expression(*left, c0);
                lemma_plain_expression(*right, c1);
                let r = spec_tacky_expression(e, c).0;
                assert forall|k: int| 0 <= k < r.len() implies plain_unary(#[trigger] r[k]) by {
                    if k < i1.len() {
                        assert(r[k] == i1[k]);
                    } else if i1.len() + 1 <= k < i1.len() + 1 + i2.len() {
                        assert(r[k] == i2[k - i1.len() - 1]);
                    }
                }
            },
        },
        ExpressionView::Assignment { left, right } => {
            let (i1, rv, c1) = spec_tacky_expression(*right, c);
            lemma_plain_expression(*right, c);
            lemma_plain_expression(*left, c1);
        },
        ExpressionView::Conditional { condition, then_branch, else_branch } => {
            let c0 = two_labels_and_temp(c);
            let (i1, cv, c1) = spec_tacky_expression(*condition, c0);
            let (i2, tv, c2) = spec_tacky_expression(*then_branch, c1);
            let (i3, ev, c3) = spec_tacky_expression(*else_branch, c2);
            lemma_plain_expression(*condition, c0);
            lemma_plain_expression(*then_branch, c1);
            lemma_plain_expression(*else_branch, c2);
            let r = spec_tacky_expression(e, c).0;
            assert forall|k: int| 0 <= k < r.len() implies plain_unary(#[trigger] r[k]) by {
                if k < i1.len() {
                    assert(r[k] == i1[k]);
                } else if i1.len() + 1 <= k < i1.len() + 1 + i2.len() {
                    assert(r[k] == i2[k - i1.len() - 1]);
                } else if i1.len() + 4 + i2.len() <= k < i1.len() + 4 + i2.len() + i3.len() {
                    assert(r[k] == i3[k - i1.len() - 4 - i2.len()]);
                }
            }
        },
    }
}

proof fn lemma_plain_factor(f: FactorView, c: TackyCounters)
    ensures
        all_plain_unary(spec_tacky_factor(f, c).0),
    decreases f, 2nat,
{
    match f {
        FactorView::UnaryOp { op, fac } => {
            lemma_plain_factor(*fac, c);
            let i = spec_tacky_factor(*fac, c).0;
            let r = spec_tacky_factor(f, c).0;
            assert forall|k: int| 0 <= k < r.len() implies plain_unary(#[trigger] r[k]) by {
                if k < i.len() {
                    assert(r[k] == i[k]);
                }
            }
        },
        FactorView::Postfix(p) => {
            lemma_plain_primary(p.primary, c);
            let i = spec_tacky_primary(p.primary, c).0;
            let r = spec_tacky_factor(f, c).0;
            assert forall|k: int| 0 <= k < r.len() implies plain_unary(#[trigger] r[k]) by {
                if k < i.len() {
                    assert(r[k] == i[k]);
                }
            }
        },
        FactorView::Cast { ty, fac } => {
            lemma_plain_factor(*fac, c);
        },
    }
}

proof fn lemma_plain_primary(p: PrimaryView, c: TackyCounters)
    ensures
        all_plain_unary(spec_tacky_primary(p, c).0),
    decreases p, 1nat,
{
    match p {
        PrimaryView::Paren(e) => {
            lemma_plain_expression(*e, c);
        },
        PrimaryView::FunctionCall(name, args) => {
            lemma_plain_arguments(args, c);
            let i = spec_tacky_arguments(args, c).0;
            let r = spec_tacky_primary(p, c).0;
            assert forall|k: int| 0 <= k < r.len() implies plain_unary(#[trigger] r[k]) by {
                if k < i.len() {
                    assert(r[k] == i[k]);
                }
            }
        },
        _ => {},
    }
}

proof fn lemma_plain_arguments(args: Seq<TypedExpressionView>, c: TackyCounters)
    ensures
        all_plain_unary(spec_tacky_arguments(args, c).0),
    decreases args, args.len(),
{
    if args.len() > 0 {
        let (i1, vs, c1) = spec_tacky_arguments(args.drop_last(), c);
        lemma_plain_arguments(args.drop_last(), c);
        lemma_plain_expression(args.last(), c1);
        lemma_plain_concat(i1, spec_tacky_expression(args.last(), c1).0);
    }
}


proof fn lemma_plain_dispatch(cases: Seq<Constant>, v: ValueView, l: Seq<char>, c: TackyCounters)
    ensures
        all_plain_unary(spec_switch_dispatch(cases, v, l, c).0),
    decreases cases.len(),
{
    if cases.len() > 0 {
        lemma_plain_dispatch(cases.drop_last(), v, l, c);
        let (i1, c1) = spec_switch_dispatch(cases.drop_last(), v, l, c);
        let k = constant_bits(cases.last());
        let tmp = binary_temp(c1.binary);
        lemma_plain_concat(i1, seq![
            InstructionView::BinaryOp { op: BinaryOperator::Equal, val1: v, val2: ValueView::Constant(k), dst: tmp },
            InstructionView::JumpIfNotZero { val: tmp, target: case_label(l, k) },
        ]);
    }
}

proof fn lemma_plain_local_variable(d: VariableDeclarationView, c: TackyCounters)
    ensures
        all_plain_unary(spec_tacky_local_variable(d, c).0),
{
    match d.initialiser {
        Some(e) => if d.storage_class is None {
            lemma_plain_expression(e, c);
            let (i, v, c1) = spec_tacky_expression(e, c);
            lemma_plain_concat(i, seq![InstructionView::Copy { src: v, dst: ValueView::Var(d.identifier) }]);
        },
        None => {},
    }
}

proof fn lemma_plain_optional(e: Option<TypedExpressionView>, c: TackyCounters)
    ensures
        all_plain_unary(spec_tacky_optional(e, c).0),
{
    match e {
        Some(x) => {
            lemma_plain_expression(x, c);
        },
        None => {},
    }
}

#[verifier::rlimit(100)]
#[verifier::spinoff_prover]
proof fn lemma_plain_statement(s: StatementView, c: TackyCounters)
    ensures
        all_plain_unary(spec_tacky_statement(s, c).0),
    decreases s, 0nat,
{
    match s {
        StatementView::Return(e) => {
            lemma_plain_expression(e, c);
            let (i, v, c1) = spec_tacky_expression(e, c);
            lemma_plain_concat(i, seq![InstructionView::Return(v)]);
        },
        StatementView::Expression(e) => {
            lemma_plain_expression(e, c);
        },
        StatementView::If { condition, then_branch, else_branch } => {
            let el = jump_label("if_else"@, c.label);
            let end = jump_label("if_end"@, bump(c.label));
            let (i1, v, c1) = spec_tacky_expression(condition, two_labels(c));
            let (i2, c2) = spec_tacky_statement(*then_branch, c1);
            let (i3, c3) = match else_branch {
                Some(e) => spec_tacky_statement(*e, c2),
                None => (seq![], c2),
            };
            lemma_plain_expression(condition, two_labels(c));
            lemma_plain_statement(*then_branch, c1);
            match else_branch {
                Some(e) => {
                    lemma_plain_statement(*e, c2);
                },
                None => {},
            }
            let p1 = seq![InstructionView::JumpIfZero { val: v, target: el }];
            let p2 = seq![InstructionView::Jump(end), InstructionView::Label(el)];
            let p3 = seq![InstructionView::Label(end)];
            lemma_plain_concat(i1, p1);
            lemma_plain_concat(i1 + p1, i2);
            lemma_plain_concat(i1 + p1 + i2, p2);
            lemma_plain_concat(i1 + p1 + i2 + p2, i3);
            lemma_plain_concat(i1 + p1 + i2 + p2 + i3, p3);
        },
        StatementView::Block(items) => {
            lemma_plain_items(items, c);
        },
        StatementView::Labeled(l, body) => {
            lemma_plain_statement(*body, c);
            lemma_plain_concat(seq![InstructionView::Label(l)], spec_tacky_statement(*body, c).0);
        },
        StatementView::While { condition, body, label } => {
            let l = label_of(label);
            let (i1, v, c1) = spec_tacky_expression(condition, c);
            let (i2, c2) = spec_tacky_statement(*body, c1);
            lemma_plain_expression(condition, c);
            lemma_plain_statement(*body, c1);
            let p0 = seq![InstructionView::Label(continue_label(l))];
            let p1 = seq![InstructionView::JumpIfZero { val: v, target: break_label(l) }];
            let p2 = seq![InstructionView::Jump(continue_label(l)), InstructionView::Label(break_label(l))];
            lemma_plain_concat(p0, i1);
            lemma_plain_concat(p0 + i1, p1);
            lemma_plain_concat(p0 + i1 + p1, i2);
            lemma_plain_concat(p0 + i1 + p1 + i2, p2);
        },
        StatementView::DoWhile { body, condition, label } => {
            let l = label_of(label);
            let (i1, c1) = spec_tacky_statement(*body, c);
            let (i2, v, c2) = spec_tacky_expression(condition, c1);
            lemma_plain_statement(*body, c);
            lemma_plain_expression(condition, c1);
            let p0 = seq![InstructionView::Label(start_label(l))];
            let p1 = seq![InstructionView::Label(continue_label(l))];
            let p2 = seq![InstructionView::JumpIfNotZero { val: v, target: start_label(l) }, InstructionView::Label(break_label(l))];
            lemma_plain_concat(p0, i1);
            lemma_plain_concat(p0 + i1, p1);
            lemma_plain_concat(p0 + i1 + p1, i2);
            lemma_plain_concat(p0 + i1 + p1 + i2, p2);
        },
        StatementView::For { init, condition, post, body, label } => {
            let l = label_of(label);
            let (i0, c0) = match init {
                ForInitView::Declaration(d) => spec_tacky_local_variable(d, c),
                ForInitView::Expression(e) => spec_tacky_optional(e, c),
            };
            match init {
                ForInitView::Declaration(d) => {
                    lemma_plain_local_variable(d, c);
                },
                ForInitView::Expression(e) => {
                    lemma_plain_optional(e, c);
                },
            }
            let (i1, c1) = match condition {
                Some(e) => {
                    let (ic, v, cc) = spec_tacky_expression(e, c0);
                    (ic.push(InstructionView::JumpIfZero { val: v, target: break_label(l) }), cc)
                },
                None => (seq![], c0),
            };
            match condition {
                Some(e) => {
                    lemma_plain_expression(e, c0);
                    let (ic, v, cc) = spec_tacky_expression(e, c0);
                    lemma_plain_concat(ic, seq![InstructionView::JumpIfZero { val: v, target: break_label(l) }]);
                },
                None => {},
            }
            let (i2, c2) = spec_tacky_statement(*body, c1);
            let (i3, c3) = spec_tacky_optional(post, c2);
            lemma_plain_statement(*body, c1);
            lemma_plain_optional(post, c2);
            let p0 = seq![InstructionView::Label(start_label(l))];
            let p1 = seq![InstructionView::Label(continue_label(l))];
            let p2 = seq![InstructionView::Jump(start_label(l)), InstructionView::Label(break_label(l))];
            lemma_plain_concat(i0, p0);
            lemma_plain_concat(i0 + p0, i1);
            lemma_plain_concat(i0 + p0 + i1, i2);
            lemma_plain_concat(i0 + p0 + i1 + i2, p1);
            lemma_plain_concat(i0 + p0 + i1 + i2 + p1, i3);
            lemma_plain_concat(i0 + p0 + i1 + i2 + p1 + i3, p2);
        },
        StatementView::Switch { condition, body, label, cases, default_exists } => {
            let l = label_of(label);
            let (i1, v, c1) = spec_tacky_expression(condition, c);
            let (i2, c2) = spec_switch_dispatch(cases, v, l, c1);
            let tail = if default_exists {
                InstructionView::Jump(default_label(l))
            } else {
                InstructionView::Jump(break_label(l))
            };
            let (i3, c3) = spec_tacky_statement(*body, c2);
            lemma_plain_expression(condition, c);
            lemma_plain_dispatch(cases, v, l, c1);
            lemma_plain_statement(*body, c2);
            let p0 = seq![tail];
            let p1 = seq![InstructionView::Label(break_label(l))];
            lemma_plain_concat(i1, i2);
            lemma_plain_concat(i1 + i2, p0);
            lemma_plain_concat(i1 + i2 + p0, i3);
            lemma_plain_concat(i1 + i2 + p0 + i3, p1);
        },
        StatementView::Case(e, body, l) => {
            lemma_plain_statement(*body, c);
            lemma_plain_concat(
                seq![InstructionView::Label(case_label(label_of(l), case_bits(e)))],
                spec_tacky_statement(*body, c).0,
            );
        },
        StatementView::Default(body, l) => {
            lemma_plain_statement(*body, c);
            lemma_plain_concat(
                seq![InstructionView::Label(default_label(label_of(l)))],
                spec_tacky_statement(*body, c).0,
            );
        },
        _ => {},
    }
}

proof fn lemma_plain_items(items: Seq<BlockItemView>, c: TackyCounters)
    ensures
        all_plain_unary(spec_tacky_items(items, c).0),
    decreases items, items.len(),
{
    if items.len() > 0 {
        let (i1, c1) = spec_tacky_items(items.drop_last(), c);
        lemma_plain_items(items.drop_last(), c);
        match items.last() {
            BlockItemView::Statement(s) => {
                lemma_plain_statement(s, c1);
            },
            BlockItemView::Declaration(DeclarationView::Variable(d)) => {
                lemma_plain_local_variable(d, c1);
            },
            BlockItemView::Declaration(DeclarationView::Function(_)) => {},
        }
        lemma_plain_concat(i1, spec_tacky_item(items.last(), c1).0);
    }
}

proof fn lemma_plain_declarations(ds: Seq<DeclarationView>, c: TackyCounters)
    ensures
        forall|k: int|
            0 <= k < spec_tacky_declarations(ds, c).0.len() ==> all_plain_unary(
                #[trigger] spec_tacky_declarations(ds, c).0[k].body,
            ),
    decreases ds.len(),
{
    if ds.len() > 0 {
        let (fs, c1) = spec_tacky_declarations(ds.drop_last(), c);
        lemma_plain_declarations(ds.drop_last(), c);
        match ds.last() {
            DeclarationView::Function(f) => match f.body {
                Some(b) => {
                    lemma_plain_items(b, c1);
                    let (i, c2) = spec_tacky_items(b, c1);
                    lemma_plain_concat(i, seq![InstructionView::Return(ValueView::Constant(0))]);
                },
                None => {},
            },
            DeclarationView::Variable(_) => {},
        }
    }
}

/// Lowering emits no unary operation but complement, negation and logical
/// not: the increments become additions and subtractions.
pub proof fn law_lowering_uses_plain_unary_operations(p: Seq<DeclarationView>, c: TackyCounters)
    ensures
        forall|k: int|
            0 <= k < spec_tacky_declarations(p, c).0.len() ==> all_plain_unary(
                #[trigger] spec_tacky_declarations(p, c).0[k].body,
            ),
{
    lemma_plain_declarations(p, c);
}


/// The label an instruction jumps to, if it jumps.
pub open spec fn jump_target(i: InstructionView) -> Option<Seq<char>> {
    match i {
        InstructionView::Jump(l) => Some(l),
        InstructionView::JumpIfZero { val: _, target } => Some(target),
        InstructionView::JumpIfNotZero { val: _, target } => Some(target),
        _ => None,
    }
}

/// The labels that an instruction sequence places.
pub open spec fn placed_labels(s: Seq<InstructionView>) -> Set<Seq<char>>
    decreases s.len(),
{
    if s.len() == 0 {
        Set::empty()
    } else {
        placed_labels(s.drop_last()) + match s.last() {
            InstructionView::Label(l) => set![l],
            _ => Set::empty(),
        }
    }
}

/// The labels that the jumps of an instruction sequence name.
pub open spec fn jump_targets(s: Seq<InstructionView>) -> Set<Seq<char>>
    decreases s.len(),
{
    if s.len() == 0 {
        Set::empty()
    } else {
        jump_targets(s.drop_last()) + match jump_target(s.last()) {
            Some(l) => set![l],
            None => Set::empty(),
        }
    }
}

proof fn lemma_labels_concat(a: Seq<InstructionView>, b: Seq<InstructionView>)
    ensures
        placed_labels(a + b) == placed_labels(a) + placed_labels(b),
        jump_targets(a + b) == jump_targets(a) + jump_targets(b),
    decreases b.len(),
{
    if b.len() == 0 {
        assert(a + b =~= a);
        assert(placed_labels(a) + placed_labels(b) =~= placed_labels(a));
        assert(jump_targets(a) + jump_targets(b) =~= jump_targets(a));
    } else {
        lemma_labels_concat(a, b.drop_last());
        assert((a + b).drop_last() =~= a + b.drop_last());
        assert((a + b).last() == b.last());
        assert(placed_labels(a + b) =~= placed_labels(a) + placed_labels(b));
        assert(jump_targets(a + b) =~= jump_targets(a) + jump_targets(b));
    }
}

proof fn lemma_labels_single(i: InstructionView)
    ensures
        placed_labels(seq![i]) == match i {
            InstructionView::Label(l) => set![l],
            _ => Set::<Seq<char>>::empty(),
        },
        jump_targets(seq![i]) == match jump_target(i) {
            Some(l) => set![l],
            None => Set::<Seq<char>>::empty(),
        },
{
    assert(seq![i].drop_last() =~= Seq::<InstructionView>::empty());
    assert(seq![i].last() == i);
    assert(placed_labels(Seq::<InstructionView>::empty()) == Set::<Seq<char>>::empty());
    assert(jump_targets(Seq::<InstructionView>::empty()) == Set::<Seq<char>>::empty());
    assert(placed_labels(seq![i]) =~= Set::<Seq<char>>::empty() + match i {
        InstructionView::Label(l) => set![l],
        _ => Set::<Seq<char>>::empty(),
    });
    assert(jump_targets(seq![i]) =~= Set::<Seq<char>>::empty() + match jump_target(i) {
        Some(l) => set![l],
        None => Set::<Seq<char>>::empty(),
    });
}


/// Every jump of the sequence names a label that the sequence places.
pub open spec fn jumps_closed(s: Seq<InstructionView>) -> bool {
    jump_targets(s).subset_of(placed_labels(s))
}

proof fn lemma_closed_concat(a: Seq<InstructionView>, b: Seq<InstructionView>)
    requires
        jumps_closed(a),
        jumps_closed(b),
    ensures
        jumps_closed(a + b),
{
    lemma_labels_concat(a, b);
}

proof fn lemma_closed_plain(i: InstructionView)
    requires
        jump_target(i) is None,
    ensures
        jumps_closed(seq![i]),
{
    lemma_labels_single(i);
}

proof fn lemma_closed_expression(e: TypedExpressionView, c: TackyCounters)
    ensures
        jumps_closed(spec_tacky_expression(e, c).0),
    decreases e, 3nat,
{
    match e.expression {
        ExpressionView::Factor(f) => {
            lemma_closed_factor(f, c);
        },
        ExpressionView::BinaryOp { op, left, right } => match tacky_binary_op(op) {
            Some(bop) => {
                let (i1, v1, c1) = spec_tacky_expression(*left, c);
                let (i2, v2, c2) = spec_tacky_expression(*right, c1);
                lemma_closed_expression(*left, c);
                lemma_closed_expression(*right, c1);
                lemma_closed_concat(i1, i2);
                let x = InstructionView::BinaryOp { op: bop, val1: v1, val2: v2, dst: binary_temp(c2.binary) };
                lemma_closed_plain(x);
                lemma_closed_concat(i1 + i2, seq![x]);
            },
            None => {
                let end = jump_label("binop_end"@, c.label);
                let out = binary_temp(c.binary);
                let c0 = two_labels_and_temp(c);
                let (i1, v1, c1) = spec_tacky_expression(*left, c0);
                let (i2, v2, c2) = spec_tacky_expression(*right, c1);
                lemma_closed_expression(*left, c0);
                lemma_closed_expression(*right, c1);
                let r = spec_tacky_expression(e, c).0;
                if op == AstBinaryOperator::LogicalAnd {
                    let f = jump_label("binop_false"@, bump(c.label));
                    assert(r =~= i1 + seq![InstructionView::JumpIfZero { val: v1, target: f }] + i2 + seq![InstructionView::JumpIfZero { val: v2, target: f }] + seq![InstructionView::Copy { src: ValueView::Constant(1), dst: out }] + seq![InstructionView::Jump(end)] + seq![InstructionView::Label(f)] + seq![InstructionView::Copy { src: ValueView::Constant(0), dst: out }] + seq![InstructionView::Label(end)]);
                    lemma_labels_single(InstructionView::JumpIfZero { val: v1, target: f });
                    lemma_labels_single(InstructionView::JumpIfZero { val: v2, target: f });
                    lemma_labels_single(InstructionView::Copy { src: ValueView::Constant(1), dst: out });
                    lemma_labels_single(InstructionView::Jump(end));
                    lemma_labels_single(InstructionView::Label(f));
                    lemma_labels_single(InstructionView::Copy { src: ValueView::Constant(0), dst: out });
                    lemma_labels_single(InstructionView::Label(end));
                    lemma_labels_concat(i1, seq![InstructionView::JumpIfZero { val: v1, target: f }]);
                    lemma_labels_concat(i1 + seq![InstructionView::JumpIfZero { val: v1, target: f }], i2);
                    lemma_labels_concat(i1 + seq![InstructionView::JumpIfZero { val: v1, target: f }] + i2, seq![InstructionView::JumpIfZero { val: v2, target: f }]);
                    lemma_labels_concat(i1 + seq![InstructionView::JumpIfZero { val: v1, target: f }] + i2 + seq![InstructionView::JumpIfZero { val: v2, target: f }], seq![InstructionView::Copy { src: ValueView::Constant(1), dst: out }]);
                    lemma_labels_concat(i1 + seq![InstructionView::JumpIfZero { val: v1, target: f }] + i2 + seq![InstructionView::JumpIfZero { val: v2, target: f }] + seq![InstructionView::Copy { src: ValueView::Constant(1), dst: out }], seq![InstructionView::Jump(end)]);
                    lemma_labels_concat(i1 + seq![InstructionView::JumpIfZero { val: v1, target: f }] + i2 + seq![InstructionView::JumpIfZero { val: v2, target: f }] + seq![InstructionView::Copy { src: ValueView::Constant(1), dst: out }] + seq![InstructionView::Jump(end)], seq![InstructionView::Label(f)]);
                    lemma_labels_concat(i1 + seq![InstructionView::JumpIfZero { val: v1, target: f }] + i2 + seq![InstructionView::JumpIfZero { val: v2, target: f }] + seq![InstructionView::Copy { src: ValueView::Constant(1), dst: out }] + seq![InstructionView::Jump(end)] + seq![InstructionView::Label(f)], seq![InstructionView::Copy { src: ValueView::Constant(0), dst: out }]);
                    lemma_labels_concat(i1 + seq![InstructionView::JumpIfZero { val: v1, target: f }] + i2 + seq![InstructionView::JumpIfZero { val: v2, target: f }] + seq![InstructionView::Copy { src: ValueView::Constant(1), dst: out }] + seq![InstructionView::Jump(end)] + seq![InstructionView::Label(f)] + seq![InstructionView::Copy { src: ValueView::Constant(0), dst: out }], seq![InstructionView::Label(end)]);
                } else {
                    let t = jump_label("binop_true"@, bump(c.label));
                    assert(r =~= i1 + seq![InstructionView::JumpIfNotZero { val: v1, target: t }] + i2 + seq![InstructionView::JumpIfNotZero { val: v2, target: t }] + seq![InstructionView::Copy { src: ValueView::Constant(0), dst: out }] + seq![InstructionView::Jump(end)] + seq![InstructionView::Label(t)] + seq![InstructionView::Copy { src: ValueView::Constant(1), dst: out }] + seq![InstructionView::Label(end)]);
                    lemma_labels_single(InstructionView::JumpIfNotZero { val: v1, target: t });
                    lemma_labels_single(InstructionView::JumpIfNotZero { val: v2, target: t });
                    lemma_labels_single(InstructionView::Copy { src: ValueView::Constant(0), dst: out });
                    lemma_labels_single(InstructionView::Jump(end));
                    lemma_labels_single(InstructionView::Label(t));
                    lemma_labels_single(InstructionView::Copy { src: ValueView::Constant(1), dst: out });
                    lemma_labels_single(InstructionView::Label(end));
                    lemma_labels_concat(i1, seq![InstructionView::JumpIfNotZero { val: v1, target: t }]);
                    lemma_labels_concat(i1 + seq![InstructionView::JumpIfNotZero { val: v1, target: t }], i2);
                    lemma_labels_concat(i1 + seq![InstructionView::JumpIfNotZero { val: v1, target: t }] + i2, seq![InstructionView::JumpIfNotZero { val: v2, target: t }]);
                    lemma_labels_concat(i1 + seq![InstructionView::JumpIfNotZero { val: v1, target: t }] + i2 + seq![InstructionView::JumpIfNotZero { val: v2, target: t }], seq![InstructionView::Copy { src: ValueView::Constant(0), dst: out }]);
                    lemma_labels_concat(i1 + seq![InstructionView::JumpIfNotZero { val: v1, target: t }] + i2 + seq![InstructionView::JumpIfNotZero { val: v2, target: t }] + seq![InstructionView::Copy { src: ValueView::Constant(0), dst: out }], seq![InstructionView::Jump(end)]);
                    lemma_labels_concat(i1 + seq![InstructionView::JumpIfNotZero { val: v1, target: t }] + i2 + seq![InstructionView::JumpIfNotZero { val: v2, target: t }] + seq![InstructionView::Copy { src: ValueView::Constant(0), dst: out }] + seq![InstructionView::Jump(end)], seq![InstructionView::Label(t)]);
                    lemma_labels_concat(i1 + seq![InstructionView::JumpIfNotZero { val: v1, target: t }] + i2 + seq![InstructionView::JumpIfNotZero { val: v2, target: t }] + seq![InstructionView::Copy { src: ValueView::Constant(0), dst: out }] + seq![InstructionView::Jump(end)] + seq![InstructionView::Label(t)], seq![InstructionView::Copy { src: ValueView::Constant(1), dst: out }]);
                    lemma_labels_concat(i1 + seq![InstructionView::JumpIfNotZero { val: v1, target: t }] + i2 + seq![InstructionView::JumpIfNotZero { val: v2, target: t }] + seq![InstructionView::Copy { src: ValueView::Constant(0), dst: out }] + seq![InstructionView::Jump(end)] + seq![InstructionView::Label(t)] + seq![InstructionView::Copy { src: ValueView::Constant(1), dst: out }], seq![InstructionView::Label(end)]);
                }
            },
        },
        ExpressionView::Assignment { left, right } => {
            let (i1, rv, c1) = spec_tacky_expression(*right, c);
            let (_, lv, c2) = spec_tacky_expression(*left, c1);
            lemma_closed_expression(*right, c);
            let x = InstructionView::Copy { src: rv, dst: lv };
            lemma_closed_plain(x);
            lemma_closed_concat(i1, seq![x]);
            assert(i1.push(x) =~= i1 + seq![x]);
        },
        ExpressionView::Conditional { condition, then_branch, else_branch } => {
            let el = jump_label("cond_else"@, c.label);
            let end = jump_label("cond_end"@, bump(c.label));
            let out = binary_temp(c.binary);
            let c0 = two_labels_and_temp(c);
            let (i1, cv, c1) = spec_tacky_expression(*condition, c0);
            let (i2, tv, c2) = spec_tacky_expression(*then_branch, c1);
            let (i3, ev, c3) = spec_tacky_expression(*else_branch, c2);
            lemma_closed_expression(*condition, c0);
            lemma_closed_expression(*then_branch, c1);
            lemma_closed_expression(*else_branch, c2);
            let r = spec_tacky_expression(e, c).0;
            assert(r =~= i1 + seq![InstructionView::JumpIfZero { val: cv, target: el }] + i2 + seq![InstructionView::Copy { src: tv, dst: out }] + seq![InstructionView::Jump(end)] + seq![InstructionView::Label(el)] + i3 + seq![InstructionView::Copy { src: ev, dst: out }] + seq![InstructionView::Label(end)]);
            lemma_labels_single(InstructionView::JumpIfZero { val: cv, target: el });
            lemma_labels_single(InstructionView::Copy { src: tv, dst: out });
            lemma_labels_single(InstructionView::Jump(end));
            lemma_labels_single(InstructionView::Label(el));
            lemma_labels_single(InstructionView::Copy { src: ev, dst: out });
            lemma_labels_single(InstructionView::Label(end));
            lemma_labels_concat(i1, seq![InstructionView::JumpIfZero { val: cv, target: el }]);
            lemma_labels_concat(i1 + seq![InstructionView::JumpIfZero { val: cv, target: el }], i2);
            lemma_labels_concat(i1 + seq![InstructionView::JumpIfZero { val: cv, target: el }] + i2, seq![InstructionView::Copy { src: tv, dst: out }]);
            lemma_labels_concat(i1 + seq![InstructionView::JumpIfZero { val: cv, target: el }] + i2 + seq![InstructionView::Copy { src: tv, dst: out }], seq![InstructionView::Jump(end)]);
            lemma_labels_concat(i1 + seq![InstructionView::JumpIfZero { val: cv, target: el }] + i2 + seq![InstructionView::Copy { src: tv, dst: out }] + seq![InstructionView::Jump(end)], seq![InstructionView::Label(el)]);
            lemma_labels_concat(i1 + seq![InstructionView::JumpIfZero { val: cv, target: el }] + i2 + seq![InstructionView::Copy { src: tv, dst: out }] + seq![InstructionView::Jump(end)] + seq![InstructionView::Label(el)], i3);
            lemma_labels_concat(i1 + seq![InstructionView::JumpIfZero { val: cv, target: el }] + i2 + seq![InstructionView::Copy { src: tv, dst: out }] + seq![InstructionView::Jump(end)] + seq![InstructionView::Label(el)] + i3, seq![InstructionView::Copy { src: ev, dst: out }]);
            lemma_labels_concat(i1 + seq![InstructionView::JumpIfZero { val: cv, target: el }] + i2 + seq![InstructionView::Copy { src: tv, dst: out }] + seq![InstructionView::Jump(end)] + seq![InstructionView::Label(el)] + i3 + seq![InstructionView::Copy { src: ev, dst: out }], seq![InstructionView::Label(end)]);
        },
    }
}

proof fn lemma_closed_factor(f: FactorView, c: TackyCounters)
    ensures
        jumps_closed(spec_tacky_factor(f, c).0),
    decreases f, 2nat,
{
    match f {
        FactorView::UnaryOp { op, fac } => {
            lemma_closed_factor(*fac, c);
            let (i, v, c1) = spec_tacky_factor(*fac, c);
            let dst = unary_temp(c1.unary);
            if op == UnaryOperator::PrefixIncrement || op == UnaryOperator::PrefixDecrement {
                let x1 = InstructionView::BinaryOp { op: step_op(op), val1: v, val2: ValueView::Constant(1), dst };
                let x2 = InstructionView::Copy { src: dst, dst: v };
                lemma_closed_plain(x1);
                lemma_closed_plain(x2);
                lemma_closed_concat(i, seq![x1]);
                lemma_closed_concat(i + seq![x1], seq![x2]);
                assert(i + seq![x1, x2] =~= i + seq![x1] + seq![x2]);
            } else {
                let x = InstructionView::UnaryOp { op, src: v, dst };
                lemma_closed_plain(x);
                lemma_closed_concat(i, seq![x]);
                assert(i.push(x) =~= i + seq![x]);
            }
        },
        FactorView::Postfix(p) => {
            lemma_closed_primary(p.primary, c);
            let (i, v, c1) = spec_tacky_primary(p.primary, c);
            if p.postfix.len() > 0 {
                let dst = unary_temp(c1.unary);
                let x1 = InstructionView::Copy { src: v, dst };
                let x2 = InstructionView::BinaryOp { op: postfix_step_op(p.postfix[0]), val1: dst, val2: ValueView::Constant(1), dst: v };
                lemma_closed_plain(x1);
                lemma_closed_plain(x2);
                lemma_closed_concat(i, seq![x1]);
                lemma_closed_concat(i + seq![x1], seq![x2]);
                assert(i + seq![x1, x2] =~= i + seq![x1] + seq![x2]);
            }
        },
        FactorView::Cast { ty, fac } => {
            lemma_closed_factor(*fac, c);
        },
    }
}

proof fn lemma_closed_primary(p: PrimaryView, c: TackyCounters)
    ensures
        jumps_closed(spec_tacky_primary(p, c).0),
    decreases p, 1nat,
{
    match p {
        PrimaryView::Paren(e) => {
            lemma_closed_expression(*e, c);
        },
        PrimaryView::FunctionCall(name, args) => {
            lemma_closed_arguments(args, c);
            let (i, vs, c1) = spec_tacky_arguments(args, c);
            let x = InstructionView::FunCall { name, args: vs, dst: call_temp(c1.call) };
            lemma_closed_plain(x);
            lemma_closed_concat(i, seq![x]);
            assert(i.push(x) =~= i + seq![x]);
        },
        _ => {
            lemma_labels_concat(Seq::<InstructionView>::empty(), Seq::<InstructionView>::empty());
            assert(Seq::<InstructionView>::empty() + Seq::<InstructionView>::empty() =~= Seq::<InstructionView>::empty());
        },
    }
}

proof fn lemma_closed_arguments(args: Seq<TypedExpressionView>, c: TackyCounters)
    ensures
        jumps_closed(spec_tacky_arguments(args, c).0),
    decreases args, args.len(),
{
    if args.len() > 0 {
        let (i1, vs, c1) = spec_tacky_arguments(args.drop_last(), c);
        lemma_closed_arguments(args.drop_last(), c);
        lemma_closed_expression(args.last(), c1);
        lemma_closed_concat(i1, spec_tacky_expression(args.last(), c1).0);
    }
}


/// The case and default labels that the case and default statements of `s`
/// place when lowered.
pub open spec fn case_places(s: StatementView) -> Set<Seq<char>>
    decreases s, 0nat,
{
    match s {
        StatementView::Case(e, body, l) => set![case_label(label_of(l), case_bits(e))] + case_places(
            *body,
        ),
        StatementView::Default(body, l) => set![default_label(label_of(l))] + case_places(*body),
        StatementView::Labeled(_, body) => case_places(*body),
        StatementView::If { condition: _, then_branch, else_branch } => case_places(*then_branch)
            + match else_branch {
            Some(e) => case_places(*e),
            None => Set::empty(),
        },
        StatementView::While { condition: _, body, label: _ } => case_places(*body),
        StatementView::DoWhile { body, condition: _, label: _ } => case_places(*body),
        StatementView::For { init: _, condition: _, post: _, body, label: _ } => case_places(*body),
        StatementView::Switch { condition: _, body, .. } => case_places(*body),
        StatementView::Block(items) => case_places_items(items),
        _ => Set::empty(),
    }
}

pub open spec fn case_places_items(items: Seq<BlockItemView>) -> Set<Seq<char>>
    decreases items, items.len(),
{
    if items.len() == 0 {
        Set::empty()
    } else {
        case_places_items(items.drop_last()) + match items.last() {
            BlockItemView::Statement(s) => case_places(s),
            BlockItemView::Declaration(_) => Set::empty(),
        }
    }
}

/// Every `break` of `s` leaves the construct labelled `brk`, every
/// `continue` continues the loop labelled `cont`, every `case` and `default`
/// belongs to the switch labelled `sw`, and every switch has a case or
/// default statement for each of its case values and its default.
pub open spec fn well_enclosed(
    s: StatementView,
    brk: Option<Seq<char>>,
    cont: Option<Seq<char>>,
    sw: Option<Seq<char>>,
) -> bool
    decreases s, 0nat,
{
    match s {
        StatementView::Break(l) => l is Some && l == brk,
        StatementView::Continue(l) => l is Some && l == cont,
        StatementView::Case(e, body, l) => l is Some && l == sw && spec_expression_value(
            e.expression,
        ) is Some && well_enclosed(*body, brk, cont, sw),
        StatementView::Default(body, l) => l is Some && l == sw && well_enclosed(
            *body,
            brk,
            cont,
            sw,
        ),
        StatementView::Labeled(_, body) => well_enclosed(*body, brk, cont, sw),
        StatementView::If { condition: _, then_branch, else_branch } => well_enclosed(
            *then_branch,
            brk,
            cont,
            sw,
        ) && match else_branch {
            Some(e) => well_enclosed(*e, brk, cont, sw),
            None => true,
        },
        StatementView::While { condition: _, body, label } => label is Some && well_enclosed(
            *body,
            label,
            label,
            sw,
        ),
        StatementView::DoWhile { body, condition: _, label } => label is Some && well_enclosed(
            *body,
            label,
            label,
            sw,
        ),
        StatementView::For { init: _, condition: _, post: _, body, label } => label is Some
            && well_enclosed(*body, label, label, sw),
        StatementView::Switch { condition: _, body, label, cases, default_exists } => label is Some
            && well_enclosed(*body, label, cont, label) && (forall|i: int|
            0 <= i < cases.len() ==> case_places(*body).contains(
                #[trigger] case_label(label->Some_0, constant_bits(cases[i])),
            )) && (default_exists ==> case_places(*body).contains(default_label(label->Some_0))),
        StatementView::Block(items) => items_well_enclosed(items, brk, cont, sw),
        _ => true,
    }
}

pub open spec fn items_well_enclosed(
    items: Seq<BlockItemView>,
    brk: Option<Seq<char>>,
    cont: Option<Seq<char>>,
    sw: Option<Seq<char>>,
) -> bool
    decreases items, items.len(),
{
    forall|i: int| 0 <= i < items.len() ==> match #[trigger] items[i] {
        BlockItemView::Statement(s) => well_enclosed(s, brk, cont, sw),
        BlockItemView::Declaration(_) => true,
    }
}

/// Where a `break` or `continue` in a context may jump.
pub open spec fn escapes(brk: Option<Seq<char>>, cont: Option<Seq<char>>) -> Set<Seq<char>> {
    (match brk {
        Some(l) => set![break_label(l)],
        None => Set::empty(),
    }) + match cont {
        Some(l) => set![continue_label(l)],
        None => Set::empty(),
    }
}

proof fn lemma_closed_dispatch(
    cases: Seq<Constant>,
    v: ValueView,
    l: Seq<char>,
    c: TackyCounters,
    places: Set<Seq<char>>,
)
    requires
        forall|i: int| 0 <= i < cases.len() ==> places.contains(
            #[trigger] case_label(l, constant_bits(cases[i])),
        ),
    ensures
        jump_targets(spec_switch_dispatch(cases, v, l, c).0).subset_of(places),
        placed_labels(spec_switch_dispatch(cases, v, l, c).0) == Set::<Seq<char>>::empty(),
    decreases cases.len(),
{
    if cases.len() == 0 {
        assert(placed_labels(Seq::<InstructionView>::empty()) == Set::<Seq<char>>::empty());
    } else {
        assert forall|i: int| 0 <= i < cases.drop_last().len() implies places.contains(
            #[trigger] case_label(l, constant_bits(cases.drop_last()[i])),
        ) by {
            assert(cases.drop_last()[i] == cases[i]);
        }
        lemma_closed_dispatch(cases.drop_last(), v, l, c, places);
        let (i1, c1) = spec_switch_dispatch(cases.drop_last(), v, l, c);
        let k = constant_bits(cases.last());
        let tmp = binary_temp(c1.binary);
        let x1 = InstructionView::BinaryOp { op: BinaryOperator::Equal, val1: v, val2: ValueView::Constant(k), dst: tmp };
        let x2 = InstructionView::JumpIfNotZero { val: tmp, target: case_label(l, k) };
        assert(places.contains(case_label(l, constant_bits(cases[cases.len() - 1]))));
        lemma_labels_single(x1);
        lemma_labels_single(x2);
        lemma_labels_concat(i1, seq![x1]);
        lemma_labels_concat(i1 + seq![x1], seq![x2]);
        assert(i1 + seq![x1, x2] =~= i1 + seq![x1] + seq![x2]);
        assert(placed_labels(spec_switch_dispatch(cases, v, l, c).0) =~= Set::<Seq<char>>::empty());
    }
}

proof fn lemma_closed_local_variable(d: VariableDeclarationView, c: TackyCounters)
    ensures
        jumps_closed(spec_tacky_local_variable(d, c).0),
{
    match d.initialiser {
        Some(e) => if d.storage_class is None {
            lemma_closed_expression(e, c);
            let (i, v, c1) = spec_tacky_expression(e, c);
            let x = InstructionView::Copy { src: v, dst: ValueView::Var(d.identifier) };
            lemma_closed_plain(x);
            lemma_closed_concat(i, seq![x]);
            assert(i.push(x) =~= i + seq![x]);
        } else {
            assert(placed_labels(Seq::<InstructionView>::empty()) == Set::<Seq<char>>::empty());
            assert(jump_targets(Seq::<InstructionView>::empty()) == Set::<Seq<char>>::empty());
        },
        None => {
            assert(placed_labels(Seq::<InstructionView>::empty()) == Set::<Seq<char>>::empty());
            assert(jump_targets(Seq::<InstructionView>::empty()) == Set::<Seq<char>>::empty());
        },
    }
}

proof fn lemma_closed_optional(e: Option<TypedExpressionView>, c: TackyCounters)
    ensures
        jumps_closed(spec_tacky_optional(e, c).0),
{
    match e {
        Some(x) => {
            lemma_closed_expression(x, c);
        },
        None => {
            assert(placed_labels(Seq::<InstructionView>::empty()) == Set::<Seq<char>>::empty());
            assert(jump_targets(Seq::<InstructionView>::empty()) == Set::<Seq<char>>::empty());
        },
    }
}

/// What the lowering of a statement owes: its jumps land on labels it
/// places, on the labels its gotos name, or where its breaks and continues
/// escape to; and it places the labels it declares and those of its cases.
pub open spec fn statement_lowering_closed(
    s: StatementView,
    i: Seq<InstructionView>,
    brk: Option<Seq<char>>,
    cont: Option<Seq<char>>,
) -> bool {
    &&& jump_targets(i).subset_of(placed_labels(i) + goto_targets(s) + escapes(brk, cont))
    &&& defined_labels(s).subset_of(placed_labels(i))
    &&& case_places(s).subset_of(placed_labels(i))
}


proof fn lemma_closed_if(
    s: StatementView,
    c: TackyCounters,
    brk: Option<Seq<char>>,
    cont: Option<Seq<char>>,
    sw: Option<Seq<char>>,
)
    requires
        s is If,
        well_enclosed(s, brk, cont, sw),
    ensures
        statement_lowering_closed(s, spec_tacky_statement(s, c).0, brk, cont),
    decreases s, 1nat,
{
    let r = spec_tacky_statement(s, c).0;
    match s {
        StatementView::If { condition, then_branch, else_branch } => {
            let el = jump_label("if_else"@, c.label);
            let end = jump_label("if_end"@, bump(c.label));
            let (i1, v, c1) = spec_tacky_expression(condition, two_labels(c));
            let (i2, c2) = spec_tacky_statement(*then_branch, c1);
            let (i3, c3) = match else_branch {
                Some(e) => spec_tacky_statement(*e, c2),
                None => (seq![], c2),
            };
            lemma_closed_expression(condition, two_labels(c));
            lemma_closed_statement(*then_branch, c1, brk, cont, sw);
            match else_branch {
                Some(e) => {
                    lemma_closed_statement(*e, c2, brk, cont, sw);
                },
                None => {
                    assert(placed_labels(i3) == Set::<Seq<char>>::empty());
                    assert(jump_targets(i3) == Set::<Seq<char>>::empty());
                },
            }
            assert(r =~= i1 + seq![InstructionView::JumpIfZero { val: v, target: el }] + i2 + seq![InstructionView::Jump(end)] + seq![InstructionView::Label(el)] + i3 + seq![InstructionView::Label(end)]);
            lemma_labels_single(InstructionView::JumpIfZero { val: v, target: el });
            lemma_labels_single(InstructionView::Jump(end));
            lemma_labels_single(InstructionView::Label(el));
            lemma_labels_single(InstructionView::Label(end));
            lemma_labels_concat(i1, seq![InstructionView::JumpIfZero { val: v, target: el }]);
            lemma_labels_concat(i1 + seq![InstructionView::JumpIfZero { val: v, target: el }], i2);
            lemma_labels_concat(i1 + seq![InstructionView::JumpIfZero { val: v, target: el }] + i2, seq![InstructionView::Jump(end)]);
            lemma_labels_concat(i1 + seq![InstructionView::JumpIfZero { val: v, target: el }] + i2 + seq![InstructionView::Jump(end)], seq![InstructionView::Label(el)]);
            lemma_labels_concat(i1 + seq![InstructionView::JumpIfZero { val: v, target: el }] + i2 + seq![InstructionView::Jump(end)] + seq![InstructionView::Label(el)], i3);
            lemma_labels_concat(i1 + seq![InstructionView::JumpIfZero { val: v, target: el }] + i2 + seq![InstructionView::Jump(end)] + seq![InstructionView::Label(el)] + i3, seq![InstructionView::Label(end)]);

        },
        _ => {},
    }
}

#[verifier::rlimit(100)]
#[verifier::spinoff_prover]
proof fn lemma_closed_while(
    s: StatementView,
    c: TackyCounters,
    brk: Option<Seq<char>>,
    cont: Option<Seq<char>>,
    sw: Option<Seq<char>>,
)
    requires
        s is While,
        well_enclosed(s, brk, cont, sw),
    ensures
        statement_lowering_closed(s, spec_tacky_statement(s, c).0, brk, cont),
    decreases s, 1nat,
{
    let r = spec_tacky_statement(s, c).0;
    match s {
        StatementView::While { condition, body, label } => {
            let l = label_of(label);
            let (i1, v, c1) = spec_tacky_expression(condition, c);
            let (i2, c2) = spec_tacky_statement(*body, c1);
            lemma_closed_expression(condition, c);
            lemma_closed_statement(*body, c1, label, label, sw);
            assert(r =~= seq![InstructionView::Label(continue_label(l))] + i1 + seq![InstructionView::JumpIfZero { val: v, target: break_label(l) }] + i2 + seq![InstructionView::Jump(continue_label(l))] + seq![InstructionView::Label(break_label(l))]);
            lemma_labels_single(InstructionView::Label(continue_label(l)));
            lemma_labels_single(InstructionView::JumpIfZero { val: v, target: break_label(l) });
            lemma_labels_single(InstructionView::Jump(continue_label(l)));
            lemma_labels_single(InstructionView::Label(break_label(l)));
            lemma_labels_concat(seq![InstructionView::Label(continue_label(l))], i1);
            lemma_labels_concat(seq![InstructionView::Label(continue_label(l))] + i1, seq![InstructionView::JumpIfZero { val: v, target: break_label(l) }]);
            lemma_labels_concat(seq![InstructionView::Label(continue_label(l))] + i1 + seq![InstructionView::JumpIfZero { val: v, target: break_label(l) }], i2);
            lemma_labels_concat(seq![InstructionView::Label(continue_label(l))] + i1 + seq![InstructionView::JumpIfZero { val: v, target: break_label(l) }] + i2, seq![InstructionView::Jump(continue_label(l))]);
            lemma_labels_concat(seq![InstructionView::Label(continue_label(l))] + i1 + seq![InstructionView::JumpIfZero { val: v, target: break_label(l) }] + i2 + seq![InstructionView::Jump(continue_label(l))], seq![InstructionView::Label(break_label(l))]);

        },
        _ => {},
    }
}

proof fn lemma_closed_do_while(
    s: StatementView,
    c: TackyCounters,
    brk: Option<Seq<char>>,
    cont: Option<Seq<char>>,
    sw: Option<Seq<char>>,
)
    requires
        s is DoWhile,
        well_enclosed(s, brk, cont, sw),
    ensures
        statement_lowering_closed(s, spec_tacky_statement(s, c).0, brk, cont),
    decreases s, 1nat,
{
    let r = spec_tacky_statement(s, c).0;
    match s {
        StatementView::DoWhile { body, condition, label } => {
            let l = label_of(label);
            let (i1, c1) = spec_tacky_statement(*body, c);
            let (i2, v, c2) = spec_tacky_expression(condition, c1);
            lemma_closed_statement(*body, c, label, label, sw);
            lemma_closed_expression(condition, c1);
            assert(r =~= seq![InstructionView::Label(start_label(l))] + i1 + seq![InstructionView::Label(continue_label(l))] + i2 + seq![InstructionView::JumpIfNotZero { val: v, target: start_label(l) }] + seq![InstructionView::Label(break_label(l))]);
            lemma_labels_single(InstructionView::Label(start_label(l)));
            lemma_labels_single(InstructionView::Label(continue_label(l)));
            lemma_labels_single(InstructionView::JumpIfNotZero { val: v, target: start_label(l) });
            lemma_labels_single(InstructionView::Label(break_label(l)));
            lemma_labels_concat(seq![InstructionView::Label(start_label(l))], i1);
            lemma_labels_concat(seq![InstructionView::Label(start_label(l))] + i1, seq![InstructionView::Label(continue_label(l))]);
            lemma_labels_concat(seq![InstructionView::Label(start_label(l))] + i1 + seq![InstructionView::Label(continue_label(l))], i2);
            lemma_labels_concat(seq![InstructionView::Label(start_label(l))] + i1 + seq![InstructionView::Label(continue_label(l))] + i2, seq![InstructionView::JumpIfNotZero { val: v, target: start_label(l) }]);
            lemma_labels_concat(seq![InstructionView::Label(start_label(l))] + i1 + seq![InstructionView::Label(continue_label(l))] + i2 + seq![InstructionView::JumpIfNotZero { val: v, target: start_label(l) }], seq![InstructionView::Label(break_label(l))]);

        },
        _ => {},
    }
}

#[verifier::rlimit(100)]
#[verifier::spinoff_prover]
proof fn lemma_closed_for(
    s: StatementView,
    c: TackyCounters,
    brk: Option<Seq<char>>,
    cont: Option<Seq<char>>,
    sw: Option<Seq<char>>,
)
    requires
        s is For,
        well_enclosed(s, brk, cont, sw),
    ensures
        statement_lowering_closed(s, spec_tacky_statement(s, c).0, brk, cont),
    decreases s, 1nat,
{
    let r = spec_tacky_statement(s, c).0;
    match s {
        StatementView::For { init, condition, post, body, label } => {
            let l = label_of(label);
            let (i0, c0) = match init {
                ForInitView::Declaration(d) => spec_tacky_local_variable(d, c),
                ForInitView::Expression(e) => spec_tacky_optional(e, c),
            };
            match init {
                ForInitView::Declaration(d) => {
                    lemma_closed_local_variable(d, c);
                },
                ForInitView::Expression(e) => {
                    lemma_closed_optional(e, c);
                },
            }
            let (i1, c1) = match condition {
                Some(e) => {
                    let (ic, v, cc) = spec_tacky_expression(e, c0);
                    (ic.push(InstructionView::JumpIfZero { val: v, target: break_label(l) }), cc)
                },
                None => (seq![], c0),
            };
            match condition {
                Some(e) => {
                    lemma_closed_expression(e, c0);
                    let (ic, v, cc) = spec_tacky_expression(e, c0);
                    let x = InstructionView::JumpIfZero { val: v, target: break_label(l) };
                    lemma_labels_single(x);
                    lemma_labels_concat(ic, seq![x]);
                    assert(ic.push(x) =~= ic + seq![x]);
                },
                None => {
                    assert(placed_labels(i1) == Set::<Seq<char>>::empty());
                    assert(jump_targets(i1) == Set::<Seq<char>>::empty());
                },
            }
            let (i2, c2) = spec_tacky_statement(*body, c1);
            let (i3, c3) = spec_tacky_optional(post, c2);
            lemma_closed_statement(*body, c1, label, label, sw);
            lemma_closed_optional(post, c2);
            assert(r =~= i0 + seq![InstructionView::Label(start_label(l))] + i1 + i2 + seq![InstructionView::Label(continue_label(l))] + i3 + seq![InstructionView::Jump(start_label(l))] + seq![InstructionView::Label(break_label(l))]);
            lemma_labels_single(InstructionView::Label(start_label(l)));
            lemma_labels_single(InstructionView::Label(continue_label(l)));
            lemma_labels_single(InstructionView::Jump(start_label(l)));
            lemma_labels_single(InstructionView::Label(break_label(l)));
            lemma_labels_concat(i0, seq![InstructionView::Label(start_label(l))]);
            lemma_labels_concat(i0 + seq![InstructionView::Label(start_label(l))], i1);
            lemma_labels_concat(i0 + seq![InstructionView::Label(start_label(l))] + i1, i2);
            lemma_labels_concat(i0 + seq![InstructionView::Label(start_label(l))] + i1 + i2, seq![InstructionView::Label(continue_label(l))]);
            lemma_labels_concat(i0 + seq![InstructionView::Label(start_label(l))] + i1 + i2 + seq![InstructionView::Label(continue_label(l))], i3);
            lemma_labels_concat(i0 + seq![InstructionView::Label(start_label(l))] + i1 + i2 + seq![InstructionView::Label(continue_label(l))] + i3, seq![InstructionView::Jump(start_label(l))]);
            lemma_labels_concat(i0 + seq![InstructionView::Label(start_label(l))] + i1 + i2 + seq![InstructionView::Label(continue_label(l))] + i3 + seq![InstructionView::Jump(start_label(l))], seq![InstructionView::Label(break_label(l))]);

        },
        _ => {},
    }
}

proof fn lemma_closed_switch(
    s: StatementView,
    c: TackyCounters,
    brk: Option<Seq<char>>,
    cont: Option<Seq<char>>,
    sw: Option<Seq<char>>,
)
    requires
        s is Switch,
        well_enclosed(s, brk, cont, sw),
    ensures
        statement_lowering_closed(s, spec_tacky_statement(s, c).0, brk, cont),
    decreases s, 1nat,
{
    let r = spec_tacky_statement(s, c).0;
    match s {
        StatementView::Switch { condition, body, label, cases, default_exists } => {
            let l = label_of(label);
            let (i1, v, c1) = spec_tacky_expression(condition, c);
            let (i2, c2) = spec_switch_dispatch(cases, v, l, c1);
            let tail = if default_exists {
                InstructionView::Jump(default_label(l))
            } else {
                InstructionView::Jump(break_label(l))
            };
            let (i3, c3) = spec_tacky_statement(*body, c2);
            lemma_closed_expression(condition, c);
            lemma_closed_statement(*body, c2, label, cont, label);
            lemma_closed_dispatch(cases, v, l, c1, case_places(*body));
            assert(r =~= i1 + i2 + seq![tail] + i3 + seq![InstructionView::Label(break_label(l))]);
            lemma_labels_single(tail);
            lemma_labels_single(InstructionView::Label(break_label(l)));
            lemma_labels_concat(i1, i2);
            lemma_labels_concat(i1 + i2, seq![tail]);
            lemma_labels_concat(i1 + i2 + seq![tail], i3);
            lemma_labels_concat(i1 + i2 + seq![tail] + i3, seq![InstructionView::Label(break_label(l))]);

        },
        _ => {},
    }
}

#[verifier::rlimit(60)]
proof fn lemma_closed_statement(
    s: StatementView,
    c: TackyCounters,
    brk: Option<Seq<char>>,
    cont: Option<Seq<char>>,
    sw: Option<Seq<char>>,
)
    requires
        well_enclosed(s, brk, cont, sw),
    ensures
        statement_lowering_closed(s, spec_tacky_statement(s, c).0, brk, cont),
    decreases s, 2nat,
{
    let r = spec_tacky_statement(s, c).0;
    match s {
        StatementView::If { .. } => {
            lemma_closed_if(s, c, brk, cont, sw);
        },
        StatementView::While { .. } => {
            lemma_closed_while(s, c, brk, cont, sw);
        },
        StatementView::DoWhile { .. } => {
            lemma_closed_do_while(s, c, brk, cont, sw);
        },
        StatementView::For { .. } => {
            lemma_closed_for(s, c, brk, cont, sw);
        },
        StatementView::Switch { .. } => {
            lemma_closed_switch(s, c, brk, cont, sw);
        },
        StatementView::Return(e) => {
            lemma_closed_expression(e, c);
            let (i, v, c1) = spec_tacky_expression(e, c);
            let x = InstructionView::Return(v);
            lemma_closed_plain(x);
            lemma_closed_concat(i, seq![x]);
            assert(i.push(x) =~= i + seq![x]);
        },
        StatementView::Expression(e) => {
            lemma_closed_expression(e, c);
        },
        StatementView::Null => {
            assert(placed_labels(r) == Set::<Seq<char>>::empty());
            assert(jump_targets(r) == Set::<Seq<char>>::empty());
        },
        StatementView::Block(items) => {
            lemma_closed_items(items, c, brk, cont, sw);
        },
        StatementView::Labeled(l, body) => {
            lemma_closed_statement(*body, c, brk, cont, sw);
            let i = spec_tacky_statement(*body, c).0;
            lemma_labels_single(InstructionView::Label(l));
            lemma_labels_concat(seq![InstructionView::Label(l)], i);
        },
        StatementView::Goto(l) => {
            lemma_labels_single(InstructionView::Jump(l));
        },
        StatementView::Break(l) => {
            lemma_labels_single(InstructionView::Jump(break_label(label_of(l))));
        },
        StatementView::Continue(l) => {
            lemma_labels_single(InstructionView::Jump(continue_label(label_of(l))));
        },
        StatementView::Case(e, body, l) => {
            lemma_closed_statement(*body, c, brk, cont, sw);
            let i = spec_tacky_statement(*body, c).0;
            let x = InstructionView::Label(case_label(label_of(l), case_bits(e)));
            lemma_labels_single(x);
            lemma_labels_concat(seq![x], i);
        },
        StatementView::Default(body, l) => {
            lemma_closed_statement(*body, c, brk, cont, sw);
            let i = spec_tacky_statement(*body, c).0;
            let x = InstructionView::Label(default_label(label_of(l)));
            lemma_labels_single(x);
            lemma_labels_concat(seq![x], i);
        },
    }
}

proof fn lemma_closed_items(
    items: Seq<BlockItemView>,
    c: TackyCounters,
    brk: Option<Seq<char>>,
    cont: Option<Seq<char>>,
    sw: Option<Seq<char>>,
)
    requires
        items_well_enclosed(items, brk, cont, sw),
    ensures
        jump_targets(spec_tacky_items(items, c).0).subset_of(
            placed_labels(spec_tacky_items(items, c).0) + goto_targets_items(items) + escapes(
                brk,
                cont,
            ),
        ),
        defined_labels_items(items).subset_of(placed_labels(spec_tacky_items(items, c).0)),
        case_places_items(items).subset_of(placed_labels(spec_tacky_items(items, c).0)),
    decreases items, items.len(),
{
    if items.len() == 0 {
        assert(placed_labels(Seq::<InstructionView>::empty()) == Set::<Seq<char>>::empty());
        assert(jump_targets(Seq::<InstructionView>::empty()) == Set::<Seq<char>>::empty());
    } else {
        let t = items.drop_last();
        assert forall|i: int| 0 <= i < t.len() implies match #[trigger] t[i] {
            BlockItemView::Statement(s) => well_enclosed(s, brk, cont, sw),
            BlockItemView::Declaration(_) => true,
        } by {
            assert(t[i] == items[i]);
        }
        lemma_closed_items(t, c, brk, cont, sw);
        let (i1, c1) = spec_tacky_items(t, c);
        let last = items.last();
        assert(match items[items.len() - 1] {
            BlockItemView::Statement(s) => well_enclosed(s, brk, cont, sw),
            BlockItemView::Declaration(_) => true,
        });
        match last {
            BlockItemView::Statement(s) => {
                lemma_closed_statement(s, c1, brk, cont, sw);
            },
            BlockItemView::Declaration(DeclarationView::Variable(d)) => {
                lemma_closed_local_variable(d, c1);
            },
            BlockItemView::Declaration(DeclarationView::Function(_)) => {
                assert(placed_labels(Seq::<InstructionView>::empty()) == Set::<Seq<char>>::empty());
                assert(jump_targets(Seq::<InstructionView>::empty()) == Set::<Seq<char>>::empty());
            },
        }
        lemma_labels_concat(i1, spec_tacky_item(last, c1).0);
    }
}


/// A function whose body is well enclosed at top level and whose gotos name
/// labels of that body.
pub open spec fn ready_for_jumps(d: DeclarationView) -> bool {
    match d {
        DeclarationView::Function(f) => match f.body {
            Some(b) => items_well_enclosed(b, None, None, None) && goto_targets_items(b).subset_of(
                defined_labels_items(b),
            ),
            None => true,
        },
        DeclarationView::Variable(_) => true,
    }
}

proof fn lemma_closed_declarations(ds: Seq<DeclarationView>, c: TackyCounters)
    requires
        forall|i: int| 0 <= i < ds.len() ==> ready_for_jumps(#[trigger] ds[i]),
    ensures
        forall|k: int|
            0 <= k < spec_tacky_declarations(ds, c).0.len() ==> jumps_closed(
                #[trigger] spec_tacky_declarations(ds, c).0[k].body,
            ),
    decreases ds.len(),
{
    if ds.len() > 0 {
        let t = ds.drop_last();
        assert forall|i: int| 0 <= i < t.len() implies ready_for_jumps(#[trigger] t[i]) by {
            assert(t[i] == ds[i]);
        }
        lemma_closed_declarations(t, c);
        let (fs, c1) = spec_tacky_declarations(t, c);
        assert(ready_for_jumps(ds[ds.len() - 1]));
        match ds.last() {
            DeclarationView::Function(f) => match f.body {
                Some(b) => {
                    lemma_closed_items(b, c1, None, None, None);
                    assert(escapes(None, None) =~= Set::<Seq<char>>::empty());
                    let (i, c2) = spec_tacky_items(b, c1);
                    let x = InstructionView::Return(ValueView::Constant(0));
                    lemma_closed_plain(x);
                    lemma_closed_concat(i, seq![x]);
                    assert(i.push(x) =~= i + seq![x]);
                    let out = spec_tacky_declarations(ds, c).0;
                    assert forall|k: int| 0 <= k < out.len() implies jumps_closed(
                        #[trigger] out[k].body,
                    ) by {
                        if k < fs.len() {
                            assert(out[k] == fs[k]);
                        }
                    }
                },
                None => {},
            },
            DeclarationView::Variable(_) => {},
        }
    }
}

/// Lowering a program whose functions are ready gives functions whose every
/// jump lands on a label of the same function.
pub proof fn law_lowered_jumps_land_on_labels(p: Seq<DeclarationView>, c: TackyCounters)
    requires
        forall|i: int| 0 <= i < p.len() ==> ready_for_jumps(#[trigger] p[i]),
    ensures
        forall|k: int|
            0 <= k < spec_tacky_declarations(p, c).0.len() ==> jumps_closed(
                #[trigger] spec_tacky_declarations(p, c).0[k].body,
            ),
{
    lemma_closed_declarations(p, c);
}

} // verus!
