//! Assembly generation: TACKY instructions become x86-64 instructions over
//! pseudo-registers, pseudo-registers are given stack slots, and operand
//! forms that the machine does not accept are rewritten through scratch
//! registers.
use vstd::prelude::*;

use crate::name_map::NameMap;
use crate::parser::{strings_view, UnaryOperator as AstUnaryOperator};
use crate::tacky::{
    instructions_view, values_view, BinaryOperator as TackyBinaryOperator, FuncDef as TackyFuncDef,
    FuncDefView as TackyFuncDefView, Instruction as TackyInstruction,
    InstructionView as TackyInstructionView, Program as TackyProgram, Value, ValueView,
    jump_target, jump_targets, jumps_closed, placed_labels,
};
use crate::evaluation::{machine_binary, machine_unary};

verus! {

#[derive(Debug)]
pub struct Program(pub Vec<FuncDef>);

#[derive(Debug)]
pub struct FuncDef {
    pub identifier: String,
    pub body: Vec<Instruction>,
    pub stack_size: Option<usize>,
}

#[derive(Debug)]
pub enum Instruction {
    Move { src: Operand, dst: Operand },
    UnaryOp { operator: UnaryOperator, operand: Operand },
    BinaryOp { op: BinaryOperator, src: Operand, dst: Operand },
    Cmp { val1: Operand, val2: Operand },
    Shift { left: bool, shift: Operand, val: Operand },
    Idiv(Operand),
    Cdq,
    Jmp(String),
    JmpCC(ConditionCode, String),
    SetCC(ConditionCode, Operand),
    Label(String),
    AllocateStack { size: usize },
    DeallocateStack { size: usize },
    Push(Operand),
    Call(String),
    Return,
}

#[derive(Debug, Clone, Copy, PartialEq, Eq, Structural)]
pub enum ConditionCode {
    Equal,
    NotEqual,
    Less,
    LessEqual,
    Greater,
    GreaterEqual,
}

#[derive(Debug, Clone, Copy, PartialEq, Eq, Structural)]
pub enum BinaryOperator {
    Add,
    Sub,
    Mult,
    BitAnd,
    BitOr,
    BitXor,
}

#[derive(Debug, Clone, Copy, PartialEq, Eq, Structural)]
pub enum UnaryOperator {
    Complement,
    Negate,
}

#[derive(Debug)]
pub enum Operand {
    Immediate(u32),
    Register(Register),
    Pseudo(String),
    Stack(i32),
}

#[derive(Debug, Clone, Copy, PartialEq, Eq, Structural)]
pub enum Register {
    AX,
    CX,
    DX,
    DI,
    SI,
    R8,
    R9,
    R10,
    R11,
}

pub enum OperandView {
    Immediate(u32),
    Register(Register),
    Pseudo(Seq<char>),
    Stack(i32),
}

pub enum InstructionView {
    Move { src: OperandView, dst: OperandView },
    UnaryOp { operator: UnaryOperator, operand: OperandView },
    BinaryOp { op: BinaryOperator, src: OperandView, dst: OperandView },
    Cmp { val1: OperandView, val2: OperandView },
    Shift { left: bool, shift: OperandView, val: OperandView },
    Idiv(OperandView),
    Cdq,
    Jmp(Seq<char>),
    JmpCC(ConditionCode, Seq<char>),
    SetCC(ConditionCode, OperandView),
    Label(Seq<char>),
    AllocateStack { size: usize },
    DeallocateStack { size: usize },
    Push(OperandView),
    Call(Seq<char>),
    Return,
}

pub struct FuncDefView {
    pub identifier: Seq<char>,
    pub body: Seq<InstructionView>,
    pub stack_size: Option<usize>,
}

impl View for Operand {
    type V = OperandView;

    open spec fn view(&self) -> OperandView {
        match self {
            Operand::Immediate(i) => OperandView::Immediate(*i),
            Operand::Register(r) => OperandView::Register(*r),
            Operand::Pseudo(s) => OperandView::Pseudo(s@),
            Operand::Stack(o) => OperandView::Stack(*o),
        }
    }
}

impl View for Instruction {
    type V = InstructionView;

    open spec fn view(&self) -> InstructionView {
        match self {
            Instruction::Move { src, dst } => InstructionView::Move { src: src@, dst: dst@ },
            Instruction::UnaryOp { operator, operand } => InstructionView::UnaryOp {
                operator: *operator,
                operand: operand@,
            },
            Instruction::BinaryOp { op, src, dst } => InstructionView::BinaryOp {
                op: *op,
                src: src@,
                dst: dst@,
            },
            Instruction::Cmp { val1, val2 } => InstructionView::Cmp { val1: val1@, val2: val2@ },
            Instruction::Shift { left, shift, val } => InstructionView::Shift {
                left: *left,
                shift: shift@,
                val: val@,
            },
            Instruction::Idiv(o) => InstructionView::Idiv(o@),
            Instruction::Cdq => InstructionView::Cdq,
            Instruction::Jmp(l) => InstructionView::Jmp(l@),
            Instruction::JmpCC(c, l) => InstructionView::JmpCC(*c, l@),
            Instruction::SetCC(c, o) => InstructionView::SetCC(*c, o@),
            Instruction::Label(l) => InstructionView::Label(l@),
            Instruction::AllocateStack { size } => InstructionView::AllocateStack { size: *size },
            Instruction::DeallocateStack { size } => InstructionView::DeallocateStack {
                size: *size,
            },
            Instruction::Push(o) => InstructionView::Push(o@),
            Instruction::Call(f) => InstructionView::Call(f@),
            Instruction::Return => InstructionView::Return,
        }
    }
}

pub open spec fn asm_view(v: Seq<Instruction>) -> Seq<InstructionView> {
    v.map_values(|x: Instruction| x@)
}

impl View for FuncDef {
    type V = FuncDefView;

    open spec fn view(&self) -> FuncDefView {
        FuncDefView {
            identifier: self.identifier@,
            body: asm_view(self.body@),
            stack_size: self.stack_size,
        }
    }
}

impl View for Program {
    type V = Seq<FuncDefView>;

    open spec fn view(&self) -> Seq<FuncDefView> {
        self.0@.map_values(|f: FuncDef| f@)
    }
}

/// The registers that carry the first six arguments of a call.
pub open spec fn arg_register(i: int) -> Register {
    if i == 0 {
        Register::DI
    } else if i == 1 {
        Register::SI
    } else if i == 2 {
        Register::DX
    } else if i == 3 {
        Register::CX
    } else if i == 4 {
        Register::R8
    } else {
        Register::R9
    }
}

pub open spec fn operand_of(v: ValueView) -> OperandView {
    match v {
        ValueView::Constant(i) => OperandView::Immediate(i),
        ValueView::Var(name) => OperandView::Pseudo(name),
    }
}

pub open spec fn asm_binary_op(op: TackyBinaryOperator) -> BinaryOperator {
    match op {
        TackyBinaryOperator::Add => BinaryOperator::Add,
        TackyBinaryOperator::Subtract => BinaryOperator::Sub,
        TackyBinaryOperator::Multiply => BinaryOperator::Mult,
        TackyBinaryOperator::BitwiseAnd => BinaryOperator::BitAnd,
        TackyBinaryOperator::BitwiseOr => BinaryOperator::BitOr,
        _ => BinaryOperator::BitXor,
    }
}

pub open spec fn condition_code_of(op: TackyBinaryOperator) -> ConditionCode {
    match op {
        TackyBinaryOperator::Equal => ConditionCode::Equal,
        TackyBinaryOperator::NotEqual => ConditionCode::NotEqual,
        TackyBinaryOperator::LessThan => ConditionCode::Less,
        TackyBinaryOperator::GreaterThan => ConditionCode::Greater,
        TackyBinaryOperator::LessEqual => ConditionCode::LessEqual,
        _ => ConditionCode::GreaterEqual,
    }
}

pub open spec fn is_arithmetic(op: TackyBinaryOperator) -> bool {
    op == TackyBinaryOperator::Add || op == TackyBinaryOperator::Subtract || op
        == TackyBinaryOperator::Multiply || op == TackyBinaryOperator::BitwiseAnd || op
        == TackyBinaryOperator::BitwiseOr || op == TackyBinaryOperator::BitwiseXor
}

pub open spec fn is_shift(op: TackyBinaryOperator) -> bool {
    op == TackyBinaryOperator::LeftShift || op == TackyBinaryOperator::RightShift
}

pub open spec fn is_division(op: TackyBinaryOperator) -> bool {
    op == TackyBinaryOperator::Divide || op == TackyBinaryOperator::Remainder
}

/// Moves of the first (at most six) arguments into their registers.
pub open spec fn spec_register_moves(args: Seq<ValueView>) -> Seq<InstructionView>
    decreases args.len(),
{
    if args.len() == 0 {
        seq![]
    } else {
        spec_register_moves(args.drop_last()).push(
            InstructionView::Move {
                src: operand_of(args.last()),
                dst: OperandView::Register(arg_register(args.len() - 1)),
            },
        )
    }
}

/// One argument pushed on the stack: an immediate directly, anything else
/// through AX.
pub open spec fn spec_push_argument(v: ValueView) -> Seq<InstructionView> {
    match operand_of(v) {
        OperandView::Immediate(i) => seq![InstructionView::Push(OperandView::Immediate(i))],
        OperandView::Register(r) => seq![InstructionView::Push(OperandView::Register(r))],
        o => seq![
            InstructionView::Move { src: o, dst: OperandView::Register(Register::AX) },
            InstructionView::Push(OperandView::Register(Register::AX)),
        ],
    }
}

/// The stack arguments, pushed from the last to the first.
pub open spec fn spec_stack_pushes(args: Seq<ValueView>) -> Seq<InstructionView>
    decreases args.len(),
{
    if args.len() == 0 {
        seq![]
    } else {
        spec_push_argument(args.last()) + spec_stack_pushes(args.drop_last())
    }
}

/// The instruction sequence of a call: padding that keeps the stack 16-byte
/// aligned, register and stack arguments, the call, the stack released,
/// and the result taken from AX.
pub open spec fn spec_call(name: Seq<char>, args: Seq<ValueView>, dst: ValueView) -> Seq<
    InstructionView,
> {
    let n_reg = if args.len() < 6 {
        args.len()
    } else {
        6
    };
    let stack_args = args.skip(n_reg as int);
    let padding: usize = if stack_args.len() % 2 == 1 {
        8
    } else {
        0
    };
    let bytes = 8 * stack_args.len() + padding;
    (if padding > 0 {
        seq![InstructionView::AllocateStack { size: padding }]
    } else {
        seq![]
    }) + spec_register_moves(args.take(n_reg as int)) + spec_stack_pushes(stack_args) + seq![
        InstructionView::Call(name),
    ] + (if bytes > 0 {
        seq![InstructionView::DeallocateStack { size: bytes as usize }]
    } else {
        seq![]
    }) + seq![
        InstructionView::Move {
            src: OperandView::Register(Register::AX),
            dst: operand_of(dst),
        },
    ]
}

/// A call's stack arguments fit the byte count that the call releases.
pub open spec fn call_fits(n_args: nat) -> bool {
    n_args <= 6 || 8 * (n_args - 6) + 8 <= usize::MAX
}

/// The assembly of one TACKY instruction.
pub open spec fn spec_instruction_to_asm(i: TackyInstructionView) -> Seq<InstructionView> {
    match i {
        TackyInstructionView::Return(v) => seq![
            InstructionView::Move { src: operand_of(v), dst: OperandView::Register(Register::AX) },
            InstructionView::Return,
        ],
        TackyInstructionView::UnaryOp { op, src, dst } => if op == AstUnaryOperator::LogicalNot {
            seq![
                InstructionView::Cmp { val1: OperandView::Immediate(0), val2: operand_of(src) },
                InstructionView::Move { src: OperandView::Immediate(0), dst: operand_of(dst) },
                InstructionView::SetCC(ConditionCode::Equal, operand_of(dst)),
            ]
        } else {
            seq![
                InstructionView::Move { src: operand_of(src), dst: operand_of(dst) },
                InstructionView::UnaryOp {
                    operator: if op == AstUnaryOperator::Complement {
                        UnaryOperator::Complement
                    } else {
                        UnaryOperator::Negate
                    },
                    operand: operand_of(dst),
                },
            ]
        },
        TackyInstructionView::BinaryOp { op, val1, val2, dst } => if is_arithmetic(op) {
            seq![
                InstructionView::Move { src: operand_of(val1), dst: operand_of(dst) },
                InstructionView::BinaryOp {
                    op: asm_binary_op(op),
                    src: operand_of(val2),
                    dst: operand_of(dst),
                },
            ]
        } else if is_shift(op) {
            seq![
                InstructionView::Move { src: operand_of(val1), dst: operand_of(dst) },
                InstructionView::Shift {
                    left: op == TackyBinaryOperator::LeftShift,
                    shift: operand_of(val2),
                    val: operand_of(dst),
                },
            ]
        } else if is_division(op) {
            seq![
                InstructionView::Move {
                    src: operand_of(val1),
                    dst: OperandView::Register(Register::AX),
                },
                InstructionView::Cdq,
                InstructionView::Idiv(operand_of(val2)),
                InstructionView::Move {
                    src: OperandView::Register(
                        if op == TackyBinaryOperator::Divide {
                            Register::AX
                        } else {
                            Register::DX
                        },
                    ),
                    dst: operand_of(dst),
                },
            ]
        } else {
            seq![
                InstructionView::Cmp { val1: operand_of(val2), val2: operand_of(val1) },
                InstructionView::Move { src: OperandView::Immediate(0), dst: operand_of(dst) },
                InstructionView::SetCC(condition_code_of(op), operand_of(dst)),
            ]
        },
        TackyInstructionView::Copy { src, dst } => seq![
            InstructionView::Move { src: operand_of(src), dst: operand_of(dst) },
        ],
        TackyInstructionView::Jump(l) => seq![InstructionView::Jmp(l)],
        TackyInstructionView::JumpIfZero { val, target } => seq![
            InstructionView::Cmp { val1: OperandView::Immediate(0), val2: operand_of(val) },
            InstructionView::JmpCC(ConditionCode::Equal, target),
        ],
        TackyInstructionView::JumpIfNotZero { val, target } => seq![
            InstructionView::Cmp { val1: OperandView::Immediate(0), val2: operand_of(val) },
            InstructionView::JmpCC(ConditionCode::NotEqual, target),
        ],
        TackyInstructionView::Label(l) => seq![InstructionView::Label(l)],
        TackyInstructionView::FunCall { name, args, dst } => spec_call(name, args, dst),
    }
}

/// What the conversion of an instruction asks: a unary operation is one of
/// complement, negation and logical not, and a call's arguments fit.
pub open spec fn convertible(i: TackyInstructionView) -> bool {
    match i {
        TackyInstructionView::UnaryOp { op, .. } => op == AstUnaryOperator::Complement || op
            == AstUnaryOperator::Negate || op == AstUnaryOperator::LogicalNot,
        TackyInstructionView::FunCall { args, .. } => call_fits(args.len()),
        _ => true,
    }
}

pub open spec fn spec_instructions_to_asm(body: Seq<TackyInstructionView>) -> Seq<InstructionView>
    decreases body.len(),
{
    if body.len() == 0 {
        seq![]
    } else {
        spec_instructions_to_asm(body.drop_last()) + spec_instruction_to_asm(body.last())
    }
}

/// Copies of the parameters from where the caller left them: the first six
/// from their registers, the rest from the caller's frame.
pub open spec fn spec_param_copies(params: Seq<Seq<char>>) -> Seq<InstructionView>
    decreases params.len(),
{
    if params.len() == 0 {
        seq![]
    } else {
        let i = params.len() - 1;
        spec_param_copies(params.drop_last()).push(
            InstructionView::Move {
                src: if i < 6 {
                    OperandView::Register(arg_register(i))
                } else {
                    OperandView::Stack((16 + (i - 6) * 8) as i32)
                },
                dst: OperandView::Pseudo(params.last()),
            },
        )
    }
}

/// The caller-frame offsets of the parameters fit in 32 bits.
pub open spec fn params_fit(n: nat) -> bool {
    n <= 6 || 16 + (n - 7) * 8 <= i32::MAX
}

pub open spec fn spec_function_to_asm(f: TackyFuncDefView) -> FuncDefView {
    FuncDefView {
        identifier: f.identifier,
        body: spec_param_copies(f.params) + spec_instructions_to_asm(f.body),
        stack_size: None,
    }
}

pub open spec fn function_convertible(f: TackyFuncDefView) -> bool {
    params_fit(f.params.len()) && forall|i: int| 0 <= i < f.body.len() ==> convertible(
        #[trigger] f.body[i],
    )
}

pub open spec fn program_convertible(p: Seq<TackyFuncDefView>) -> bool {
    forall|i: int| 0 <= i < p.len() ==> function_convertible(#[trigger] p[i])
}

pub open spec fn spec_program_to_asm(p: Seq<TackyFuncDefView>) -> Seq<FuncDefView> {
    p.map_values(|f: TackyFuncDefView| spec_function_to_asm(f))
}


fn push_asm(v: &mut Vec<Instruction>, i: Instruction)
    ensures
        asm_view(final(v)@) == asm_view(old(v)@).push(i@),
{
    let ghost before = v@;
    v.push(i);
    proof {
        assert(asm_view(v@) =~= asm_view(before).push(i@));
    }
}

fn append_asm(v: &mut Vec<Instruction>, w: Vec<Instruction>)
    ensures
        asm_view(final(v)@) == asm_view(old(v)@) + asm_view(w@),
{
    let ghost before = v@;
    let mut w = w;
    let ghost wv = w@;
    v.append(&mut w);
    proof {
        assert(asm_view(v@) =~= asm_view(before) + asm_view(wv));
    }
}

fn arg_register_at(i: usize) -> (r: Register)
    ensures
        r == arg_register(i as int),
{
    if i == 0 {
        Register::DI
    } else if i == 1 {
        Register::SI
    } else if i == 2 {
        Register::DX
    } else if i == 3 {
        Register::CX
    } else if i == 4 {
        Register::R8
    } else {
        Register::R9
    }
}

impl Value {
    pub fn to_assembly(&self) -> (r: Operand)
        ensures
            r@ == operand_of(self@),
    {
        match self {
            Value::Constant(i) => Operand::Immediate(*i),
            Value::Var(name) => Operand::Pseudo(name.clone()),
        }
    }
}

impl TackyBinaryOperator {
    pub fn to_assembly(&self) -> (r: BinaryOperator)
        ensures
            r == asm_binary_op(*self),
    {
        match self {
            TackyBinaryOperator::Add => BinaryOperator::Add,
            TackyBinaryOperator::Subtract => BinaryOperator::Sub,
            TackyBinaryOperator::Multiply => BinaryOperator::Mult,
            TackyBinaryOperator::BitwiseAnd => BinaryOperator::BitAnd,
            TackyBinaryOperator::BitwiseOr => BinaryOperator::BitOr,
            _ => BinaryOperator::BitXor,
        }
    }
}

impl ConditionCode {
    /// The condition under which a comparison operator holds; none for the
    /// other operators.
    pub fn try_from(op: TackyBinaryOperator) -> (r: Result<ConditionCode, ()>)
        ensures
            match op {
                TackyBinaryOperator::Equal | TackyBinaryOperator::NotEqual
                | TackyBinaryOperator::LessThan | TackyBinaryOperator::GreaterThan
                | TackyBinaryOperator::LessEqual | TackyBinaryOperator::GreaterEqual => r
                    == Ok::<ConditionCode, ()>(condition_code_of(op)),
                _ => r is Err,
            },
    {
        match op {
            TackyBinaryOperator::Equal => Ok(ConditionCode::Equal),
            TackyBinaryOperator::NotEqual => Ok(ConditionCode::NotEqual),
            TackyBinaryOperator::LessThan => Ok(ConditionCode::Less),
            TackyBinaryOperator::GreaterThan => Ok(ConditionCode::Greater),
            TackyBinaryOperator::LessEqual => Ok(ConditionCode::LessEqual),
            TackyBinaryOperator::GreaterEqual => Ok(ConditionCode::GreaterEqual),
            _ => Err(()),
        }
    }
}

impl UnaryOperator {
    /// The machine operation of a unary operator; none for logical not and
    /// the increments, which lower otherwise.
    pub fn try_from(op: AstUnaryOperator) -> (r: Result<UnaryOperator, ()>)
        ensures
            op == AstUnaryOperator::Complement ==> r == Ok::<UnaryOperator, ()>(UnaryOperator::Complement),
            op == AstUnaryOperator::Negate ==> r == Ok::<UnaryOperator, ()>(UnaryOperator::Negate),
            op != AstUnaryOperator::Complement && op != AstUnaryOperator::Negate ==> r is Err,
    {
        match op {
            AstUnaryOperator::Complement => Ok(UnaryOperator::Complement),
            AstUnaryOperator::Negate => Ok(UnaryOperator::Negate),
            _ => Err(()),
        }
    }
}

fn push_argument(out: &mut Vec<Instruction>, v: &Value)
    ensures
        asm_view(final(out)@) == asm_view(old(out)@) + spec_push_argument(v@),
{
    let ghost before = asm_view(out@);
    let op = v.to_assembly();
    match op {
        Operand::Immediate(i) => {
            push_asm(out, Instruction::Push(Operand::Immediate(i)));
        },
        Operand::Register(r) => {
            push_asm(out, Instruction::Push(Operand::Register(r)));
        },
        o => {
            push_asm(out, Instruction::Move { src: o, dst: Operand::Register(Register::AX) });
            push_asm(out, Instruction::Push(Operand::Register(Register::AX)));
        },
    }
    assert(asm_view(out@) =~= before + spec_push_argument(v@));
}

#[verifier::loop_isolation(false)]
fn call_to_assembly(name: String, args: Vec<Value>, dst: Value) -> (r: Vec<Instruction>)
    requires
        call_fits(args.len() as nat),
    ensures
        asm_view(r@) == spec_call(name@, values_view(args@), dst@),
{
    let ghost a = values_view(args@);
    let n = args.len();
    let n_reg: usize = if n < 6 {
        n
    } else {
        6
    };
    let n_stack = n - n_reg;
    let padding: usize = if n_stack % 2 == 1 {
        8
    } else {
        0
    };
    let mut out: Vec<Instruction> = Vec::new();
    if padding > 0 {
        push_asm(&mut out, Instruction::AllocateStack { size: padding });
    }
    let ghost g0 = asm_view(out@);
    proof {
        assert(a.take(0) =~= seq![]);
        assert(asm_view(out@) =~= g0 + spec_register_moves(a.take(0)));
    }
    let mut i: usize = 0;
    while i < n_reg
        invariant
            i <= n_reg,
            asm_view(out@) == g0 + spec_register_moves(a.take(i as int)),
        decreases n_reg - i,
    {
        proof {
            assert(a.take(i + 1).drop_last() =~= a.take(i as int));
        }
        let ghost before = asm_view(out@);
        push_asm(
            &mut out,
            Instruction::Move { src: args[i].to_assembly(), dst: Operand::Register(arg_register_at(i)) },
        );
        assert(asm_view(out@) =~= g0 + spec_register_moves(a.take(i + 1)));
        i = i + 1;
    }
    let ghost g1 = asm_view(out@);
    let mut k: usize = n;
    proof {
        assert(asm_view(out@) + spec_stack_pushes(a.subrange(n_reg as int, k as int)) =~= g1
            + spec_stack_pushes(a.subrange(n_reg as int, n as int)));
    }
    while k > n_reg
        invariant
            n_reg <= k <= n,
            asm_view(out@) + spec_stack_pushes(a.subrange(n_reg as int, k as int)) == g1
                + spec_stack_pushes(a.subrange(n_reg as int, n as int)),
        decreases k,
    {
        let ghost before = asm_view(out@);
        let ghost sub = a.subrange(n_reg as int, k as int);
        proof {
            assert(sub.drop_last() =~= a.subrange(n_reg as int, k - 1));
            assert(sub.last() == a[k - 1]);
        }
        push_argument(&mut out, &args[k - 1]);
        proof {
            assert(asm_view(out@) + spec_stack_pushes(a.subrange(n_reg as int, k - 1)) =~= before
                + spec_stack_pushes(sub));
        }
        k = k - 1;
    }
    proof {
        assert(spec_stack_pushes(a.subrange(n_reg as int, n_reg as int)) =~= seq![]);
        assert(asm_view(out@) =~= g1 + spec_stack_pushes(a.subrange(n_reg as int, n as int)));
        assert(a.skip(n_reg as int) =~= a.subrange(n_reg as int, n as int));
    }
    push_asm(&mut out, Instruction::Call(name));
    let bytes: usize = 8 * n_stack + padding;
    if bytes > 0 {
        push_asm(&mut out, Instruction::DeallocateStack { size: bytes });
    }
    push_asm(&mut out, Instruction::Move { src: Operand::Register(Register::AX), dst: dst.to_assembly() });
    proof {
        let np = if a.len() < 6 { a.len() } else { 6 };
        assert(np == n_reg);
        assert(a.skip(n_reg as int).len() == n_stack);
    }
    assert(asm_view(out@) =~= spec_call(name@, a, dst@));
    out
}


impl TackyInstruction {
    #[verifier::rlimit(40)]
    pub fn to_assembly(self) -> (r: Vec<Instruction>)
        requires
            convertible(self@),
        ensures
            asm_view(r@) == spec_instruction_to_asm(self@),
    {
        let ghost sv = self@;
        let mut out: Vec<Instruction> = Vec::new();
        match self {
            TackyInstruction::Return(value) => {
                push_asm(&mut out, Instruction::Move { src: value.to_assembly(), dst: Operand::Register(Register::AX) });
                push_asm(&mut out, Instruction::Return);
            },
            TackyInstruction::UnaryOp { op, src, dst } => {
                if op == AstUnaryOperator::LogicalNot {
                    push_asm(&mut out, Instruction::Cmp { val1: Operand::Immediate(0), val2: src.to_assembly() });
                    push_asm(&mut out, Instruction::Move { src: Operand::Immediate(0), dst: dst.to_assembly() });
                    push_asm(&mut out, Instruction::SetCC(ConditionCode::Equal, dst.to_assembly()));
                } else {
                    let operator = match UnaryOperator::try_from(op) {
                        Ok(o) => o,
                        Err(()) => UnaryOperator::Negate,
                    };
                    push_asm(&mut out, Instruction::Move { src: src.to_assembly(), dst: dst.to_assembly() });
                    push_asm(&mut out, Instruction::UnaryOp { operator, operand: dst.to_assembly() });
                }
            },
            TackyInstruction::BinaryOp { op, val1, val2, dst } => {
                match op {
                    TackyBinaryOperator::Add | TackyBinaryOperator::Subtract
                    | TackyBinaryOperator::Multiply | TackyBinaryOperator::BitwiseAnd
                    | TackyBinaryOperator::BitwiseOr | TackyBinaryOperator::BitwiseXor => {
                        push_asm(&mut out, Instruction::Move { src: val1.to_assembly(), dst: dst.to_assembly() });
                        push_asm(&mut out, Instruction::BinaryOp { op: op.to_assembly(), src: val2.to_assembly(), dst: dst.to_assembly() });
                    },
                    TackyBinaryOperator::LeftShift | TackyBinaryOperator::RightShift => {
                        push_asm(&mut out, Instruction::Move { src: val1.to_assembly(), dst: dst.to_assembly() });
                        push_asm(
                            &mut out,
                            Instruction::Shift {
                                left: op == TackyBinaryOperator::LeftShift,
                                shift: val2.to_assembly(),
                                val: dst.to_assembly(),
                            },
                        );
                    },
                    TackyBinaryOperator::Divide | TackyBinaryOperator::Remainder => {
                        push_asm(&mut out, Instruction::Move { src: val1.to_assembly(), dst: Operand::Register(Register::AX) });
                        push_asm(&mut out, Instruction::Cdq);
                        push_asm(&mut out, Instruction::Idiv(val2.to_assembly()));
                        let result = if op == TackyBinaryOperator::Divide {
                            Register::AX
                        } else {
                            Register::DX
                        };
                        push_asm(&mut out, Instruction::Move { src: Operand::Register(result), dst: dst.to_assembly() });
                    },
                    _ => {
                        let cc = match ConditionCode::try_from(op) {
                            Ok(c) => c,
                            Err(()) => ConditionCode::Equal,
                        };
                        push_asm(&mut out, Instruction::Cmp { val1: val2.to_assembly(), val2: val1.to_assembly() });
                        push_asm(&mut out, Instruction::Move { src: Operand::Immediate(0), dst: dst.to_assembly() });
                        push_asm(&mut out, Instruction::SetCC(cc, dst.to_assembly()));
                    },
                }
            },
            TackyInstruction::Copy { src, dst } => {
                push_asm(&mut out, Instruction::Move { src: src.to_assembly(), dst: dst.to_assembly() });
            },
            TackyInstruction::Jump(label) => {
                push_asm(&mut out, Instruction::Jmp(label));
            },
            TackyInstruction::JumpIfZero { val, target } => {
                push_asm(&mut out, Instruction::Cmp { val1: Operand::Immediate(0), val2: val.to_assembly() });
                push_asm(&mut out, Instruction::JmpCC(ConditionCode::Equal, target));
            },
            TackyInstruction::JumpIfNotZero { val, target } => {
                push_asm(&mut out, Instruction::Cmp { val1: Operand::Immediate(0), val2: val.to_assembly() });
                push_asm(&mut out, Instruction::JmpCC(ConditionCode::NotEqual, target));
            },
            TackyInstruction::Label(label) => {
                push_asm(&mut out, Instruction::Label(label));
            },
            TackyInstruction::FunCall { name, args, dst } => {
                return call_to_assembly(name, args, dst);
            },
        }
        assert(asm_view(out@) =~= spec_instruction_to_asm(sv));
        out
    }
}

impl TackyFuncDef {
    #[verifier::loop_isolation(false)]
    pub fn to_assembly(self) -> (r: FuncDef)
        requires
            function_convertible(self@),
        ensures
            r@ == spec_function_to_asm(self@),
    {
        let ghost fv = self@;
        let TackyFuncDef { identifier, params, body } = self;
        let ghost ps = strings_view(params@);
        let n = params.len();
        let mut out: Vec<Instruction> = Vec::new();
        proof {
            assert(ps.take(0) =~= seq![]);
            assert(asm_view(out@) =~= seq![]);
        }
        let mut i: usize = 0;
        while i < n
            invariant
                n == params.len(),
                ps.len() == n,
                i <= n,
                asm_view(out@) == spec_param_copies(ps.take(i as int)),
            decreases n - i,
        {
            proof {
                assert(ps.take(i + 1).drop_last() =~= ps.take(i as int));
                assert(ps[i as int] == params@[i as int]@);
            }
            let src = if i < 6 {
                Operand::Register(arg_register_at(i))
            } else {
                Operand::Stack((16 + (i - 6) * 8) as i32)
            };
            push_asm(&mut out, Instruction::Move { src, dst: Operand::Pseudo(params[i].clone()) });
            i = i + 1;
        }
        proof {
            assert(ps.take(n as int) =~= ps);
        }
        let ghost g0 = asm_view(out@);
        let ghost bv = instructions_view(body@);
        proof {
            assert(bv.take(0) =~= seq![]);
            assert(asm_view(out@) =~= g0 + spec_instructions_to_asm(bv.take(0)));
        }
        for instr in it: body
            invariant
                it.seq() == body@,
                it.index() <= body@.len(),
                bv == fv.body,
                asm_view(out@) == g0 + spec_instructions_to_asm(bv.take(it.index() as int)),
        {
            let ghost j = it.index();
            proof {
                assert(instr == body@[j as int]);
                assert(bv[j as int] == instr@);
                assert(bv.take(j + 1).drop_last() =~= bv.take(j as int));
            }
            let x = instr.to_assembly();
            append_asm(&mut out, x);
            proof {
                assert(asm_view(out@) =~= g0 + spec_instructions_to_asm(bv.take(j + 1)));
            }
        }
        proof {
            assert(bv.take(bv.len() as int) =~= bv);
        }
        FuncDef { identifier, body: out, stack_size: None }
    }
}

/// The assembly of every function, with pseudo-registers still in place.
#[verifier::loop_isolation(false)]
pub fn program_to_assembly(program: TackyProgram) -> (r: Program)
    requires
        program_convertible(program@),
    ensures
        r@ == spec_program_to_asm(program@),
{
    let ghost pv = program@;
    let TackyProgram(funcs) = program;
    let mut out: Vec<FuncDef> = Vec::new();
    proof {
        assert(out@.map_values(|f: FuncDef| f@) =~= spec_program_to_asm(pv.take(0)));
    }
    for f in it: funcs
        invariant
            it.seq() == funcs@,
            it.index() <= funcs@.len(),
            pv == funcs@.map_values(|f: TackyFuncDef| f@),
            out@.map_values(|f: FuncDef| f@) == spec_program_to_asm(pv.take(it.index() as int)),
    {
        let ghost j = it.index();
        proof {
            assert(f == funcs@[j as int]);
            assert(pv[j as int] == f@);
        }
        let x = f.to_assembly();
        let ghost before = out@;
        let ghost xv = x@;
        out.push(x);
        proof {
            let lhs = out@.map_values(|f: FuncDef| f@);
            let rhs = spec_program_to_asm(pv.take(j + 1));
            let prev = spec_program_to_asm(pv.take(j as int));
            assert(lhs.len() == rhs.len());
            assert forall|k: int| 0 <= k < lhs.len() implies lhs[k] == rhs[k] by {
                if k < j {
                    assert(out@[k] == before[k]);
                    assert(lhs[k] == before.map_values(|f: FuncDef| f@)[k]);
                    assert(prev[k] == rhs[k]);
                } else {
                    assert(out@[k] == x);
                }
            }
            assert(lhs =~= rhs);
        }
    }
    proof {
        assert(pv.take(pv.len() as int) =~= pv);
    }
    Program(out)
}


/// The stack slots given so far to pseudo-registers, by name, and the size
/// of the frame they take.
pub struct PseudoState {
    pub offsets: Map<Seq<char>, i32>,
    pub size: int,
}

pub open spec fn empty_pseudo_state() -> PseudoState {
    PseudoState { offsets: Map::empty(), size: 0 }
}

pub open spec fn pseudo_wf(st: PseudoState) -> bool {
    st.size >= 0 && forall|k: Seq<char>| #[trigger] st.offsets.contains_key(k) ==> st.offsets[k] >= 0
}

/// A pseudo-register becomes its stack slot, a new one taking the next
/// `size` bytes below the frame base.
pub open spec fn spec_pseudo_operand(o: OperandView, size: int, st: PseudoState) -> (
    OperandView,
    PseudoState,
) {
    match o {
        OperandView::Pseudo(n) => if st.offsets.contains_key(n) {
            (OperandView::Stack((-st.offsets[n]) as i32), st)
        } else {
            let ss = st.size + size;
            (
                OperandView::Stack((-ss) as i32),
                PseudoState { offsets: st.offsets.insert(n, ss as i32), size: ss },
            )
        },
        _ => (o, st),
    }
}

#[verifier::opaque]
pub open spec fn spec_pseudo_instruction(i: InstructionView, st: PseudoState) -> (
    InstructionView,
    PseudoState,
) {
    match i {
        InstructionView::Move { src, dst } => {
            let (d, s1) = spec_pseudo_operand(dst, 4, st);
            let (s, s2) = spec_pseudo_operand(src, 4, s1);
            (InstructionView::Move { src: s, dst: d }, s2)
        },
        InstructionView::UnaryOp { operator, operand } => {
            let (o, s1) = spec_pseudo_operand(operand, 4, st);
            (InstructionView::UnaryOp { operator, operand: o }, s1)
        },
        InstructionView::BinaryOp { op, src, dst } => {
            let (s, s1) = spec_pseudo_operand(src, 4, st);
            let (d, s2) = spec_pseudo_operand(dst, 4, s1);
            (InstructionView::BinaryOp { op, src: s, dst: d }, s2)
        },
        InstructionView::Shift { left, shift, val } => {
            let (v, s1) = spec_pseudo_operand(val, 4, st);
            let (sh, s2) = spec_pseudo_operand(shift, 4, s1);
            (InstructionView::Shift { left, shift: sh, val: v }, s2)
        },
        InstructionView::Idiv(o) => {
            let (o2, s1) = spec_pseudo_operand(o, 4, st);
            (InstructionView::Idiv(o2), s1)
        },
        InstructionView::Cmp { val1, val2 } => {
            let (a, s1) = spec_pseudo_operand(val1, 4, st);
            let (b, s2) = spec_pseudo_operand(val2, 4, s1);
            (InstructionView::Cmp { val1: a, val2: b }, s2)
        },
        InstructionView::SetCC(c, o) => {
            let (o2, s1) = spec_pseudo_operand(o, 4, st);
            (InstructionView::SetCC(c, o2), s1)
        },
        InstructionView::Push(o) => {
            let (o2, s1) = spec_pseudo_operand(o, 8, st);
            (InstructionView::Push(o2), s1)
        },
        _ => (i, st),
    }
}

pub open spec fn spec_pseudo_body(body: Seq<InstructionView>, st: PseudoState) -> (
    Seq<InstructionView>,
    PseudoState,
)
    decreases body.len(),
{
    if body.len() == 0 {
        (seq![], st)
    } else {
        let (done, s1) = spec_pseudo_body(body.drop_last(), st);
        let (x, s2) = spec_pseudo_instruction(body.last(), s1);
        (done.push(x), s2)
    }
}

/// The frame of a function fits the 32-bit offsets that address it.
pub open spec fn frame_fits(f: FuncDefView) -> bool {
    spec_pseudo_body(f.body, empty_pseudo_state()).1.size <= i32::MAX
}

pub open spec fn spec_pseudo_function(f: FuncDefView) -> FuncDefView {
    let (b, st) = spec_pseudo_body(f.body, empty_pseudo_state());
    FuncDefView { identifier: f.identifier, body: b, stack_size: Some(st.size as usize) }
}

proof fn lemma_pseudo_operand(o: OperandView, size: int, st: PseudoState)
    requires
        size > 0,
    ensures
        spec_pseudo_operand(o, size, st).1.size >= st.size,
        pseudo_wf(st) && spec_pseudo_operand(o, size, st).1.size <= i32::MAX ==> pseudo_wf(
            spec_pseudo_operand(o, size, st).1,
        ),
{
}

proof fn lemma_pseudo_instruction(i: InstructionView, st: PseudoState)
    ensures
        spec_pseudo_instruction(i, st).1.size >= st.size,
        pseudo_wf(st) && spec_pseudo_instruction(i, st).1.size <= i32::MAX ==> pseudo_wf(
            spec_pseudo_instruction(i, st).1,
        ),
{
    reveal(spec_pseudo_instruction);
    match i {
        InstructionView::Move { src, dst } => {
            lemma_pseudo_operand(dst, 4, st);
            lemma_pseudo_operand(src, 4, spec_pseudo_operand(dst, 4, st).1);
        },
        InstructionView::UnaryOp { operator, operand } => {
            lemma_pseudo_operand(operand, 4, st);
        },
        InstructionView::BinaryOp { op, src, dst } => {
            lemma_pseudo_operand(src, 4, st);
            lemma_pseudo_operand(dst, 4, spec_pseudo_operand(src, 4, st).1);
        },
        InstructionView::Shift { left, shift, val } => {
            lemma_pseudo_operand(val, 4, st);
            lemma_pseudo_operand(shift, 4, spec_pseudo_operand(val, 4, st).1);
        },
        InstructionView::Idiv(o) => {
            lemma_pseudo_operand(o, 4, st);
        },
        InstructionView::Cmp { val1, val2 } => {
            lemma_pseudo_operand(val1, 4, st);
            lemma_pseudo_operand(val2, 4, spec_pseudo_operand(val1, 4, st).1);
        },
        InstructionView::SetCC(c, o) => {
            lemma_pseudo_operand(o, 4, st);
        },
        InstructionView::Push(o) => {
            lemma_pseudo_operand(o, 8, st);
        },
        _ => {},
    }
}

proof fn lemma_pseudo_body(body: Seq<InstructionView>, st: PseudoState)
    ensures
        spec_pseudo_body(body, st).1.size >= st.size,
        pseudo_wf(st) && spec_pseudo_body(body, st).1.size <= i32::MAX ==> pseudo_wf(
            spec_pseudo_body(body, st).1,
        ),
        forall|k: int|
            0 <= k <= body.len() ==> #[trigger] spec_pseudo_body(body.take(k), st).1.size
                <= spec_pseudo_body(body, st).1.size,
    decreases body.len(),
{
    if body.len() == 0 {
        assert forall|k: int| 0 <= k <= body.len() implies #[trigger] spec_pseudo_body(
            body.take(k),
            st,
        ).1.size <= spec_pseudo_body(body, st).1.size by {
            assert(body.take(k) =~= body);
        }
    } else {
        let t = body.drop_last();
        lemma_pseudo_body(t, st);
        let s1 = spec_pseudo_body(t, st).1;
        lemma_pseudo_instruction(body.last(), s1);
        assert forall|k: int| 0 <= k <= body.len() implies #[trigger] spec_pseudo_body(
            body.take(k),
            st,
        ).1.size <= spec_pseudo_body(body, st).1.size by {
            if k < body.len() {
                assert(t.take(k) =~= body.take(k));
                assert(spec_pseudo_body(t.take(k), st).1.size <= s1.size);
            } else {
                assert(body.take(k) =~= body);
            }
        }
    }
}


pub open spec fn pseudo_state(map: NameMap<i32>, stack_size: i32) -> PseudoState {
    PseudoState { offsets: map@, size: stack_size as int }
}

fn pseudo_operand(o: Operand, size: i32, map: &mut NameMap<i32>, stack_size: &mut i32) -> (r: Operand)
    requires
        size == 4 || size == 8,
        pseudo_wf(pseudo_state(*old(map), *old(stack_size))),
        spec_pseudo_operand(o@, size as int, pseudo_state(*old(map), *old(stack_size))).1.size
            <= i32::MAX,
    ensures
        (r@, pseudo_state(*final(map), *final(stack_size))) == spec_pseudo_operand(
            o@,
            size as int,
            pseudo_state(*old(map), *old(stack_size)),
        ),
{
    match o {
        Operand::Pseudo(name) => {
            let offset: i32 = match map.get(&name) {
                Some(v) => *v,
                None => {
                    *stack_size = *stack_size + size;
                    map.insert(name, *stack_size);
                    *stack_size
                },
            };
            Operand::Stack(-offset)
        },
        other => other,
    }
}

#[verifier::rlimit(40)]
fn pseudo_instruction(i: Instruction, map: &mut NameMap<i32>, stack_size: &mut i32) -> (r: Instruction)
    requires
        pseudo_wf(pseudo_state(*old(map), *old(stack_size))),
        spec_pseudo_instruction(i@, pseudo_state(*old(map), *old(stack_size))).1.size <= i32::MAX,
    ensures
        (r@, pseudo_state(*final(map), *final(stack_size))) == spec_pseudo_instruction(
            i@,
            pseudo_state(*old(map), *old(stack_size)),
        ),
{
    let ghost st = pseudo_state(*map, *stack_size);
    proof {
        reveal(spec_pseudo_instruction);
        lemma_pseudo_instruction(i@, st);
    }
    match i {
        Instruction::Move { src, dst } => {
            proof {
                lemma_pseudo_operand(dst@, 4, st);
                lemma_pseudo_operand(src@, 4, spec_pseudo_operand(dst@, 4, st).1);
            }
            let d = pseudo_operand(dst, 4, map, stack_size);
            let s = pseudo_operand(src, 4, map, stack_size);
            Instruction::Move { src: s, dst: d }
        },
        Instruction::UnaryOp { operator, operand } => {
            let o = pseudo_operand(operand, 4, map, stack_size);
            Instruction::UnaryOp { operator, operand: o }
        },
        Instruction::BinaryOp { op, src, dst } => {
            proof {
                lemma_pseudo_operand(src@, 4, st);
                lemma_pseudo_operand(dst@, 4, spec_pseudo_operand(src@, 4, st).1);
            }
            let s = pseudo_operand(src, 4, map, stack_size);
            let d = pseudo_operand(dst, 4, map, stack_size);
            Instruction::BinaryOp { op, src: s, dst: d }
        },
        Instruction::Shift { left, shift, val } => {
            proof {
                lemma_pseudo_operand(val@, 4, st);
                lemma_pseudo_operand(shift@, 4, spec_pseudo_operand(val@, 4, st).1);
            }
            let v = pseudo_operand(val, 4, map, stack_size);
            let sh = pseudo_operand(shift, 4, map, stack_size);
            Instruction::Shift { left, shift: sh, val: v }
        },
        Instruction::Idiv(o) => Instruction::Idiv(pseudo_operand(o, 4, map, stack_size)),
        Instruction::Cmp { val1, val2 } => {
            proof {
                lemma_pseudo_operand(val1@, 4, st);
                lemma_pseudo_operand(val2@, 4, spec_pseudo_operand(val1@, 4, st).1);
            }
            let a = pseudo_operand(val1, 4, map, stack_size);
            let b = pseudo_operand(val2, 4, map, stack_size);
            Instruction::Cmp { val1: a, val2: b }
        },
        Instruction::SetCC(c, o) => Instruction::SetCC(c, pseudo_operand(o, 4, map, stack_size)),
        Instruction::Push(o) => Instruction::Push(pseudo_operand(o, 8, map, stack_size)),
        other => other,
    }
}

proof fn lemma_pseudo_body_step(b: Seq<InstructionView>, j: int, st: PseudoState)
    requires
        0 <= j < b.len(),
    ensures
        spec_pseudo_body(b.take(j + 1), st) == (
            spec_pseudo_body(b.take(j), st).0.push(
                spec_pseudo_instruction(b[j], spec_pseudo_body(b.take(j), st).1).0,
            ),
            spec_pseudo_instruction(b[j], spec_pseudo_body(b.take(j), st).1).1,
        ),
{
    assert(b.take(j + 1).drop_last() =~= b.take(j));
}

#[verifier::loop_isolation(false)]
fn pseudo_function(f: FuncDef) -> (r: FuncDef)
    requires
        frame_fits(f@),
    ensures
        r@ == spec_pseudo_function(f@),
{
    let ghost fv = f@;
    let FuncDef { identifier, body, stack_size: _ } = f;
    let ghost bv = asm_view(body@);
    let mut map: NameMap<i32> = NameMap::new();
    let mut size: i32 = 0;
    let mut out: Vec<Instruction> = Vec::new();
    proof {
        assert(bv.take(0) =~= seq![]);
        assert(asm_view(out@) =~= seq![]);
        assert(pseudo_state(map, size) == empty_pseudo_state());
        lemma_pseudo_body(bv, empty_pseudo_state());
    }
    for instr in it: body
        invariant
            it.seq() == body@,
            it.index() <= body@.len(),
            bv == fv.body,
            pseudo_wf(pseudo_state(map, size)),
            spec_pseudo_body(bv.take(it.index() as int), empty_pseudo_state()) == (
                asm_view(out@),
                pseudo_state(map, size),
            ),
    {
        let ghost j = it.index();
        proof {
            assert(instr == body@[j as int]);
            assert(bv[j as int] == instr@);
            lemma_pseudo_body_step(bv, j as int, empty_pseudo_state());
            lemma_pseudo_instruction(bv[j as int], pseudo_state(map, size));
            assert(spec_pseudo_body(bv.take(j + 1), empty_pseudo_state()).1.size <= i32::MAX);
        }
        let x = pseudo_instruction(instr, &mut map, &mut size);
        let ghost before = out@;
        out.push(x);
        proof {
            assert(asm_view(out@) =~= asm_view(before).push(x@));
        }
    }
    proof {
        assert(bv.take(bv.len() as int) =~= bv);
    }
    FuncDef { identifier, body: out, stack_size: Some(size as usize) }
}

impl Program {
    /// Gives every pseudo-register its own stack slot, function by function,
    /// and records the size of each frame.
    #[verifier::loop_isolation(false)]
    pub fn update_pseudo_operands(&mut self)
        requires
            forall|i: int| 0 <= i < old(self)@.len() ==> frame_fits(#[trigger] old(self)@[i]),
        ensures
            final(self)@ == old(self)@.map_values(|f: FuncDefView| spec_pseudo_function(f)),
    {
        let ghost pv = self@;
        let mut funcs: Vec<FuncDef> = Vec::new();
        std::mem::swap(&mut funcs, &mut self.0);
        proof {
            assert(self.0@.map_values(|f: FuncDef| f@) =~= pv.take(0).map_values(
                |f: FuncDefView| spec_pseudo_function(f),
            ));
        }
        for f in it: funcs
            invariant
                it.seq() == funcs@,
                it.index() <= funcs@.len(),
                pv == funcs@.map_values(|f: FuncDef| f@),
                self.0@.map_values(|f: FuncDef| f@) == pv.take(it.index() as int).map_values(
                    |f: FuncDefView| spec_pseudo_function(f),
                ),
        {
            let ghost j = it.index();
            proof {
                assert(f == funcs@[j as int]);
                assert(pv[j as int] == f@);
            }
            let x = pseudo_function(f);
            let ghost before = self.0@;
            self.0.push(x);
            proof {
                let lhs = self.0@.map_values(|f: FuncDef| f@);
                let rhs = pv.take(j + 1).map_values(|f: FuncDefView| spec_pseudo_function(f));
                let prev = pv.take(j as int).map_values(|f: FuncDefView| spec_pseudo_function(f));
                assert(lhs.len() == rhs.len());
                assert forall|k: int| 0 <= k < lhs.len() implies lhs[k] == rhs[k] by {
                    if k < j {
                        assert(self.0@[k] == before[k]);
                        assert(lhs[k] == before.map_values(|f: FuncDef| f@)[k]);
                        assert(prev[k] == rhs[k]);
                    } else {
                        assert(self.0@[k] == x);
                    }
                }
                assert(lhs =~= rhs);
            }
        }
        proof {
            assert(pv.take(pv.len() as int) =~= pv);
        }
    }
}


/// `s` rounded up to a multiple of 16.
pub open spec fn round_up16(s: usize) -> usize {
    if s % 16 != 0 {
        (s + (16 - s % 16)) as usize
    } else {
        s
    }
}

pub open spec fn reg(r: Register) -> OperandView {
    OperandView::Register(r)
}

/// An instruction with operands that the machine accepts: memory-to-memory
/// forms go through R10, a multiplication into memory and a comparison with
/// an immediate second operand through R11, a divisor that is an immediate
/// through R10, and a shift count that is not an immediate through CX.
pub open spec fn spec_fix_instruction(i: InstructionView) -> Seq<InstructionView> {
    match i {
        InstructionView::Move { src, dst } => if src is Stack && dst is Stack {
            seq![
                InstructionView::Move { src, dst: reg(Register::R10) },
                InstructionView::Move { src: reg(Register::R10), dst },
            ]
        } else {
            seq![i]
        },
        InstructionView::Idiv(o) => if o is Immediate {
            seq![
                InstructionView::Move { src: o, dst: reg(Register::R10) },
                InstructionView::Idiv(reg(Register::R10)),
            ]
        } else {
            seq![i]
        },
        InstructionView::BinaryOp { op, src, dst } => if op != BinaryOperator::Mult && src is Stack
            && dst is Stack {
            seq![
                InstructionView::Move { src, dst: reg(Register::R10) },
                InstructionView::BinaryOp { op, src: reg(Register::R10), dst },
            ]
        } else if op == BinaryOperator::Mult && dst is Stack {
            seq![
                InstructionView::Move { src: dst, dst: reg(Register::R11) },
                InstructionView::BinaryOp { op, src, dst: reg(Register::R11) },
                InstructionView::Move { src: reg(Register::R11), dst },
            ]
        } else {
            seq![i]
        },
        InstructionView::Cmp { val1, val2 } => if val1 is Stack && val2 is Stack {
            seq![
                InstructionView::Move { src: val1, dst: reg(Register::R10) },
                InstructionView::Cmp { val1: reg(Register::R10), val2 },
            ]
        } else if val2 is Immediate {
            seq![
                InstructionView::Move { src: val2, dst: reg(Register::R11) },
                InstructionView::Cmp { val1, val2: reg(Register::R11) },
            ]
        } else {
            seq![i]
        },
        InstructionView::Shift { left, shift, val } => if !(shift is Immediate) {
            seq![
                InstructionView::Move { src: shift, dst: reg(Register::CX) },
                InstructionView::Shift { left, shift: reg(Register::CX), val },
            ]
        } else {
            seq![i]
        },
        _ => seq![i],
    }
}

pub open spec fn spec_fix_body(body: Seq<InstructionView>) -> Seq<InstructionView>
    decreases body.len(),
{
    if body.len() == 0 {
        seq![]
    } else {
        spec_fix_body(body.drop_last()) + spec_fix_instruction(body.last())
    }
}

/// The frame's size is known and its rounding fits.
pub open spec fn frame_known(f: FuncDefView) -> bool {
    f.stack_size matches Some(s) && s + 15 <= usize::MAX
}

/// The function with its frame allocated on entry and every instruction
/// rewritten into forms the machine accepts.
pub open spec fn spec_final_function(f: FuncDefView) -> FuncDefView {
    FuncDefView {
        identifier: f.identifier,
        body: seq![InstructionView::AllocateStack { size: round_up16(f.stack_size->Some_0) }]
            + spec_fix_body(f.body),
        stack_size: f.stack_size,
    }
}

#[verifier::rlimit(40)]
fn fix_instruction(i: Instruction) -> (r: Vec<Instruction>)
    ensures
        asm_view(r@) == spec_fix_instruction(i@),
{
    let ghost iv = i@;
    let mut out: Vec<Instruction> = Vec::new();
    match i {
        Instruction::Move { src, dst } => match (src, dst) {
            (Operand::Stack(s), Operand::Stack(d)) => {
                push_asm(&mut out, Instruction::Move { src: Operand::Stack(s), dst: Operand::Register(Register::R10) });
                push_asm(&mut out, Instruction::Move { src: Operand::Register(Register::R10), dst: Operand::Stack(d) });
            },
            (src, dst) => {
                push_asm(&mut out, Instruction::Move { src, dst });
            },
        },
        Instruction::Idiv(o) => match o {
            Operand::Immediate(v) => {
                push_asm(&mut out, Instruction::Move { src: Operand::Immediate(v), dst: Operand::Register(Register::R10) });
                push_asm(&mut out, Instruction::Idiv(Operand::Register(Register::R10)));
            },
            o => {
                push_asm(&mut out, Instruction::Idiv(o));
            },
        },
        Instruction::BinaryOp { op, src, dst } => {
            if op != BinaryOperator::Mult {
                match (src, dst) {
                    (Operand::Stack(s), Operand::Stack(d)) => {
                        push_asm(&mut out, Instruction::Move { src: Operand::Stack(s), dst: Operand::Register(Register::R10) });
                        push_asm(&mut out, Instruction::BinaryOp { op, src: Operand::Register(Register::R10), dst: Operand::Stack(d) });
                    },
                    (src, dst) => {
                        push_asm(&mut out, Instruction::BinaryOp { op, src, dst });
                    },
                }
            } else {
                match dst {
                    Operand::Stack(d) => {
                        push_asm(&mut out, Instruction::Move { src: Operand::Stack(d), dst: Operand::Register(Register::R11) });
                        push_asm(&mut out, Instruction::BinaryOp { op, src, dst: Operand::Register(Register::R11) });
                        push_asm(&mut out, Instruction::Move { src: Operand::Register(Register::R11), dst: Operand::Stack(d) });
                    },
                    dst => {
                        push_asm(&mut out, Instruction::BinaryOp { op, src, dst });
                    },
                }
            }
        },
        Instruction::Cmp { val1, val2 } => match (val1, val2) {
            (Operand::Stack(a), Operand::Stack(b)) => {
                push_asm(&mut out, Instruction::Move { src: Operand::Stack(a), dst: Operand::Register(Register::R10) });
                push_asm(&mut out, Instruction::Cmp { val1: Operand::Register(Register::R10), val2: Operand::Stack(b) });
            },
            (val1, Operand::Immediate(v)) => {
                push_asm(&mut out, Instruction::Move { src: Operand::Immediate(v), dst: Operand::Register(Register::R11) });
                push_asm(&mut out, Instruction::Cmp { val1, val2: Operand::Register(Register::R11) });
            },
            (val1, val2) => {
                push_asm(&mut out, Instruction::Cmp { val1, val2 });
            },
        },
        Instruction::Shift { left, shift, val } => match shift {
            Operand::Immediate(v) => {
                push_asm(&mut out, Instruction::Shift { left, shift: Operand::Immediate(v), val });
            },
            shift => {
                push_asm(&mut out, Instruction::Move { src: shift, dst: Operand::Register(Register::CX) });
                push_asm(&mut out, Instruction::Shift { left, shift: Operand::Register(Register::CX), val });
            },
        },
        other => {
            push_asm(&mut out, other);
        },
    }
    assert(asm_view(out@) =~= spec_fix_instruction(iv));
    out
}

#[verifier::loop_isolation(false)]
fn final_function(f: FuncDef) -> (r: FuncDef)
    requires
        frame_known(f@),
    ensures
        r@ == spec_final_function(f@),
{
    let ghost fv = f@;
    let FuncDef { identifier, body, stack_size } = f;
    let mut size: usize = match stack_size {
        Some(s) => s,
        None => 0,
    };
    if size % 16 != 0 {
        let padding = 16 - (size % 16);
        size = size + padding;
    }
    assert(size == round_up16(fv.stack_size->Some_0));
    let mut out: Vec<Instruction> = Vec::new();
    push_asm(&mut out, Instruction::AllocateStack { size });
    let ghost g0 = asm_view(out@);
    assert(g0 =~= seq![InstructionView::AllocateStack { size: round_up16(fv.stack_size->Some_0) }]);
    let ghost bv = asm_view(body@);
    proof {
        assert(bv.take(0) =~= seq![]);
        assert(asm_view(out@) =~= g0 + spec_fix_body(bv.take(0)));
    }
    for instr in it: body
        invariant
            it.seq() == body@,
            it.index() <= body@.len(),
            bv == fv.body,
            asm_view(out@) == g0 + spec_fix_body(bv.take(it.index() as int)),
    {
        let ghost j = it.index();
        proof {
            assert(instr == body@[j as int]);
            assert(bv[j as int] == instr@);
            assert(bv.take(j + 1).drop_last() =~= bv.take(j as int));
        }
        let x = fix_instruction(instr);
        append_asm(&mut out, x);
        proof {
            assert(asm_view(out@) =~= g0 + spec_fix_body(bv.take(j + 1)));
        }
    }
    proof {
        assert(bv.take(bv.len() as int) =~= bv);
    }
    FuncDef { identifier, body: out, stack_size }
}

impl Program {
    /// Allocates each function's frame on entry, rounded up to a multiple
    /// of 16 bytes, and rewrites operand forms that the machine does not
    /// accept.
    #[verifier::loop_isolation(false)]
    pub fn final_pass(&mut self)
        requires
            forall|i: int| 0 <= i < old(self)@.len() ==> frame_known(#[trigger] old(self)@[i]),
        ensures
            final(self)@ == old(self)@.map_values(|f: FuncDefView| spec_final_function(f)),
    {
        let ghost pv = self@;
        let mut funcs: Vec<FuncDef> = Vec::new();
        std::mem::swap(&mut funcs, &mut self.0);
        proof {
            assert(self.0@.map_values(|f: FuncDef| f@) =~= pv.take(0).map_values(
                |f: FuncDefView| spec_final_function(f),
            ));
        }
        for f in it: funcs
            invariant
                it.seq() == funcs@,
                it.index() <= funcs@.len(),
                pv == funcs@.map_values(|f: FuncDef| f@),
                self.0@.map_values(|f: FuncDef| f@) == pv.take(it.index() as int).map_values(
                    |f: FuncDefView| spec_final_function(f),
                ),
        {
            let ghost j = it.index();
            proof {
                assert(f == funcs@[j as int]);
                assert(pv[j as int] == f@);
            }
            let x = final_function(f);
            let ghost before = self.0@;
            self.0.push(x);
            proof {
                let lhs = self.0@.map_values(|f: FuncDef| f@);
                let rhs = pv.take(j + 1).map_values(|f: FuncDefView| spec_final_function(f));
                let prev = pv.take(j as int).map_values(|f: FuncDefView| spec_final_function(f));
                assert(lhs.len() == rhs.len());
                assert forall|k: int| 0 <= k < lhs.len() implies lhs[k] == rhs[k] by {
                    if k < j {
                        assert(self.0@[k] == before[k]);
                        assert(lhs[k] == before.map_values(|f: FuncDef| f@)[k]);
                        assert(prev[k] == rhs[k]);
                    } else {
                        assert(self.0@[k] == x);
                    }
                }
                assert(lhs =~= rhs);
            }
        }
        proof {
            assert(pv.take(pv.len() as int) =~= pv);
        }
    }
}


pub open spec fn not_pseudo(o: OperandView) -> bool {
    !(o is Pseudo)
}

/// No operand of the instruction is a pseudo-register.
pub open spec fn no_pseudo(i: InstructionView) -> bool {
    match i {
        InstructionView::Move { src, dst } => not_pseudo(src) && not_pseudo(dst),
        InstructionView::UnaryOp { operator: _, operand } => not_pseudo(operand),
        InstructionView::BinaryOp { op: _, src, dst } => not_pseudo(src) && not_pseudo(dst),
        InstructionView::Cmp { val1, val2 } => not_pseudo(val1) && not_pseudo(val2),
        InstructionView::Shift { left: _, shift, val } => not_pseudo(shift) && not_pseudo(val),
        InstructionView::Idiv(o) => not_pseudo(o),
        InstructionView::SetCC(_, o) => not_pseudo(o),
        InstructionView::Push(o) => not_pseudo(o),
        _ => true,
    }
}

pub open spec fn body_has_no_pseudo(body: Seq<InstructionView>) -> bool {
    forall|i: int| 0 <= i < body.len() ==> no_pseudo(#[trigger] body[i])
}

/// The assembly program of a TACKY program: converted, with stack slots in
/// place of pseudo-registers, and with operands the machine accepts.
pub open spec fn spec_to_assembly(p: Seq<TackyFuncDefView>) -> Seq<FuncDefView> {
    spec_program_to_asm(p).map_values(|f: FuncDefView| spec_pseudo_function(f)).map_values(
        |f: FuncDefView| spec_final_function(f),
    )
}

/// Every frame of the converted program fits 32-bit offsets.
pub open spec fn frames_fit(p: Seq<TackyFuncDefView>) -> bool {
    forall|i: int| 0 <= i < p.len() ==> frame_fits(#[trigger] spec_program_to_asm(p)[i])
}

proof fn lemma_pseudo_body_no_pseudo(body: Seq<InstructionView>, st: PseudoState)
    ensures
        body_has_no_pseudo(spec_pseudo_body(body, st).0),
        spec_pseudo_body(body, st).0.len() == body.len(),
    decreases body.len(),
{
    reveal(spec_pseudo_instruction);
    if body.len() > 0 {
        lemma_pseudo_body_no_pseudo(body.drop_last(), st);
        let (done, s1) = spec_pseudo_body(body.drop_last(), st);
        let out = spec_pseudo_body(body, st).0;
        assert forall|i: int| 0 <= i < out.len() implies no_pseudo(#[trigger] out[i]) by {
            if i < done.len() {
                assert(out[i] == done[i]);
            }
        }
    }
}

proof fn lemma_fix_body_no_pseudo(body: Seq<InstructionView>)
    requires
        body_has_no_pseudo(body),
    ensures
        body_has_no_pseudo(spec_fix_body(body)),
    decreases body.len(),
{
    if body.len() > 0 {
        assert(body_has_no_pseudo(body.drop_last())) by {
            assert forall|i: int| 0 <= i < body.drop_last().len() implies no_pseudo(
                #[trigger] body.drop_last()[i],
            ) by {
                assert(body.drop_last()[i] == body[i]);
            }
        }
        lemma_fix_body_no_pseudo(body.drop_last());
        let a = spec_fix_body(body.drop_last());
        let b = spec_fix_instruction(body.last());
        assert(no_pseudo(body[body.len() - 1]));
        assert(body_has_no_pseudo(b));
        let out = spec_fix_body(body);
        assert(out == a + b);
        assert forall|i: int| 0 <= i < out.len() implies no_pseudo(#[trigger] out[i]) by {
            if i < a.len() {
                assert(out[i] == a[i]);
            } else {
                assert(out[i] == b[i - a.len()]);
            }
        }
    }
}

/// After stack slots are assigned and the final rewriting is done, no
/// operand of a function is a pseudo-register, and its body starts by
/// allocating a frame whose size is a multiple of 16.
pub proof fn law_assembly_has_no_pseudo_registers(f: FuncDefView)
    requires
        frame_fits(f),
    ensures
        body_has_no_pseudo(spec_final_function(spec_pseudo_function(f)).body),
        spec_final_function(spec_pseudo_function(f)).body[0] matches InstructionView::AllocateStack {
            size,
        } && size % 16 == 0,
        frame_known(spec_pseudo_function(f)),
{
    lemma_pseudo_body(f.body, empty_pseudo_state());
    lemma_pseudo_body_no_pseudo(f.body, empty_pseudo_state());
    let g = spec_pseudo_function(f);
    lemma_fix_body_no_pseudo(g.body);
    let body = spec_final_function(g).body;
    let fixed = spec_fix_body(g.body);
    assert forall|i: int| 0 <= i < body.len() implies no_pseudo(#[trigger] body[i]) by {
        if i > 0 {
            assert(body[i] == fixed[i - 1]);
        }
    }
}

/// TACKY to assembly: conversion, stack slots for pseudo-registers, and the
/// final rewriting of operands.
pub fn to_assembly(program: TackyProgram) -> (r: Program)
    requires
        program_convertible(program@),
        frames_fit(program@),
    ensures
        r@ == spec_to_assembly(program@),
        forall|i: int| 0 <= i < r@.len() ==> body_has_no_pseudo(#[trigger] r@[i].body),
{
    let ghost pv = program@;
    let mut assembly = program_to_assembly(program);
    let ghost a0 = assembly@;
    assembly.update_pseudo_operands();
    let ghost a1 = assembly@;
    proof {
        assert forall|i: int| 0 <= i < a1.len() implies frame_known(#[trigger] a1[i]) by {
            assert(frame_fits(a0[i]));
            law_assembly_has_no_pseudo_registers(a0[i]);
        }
    }
    assembly.final_pass();
    proof {
        assert forall|i: int| 0 <= i < assembly@.len() implies body_has_no_pseudo(
            #[trigger] assembly@[i].body,
        ) by {
            assert(frame_fits(a0[i]));
            law_assembly_has_no_pseudo_registers(a0[i]);
        }
    }
    assembly
}


fn instruction_convertible(i: &TackyInstruction) -> (r: bool)
    ensures
        r == convertible(i@),
{
    match i {
        TackyInstruction::UnaryOp { op, .. } => *op == AstUnaryOperator::Complement || *op
            == AstUnaryOperator::Negate || *op == AstUnaryOperator::LogicalNot,
        TackyInstruction::FunCall { args, .. } => {
            proof {
                assert(values_view(args@).len() == args@.len());
            }
            args.len() <= 6 || args.len() - 6 <= (usize::MAX - 8) / 8
        },
        _ => true,
    }
}

/// Whether every function of the program can be converted: its unary
/// operations are ones the machine has, and its parameter and argument
/// counts fit the offsets and byte counts that address them.
#[verifier::loop_isolation(false)]
pub fn is_convertible(program: &TackyProgram) -> (r: bool)
    ensures
        r == program_convertible(program@),
{
    let mut i: usize = 0;
    while i < program.0.len()
        invariant
            i <= program.0.len(),
            forall|k: int| 0 <= k < i ==> function_convertible(#[trigger] program@[k]),
        decreases program.0.len() - i,
    {
        let f = &program.0[i];
        let n = f.params.len();
        proof {
            assert(program@[i as int] == f@);
            assert(strings_view(f.params@).len() == n);
        }
        if !(n <= 6 || n - 7 <= (0x7fff_ffffusize - 16) / 8) {
            return false;
        }
        let mut j: usize = 0;
        while j < f.body.len()
            invariant
                j <= f.body.len(),
                forall|k: int| 0 <= k < j ==> convertible(#[trigger] f@.body[k]),
            decreases f.body.len() - j,
        {
            if !instruction_convertible(&f.body[j]) {
                proof {
                    assert(f@.body[j as int] == f.body@[j as int]@);
                    assert(!function_convertible(program@[i as int]));
                }
                return false;
            }
            j = j + 1;
        }
        i = i + 1;
    }
    true
}

pub open spec fn probe_state(map: NameMap<i32>, stack_size: i64) -> PseudoState {
    PseudoState { offsets: map@, size: stack_size as int }
}

/// Assigns the operand a stack slot as `update_pseudo_operands` would, unless
/// the frame would outgrow 32-bit offsets; says whether it did.
fn probe_operand(o: &Operand, size: i64, map: &mut NameMap<i32>, stack_size: &mut i64) -> (r: bool)
    requires
        size == 4 || size == 8,
        pseudo_wf(probe_state(*old(map), *old(stack_size))),
        *old(stack_size) <= i32::MAX,
    ensures
        r == (spec_pseudo_operand(o@, size as int, probe_state(*old(map), *old(stack_size))).1.size
            <= i32::MAX),
        r ==> probe_state(*final(map), *final(stack_size)) == spec_pseudo_operand(
            o@,
            size as int,
            probe_state(*old(map), *old(stack_size)),
        ).1,
        r ==> *final(stack_size) <= i32::MAX,
{
    match o {
        Operand::Pseudo(name) => {
            if map.contains_key(name) {
                true
            } else {
                let next = *stack_size + size;
                if next > 0x7fff_ffff {
                    return false;
                }
                *stack_size = next;
                map.insert(name.clone(), next as i32);
                true
            }
        },
        _ => true,
    }
}

fn probe_pair(
    first: &Operand,
    second: &Operand,
    map: &mut NameMap<i32>,
    stack_size: &mut i64,
) -> (r: bool)
    requires
        pseudo_wf(probe_state(*old(map), *old(stack_size))),
        *old(stack_size) <= i32::MAX,
    ensures
        ({
            let st = probe_state(*old(map), *old(stack_size));
            let s1 = spec_pseudo_operand(first@, 4, st).1;
            let s2 = spec_pseudo_operand(second@, 4, s1).1;
            &&& r == (s2.size <= i32::MAX)
            &&& r ==> probe_state(*final(map), *final(stack_size)) == s2
            &&& r ==> *final(stack_size) <= i32::MAX
        }),
{
    let ghost st = probe_state(*map, *stack_size);
    proof {
        lemma_pseudo_operand(first@, 4, st);
        lemma_pseudo_operand(second@, 4, spec_pseudo_operand(first@, 4, st).1);
    }
    if !probe_operand(first, 4, map, stack_size) {
        return false;
    }
    probe_operand(second, 4, map, stack_size)
}

fn probe_instruction(i: &Instruction, map: &mut NameMap<i32>, stack_size: &mut i64) -> (r: bool)
    requires
        pseudo_wf(probe_state(*old(map), *old(stack_size))),
        *old(stack_size) <= i32::MAX,
    ensures
        r == (spec_pseudo_instruction(i@, probe_state(*old(map), *old(stack_size))).1.size
            <= i32::MAX),
        r ==> probe_state(*final(map), *final(stack_size)) == spec_pseudo_instruction(
            i@,
            probe_state(*old(map), *old(stack_size)),
        ).1,
        r ==> *final(stack_size) <= i32::MAX,
{
    proof {
        reveal(spec_pseudo_instruction);
    }
    match i {
        Instruction::Move { src, dst } => probe_pair(dst, src, map, stack_size),
        Instruction::UnaryOp { operator: _, operand } => probe_operand(operand, 4, map, stack_size),
        Instruction::BinaryOp { op: _, src, dst } => probe_pair(src, dst, map, stack_size),
        Instruction::Shift { left: _, shift, val } => probe_pair(val, shift, map, stack_size),
        Instruction::Idiv(o) => probe_operand(o, 4, map, stack_size),
        Instruction::Cmp { val1, val2 } => probe_pair(val1, val2, map, stack_size),
        Instruction::SetCC(_, o) => probe_operand(o, 4, map, stack_size),
        Instruction::Push(o) => probe_operand(o, 8, map, stack_size),
        _ => true,
    }
}

/// Whether the function's frame fits 32-bit offsets once every
/// pseudo-register has its slot.
fn frame_fits_check(f: &FuncDef) -> (r: bool)
    ensures
        r == frame_fits(f@),
{
    let ghost bv = f@.body;
    let mut map: NameMap<i32> = NameMap::new();
    let mut size: i64 = 0;
    proof {
        assert(bv.take(0) =~= seq![]);
        assert(probe_state(map, size) == empty_pseudo_state());
        lemma_pseudo_body(bv, empty_pseudo_state());
    }
    let mut j: usize = 0;
    while j < f.body.len()
        invariant
            j <= f.body.len(),
            bv == f@.body,
            bv.len() == f.body.len(),
            0 <= size <= i32::MAX,
            pseudo_wf(probe_state(map, size)),
            spec_pseudo_body(bv.take(j as int), empty_pseudo_state()).1 == probe_state(map, size),
            forall|k: int|
                0 <= k <= bv.len() ==> #[trigger] spec_pseudo_body(bv.take(k), empty_pseudo_state()).1.size
                    <= spec_pseudo_body(bv, empty_pseudo_state()).1.size,
        decreases f.body.len() - j,
    {
        proof {
            assert(bv[j as int] == f.body@[j as int]@);
            lemma_pseudo_body_step(bv, j as int, empty_pseudo_state());
            lemma_pseudo_instruction(bv[j as int], probe_state(map, size));
        }
        if !probe_instruction(&f.body[j], &mut map, &mut size) {
            proof {
                assert(spec_pseudo_body(bv.take(j + 1), empty_pseudo_state()).1.size > i32::MAX);
            }
            return false;
        }
        j = j + 1;
    }
    proof {
        assert(bv.take(bv.len() as int) =~= bv);
    }
    true
}

impl Program {
    /// Whether every function's frame fits 32-bit offsets once every
    /// pseudo-register has its slot: what `update_pseudo_operands` asks.
    pub fn frames_fit(&self) -> (r: bool)
        ensures
            r == forall|i: int| 0 <= i < self@.len() ==> frame_fits(#[trigger] self@[i]),
    {
        let mut i: usize = 0;
        while i < self.0.len()
            invariant
                i <= self.0.len(),
                forall|k: int| 0 <= k < i ==> frame_fits(#[trigger] self@[k]),
            decreases self.0.len() - i,
        {
            proof {
                assert(self@[i as int] == self.0@[i as int]@);
            }
            if !frame_fits_check(&self.0[i]) {
                return false;
            }
            i = i + 1;
        }
        true
    }
}


/// The label an assembly instruction jumps to, if it jumps.
pub open spec fn asm_jump_target(i: InstructionView) -> Option<Seq<char>> {
    match i {
        InstructionView::Jmp(l) => Some(l),
        InstructionView::JmpCC(_, l) => Some(l),
        _ => None,
    }
}

/// The labels an assembly sequence places.
pub open spec fn asm_labels(s: Seq<InstructionView>) -> Set<Seq<char>>
    decreases s.len(),
{
    if s.len() == 0 {
        Set::empty()
    } else {
        asm_labels(s.drop_last()) + match s.last() {
            InstructionView::Label(l) => set![l],
            _ => Set::empty(),
        }
    }
}

/// The labels the jumps of an assembly sequence name.
pub open spec fn asm_jump_targets(s: Seq<InstructionView>) -> Set<Seq<char>>
    decreases s.len(),
{
    if s.len() == 0 {
        Set::empty()
    } else {
        asm_jump_targets(s.drop_last()) + match asm_jump_target(s.last()) {
            Some(l) => set![l],
            None => Set::empty(),
        }
    }
}

proof fn lemma_asm_sets_concat(a: Seq<InstructionView>, b: Seq<InstructionView>)
    ensures
        asm_labels(a + b) == asm_labels(a) + asm_labels(b),
        asm_jump_targets(a + b) == asm_jump_targets(a) + asm_jump_targets(b),
    decreases b.len(),
{
    if b.len() == 0 {
        assert(a + b =~= a);
        assert(asm_labels(a) + asm_labels(b) =~= asm_labels(a));
        assert(asm_jump_targets(a) + asm_jump_targets(b) =~= asm_jump_targets(a));
    } else {
        lemma_asm_sets_concat(a, b.drop_last());
        assert((a + b).drop_last() =~= a + b.drop_last());
        assert((a + b).last() == b.last());
        assert(asm_labels(a + b) =~= asm_labels(a) + asm_labels(b));
        assert(asm_jump_targets(a + b) =~= asm_jump_targets(a) + asm_jump_targets(b));
    }
}

/// A sequence with no labels and no jumps.
pub open spec fn no_control(s: Seq<InstructionView>) -> bool {
    forall|k: int| 0 <= k < s.len() ==> !(#[trigger] s[k] is Label) && asm_jump_target(s[k]) is None
}

proof fn lemma_no_control_sets(s: Seq<InstructionView>)
    requires
        no_control(s),
    ensures
        asm_labels(s) == Set::<Seq<char>>::empty(),
        asm_jump_targets(s) == Set::<Seq<char>>::empty(),
    decreases s.len(),
{
    if s.len() > 0 {
        assert(no_control(s.drop_last())) by {
            assert forall|k: int| 0 <= k < s.drop_last().len() implies !(#[trigger] s.drop_last()[k] is Label)
                && asm_jump_target(s.drop_last()[k]) is None by {
                assert(s.drop_last()[k] == s[k]);
            }
        }
        lemma_no_control_sets(s.drop_last());
        assert(!(s[s.len() - 1] is Label));
        assert(asm_labels(s) =~= Set::<Seq<char>>::empty());
        assert(asm_jump_targets(s) =~= Set::<Seq<char>>::empty());
    }
}

proof fn lemma_register_moves_no_control(args: Seq<ValueView>)
    ensures
        no_control(spec_register_moves(args)),
    decreases args.len(),
{
    if args.len() > 0 {
        lemma_register_moves_no_control(args.drop_last());
        let r = spec_register_moves(args);
        let d = spec_register_moves(args.drop_last());
        assert forall|k: int| 0 <= k < r.len() implies !(#[trigger] r[k] is Label) && asm_jump_target(
            r[k],
        ) is None by {
            if k < d.len() {
                assert(r[k] == d[k]);
            }
        }
    }
}

proof fn lemma_stack_pushes_no_control(args: Seq<ValueView>)
    ensures
        no_control(spec_stack_pushes(args)),
    decreases args.len(),
{
    if args.len() > 0 {
        lemma_stack_pushes_no_control(args.drop_last());
        let a = spec_push_argument(args.last());
        let b = spec_stack_pushes(args.drop_last());
        let r = spec_stack_pushes(args);
        assert(r == a + b);
        assert forall|k: int| 0 <= k < r.len() implies !(#[trigger] r[k] is Label) && asm_jump_target(
            r[k],
        ) is None by {
            if k < a.len() {
                assert(r[k] == a[k]);
            } else {
                assert(r[k] == b[k - a.len()]);
            }
        }
    }
}

proof fn lemma_call_no_control(name: Seq<char>, args: Seq<ValueView>, dst: ValueView)
    ensures
        asm_labels(spec_call(name, args, dst)) == Set::<Seq<char>>::empty(),
        asm_jump_targets(spec_call(name, args, dst)) == Set::<Seq<char>>::empty(),
{
    let n_reg = if args.len() < 6 {
        args.len()
    } else {
        6
    };
    lemma_register_moves_no_control(args.take(n_reg as int));
    lemma_stack_pushes_no_control(args.skip(n_reg as int));
    let r = spec_call(name, args, dst);
    let m = spec_register_moves(args.take(n_reg as int));
    let pu = spec_stack_pushes(args.skip(n_reg as int));
    assert forall|k: int| 0 <= k < r.len() implies !(#[trigger] r[k] is Label) && asm_jump_target(
        r[k],
    ) is None by {
        let stack_args = args.skip(n_reg as int);
        let padding: usize = if stack_args.len() % 2 == 1 {
            8
        } else {
            0
        };
        let pre: Seq<InstructionView> = if padding > 0 {
            seq![InstructionView::AllocateStack { size: padding }]
        } else {
            seq![]
        };
        if k < pre.len() {
        } else if k < pre.len() + m.len() {
            assert(r[k] == m[k - pre.len()]);
        } else if k < pre.len() + m.len() + pu.len() {
            assert(r[k] == pu[k - pre.len() - m.len()]);
        }
    }
    lemma_no_control_sets(r);
}

/// Converting an instruction keeps its label and its jump target.
proof fn lemma_convert_keeps_control(i: TackyInstructionView)
    ensures
        asm_labels(spec_instruction_to_asm(i)) == placed_labels(seq![i]),
        asm_jump_targets(spec_instruction_to_asm(i)) == jump_targets(seq![i]),
{
    assert(seq![i].drop_last() =~= Seq::<TackyInstructionView>::empty());
    assert(placed_labels(Seq::<TackyInstructionView>::empty()) == Set::<Seq<char>>::empty());
    assert(jump_targets(Seq::<TackyInstructionView>::empty()) == Set::<Seq<char>>::empty());
    match i {
        TackyInstructionView::FunCall { name, args, dst } => {
            lemma_call_no_control(name, args, dst);
            assert(placed_labels(seq![i]) =~= Set::<Seq<char>>::empty());
            assert(jump_targets(seq![i]) =~= Set::<Seq<char>>::empty());
        },
        _ => {
            let r = spec_instruction_to_asm(i);
            assert(asm_labels(r) =~= placed_labels(seq![i])) by {
                reveal_with_fuel(asm_labels, 5);
            }
            assert(asm_jump_targets(r) =~= jump_targets(seq![i])) by {
                reveal_with_fuel(asm_jump_targets, 5);
            }
        },
    }
}


proof fn lemma_convert_body_keeps_control(b: Seq<TackyInstructionView>)
    ensures
        asm_labels(spec_instructions_to_asm(b)) == placed_labels(b),
        asm_jump_targets(spec_instructions_to_asm(b)) == jump_targets(b),
    decreases b.len(),
{
    if b.len() == 0 {
        assert(asm_labels(Seq::<InstructionView>::empty()) == Set::<Seq<char>>::empty());
        assert(asm_jump_targets(Seq::<InstructionView>::empty()) == Set::<Seq<char>>::empty());
    } else {
        lemma_convert_body_keeps_control(b.drop_last());
        lemma_convert_keeps_control(b.last());
        lemma_asm_sets_concat(
            spec_instructions_to_asm(b.drop_last()),
            spec_instruction_to_asm(b.last()),
        );
        let x = b.last();
        assert(seq![x].drop_last() =~= Seq::<TackyInstructionView>::empty());
        assert(placed_labels(Seq::<TackyInstructionView>::empty()) == Set::<Seq<char>>::empty());
        assert(jump_targets(Seq::<TackyInstructionView>::empty()) == Set::<Seq<char>>::empty());
        assert(placed_labels(seq![x]) =~= match x {
            TackyInstructionView::Label(l) => set![l],
            _ => Set::<Seq<char>>::empty(),
        });
        assert(jump_targets(seq![x]) =~= match jump_target(x) {
            Some(l) => set![l],
            None => Set::<Seq<char>>::empty(),
        });
    }
}

proof fn lemma_param_copies_no_control(params: Seq<Seq<char>>)
    ensures
        no_control(spec_param_copies(params)),
    decreases params.len(),
{
    if params.len() > 0 {
        lemma_param_copies_no_control(params.drop_last());
        let r = spec_param_copies(params);
        let d = spec_param_copies(params.drop_last());
        assert forall|k: int| 0 <= k < r.len() implies !(#[trigger] r[k] is Label) && asm_jump_target(
            r[k],
        ) is None by {
            if k < d.len() {
                assert(r[k] == d[k]);
            }
        }
    }
}

proof fn lemma_pseudo_keeps_control(body: Seq<InstructionView>, st: PseudoState)
    ensures
        asm_labels(spec_pseudo_body(body, st).0) == asm_labels(body),
        asm_jump_targets(spec_pseudo_body(body, st).0) == asm_jump_targets(body),
    decreases body.len(),
{
    reveal(spec_pseudo_instruction);
    if body.len() > 0 {
        lemma_pseudo_keeps_control(body.drop_last(), st);
        let (done, s1) = spec_pseudo_body(body.drop_last(), st);
        let out = spec_pseudo_body(body, st).0;
        assert(out.drop_last() =~= done);
        let x = spec_pseudo_instruction(body.last(), s1).0;
        assert(out.last() == x);
        assert(asm_jump_target(x) == asm_jump_target(body.last()));
        assert((x is Label) == (body.last() is Label));
        assert(x is Label ==> x == body.last());
    }
}

proof fn lemma_fix_keeps_control(body: Seq<InstructionView>)
    ensures
        asm_labels(spec_fix_body(body)) == asm_labels(body),
        asm_jump_targets(spec_fix_body(body)) == asm_jump_targets(body),
    decreases body.len(),
{
    if body.len() == 0 {
        assert(asm_labels(Seq::<InstructionView>::empty()) == Set::<Seq<char>>::empty());
        assert(asm_jump_targets(Seq::<InstructionView>::empty()) == Set::<Seq<char>>::empty());
    } else {
        lemma_fix_keeps_control(body.drop_last());
        let x = body.last();
        let f = spec_fix_instruction(x);
        lemma_asm_sets_concat(spec_fix_body(body.drop_last()), f);
        match x {
            InstructionView::Jmp(_) => {
                assert(f == seq![x]);
            },
            InstructionView::JmpCC(_, _) => {
                assert(f == seq![x]);
            },
            InstructionView::Label(_) => {
                assert(f == seq![x]);
            },
            _ => {
                assert(no_control(f));
                lemma_no_control_sets(f);
            },
        }
        assert(seq![x].drop_last() =~= Seq::<InstructionView>::empty());
        assert(asm_labels(Seq::<InstructionView>::empty()) == Set::<Seq<char>>::empty());
        assert(asm_jump_targets(Seq::<InstructionView>::empty()) == Set::<Seq<char>>::empty());
        assert(asm_labels(body) =~= asm_labels(body.drop_last()) + asm_labels(seq![x]));
        assert(asm_jump_targets(body) =~= asm_jump_targets(body.drop_last()) + asm_jump_targets(
            seq![x],
        ));
    }
}

/// Assembly generation keeps every label and every jump of a function: where
/// every jump of the TACKY function lands on one of its labels, so does every
/// jump of its assembly.
pub proof fn law_assembly_jumps_land_on_labels(f: TackyFuncDefView)
    requires
        jumps_closed(f.body),
    ensures
        asm_jump_targets(spec_final_function(spec_pseudo_function(spec_function_to_asm(f))).body).subset_of(
            asm_labels(spec_final_function(spec_pseudo_function(spec_function_to_asm(f))).body),
        ),
{
    let g = spec_function_to_asm(f);
    lemma_param_copies_no_control(f.params);
    lemma_no_control_sets(spec_param_copies(f.params));
    lemma_convert_body_keeps_control(f.body);
    lemma_asm_sets_concat(spec_param_copies(f.params), spec_instructions_to_asm(f.body));
    let h = spec_pseudo_function(g);
    lemma_pseudo_keeps_control(g.body, empty_pseudo_state());
    lemma_fix_keeps_control(h.body);
    let a = seq![InstructionView::AllocateStack { size: round_up16(h.stack_size->Some_0) }];
    assert(no_control(a));
    lemma_no_control_sets(a);
    lemma_asm_sets_concat(a, spec_fix_body(h.body));
}

/// What a 32-bit x86-64 two-operand instruction leaves in its destination,
/// where the destination held `d` and the source holds `s`: `addl`, `subl`
/// and `imull` wrap modulo 2^32, `andl`, `orl` and `xorl` work bit by bit.
pub open spec fn x86_binary_result(op: BinaryOperator, d: i32, s: i32) -> i32 {
    match op {
        BinaryOperator::Add => (d + s) as i32,
        BinaryOperator::Sub => (d - s) as i32,
        BinaryOperator::Mult => (d * s) as i32,
        BinaryOperator::BitAnd => d & s,
        BinaryOperator::BitOr => d | s,
        BinaryOperator::BitXor => d ^ s,
    }
}

/// What a 32-bit x86-64 one-operand instruction leaves in its operand, which
/// held `d`: `notl` flips every bit, `negl` takes the two's complement.
pub open spec fn x86_unary_result(op: UnaryOperator, d: i32) -> i32 {
    match op {
        UnaryOperator::Complement => !d,
        UnaryOperator::Negate => (0 - d) as i32,
    }
}

/// An arithmetic TACKY operation becomes a move of its first operand into
/// the destination and one machine instruction that combines the second
/// operand into it; on every pair of values that instruction computes what
/// the TACKY operation computes.
pub proof fn law_arithmetic_lowers_to_the_same_operation(
    op: TackyBinaryOperator,
    val1: ValueView,
    val2: ValueView,
    dst: ValueView,
    a: i32,
    b: i32,
)
    requires
        is_arithmetic(op),
    ensures
        ({
            let s = spec_instruction_to_asm(TackyInstructionView::BinaryOp { op, val1, val2, dst });
            &&& s.len() == 2
            &&& s[0] == InstructionView::Move { src: operand_of(val1), dst: operand_of(dst) }
            &&& match s[1] {
                InstructionView::BinaryOp { op: m, src, dst: d } => src == operand_of(val2) && d
                    == operand_of(dst) && machine_binary(op, a, b) == Some(x86_binary_result(m, a, b)),
                _ => false,
            }
        }),
{
}

/// Complement and negation become a move of the operand into the
/// destination and one machine instruction on it, which computes on every
/// value what the TACKY operation computes.
pub proof fn law_unary_lowers_to_the_same_operation(
    op: AstUnaryOperator,
    src: ValueView,
    dst: ValueView,
    a: i32,
)
    requires
        op == AstUnaryOperator::Complement || op == AstUnaryOperator::Negate,
    ensures
        ({
            let s = spec_instruction_to_asm(TackyInstructionView::UnaryOp { op, src, dst });
            &&& s.len() == 2
            &&& s[0] == InstructionView::Move { src: operand_of(src), dst: operand_of(dst) }
            &&& match s[1] {
                InstructionView::UnaryOp { operator: m, operand } => operand == operand_of(dst)
                    && machine_unary(op, a) == Some(x86_unary_result(m, a)),
                _ => false,
            }
        }),
{
}

} // verus!
