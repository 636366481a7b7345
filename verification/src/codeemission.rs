//! Code emission: the assembly program as AT&T-syntax text.
use vstd::prelude::*;

use crate::codegen::{
    operand_of, spec_instruction_to_asm,
    body_has_no_pseudo, no_pseudo, BinaryOperator, ConditionCode, FuncDef, FuncDefView,
    Instruction, InstructionView, Operand, OperandView, Program, Register, UnaryOperator,
};
use crate::evaluation::machine_binary;
use crate::names::{decimal, push_decimal};
use crate::tacky::{BinaryOperator as TackyBinaryOperator, InstructionView as TackyInstructionView, ValueView};
use crate::resolve_types::{SymbolMap, SymbolTable};

verus! {

#[derive(Debug, Clone, Copy, PartialEq, Eq, Structural)]
pub enum RegisterSize {
    Byte,
    Dword,
    Qword,
}

/// The name of a register at the given width.
pub open spec fn register_text(r: Register, size: RegisterSize) -> Seq<char> {
    match (r, size) {
        (Register::AX, RegisterSize::Byte) => "%al"@,
        (Register::AX, RegisterSize::Dword) => "%eax"@,
        (Register::AX, RegisterSize::Qword) => "%rax"@,
        (Register::DX, RegisterSize::Byte) => "%dl"@,
        (Register::DX, RegisterSize::Dword) => "%edx"@,
        (Register::DX, RegisterSize::Qword) => "%rdx"@,
        (Register::CX, RegisterSize::Byte) => "%cl"@,
        (Register::CX, RegisterSize::Dword) => "%ecx"@,
        (Register::CX, RegisterSize::Qword) => "%rcx"@,
        (Register::DI, RegisterSize::Byte) => "%dil"@,
        (Register::DI, RegisterSize::Dword) => "%edi"@,
        (Register::DI, RegisterSize::Qword) => "%rdi"@,
        (Register::SI, RegisterSize::Byte) => "%sil"@,
        (Register::SI, RegisterSize::Dword) => "%esi"@,
        (Register::SI, RegisterSize::Qword) => "%rsi"@,
        (Register::R8, RegisterSize::Byte) => "%r8b"@,
        (Register::R8, RegisterSize::Dword) => "%r8d"@,
        (Register::R8, RegisterSize::Qword) => "%r8"@,
        (Register::R9, RegisterSize::Byte) => "%r9b"@,
        (Register::R9, RegisterSize::Dword) => "%r9d"@,
        (Register::R9, RegisterSize::Qword) => "%r9"@,
        (Register::R10, RegisterSize::Byte) => "%r10b"@,
        (Register::R10, RegisterSize::Dword) => "%r10d"@,
        (Register::R10, RegisterSize::Qword) => "%r10"@,
        (Register::R11, RegisterSize::Byte) => "%r11b"@,
        (Register::R11, RegisterSize::Dword) => "%r11d"@,
        (Register::R11, RegisterSize::Qword) => "%r11"@,
    }
}

/// A signed number in decimal, with a minus sign when it is negative.
pub open spec fn signed_decimal(i: i32) -> Seq<char> {
    if i < 0 {
        "-"@ + decimal((-(i as int)) as nat)
    } else {
        decimal(i as nat)
    }
}

/// An operand as the assembler reads it.
pub open spec fn operand_text(o: OperandView, size: RegisterSize) -> Seq<char> {
    match o {
        OperandView::Immediate(i) => "$"@ + decimal(i as nat),
        OperandView::Register(r) => register_text(r, size),
        OperandView::Stack(offset) => signed_decimal(offset) + "(%rbp)"@,
        OperandView::Pseudo(_) => seq![],
    }
}

fn register_to_string(r: Register, size: RegisterSize) -> (s: &'static str)
    ensures
        s@ == register_text(r, size),
{
    match r {
        Register::AX => match size {
            RegisterSize::Byte => "%al",
            RegisterSize::Dword => "%eax",
            RegisterSize::Qword => "%rax",
        },
        Register::DX => match size {
            RegisterSize::Byte => "%dl",
            RegisterSize::Dword => "%edx",
            RegisterSize::Qword => "%rdx",
        },
        Register::CX => match size {
            RegisterSize::Byte => "%cl",
            RegisterSize::Dword => "%ecx",
            RegisterSize::Qword => "%rcx",
        },
        Register::DI => match size {
            RegisterSize::Byte => "%dil",
            RegisterSize::Dword => "%edi",
            RegisterSize::Qword => "%rdi",
        },
        Register::SI => match size {
            RegisterSize::Byte => "%sil",
            RegisterSize::Dword => "%esi",
            RegisterSize::Qword => "%rsi",
        },
        Register::R8 => match size {
            RegisterSize::Byte => "%r8b",
            RegisterSize::Dword => "%r8d",
            RegisterSize::Qword => "%r8",
        },
        Register::R9 => match size {
            RegisterSize::Byte => "%r9b",
            RegisterSize::Dword => "%r9d",
            RegisterSize::Qword => "%r9",
        },
        Register::R10 => match size {
            RegisterSize::Byte => "%r10b",
            RegisterSize::Dword => "%r10d",
            RegisterSize::Qword => "%r10",
        },
        Register::R11 => match size {
            RegisterSize::Byte => "%r11b",
            RegisterSize::Dword => "%r11d",
            RegisterSize::Qword => "%r11",
        },
    }
}

/// Appends the text of an operand; pseudo-registers have none, and must be
/// gone by the time code is emitted.
fn push_operand(out: &mut String, operand: &Operand, size: RegisterSize)
    requires
        !(operand@ is Pseudo),
    ensures
        final(out)@ == old(out)@ + operand_text(operand@, size),
{
    let ghost before = out@;
    match operand {
        Operand::Immediate(i) => {
            out.append("$");
            push_decimal(out, *i as usize);
            assert(out@ =~= before + operand_text(operand@, size));
        },
        Operand::Register(r) => {
            out.append(register_to_string(*r, size));
        },
        Operand::Stack(offset) => {
            if *offset < 0 {
                out.append("-");
                let magnitude = (-(*offset as i64)) as usize;
                push_decimal(out, magnitude);
            } else {
                push_decimal(out, *offset as usize);
            }
            out.append("(%rbp)");
            assert(out@ =~= before + operand_text(operand@, size));
        },
        Operand::Pseudo(_) => {},
    }
}

/// The text of an operand.
pub fn operand_to_string(operand: &Operand, size: RegisterSize) -> (r: String)
    requires
        !(operand@ is Pseudo),
    ensures
        r@ == operand_text(operand@, size),
{
    let mut s = String::new();
    push_operand(&mut s, operand, size);
    assert(s@ =~= operand_text(operand@, size));
    s
}


pub open spec fn unary_text(o: UnaryOperator) -> Seq<char> {
    match o {
        UnaryOperator::Complement => "notl"@,
        UnaryOperator::Negate => "negl"@,
    }
}

pub open spec fn binary_text(o: BinaryOperator) -> Seq<char> {
    match o {
        BinaryOperator::Add => "addl"@,
        BinaryOperator::Sub => "subl"@,
        BinaryOperator::Mult => "imull"@,
        BinaryOperator::BitAnd => "andl"@,
        BinaryOperator::BitOr => "orl"@,
        BinaryOperator::BitXor => "xorl"@,
    }
}

pub open spec fn condition_text(c: ConditionCode) -> Seq<char> {
    match c {
        ConditionCode::Equal => "e"@,
        ConditionCode::NotEqual => "ne"@,
        ConditionCode::Less => "l"@,
        ConditionCode::LessEqual => "le"@,
        ConditionCode::Greater => "g"@,
        ConditionCode::GreaterEqual => "ge"@,
    }
}

/// A function defined in this program is called directly; any other through
/// the procedure linkage table.
pub open spec fn call_target(f: Seq<char>, symbols: SymbolMap) -> Seq<char> {
    if symbols.contains_key(f) {
        f
    } else {
        f + "@PLT"@
    }
}

pub open spec fn instruction_text(i: InstructionView, symbols: SymbolMap) -> Seq<char> {
    match i {
        InstructionView::Move { src, dst } => "\tmovl "@ + operand_text(src, RegisterSize::Dword)
            + ", "@ + operand_text(dst, RegisterSize::Dword) + "\n"@,
        InstructionView::Return => "\tmovq %rbp, %rsp\n\tpopq %rbp\n\tret\n"@,
        InstructionView::UnaryOp { operator, operand } => "\t"@ + unary_text(operator) + " "@
            + operand_text(operand, RegisterSize::Dword) + "\n"@,
        InstructionView::AllocateStack { size } => "\tsubq $"@ + decimal(size as nat)
            + ", %rsp\n"@,
        InstructionView::BinaryOp { op, src, dst } => "\t"@ + binary_text(op) + " "@
            + operand_text(src, RegisterSize::Dword) + ", "@ + operand_text(
            dst,
            RegisterSize::Dword,
        ) + "\n"@,
        InstructionView::Shift { left, shift, val } => "\t"@ + (if left {
            "sall"@
        } else {
            "sarl"@
        }) + " "@ + operand_text(shift, RegisterSize::Byte) + ", "@ + operand_text(
            val,
            RegisterSize::Dword,
        ) + "\n"@,
        InstructionView::Idiv(o) => "\tidivl "@ + operand_text(o, RegisterSize::Dword) + "\n"@,
        InstructionView::Cdq => "\tcdq\n"@,
        InstructionView::Cmp { val1, val2 } => "\tcmpl "@ + operand_text(val1, RegisterSize::Dword)
            + ", "@ + operand_text(val2, RegisterSize::Dword) + "\n"@,
        InstructionView::Jmp(l) => "\tjmp .L"@ + l + "\n"@,
        InstructionView::JmpCC(c, l) => "\tj"@ + condition_text(c) + " .L"@ + l + "\n"@,
        InstructionView::SetCC(c, o) => "\tset"@ + condition_text(c) + " "@ + operand_text(
            o,
            RegisterSize::Byte,
        ) + "\n"@,
        InstructionView::Label(l) => ".L"@ + l + ":\n"@,
        InstructionView::DeallocateStack { size } => "\taddq $"@ + decimal(size as nat)
            + ", %rsp\n"@,
        InstructionView::Push(o) => "\tpushq "@ + operand_text(o, RegisterSize::Qword) + "\n"@,
        InstructionView::Call(f) => "\tcall "@ + call_target(f, symbols) + "\n"@,
    }
}

pub open spec fn body_text(body: Seq<InstructionView>, symbols: SymbolMap) -> Seq<char>
    decreases body.len(),
{
    if body.len() == 0 {
        seq![]
    } else {
        body_text(body.drop_last(), symbols) + instruction_text(body.last(), symbols)
    }
}

/// A function: made global, labelled, its frame set up, then its body.
pub open spec fn function_text(f: FuncDefView, symbols: SymbolMap) -> Seq<char> {
    "\t.globl "@ + f.identifier + "\n"@ + f.identifier + ":\n"@ + "\tpushq %rbp\n"@
        + "\tmovq %rsp, %rbp\n"@ + body_text(f.body, symbols)
}

pub open spec fn functions_text(fs: Seq<FuncDefView>, symbols: SymbolMap) -> Seq<char>
    decreases fs.len(),
{
    if fs.len() == 0 {
        seq![]
    } else {
        functions_text(fs.drop_last(), symbols) + function_text(fs.last(), symbols)
    }
}

/// The functions in order, then the note that the stack need not be
/// executable.
pub open spec fn program_text(p: Seq<FuncDefView>, symbols: SymbolMap) -> Seq<char> {
    functions_text(p, symbols) + "\t.section .note.GNU-stack,\"\",@progbits\n"@
}

/// Writing assembly text.
pub trait EmitCode {
    /// What the value must satisfy to be written.
    spec fn emittable(&self) -> bool;

    /// The text written for the value.
    spec fn code(&self, symbols: SymbolMap) -> Seq<char>;

    fn emit_code(&self, out: &mut String, symbol_table: &SymbolTable)
        requires
            self.emittable(),
        ensures
            final(out)@ == old(out)@ + self.code(symbol_table@),
    ;
}

impl EmitCode for UnaryOperator {
    open spec fn emittable(&self) -> bool {
        true
    }

    open spec fn code(&self, symbols: SymbolMap) -> Seq<char> {
        unary_text(*self)
    }

    fn emit_code(&self, out: &mut String, symbol_table: &SymbolTable) {
        match self {
            UnaryOperator::Complement => out.append("notl"),
            UnaryOperator::Negate => out.append("negl"),
        }
    }
}

impl EmitCode for BinaryOperator {
    open spec fn emittable(&self) -> bool {
        true
    }

    open spec fn code(&self, symbols: SymbolMap) -> Seq<char> {
        binary_text(*self)
    }

    fn emit_code(&self, out: &mut String, symbol_table: &SymbolTable) {
        match self {
            BinaryOperator::Add => out.append("addl"),
            BinaryOperator::Sub => out.append("subl"),
            BinaryOperator::Mult => out.append("imull"),
            BinaryOperator::BitAnd => out.append("andl"),
            BinaryOperator::BitOr => out.append("orl"),
            BinaryOperator::BitXor => out.append("xorl"),
        }
    }
}

impl EmitCode for ConditionCode {
    open spec fn emittable(&self) -> bool {
        true
    }

    open spec fn code(&self, symbols: SymbolMap) -> Seq<char> {
        condition_text(*self)
    }

    fn emit_code(&self, out: &mut String, symbol_table: &SymbolTable) {
        match self {
            ConditionCode::Equal => out.append("e"),
            ConditionCode::NotEqual => out.append("ne"),
            ConditionCode::Less => out.append("l"),
            ConditionCode::LessEqual => out.append("le"),
            ConditionCode::Greater => out.append("g"),
            ConditionCode::GreaterEqual => out.append("ge"),
        }
    }
}

impl EmitCode for Instruction {
    open spec fn emittable(&self) -> bool {
        no_pseudo(self@)
    }

    open spec fn code(&self, symbols: SymbolMap) -> Seq<char> {
        instruction_text(self@, symbols)
    }

    #[verifier::rlimit(60)]
    fn emit_code(&self, out: &mut String, symbol_table: &SymbolTable) {
        let ghost before = out@;
        match self {
            Instruction::Move { src, dst } => {
                out.append("\tmovl ");
                push_operand(out, src, RegisterSize::Dword);
                out.append(", ");
                push_operand(out, dst, RegisterSize::Dword);
                out.append("\n");
            },
            Instruction::Return => {
                out.append("\tmovq %rbp, %rsp\n\tpopq %rbp\n\tret\n");
            },
            Instruction::UnaryOp { operator, operand } => {
                out.append("\t");
                operator.emit_code(out, symbol_table);
                out.append(" ");
                push_operand(out, operand, RegisterSize::Dword);
                out.append("\n");
            },
            Instruction::AllocateStack { size } => {
                out.append("\tsubq $");
                push_decimal(out, *size);
                out.append(", %rsp\n");
            },
            Instruction::BinaryOp { op, src, dst } => {
                out.append("\t");
                op.emit_code(out, symbol_table);
                out.append(" ");
                push_operand(out, src, RegisterSize::Dword);
                out.append(", ");
                push_operand(out, dst, RegisterSize::Dword);
                out.append("\n");
            },
            Instruction::Shift { left, shift, val } => {
                out.append("\t");
                if *left {
                    out.append("sall");
                } else {
                    out.append("sarl");
                }
                out.append(" ");
                push_operand(out, shift, RegisterSize::Byte);
                out.append(", ");
                push_operand(out, val, RegisterSize::Dword);
                out.append("\n");
            },
            Instruction::Idiv(operand) => {
                out.append("\tidivl ");
                push_operand(out, operand, RegisterSize::Dword);
                out.append("\n");
            },
            Instruction::Cdq => {
                out.append("\tcdq\n");
            },
            Instruction::Cmp { val1, val2 } => {
                out.append("\tcmpl ");
                push_operand(out, val1, RegisterSize::Dword);
                out.append(", ");
                push_operand(out, val2, RegisterSize::Dword);
                out.append("\n");
            },
            Instruction::Jmp(label) => {
                out.append("\tjmp .L");
                out.append(label.as_str());
                out.append("\n");
            },
            Instruction::JmpCC(condition_code, label) => {
                out.append("\tj");
                condition_code.emit_code(out, symbol_table);
                out.append(" .L");
                out.append(label.as_str());
                out.append("\n");
            },
            Instruction::SetCC(condition_code, operand) => {
                out.append("\tset");
                condition_code.emit_code(out, symbol_table);
                out.append(" ");
                push_operand(out, operand, RegisterSize::Byte);
                out.append("\n");
            },
            Instruction::Label(identifier) => {
                out.append(".L");
                out.append(identifier.as_str());
                out.append(":\n");
            },
            Instruction::DeallocateStack { size } => {
                out.append("\taddq $");
                push_decimal(out, *size);
                out.append(", %rsp\n");
            },
            Instruction::Push(operand) => {
                out.append("\tpushq ");
                push_operand(out, operand, RegisterSize::Qword);
                out.append("\n");
            },
            Instruction::Call(func_name) => {
                out.append("\tcall ");
                out.append(func_name.as_str());
                if !symbol_table.has_symbol(func_name.as_str()) {
                    out.append("@PLT");
                }
                out.append("\n");
            },
        }
        assert(out@ =~= before + instruction_text(self@, symbol_table@));
    }
}

impl EmitCode for FuncDef {
    open spec fn emittable(&self) -> bool {
        body_has_no_pseudo(self@.body)
    }

    open spec fn code(&self, symbols: SymbolMap) -> Seq<char> {
        function_text(self@, symbols)
    }

    fn emit_code(&self, out: &mut String, symbol_table: &SymbolTable) {
        let ghost before = out@;
        out.append("\t.globl ");
        out.append(self.identifier.as_str());
        out.append("\n");
        out.append(self.identifier.as_str());
        out.append(":\n");
        out.append("\tpushq %rbp\n");
        out.append("\tmovq %rsp, %rbp\n");
        let ghost head = out@;
        let ghost bv = self@.body;
        proof {
            assert(bv.take(0) =~= seq![]);
            assert(out@ =~= head + body_text(bv.take(0), symbol_table@));
        }
        let mut i: usize = 0;
        while i < self.body.len()
            invariant
                i <= self.body.len(),
                bv == self@.body,
                bv.len() == self.body.len(),
                body_has_no_pseudo(bv),
                out@ == head + body_text(bv.take(i as int), symbol_table@),
            decreases self.body.len() - i,
        {
            proof {
                assert(bv.take(i + 1).drop_last() =~= bv.take(i as int));
                assert(bv[i as int] == self.body@[i as int]@);
                assert(no_pseudo(bv[i as int]));
            }
            self.body[i].emit_code(out, symbol_table);
            proof {
                assert(out@ =~= head + body_text(bv.take(i + 1), symbol_table@));
            }
            i = i + 1;
        }
        proof {
            assert(bv.take(bv.len() as int) =~= bv);
            assert(out@ =~= before + function_text(self@, symbol_table@));
        }
    }
}

impl EmitCode for Program {
    open spec fn emittable(&self) -> bool {
        forall|i: int| 0 <= i < self@.len() ==> body_has_no_pseudo(#[trigger] self@[i].body)
    }

    open spec fn code(&self, symbols: SymbolMap) -> Seq<char> {
        program_text(self@, symbols)
    }

    fn emit_code(&self, out: &mut String, symbol_table: &SymbolTable) {
        let ghost before = out@;
        let ghost pv = self@;
        proof {
            assert(pv.take(0) =~= seq![]);
            assert(out@ =~= before + functions_text(pv.take(0), symbol_table@));
        }
        let mut i: usize = 0;
        while i < self.0.len()
            invariant
                i <= self.0.len(),
                pv == self@,
                pv.len() == self.0.len(),
                forall|j: int| 0 <= j < pv.len() ==> body_has_no_pseudo(#[trigger] pv[j].body),
                out@ == before + functions_text(pv.take(i as int), symbol_table@),
            decreases self.0.len() - i,
        {
            proof {
                assert(pv.take(i + 1).drop_last() =~= pv.take(i as int));
                assert(pv[i as int] == self.0@[i as int]@);
                assert(body_has_no_pseudo(pv[i as int].body));
            }
            self.0[i].emit_code(out, symbol_table);
            proof {
                assert(out@ =~= before + functions_text(pv.take(i + 1), symbol_table@));
            }
            i = i + 1;
        }
        out.append("\t.section .note.GNU-stack,\"\",@progbits\n");
        proof {
            assert(pv.take(pv.len() as int) =~= pv);
            assert(out@ =~= before + program_text(pv, symbol_table@));
        }
    }
}

/// The flags that `cmpl src, dst` sets, from the signed 32-bit difference
/// `dst - src` as the machine computes it: zero (ZF), sign (SF) and signed
/// overflow (OF).
pub struct CompareFlags {
    pub zero: bool,
    pub sign: bool,
    pub overflow: bool,
}

pub open spec fn compare_flags(dst: i32, src: i32) -> CompareFlags {
    let exact: int = dst - src;
    let wrapped: int = if exact > i32::MAX {
        exact - 0x1_0000_0000
    } else if exact < i32::MIN {
        exact + 0x1_0000_0000
    } else {
        exact
    };
    CompareFlags { zero: wrapped == 0, sign: wrapped < 0, overflow: wrapped != exact }
}

/// Whether the x86-64 condition with the given mnemonic suffix holds after
/// `cmpl src, dst`, by the flags it tests: `e` ZF, `ne` not ZF, `l` SF != OF,
/// `le` ZF or SF != OF, `g` not ZF and SF == OF, `ge` SF == OF. None for a
/// text that is no such suffix.
pub open spec fn x86_condition_holds(mnemonic: Seq<char>, dst: i32, src: i32) -> Option<bool> {
    let f = compare_flags(dst, src);
    if mnemonic == seq!['e'] {
        Some(f.zero)
    } else if mnemonic == seq!['n', 'e'] {
        Some(!f.zero)
    } else if mnemonic == seq!['l'] {
        Some(f.sign != f.overflow)
    } else if mnemonic == seq!['l', 'e'] {
        Some(f.zero || f.sign != f.overflow)
    } else if mnemonic == seq!['g'] {
        Some(!f.zero && f.sign == f.overflow)
    } else if mnemonic == seq!['g', 'e'] {
        Some(f.sign == f.overflow)
    } else {
        None
    }
}

pub open spec fn is_comparison(op: TackyBinaryOperator) -> bool {
    op == TackyBinaryOperator::Equal || op == TackyBinaryOperator::NotEqual || op
        == TackyBinaryOperator::LessThan || op == TackyBinaryOperator::GreaterThan || op
        == TackyBinaryOperator::LessEqual || op == TackyBinaryOperator::GreaterEqual
}

/// A TACKY comparison becomes `cmpl` of its second operand against its first,
/// a zeroed destination and a `set` instruction whose emitted condition holds,
/// by the machine's flags, exactly when the comparison is true of the two
/// values.
pub proof fn law_comparisons_set_the_right_condition(
    op: TackyBinaryOperator,
    val1: ValueView,
    val2: ValueView,
    dst: ValueView,
    a: i32,
    b: i32,
)
    requires
        is_comparison(op),
    ensures
        ({
            let s = spec_instruction_to_asm(TackyInstructionView::BinaryOp { op, val1, val2, dst });
            &&& s.len() == 3
            &&& s[0] == InstructionView::Cmp { val1: operand_of(val2), val2: operand_of(val1) }
            &&& s[1] == InstructionView::Move { src: OperandView::Immediate(0), dst: operand_of(dst) }
            &&& match s[2] {
                InstructionView::SetCC(c, o) => o == operand_of(dst) && x86_condition_holds(
                    condition_text(c),
                    a,
                    b,
                ) == Some(machine_binary(op, a, b) == Some(1i32)),
                _ => false,
            }
        }),
{
    reveal_strlit("e");
    reveal_strlit("ne");
    reveal_strlit("l");
    reveal_strlit("le");
    reveal_strlit("g");
    reveal_strlit("ge");
    assert("e"@ =~= seq!['e']);
    assert("ne"@ =~= seq!['n', 'e']);
    assert("l"@ =~= seq!['l']);
    assert("le"@ =~= seq!['l', 'e']);
    assert("g"@ =~= seq!['g']);
    assert("ge"@ =~= seq!['g', 'e']);
    assert(seq!['e'] != seq!['n', 'e']);
    assert(seq!['e'][0] != seq!['l'][0]);
    assert(seq!['e'] != seq!['l', 'e']);
    assert(seq!['e'][0] != seq!['g'][0]);
    assert(seq!['e'] != seq!['g', 'e']);
    assert(seq!['n', 'e'] != seq!['l']);
    assert(seq!['n', 'e'] != seq!['l', 'e']);
    assert(seq!['n', 'e'] != seq!['g']);
    assert(seq!['n', 'e'] != seq!['g', 'e']);
    assert(seq!['l'] != seq!['l', 'e']);
    assert(seq!['l'] != seq!['g']);
    assert(seq!['l'] != seq!['g', 'e']);
    assert(seq!['l', 'e'] != seq!['g']);
    assert(seq!['l', 'e'] != seq!['g', 'e']);
    assert(seq!['g'] != seq!['g', 'e']);
}

/// A conditional jump on zero or nonzero compares the value with 0 and jumps
/// on a condition that holds exactly when the value is zero, or nonzero.
pub proof fn law_conditional_jumps_test_zero(val: ValueView, target: Seq<char>, v: i32)
    ensures
        ({
            let z = spec_instruction_to_asm(TackyInstructionView::JumpIfZero { val, target });
            let n = spec_instruction_to_asm(TackyInstructionView::JumpIfNotZero { val, target });
            &&& z.len() == 2 && n.len() == 2
            &&& z[0] == InstructionView::Cmp { val1: OperandView::Immediate(0), val2: operand_of(val) }
            &&& n[0] == z[0]
            &&& match (z[1], n[1]) {
                (InstructionView::JmpCC(cz, lz), InstructionView::JmpCC(cn, ln)) => lz == target && ln
                    == target && x86_condition_holds(condition_text(cz), v, 0) == Some(v == 0)
                    && x86_condition_holds(condition_text(cn), v, 0) == Some(v != 0),
                _ => false,
            }
        }),
{
    reveal_strlit("e");
    reveal_strlit("ne");
    assert("e"@ =~= seq!['e']);
    assert("ne"@ =~= seq!['n', 'e']);
}

} // verus!
