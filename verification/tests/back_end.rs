use c_compiler::codeemission::{operand_to_string, EmitCode, RegisterSize};
use c_compiler::codegen::{
    to_assembly, BinaryOperator as AsmBinaryOperator, ConditionCode, FuncDef as AsmFuncDef,
    Instruction as AsmInstruction, Operand, Program as AsmProgram, Register,
};
use c_compiler::lexer::lex;
use c_compiler::parser::{parse, UnaryOperator};
use c_compiler::resolve_types::SymbolTable;
use c_compiler::semantic_analysis::resolve_program;
use c_compiler::tacky::{BinaryOperator, FuncDef, Instruction, Program, ToTacky, Value};

fn lines(src: &str) -> Vec<String> {
    src.lines().map(|l| l.to_string()).collect()
}

fn tacky(src: &str) -> (Program, SymbolTable) {
    let (p, table) = resolve_program(parse(lex(&lines(src)).unwrap()).unwrap()).unwrap();
    (p.to_tacky(), table)
}

fn compile(src: &str) -> String {
    let (t, table) = tacky(src);
    let assembly = to_assembly(t);
    let mut out = String::new();
    assembly.emit_code(&mut out, &table);
    out
}

fn var(name: &str) -> Value {
    Value::Var(name.to_string())
}

#[test]
fn tacky_of_return_two() {
    let (t, _) = tacky("int main(void) { return 2; }");
    assert_eq!(t.0.len(), 1);
    assert_eq!(t.0[0].identifier, "main");
    assert!(matches!(
        t.0[0].body.as_slice(),
        [Instruction::Return(Value::Constant(2)), Instruction::Return(Value::Constant(0))]
    ));
}

#[test]
fn tacky_of_binary_and_unary() {
    let (t, _) = tacky("int main(void) { int a = 1; return -a + 2; }");
    let body = &t.0[0].body;
    assert_eq!(body.len(), 5);
    assert!(matches!(&body[0], Instruction::Copy { src: Value::Constant(1), dst: Value::Var(d) } if d == "var_a.0"));
    assert!(matches!(&body[1], Instruction::UnaryOp { op: UnaryOperator::Negate, src: Value::Var(s), dst: Value::Var(d) } if s == "var_a.0" && d == "unary_op.0"));
    assert!(matches!(&body[2], Instruction::BinaryOp { op: BinaryOperator::Add, val2: Value::Constant(2), dst: Value::Var(d), .. } if d == "binary_op.0"));
}

#[test]
fn tacky_of_logical_and() {
    let (t, _) = tacky("int main(void) { return 1 && 0; }");
    let body = &t.0[0].body;
    assert!(matches!(&body[0], Instruction::JumpIfZero { val: Value::Constant(1), target } if target == "label_binop_false.1"));
    assert!(matches!(&body[1], Instruction::JumpIfZero { val: Value::Constant(0), target } if target == "label_binop_false.1"));
    assert!(matches!(&body[2], Instruction::Copy { src: Value::Constant(1), dst: Value::Var(d) } if d == "binary_op.0"));
    assert!(matches!(&body[3], Instruction::Jump(l) if l == "label_binop_end.0"));
    assert!(matches!(&body[4], Instruction::Label(l) if l == "label_binop_false.1"));
    assert!(matches!(&body[6], Instruction::Label(l) if l == "label_binop_end.0"));
}

#[test]
fn tacky_of_while_loop() {
    let (t, _) = tacky("int main(void) { int i = 0; while (i < 3) i = i + 1; return i; }");
    let body = &t.0[0].body;
    assert!(matches!(&body[1], Instruction::Label(l) if l == "loop_while.0.continue"));
    assert!(body.iter().any(|i| matches!(i, Instruction::JumpIfZero { target, .. } if target == "loop_while.0.break")));
    assert!(body.iter().any(|i| matches!(i, Instruction::Jump(l) if l == "loop_while.0.continue")));
    assert!(body.iter().any(|i| matches!(i, Instruction::Label(l) if l == "loop_while.0.break")));
}

#[test]
fn tacky_of_switch() {
    let (t, _) =
        tacky("int main(void) { switch (2) { case 1: return 1; case 2: return 2; } return 0; }");
    let body = &t.0[0].body;
    assert!(matches!(&body[0], Instruction::BinaryOp { op: BinaryOperator::Equal, val1: Value::Constant(2), val2: Value::Constant(1), .. }));
    assert!(matches!(&body[1], Instruction::JumpIfNotZero { target, .. } if target == "switch.0.case.1"));
    assert!(matches!(&body[3], Instruction::JumpIfNotZero { target, .. } if target == "switch.0.case.2"));
    assert!(matches!(&body[4], Instruction::Jump(l) if l == "switch.0.break"));
    assert!(matches!(&body[5], Instruction::Label(l) if l == "switch.0.case.1"));
}

#[test]
fn tacky_of_call() {
    let (t, _) = tacky("int f(int a, int b) { return a; } int main(void) { return f(1, 2); }");
    assert_eq!(t.0.len(), 2);
    assert_eq!(t.0[0].params, vec!["var_a.0".to_string(), "var_b.1".to_string()]);
    match &t.0[1].body[0] {
        Instruction::FunCall { name, args, dst } => {
            assert_eq!(name, "f");
            assert!(matches!(args.as_slice(), [Value::Constant(1), Value::Constant(2)]));
            assert!(matches!(dst, Value::Var(d) if d == "call.0"));
        }
        other => panic!("unexpected {:?}", other),
    }
}

#[test]
fn tacky_binary_operator_conversion() {
    assert_eq!(BinaryOperator::try_from(c_compiler::parser::BinaryOperator::Remainder), Ok(BinaryOperator::Remainder));
    assert!(BinaryOperator::try_from(c_compiler::parser::BinaryOperator::LogicalOr).is_err());
}

#[test]
fn emit_return_two() {
    assert_eq!(
        compile("int main(void) { return 2; }"),
        "\t.globl main\nmain:\n\tpushq %rbp\n\tmovq %rsp, %rbp\n\tsubq $0, %rsp\n\tmovl $2, %eax\n\tmovq %rbp, %rsp\n\tpopq %rbp\n\tret\n\tmovl $0, %eax\n\tmovq %rbp, %rsp\n\tpopq %rbp\n\tret\n\t.section .note.GNU-stack,\"\",@progbits\n"
    );
}

#[test]
fn emit_locals_on_the_stack() {
    assert_eq!(
        compile("int main(void) { int a = 1; return a + 2; }"),
        "\t.globl main\nmain:\n\tpushq %rbp\n\tmovq %rsp, %rbp\n\tsubq $16, %rsp\n\tmovl $1, -4(%rbp)\n\tmovl -4(%rbp), %r10d\n\tmovl %r10d, -8(%rbp)\n\taddl $2, -8(%rbp)\n\tmovl -8(%rbp), %eax\n\tmovq %rbp, %rsp\n\tpopq %rbp\n\tret\n\tmovl $0, %eax\n\tmovq %rbp, %rsp\n\tpopq %rbp\n\tret\n\t.section .note.GNU-stack,\"\",@progbits\n"
    );
}

#[test]
fn emit_calls_external_through_plt() {
    let text = compile("int putchar(int c); int main(void) { return putchar(65); }");
    assert!(text.contains("\tcall putchar\n"));
    let text = compile("int main(void) { return 0; }");
    assert!(!text.contains("call"));
    let (t, _) = tacky("int main(void) { return 0; }");
    let assembly = AsmProgram(vec![AsmFuncDef {
        identifier: "main".to_string(),
        body: vec![AsmInstruction::Call("puts".to_string())],
        stack_size: Some(0),
    }]);
    let mut out = String::new();
    let table = resolve_program(parse(lex(&lines("int main(void) { return 0; }")).unwrap()).unwrap()).unwrap().1;
    assembly.emit_code(&mut out, &table);
    assert!(out.contains("\tcall puts@PLT\n"));
    assert_eq!(t.0.len(), 1);
}

#[test]
fn codegen_frames_are_aligned_and_pseudo_free() {
    let (t, _) = tacky("int main(void) { int a = 1; int b = 2; int c = a * b; return c / a % b; }");
    let assembly = to_assembly(t);
    let f = &assembly.0[0];
    match &f.body[0] {
        AsmInstruction::AllocateStack { size } => assert_eq!(size % 16, 0),
        other => panic!("unexpected {:?}", other),
    }
    assert_eq!(f.stack_size, Some(24));
    for i in &f.body {
        let text = format!("{:?}", i);
        assert!(!text.contains("Pseudo"));
    }
}

#[test]
fn codegen_call_with_stack_arguments() {
    let args: Vec<Value> = (0..8u32).map(Value::Constant).collect();
    let program = Program(vec![FuncDef {
        identifier: "main".to_string(),
        params: vec![],
        body: vec![Instruction::FunCall { name: "f".to_string(), args, dst: var("t") }],
    }]);
    let assembly = to_assembly(program);
    let body = &assembly.0[0].body;
    assert!(matches!(body[0], AsmInstruction::AllocateStack { size: 16 }));
    assert!(matches!(body[1], AsmInstruction::Move { src: Operand::Immediate(0), dst: Operand::Register(Register::DI) }));
    assert!(matches!(body[6], AsmInstruction::Move { src: Operand::Immediate(5), dst: Operand::Register(Register::R9) }));
    assert!(matches!(body[7], AsmInstruction::Push(Operand::Immediate(7))));
    assert!(matches!(body[8], AsmInstruction::Push(Operand::Immediate(6))));
    assert!(matches!(&body[9], AsmInstruction::Call(n) if n == "f"));
    assert!(matches!(body[10], AsmInstruction::DeallocateStack { size: 16 }));
    assert!(matches!(body[11], AsmInstruction::Move { src: Operand::Register(Register::AX), dst: Operand::Stack(-4) }));
}

#[test]
fn codegen_odd_stack_arguments_are_padded() {
    let args: Vec<Value> = (0..7u32).map(Value::Constant).collect();
    let program = Program(vec![FuncDef {
        identifier: "main".to_string(),
        params: vec![],
        body: vec![Instruction::FunCall { name: "f".to_string(), args, dst: var("t") }],
    }]);
    let body = to_assembly(program).0.remove(0).body;
    assert!(matches!(body[1], AsmInstruction::AllocateStack { size: 8 }));
    assert!(matches!(body[8], AsmInstruction::Push(Operand::Immediate(6))));
    assert!(matches!(body[10], AsmInstruction::DeallocateStack { size: 16 }));
}

#[test]
fn codegen_parameters_are_copied_in() {
    let params: Vec<String> = (0..8).map(|i| format!("p{}", i)).collect();
    let program = Program(vec![FuncDef {
        identifier: "g".to_string(),
        params,
        body: vec![Instruction::Return(var("p7"))],
    }]);
    let body = to_assembly(program).0.remove(0).body;
    assert!(matches!(body[1], AsmInstruction::Move { src: Operand::Register(Register::DI), dst: Operand::Stack(-4) }));
    assert!(matches!(body[7], AsmInstruction::Move { src: Operand::Stack(16), .. }));
    assert!(matches!(body[8], AsmInstruction::Move { src: Operand::Register(Register::R10), dst: Operand::Stack(-28) }));
    assert!(matches!(body[9], AsmInstruction::Move { src: Operand::Stack(24), dst: Operand::Register(Register::R10) }));
    assert!(matches!(body[10], AsmInstruction::Move { src: Operand::Register(Register::R10), dst: Operand::Stack(-32) }));
    assert!(matches!(body[11], AsmInstruction::Move { src: Operand::Stack(-32), dst: Operand::Register(Register::AX) }));
}

#[test]
fn codegen_rewrites_comparisons_and_shifts() {
    let program = Program(vec![FuncDef {
        identifier: "main".to_string(),
        params: vec![],
        body: vec![
            Instruction::BinaryOp { op: BinaryOperator::LessThan, val1: var("a"), val2: Value::Constant(3), dst: var("b") },
            Instruction::BinaryOp { op: BinaryOperator::LeftShift, val1: var("a"), val2: var("b"), dst: var("c") },
            Instruction::BinaryOp { op: BinaryOperator::Divide, val1: var("a"), val2: Value::Constant(2), dst: var("d") },
        ],
    }]);
    let body = to_assembly(program).0.remove(0).body;
    assert!(matches!(body[1], AsmInstruction::Cmp { val1: Operand::Immediate(3), val2: Operand::Stack(-4) }));
    assert!(matches!(body[3], AsmInstruction::SetCC(ConditionCode::Less, Operand::Stack(-8))));
    assert!(matches!(body[4], AsmInstruction::Move { src: Operand::Stack(-4), dst: Operand::Register(Register::R10) }));
    assert!(matches!(body[6], AsmInstruction::Move { src: Operand::Stack(-8), dst: Operand::Register(Register::CX) }));
    assert!(matches!(body[7], AsmInstruction::Shift { left: true, shift: Operand::Register(Register::CX), val: Operand::Stack(-12) }));
    assert!(matches!(body[10], AsmInstruction::Move { src: Operand::Immediate(2), dst: Operand::Register(Register::R10) }));
    assert!(matches!(body[11], AsmInstruction::Idiv(Operand::Register(Register::R10))));
}

#[test]
fn codegen_multiplication_into_memory() {
    let program = Program(vec![FuncDef {
        identifier: "main".to_string(),
        params: vec![],
        body: vec![Instruction::BinaryOp { op: BinaryOperator::Multiply, val1: var("a"), val2: Value::Constant(3), dst: var("b") }],
    }]);
    let body = to_assembly(program).0.remove(0).body;
    assert!(matches!(body[3], AsmInstruction::Move { src: Operand::Stack(-4), dst: Operand::Register(Register::R11) }));
    assert!(matches!(body[4], AsmInstruction::BinaryOp { op: AsmBinaryOperator::Mult, src: Operand::Immediate(3), dst: Operand::Register(Register::R11) }));
    assert!(matches!(body[5], AsmInstruction::Move { src: Operand::Register(Register::R11), dst: Operand::Stack(-4) }));
}

#[test]
fn operand_text() {
    assert_eq!(operand_to_string(&Operand::Immediate(7), RegisterSize::Dword), "$7");
    assert_eq!(operand_to_string(&Operand::Stack(-12), RegisterSize::Dword), "-12(%rbp)");
    assert_eq!(operand_to_string(&Operand::Stack(16), RegisterSize::Qword), "16(%rbp)");
    assert_eq!(operand_to_string(&Operand::Register(Register::AX), RegisterSize::Byte), "%al");
    assert_eq!(operand_to_string(&Operand::Register(Register::R9), RegisterSize::Qword), "%r9");
    assert_eq!(operand_to_string(&Operand::Register(Register::SI), RegisterSize::Dword), "%esi");
}

#[test]
fn emit_instruction_texts() {
    let table = SymbolTable::new();
    let cases = vec![
        (AsmInstruction::Cdq, "\tcdq\n"),
        (AsmInstruction::JmpCC(ConditionCode::LessEqual, "x".to_string()), "\tjle .Lx\n"),
        (AsmInstruction::SetCC(ConditionCode::NotEqual, Operand::Register(Register::AX)), "\tsetne %al\n"),
        (AsmInstruction::Label("x".to_string()), ".Lx:\n"),
        (AsmInstruction::Shift { left: false, shift: Operand::Register(Register::CX), val: Operand::Stack(-4) }, "\tsarl %cl, -4(%rbp)\n"),
        (AsmInstruction::Push(Operand::Register(Register::AX)), "\tpushq %rax\n"),
        (AsmInstruction::DeallocateStack { size: 16 }, "\taddq $16, %rsp\n"),
        (AsmInstruction::BinaryOp { op: AsmBinaryOperator::Mult, src: Operand::Immediate(3), dst: Operand::Register(Register::R11) }, "\timull $3, %r11d\n"),
    ];
    for (instruction, expected) in cases {
        let mut out = String::new();
        instruction.emit_code(&mut out, &table);
        assert_eq!(out, expected);
    }
}

#[test]
fn increments_lower_to_additions() {
    let (t, _) = tacky("int main(void) { int a = 1; ++a; a--; return -a; }");
    let body = &t.0[0].body;
    assert!(body.iter().all(|i| match i {
        Instruction::UnaryOp { op, .. } => matches!(
            op,
            UnaryOperator::Complement | UnaryOperator::Negate | UnaryOperator::LogicalNot
        ),
        _ => true,
    }));
    assert!(matches!(&body[1], Instruction::BinaryOp { op: BinaryOperator::Add, val2: Value::Constant(1), .. }));
    assert!(body.iter().any(|i| matches!(i, Instruction::BinaryOp { op: BinaryOperator::Subtract, .. })));
    assert!(c_compiler::codegen::is_convertible(&t));
}

#[test]
fn prefix_increment_is_not_convertible() {
    let program = Program(vec![FuncDef {
        identifier: "main".to_string(),
        params: vec![],
        body: vec![Instruction::UnaryOp { op: UnaryOperator::PrefixIncrement, src: var("a"), dst: var("b") }],
    }]);
    assert!(!c_compiler::codegen::is_convertible(&program));
}

#[test]
fn whole_programs_compile_to_text() {
    let sources = [
        "int f(int a, int b, int c, int d, int e, int g, int h) { return a + h; } int main(void) { return f(1, 2, 3, 4, 5, 6, 7); }",
        "int main(void) { int x = 3; switch (x) { case 1: x = 10; break; case 3: x = 30; default: x = x + 1; } return x; }",
        "int main(void) { int s = 0; for (int i = 0; i < 10; i = i + 1) { if (i % 2) continue; s += i; } do s--; while (s > 100); return s ? s : -1; }",
        "static int counter; int next(void) { counter = counter + 1; return counter; } int main(void) { next(); return next() << 2 >> 1 ^ 3 | 4 & 5; }",
        "int main(void) { int a = 5; a *= 2; a /= 3; a %= 2; a -= 1; return !a || a != 0 && a <= 1 && a >= 0 && a == 0; }",
    ];
    for src in sources {
        let text = compile(src);
        assert!(text.contains("main:\n"));
        assert!(text.ends_with("\t.section .note.GNU-stack,\"\",@progbits\n"));
        assert!(!text.contains("Pseudo"));
    }
}

#[test]
fn frames_fit_small_programs() {
    let (t, _) = tacky("int main(void) { int a = 1; return a; }");
    let assembly = c_compiler::codegen::program_to_assembly(t);
    assert!(assembly.frames_fit());
}

#[test]
fn every_emitted_jump_has_its_label() {
    let text = compile(
        "int main(void) { int s = 0; for (int i = 0; i < 5; i = i + 1) { switch (i) { case 0: continue; case 2: s = s + 2; break; default: s = s + 1; } if (s > 3 && i) goto out; } out: while (s) { s = s - 1; if (s == 1) break; } do s++; while (s < 3 || !s); return s ? s : 0; }",
    );
    let mut jumps = 0;
    for line in text.lines() {
        let line = line.trim_start();
        if line.starts_with('j') {
            let target = line.split(' ').nth(1).unwrap();
            assert!(text.contains(&format!("\n{}:\n", target)), "missing {}", target);
            jumps += 1;
        }
    }
    assert!(jumps > 10);
}

#[test]
fn lowering_numbering_carries_on() {
    let src = "int main(void) { int a = 1; return -a; }";
    let mut c = c_compiler::tacky::TackyCounters { unary: 0, binary: 0, label: 0, call: 0 };
    let (p, _) = resolve_program(parse(lex(&lines(src)).unwrap()).unwrap()).unwrap();
    let t1 = p.to_tacky_numbered(&mut c);
    let (p, _) = resolve_program(parse(lex(&lines(src)).unwrap()).unwrap()).unwrap();
    let t2 = p.to_tacky_numbered(&mut c);
    assert!(format!("{:?}", t1).contains("unary_op.0"));
    assert!(format!("{:?}", t2).contains("unary_op.1"));
    assert_eq!(c.unary, 2);
}

fn run_straight_line(body: &[Instruction]) -> i32 {
    let mut store: std::collections::HashMap<String, i32> = std::collections::HashMap::new();
    let value = |v: &Value, s: &std::collections::HashMap<String, i32>| match v {
        Value::Constant(k) => *k as i32,
        Value::Var(n) => s[n],
    };
    for i in body {
        match i {
            Instruction::Copy { src, dst: Value::Var(d) } => {
                let x = value(src, &store);
                store.insert(d.clone(), x);
            }
            Instruction::UnaryOp { op, src, dst: Value::Var(d) } => {
                let a = value(src, &store);
                let r = match op {
                    UnaryOperator::Complement => !a,
                    UnaryOperator::Negate => a.wrapping_neg(),
                    UnaryOperator::LogicalNot => (a == 0) as i32,
                    _ => panic!("not a machine operation"),
                };
                store.insert(d.clone(), r);
            }
            Instruction::BinaryOp { op, val1, val2, dst: Value::Var(d) } => {
                let (a, b) = (value(val1, &store), value(val2, &store));
                let r = match op {
                    BinaryOperator::Add => a.wrapping_add(b),
                    BinaryOperator::Subtract => a.wrapping_sub(b),
                    BinaryOperator::Multiply => a.wrapping_mul(b),
                    BinaryOperator::Divide => a / b,
                    BinaryOperator::Remainder => a % b,
                    BinaryOperator::BitwiseAnd => a & b,
                    BinaryOperator::BitwiseOr => a | b,
                    BinaryOperator::BitwiseXor => a ^ b,
                    BinaryOperator::Equal => (a == b) as i32,
                    BinaryOperator::NotEqual => (a != b) as i32,
                    BinaryOperator::LessThan => (a < b) as i32,
                    BinaryOperator::GreaterThan => (a > b) as i32,
                    BinaryOperator::LessEqual => (a <= b) as i32,
                    BinaryOperator::GreaterEqual => (a >= b) as i32,
                    _ => panic!("shift"),
                };
                store.insert(d.clone(), r);
            }
            Instruction::Return(v) => return value(v, &store),
            other => panic!("not straight-line: {:?}", other),
        }
    }
    panic!("no return")
}

#[test]
fn lowered_arithmetic_computes_its_value() {
    let (t, _) = tacky("int main(void) { int a = 6; return -(a * 7 - 2) / 3 + !a + (a == 6) - (~a & 5 | 2 ^ 8) % 4; }");
    let a: i32 = 6;
    let expected = -(a * 7 - 2) / 3 + (a == 0) as i32 + (a == 6) as i32 - ((!a & 5 | 2 ^ 8) % 4);
    assert_eq!(run_straight_line(&t.0[0].body), expected);
}
