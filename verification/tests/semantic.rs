use c_compiler::lexer::lex;
use c_compiler::parser::{parse, BlockItem, Declaration, Program, Statement};
use c_compiler::resolve_identifiers::resolve_identifiers;
use c_compiler::resolve_labels::resolve_labels;
use c_compiler::resolve_loops::resolve_loops;
use c_compiler::resolve_lvalues::resolve_lvalues;
use c_compiler::resolve_variables::resolve_variables;
use c_compiler::resolve_types::{resolve_types, IdentifierAttribute, InitialValue, SymbolTable};
use c_compiler::semantic_analysis::{
    get_expression_value, get_primary_value, resolve_program, SemanticError,
};
use c_compiler::types::Constant;

fn lines(src: &str) -> Vec<String> {
    src.lines().map(|l| l.to_string()).collect()
}

fn ast(src: &str) -> Program {
    parse(lex(&lines(src)).unwrap()).unwrap()
}

fn analyse(src: &str) -> Result<(Program, SymbolTable), SemanticError> {
    resolve_program(ast(src))
}

fn body(p: &Program, i: usize) -> &Vec<BlockItem> {
    match &p.0[i] {
        Declaration::Function(f) => &f.body.as_ref().unwrap().0,
        other => panic!("unexpected {:?}", other),
    }
}

#[test]
fn variables_get_fresh_names() {
    let (p, table) = analyse("int main(void) { int a = 1; { int a = 2; } return a; }").unwrap();
    let items = body(&p, 0);
    match &items[0] {
        BlockItem::Declaration(Declaration::Variable(v)) => assert_eq!(v.identifier, "var_a.0"),
        other => panic!("unexpected {:?}", other),
    }
    match &items[1] {
        BlockItem::Statement(Statement::Block(b)) => match &b.0[0] {
            BlockItem::Declaration(Declaration::Variable(v)) => {
                assert_eq!(v.identifier, "var_a.1")
            }
            other => panic!("unexpected {:?}", other),
        },
        other => panic!("unexpected {:?}", other),
    }
    assert!(table.has_symbol("main"));
    assert!(table.has_symbol("var_a.0"));
    assert!(table.has_symbol("var_a.1"));
    assert!(!table.has_symbol("a"));
    assert!(table.is_global_function("main"));
    assert!(!table.is_static_var("var_a.0"));
}

#[test]
fn undeclared_variable() {
    match analyse("int main(void) { return a; }") {
        Err(SemanticError::IdentifierNotDeclared(name)) => assert_eq!(name, "a"),
        other => panic!("unexpected {:?}", other.map(|_| ())),
    }
}

#[test]
fn conflicting_local_declarations() {
    match analyse("int main(void) { int a; int a; return 0; }") {
        Err(SemanticError::ConflictingLocalDeclarations(name)) => assert_eq!(name, "a"),
        other => panic!("unexpected {:?}", other.map(|_| ())),
    }
}

#[test]
fn extern_redeclaration_in_one_scope_is_allowed() {
    assert!(analyse("int main(void) { extern int a; extern int a; return a; } int a = 3;").is_ok());
}

#[test]
fn static_function_in_block() {
    match analyse("int main(void) { static int f(void); return 0; }") {
        Err(SemanticError::InvalidStorageClass(name)) => assert_eq!(name, "f"),
        other => panic!("unexpected {:?}", other.map(|_| ())),
    }
}

#[test]
fn invalid_lvalue() {
    match analyse("int main(void) { 1 = 2; return 0; }") {
        Err(SemanticError::InvalidLvalue(_)) => {}
        other => panic!("unexpected {:?}", other.map(|_| ())),
    }
    match analyse("int main(void) { int a = 0; ++(a + 1); return 0; }") {
        Err(SemanticError::InvalidLvalue(_)) => {}
        other => panic!("unexpected {:?}", other.map(|_| ())),
    }
}

#[test]
fn lvalues_pass_leaves_program_unchanged() {
    let p = resolve_identifiers(ast("int main(void) { int a = 0; a = a + 1; a++; return a; }"))
        .unwrap();
    let before = format!("{:?}", p);
    let after = resolve_lvalues(p).unwrap();
    assert_eq!(format!("{:?}", after), before);
}

#[test]
fn labels_are_renamed_and_gotos_follow() {
    let p = resolve_labels(ast("int main(void) { goto end; end: return 0; }")).unwrap();
    let items = body(&p, 0);
    match &items[0] {
        BlockItem::Statement(Statement::Goto(l)) => assert_eq!(l, "label_end.0"),
        other => panic!("unexpected {:?}", other),
    }
    match &items[1] {
        BlockItem::Statement(Statement::Labeled(l, _)) => assert_eq!(l, "label_end.0"),
        other => panic!("unexpected {:?}", other),
    }
}

#[test]
fn labels_are_per_function() {
    match analyse("int f(void) { x: return 0; } int main(void) { goto x; }") {
        Err(SemanticError::LabelNotDeclared(name)) => assert_eq!(name, "x"),
        other => panic!("unexpected {:?}", other.map(|_| ())),
    }
    assert!(analyse("int f(void) { x: return 0; } int main(void) { x: return 1; }").is_ok());
}

#[test]
fn duplicate_label() {
    match analyse("int main(void) { x: ; x: ; return 0; }") {
        Err(SemanticError::DuplicateLabel(name)) => assert_eq!(name, "x"),
        other => panic!("unexpected {:?}", other.map(|_| ())),
    }
}

#[test]
fn loops_get_labels() {
    let p = resolve_loops(ast(
        "int main(void) { while (1) { break; } for (;;) continue; do { } while (0); return 0; }",
    ))
    .unwrap();
    let items = body(&p, 0);
    match &items[0] {
        BlockItem::Statement(Statement::While { label, body, .. }) => {
            assert_eq!(label.as_deref(), Some("loop_while.0"));
            match &**body {
                Statement::Block(b) => match &b.0[0] {
                    BlockItem::Statement(Statement::Break(l)) => {
                        assert_eq!(l.as_deref(), Some("loop_while.0"))
                    }
                    other => panic!("unexpected {:?}", other),
                },
                other => panic!("unexpected {:?}", other),
            }
        }
        other => panic!("unexpected {:?}", other),
    }
    match &items[1] {
        BlockItem::Statement(Statement::For { label, body, .. }) => {
            assert_eq!(label.as_deref(), Some("loop_for.1"));
            assert!(matches!(&**body, Statement::Continue(Some(l)) if l == "loop_for.1"));
        }
        other => panic!("unexpected {:?}", other),
    }
    match &items[2] {
        BlockItem::Statement(Statement::DoWhile { label, .. }) => {
            assert_eq!(label.as_deref(), Some("loop_do_while.2"))
        }
        other => panic!("unexpected {:?}", other),
    }
}

#[test]
fn switch_collects_cases() {
    let p = resolve_loops(ast(
        "int main(void) { switch (3) { case 1: break; case 3: return 1; default: ; } return 0; }",
    ))
    .unwrap();
    match &body(&p, 0)[0] {
        BlockItem::Statement(Statement::Switch { label, cases, default_exists, .. }) => {
            assert_eq!(label.as_deref(), Some("switch.0"));
            assert_eq!(cases, &vec![Constant::Int(1), Constant::Int(3)]);
            assert!(*default_exists);
        }
        other => panic!("unexpected {:?}", other),
    }
}

#[test]
fn break_outside_loop() {
    assert!(matches!(
        analyse("int main(void) { break; }").map(|_| ()),
        Err(SemanticError::BreakNotWithinLoopOrSwitch)
    ));
}

#[test]
fn continue_in_switch_outside_loop() {
    assert!(matches!(
        analyse("int main(void) { switch (1) { case 1: continue; } return 0; }").map(|_| ()),
        Err(SemanticError::ContinueNotWithinLoop)
    ));
}

#[test]
fn case_and_default_outside_switch() {
    assert!(matches!(
        analyse("int main(void) { case 1: return 0; }").map(|_| ()),
        Err(SemanticError::CaseNotWithinSwitch)
    ));
    assert!(matches!(
        analyse("int main(void) { default: return 0; }").map(|_| ()),
        Err(SemanticError::DefaultNotWithinSwitch)
    ));
}

#[test]
fn duplicate_case_and_default() {
    assert!(matches!(
        analyse("int main(void) { switch (1) { case 1: case 1: ; } return 0; }").map(|_| ()),
        Err(SemanticError::DuplicateCaseValue(Constant::Int(1)))
    ));
    assert!(matches!(
        analyse("int main(void) { switch (1) { default: default: ; } return 0; }").map(|_| ()),
        Err(SemanticError::DuplicateDefaultLabel)
    ));
}

#[test]
fn non_constant_case() {
    assert!(matches!(
        analyse("int main(void) { int a = 1; switch (a) { case a: ; } return 0; }").map(|_| ()),
        Err(SemanticError::NonConstantExpression)
    ));
}

#[test]
fn incompatible_function_declarations() {
    match analyse("int f(int a); int f(int a, int b);") {
        Err(SemanticError::IncompatibleFunctionDeclaration(name)) => assert_eq!(name, "f"),
        other => panic!("unexpected {:?}", other.map(|_| ())),
    }
}

#[test]
fn function_defined_twice() {
    match analyse("int f(void) { return 1; } int f(void) { return 2; }") {
        Err(SemanticError::FunctionDefinedMoreThanOnce(name)) => assert_eq!(name, "f"),
        other => panic!("unexpected {:?}", other.map(|_| ())),
    }
}

#[test]
fn static_after_non_static() {
    match analyse("int f(void); static int f(void);") {
        Err(SemanticError::StaticAfterNonStatic(name)) => assert_eq!(name, "f"),
        other => panic!("unexpected {:?}", other.map(|_| ())),
    }
}

#[test]
fn wrong_argument_count() {
    match analyse("int f(int a); int main(void) { return f(); }") {
        Err(SemanticError::TypeMismatch(msg)) => {
            assert_eq!(msg, "Function f expects 1 arguments, but 0 were provided")
        }
        other => panic!("unexpected {:?}", other.map(|_| ())),
    }
}

#[test]
fn variable_called_as_function() {
    match analyse("int main(void) { int a = 3; return a(); }") {
        Err(SemanticError::TypeMismatch(msg)) => {
            assert_eq!(msg, "Expected function, found variable: var_a.0")
        }
        other => panic!("unexpected {:?}", other.map(|_| ())),
    }
}

#[test]
fn function_used_as_variable() {
    match analyse("int f(void); int main(void) { return f + 1; }") {
        Err(SemanticError::TypeMismatch(msg)) => {
            assert_eq!(msg, "Expected variable, found function: f")
        }
        other => panic!("unexpected {:?}", other.map(|_| ())),
    }
}

#[test]
fn file_scope_variables_merge() {
    let (_, table) = analyse("int x; int x = 3; extern int x; static int y;").unwrap();
    assert!(table.has_symbol("x"));
    assert!(table.is_static_var("x"));
    let entry = table.symbols.get(&"x".to_string()).unwrap();
    assert_eq!(entry.1, IdentifierAttribute::Static { init: InitialValue::Initial(3), global: true });
    let entry = table.symbols.get(&"y".to_string()).unwrap();
    assert_eq!(entry.1, IdentifierAttribute::Static { init: InitialValue::Tentative, global: false });
}

#[test]
fn conflicting_file_scope_declarations() {
    match analyse("int x = 1; int x = 2;") {
        Err(SemanticError::ConflictingFileScopeDeclarations(name)) => assert_eq!(name, "x"),
        other => panic!("unexpected {:?}", other.map(|_| ())),
    }
    match analyse("static int x; int x;") {
        Err(SemanticError::ConflictingVariableLinkage(name)) => assert_eq!(name, "x"),
        other => panic!("unexpected {:?}", other.map(|_| ())),
    }
}

#[test]
fn initialiser_on_local_extern() {
    match analyse("int main(void) { extern int a = 1; return 0; }") {
        Err(SemanticError::InitOnLocalExtern(name)) => assert_eq!(name, "a"),
        other => panic!("unexpected {:?}", other.map(|_| ())),
    }
}

#[test]
fn local_static_needs_constant() {
    assert!(matches!(
        analyse("int main(void) { int a = 1; static int b = a; return b; }").map(|_| ()),
        Err(SemanticError::NonConstantExpression)
    ));
    let (_, table) = analyse("int main(void) { static int b = 4; return b; }").unwrap();
    let entry = table.symbols.get(&"var_b.0".to_string()).unwrap();
    assert_eq!(entry.1, IdentifierAttribute::Static { init: InitialValue::Initial(4), global: false });
}

#[test]
fn storage_class_in_for_initialiser() {
    match analyse("int main(void) { for (static int i = 0; i < 3; i = i + 1) ; return 0; }") {
        Err(SemanticError::InvalidStorageClass(msg)) => {
            assert_eq!(msg, "Storage class in for loop initialiser")
        }
        other => panic!("unexpected {:?}", other.map(|_| ())),
    }
}

#[test]
fn types_pass_returns_program_unchanged() {
    let p = resolve_identifiers(ast("int f(int a) { return a; } int main(void) { return f(1); }"))
        .unwrap();
    let before = format!("{:?}", p);
    let (after, table) = resolve_types(p).unwrap();
    assert_eq!(format!("{:?}", after), before);
    assert!(table.has_symbol("f"));
    assert!(table.has_symbol("var_a.0"));
}

#[test]
fn constant_values() {
    let p = ast("int main(void) { return ((7)); }");
    match &body(&p, 0)[0] {
        BlockItem::Statement(Statement::Return(e)) => {
            assert_eq!(get_expression_value(&e.expression), Some(Constant::Int(7)));
            match &e.expression {
                c_compiler::parser::Expression::Factor(c_compiler::parser::Factor::Postfix(pf)) => {
                    assert_eq!(get_primary_value(&pf.primary), Some(Constant::Int(7)))
                }
                other => panic!("unexpected {:?}", other),
            }
        }
        other => panic!("unexpected {:?}", other),
    }
    let p = ast("int main(void) { return -7; }");
    match &body(&p, 0)[0] {
        BlockItem::Statement(Statement::Return(e)) => {
            assert_eq!(get_expression_value(&e.expression), None)
        }
        other => panic!("unexpected {:?}", other),
    }
}

#[test]
fn call_of_undeclared_function_is_an_error() {
    match analyse("int main(void) { return f(); }") {
        Err(SemanticError::IdentifierNotDeclared(name)) => assert_eq!(name, "f"),
        other => panic!("unexpected {:?}", other.map(|_| ())),
    }
}

#[test]
fn every_goto_names_a_label_of_its_function() {
    let p = resolve_labels(ast(
        "int main(void) { a: if (1) goto b; else goto a; b: while (1) { c: goto c; } }",
    ))
    .unwrap();
    let text = format!("{:?}", p);
    for target in ["label_a.0", "label_b.1", "label_c.2"] {
        assert!(text.contains(&format!("Goto(\"{}\")", target)));
        assert!(text.contains(&format!("Labeled(\"{}\"", target)));
    }
}

#[test]
fn single_scope_variables() {
    let p = resolve_variables(ast("int main(void) { int a = 1; { int b = a; } return b; }")).unwrap();
    match &body(&p, 0)[2] {
        BlockItem::Statement(Statement::Return(e)) => {
            assert!(format!("{:?}", e).contains("Var(\"var_b.1\")"))
        }
        other => panic!("unexpected {:?}", other),
    }
    match resolve_variables(ast("int main(void) { int a; { int a; } return 0; }")) {
        Err(SemanticError::IdentifierAlreadyDeclared(name)) => assert_eq!(name, "a"),
        other => panic!("unexpected {:?}", other.map(|_| ())),
    }
    match resolve_variables(ast("int main(void) { return x; }")) {
        Err(SemanticError::IdentifierNotDeclared(name)) => assert_eq!(name, "x"),
        other => panic!("unexpected {:?}", other.map(|_| ())),
    }
    let p = resolve_variables(ast("int f(int a) { return a; } int g;")).unwrap();
    match &p.0[0] {
        Declaration::Function(f) => assert_eq!(f.parameters.0, vec!["var_a.0".to_string()]),
        other => panic!("unexpected {:?}", other),
    }
    match &p.0[1] {
        Declaration::Variable(v) => assert_eq!(v.identifier, "g"),
        other => panic!("unexpected {:?}", other),
    }
}

#[test]
fn numbering_carries_on_across_programs() {
    use_numbering();
}

fn use_numbering() {
    let mut n = c_compiler::semantic_analysis::NameCounters::new();
    let src = "int main(void) { int a = 0; x: while (a) { a = a - 1; } goto x; }";
    let (p1, _) = c_compiler::semantic_analysis::resolve_program_numbered(ast(src), &mut n).unwrap();
    let (p2, _) = c_compiler::semantic_analysis::resolve_program_numbered(ast(src), &mut n).unwrap();
    let t1 = format!("{:?}", p1);
    let t2 = format!("{:?}", p2);
    assert!(t1.contains("var_a.0") && t1.contains("label_x.0") && t1.contains("loop_while.0"));
    assert!(t2.contains("var_a.1") && t2.contains("label_x.1") && t2.contains("loop_while.1"));
    assert_eq!(n.variables, 2);
    assert_eq!(n.labels, 2);
    assert_eq!(n.loops.loops, 2);
}
