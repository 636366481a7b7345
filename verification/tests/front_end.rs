use c_compiler::lexer::{lex, IntErrorKind, Keyword, LexerError, Location, Symbol, Token, TokenType};
use c_compiler::names::numbered_name;
use c_compiler::parser::{
    parse, BlockItem, Declaration, Expression, Factor, ParserError, Primary, Statement,
    StorageClass,
};
use c_compiler::types::{Constant, IsType, Type};

fn lines(src: &str) -> Vec<String> {
    src.lines().map(|l| l.to_string()).collect()
}

fn token_types(src: &str) -> Vec<TokenType> {
    lex(&lines(src)).unwrap().into_iter().map(|Token(t, _)| t).collect()
}

#[test]
fn lex_return_two() {
    assert_eq!(
        token_types("int main(void) { return 2; }"),
        vec![
            TokenType::Keyword(Keyword::Int),
            TokenType::Identifier("main".to_string()),
            TokenType::Symbol(Symbol::OpenParen),
            TokenType::Keyword(Keyword::Void),
            TokenType::Symbol(Symbol::CloseParen),
            TokenType::Symbol(Symbol::OpenBrace),
            TokenType::Keyword(Keyword::Return),
            TokenType::Constant(2),
            TokenType::Symbol(Symbol::Semicolon),
            TokenType::Symbol(Symbol::CloseBrace),
            TokenType::EndOfFile,
        ]
    );
}

#[test]
fn lex_locations_count_lines_and_columns() {
    let tokens = lex(&lines("int\n  x;")).unwrap();
    assert_eq!(tokens[0].1, Location { line: 1, start: 0, end: 3 });
    assert_eq!(tokens[1].1, Location { line: 2, start: 2, end: 3 });
    assert_eq!(tokens[2].1, Location { line: 2, start: 3, end: 4 });
    assert_eq!(tokens[3].0, TokenType::EndOfFile);
    assert_eq!(tokens[3].1.line, 3);
}

#[test]
fn lex_compound_operators() {
    assert_eq!(
        token_types("a += b-- << 2 >>= c != d && e || !f ? g : h"),
        vec![
            TokenType::Identifier("a".to_string()),
            TokenType::Symbol(Symbol::PlusEqual),
            TokenType::Identifier("b".to_string()),
            TokenType::Symbol(Symbol::DoubleHyphen),
            TokenType::Symbol(Symbol::DoubleLt),
            TokenType::Constant(2),
            TokenType::Symbol(Symbol::DoubleGtEqual),
            TokenType::Identifier("c".to_string()),
            TokenType::Symbol(Symbol::NotEqual),
            TokenType::Identifier("d".to_string()),
            TokenType::Symbol(Symbol::DoubleAmp),
            TokenType::Identifier("e".to_string()),
            TokenType::Symbol(Symbol::DoubleBar),
            TokenType::Symbol(Symbol::Exclamation),
            TokenType::Identifier("f".to_string()),
            TokenType::Symbol(Symbol::Question),
            TokenType::Identifier("g".to_string()),
            TokenType::Symbol(Symbol::Colon),
            TokenType::Identifier("h".to_string()),
            TokenType::EndOfFile,
        ]
    );
}

#[test]
fn lex_keywords_and_identifiers() {
    assert_eq!(
        token_types("switch case default static extern returns"),
        vec![
            TokenType::Keyword(Keyword::Switch),
            TokenType::Keyword(Keyword::Case),
            TokenType::Keyword(Keyword::Default),
            TokenType::Keyword(Keyword::Static),
            TokenType::Keyword(Keyword::Extern),
            TokenType::Identifier("returns".to_string()),
            TokenType::EndOfFile,
        ]
    );
}

#[test]
fn lex_unknown_character() {
    assert_eq!(
        lex(&lines("int x = 1 @ 2;")),
        Err(LexerError::UnknownToken { line: 1, column: 11, character: '@' })
    );
}

#[test]
fn lex_literal_too_large() {
    match lex(&lines("99999999999")) {
        Err(LexerError::ParseIntError(kind, loc)) => {
            assert_eq!(kind, IntErrorKind::PosOverflow);
            assert_eq!(loc, Location { line: 1, start: 0, end: 11 });
        }
        other => panic!("unexpected {:?}", other),
    }
}

#[test]
fn lex_literal_followed_by_letter() {
    match lex(&lines("12ab")) {
        Err(LexerError::ParseIntError(kind, _)) => assert_eq!(kind, IntErrorKind::InvalidDigit),
        other => panic!("unexpected {:?}", other),
    }
}

#[test]
fn parse_return_two() {
    let program = parse(lex(&lines("int main(void) { return 2; }")).unwrap()).unwrap();
    assert_eq!(program.0.len(), 1);
    match &program.0[0] {
        Declaration::Function(f) => {
            assert_eq!(f.identifier, "main");
            assert!(f.parameters.0.is_empty());
            let body = f.body.as_ref().unwrap();
            assert_eq!(body.0.len(), 1);
            match &body.0[0] {
                BlockItem::Statement(Statement::Return(e)) => match &e.expression {
                    Expression::Factor(Factor::Postfix(p)) => {
                        assert!(p.postfix.is_empty());
                        assert!(matches!(p.primary, Primary::Constant(Constant::Int(2))));
                    }
                    other => panic!("unexpected {:?}", other),
                },
                other => panic!("unexpected {:?}", other),
            }
        }
        other => panic!("unexpected {:?}", other),
    }
}

#[test]
fn parse_large_literal_is_long() {
    let program = parse(lex(&lines("long x = 3000000000;")).unwrap()).unwrap();
    match &program.0[0] {
        Declaration::Variable(v) => {
            assert_eq!(v.identifier, "x");
            assert_eq!(v.ty, Type::Long);
            match &v.initialiser.as_ref().unwrap().expression {
                Expression::Factor(Factor::Postfix(p)) => {
                    assert!(matches!(p.primary, Primary::Constant(Constant::Long(3000000000))))
                }
                other => panic!("unexpected {:?}", other),
            }
        }
        other => panic!("unexpected {:?}", other),
    }
}

#[test]
fn parse_storage_classes_and_parameters() {
    let program =
        parse(lex(&lines("static int f(int a, int b); extern int g;")).unwrap()).unwrap();
    match &program.0[0] {
        Declaration::Function(f) => {
            assert_eq!(f.storage_class, Some(StorageClass::Static));
            assert_eq!(f.parameters.0, vec!["a".to_string(), "b".to_string()]);
            assert!(f.body.is_none());
        }
        other => panic!("unexpected {:?}", other),
    }
    match &program.0[1] {
        Declaration::Variable(v) => assert_eq!(v.storage_class, Some(StorageClass::Extern)),
        other => panic!("unexpected {:?}", other),
    }
}

#[test]
fn parse_missing_semicolon() {
    match parse(lex(&lines("int main(void) { return 2 }")).unwrap()) {
        Err(ParserError::UnexpectedToken { found, .. }) => {
            assert_eq!(found.0, TokenType::Symbol(Symbol::CloseBrace))
        }
        other => panic!("unexpected {:?}", other),
    }
}

#[test]
fn parse_two_storage_classes() {
    assert!(matches!(
        parse(lex(&lines("static extern int x;")).unwrap()),
        Err(ParserError::InvalidStorageClass)
    ));
}

#[test]
fn parse_empty_token_list() {
    assert!(matches!(parse(Vec::new()), Err(ParserError::TypeError(_))));
}

#[test]
fn type_from_tokens() {
    let toks = lex(&lines("long int")).unwrap();
    assert_eq!(Type::from_tokens(&toks[..2]).unwrap(), Type::Long);
    assert_eq!(Type::from_tokens(&toks[1..2]).unwrap(), Type::Int);
    assert!(Type::from_tokens(&toks[..0]).is_err());
}

#[test]
fn common_type_and_params() {
    assert_eq!(Type::Int.get_common_type(&Type::Int), Type::Int);
    assert_eq!(Type::Int.get_common_type(&Type::Long), Type::Long);
    let f = Type::Function { params: vec![Type::Int], return_type: Box::new(Type::Long) };
    assert_eq!(f.get_function_params(), Some(&vec![Type::Int]));
    assert_eq!(Type::Int.get_function_params(), None);
    assert!(Keyword::Long.is_type());
    assert!(!Keyword::Return.is_type());
}

#[test]
fn constants_convert() {
    assert_eq!(Constant::Int(-3).to_integer(), Some(-3));
    assert_eq!(Constant::Long(5).to_type(), Type::Long);
    assert_eq!(Constant::zero_with_type(&Type::Int), Some(Constant::Int(0)));
    assert_eq!(Constant::Long(4294967297).cast_to_type(Type::Int), Some(Constant::Int(1)));
    assert_eq!(Constant::Int(7).cast_to_type(Type::Long), Some(Constant::Long(7)));
}

#[test]
fn fresh_names() {
    assert_eq!(numbered_name("label_", "end", 12), "label_end.12");
    assert_eq!(numbered_name("switch", "", 0), "switch.0");
    assert_ne!(numbered_name("label_", "a.1", 2), numbered_name("label_", "a", 12));
    assert_ne!(numbered_name("var_", "x", 10), numbered_name("var_", "x", 1));
}

#[test]
fn location_text() {
    assert_eq!(Location { line: 3, start: 10, end: 12 }.to_string(), "line 3, columns 10-12");
}

#[test]
fn name_map_later_binding_wins() {
    let mut m: c_compiler::name_map::NameMap<String> = c_compiler::name_map::NameMap::new();
    m.insert("a".to_string(), "first".to_string());
    m.insert("b".to_string(), "other".to_string());
    m.insert("a".to_string(), "second".to_string());
    assert_eq!(m.get(&"a".to_string()), Some(&"second".to_string()));
    assert_eq!(m.get(&"b".to_string()), Some(&"other".to_string()));
    assert_eq!(m.get(&"c".to_string()), None);
    assert!(m.contains_key(&"b".to_string()));
    assert!(!m.contains_key(&"c".to_string()));
}

#[test]
fn symbol_locations_cover_their_columns() {
    let tokens = lex(&lines("a += b;")).unwrap();
    assert_eq!(tokens[0].1, Location { line: 1, start: 0, end: 1 });
    assert_eq!(tokens[1].1, Location { line: 1, start: 2, end: 4 });
    assert_eq!(tokens[2].1, Location { line: 1, start: 5, end: 6 });
    assert_eq!(tokens[3].1, Location { line: 1, start: 6, end: 7 });
}
