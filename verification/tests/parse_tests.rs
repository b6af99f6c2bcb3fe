use xrcf::dialect::default_registry;
use xrcf::ir::Operation;
use xrcf::parser::Parser;
use xrcf::printer::print_module;
use xrcf::printer::print_operation;
use xrcf::token::lex;
use xrcf::token::TokenKind;
use xrcf::IrError;

#[test]
fn parse_func() {
    let src = "
          func.func @test_addi(%arg0 : i64, %arg1 : i64) -> i64 {
            %0 = arith.addi %arg0, %arg1 : i64
            return %0 : i64
          }
        ";
    let module = Parser::parse(default_registry(), src).unwrap();
    let op = module.first_op().unwrap();
    let repr = print_operation(op);
    let lines = repr.lines().collect::<Vec<&str>>();
    assert_eq!(
        lines[0],
        "func.func @test_addi(%arg0 : i64, %arg1 : i64) -> i64 {"
    );
}

#[test]
fn round_trip_tokens() {
    let src = "func.func @f(%a : i64, %b : i64) -> i64 {\n  %0 = arith.addi %a, %b : i64\n  return %0 : i64\n}\n";
    let module = Parser::parse(default_registry(), src).unwrap();
    let printed = print_module(&module);
    let original_tokens = lex(src).unwrap();
    let printed_tokens = lex(&printed).unwrap();
    assert_eq!(original_tokens.len(), printed_tokens.len());
    for i in 0..original_tokens.len() {
        assert_eq!(original_tokens[i].kind, printed_tokens[i].kind);
        assert_eq!(original_tokens[i].lexeme, printed_tokens[i].lexeme);
    }
}

#[test]
fn round_trip_fixed_point() {
    let src = "func.func @f(%a : i64) -> i64 {\n  return %a : i64\n}\n";
    let module = Parser::parse(default_registry(), src).unwrap();
    let printed = print_module(&module);
    let module2 = Parser::parse(default_registry(), &printed).unwrap();
    let printed2 = print_module(&module2);
    assert_eq!(printed, printed2);
}

#[test]
fn scoping_unbound_name_is_syntax_error() {
    let src = "func.func @f() -> i64 {\n  return %x : i64\n}\n";
    let r = Parser::parse(default_registry(), src);
    assert!(matches!(r, Err(IrError::SyntaxError { .. })));
}

#[test]
fn scoping_block_argument_and_prior_result_succeed() {
    let src = "func.func @f(%a : i64) -> i64 {\n  %0 = arith.addi %a, %a : i64\n  %1 = arith.addi %0, %a : i64\n  return %1 : i64\n}\n";
    let module = Parser::parse(default_registry(), src).unwrap();
    let op = module.first_op().unwrap();
    assert_eq!(op.name, "func.func");
}

#[test]
fn scoping_result_does_not_escape_region() {
    let src = "func.func @f() -> i64 {\n  %0 = arith.constant 1 : i64\n  return %0 : i64\n}\nfunc.func @g() -> i64 {\n  return %0 : i64\n}\n";
    let r = Parser::parse(default_registry(), src);
    assert!(matches!(r, Err(IrError::SyntaxError { .. })));
}

#[test]
fn unknown_operation_is_syntax_error() {
    let src = "func.func @f() -> i64 {\n  foo.bar\n}\n";
    let r = Parser::parse(default_registry(), src);
    assert!(matches!(r, Err(IrError::SyntaxError { .. })));
}

#[test]
fn unknown_top_level_operation_is_syntax_error() {
    let r = Parser::parse(default_registry(), "blah");
    assert!(matches!(r, Err(IrError::SyntaxError { .. })));
}

fn assert_arity(op: &Operation) {
    assert_eq!(op.result_names.len(), op.result_types.len());
    for region in &op.regions {
        for block in &region.blocks {
            for inner in &block.operations {
                assert_arity(inner);
            }
        }
    }
}

#[test]
fn arity_invariant_after_parse() {
    let src = "func.func @f(%a : i64) -> i64 {\n  %0 = arith.constant 7 : i64\n  %1 = arith.addi %0, %a : i64\n  return %1 : i64\n}\n";
    let module = Parser::parse(default_registry(), src).unwrap();
    for block in &module.region.blocks {
        for op in &block.operations {
            assert_arity(op);
        }
    }
}

#[test]
fn parser_identifier_reads_symbol() {
    let tokens = lex("@main").unwrap();
    let mut parser = Parser::new(default_registry(), tokens);
    let name = parser.identifier(TokenKind::AtIdentifier).unwrap();
    assert_eq!(name, "@main");
}

#[test]
fn parser_identifier_wrong_kind_is_syntax_error() {
    let tokens = lex("main").unwrap();
    let mut parser = Parser::new(default_registry(), tokens);
    let r = parser.identifier(TokenKind::AtIdentifier);
    assert!(matches!(r, Err(IrError::SyntaxError { .. })));
}

#[test]
fn parser_block_arguments_reads_typed_arguments() {
    let tokens = lex("%a : i64, %b : i32)").unwrap();
    let mut parser = Parser::new(default_registry(), tokens);
    let args = parser.block_arguments().unwrap();
    assert_eq!(args.len(), 2);
    assert_eq!(args[0].name(), "%a");
    assert_eq!(args[0].typ().name, "i64");
    assert_eq!(args[1].name(), "%b");
    assert_eq!(args[1].typ().name, "i32");
}

#[test]
fn parser_block_argument_without_type_defaults() {
    let tokens = lex("%a)").unwrap();
    let mut parser = Parser::new(default_registry(), tokens);
    let arg = parser.block_argument().unwrap();
    assert_eq!(arg.name(), "%a");
    assert_eq!(arg.typ().name, "any");
}

#[test]
fn parser_arguments_resolves_in_scope() {
    let tokens = lex("%a, %b :").unwrap();
    let mut parser = Parser::new(default_registry(), tokens);
    parser.scope.push(xrcf::ir::Value::BlockArgument {
        name: "%a".to_string(),
        typ: xrcf::ir::Type::new("i64".to_string()),
    });
    parser.scope.push(xrcf::ir::Value::BlockArgument {
        name: "%b".to_string(),
        typ: xrcf::ir::Type::new("i64".to_string()),
    });
    let operands = parser.arguments().unwrap();
    assert_eq!(operands.len(), 2);
    assert_eq!(operands[0].name(), "%a");
    assert_eq!(operands[1].name(), "%b");
}

#[test]
fn parser_argument_unbound_is_syntax_error() {
    let tokens = lex("%nope").unwrap();
    let mut parser = Parser::new(default_registry(), tokens);
    let r = parser.argument();
    assert!(matches!(r, Err(IrError::SyntaxError { .. })));
}

#[test]
fn parser_result_types_reads_arrow_types() {
    let tokens = lex("-> i64").unwrap();
    let mut parser = Parser::new(default_registry(), tokens);
    let types = parser.result_types().unwrap();
    assert_eq!(types.len(), 1);
    assert_eq!(types[0].name, "i64");
}

#[test]
fn parser_result_types_empty_without_arrow() {
    let tokens = lex("{").unwrap();
    let mut parser = Parser::new(default_registry(), tokens);
    let types = parser.result_types().unwrap();
    assert_eq!(types.len(), 0);
}

#[test]
fn constant_literal_too_large_is_syntax_error() {
    let src = "func.func @f() -> i64 {\n  %0 = arith.constant 99999999999999999999999 : i64\n  return %0 : i64\n}\n";
    let r = Parser::parse(default_registry(), src);
    assert!(matches!(r, Err(IrError::SyntaxError { .. })));
}

#[test]
fn lexer_rejects_stray_character() {
    assert!(matches!(lex("&"), Err(IrError::SyntaxError { .. })));
    assert!(matches!(lex("%"), Err(IrError::SyntaxError { .. })));
    assert!(matches!(lex("- 1"), Err(IrError::SyntaxError { .. })));
}

#[test]
fn lexer_token_kinds() {
    let tokens = lex("func.func @f(%a : i64) -> { } = , 42").unwrap();
    let kinds: Vec<TokenKind> = tokens.iter().map(|t| t.kind).collect();
    assert_eq!(
        kinds,
        vec![
            TokenKind::BareIdentifier,
            TokenKind::AtIdentifier,
            TokenKind::LParen,
            TokenKind::PercentIdentifier,
            TokenKind::Colon,
            TokenKind::IntType,
            TokenKind::RParen,
            TokenKind::Arrow,
            TokenKind::LBrace,
            TokenKind::RBrace,
            TokenKind::Equal,
            TokenKind::Comma,
            TokenKind::Integer,
            TokenKind::Eof,
        ]
    );
}

#[test]
fn empty_function_round_trips() {
    let src = "func.func @empty() {\n}\n";
    let module = Parser::parse(default_registry(), src).unwrap();
    let printed = print_module(&module);
    assert_eq!(printed, "func.func @empty() {\n}\n");
    let reparsed = Parser::parse(default_registry(), &printed).unwrap();
    assert_eq!(print_module(&reparsed), printed);
}

#[test]
fn parser_result_types_parenthesised_form() {
    let tokens = lex("-> (i64, i32)").unwrap();
    let mut parser = Parser::new(default_registry(), tokens);
    let types = parser.result_types().unwrap();
    assert_eq!(types.len(), 2);
    assert_eq!(types[0].name, "i64");
    assert_eq!(types[1].name, "i32");
}

#[test]
fn multi_result_signature_round_trips() {
    let src = "func.func @pair(%a : i64) -> (i64, i32) {\n  return %a : i64\n}\n";
    let module = Parser::parse(default_registry(), src).unwrap();
    let printed = print_module(&module);
    assert_eq!(printed, src);
    let reparsed = Parser::parse(default_registry(), &printed).unwrap();
    assert_eq!(print_module(&reparsed), printed);
}

#[test]
fn unclosed_result_type_parens_is_syntax_error() {
    let src = "func.func @f() -> (i64 {\n}\n";
    let r = Parser::parse(default_registry(), src);
    assert!(matches!(r, Err(IrError::SyntaxError { .. })));
}

#[test]
fn binary_missing_colon_is_syntax_error() {
    let src = "func.func @f(%a : i64) -> i64 {\n  %0 = arith.addi %a, %a\n}\n";
    let r = Parser::parse(default_registry(), src);
    assert!(matches!(r, Err(IrError::SyntaxError { .. })));
}

#[test]
fn return_with_colon_needs_type() {
    let src = "func.func @f(%a : i64) -> i64 {\n  return %a :\n}\n";
    let r = Parser::parse(default_registry(), src);
    assert!(matches!(r, Err(IrError::SyntaxError { .. })));
}

#[test]
fn binding_without_equal_is_syntax_error() {
    let src = "func.func @f() -> i64 {\n  %0 arith.constant 1 : i64\n}\n";
    let r = Parser::parse(default_registry(), src);
    assert!(matches!(r, Err(IrError::SyntaxError { .. })));
}
