use xrcf::convert::convert_func_to_llvm;
use xrcf::convert::transform;
use xrcf::convert::Passes;
use xrcf::dialect::default_registry;
use xrcf::ir::Block;
use xrcf::ir::Module;
use xrcf::ir::Operation;
use xrcf::ir::Region;
use xrcf::ir::Value;
use xrcf::parser::Parser;
use xrcf::printer::print_module;
use xrcf::IrError;

fn parse(src: &str) -> Module {
    Parser::parse(default_registry(), src).unwrap()
}

#[test]
fn end_to_end_constant_lowering() {
    let src = "func.func @main() -> i64 {\n  %0 = arith.constant 42 : i64\n  return %0 : i64\n}\n";
    let module = parse(src);
    let passes = Passes::single("convert-func-to-llvm");
    let lowered = transform(module, &passes).unwrap();
    let printed = print_module(&lowered);
    let expected = "llvm.func @main() -> i64 {\n  %0 = llvm.mlir.constant(42 : i64) : i64\n  llvm.return %0 : i64\n}\n";
    assert_eq!(printed, expected);
}

#[test]
fn end_to_end_add_one_lowering() {
    let src = "func.func @add_one(%arg0 : i32) -> i32 {\n  %0 = arith.constant 1 : i32\n  %1 = arith.addi %0, %arg0 : i32\n  return %1 : i32\n}\n";
    let module = parse(src);
    let passes = Passes::single("convert-func-to-llvm");
    let lowered = transform(module, &passes).unwrap();
    let printed = print_module(&lowered);
    let expected = "llvm.func @add_one(%arg0 : i32) -> i32 {\n  %0 = llvm.mlir.constant(1 : i32) : i32\n  %1 = llvm.add %0, %arg0 : i32\n  llvm.return %1 : i32\n}\n";
    assert_eq!(printed, expected);
}

#[test]
fn conversion_determinism() {
    let src = "func.func @f(%a : i64) -> i64 {\n  %0 = arith.addi %a, %a : i64\n  return %0 : i64\n}\n";
    let passes = Passes::single("convert-func-to-llvm");
    let once = transform(parse(src), &passes).unwrap();
    let twice = transform(parse(src), &passes).unwrap();
    assert_eq!(print_module(&once), print_module(&twice));
}

fn check_arity(op: &Operation) {
    assert_eq!(op.result_names.len(), op.result_types.len());
    for region in &op.regions {
        for block in &region.blocks {
            for inner in &block.operations {
                check_arity(inner);
            }
        }
    }
}

fn count_uses(op: &Operation, name: &str) -> usize {
    let own = if op.regions.is_empty() {
        op.operands.iter().filter(|v| v.name() == name).count()
    } else {
        0
    };
    let nested: usize = op
        .regions
        .iter()
        .flat_map(|r| r.blocks.iter())
        .flat_map(|b| b.operations.iter())
        .map(|o| count_uses(o, name))
        .sum();
    own + nested
}

fn count_uses_module(m: &Module, name: &str) -> usize {
    m.region
        .blocks
        .iter()
        .flat_map(|b| b.operations.iter())
        .map(|o| count_uses(o, name))
        .sum()
}

#[test]
fn conversion_preserves_use_counts() {
    let src = "func.func @f(%a : i32) -> i32 {\n  %0 = arith.constant 1 : i32\n  %1 = arith.addi %0, %a : i32\n  return %1 : i32\n}\n";
    let module = parse(src);
    let uses_before_0 = count_uses_module(&module, "%0");
    let uses_before_1 = count_uses_module(&module, "%1");
    let uses_before_a = count_uses_module(&module, "%a");
    let lowered = convert_func_to_llvm(&module).unwrap();
    assert_eq!(count_uses_module(&lowered, "%0"), uses_before_0);
    assert_eq!(count_uses_module(&lowered, "%1"), uses_before_1);
    assert_eq!(count_uses_module(&lowered, "%a"), uses_before_a);
    assert_eq!(uses_before_0, 1);
    assert_eq!(uses_before_1, 1);
    assert_eq!(uses_before_a, 1);
}

#[test]
fn conversion_preserves_result_names() {
    let src = "func.func @f() -> i64 {\n  %0 = arith.constant 3 : i64\n  return %0 : i64\n}\n";
    let module = parse(src);
    let lowered = convert_func_to_llvm(&module).unwrap();
    let func = &lowered.region.blocks[0].operations[0];
    let constant = &func.regions[0].blocks[0].operations[0];
    assert_eq!(constant.name, "llvm.mlir.constant");
    assert_eq!(constant.result_names.len(), 1);
    assert_eq!(constant.result_names[0], "%0");
}

#[test]
fn unsupported_conversion_aborts_and_keeps_input() {
    let mut op = Operation::new();
    op.set_name("arith.muli".to_string());
    let module = Module {
        region: Region {
            blocks: vec![Block {
                arguments: vec![],
                operations: vec![op],
            }],
        },
    };
    let r = convert_func_to_llvm(&module);
    assert!(matches!(r, Err(IrError::UnsupportedConversion { .. })));
    assert_eq!(module.region.blocks[0].operations[0].name, "arith.muli");
}

#[test]
fn foreign_dialect_passes_through_unchanged() {
    let mut op = Operation::new();
    op.set_name("other.thing".to_string());
    op.set_operands(vec![Value::OpResult {
        name: "%x".to_string(),
        typ: xrcf::ir::Type::new("i64".to_string()),
    }]);
    let module = Module {
        region: Region {
            blocks: vec![Block {
                arguments: vec![],
                operations: vec![op],
            }],
        },
    };
    let lowered = convert_func_to_llvm(&module).unwrap();
    assert_eq!(lowered.region.blocks[0].operations[0].name, "other.thing");
    assert_eq!(lowered.region.blocks[0].operations[0].operands.len(), 1);
}

#[test]
fn unknown_pass_name_fails_pipeline() {
    let src = "func.func @f() -> i64 {\n  %0 = arith.constant 2 : i64\n  return %0 : i64\n}\n";
    let module = parse(src);
    let passes = Passes::single("no-such-pass");
    let r = transform(module, &passes);
    assert!(matches!(r, Err(IrError::UnsupportedConversion { .. })));
}

#[test]
fn arity_invariant_after_conversion() {
    let src = "func.func @f(%a : i32) -> i32 {\n  %0 = arith.constant 1 : i32\n  %1 = arith.addi %0, %a : i32\n  return %1 : i32\n}\n";
    let module = parse(src);
    let lowered = convert_func_to_llvm(&module).unwrap();
    for block in &lowered.region.blocks {
        for op in &block.operations {
            check_arity(op);
        }
    }
}

#[test]
fn lowered_output_parses_back() {
    let src = "func.func @main() -> i64 {\n  %0 = arith.constant 42 : i64\n  return %0 : i64\n}\n";
    let module = parse(src);
    let lowered = convert_func_to_llvm(&module).unwrap();
    let printed = print_module(&lowered);
    let reparsed = Parser::parse(default_registry(), &printed).unwrap();
    assert_eq!(print_module(&reparsed), printed);
}
