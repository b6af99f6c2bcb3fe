use xrcf::dialect::default_registry;
use xrcf::dialect::str_eq;
use xrcf::dialect::Arith;
use xrcf::dialect::DialectRegistry;
use xrcf::dialect::Func;
use xrcf::dialect::Llvm;
use xrcf::dialect::OpKind;
use xrcf::digits::decimal_string;
use xrcf::digits::decimal_value;
use xrcf::ir::Attribute;
use xrcf::ir::Block;
use xrcf::ir::NamedAttribute;
use xrcf::ir::Operation;
use xrcf::ir::Type;
use xrcf::ir::Value;
use xrcf::op::AddiOp;
use xrcf::op::ConstantOp;
use xrcf::op::FuncOp;
use xrcf::op::Op;
use xrcf::op::ReturnOp;
use xrcf::Dialect;
use xrcf::IrError;

#[test]
fn dialect_names_and_descriptions() {
    assert_eq!(Arith.name(), "arith");
    assert_eq!(Arith.description(), "Arithmetic operations.");
    assert_eq!(Func.name(), "func");
    assert_eq!(Llvm.name(), "llvm");
}

#[test]
fn registry_lookup_finds_registered_names() {
    let registry = default_registry();
    assert_eq!(
        registry.lookup(&"arith.addi".to_string()),
        Some(OpKind::Binary)
    );
    assert_eq!(
        registry.lookup(&"func.func".to_string()),
        Some(OpKind::Function)
    );
    assert_eq!(
        registry.lookup(&"llvm.mlir.constant".to_string()),
        Some(OpKind::Constant)
    );
    assert_eq!(registry.lookup(&"return".to_string()), Some(OpKind::Return));
    assert_eq!(registry.lookup(&"foo.bar".to_string()), None);
}

#[test]
fn registration_is_additive_and_order_independent() {
    let mut ab = DialectRegistry::new();
    Arith::register(&mut ab);
    Func::register(&mut ab);
    let mut ba = DialectRegistry::new();
    Func::register(&mut ba);
    Arith::register(&mut ba);
    for name in ["arith.addi", "arith.constant", "func.func", "return"] {
        assert_eq!(ab.lookup(&name.to_string()), ba.lookup(&name.to_string()));
        assert!(ab.lookup(&name.to_string()).is_some());
    }
}

fn addi_operation() -> Operation {
    let mut op = Operation::new();
    op.set_name("arith.addi".to_string());
    op.set_operands(vec![
        Value::BlockArgument {
            name: "%a".to_string(),
            typ: Type::new("i64".to_string()),
        },
        Value::BlockArgument {
            name: "%b".to_string(),
            typ: Type::new("i64".to_string()),
        },
    ]);
    op.set_result_names(vec!["%0".to_string()]);
    op.set_result_types(vec![Type::new("i64".to_string())])
        .unwrap();
    op
}

#[test]
fn downcast_matching_operation_succeeds() {
    let op = addi_operation();
    let addi = AddiOp::from_operation(op).unwrap();
    assert_eq!(addi.operation().name, "arith.addi");
    assert_eq!(AddiOp::name(), "arith.addi");
}

#[test]
fn downcast_wrong_name_is_type_mismatch() {
    let op = addi_operation();
    let r = FuncOp::from_operation(op);
    assert!(matches!(r, Err(IrError::TypeMismatch { .. })));
}

#[test]
fn downcast_missing_structure_is_type_mismatch() {
    let mut op = Operation::new();
    op.set_name("arith.constant".to_string());
    // no `value` attribute attached
    let r = ConstantOp::from_operation(op);
    assert!(matches!(r, Err(IrError::TypeMismatch { .. })));
    let mut ret = Operation::new();
    ret.set_name("return".to_string());
    assert!(ReturnOp::from_operation(ret).is_ok());
}

#[test]
fn constant_downcast_succeeds_with_value_attribute() {
    let mut op = Operation::new();
    op.set_name("arith.constant".to_string());
    op.set_result_names(vec!["%0".to_string()]);
    op.set_result_types(vec![Type::new("i64".to_string())])
        .unwrap();
    op.set_attributes(vec![NamedAttribute {
        name: "value".to_string(),
        attribute: Attribute::IntegerAttr {
            value: 42,
            typ: Type::new("i64".to_string()),
        },
    }]);
    let constant = ConstantOp::from_operation(op).unwrap();
    match constant.operation().attribute("value") {
        Some(Attribute::IntegerAttr { value, .. }) => assert_eq!(*value, 42),
        _ => panic!("expected the value attribute"),
    }
}

#[test]
fn malformed_operation_on_arity_mismatch() {
    let mut op = Operation::new();
    op.set_result_names(vec!["%0".to_string()]);
    let r = op.set_result_types(vec![]);
    assert!(matches!(r, Err(IrError::MalformedOperation)));
    let ok = op.set_result_types(vec![Type::new("i64".to_string())]);
    assert!(ok.is_ok());
}

#[test]
fn operation_results_surface_names_and_types() {
    let op = addi_operation();
    let results = op.results();
    assert_eq!(results.len(), 1);
    assert_eq!(results[0].name(), "%0");
    assert_eq!(results[0].typ().name, "i64");
}

#[test]
fn block_insert_and_remove_preserve_order() {
    let mut block = Block::new();
    let mut first = Operation::new();
    first.set_name("a.one".to_string());
    let mut second = Operation::new();
    second.set_name("a.two".to_string());
    let mut third = Operation::new();
    third.set_name("a.three".to_string());
    block.insert_op(0, first);
    block.insert_op(1, third);
    block.insert_op(1, second);
    assert_eq!(block.operations[0].name, "a.one");
    assert_eq!(block.operations[1].name, "a.two");
    assert_eq!(block.operations[2].name, "a.three");
    let removed = block.remove_op(1);
    assert_eq!(removed.name, "a.two");
    assert_eq!(block.operations.len(), 2);
    assert_eq!(block.operations[1].name, "a.three");
}

#[test]
fn decimal_writing_exact_values() {
    assert_eq!(decimal_string(0), "0");
    assert_eq!(decimal_string(7), "7");
    assert_eq!(decimal_string(42), "42");
    assert_eq!(decimal_string(12345), "12345");
    assert_eq!(decimal_string(u64::MAX), "18446744073709551615");
}

#[test]
fn decimal_reading_exact_values() {
    assert_eq!(decimal_value(&vec!['4', '2']), Some(42));
    assert_eq!(decimal_value(&vec!['0']), Some(0));
    assert_eq!(
        decimal_value(&"18446744073709551615".chars().collect::<Vec<char>>()),
        Some(u64::MAX)
    );
    assert_eq!(decimal_value(&"18446744073709551616".chars().collect::<Vec<char>>()), None);
}

#[test]
fn str_eq_compares_text() {
    assert!(str_eq(&"arith.addi".to_string(), "arith.addi"));
    assert!(!str_eq(&"arith.addi".to_string(), "arith.subi"));
}

#[test]
fn funcop_identifier_projects_through() {
    let src = "func.func @main() -> i64 {\n  %0 = arith.constant 2 : i64\n  return %0 : i64\n}\n";
    let module = xrcf::parser::Parser::parse(default_registry(), src).unwrap();
    let printed = xrcf::printer::print_operation(module.first_op().unwrap());
    assert!(printed.contains("@main"));
}
