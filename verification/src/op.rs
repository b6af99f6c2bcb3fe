//! Typed operation views: per-dialect wrappers that present a strongly
//! typed surface over a generic `Operation` obtained by fallible downcast
//! keyed by the operation's name. A failed downcast is a recoverable
//! `TypeMismatch`, never fatal: callers fall back to generic handling.

use vstd::prelude::*;

use crate::dialect::str_eq;
use crate::dialect::str_to_string;
use crate::ir::attr_lookup;
use crate::ir::Attribute;
use crate::ir::AttributeView;
use crate::ir::Operation;
use crate::ir::OperationView;
use crate::IrError;

verus! {

/// The trait every typed operation view implements. The parser produces
/// generic `Operation`s; a view is a fallible cast of one into a typed
/// wrapper such as `FuncOp`.
pub trait Op: Sized {
    /// The structural conditions under which the downcast succeeds: the
    /// right name and the required sub-structure.
    spec fn shape(op: OperationView) -> bool;

    /// The operation name this view stands for.
    spec fn spec_name() -> Seq<char>;

    /// The generic operation underneath the view.
    spec fn inner(&self) -> Operation;

    fn name() -> (r: &'static str)
        ensures
            r@ == Self::spec_name(),
    ;

    /// Downcasts a generic operation; fails with `TypeMismatch` exactly
    /// when the operation does not have this view's shape.
    fn from_operation(operation: Operation) -> (r: Result<Self, IrError>)
        ensures
            r matches Ok(o) ==> o.inner() == operation && Self::shape(operation@),
            r matches Err(e) ==> !Self::shape(operation@) && e matches IrError::TypeMismatch {
                ..
            },
    ;

    /// The view projects through to the generic storage; it never copies
    /// it, so rewrites of the operation are visible through the view.
    fn operation(&self) -> (r: &Operation)
        ensures
            *r == self.inner(),
    ;
}

fn type_mismatch(expected: &str, found: &String) -> (r: IrError)
    ensures
        r matches IrError::TypeMismatch { .. },
{
    IrError::TypeMismatch { expected: str_to_string(expected), found: found.clone() }
}

/// A function definition: `func.func @name(...) -> ... { ... }`.
/// Its formal arguments stand in the operation's operand list and its
/// body is the operation's one region; the symbol name and the return
/// types are attributes.
pub struct FuncOp {
    pub operation: Operation,
}

impl Op for FuncOp {
    open spec fn shape(op: OperationView) -> bool {
        &&& op.name == "func.func"@
        &&& op.regions.len() == 1
        &&& op.result_names.len() == 0
        &&& op.result_types.len() == 0
        &&& attr_lookup(op.attributes, "sym_name"@) matches Some(AttributeView::Str { .. })
        &&& attr_lookup(op.attributes, "return_types"@) matches Some(AttributeView::Types { .. })
    }

    open spec fn spec_name() -> Seq<char> {
        "func.func"@
    }

    open spec fn inner(&self) -> Operation {
        self.operation
    }

    fn name() -> (r: &'static str) {
        "func.func"
    }

    fn from_operation(operation: Operation) -> (r: Result<Self, IrError>) {
        if !str_eq(&operation.name, "func.func") {
            return Err(type_mismatch("func.func", &operation.name));
        }
        if operation.regions.len() != 1 {
            return Err(type_mismatch("func.func", &operation.name));
        }
        if operation.result_names.len() != 0 || operation.result_types.len() != 0 {
            return Err(type_mismatch("func.func", &operation.name));
        }
        match operation.attribute("sym_name") {
            Some(Attribute::StringAttr { .. }) => {},
            _ => {
                return Err(type_mismatch("func.func", &operation.name));
            },
        }
        match operation.attribute("return_types") {
            Some(Attribute::TypeArrayAttr { .. }) => {},
            _ => {
                return Err(type_mismatch("func.func", &operation.name));
            },
        }
        Ok(FuncOp { operation })
    }

    fn operation(&self) -> (r: &Operation) {
        &self.operation
    }
}

impl FuncOp {
    /// The function's symbol name, read from the generic storage.
    pub fn identifier(&self) -> (r: &String)
        requires
            <FuncOp as Op>::shape(self.inner()@),
        ensures
            attr_lookup(self.inner()@.attributes, "sym_name"@) == Some(
                AttributeView::Str { value: r@ },
            ),
    {
        match self.operation.attribute("sym_name") {
            Some(Attribute::StringAttr { value }) => value,
            _ => {
                // unreachable under the shape precondition
                proof {
                    assert(false);
                }
                &self.operation.name
            },
        }
    }
}

/// Integer addition: `%r = arith.addi %a, %b : type`.
pub struct AddiOp {
    pub operation: Operation,
}

impl Op for AddiOp {
    open spec fn shape(op: OperationView) -> bool {
        &&& op.name == "arith.addi"@
        &&& op.operands.len() == 2
        &&& op.result_names.len() == 1
        &&& op.result_types.len() == 1
        &&& op.regions.len() == 0
    }

    open spec fn spec_name() -> Seq<char> {
        "arith.addi"@
    }

    open spec fn inner(&self) -> Operation {
        self.operation
    }

    fn name() -> (r: &'static str) {
        "arith.addi"
    }

    fn from_operation(operation: Operation) -> (r: Result<Self, IrError>) {
        if !str_eq(&operation.name, "arith.addi") {
            return Err(type_mismatch("arith.addi", &operation.name));
        }
        if operation.operands.len() != 2 {
            return Err(type_mismatch("arith.addi", &operation.name));
        }
        if operation.result_names.len() != 1 || operation.result_types.len() != 1 {
            return Err(type_mismatch("arith.addi", &operation.name));
        }
        if operation.regions.len() != 0 {
            return Err(type_mismatch("arith.addi", &operation.name));
        }
        Ok(AddiOp { operation })
    }

    fn operation(&self) -> (r: &Operation) {
        &self.operation
    }
}

/// An integer constant: `%r = arith.constant 42 : type`; the literal and
/// its type stand in the `value` attribute.
pub struct ConstantOp {
    pub operation: Operation,
}

impl Op for ConstantOp {
    open spec fn shape(op: OperationView) -> bool {
        &&& op.name == "arith.constant"@
        &&& op.operands.len() == 0
        &&& op.result_names.len() == 1
        &&& op.result_types.len() == 1
        &&& op.regions.len() == 0
        &&& attr_lookup(op.attributes, "value"@) matches Some(AttributeView::Int { .. })
    }

    open spec fn spec_name() -> Seq<char> {
        "arith.constant"@
    }

    open spec fn inner(&self) -> Operation {
        self.operation
    }

    fn name() -> (r: &'static str) {
        "arith.constant"
    }

    fn from_operation(operation: Operation) -> (r: Result<Self, IrError>) {
        if !str_eq(&operation.name, "arith.constant") {
            return Err(type_mismatch("arith.constant", &operation.name));
        }
        if operation.operands.len() != 0 {
            return Err(type_mismatch("arith.constant", &operation.name));
        }
        if operation.result_names.len() != 1 || operation.result_types.len() != 1 {
            return Err(type_mismatch("arith.constant", &operation.name));
        }
        if operation.regions.len() != 0 {
            return Err(type_mismatch("arith.constant", &operation.name));
        }
        match operation.attribute("value") {
            Some(Attribute::IntegerAttr { .. }) => {},
            _ => {
                return Err(type_mismatch("arith.constant", &operation.name));
            },
        }
        Ok(ConstantOp { operation })
    }

    fn operation(&self) -> (r: &Operation) {
        &self.operation
    }
}

/// A block terminator handing values back: `return %r : type`.
pub struct ReturnOp {
    pub operation: Operation,
}

impl Op for ReturnOp {
    open spec fn shape(op: OperationView) -> bool {
        &&& op.name == "return"@
        &&& op.regions.len() == 0
        &&& op.result_names.len() == 0
    }

    open spec fn spec_name() -> Seq<char> {
        "return"@
    }

    open spec fn inner(&self) -> Operation {
        self.operation
    }

    fn name() -> (r: &'static str) {
        "return"
    }

    fn from_operation(operation: Operation) -> (r: Result<Self, IrError>) {
        if !str_eq(&operation.name, "return") {
            return Err(type_mismatch("return", &operation.name));
        }
        if operation.regions.len() != 0 {
            return Err(type_mismatch("return", &operation.name));
        }
        if operation.result_names.len() != 0 {
            return Err(type_mismatch("return", &operation.name));
        }
        Ok(ReturnOp { operation })
    }

    fn operation(&self) -> (r: &Operation) {
        &self.operation
    }
}

} // verus!
