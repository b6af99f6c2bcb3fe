//! The printer: renders IR back to the textual form the parser consumes.
//! Every operation prints as `%results = dialect.mnemonic operands : types`,
//! recursively for nested regions; function-like operations print their
//! signature line and brace-wrapped body, the target dialect's constant
//! prints in its parenthesised form. What the executable printer emits is
//! pinned, character for character, to the specification-level text.

use vstd::assert_seqs_equal;
use vstd::prelude::*;
use vstd::string::StringExecFns;

use crate::digits::decimal_string;
use crate::digits::spec_decimal;
use crate::dialect::str_eq;
use crate::ir::attr_lookup;
use crate::ir::Attribute;
use crate::ir::AttributeView;
use crate::ir::BlockView;
use crate::ir::Module;
use crate::ir::ModuleView;
use crate::ir::Operation;
use crate::ir::OperationView;
use crate::ir::RegionView;
use crate::ir::Type;
use crate::ir::Value;
use crate::ir::ValueView;

verus! {

broadcast use vstd::std_specs::vec::group_vec_axioms, vstd::string::group_string_axioms;

/// Pieces joined by a comma and a space: `a, b, c`.
pub open spec fn comma_join(items: Seq<Seq<char>>) -> Seq<char>
    decreases items.len(),
{
    if items.len() == 0 {
        Seq::empty()
    } else if items.len() == 1 {
        items[0]
    } else {
        comma_join(items.drop_last()) + ", "@ + items.last()
    }
}

pub proof fn lemma_comma_join_push(items: Seq<Seq<char>>, x: Seq<char>)
    ensures
        comma_join(items.push(x)) == if items.len() == 0 {
            x
        } else {
            comma_join(items) + ", "@ + x
        },
{
    assert(items.push(x).drop_last() =~= items);
    assert(items.push(x).last() == x);
    if items.len() == 0 {
        assert(items.push(x)[0] == x);
    }
}

/// A block argument or operand with its type: `%arg0 : i64`.
pub open spec fn print_value_text(v: ValueView) -> Seq<char> {
    v.name + " : "@ + v.typ
}

/// The signature's return types: nothing, ` -> i64`, or ` -> (i64, i64)`.
pub open spec fn ret_suffix(types: Seq<Seq<char>>) -> Seq<char> {
    if types.len() == 0 {
        Seq::empty()
    } else if types.len() == 1 {
        " -> "@ + types[0]
    } else {
        " -> ("@ + comma_join(types) + ")"@
    }
}

/// The result binding prefix: nothing or `%0 = `.
pub open spec fn results_prefix(names: Seq<Seq<char>>) -> Seq<char> {
    if names.len() == 0 {
        Seq::empty()
    } else {
        comma_join(names) + " = "@
    }
}

/// The trailing types: the declared result types, else the first
/// operand's type (as a terminator prints it), else nothing.
pub open spec fn type_suffix(op: OperationView) -> Seq<char> {
    if op.result_types.len() > 0 {
        " : "@ + comma_join(op.result_types)
    } else if op.operands.len() > 0 {
        " : "@ + op.operands[0].typ
    } else {
        Seq::empty()
    }
}

/// A function-like operation: one body region, a symbol name and return
/// types as attributes.
pub open spec fn is_function_form(op: OperationView) -> bool {
    &&& op.regions.len() == 1
    &&& attr_lookup(op.attributes, "sym_name"@) matches Some(AttributeView::Str { .. })
    &&& attr_lookup(op.attributes, "return_types"@) matches Some(AttributeView::Types { .. })
}

/// A constant-like operation: no regions, an integer `value` attribute.
pub open spec fn is_constant_form(op: OperationView) -> bool {
    &&& op.regions.len() == 0
    &&& attr_lookup(op.attributes, "value"@) matches Some(AttributeView::Int { .. })
}

/// The canonical text of one operation at an indentation prefix,
/// ending with a newline; bodies recurse one indentation step deeper.
pub open spec fn spec_print_op(op: OperationView, ind: Seq<char>) -> Seq<char>
    decreases op,
{
    if is_function_form(op) {
        match (attr_lookup(op.attributes, "sym_name"@), attr_lookup(
            op.attributes,
            "return_types"@,
        )) {
            (Some(AttributeView::Str { value: sym }), Some(AttributeView::Types { types })) => ind
                + op.name + " "@ + sym + "("@ + comma_join(
                op.operands.map_values(|v: ValueView| print_value_text(v)),
            ) + ")"@ + ret_suffix(types) + " {"@ + "\n"@ + spec_print_region(
                op.regions[0],
                ind + "  "@,
            ) + ind + "}"@ + "\n"@,
            _ => Seq::empty(),
        }
    } else if is_constant_form(op) {
        match attr_lookup(op.attributes, "value"@) {
            Some(AttributeView::Int { value, typ }) => if op.name == "llvm.mlir.constant"@ {
                ind + results_prefix(op.result_names) + op.name + "("@ + spec_decimal(value as nat)
                    + " : "@ + typ + ")"@ + " : "@ + comma_join(op.result_types) + "\n"@
            } else {
                ind + results_prefix(op.result_names) + op.name + " "@ + spec_decimal(value as nat)
                    + " : "@ + typ + "\n"@
            },
            _ => Seq::empty(),
        }
    } else if op.regions.len() == 0 {
        ind + results_prefix(op.result_names) + op.name + (if op.operands.len() > 0 {
            " "@ + comma_join(op.operands.map_values(|v: ValueView| v.name))
        } else {
            Seq::empty()
        }) + type_suffix(op) + "\n"@
    } else {
        ind + results_prefix(op.result_names) + op.name + " {"@ + "\n"@ + spec_print_regions(
            op.regions,
            ind + "  "@,
        ) + ind + "}"@ + "\n"@
    }
}

pub open spec fn spec_print_regions(rs: Seq<RegionView>, ind: Seq<char>) -> Seq<char>
    decreases rs,
{
    if rs.len() == 0 {
        Seq::empty()
    } else {
        spec_print_regions(rs.drop_last(), ind) + spec_print_region(rs[rs.len() - 1], ind)
    }
}

pub open spec fn spec_print_region(region: RegionView, ind: Seq<char>) -> Seq<char>
    decreases region,
{
    spec_print_blocks(region.blocks, ind)
}

pub open spec fn spec_print_blocks(bs: Seq<BlockView>, ind: Seq<char>) -> Seq<char>
    decreases bs,
{
    if bs.len() == 0 {
        Seq::empty()
    } else {
        spec_print_blocks(bs.drop_last(), ind) + spec_print_block(bs[bs.len() - 1], ind)
    }
}

pub open spec fn spec_print_block(block: BlockView, ind: Seq<char>) -> Seq<char>
    decreases block,
{
    spec_print_ops(block.operations, ind)
}

pub open spec fn spec_print_ops(ops: Seq<OperationView>, ind: Seq<char>) -> Seq<char>
    decreases ops,
{
    if ops.len() == 0 {
        Seq::empty()
    } else {
        spec_print_ops(ops.drop_last(), ind) + spec_print_op(ops[ops.len() - 1], ind)
    }
}

/// The canonical text of a whole module: its top-level operations, not
/// indented.
pub open spec fn spec_print_module(m: ModuleView) -> Seq<char> {
    spec_print_region(m.region, Seq::empty())
}

/// Joins owned pieces with `, `.
fn join_comma(pieces: &Vec<String>) -> (r: String)
    ensures
        r@ == comma_join(pieces@.map_values(|s: String| s@)),
{
    let ghost m = pieces@.map_values(|s: String| s@);
    let mut r = String::new();
    let mut i: usize = 0;
    while i < pieces.len()
        invariant
            i <= pieces@.len(),
            m == pieces@.map_values(|s: String| s@),
            m.len() == pieces@.len(),
            r@ == comma_join(m.subrange(0, i as int)),
        decreases pieces@.len() - i,
    {
        if i > 0 {
            r.append(", ");
        }
        r.append(pieces[i].as_str());
        proof {
            lemma_comma_join_push(m.subrange(0, i as int), m[i as int]);
            assert(m.subrange(0, i + 1 as int) =~= m.subrange(0, i as int).push(m[i as int]));
            if i == 0 {
                assert(r@ =~= comma_join(m.subrange(0, 1)));
            }
        }
        i = i + 1;
    }
    proof {
        assert(m.subrange(0, m.len() as int) =~= m);
    }
    r
}

/// The operands' names as owned pieces.
fn operand_name_pieces(operands: &Vec<Value>) -> (r: Vec<String>)
    ensures
        r@.map_values(|s: String| s@) =~= operands@.map_values(|v: Value| v@.name),
{
    let mut r: Vec<String> = Vec::new();
    let mut i: usize = 0;
    while i < operands.len()
        invariant
            i <= operands@.len(),
            r@.len() == i,
            forall|k: int| 0 <= k < i ==> (#[trigger] r@[k])@ == operands@[k]@.name,
        decreases operands@.len() - i,
    {
        r.push(operands[i].name().clone());
        i = i + 1;
    }
    r
}

/// The operands with their types, `%arg0 : i64`, as owned pieces.
fn argument_pieces(operands: &Vec<Value>) -> (r: Vec<String>)
    ensures
        r@.map_values(|s: String| s@) =~= operands@.map_values(
            |v: Value| print_value_text(v@),
        ),
{
    let mut r: Vec<String> = Vec::new();
    let mut i: usize = 0;
    while i < operands.len()
        invariant
            i <= operands@.len(),
            r@.len() == i,
            forall|k: int| 0 <= k < i ==> (#[trigger] r@[k])@ == print_value_text(operands@[k]@),
        decreases operands@.len() - i,
    {
        let mut piece = operands[i].name().clone();
        piece.append(" : ");
        piece.append(operands[i].typ().name.as_str());
        r.push(piece);
        i = i + 1;
    }
    r
}

/// The types' names as owned pieces.
fn type_pieces(types: &Vec<Type>) -> (r: Vec<String>)
    ensures
        r@.map_values(|s: String| s@) =~= types@.map_values(|t: Type| t@),
{
    let mut r: Vec<String> = Vec::new();
    let mut i: usize = 0;
    while i < types.len()
        invariant
            i <= types@.len(),
            r@.len() == i,
            forall|k: int| 0 <= k < i ==> (#[trigger] r@[k])@ == types@[k]@,
        decreases types@.len() - i,
    {
        r.push(types[i].name.clone());
        i = i + 1;
    }
    r
}

/// Prints one operation at an indentation prefix.
#[verifier::rlimit(100)]
fn print_op_ind(op: &Operation, ind: &String) -> (r: String)
    ensures
        r@ == spec_print_op(op@, ind@),
    decreases *op,
{
    let function_form: bool = if op.regions.len() == 1 {
        let sym_ok = match op.attribute("sym_name") {
            Some(Attribute::StringAttr { .. }) => true,
            _ => false,
        };
        let ret_ok = match op.attribute("return_types") {
            Some(Attribute::TypeArrayAttr { .. }) => true,
            _ => false,
        };
        sym_ok && ret_ok
    } else {
        false
    };
    if function_form {
        let mut s = ind.clone();
        s.append(op.name.as_str());
        s.append(" ");
        match op.attribute("sym_name") {
            Some(Attribute::StringAttr { value }) => {
                s.append(value.as_str());
            },
            _ => {
                proof {
                    assert(false);
                }
            },
        }
        s.append("(");
        let args = argument_pieces(&op.operands);
        let joined = join_comma(&args);
        proof {
            assert(args@.map_values(|s: String| s@) =~= op@.operands.map_values(
                |v: ValueView| print_value_text(v),
            ));
        }
        s.append(joined.as_str());
        s.append(")");
        match op.attribute("return_types") {
            Some(Attribute::TypeArrayAttr { types }) => {
                if types.len() == 1 {
                    s.append(" -> ");
                    s.append(types[0].name.as_str());
                } else if types.len() > 1 {
                    s.append(" -> (");
                    let pieces = type_pieces(types);
                    let joined_types = join_comma(&pieces);
                    s.append(joined_types.as_str());
                    s.append(")");
                }
            },
            _ => {
                proof {
                    assert(false);
                }
            },
        }
        s.append(" {");
        s.append("\n");
        let mut child_ind = ind.clone();
        child_ind.append("  ");
        proof {
            crate::ir::lemma_region_views(op.regions@);
        }
        let body = print_region_ind(&op.regions[0], &child_ind);
        s.append(body.as_str());
        s.append(ind.as_str());
        s.append("}");
        s.append("\n");
        proof {
            assert(s@ =~= spec_print_op(op@, ind@));
        }
        return s;
    }
    let constant_form: bool = if op.regions.len() == 0 {
        match op.attribute("value") {
            Some(Attribute::IntegerAttr { .. }) => true,
            _ => false,
        }
    } else {
        false
    };
    if constant_form {
        let mut s = ind.clone();
        if op.result_names.len() > 0 {
            let names = crate::ir::clone_strings(&op.result_names);
            let joined = join_comma(&names);
            s.append(joined.as_str());
            s.append(" = ");
        }
        s.append(op.name.as_str());
        let paren = str_eq(&op.name, "llvm.mlir.constant");
        match op.attribute("value") {
            Some(Attribute::IntegerAttr { value, typ }) => {
                if paren {
                    s.append("(");
                    let digits = decimal_string(*value);
                    s.append(digits.as_str());
                    s.append(" : ");
                    s.append(typ.name.as_str());
                    s.append(")");
                    s.append(" : ");
                    let pieces = type_pieces(&op.result_types);
                    let joined_types = join_comma(&pieces);
                    s.append(joined_types.as_str());
                } else {
                    s.append(" ");
                    let digits = decimal_string(*value);
                    s.append(digits.as_str());
                    s.append(" : ");
                    s.append(typ.name.as_str());
                }
            },
            _ => {
                proof {
                    assert(false);
                }
            },
        }
        s.append("\n");
        proof {
            assert_seqs_equal!(s@ == spec_print_op(op@, ind@));
        }
        return s;
    }
    if op.regions.len() == 0 {
        let mut s = ind.clone();
        if op.result_names.len() > 0 {
            let names = crate::ir::clone_strings(&op.result_names);
            let joined = join_comma(&names);
            s.append(joined.as_str());
            s.append(" = ");
        }
        s.append(op.name.as_str());
        if op.operands.len() > 0 {
            s.append(" ");
            let pieces = operand_name_pieces(&op.operands);
            let joined = join_comma(&pieces);
            proof {
                assert(pieces@.map_values(|s: String| s@) =~= op@.operands.map_values(
                    |v: ValueView| v.name,
                ));
            }
            s.append(joined.as_str());
        }
        if op.result_types.len() > 0 {
            s.append(" : ");
            let pieces = type_pieces(&op.result_types);
            let joined = join_comma(&pieces);
            s.append(joined.as_str());
        } else if op.operands.len() > 0 {
            s.append(" : ");
            s.append(op.operands[0].typ().name.as_str());
        }
        s.append("\n");
        proof {
            assert(s@ =~= spec_print_op(op@, ind@));
        }
        return s;
    }
    let mut s = ind.clone();
    if op.result_names.len() > 0 {
        let names = crate::ir::clone_strings(&op.result_names);
        let joined = join_comma(&names);
        s.append(joined.as_str());
        s.append(" = ");
    }
    s.append(op.name.as_str());
    s.append(" {");
    s.append("\n");
    let mut child_ind = ind.clone();
    child_ind.append("  ");
    let mut i: usize = 0;
    let ghost rsv = op@.regions;
    proof {
        crate::ir::lemma_region_views(op.regions@);
    }
    let mut body = String::new();
    while i < op.regions.len()
        invariant
            i <= op.regions@.len(),
            rsv == op@.regions,
            rsv == crate::ir::region_views(op.regions@),
            rsv.len() == op.regions@.len(),
            forall|k: int| 0 <= k < op.regions@.len() ==> rsv[k] == op.regions@[k]@,
            child_ind@ == ind@ + "  "@,
            body@ == spec_print_regions(rsv.subrange(0, i as int), child_ind@),
        decreases op.regions@.len() - i,
    {
        let piece = print_region_ind(&op.regions[i], &child_ind);
        body.append(piece.as_str());
        proof {
            assert(rsv.subrange(0, i + 1 as int).drop_last() =~= rsv.subrange(0, i as int));
            assert(rsv.subrange(0, i + 1 as int).last() == rsv[i as int]);
        }
        i = i + 1;
    }
    proof {
        assert(rsv.subrange(0, rsv.len() as int) =~= rsv);
    }
    s.append(body.as_str());
    s.append(ind.as_str());
    s.append("}");
    s.append("\n");
    proof {
        assert_seqs_equal!(s@ == spec_print_op(op@, ind@));
    }
    s
}

/// Prints a region: its blocks' operations in order.
fn print_region_ind(region: &crate::ir::Region, ind: &String) -> (r: String)
    ensures
        r@ == spec_print_region(region@, ind@),
    decreases *region,
{
    let ghost bsv = region@.blocks;
    proof {
        crate::ir::lemma_block_views(region.blocks@);
    }
    let mut s = String::new();
    let mut i: usize = 0;
    while i < region.blocks.len()
        invariant
            i <= region.blocks@.len(),
            bsv == region@.blocks,
            bsv.len() == region.blocks@.len(),
            forall|k: int| 0 <= k < region.blocks@.len() ==> bsv[k] == region.blocks@[k]@,
            s@ == spec_print_blocks(bsv.subrange(0, i as int), ind@),
        decreases region.blocks@.len() - i,
    {
        let piece = print_block_ind(&region.blocks[i], ind);
        s.append(piece.as_str());
        proof {
            assert(bsv.subrange(0, i + 1 as int).drop_last() =~= bsv.subrange(0, i as int));
            assert(bsv.subrange(0, i + 1 as int).last() == bsv[i as int]);
        }
        i = i + 1;
    }
    proof {
        assert(bsv.subrange(0, bsv.len() as int) =~= bsv);
    }
    s
}

/// Prints a block: its operations in order.
fn print_block_ind(block: &crate::ir::Block, ind: &String) -> (r: String)
    ensures
        r@ == spec_print_block(block@, ind@),
    decreases *block,
{
    let ghost opsv = block@.operations;
    proof {
        crate::ir::lemma_op_views(block.operations@);
    }
    let mut piece = String::new();
    let mut j: usize = 0;
    while j < block.operations.len()
        invariant
            j <= block.operations@.len(),
            opsv == block@.operations,
            opsv.len() == block.operations@.len(),
            forall|k: int| 0 <= k < block.operations@.len() ==> opsv[k] == block.operations@[k]@,
            piece@ == spec_print_ops(opsv.subrange(0, j as int), ind@),
        decreases block.operations@.len() - j,
    {
        let text = print_op_ind(&block.operations[j], ind);
        piece.append(text.as_str());
        proof {
            assert(opsv.subrange(0, j + 1 as int).drop_last() =~= opsv.subrange(0, j as int));
            assert(opsv.subrange(0, j + 1 as int).last() == opsv[j as int]);
        }
        j = j + 1;
    }
    proof {
        assert(opsv.subrange(0, opsv.len() as int) =~= opsv);
    }
    piece
}

/// Prints one operation, not indented.
pub fn print_operation(op: &Operation) -> (r: String)
    ensures
        r@ == spec_print_op(op@, Seq::empty()),
{
    let ind = String::new();
    print_op_ind(op, &ind)
}

/// Renders a module back to the textual form the parser consumes.
pub fn print_module(module: &Module) -> (r: String)
    ensures
        r@ == spec_print_module(module@),
{
    let ind = String::new();
    print_region_ind(&module.region, &ind)
}

} // verus!
