//! The pass pipeline: an ordered sequence of named transformations. The
//! one conversion pass of the minimal set lowers the function and
//! arithmetic dialects into the low-level target dialect, replacing each
//! operation in place and keeping every result name, so that every use
//! of an original result lands on the corresponding new result.
//!
//! A pass is atomic: it answers a fresh module and leaves its input
//! untouched, so a failed pass leaves no partially-converted module
//! visible to the caller.

use vstd::prelude::*;

use crate::dialect::str_eq;
use crate::dialect::str_to_string;
use crate::ir::blocks_uses;
use crate::ir::clone_attributes;
use crate::ir::clone_strings;
use crate::ir::clone_types;
use crate::ir::clone_values;
use crate::ir::lemma_block_views;
use crate::ir::lemma_op_views;
use crate::ir::lemma_region_views;
use crate::ir::op_views;
use crate::ir::ops_uses;
use crate::ir::regions_uses;
use crate::ir::Block;
use crate::ir::BlockView;
use crate::ir::Module;
use crate::ir::ModuleView;
use crate::ir::Operation;
use crate::ir::OperationView;
use crate::ir::Region;
use crate::ir::RegionView;
use crate::IrError;

verus! {

broadcast use vstd::std_specs::vec::group_vec_axioms, vstd::string::group_string_axioms;

/// Whether `p` starts `s`.
pub open spec fn has_prefix(s: Seq<char>, p: Seq<char>) -> bool {
    s.len() >= p.len() && s.subrange(0, p.len() as int) == p
}

/// The names the lowering's source-dialect filter claims: the function
/// dialect, the arithmetic dialect, and the bare terminator.
pub open spec fn in_source_filter(name: Seq<char>) -> bool {
    has_prefix(name, "func."@) || has_prefix(name, "arith."@) || name == "return"@
}

/// The names the lowering has a rule for.
pub open spec fn has_rule(name: Seq<char>) -> bool {
    name == "func.func"@ || name == "arith.constant"@ || name == "arith.addi"@ || name
        == "return"@
}

/// What a name becomes under the lowering; names outside the filter pass
/// through unchanged.
pub open spec fn convert_name(name: Seq<char>) -> Seq<char> {
    if name == "func.func"@ {
        "llvm.func"@
    } else if name == "arith.constant"@ {
        "llvm.mlir.constant"@
    } else if name == "arith.addi"@ {
        "llvm.add"@
    } else if name == "return"@ {
        "llvm.return"@
    } else {
        name
    }
}

/// An operation converts when every name inside its tree that the filter
/// claims also has a rule.
pub open spec fn op_convertible(op: OperationView) -> bool
    decreases op,
{
    &&& (in_source_filter(op.name) ==> has_rule(op.name))
    &&& regions_convertible(op.regions)
}

pub open spec fn regions_convertible(rs: Seq<RegionView>) -> bool
    decreases rs,
{
    if rs.len() == 0 {
        true
    } else {
        regions_convertible(rs.drop_last()) && region_convertible(rs[rs.len() - 1])
    }
}

pub open spec fn region_convertible(region: RegionView) -> bool
    decreases region,
{
    blocks_convertible(region.blocks)
}

pub open spec fn blocks_convertible(bs: Seq<BlockView>) -> bool
    decreases bs,
{
    if bs.len() == 0 {
        true
    } else {
        blocks_convertible(bs.drop_last()) && block_convertible(bs[bs.len() - 1])
    }
}

pub open spec fn block_convertible(block: BlockView) -> bool
    decreases block,
{
    ops_convertible(block.operations)
}

pub open spec fn ops_convertible(ops: Seq<OperationView>) -> bool
    decreases ops,
{
    if ops.len() == 0 {
        true
    } else {
        ops_convertible(ops.drop_last()) && op_convertible(ops[ops.len() - 1])
    }
}

/// The lowering itself: the name is rewritten, operands, results and
/// attributes stay as they are, nested regions convert recursively.
pub open spec fn spec_convert_op(op: OperationView) -> OperationView
    decreases op,
{
    OperationView {
        name: convert_name(op.name),
        regions: spec_convert_regions(op.regions),
        ..op
    }
}

pub open spec fn spec_convert_regions(rs: Seq<RegionView>) -> Seq<RegionView>
    decreases rs,
{
    if rs.len() == 0 {
        Seq::empty()
    } else {
        spec_convert_regions(rs.drop_last()).push(spec_convert_region(rs[rs.len() - 1]))
    }
}

pub open spec fn spec_convert_region(region: RegionView) -> RegionView
    decreases region,
{
    RegionView { blocks: spec_convert_blocks(region.blocks) }
}

pub open spec fn spec_convert_blocks(bs: Seq<BlockView>) -> Seq<BlockView>
    decreases bs,
{
    if bs.len() == 0 {
        Seq::empty()
    } else {
        spec_convert_blocks(bs.drop_last()).push(spec_convert_block(bs[bs.len() - 1]))
    }
}

pub open spec fn spec_convert_block(block: BlockView) -> BlockView
    decreases block,
{
    BlockView { arguments: block.arguments, operations: spec_convert_ops(block.operations) }
}

pub open spec fn spec_convert_ops(ops: Seq<OperationView>) -> Seq<OperationView>
    decreases ops,
{
    if ops.len() == 0 {
        Seq::empty()
    } else {
        spec_convert_ops(ops.drop_last()).push(spec_convert_op(ops[ops.len() - 1]))
    }
}

pub open spec fn module_convertible(m: ModuleView) -> bool {
    region_convertible(m.region)
}

pub open spec fn spec_convert_module(m: ModuleView) -> ModuleView {
    ModuleView { region: spec_convert_region(m.region) }
}

pub proof fn lemma_spec_convert_regions_pointwise(rs: Seq<RegionView>)
    ensures
        spec_convert_regions(rs).len() == rs.len(),
        forall|i: int| 0 <= i < rs.len() ==> spec_convert_regions(rs)[i] == spec_convert_region(
            rs[i],
        ),
        regions_convertible(rs) <==> (forall|i: int|
            0 <= i < rs.len() ==> region_convertible(#[trigger] rs[i])),
    decreases rs.len(),
{
    if rs.len() > 0 {
        lemma_spec_convert_regions_pointwise(rs.drop_last());
        assert forall|i: int| 0 <= i < rs.len() implies spec_convert_regions(rs)[i]
            == spec_convert_region(rs[i]) by {
            if i < rs.len() - 1 {
                assert(rs.drop_last()[i] == rs[i]);
            }
        }
        assert forall|i: int| 0 <= i < rs.len() - 1 implies (region_convertible(rs.drop_last()[i])
            == region_convertible(#[trigger] rs[i])) by {
            assert(rs.drop_last()[i] == rs[i]);
        }
    }
}

pub proof fn lemma_spec_convert_blocks_pointwise(bs: Seq<BlockView>)
    ensures
        spec_convert_blocks(bs).len() == bs.len(),
        forall|i: int| 0 <= i < bs.len() ==> spec_convert_blocks(bs)[i] == spec_convert_block(
            bs[i],
        ),
        blocks_convertible(bs) <==> (forall|i: int|
            0 <= i < bs.len() ==> block_convertible(#[trigger] bs[i])),
    decreases bs.len(),
{
    if bs.len() > 0 {
        lemma_spec_convert_blocks_pointwise(bs.drop_last());
        assert forall|i: int| 0 <= i < bs.len() implies spec_convert_blocks(bs)[i]
            == spec_convert_block(bs[i]) by {
            if i < bs.len() - 1 {
                assert(bs.drop_last()[i] == bs[i]);
            }
        }
        assert forall|i: int| 0 <= i < bs.len() - 1 implies (block_convertible(bs.drop_last()[i])
            == block_convertible(#[trigger] bs[i])) by {
            assert(bs.drop_last()[i] == bs[i]);
        }
    }
}

pub proof fn lemma_spec_convert_ops_pointwise(ops: Seq<OperationView>)
    ensures
        spec_convert_ops(ops).len() == ops.len(),
        forall|i: int| 0 <= i < ops.len() ==> spec_convert_ops(ops)[i] == spec_convert_op(ops[i]),
        ops_convertible(ops) <==> (forall|i: int|
            0 <= i < ops.len() ==> op_convertible(#[trigger] ops[i])),
    decreases ops.len(),
{
    if ops.len() > 0 {
        lemma_spec_convert_ops_pointwise(ops.drop_last());
        assert forall|i: int| 0 <= i < ops.len() implies spec_convert_ops(ops)[i]
            == spec_convert_op(ops[i]) by {
            if i < ops.len() - 1 {
                assert(ops.drop_last()[i] == ops[i]);
            }
        }
        assert forall|i: int| 0 <= i < ops.len() - 1 implies (op_convertible(ops.drop_last()[i])
            == op_convertible(#[trigger] ops[i])) by {
            assert(ops.drop_last()[i] == ops[i]);
        }
    }
}

fn has_prefix_exec(s: &String, p: &str) -> (r: bool)
    ensures
        r == has_prefix(s@, p@),
{
    let sref = s.as_str();
    let n = vstd::string::StrSliceExecFns::unicode_len(p);
    let sn = vstd::string::StrSliceExecFns::unicode_len(sref);
    if sn < n {
        return false;
    }
    let mut i: usize = 0;
    while i < n
        invariant
            i <= n,
            n == p@.len(),
            sn == s@.len(),
            n <= sn,
            sref@ == s@,
            forall|k: int| 0 <= k < i ==> s@[k] == p@[k],
        decreases n - i,
    {
        let cs = vstd::string::StrSliceExecFns::get_char(sref, i);
        let cp = vstd::string::StrSliceExecFns::get_char(p, i);
        if cs != cp {
            assert(s@.subrange(0, p@.len() as int)[i as int] != p@[i as int]);
            return false;
        }
        i = i + 1;
    }
    assert(s@.subrange(0, p@.len() as int) =~= p@);
    true
}

/// Converts one operation: rewrites its name by the rules, keeps its
/// operands, results and attributes, and converts every nested region.
/// An operation the filter claims but no rule covers answers
/// `UnsupportedConversion` carrying its name and position.
#[verifier::rlimit(100)]
fn convert_operation(op: &Operation) -> (r: Result<Operation, IrError>)
    ensures
        r matches Ok(o2) ==> o2@ == spec_convert_op(op@),
        r is Ok <==> op_convertible(op@),
        r matches Err(e) ==> e matches IrError::UnsupportedConversion { .. },
        in_source_filter(op@.name) && !has_rule(op@.name) ==> (r matches Err(e) ==> e == (
        IrError::UnsupportedConversion { name: op.name, pos: op.pos })),
    decreases *op,
{
    let filtered = has_prefix_exec(&op.name, "func.") || has_prefix_exec(&op.name, "arith.")
        || str_eq(&op.name, "return");
    let new_name: String = if str_eq(&op.name, "func.func") {
        str_to_string("llvm.func")
    } else if str_eq(&op.name, "arith.constant") {
        str_to_string("llvm.mlir.constant")
    } else if str_eq(&op.name, "arith.addi") {
        str_to_string("llvm.add")
    } else if str_eq(&op.name, "return") {
        str_to_string("llvm.return")
    } else if filtered {
        return Err(IrError::UnsupportedConversion { name: op.name.clone(), pos: op.pos });
    } else {
        op.name.clone()
    };
    let mut regions: Vec<Region> = Vec::new();
    let mut i: usize = 0;
    proof {
        lemma_region_views(op.regions@);
    }
    while i < op.regions.len()
        invariant
            i <= op.regions@.len(),
            op@.regions == crate::ir::region_views(op.regions@),
            op@.regions.len() == op.regions@.len(),
            forall|k: int| 0 <= k < op.regions@.len() ==> op@.regions[k] == op.regions@[k]@,
            regions@.len() == i,
            in_source_filter(op@.name) ==> has_rule(op@.name),
            forall|k: int|
                0 <= k < i ==> (#[trigger] regions@[k])@ == spec_convert_region(op@.regions[k])
                    && region_convertible(op@.regions[k]),
        decreases op.regions@.len() - i,
    {
        let converted = match convert_region(&op.regions[i]) {
            Ok(reg) => reg,
            Err(e) => {
                proof {
                    lemma_spec_convert_regions_pointwise(op@.regions);
                    assert(!region_convertible(op@.regions[i as int]));
                    assert(!regions_convertible(op@.regions));
                    assert(in_source_filter(op@.name) ==> has_rule(op@.name));
                }
                return Err(e);
            },
        };
        let ghost cv = converted@;
        let ghost pre = regions@;
        regions.push(converted);
        proof {
            assert(regions@ == pre.push(converted));
            assert forall|k: int|
                0 <= k < i + 1 implies (#[trigger] regions@[k])@ == spec_convert_region(
                op@.regions[k],
            ) && region_convertible(op@.regions[k]) by {
                if k == i as int {
                    assert(regions@[k]@ == cv);
                    assert(cv == spec_convert_region(op@.regions[k]));
                } else {
                    assert(regions@[k] == pre[k]);
                }
            }
        }
        i = i + 1;
    }
    let o2 = Operation {
        name: new_name,
        pos: op.pos,
        operands: clone_values(&op.operands),
        result_names: clone_strings(&op.result_names),
        result_types: clone_types(&op.result_types),
        attributes: clone_attributes(&op.attributes),
        regions,
    };
    proof {
        lemma_spec_convert_regions_pointwise(op@.regions);
        lemma_region_views(o2.regions@);
        assert forall|k: int| 0 <= k < op@.regions.len() implies region_convertible(
            #[trigger] op@.regions[k],
        ) by {
            assert(regions@[k]@ == spec_convert_region(op@.regions[k]));
        }
        assert(regions_convertible(op@.regions));
        assert(o2@.regions =~= spec_convert_regions(op@.regions));
        assert(o2@.operands =~= op@.operands);
        assert(o2@.result_names =~= op@.result_names);
        assert(o2@.result_types =~= op@.result_types);
        assert(o2@.attributes =~= op@.attributes);
        assert(o2@ == spec_convert_op(op@));
        assert(op_convertible(op@));
    }
    Ok(o2)
}

#[verifier::rlimit(60)]
fn convert_block(block: &Block) -> (r: Result<Block, IrError>)
    ensures
        r matches Ok(b2) ==> b2@ == spec_convert_block(block@),
        r is Ok <==> block_convertible(block@),
        r matches Err(e) ==> e matches IrError::UnsupportedConversion { .. },
    decreases *block,
{
    let mut operations: Vec<Operation> = Vec::new();
    let mut i: usize = 0;
    proof {
        lemma_op_views(block.operations@);
    }
    while i < block.operations.len()
        invariant
            i <= block.operations@.len(),
            block@.operations == op_views(block.operations@),
            block@.operations.len() == block.operations@.len(),
            forall|k: int|
                0 <= k < block.operations@.len() ==> block@.operations[k]
                    == block.operations@[k]@,
            operations@.len() == i,
            forall|k: int|
                0 <= k < i ==> (#[trigger] operations@[k])@ == spec_convert_op(
                    block@.operations[k],
                ) && op_convertible(block@.operations[k]),
        decreases block.operations@.len() - i,
    {
        let converted = match convert_operation(&block.operations[i]) {
            Ok(op) => op,
            Err(e) => {
                proof {
                    lemma_spec_convert_ops_pointwise(block@.operations);
                    assert(!op_convertible(block@.operations[i as int]));
                    assert(!ops_convertible(block@.operations));
                }
                return Err(e);
            },
        };
        let ghost cv = converted@;
        let ghost pre = operations@;
        operations.push(converted);
        proof {
            assert(operations@ == pre.push(converted));
            assert forall|k: int|
                0 <= k < i + 1 implies (#[trigger] operations@[k])@ == spec_convert_op(
                block@.operations[k],
            ) && op_convertible(block@.operations[k]) by {
                if k == i as int {
                    assert(operations@[k]@ == cv);
                    assert(cv == spec_convert_op(block@.operations[k]));
                } else {
                    assert(operations@[k] == pre[k]);
                }
            }
        }
        i = i + 1;
    }
    let b2 = Block { arguments: clone_values(&block.arguments), operations };
    proof {
        lemma_spec_convert_ops_pointwise(block@.operations);
        lemma_op_views(b2.operations@);
        assert forall|k: int| 0 <= k < block@.operations.len() implies op_convertible(
            #[trigger] block@.operations[k],
        ) by {
            assert(operations@[k]@ == spec_convert_op(block@.operations[k]));
        }
        assert(ops_convertible(block@.operations));
        assert(b2@.operations =~= spec_convert_ops(block@.operations));
        assert(b2@.arguments =~= block@.arguments);
        assert(b2@ == spec_convert_block(block@));
    }
    Ok(b2)
}

#[verifier::rlimit(60)]
fn convert_region(region: &Region) -> (r: Result<Region, IrError>)
    ensures
        r matches Ok(r2) ==> r2@ == spec_convert_region(region@),
        r is Ok <==> region_convertible(region@),
        r matches Err(e) ==> e matches IrError::UnsupportedConversion { .. },
    decreases *region,
{
    let mut blocks: Vec<Block> = Vec::new();
    let mut i: usize = 0;
    proof {
        lemma_block_views(region.blocks@);
    }
    while i < region.blocks.len()
        invariant
            i <= region.blocks@.len(),
            region@.blocks == crate::ir::block_views(region.blocks@),
            region@.blocks.len() == region.blocks@.len(),
            forall|k: int| 0 <= k < region.blocks@.len() ==> region@.blocks[k]
                == region.blocks@[k]@,
            blocks@.len() == i,
            forall|k: int|
                0 <= k < i ==> (#[trigger] blocks@[k])@ == spec_convert_block(region@.blocks[k])
                    && block_convertible(region@.blocks[k]),
        decreases region.blocks@.len() - i,
    {
        let converted = match convert_block(&region.blocks[i]) {
            Ok(b) => b,
            Err(e) => {
                proof {
                    lemma_spec_convert_blocks_pointwise(region@.blocks);
                    assert(!block_convertible(region@.blocks[i as int]));
                    assert(!blocks_convertible(region@.blocks));
                }
                return Err(e);
            },
        };
        let ghost cv = converted@;
        let ghost pre = blocks@;
        blocks.push(converted);
        proof {
            assert(blocks@ == pre.push(converted));
            assert forall|k: int|
                0 <= k < i + 1 implies (#[trigger] blocks@[k])@ == spec_convert_block(
                region@.blocks[k],
            ) && block_convertible(region@.blocks[k]) by {
                if k == i as int {
                    assert(blocks@[k]@ == cv);
                    assert(cv == spec_convert_block(region@.blocks[k]));
                } else {
                    assert(blocks@[k] == pre[k]);
                }
            }
        }
        i = i + 1;
    }
    let r2 = Region { blocks };
    proof {
        lemma_spec_convert_blocks_pointwise(region@.blocks);
        lemma_block_views(r2.blocks@);
        assert forall|k: int| 0 <= k < region@.blocks.len() implies block_convertible(
            #[trigger] region@.blocks[k],
        ) by {
            assert(blocks@[k]@ == spec_convert_block(region@.blocks[k]));
        }
        assert(blocks_convertible(region@.blocks));
        assert(r2@.blocks =~= spec_convert_blocks(region@.blocks));
        assert(r2@ == spec_convert_region(region@));
    }
    Ok(r2)
}

/// The conversion pass lowering the function and arithmetic dialects to
/// the target dialect. The input module is untouched; the answer is a
/// fresh module whose view is pinned to `spec_convert_module`, and the
/// pass succeeds exactly when every operation the filter claims has a
/// rule. On failure the error is `UnsupportedConversion` and no
/// partially-converted module exists.
pub fn convert_func_to_llvm(module: &Module) -> (r: Result<Module, IrError>)
    ensures
        r matches Ok(m2) ==> m2@ == spec_convert_module(module@),
        r is Ok <==> module_convertible(module@),
        r matches Err(e) ==> e matches IrError::UnsupportedConversion { .. },
{
    let region = match convert_region(&module.region) {
        Ok(reg) => reg,
        Err(e) => {
            return Err(e);
        },
    };
    Ok(Module { region })
}

/// An ordered pipeline of named passes.
pub struct Passes {
    pub names: Vec<String>,
}

impl Passes {
    /// A pipeline holding one pass.
    pub fn single(name: &str) -> (r: Passes)
        ensures
            r.names@.len() == 1,
            r.names@[0]@ == name@,
    {
        let mut names: Vec<String> = Vec::new();
        names.push(str_to_string(name));
        Passes { names }
    }
}

/// The pass names a pipeline is spoken of by.
pub open spec fn pass_name_views(names: Seq<String>) -> Seq<Seq<char>> {
    names.map_values(|s: String| s@)
}

/// What the pipeline computes: the passes applied strictly in order,
/// each one atomic; an unknown pass name or an unconvertible module
/// fails the whole pipeline.
pub open spec fn spec_transform(m: ModuleView, names: Seq<Seq<char>>) -> Result<ModuleView, ()>
    decreases names.len(),
{
    if names.len() == 0 {
        Result::<ModuleView, ()>::Ok(m)
    } else if names[0] == "convert-func-to-llvm"@ {
        if module_convertible(m) {
            spec_transform(spec_convert_module(m), names.drop_first())
        } else {
            Result::<ModuleView, ()>::Err(())
        }
    } else {
        Result::<ModuleView, ()>::Err(())
    }
}

/// Runs the pipeline. The result is pinned to `spec_transform`, a
/// function of the input graph and the pass names alone: running the
/// same pipeline twice on structurally identical inputs gives
/// structurally identical outputs.
pub fn transform(module: Module, passes: &Passes) -> (r: Result<Module, IrError>)
    ensures
        r matches Ok(m2) ==> spec_transform(module@, pass_name_views(passes.names@)) == Result::<
            ModuleView,
            (),
        >::Ok(m2@),
        r is Ok <==> spec_transform(module@, pass_name_views(passes.names@)) is Ok,
        r matches Ok(m2) ==> (module@.wf() ==> m2@.wf()),
        r matches Ok(m2) ==> (module@.scoped() ==> m2@.scoped()),
        r matches Err(e) ==> e matches IrError::UnsupportedConversion { .. },
{
    let ghost all_names = pass_name_views(passes.names@);
    let ghost m0 = module@;
    let mut current = module;
    let mut i: usize = 0;
    proof {
        assert(all_names.skip(0) =~= all_names);
    }
    while i < passes.names.len()
        invariant
            i <= passes.names@.len(),
            all_names == pass_name_views(passes.names@),
            all_names.len() == passes.names@.len(),
            spec_transform(module@, all_names) == spec_transform(current@, all_names.skip(i as int)),
        decreases passes.names@.len() - i,
    {
        assert(all_names.skip(i as int)[0] == passes.names@[i as int]@);
        if str_eq(&passes.names[i], "convert-func-to-llvm") {
            let next = match convert_func_to_llvm(&current) {
                Ok(m) => m,
                Err(e) => {
                    assert(spec_transform(current@, all_names.skip(i as int)) is Err);
                    return Err(e);
                },
            };
            proof {
                assert(all_names.skip(i as int).drop_first() =~= all_names.skip(i + 1 as int));
            }
            current = next;
        } else {
            assert(spec_transform(current@, all_names.skip(i as int)) is Err);
            // the position of an unknown pass is its index in the pipeline
            return Err(
                IrError::UnsupportedConversion { name: passes.names[i].clone(), pos: i },
            );
        }
        i = i + 1;
    }
    proof {
        assert(all_names.skip(passes.names@.len() as int) =~= Seq::<Seq<char>>::empty());
        if m0.wf() {
            lemma_transform_preserves_wf(m0, all_names);
        }
        if m0.scoped() {
            lemma_transform_preserves_scoped(m0, all_names);
        }
    }
    Ok(current)
}

/// Determinism of the pipeline: its outcome is a function of the input
/// graph and the pass list alone, so structurally identical inputs give
/// structurally identical outputs, with no traversal-order choice left
/// open.
pub proof fn lemma_transform_deterministic(m1: ModuleView, m2: ModuleView, names: Seq<Seq<char>>)
    requires
        m1 == m2,
    ensures
        spec_transform(m1, names) == spec_transform(m2, names),
{
}

/// The lowering keeps every converted operation's result names.
pub proof fn lemma_convert_preserves_results(op: OperationView)
    ensures
        spec_convert_op(op).result_names == op.result_names,
{
}

/// The lowering keeps the arity invariant: a well-formed module stays
/// well formed under conversion.
pub proof fn lemma_convert_module_preserves_wf(m: ModuleView)
    requires
        m.wf(),
    ensures
        spec_convert_module(m).wf(),
{
    lemma_convert_region_preserves_wf(m.region);
}

pub proof fn lemma_convert_region_preserves_wf(region: RegionView)
    requires
        region.wf(),
    ensures
        spec_convert_region(region).wf(),
    decreases region,
{
    lemma_spec_convert_blocks_pointwise(region.blocks);
    assert forall|i: int| 0 <= i < spec_convert_region(region).blocks.len() implies (
    #[trigger] spec_convert_region(region).blocks[i]).wf() by {
        lemma_convert_block_preserves_wf(region.blocks[i]);
    }
}

pub proof fn lemma_convert_block_preserves_wf(block: BlockView)
    requires
        block.wf(),
    ensures
        spec_convert_block(block).wf(),
    decreases block,
{
    lemma_spec_convert_ops_pointwise(block.operations);
    assert forall|i: int| 0 <= i < spec_convert_block(block).operations.len() implies (
    #[trigger] spec_convert_block(block).operations[i]).wf() by {
        lemma_convert_op_preserves_wf(block.operations[i]);
    }
}

pub proof fn lemma_convert_op_preserves_wf(op: OperationView)
    requires
        op.wf(),
    ensures
        spec_convert_op(op).wf(),
    decreases op,
{
    lemma_spec_convert_regions_pointwise(op.regions);
    assert forall|i: int| 0 <= i < spec_convert_op(op).regions.len() implies (
    #[trigger] spec_convert_op(op).regions[i]).wf() by {
        lemma_convert_region_preserves_wf(op.regions[i]);
    }
}

/// Every pass of a pipeline keeps the arity invariant: a well-formed
/// module that comes out of `spec_transform` is well formed.
pub proof fn lemma_transform_preserves_wf(m: ModuleView, names: Seq<Seq<char>>)
    requires
        m.wf(),
    ensures
        spec_transform(m, names) matches Result::Ok(m2) ==> m2.wf(),
    decreases names.len(),
{
    if names.len() > 0 && names[0] == "convert-func-to-llvm"@ && module_convertible(m) {
        lemma_convert_module_preserves_wf(m);
        lemma_transform_preserves_wf(spec_convert_module(m), names.drop_first());
    }
}

/// Every pass of a pipeline keeps scoping: operands and result names are
/// untouched, so every operand still refers to a visible definition.
pub proof fn lemma_transform_preserves_scoped(m: ModuleView, names: Seq<Seq<char>>)
    requires
        m.scoped(),
    ensures
        spec_transform(m, names) matches Result::Ok(m2) ==> m2.scoped(),
    decreases names.len(),
{
    if names.len() > 0 && names[0] == "convert-func-to-llvm"@ && module_convertible(m) {
        lemma_convert_module_preserves_scoped(m);
        lemma_transform_preserves_scoped(spec_convert_module(m), names.drop_first());
    }
}

/// The lowering keeps scoping: it keeps every operand list and every
/// result name, so visibility of definitions is untouched.
pub proof fn lemma_convert_module_preserves_scoped(m: ModuleView)
    requires
        m.scoped(),
    ensures
        spec_convert_module(m).scoped(),
{
    lemma_convert_region_preserves_scoped(m.region, Seq::empty());
}

pub proof fn lemma_convert_region_preserves_scoped(region: RegionView, scope: Seq<Seq<char>>)
    requires
        region.scoped(scope),
    ensures
        spec_convert_region(region).scoped(scope),
    decreases region,
{
    lemma_spec_convert_blocks_pointwise(region.blocks);
    assert forall|i: int| 0 <= i < spec_convert_region(region).blocks.len() implies (
    #[trigger] spec_convert_region(region).blocks[i]).scoped(scope) by {
        lemma_convert_block_preserves_scoped(region.blocks[i], scope);
    }
}

pub proof fn lemma_convert_block_preserves_scoped(block: BlockView, scope: Seq<Seq<char>>)
    requires
        block.scoped(scope),
    ensures
        spec_convert_block(block).scoped(scope),
    decreases block,
{
    lemma_ops_scoped_convert(
        block.operations,
        scope + block.arguments.map_values(|v: crate::ir::ValueView| v.name),
    );
}

proof fn lemma_ops_scoped_convert(ops: Seq<OperationView>, scope: Seq<Seq<char>>)
    requires
        crate::ir::ops_scoped(ops, scope),
    ensures
        crate::ir::ops_scoped(spec_convert_ops(ops), scope),
    decreases ops,
{
    lemma_spec_convert_ops_pointwise(ops);
    if ops.len() > 0 {
        assert(spec_convert_ops(ops)[0] == spec_convert_op(ops[0]));
        lemma_convert_op_preserves_scoped(ops[0], scope);
        assert(spec_convert_ops(ops).drop_first() =~= spec_convert_ops(ops.drop_first())) by {
            lemma_spec_convert_ops_pointwise(ops.drop_first());
            assert forall|i: int| 0 <= i < ops.len() - 1 implies spec_convert_ops(
                ops,
            ).drop_first()[i] == spec_convert_ops(ops.drop_first())[i] by {
                assert(ops.drop_first()[i] == ops[i + 1]);
            }
        }
        lemma_ops_scoped_convert(ops.drop_first(), scope + ops[0].result_names);
        assert(spec_convert_op(ops[0]).result_names == ops[0].result_names);
    }
}

pub proof fn lemma_convert_op_preserves_scoped(op: OperationView, scope: Seq<Seq<char>>)
    requires
        op.scoped(scope),
    ensures
        spec_convert_op(op).scoped(scope),
    decreases op,
{
    lemma_spec_convert_regions_pointwise(op.regions);
    let converted = spec_convert_op(op);
    if op.regions.len() == 0 {
        assert(converted.operands == op.operands);
    } else {
        let inner = scope + op.operands.map_values(|v: crate::ir::ValueView| v.name);
        assert forall|i: int| 0 <= i < converted.regions.len() implies (
        #[trigger] converted.regions[i]).scoped(
            scope + converted.operands.map_values(|v: crate::ir::ValueView| v.name),
        ) by {
            lemma_convert_region_preserves_scoped(op.regions[i], inner);
            assert(converted.operands == op.operands);
        }
    }
}

/// Use preservation: the lowering keeps every operand list and every
/// result name, so for every definition the number of uses across the
/// whole module is unchanged: rewiring loses no use and duplicates none.
pub proof fn lemma_convert_preserves_uses(m: ModuleView, name: Seq<char>)
    ensures
        spec_convert_module(m).uses_in(name) == m.uses_in(name),
{
    lemma_convert_region_preserves_uses(m.region, name);
}

pub proof fn lemma_convert_region_preserves_uses(region: RegionView, name: Seq<char>)
    ensures
        spec_convert_region(region).uses_in(name) == region.uses_in(name),
    decreases region,
{
    lemma_blocks_uses(region.blocks, name);
}

proof fn lemma_blocks_uses(bs: Seq<BlockView>, name: Seq<char>)
    ensures
        blocks_uses(spec_convert_blocks(bs), name) == blocks_uses(bs, name),
    decreases bs,
{
    lemma_spec_convert_blocks_pointwise(bs);
    if bs.len() > 0 {
        assert(spec_convert_blocks(bs)[0] == spec_convert_block(bs[0]));
        lemma_convert_block_preserves_uses(bs[0], name);
        assert(spec_convert_blocks(bs).drop_first() =~= spec_convert_blocks(bs.drop_first())) by {
            lemma_spec_convert_blocks_pointwise(bs.drop_first());
            assert forall|i: int| 0 <= i < bs.len() - 1 implies spec_convert_blocks(
                bs,
            ).drop_first()[i] == spec_convert_blocks(bs.drop_first())[i] by {
                assert(bs.drop_first()[i] == bs[i + 1]);
            }
        }
        lemma_blocks_uses(bs.drop_first(), name);
    }
}

pub proof fn lemma_convert_block_preserves_uses(block: BlockView, name: Seq<char>)
    ensures
        spec_convert_block(block).uses_in(name) == block.uses_in(name),
    decreases block,
{
    lemma_ops_uses(block.operations, name);
}

proof fn lemma_ops_uses(ops: Seq<OperationView>, name: Seq<char>)
    ensures
        ops_uses(spec_convert_ops(ops), name) == ops_uses(ops, name),
    decreases ops,
{
    lemma_spec_convert_ops_pointwise(ops);
    if ops.len() > 0 {
        assert(spec_convert_ops(ops)[0] == spec_convert_op(ops[0]));
        lemma_convert_op_preserves_uses(ops[0], name);
        assert(spec_convert_ops(ops).drop_first() =~= spec_convert_ops(ops.drop_first())) by {
            lemma_spec_convert_ops_pointwise(ops.drop_first());
            assert forall|i: int| 0 <= i < ops.len() - 1 implies spec_convert_ops(
                ops,
            ).drop_first()[i] == spec_convert_ops(ops.drop_first())[i] by {
                assert(ops.drop_first()[i] == ops[i + 1]);
            }
        }
        lemma_ops_uses(ops.drop_first(), name);
    }
}

pub proof fn lemma_convert_op_preserves_uses(op: OperationView, name: Seq<char>)
    ensures
        spec_convert_op(op).uses_in(name) == op.uses_in(name),
    decreases op,
{
    lemma_spec_convert_regions_pointwise(op.regions);
    lemma_regions_uses(op.regions, name);
    assert(spec_convert_op(op).operands == op.operands);
}

proof fn lemma_regions_uses(rs: Seq<RegionView>, name: Seq<char>)
    ensures
        regions_uses(spec_convert_regions(rs), name) == regions_uses(rs, name),
    decreases rs,
{
    lemma_spec_convert_regions_pointwise(rs);
    if rs.len() > 0 {
        assert(spec_convert_regions(rs)[0] == spec_convert_region(rs[0]));
        lemma_convert_region_preserves_uses(rs[0], name);
        assert(spec_convert_regions(rs).drop_first() =~= spec_convert_regions(rs.drop_first()))
            by {
            lemma_spec_convert_regions_pointwise(rs.drop_first());
            assert forall|i: int| 0 <= i < rs.len() - 1 implies spec_convert_regions(
                rs,
            ).drop_first()[i] == spec_convert_regions(rs.drop_first())[i] by {
                assert(rs.drop_first()[i] == rs[i + 1]);
            }
        }
        lemma_regions_uses(rs.drop_first(), name);
    }
}

} // verus!
