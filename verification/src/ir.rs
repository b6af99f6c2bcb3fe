//! The IR core: the graph data model of Operation, Block, Region, Value,
//! Type and Attribute, with its structural invariants.
//!
//! Ownership is a strict tree: Module -> Region -> Block -> Operation ->
//! nested Region. Values are referenced by operand lists through their
//! names, never owned by them; the defining site is the sole owner.

use vstd::prelude::*;

use crate::IrError;

verus! {

broadcast use vstd::std_specs::vec::group_vec_axioms;

/// A structural type descriptor identified by a name string, such as `i64`.
/// Equality is structural; a value is immutable once constructed.
pub struct Type {
    pub name: String,
}

impl View for Type {
    type V = Seq<char>;

    open spec fn view(&self) -> Seq<char> {
        self.name@
    }
}

impl Type {
    pub fn new(name: String) -> (r: Type)
        ensures
            r@ == name@,
    {
        Type { name }
    }
}

impl Clone for Type {
    fn clone(&self) -> (r: Self)
        ensures
            r == *self,
    {
        Type { name: self.name.clone() }
    }
}

/// A typed, immutable constant attached to an operation.
/// Dialects may introduce further shapes; these cover the minimal set.
#[allow(inconsistent_fields)]
pub enum Attribute {
    /// An integer literal with its type, as in `42 : i64`.
    IntegerAttr { value: u64, typ: Type },
    /// A string, such as a function's symbol name `@main`.
    StringAttr { value: String },
    /// An ordered list of types, such as a function's return types.
    TypeArrayAttr { types: Vec<Type> },
}

#[allow(inconsistent_fields)]
pub ghost enum AttributeView {
    Int { value: u64, typ: Seq<char> },
    Str { value: Seq<char> },
    Types { types: Seq<Seq<char>> },
}

impl View for Attribute {
    type V = AttributeView;

    open spec fn view(&self) -> AttributeView {
        match self {
            Attribute::IntegerAttr { value, typ } => AttributeView::Int {
                value: *value,
                typ: typ@,
            },
            Attribute::StringAttr { value } => AttributeView::Str { value: value@ },
            Attribute::TypeArrayAttr { types } => AttributeView::Types {
                types: types@.map_values(|t: Type| t@),
            },
        }
    }
}

impl Clone for Attribute {
    fn clone(&self) -> (r: Self)
        ensures
            r@ == self@,
    {
        match self {
            Attribute::IntegerAttr { value, typ } => Attribute::IntegerAttr {
                value: *value,
                typ: typ.clone(),
            },
            Attribute::StringAttr { value } => Attribute::StringAttr { value: value.clone() },
            Attribute::TypeArrayAttr { types } => {
                let ts = clone_types(types);
                let r = Attribute::TypeArrayAttr { types: ts };
                assert(r@ =~= self@);
                r
            },
        }
    }
}

/// An attribute together with the name it is attached under.
pub struct NamedAttribute {
    pub name: String,
    pub attribute: Attribute,
}

pub ghost struct NamedAttributeView {
    pub name: Seq<char>,
    pub attribute: AttributeView,
}

impl View for NamedAttribute {
    type V = NamedAttributeView;

    open spec fn view(&self) -> NamedAttributeView {
        NamedAttributeView { name: self.name@, attribute: self.attribute@ }
    }
}

impl Clone for NamedAttribute {
    fn clone(&self) -> (r: Self)
        ensures
            r@ == self@,
    {
        NamedAttribute { name: self.name.clone(), attribute: self.attribute.clone() }
    }
}

/// A single SSA definition: either a block's formal argument or an
/// operation's result. Operands reference a definition through its name;
/// the reference is weak, never an ownership edge.
pub enum Value {
    BlockArgument { name: String, typ: Type },
    OpResult { name: String, typ: Type },
}

pub ghost struct ValueView {
    pub is_argument: bool,
    pub name: Seq<char>,
    pub typ: Seq<char>,
}

impl View for Value {
    type V = ValueView;

    open spec fn view(&self) -> ValueView {
        match self {
            Value::BlockArgument { name, typ } => ValueView {
                is_argument: true,
                name: name@,
                typ: typ@,
            },
            Value::OpResult { name, typ } => ValueView {
                is_argument: false,
                name: name@,
                typ: typ@,
            },
        }
    }
}

impl Value {
    pub fn name(&self) -> (r: &String)
        ensures
            r@ == self@.name,
    {
        match self {
            Value::BlockArgument { name, .. } => name,
            Value::OpResult { name, .. } => name,
        }
    }

    pub fn typ(&self) -> (r: &Type)
        ensures
            r@ == self@.typ,
    {
        match self {
            Value::BlockArgument { typ, .. } => typ,
            Value::OpResult { typ, .. } => typ,
        }
    }
}

impl Clone for Value {
    fn clone(&self) -> (r: Self)
        ensures
            r == *self,
    {
        match self {
            Value::BlockArgument { name, typ } => Value::BlockArgument {
                name: name.clone(),
                typ: typ.clone(),
            },
            Value::OpResult { name, typ } => Value::OpResult {
                name: name.clone(),
                typ: typ.clone(),
            },
        }
    }
}

/// The universal IR node.
pub struct Operation {
    /// The namespaced name, `dialect.mnemonic`.
    pub name: String,
    /// The source position (character index) the operation came from.
    pub pos: usize,
    /// The values the operation consumes, in order. The same value may
    /// appear more than once. An operation that owns regions holds its
    /// formal arguments here; the regions consume them.
    pub operands: Vec<Value>,
    /// The names of the results it produces, in order.
    pub result_names: Vec<String>,
    /// The declared types of those results, in order.
    pub result_types: Vec<Type>,
    /// Named constants attached to the operation; names are unique.
    pub attributes: Vec<NamedAttribute>,
    /// The regions it owns; empty for simple operations.
    pub regions: Vec<Region>,
}

/// An ordered sequence of owned operations plus formal argument values,
/// owned by exactly one region.
pub struct Block {
    pub arguments: Vec<Value>,
    pub operations: Vec<Operation>,
}

/// An ordered sequence of owned blocks, owned by exactly one operation.
pub struct Region {
    pub blocks: Vec<Block>,
}

/// The top-level container: one region holding the top-level operations.
pub struct Module {
    pub region: Region,
}

pub ghost struct OperationView {
    pub name: Seq<char>,
    pub pos: int,
    pub operands: Seq<ValueView>,
    pub result_names: Seq<Seq<char>>,
    pub result_types: Seq<Seq<char>>,
    pub attributes: Seq<NamedAttributeView>,
    pub regions: Seq<RegionView>,
}

pub ghost struct BlockView {
    pub arguments: Seq<ValueView>,
    pub operations: Seq<OperationView>,
}

pub ghost struct RegionView {
    pub blocks: Seq<BlockView>,
}

pub ghost struct ModuleView {
    pub region: RegionView,
}

/// The views of a list of operations, in order.
pub open spec fn op_views(ops: Seq<Operation>) -> Seq<OperationView>
    decreases ops,
{
    if ops.len() == 0 {
        Seq::empty()
    } else {
        op_views(ops.drop_last()).push(ops[ops.len() - 1]@)
    }
}

/// The views of a list of blocks, in order.
pub open spec fn block_views(bs: Seq<Block>) -> Seq<BlockView>
    decreases bs,
{
    if bs.len() == 0 {
        Seq::empty()
    } else {
        block_views(bs.drop_last()).push(bs[bs.len() - 1]@)
    }
}

/// The views of a list of regions, in order.
pub open spec fn region_views(rs: Seq<Region>) -> Seq<RegionView>
    decreases rs,
{
    if rs.len() == 0 {
        Seq::empty()
    } else {
        region_views(rs.drop_last()).push(rs[rs.len() - 1]@)
    }
}

impl View for Operation {
    type V = OperationView;

    open spec fn view(&self) -> OperationView
        decreases self,
    {
        OperationView {
            name: self.name@,
            pos: self.pos as int,
            operands: self.operands@.map_values(|v: Value| v@),
            result_names: self.result_names@.map_values(|s: String| s@),
            result_types: self.result_types@.map_values(|t: Type| t@),
            attributes: self.attributes@.map_values(|a: NamedAttribute| a@),
            regions: region_views(self.regions@),
        }
    }
}

impl View for Block {
    type V = BlockView;

    open spec fn view(&self) -> BlockView
        decreases self,
    {
        BlockView {
            arguments: self.arguments@.map_values(|v: Value| v@),
            operations: op_views(self.operations@),
        }
    }
}

impl View for Region {
    type V = RegionView;

    open spec fn view(&self) -> RegionView
        decreases self,
    {
        RegionView { blocks: block_views(self.blocks@) }
    }
}

/// `op_views` is the pointwise view of its argument.
pub broadcast proof fn lemma_op_views(ops: Seq<Operation>)
    ensures
        (#[trigger] op_views(ops)).len() == ops.len(),
        forall|i: int| 0 <= i < ops.len() ==> op_views(ops)[i] == ops[i]@,
    decreases ops,
{
    if ops.len() > 0 {
        lemma_op_views(ops.drop_last());
        assert(op_views(ops) == op_views(ops.drop_last()).push(ops[ops.len() - 1]@));
        assert forall|i: int| 0 <= i < ops.len() implies op_views(ops)[i] == ops[i]@ by {
            if i < ops.len() - 1 {
                assert(ops.drop_last()[i] == ops[i]);
            }
        }
    } else {
        assert(op_views(ops) == Seq::<OperationView>::empty());
    }
}

/// `block_views` is the pointwise view of its argument.
pub broadcast proof fn lemma_block_views(bs: Seq<Block>)
    ensures
        (#[trigger] block_views(bs)).len() == bs.len(),
        forall|i: int| 0 <= i < bs.len() ==> block_views(bs)[i] == bs[i]@,
    decreases bs,
{
    if bs.len() > 0 {
        lemma_block_views(bs.drop_last());
        assert(block_views(bs) == block_views(bs.drop_last()).push(bs[bs.len() - 1]@));
        assert forall|i: int| 0 <= i < bs.len() implies block_views(bs)[i] == bs[i]@ by {
            if i < bs.len() - 1 {
                assert(bs.drop_last()[i] == bs[i]);
            }
        }
    } else {
        assert(block_views(bs) == Seq::<BlockView>::empty());
    }
}

/// `region_views` is the pointwise view of its argument.
pub broadcast proof fn lemma_region_views(rs: Seq<Region>)
    ensures
        (#[trigger] region_views(rs)).len() == rs.len(),
        forall|i: int| 0 <= i < rs.len() ==> region_views(rs)[i] == rs[i]@,
    decreases rs,
{
    if rs.len() > 0 {
        lemma_region_views(rs.drop_last());
        assert(region_views(rs) == region_views(rs.drop_last()).push(rs[rs.len() - 1]@));
        assert forall|i: int| 0 <= i < rs.len() implies region_views(rs)[i] == rs[i]@ by {
            if i < rs.len() - 1 {
                assert(rs.drop_last()[i] == rs[i]);
            }
        }
    } else {
        assert(region_views(rs) == Seq::<RegionView>::empty());
    }
}

impl View for Module {
    type V = ModuleView;

    open spec fn view(&self) -> ModuleView {
        ModuleView { region: self.region@ }
    }
}

impl OperationView {
    /// The arity invariant: the result count matches the declared result
    /// types, attribute names are unique, and nested regions satisfy the
    /// same, recursively.
    pub open spec fn wf(self) -> bool
        decreases self,
    {
        &&& self.result_names.len() == self.result_types.len()
        &&& forall|i: int, j: int|
            0 <= i < j < self.attributes.len() ==> self.attributes[i].name
                != self.attributes[j].name
        &&& forall|i: int| 0 <= i < self.regions.len() ==> (#[trigger] self.regions[i]).wf()
    }

    /// Every operand refers to a definition visible at the operation's
    /// position. An operation that owns regions declares its operands as
    /// the formal arguments those regions may consume; a simple operation
    /// consumes values bound in the surrounding scope.
    pub open spec fn scoped(self, scope: Seq<Seq<char>>) -> bool
        decreases self,
    {
        if self.regions.len() == 0 {
            forall|i: int|
                0 <= i < self.operands.len() ==> scope.contains(
                    (#[trigger] self.operands[i]).name,
                )
        } else {
            forall|i: int|
                0 <= i < self.regions.len() ==> (#[trigger] self.regions[i]).scoped(
                    scope + self.operands.map_values(|v: ValueView| v.name),
                )
        }
    }

    /// The operation's name, and every nested one, is registered.
    pub open spec fn registered(self, names: Set<Seq<char>>) -> bool
        decreases self,
    {
        &&& names.contains(self.name)
        &&& forall|i: int|
            0 <= i < self.regions.len() ==> (#[trigger] self.regions[i]).registered(names)
    }

    /// How many operand positions in this operation and below it refer to
    /// the definition called `name`. Operands of a region-owning operation
    /// are declarations, not uses.
    pub open spec fn uses_in(self, name: Seq<char>) -> nat
        decreases self,
    {
        (if self.regions.len() == 0 {
            self.operands.filter(|v: ValueView| v.name == name).len()
        } else {
            0nat
        }) + regions_uses(self.regions, name)
    }
}

impl RegionView {
    pub open spec fn wf(self) -> bool
        decreases self,
    {
        forall|i: int| 0 <= i < self.blocks.len() ==> (#[trigger] self.blocks[i]).wf()
    }

    pub open spec fn scoped(self, scope: Seq<Seq<char>>) -> bool
        decreases self,
    {
        forall|i: int| 0 <= i < self.blocks.len() ==> (#[trigger] self.blocks[i]).scoped(scope)
    }

    pub open spec fn registered(self, names: Set<Seq<char>>) -> bool
        decreases self,
    {
        forall|i: int| 0 <= i < self.blocks.len() ==> (#[trigger] self.blocks[i]).registered(names)
    }

    pub open spec fn uses_in(self, name: Seq<char>) -> nat
        decreases self,
    {
        blocks_uses(self.blocks, name)
    }
}

impl BlockView {
    pub open spec fn wf(self) -> bool
        decreases self,
    {
        forall|i: int| 0 <= i < self.operations.len() ==> (#[trigger] self.operations[i]).wf()
    }

    /// The operations are scoped in order: each sees the surrounding
    /// scope, the block's arguments, and the results of the operations
    /// before it.
    pub open spec fn scoped(self, scope: Seq<Seq<char>>) -> bool
        decreases self,
    {
        ops_scoped(self.operations, scope + self.arguments.map_values(|v: ValueView| v.name))
    }

    pub open spec fn registered(self, names: Set<Seq<char>>) -> bool
        decreases self,
    {
        forall|i: int|
            0 <= i < self.operations.len() ==> (#[trigger] self.operations[i]).registered(names)
    }

    pub open spec fn uses_in(self, name: Seq<char>) -> nat
        decreases self,
    {
        ops_uses(self.operations, name)
    }
}

/// First-match lookup of an attribute by name.
pub open spec fn attr_lookup(attrs: Seq<NamedAttributeView>, name: Seq<char>) -> Option<
    AttributeView,
>
    decreases attrs,
{
    if attrs.len() == 0 {
        None
    } else if attrs[0].name == name {
        Some(attrs[0].attribute)
    } else {
        attr_lookup(attrs.drop_first(), name)
    }
}

/// Sequential scoping down a block: the first operation must be scoped,
/// and the rest see its result names as well.
pub open spec fn ops_scoped(ops: Seq<OperationView>, scope: Seq<Seq<char>>) -> bool
    decreases ops,
{
    if ops.len() == 0 {
        true
    } else {
        &&& ops[0].scoped(scope)
        &&& ops_scoped(ops.drop_first(), scope + ops[0].result_names)
    }
}

pub open spec fn regions_uses(rs: Seq<RegionView>, name: Seq<char>) -> nat
    decreases rs,
{
    if rs.len() == 0 {
        0nat
    } else {
        rs[0].uses_in(name) + regions_uses(rs.drop_first(), name)
    }
}

pub open spec fn blocks_uses(bs: Seq<BlockView>, name: Seq<char>) -> nat
    decreases bs,
{
    if bs.len() == 0 {
        0nat
    } else {
        bs[0].uses_in(name) + blocks_uses(bs.drop_first(), name)
    }
}

pub open spec fn ops_uses(ops: Seq<OperationView>, name: Seq<char>) -> nat
    decreases ops,
{
    if ops.len() == 0 {
        0nat
    } else {
        ops[0].uses_in(name) + ops_uses(ops.drop_first(), name)
    }
}

impl ModuleView {
    pub open spec fn wf(self) -> bool {
        self.region.wf()
    }

    /// Top-level operations see no outer definitions.
    pub open spec fn scoped(self) -> bool {
        self.region.scoped(Seq::empty())
    }

    pub open spec fn registered(self, names: Set<Seq<char>>) -> bool {
        self.region.registered(names)
    }

    pub open spec fn uses_in(self, name: Seq<char>) -> nat {
        self.region.uses_in(name)
    }
}

impl Operation {
    /// A fresh operation under construction: no name, no operands, no
    /// results, no attributes, no regions.
    pub fn new() -> (r: Operation)
        ensures
            r@.name =~= Seq::<char>::empty(),
            r@.pos == 0,
            r@.operands =~= Seq::<ValueView>::empty(),
            r@.result_names =~= Seq::<Seq<char>>::empty(),
            r@.result_types =~= Seq::<Seq<char>>::empty(),
            r@.attributes =~= Seq::<NamedAttributeView>::empty(),
            r@.regions =~= Seq::<RegionView>::empty(),
    {
        Operation {
            name: String::new(),
            pos: 0,
            operands: Vec::new(),
            result_names: Vec::new(),
            result_types: Vec::new(),
            attributes: Vec::new(),
            regions: Vec::new(),
        }
    }

    pub fn set_name(&mut self, name: String)
        ensures
            *final(self) == (Operation { name, ..*old(self) }),
    {
        self.name = name;
    }

    pub fn set_pos(&mut self, pos: usize)
        ensures
            *final(self) == (Operation { pos, ..*old(self) }),
    {
        self.pos = pos;
    }

    pub fn set_operands(&mut self, operands: Vec<Value>)
        ensures
            *final(self) == (Operation { operands, ..*old(self) }),
    {
        self.operands = operands;
    }

    pub fn set_result_names(&mut self, result_names: Vec<String>)
        ensures
            *final(self) == (Operation { result_names, ..*old(self) }),
    {
        self.result_names = result_names;
    }

    /// Declares the result types. Called once the result names stand, it
    /// fails with `MalformedOperation` when the counts disagree, so that a
    /// well-formed operation can never be completed with mismatched arity.
    pub fn set_result_types(&mut self, result_types: Vec<Type>) -> (r: Result<(), IrError>)
        ensures
            r is Ok ==> *final(self) == (Operation { result_types, ..*old(self) }),
            r is Ok <==> old(self).result_names@.len() == result_types@.len(),
            r is Err ==> *final(self) == *old(self),
            r matches Err(e) ==> e is MalformedOperation,
    {
        if self.result_names.len() != result_types.len() {
            return Err(IrError::MalformedOperation);
        }
        self.result_types = result_types;
        Ok(())
    }

    pub fn set_attributes(&mut self, attributes: Vec<NamedAttribute>)
        ensures
            *final(self) == (Operation { attributes, ..*old(self) }),
    {
        self.attributes = attributes;
    }

    /// Attaches a region at the end of the region list.
    pub fn set_region(&mut self, region: Region)
        ensures
            final(self)@.regions =~= old(self)@.regions.push(region@),
            final(self)@.name == old(self)@.name,
            final(self)@.pos == old(self)@.pos,
            final(self)@.operands == old(self)@.operands,
            final(self)@.result_names == old(self)@.result_names,
            final(self)@.result_types == old(self)@.result_types,
            final(self)@.attributes == old(self)@.attributes,
    {
        proof {
            lemma_region_views(self.regions@.push(region));
            lemma_region_views(self.regions@);
        }
        self.regions.push(region);
    }

    /// The result values the operation produces, surfaced from its result
    /// names and declared types.
    pub fn results(&self) -> (r: Vec<Value>)
        requires
            self@.result_names.len() == self@.result_types.len(),
        ensures
            r@.len() == self@.result_names.len(),
            forall|i: int|
                0 <= i < r@.len() ==> (#[trigger] r@[i])@ == (ValueView {
                    is_argument: false,
                    name: self@.result_names[i],
                    typ: self@.result_types[i],
                }),
    {
        let mut r: Vec<Value> = Vec::new();
        let mut i: usize = 0;
        while i < self.result_names.len()
            invariant
                i <= self.result_names@.len(),
                self@.result_names.len() == self@.result_types.len(),
                self@.result_names.len() == self.result_names@.len(),
                self@.result_types.len() == self.result_types@.len(),
                r@.len() == i,
                forall|k: int|
                    0 <= k < i ==> (#[trigger] r@[k])@ == (ValueView {
                        is_argument: false,
                        name: self@.result_names[k],
                        typ: self@.result_types[k],
                    }),
            decreases self.result_names@.len() - i,
        {
            let v = Value::OpResult {
                name: self.result_names[i].clone(),
                typ: self.result_types[i].clone(),
            };
            r.push(v);
            i = i + 1;
        }
        r
    }

    /// Looks an attribute up by name; the first one of that name answers.
    pub fn attribute(&self, name: &str) -> (r: Option<&Attribute>)
        ensures
            match r {
                Some(a) => attr_lookup(self@.attributes, name@) == Some(a@),
                None => attr_lookup(self@.attributes, name@) is None,
            },
    {
        let key = crate::dialect::str_to_string(name);
        let mut i: usize = 0;
        assert(self@.attributes.skip(0) =~= self@.attributes);
        while i < self.attributes.len()
            invariant
                i <= self.attributes@.len(),
                key@ == name@,
                self@.attributes.len() == self.attributes@.len(),
                forall|k: int| 0 <= k < i ==> (#[trigger] self@.attributes[k]).name != name@,
                attr_lookup(self@.attributes, name@) == attr_lookup(
                    self@.attributes.skip(i as int),
                    name@,
                ),
            decreases self.attributes@.len() - i,
        {
            if self.attributes[i].name.eq(&key) {
                assert(self@.attributes.skip(i as int)[0] == self@.attributes[i as int]);
                return Some(&self.attributes[i].attribute);
            }
            assert(self@.attributes.skip(i as int).drop_first() =~= self@.attributes.skip(
                i + 1 as int,
            ));
            assert(self@.attributes.skip(i as int)[0] == self@.attributes[i as int]);
            i = i + 1;
        }
        None
    }
}

impl Block {
    pub fn new() -> (r: Block)
        ensures
            r@.arguments =~= Seq::<ValueView>::empty(),
            r@.operations =~= Seq::<OperationView>::empty(),
    {
        Block { arguments: Vec::new(), operations: Vec::new() }
    }

    /// Inserts an operation, preserving the order of the others.
    pub fn insert_op(&mut self, index: usize, op: Operation)
        requires
            index <= old(self)@.operations.len(),
        ensures
            final(self)@.operations =~= old(self)@.operations.insert(index as int, op@),
            final(self)@.arguments == old(self)@.arguments,
    {
        proof {
            lemma_op_views(self.operations@);
            lemma_op_views(self.operations@.insert(index as int, op));
        }
        self.operations.insert(index, op);
    }

    /// Removes the operation at `index`, preserving the order of the rest.
    pub fn remove_op(&mut self, index: usize) -> (r: Operation)
        requires
            index < old(self)@.operations.len(),
        ensures
            final(self)@.operations =~= old(self)@.operations.remove(index as int),
            final(self)@.arguments == old(self)@.arguments,
            r@ == old(self)@.operations[index as int],
    {
        proof {
            lemma_op_views(self.operations@);
            lemma_op_views(self.operations@.remove(index as int));
        }
        self.operations.remove(index)
    }
}

impl Module {
    /// The first top-level operation, if any.
    pub fn first_op(&self) -> (r: Option<&Operation>)
        ensures
            r matches Some(op) ==> self@.region.blocks.len() > 0
                && self@.region.blocks[0].operations.len() > 0 && op@
                == self@.region.blocks[0].operations[0],
            r is None ==> self@.region.blocks.len() == 0 || self@.region.blocks[0].operations.len()
                == 0,
    {
        proof {
            lemma_block_views(self.region.blocks@);
        }
        if self.region.blocks.len() == 0 {
            return None;
        }
        let block = &self.region.blocks[0];
        proof {
            lemma_op_views(block.operations@);
        }
        if block.operations.len() == 0 {
            return None;
        }
        Some(&block.operations[0])
    }
}

/// Clones a list of types; the copy has the same view.
pub fn clone_types(types: &Vec<Type>) -> (r: Vec<Type>)
    ensures
        r@.map_values(|t: Type| t@) =~= types@.map_values(|t: Type| t@),
{
    let mut r: Vec<Type> = Vec::new();
    let mut i: usize = 0;
    while i < types.len()
        invariant
            i <= types@.len(),
            r@.len() == i,
            forall|k: int| 0 <= k < i ==> (#[trigger] r@[k])@ == types@[k]@,
        decreases types@.len() - i,
    {
        r.push(types[i].clone());
        i = i + 1;
    }
    r
}

/// Clones a list of values; the copy has the same view.
pub fn clone_values(values: &Vec<Value>) -> (r: Vec<Value>)
    ensures
        r@.map_values(|v: Value| v@) =~= values@.map_values(|v: Value| v@),
{
    let mut r: Vec<Value> = Vec::new();
    let mut i: usize = 0;
    while i < values.len()
        invariant
            i <= values@.len(),
            r@.len() == i,
            forall|k: int| 0 <= k < i ==> (#[trigger] r@[k])@ == values@[k]@,
        decreases values@.len() - i,
    {
        r.push(values[i].clone());
        i = i + 1;
    }
    r
}

/// Clones a list of strings; the copy has the same view.
pub fn clone_strings(strings: &Vec<String>) -> (r: Vec<String>)
    ensures
        r@.map_values(|s: String| s@) =~= strings@.map_values(|s: String| s@),
{
    let mut r: Vec<String> = Vec::new();
    let mut i: usize = 0;
    while i < strings.len()
        invariant
            i <= strings@.len(),
            r@.len() == i,
            forall|k: int| 0 <= k < i ==> (#[trigger] r@[k])@ == strings@[k]@,
        decreases strings@.len() - i,
    {
        r.push(strings[i].clone());
        i = i + 1;
    }
    r
}

/// Clones a list of named attributes; the copy has the same view.
pub fn clone_attributes(attrs: &Vec<NamedAttribute>) -> (r: Vec<NamedAttribute>)
    ensures
        r@.map_values(|a: NamedAttribute| a@) =~= attrs@.map_values(|a: NamedAttribute| a@),
{
    let mut r: Vec<NamedAttribute> = Vec::new();
    let mut i: usize = 0;
    while i < attrs.len()
        invariant
            i <= attrs@.len(),
            r@.len() == i,
            forall|k: int| 0 <= k < i ==> (#[trigger] r@[k])@ == attrs@[k]@,
        decreases attrs@.len() - i,
    {
        r.push(attrs[i].clone());
        i = i + 1;
    }
    r
}

} // verus!
