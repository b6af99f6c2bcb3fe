//! The recursive-descent parser: consumes the token stream and produces a
//! well-formed module graph, or fails with a diagnosable `SyntaxError`.
//!
//! The shared grammar parses the result-binding prefix and the operation
//! name, then dispatches on the grammar shape the dialect registry has
//! registered for that name; unknown names are a `SyntaxError`, never
//! silently skipped. A `%name` must have been bound as a block argument
//! or as a prior result in the same or an enclosing block; an unbound
//! name is a `SyntaxError` found at parse time.

use vstd::prelude::*;

use crate::dialect::str_to_string;
use crate::dialect::kind_lookup;
use crate::dialect::DialectRegistry;
use crate::dialect::OpKind;
use crate::ir::attr_lookup;
use crate::ir::ops_scoped;
use crate::ir::op_views;
use crate::ir::lemma_op_views;
use crate::ir::Attribute;
use crate::ir::AttributeView;
use crate::ir::Block;
use crate::ir::Module;
use crate::ir::NamedAttribute;
use crate::ir::Operation;
use crate::ir::OperationView;
use crate::ir::ValueView;
use crate::ir::Region;
use crate::ir::Type;
use crate::ir::Value;
use crate::token::lex;
use crate::token::wf_tokens;
use crate::token::Token;
use crate::token::TokenKind;
use crate::IrError;
use crate::SyntaxDetail;

verus! {

broadcast use vstd::std_specs::vec::group_vec_axioms, vstd::string::group_string_axioms;

/// The names the values of a scope are bound under.
pub open spec fn scope_names(scope: Seq<Value>) -> Seq<Seq<char>> {
    scope.map_values(|v: Value| v@.name)
}

/// The names bound after a run of operations: the surrounding scope plus
/// every operation's result names, in order.
pub open spec fn block_bound(ops: Seq<OperationView>, scope: Seq<Seq<char>>) -> Seq<Seq<char>>
    decreases ops.len(),
{
    if ops.len() == 0 {
        scope
    } else {
        block_bound(ops.drop_first(), scope + ops[0].result_names)
    }
}

/// A run of scoped operations stays scoped when one more operation,
/// scoped in the names bound after the run, is appended.
pub proof fn lemma_ops_scoped_push(ops: Seq<OperationView>, scope: Seq<Seq<char>>, op: OperationView)
    requires
        ops_scoped(ops, scope),
        op.scoped(block_bound(ops, scope)),
    ensures
        ops_scoped(ops.push(op), scope),
    decreases ops.len(),
{
    if ops.len() == 0 {
        assert(ops.push(op)[0] == op);
        assert(ops.push(op).drop_first() =~= Seq::<OperationView>::empty());
        assert(ops_scoped(Seq::<OperationView>::empty(), scope + op.result_names));
        assert(op.scoped(scope));
        assert(ops_scoped(ops.push(op), scope));
    } else {
        assert(ops.push(op)[0] == ops[0]);
        assert(ops.push(op).drop_first() =~= ops.drop_first().push(op));
        lemma_ops_scoped_push(ops.drop_first(), scope + ops[0].result_names, op);
        assert(ops_scoped(ops.drop_first().push(op), scope + ops[0].result_names));
        assert(ops_scoped(ops.push(op), scope));
    }
}

/// Appending an operation extends the bound names by its result names.
pub proof fn lemma_block_bound_push(ops: Seq<OperationView>, scope: Seq<Seq<char>>, op: OperationView)
    ensures
        block_bound(ops.push(op), scope) == block_bound(ops, scope) + op.result_names,
    decreases ops.len(),
{
    if ops.len() == 0 {
        assert(ops.push(op)[0] == op);
        assert(ops.push(op).drop_first() =~= Seq::<OperationView>::empty());
        assert(block_bound(Seq::<OperationView>::empty(), scope + op.result_names) == scope
            + op.result_names);
        assert(block_bound(ops.push(op), scope) == scope + op.result_names);
    } else {
        assert(ops.push(op)[0] == ops[0]);
        assert(ops.push(op).drop_first() =~= ops.drop_first().push(op));
        lemma_block_bound_push(ops.drop_first(), scope + ops[0].result_names, op);
        assert(block_bound(ops.push(op), scope) == block_bound(
            ops.drop_first().push(op),
            scope + ops[0].result_names,
        ));
    }
}

/// Where a bare run of type tokens ends.
pub open spec fn type_run_end(tokens: Seq<Token>, pos: int) -> int
    decreases tokens.len() - pos,
{
    if 0 <= pos < tokens.len() && tokens[pos].kind == TokenKind::IntType {
        type_run_end(tokens, pos + 1)
    } else {
        pos
    }
}

/// The type texts of a bare run of type tokens, in source order.
pub open spec fn type_run_types(tokens: Seq<Token>, pos: int) -> Seq<Seq<char>>
    decreases tokens.len() - pos,
{
    if 0 <= pos < tokens.len() && tokens[pos].kind == TokenKind::IntType {
        seq![tokens[pos].lexeme@] + type_run_types(tokens, pos + 1)
    } else {
        Seq::empty()
    }
}

/// Where a comma-separated run of type tokens ends.
pub open spec fn typelist_run_end(tokens: Seq<Token>, pos: int) -> int
    decreases tokens.len() - pos,
{
    if 0 <= pos < tokens.len() && tokens[pos].kind == TokenKind::IntType {
        if pos + 1 < tokens.len() && tokens[pos + 1].kind == TokenKind::Comma {
            typelist_run_end(tokens, pos + 2)
        } else {
            typelist_run_end(tokens, pos + 1)
        }
    } else {
        pos
    }
}

/// The type texts of a comma-separated run of type tokens, in order.
pub open spec fn typelist_run_types(tokens: Seq<Token>, pos: int) -> Seq<Seq<char>>
    decreases tokens.len() - pos,
{
    if 0 <= pos < tokens.len() && tokens[pos].kind == TokenKind::IntType {
        if pos + 1 < tokens.len() && tokens[pos + 1].kind == TokenKind::Comma {
            seq![tokens[pos].lexeme@] + typelist_run_types(tokens, pos + 2)
        } else {
            seq![tokens[pos].lexeme@] + typelist_run_types(tokens, pos + 1)
        }
    } else {
        Seq::empty()
    }
}

/// Where a comma-separated run of `%` operand tokens ends.
pub open spec fn operand_run_end(tokens: Seq<Token>, pos: int) -> int
    decreases tokens.len() - pos,
{
    if 0 <= pos < tokens.len() && tokens[pos].kind == TokenKind::PercentIdentifier {
        if pos + 1 < tokens.len() && tokens[pos + 1].kind == TokenKind::Comma {
            operand_run_end(tokens, pos + 2)
        } else {
            operand_run_end(tokens, pos + 1)
        }
    } else {
        pos
    }
}

/// The names of a comma-separated run of `%` operand tokens, in order.
pub open spec fn operand_run_names(tokens: Seq<Token>, pos: int) -> Seq<Seq<char>>
    decreases tokens.len() - pos,
{
    if 0 <= pos < tokens.len() && tokens[pos].kind == TokenKind::PercentIdentifier {
        if pos + 1 < tokens.len() && tokens[pos + 1].kind == TokenKind::Comma {
            seq![tokens[pos].lexeme@] + operand_run_names(tokens, pos + 2)
        } else {
            seq![tokens[pos].lexeme@] + operand_run_names(tokens, pos + 1)
        }
    } else {
        Seq::empty()
    }
}

/// What the optional trailing result types at a position denote: nothing
/// without an `Arrow`, else the bare or the parenthesised run.
pub open spec fn result_types_spec(tokens: Seq<Token>, pos: int) -> Seq<Seq<char>> {
    if !(0 <= pos < tokens.len()) || tokens[pos].kind != TokenKind::Arrow {
        Seq::empty()
    } else if pos + 1 < tokens.len() && tokens[pos + 1].kind == TokenKind::LParen {
        typelist_run_types(tokens, pos + 2)
    } else {
        type_run_types(tokens, pos + 1)
    }
}

/// The cursor just past one block-argument group: past the `%` name, the
/// optional `: type` annotation, and one optional trailing comma.
pub open spec fn barg_group_end(tokens: Seq<Token>, pos: int) -> int {
    let after = if pos + 1 < tokens.len() && tokens[pos + 1].kind == TokenKind::Colon {
        if pos + 2 < tokens.len() && tokens[pos + 2].kind != TokenKind::Eof {
            pos + 3
        } else {
            pos + 2
        }
    } else {
        pos + 1
    };
    if after < tokens.len() && tokens[after].kind == TokenKind::Comma {
        after + 1
    } else {
        after
    }
}

/// The value one block-argument group denotes: the `%` token's name and
/// the annotated type, or the default without an annotation.
pub open spec fn barg_group_value(tokens: Seq<Token>, pos: int) -> ValueView {
    ValueView {
        is_argument: true,
        name: tokens[pos].lexeme@,
        typ: if pos + 1 < tokens.len() && tokens[pos + 1].kind == TokenKind::Colon {
            tokens[pos + 2].lexeme@
        } else {
            "any"@
        },
    }
}

/// Where a run of block-argument groups ends.
pub open spec fn barg_run_end(tokens: Seq<Token>, pos: int) -> int
    decreases tokens.len() - pos,
{
    if 0 <= pos < tokens.len() && tokens[pos].kind == TokenKind::PercentIdentifier {
        barg_run_end(tokens, barg_group_end(tokens, pos))
    } else {
        pos
    }
}

/// The values of a run of block-argument groups, in source order.
pub open spec fn barg_run_args(tokens: Seq<Token>, pos: int) -> Seq<ValueView>
    decreases tokens.len() - pos,
{
    if 0 <= pos < tokens.len() && tokens[pos].kind == TokenKind::PercentIdentifier {
        seq![barg_group_value(tokens, pos)] + barg_run_args(tokens, barg_group_end(tokens, pos))
    } else {
        Seq::empty()
    }
}

/// Whether the optional result-binding prefix is well shaped: either no
/// `%` binding stands at the cursor, or the binding run is followed by
/// `=`.
pub open spec fn operation_prefix_ok(tokens: Seq<Token>, pos: int) -> bool {
    tokens[pos].kind == TokenKind::PercentIdentifier ==> tokens[operand_run_end(
        tokens,
        pos,
    )].kind == TokenKind::Equal
}

/// Where the operation-name token stands: at the cursor, or just past
/// the binding run and its `=`.
pub open spec fn operation_name_at(tokens: Seq<Token>, pos: int) -> int {
    if tokens[pos].kind == TokenKind::PercentIdentifier {
        operand_run_end(tokens, pos) + 1
    } else {
        pos
    }
}

/// The operation's name stands in the token stream as a bare-identifier
/// token at the operation's recorded position, and so on for every
/// nested operation: the graph is drawn from the stream, not invented.
pub open spec fn op_from_tokens(op: OperationView, tokens: Seq<Token>) -> bool
    decreases op,
{
    &&& (exists|j: int|
        0 <= j < tokens.len() && (#[trigger] tokens[j]).kind == TokenKind::BareIdentifier
            && op.name == tokens[j].lexeme@ && op.pos == tokens[j].pos)
    &&& forall|i: int| 0 <= i < op.regions.len() ==> region_from_tokens(
        #[trigger] op.regions[i],
        tokens,
    )
}

pub open spec fn region_from_tokens(region: crate::ir::RegionView, tokens: Seq<Token>) -> bool
    decreases region,
{
    forall|i: int| 0 <= i < region.blocks.len() ==> block_from_tokens(
        #[trigger] region.blocks[i],
        tokens,
    )
}

pub open spec fn block_from_tokens(block: crate::ir::BlockView, tokens: Seq<Token>) -> bool
    decreases block,
{
    forall|i: int| 0 <= i < block.operations.len() ==> op_from_tokens(
        #[trigger] block.operations[i],
        tokens,
    )
}

/// The operation's name, and every nested operation's name, is the text
/// of the source at the operation's recorded position.
pub open spec fn op_named_in(op: OperationView, src: Seq<char>) -> bool
    decreases op,
{
    &&& op.name.len() > 0
    &&& 0 <= op.pos
    &&& op.pos + op.name.len() <= src.len()
    &&& op.name == src.subrange(op.pos, op.pos + op.name.len())
    &&& forall|i: int| 0 <= i < op.regions.len() ==> region_named_in(
        #[trigger] op.regions[i],
        src,
    )
}

pub open spec fn region_named_in(region: crate::ir::RegionView, src: Seq<char>) -> bool
    decreases region,
{
    forall|i: int| 0 <= i < region.blocks.len() ==> block_named_in(#[trigger] region.blocks[i], src)
}

pub open spec fn block_named_in(block: crate::ir::BlockView, src: Seq<char>) -> bool
    decreases block,
{
    forall|i: int| 0 <= i < block.operations.len() ==> op_named_in(
        #[trigger] block.operations[i],
        src,
    )
}

pub open spec fn module_named_in(m: crate::ir::ModuleView, src: Seq<char>) -> bool {
    region_named_in(m.region, src)
}

/// An operation drawn from a token stream whose tokens read back the
/// source is named in the source itself.
pub proof fn lemma_named_from_tokens(op: OperationView, tokens: Seq<Token>, src: Seq<char>)
    requires
        op_from_tokens(op, tokens),
        wf_tokens(tokens),
        forall|k: int| 0 <= k < tokens.len() - 1 ==> crate::token::token_matches_source(
            tokens,
            k,
            src,
        ),
    ensures
        op_named_in(op, src),
    decreases op,
{
    let j = choose|j: int|
        0 <= j < tokens.len() && (#[trigger] tokens[j]).kind == TokenKind::BareIdentifier
            && op.name == tokens[j].lexeme@ && op.pos == tokens[j].pos;
    assert(j < tokens.len() - 1);
    assert(crate::token::token_matches_source(tokens, j, src));
    assert forall|i: int| 0 <= i < op.regions.len() implies region_named_in(
        #[trigger] op.regions[i],
        src,
    ) by {
        lemma_region_named_from_tokens(op.regions[i], tokens, src);
    }
}

pub proof fn lemma_region_named_from_tokens(
    region: crate::ir::RegionView,
    tokens: Seq<Token>,
    src: Seq<char>,
)
    requires
        region_from_tokens(region, tokens),
        wf_tokens(tokens),
        forall|k: int| 0 <= k < tokens.len() - 1 ==> crate::token::token_matches_source(
            tokens,
            k,
            src,
        ),
    ensures
        region_named_in(region, src),
    decreases region,
{
    assert forall|i: int| 0 <= i < region.blocks.len() implies block_named_in(
        #[trigger] region.blocks[i],
        src,
    ) by {
        assert forall|q: int| 0 <= q < region.blocks[i].operations.len() implies op_named_in(
            #[trigger] region.blocks[i].operations[q],
            src,
        ) by {
            lemma_named_from_tokens(region.blocks[i].operations[q], tokens, src);
        }
    }
}

/// The latest binding of `name` in a scope, shadowing earlier ones.
pub open spec fn scope_lookup(scope: Seq<Value>, name: Seq<char>) -> Option<Value>
    decreases scope.len(),
{
    if scope.len() == 0 {
        None
    } else if scope.last()@.name == name {
        Some(scope.last())
    } else {
        scope_lookup(scope.drop_last(), name)
    }
}

/// A name is found exactly when some value in scope carries it, and what
/// is found carries the name.
pub proof fn lemma_scope_lookup(scope: Seq<Value>, name: Seq<char>)
    ensures
        scope_lookup(scope, name) is Some <==> scope_names(scope).contains(name),
        scope_lookup(scope, name) matches Some(v) ==> v@.name == name && scope.contains(v),
    decreases scope.len(),
{
    if scope.len() > 0 {
        lemma_scope_lookup(scope.drop_last(), name);
        if scope.last()@.name == name {
            assert(scope_names(scope)[scope.len() - 1] == name);
        } else {
            if scope_names(scope.drop_last()).contains(name) {
                let k = choose|k: int|
                    0 <= k < scope.len() - 1 && scope_names(scope.drop_last())[k] == name;
                assert(scope_names(scope)[k] == name);
            }
            if scope_names(scope).contains(name) {
                let k = choose|k: int| 0 <= k < scope.len() && scope_names(scope)[k] == name;
                assert(k < scope.len() - 1);
                assert(scope_names(scope.drop_last())[k] == name);
            }
            match scope_lookup(scope.drop_last(), name) {
                Some(v) => {
                    assert(scope.drop_last().contains(v));
                    let k = choose|k: int| 0 <= k < scope.len() - 1 && scope.drop_last()[k] == v;
                    assert(scope[k] == v);
                },
                None => {},
            }
        }
    }
}

/// The recursive-descent parser: the token stream, the cursor, the values
/// in scope at the cursor, and the registry parsing dispatches through.
pub struct Parser {
    pub tokens: Vec<Token>,
    pub pos: usize,
    pub scope: Vec<Value>,
    pub registry: DialectRegistry,
}

impl Parser {
    pub open spec fn wf(self) -> bool {
        &&& wf_tokens(self.tokens@)
        &&& self.pos < self.tokens@.len()
    }

    /// The token under the cursor.
    pub open spec fn cur(self) -> Token {
        self.tokens@[self.pos as int]
    }

    pub fn new(registry: DialectRegistry, tokens: Vec<Token>) -> (r: Parser)
        requires
            wf_tokens(tokens@),
        ensures
            r.wf(),
            r.tokens == tokens,
            r.registry == registry,
            r.pos == 0,
            r.scope@ =~= Seq::<Value>::empty(),
    {
        Parser { tokens, pos: 0, scope: Vec::new(), registry }
    }

    pub fn peek(&self) -> (r: &Token)
        requires
            self.wf(),
        ensures
            *r == self.cur(),
    {
        &self.tokens[self.pos]
    }

    pub fn check(&self, kind: TokenKind) -> (r: bool)
        requires
            self.wf(),
        ensures
            r == (self.cur().kind == kind),
    {
        self.tokens[self.pos].kind == kind
    }

    /// Hands the token under the cursor out and moves on, except at the
    /// end of the stream, where the cursor stays on the `Eof` token.
    pub fn advance(&mut self) -> (r: Token)
        requires
            old(self).wf(),
        ensures
            final(self).wf(),
            final(self).tokens == old(self).tokens,
            final(self).scope == old(self).scope,
            final(self).registry == old(self).registry,
            r == old(self).cur(),
            old(self).cur().kind != TokenKind::Eof ==> final(self).pos == old(self).pos + 1,
            old(self).cur().kind == TokenKind::Eof ==> final(self).pos == old(self).pos,
    {
        let n = self.tokens.len();
        let t = self.tokens[self.pos].clone();
        if !(t.kind == TokenKind::Eof) {
            assert(self.pos < n - 1);
            self.pos = self.pos + 1;
        }
        t
    }

    /// Demands a token of one kind; otherwise a `SyntaxError` carrying
    /// the expected and the found kind, and the source position.
    pub fn expect(&mut self, kind: TokenKind) -> (r: Result<Token, IrError>)
        requires
            old(self).wf(),
        ensures
            final(self).wf(),
            final(self).tokens == old(self).tokens,
            final(self).scope == old(self).scope,
            final(self).registry == old(self).registry,
            final(self).pos >= old(self).pos,
            r is Ok <==> old(self).cur().kind == kind,
            r matches Ok(t) ==> t == old(self).cur() && t.kind == kind,
            r is Ok && kind != TokenKind::Eof ==> final(self).pos == old(self).pos + 1,
            r is Err ==> *final(self) == *old(self),
            r matches Err(e) ==> e == (IrError::SyntaxError {
                detail: SyntaxDetail::Expected { expected: kind, found: old(self).cur().kind },
                pos: old(self).cur().pos,
            }),
    {
        if self.check(kind) {
            Ok(self.advance())
        } else {
            let found = self.tokens[self.pos].kind;
            let pos = self.tokens[self.pos].pos;
            Err(IrError::SyntaxError { detail: SyntaxDetail::Expected { expected: kind, found }, pos })
        }
    }

    /// Takes the token under the cursor and demands, after the fact, that
    /// it had the given kind; its text is the answer.
    pub fn identifier(&mut self, kind: TokenKind) -> (r: Result<String, IrError>)
        requires
            old(self).wf(),
        ensures
            final(self).wf(),
            final(self).tokens == old(self).tokens,
            final(self).scope == old(self).scope,
            final(self).registry == old(self).registry,
            final(self).pos >= old(self).pos,
            r is Ok <==> old(self).cur().kind == kind,
            r matches Ok(s) ==> s == old(self).cur().lexeme,
            r is Ok && kind != TokenKind::Eof ==> final(self).pos == old(self).pos + 1,
            r matches Err(e) ==> e == (IrError::SyntaxError {
                detail: SyntaxDetail::Expected { expected: kind, found: old(self).cur().kind },
                pos: old(self).cur().pos,
            }),
    {
        let identifier = self.advance();
        if !(identifier.kind == kind) {
            return Err(IrError::SyntaxError {
                detail: SyntaxDetail::Expected { expected: kind, found: identifier.kind },
                pos: identifier.pos,
            });
        }
        Ok(identifier.lexeme)
    }

    /// Finds the latest binding of `name` in scope.
    fn lookup_value(&self, name: &String) -> (r: Option<Value>)
        ensures
            r == scope_lookup(self.scope@, name@),
            r matches Some(v) ==> scope_names(self.scope@).contains(v@.name) && v@.name == name@,
            r is None ==> !scope_names(self.scope@).contains(name@),
    {
        proof {
            lemma_scope_lookup(self.scope@, name@);
        }
        let mut i: usize = self.scope.len();
        proof {
            assert(self.scope@.subrange(0, i as int) =~= self.scope@);
        }
        while i > 0
            invariant
                i <= self.scope@.len(),
                scope_lookup(self.scope@, name@) == scope_lookup(
                    self.scope@.subrange(0, i as int),
                    name@,
                ),
            decreases i,
        {
            i = i - 1;
            proof {
                assert(self.scope@.subrange(0, i + 1 as int).last() == self.scope@[i as int]);
                assert(self.scope@.subrange(0, i + 1 as int).drop_last() =~= self.scope@.subrange(
                    0,
                    i as int,
                ));
            }
            if self.scope[i].name().eq(name) {
                let v = self.scope[i].clone();
                proof {
                    assert(scope_lookup(self.scope@.subrange(0, i + 1 as int), name@) == Some(
                        self.scope@[i as int],
                    ));
                    assert(scope_lookup(self.scope@, name@) == Some(self.scope@[i as int]));
                    assert(v == self.scope@[i as int]);
                    assert(scope_names(self.scope@)[i as int] == v@.name);
                }
                return Some(v);
            }
        }
        proof {
            assert(self.scope@.subrange(0, 0) =~= Seq::<Value>::empty());
        }
        None
    }

    /// One operand: a `%name` that must already be bound, answered with
    /// the value it is bound to.
    pub fn argument(&mut self) -> (r: Result<Value, IrError>)
        requires
            old(self).wf(),
        ensures
            final(self).wf(),
            final(self).tokens == old(self).tokens,
            final(self).scope == old(self).scope,
            final(self).registry == old(self).registry,
            final(self).pos >= old(self).pos,
            r is Ok ==> final(self).pos == old(self).pos + 1,
            r is Ok <==> (old(self).cur().kind == TokenKind::PercentIdentifier && scope_lookup(
                old(self).scope@,
                old(self).cur().lexeme@,
            ) is Some),
            r matches Ok(v) ==> Some(v) == scope_lookup(old(self).scope@, old(self).cur().lexeme@)
                && scope_names(old(self).scope@).contains(v@.name) && v@.name == old(
                self,
            ).cur().lexeme@,
            old(self).cur().kind != TokenKind::PercentIdentifier ==> r == Result::<
                Value,
                IrError,
            >::Err(
                IrError::SyntaxError {
                    detail: SyntaxDetail::Expected {
                        expected: TokenKind::PercentIdentifier,
                        found: old(self).cur().kind,
                    },
                    pos: old(self).cur().pos,
                },
            ),
            old(self).cur().kind == TokenKind::PercentIdentifier && scope_lookup(
                old(self).scope@,
                old(self).cur().lexeme@,
            ) is None ==> r == Result::<Value, IrError>::Err(
                IrError::SyntaxError {
                    detail: SyntaxDetail::UnboundValue { name: old(self).cur().lexeme },
                    pos: old(self).cur().pos,
                },
            ),
            r matches Err(e) ==> e matches IrError::SyntaxError { .. },
    {
        let t = self.expect(TokenKind::PercentIdentifier)?;
        match self.lookup_value(&t.lexeme) {
            Some(v) => Ok(v),
            None => Err(
                IrError::SyntaxError {
                    detail: SyntaxDetail::UnboundValue { name: t.lexeme },
                    pos: t.pos,
                },
            ),
        }
    }

    /// A comma-separated run of operands: `%a, %b`. One value answers
    /// per operand token, in source order, each the binding of its name;
    /// the run succeeds exactly when every operand name is bound.
    pub fn arguments(&mut self) -> (r: Result<Vec<Value>, IrError>)
        requires
            old(self).wf(),
        ensures
            final(self).wf(),
            final(self).tokens == old(self).tokens,
            final(self).scope == old(self).scope,
            final(self).registry == old(self).registry,
            final(self).pos >= old(self).pos,
            r matches Ok(vals) ==> forall|i: int|
                0 <= i < vals@.len() ==> scope_names(old(self).scope@).contains(
                    (#[trigger] vals@[i])@.name,
                ),
            r is Ok <==> (forall|i: int|
                0 <= i < operand_run_names(old(self).tokens@, old(self).pos as int).len()
                    ==> scope_lookup(
                    old(self).scope@,
                    operand_run_names(old(self).tokens@, old(self).pos as int)[i],
                ) is Some),
            r matches Ok(vals) ==> vals@.len() == operand_run_names(
                old(self).tokens@,
                old(self).pos as int,
            ).len() && final(self).pos == operand_run_end(old(self).tokens@, old(self).pos as int)
                && (forall|i: int|
                0 <= i < vals@.len() ==> Some(#[trigger] vals@[i]) == scope_lookup(
                    old(self).scope@,
                    operand_run_names(old(self).tokens@, old(self).pos as int)[i],
                )),
            r matches Err(e) ==> e matches IrError::SyntaxError { .. },
    {
        let ghost toks = self.tokens@;
        let ghost pos0 = self.pos as int;
        let ghost scope0 = self.scope@;
        let ghost names = operand_run_names(toks, pos0);
        let mut arguments: Vec<Value> = Vec::new();
        proof {
            assert(names.skip(0) =~= names);
        }
        while self.check(TokenKind::PercentIdentifier)
            invariant
                self.wf(),
                self.tokens == old(self).tokens,
                self.scope == old(self).scope,
                self.registry == old(self).registry,
                self.pos >= old(self).pos,
                toks == self.tokens@,
                pos0 == old(self).pos as int,
                scope0 == self.scope@,
                names == operand_run_names(toks, pos0),
                operand_run_end(toks, pos0) == operand_run_end(toks, self.pos as int),
                arguments@.len() <= names.len(),
                operand_run_names(toks, self.pos as int) =~= names.skip(arguments@.len() as int),
                forall|i: int|
                    0 <= i < arguments@.len() ==> Some(#[trigger] arguments@[i]) == scope_lookup(
                        scope0,
                        names[i],
                    ),
                forall|i: int|
                    0 <= i < arguments@.len() ==> scope_names(scope0).contains(
                        (#[trigger] arguments@[i])@.name,
                    ),
            decreases self.tokens@.len() - self.pos,
        {
            let ghost k = arguments@.len() as int;
            let ghost p = self.pos as int;
            proof {
                assert(operand_run_names(toks, p).len() >= 1);
                assert(names.skip(k).len() >= 1);
                assert(k < names.len());
                assert(operand_run_names(toks, p)[0] == toks[p].lexeme@);
                assert(names.skip(k)[0] == names[k]);
                assert(names[k] == toks[p].lexeme@);
            }
            let v = match self.argument() {
                Ok(v) => v,
                Err(e) => {
                    proof {
                        assert(scope_lookup(scope0, names[k]) is None);
                        if forall|i: int|
                            0 <= i < names.len() ==> scope_lookup(scope0, #[trigger] names[i])
                                is Some {
                            assert(scope_lookup(scope0, names[k]) is Some);
                        }
                    }
                    return Err(e);
                },
            };
            arguments.push(v);
            if self.check(TokenKind::Comma) {
                let _comma = self.advance();
            }
            proof {
                assert(operand_run_names(toks, p) =~= seq![toks[p].lexeme@]
                    + operand_run_names(toks, self.pos as int));
                assert(names.skip(k) =~= seq![names[k]] + names.skip(k + 1));
                assert(operand_run_names(toks, self.pos as int) =~= (seq![toks[p].lexeme@]
                    + operand_run_names(toks, self.pos as int)).skip(1));
                assert(names.skip(k + 1) =~= (seq![names[k]] + names.skip(k + 1)).skip(1));
                assert(operand_run_names(toks, self.pos as int) =~= names.skip(k + 1));
                assert(operand_run_end(toks, p) == operand_run_end(toks, self.pos as int));
            }
        }
        proof {
            assert(operand_run_names(toks, self.pos as int) =~= Seq::<Seq<char>>::empty());
            assert(names.skip(arguments@.len() as int).len() == 0);
            assert(arguments@.len() == names.len());
            assert(operand_run_end(toks, self.pos as int) == self.pos as int);
            assert forall|i: int| 0 <= i < names.len() implies scope_lookup(
                scope0,
                #[trigger] names[i],
            ) is Some by {
                assert(Some(arguments@[i]) == scope_lookup(scope0, names[i]));
            }
        }
        Ok(arguments)
    }

    /// One block argument with its optional type: `%arg0 : i64`. A
    /// trailing comma is consumed. The argument is a fresh definition,
    /// not a reference.
    pub fn block_argument(&mut self) -> (r: Result<Value, IrError>)
        requires
            old(self).wf(),
        ensures
            final(self).wf(),
            final(self).tokens == old(self).tokens,
            final(self).scope == old(self).scope,
            final(self).registry == old(self).registry,
            final(self).pos >= old(self).pos,
            r is Ok ==> final(self).pos > old(self).pos,
            r is Ok <==> old(self).cur().kind == TokenKind::PercentIdentifier,
            r matches Ok(v) ==> v@.is_argument && v@.name == old(self).cur().lexeme@,
            r matches Ok(v) ==> v@ == barg_group_value(old(self).tokens@, old(self).pos as int),
            r is Ok ==> final(self).pos == barg_group_end(old(self).tokens@, old(self).pos as int),
            r matches Err(e) ==> e == (IrError::SyntaxError {
                detail: SyntaxDetail::Expected {
                    expected: TokenKind::PercentIdentifier,
                    found: old(self).cur().kind,
                },
                pos: old(self).cur().pos,
            }),
    {
        let identifier = self.expect(TokenKind::PercentIdentifier)?;
        let typ = if self.check(TokenKind::Colon) {
            let _colon = self.advance();
            let typ = self.advance();
            Type::new(typ.lexeme)
        } else {
            Type::new(str_to_string("any"))
        };
        let operand = Value::BlockArgument { name: identifier.lexeme, typ };
        if self.check(TokenKind::Comma) {
            let _comma = self.advance();
        }
        Ok(operand)
    }

    /// A parenthesised run of block arguments: `%arg0 : i64, %arg1 : i64`
    /// up to the closing parenthesis, which is consumed; a colon may
    /// follow instead and stays.
    pub fn block_arguments(&mut self) -> (r: Result<Vec<Value>, IrError>)
        requires
            old(self).wf(),
        ensures
            final(self).wf(),
            final(self).tokens == old(self).tokens,
            final(self).scope == old(self).scope,
            final(self).registry == old(self).registry,
            final(self).pos >= old(self).pos,
            r matches Ok(vals) ==> forall|i: int|
                0 <= i < vals@.len() ==> (#[trigger] vals@[i])@.is_argument,
            r matches Ok(vals) ==> vals@.map_values(|v: Value| v@) == barg_run_args(
                old(self).tokens@,
                old(self).pos as int,
            ),
            r is Ok <==> (old(self).tokens@[barg_run_end(old(self).tokens@, old(self).pos as int)].kind
                == TokenKind::RParen || old(self).tokens@[barg_run_end(
                old(self).tokens@,
                old(self).pos as int,
            )].kind == TokenKind::Colon),
            r is Ok ==> final(self).pos == (if old(self).tokens@[barg_run_end(
                old(self).tokens@,
                old(self).pos as int,
            )].kind == TokenKind::RParen {
                barg_run_end(old(self).tokens@, old(self).pos as int) + 1
            } else {
                barg_run_end(old(self).tokens@, old(self).pos as int)
            }),
            r matches Err(e) ==> e == (IrError::SyntaxError {
                detail: SyntaxDetail::Expected {
                    expected: TokenKind::RParen,
                    found: old(self).tokens@[barg_run_end(
                        old(self).tokens@,
                        old(self).pos as int,
                    )].kind,
                },
                pos: old(self).tokens@[barg_run_end(old(self).tokens@, old(self).pos as int)].pos,
            }),
            r matches Err(e) ==> e matches IrError::SyntaxError { .. },
    {
        let ghost toks = self.tokens@;
        let ghost pos0 = self.pos as int;
        let ghost all = barg_run_args(toks, pos0);
        let mut operands: Vec<Value> = Vec::new();
        proof {
            assert(all.skip(0) =~= all);
        }
        while self.check(TokenKind::PercentIdentifier)
            invariant
                self.wf(),
                self.tokens == old(self).tokens,
                self.scope == old(self).scope,
                self.registry == old(self).registry,
                self.pos >= old(self).pos,
                toks == self.tokens@,
                pos0 == old(self).pos as int,
                all == barg_run_args(toks, pos0),
                operands@.len() <= all.len(),
                barg_run_end(toks, pos0) == barg_run_end(toks, self.pos as int),
                barg_run_args(toks, self.pos as int) =~= all.skip(operands@.len() as int),
                forall|i: int| 0 <= i < operands@.len() ==> (#[trigger] operands@[i])@ == all[i],
                forall|i: int| 0 <= i < operands@.len() ==> (#[trigger] operands@[i])@.is_argument,
            decreases self.tokens@.len() - self.pos,
        {
            let ghost k = operands@.len() as int;
            let ghost p = self.pos as int;
            proof {
                assert(barg_run_args(toks, p).len() >= 1);
                assert(all.skip(k).len() >= 1);
                assert(k < all.len());
                assert(barg_run_args(toks, p)[0] == barg_group_value(toks, p));
                assert(all.skip(k)[0] == all[k]);
            }
            let v = match self.block_argument() {
                Ok(v) => v,
                Err(e) => {
                    return Err(e);
                },
            };
            operands.push(v);
            proof {
                assert(barg_run_args(toks, p) =~= seq![barg_group_value(toks, p)] + barg_run_args(
                    toks,
                    self.pos as int,
                ));
                assert(barg_run_args(toks, self.pos as int) =~= (seq![barg_group_value(toks, p)]
                    + barg_run_args(toks, self.pos as int)).skip(1));
                assert(all.skip(k + 1) =~= (seq![all[k]] + all.skip(k + 1)).skip(1));
                assert(all.skip(k) =~= seq![all[k]] + all.skip(k + 1));
                assert(barg_run_args(toks, self.pos as int) =~= all.skip(k + 1));
                assert(barg_run_end(toks, p) == barg_run_end(toks, self.pos as int));
            }
        }
        proof {
            assert(barg_run_args(toks, self.pos as int) =~= Seq::<ValueView>::empty());
            assert(all.skip(operands@.len() as int).len() == 0);
            assert(operands@.len() == all.len());
            assert(barg_run_end(toks, self.pos as int) == self.pos as int);
            assert(operands@.map_values(|v: Value| v@) =~= all);
        }
        if self.check(TokenKind::RParen) {
            let _rparen = self.advance();
        } else if self.check(TokenKind::Colon) {
        } else {
            let found = self.tokens[self.pos].kind;
            let pos = self.tokens[self.pos].pos;
            return Err(
                IrError::SyntaxError {
                    detail: SyntaxDetail::Expected { expected: TokenKind::RParen, found },
                    pos,
                },
            );
        }
        Ok(operands)
    }

    /// Reads an integer literal token as a value; succeeds exactly when
    /// the text is all digits and the value fits the machine.
    fn integer_literal(&self, token: &Token) -> (r: Result<u64, IrError>)
        ensures
            r matches Ok(v) ==> v == crate::digits::spec_decimal_value(token.lexeme@),
            r is Ok <==> ((forall|i: int|
                0 <= i < token.lexeme@.len() ==> crate::token::is_digit_char(
                    #[trigger] token.lexeme@[i],
                )) && crate::digits::spec_decimal_value(token.lexeme@) <= u64::MAX),
            r matches Err(e) ==> e matches IrError::SyntaxError { .. },
    {
        let s = token.lexeme.as_str();
        let n = vstd::string::StrSliceExecFns::unicode_len(s);
        let mut chars: Vec<char> = Vec::new();
        let mut i: usize = 0;
        while i < n
            invariant
                i <= n,
                n == s@.len(),
                s@ == token.lexeme@,
                chars@ =~= s@.subrange(0, i as int),
                forall|k: int|
                    0 <= k < chars@.len() ==> crate::token::is_digit_char(#[trigger] chars@[k]),
            decreases n - i,
        {
            let c = vstd::string::StrSliceExecFns::get_char(s, i);
            let u = c as u32;
            if !(48 <= u && u <= 57) {
                proof {
                    assert(token.lexeme@[i as int] == c);
                    assert(!crate::token::is_digit_char(token.lexeme@[i as int]));
                }
                return Err(
                    IrError::SyntaxError {
                        detail: SyntaxDetail::UnexpectedCharacter,
                        pos: token.pos,
                    },
                );
            }
            chars.push(c);
            i = i + 1;
        }
        assert(chars@ =~= token.lexeme@);
        match crate::digits::decimal_value(&chars) {
            Some(v) => Ok(v),
            None => Err(
                IrError::SyntaxError { detail: SyntaxDetail::LiteralOutOfRange, pos: token.pos },
            ),
        }
    }

    /// One operation: the optional `%r =` or `%a, %b =` result-binding
    /// prefix, then the operation name, then the body grammar of whatever
    /// shape the registry holds for that name. An unregistered name is a
    /// `SyntaxError`, never a silent no-op.
    ///
    /// On success the operation is well formed, every operand it consumes
    /// was bound in the scope at entry, its name and those of every nested
    /// operation are registered, and its results have been bound in scope.
    pub fn operation(&mut self) -> (r: Result<Operation, IrError>)
        requires
            old(self).wf(),
        ensures
            final(self).wf(),
            final(self).tokens == old(self).tokens,
            final(self).registry == old(self).registry,
            final(self).pos >= old(self).pos,
            r matches Ok(op) ==> ({
                &&& op@.wf()
                &&& op@.scoped(scope_names(old(self).scope@))
                &&& op@.registered(old(self).registry.spec_names())
                &&& final(self).pos > old(self).pos
                &&& final(self).scope@.len() >= old(self).scope@.len()
                &&& final(self).scope@.subrange(0, old(self).scope@.len() as int) == old(
                    self,
                ).scope@
                &&& scope_names(final(self).scope@) == scope_names(old(self).scope@)
                    + op@.result_names
            }),
            r matches Ok(op) ==> (exists|j: int|
                old(self).pos <= j < final(self).pos && (#[trigger] old(self).tokens@[j]).kind
                    == TokenKind::BareIdentifier && op@.name == old(self).tokens@[j].lexeme@
                    && op@.pos == old(self).tokens@[j].pos),
            r matches Ok(op) ==> op_from_tokens(op@, old(self).tokens@),
            old(self).cur().kind == TokenKind::BareIdentifier
                && !old(self).registry.spec_names().contains(old(self).cur().lexeme@) ==> r
                == Result::<Operation, IrError>::Err(
                IrError::SyntaxError {
                    detail: SyntaxDetail::UnknownOperation { name: old(self).cur().lexeme },
                    pos: old(self).cur().pos,
                },
            ),
            operation_prefix_ok(old(self).tokens@, old(self).pos as int)
                && old(self).tokens@[operation_name_at(old(self).tokens@, old(self).pos as int)].kind
                != TokenKind::BareIdentifier ==> r is Err,
            operation_prefix_ok(old(self).tokens@, old(self).pos as int) && old(self).cur().kind
                == TokenKind::PercentIdentifier && old(self).tokens@[operand_run_end(
                old(self).tokens@,
                old(self).pos as int,
            )].kind != TokenKind::Equal ==> r is Err,
            ({
                let np = operation_name_at(old(self).tokens@, old(self).pos as int);
                let bcount = if old(self).cur().kind == TokenKind::PercentIdentifier {
                    operand_run_names(old(self).tokens@, old(self).pos as int).len() as int
                } else {
                    0
                };
                &&& (operation_prefix_ok(old(self).tokens@, old(self).pos as int)
                    && old(self).tokens@[np].kind == TokenKind::BareIdentifier && kind_lookup(
                    old(self).registry.entries@,
                    old(self).tokens@[np].lexeme@,
                ) == Some(OpKind::Binary) ==> (r is Ok <==> ({
                    let e = operand_run_end(old(self).tokens@, np + 1);
                    &&& bcount == 1
                    &&& (forall|i: int|
                        #![trigger operand_run_names(old(self).tokens@, np + 1)[i]]
                        0 <= i < operand_run_names(old(self).tokens@, np + 1).len()
                            ==> scope_lookup(
                            old(self).scope@,
                            operand_run_names(old(self).tokens@, np + 1)[i],
                        ) is Some)
                    &&& old(self).tokens@[e].kind == TokenKind::Colon
                    &&& old(self).tokens@[e + 1].kind == TokenKind::IntType
                })))
                &&& (operation_prefix_ok(old(self).tokens@, old(self).pos as int)
                    && old(self).tokens@[np].kind == TokenKind::BareIdentifier && kind_lookup(
                    old(self).registry.entries@,
                    old(self).tokens@[np].lexeme@,
                ) == Some(OpKind::Constant) ==> (r is Ok <==> ({
                    let p = np + 1;
                    &&& bcount == 1
                    &&& (if old(self).tokens@[p].kind == TokenKind::LParen {
                        &&& old(self).tokens@[p + 1].kind == TokenKind::Integer
                        &&& old(self).tokens@[p + 2].kind == TokenKind::Colon
                        &&& old(self).tokens@[p + 3].kind == TokenKind::IntType
                        &&& old(self).tokens@[p + 4].kind == TokenKind::RParen
                        &&& old(self).tokens@[p + 5].kind == TokenKind::Colon
                        &&& old(self).tokens@[p + 6].kind == TokenKind::IntType
                        &&& (forall|q: int|
                            0 <= q < old(self).tokens@[p + 1].lexeme@.len()
                                ==> crate::token::is_digit_char(
                                #[trigger] old(self).tokens@[p + 1].lexeme@[q],
                            ))
                        &&& crate::digits::spec_decimal_value(old(self).tokens@[p + 1].lexeme@)
                            <= u64::MAX
                    } else {
                        &&& old(self).tokens@[p].kind == TokenKind::Integer
                        &&& old(self).tokens@[p + 1].kind == TokenKind::Colon
                        &&& old(self).tokens@[p + 2].kind == TokenKind::IntType
                        &&& (forall|q: int|
                            0 <= q < old(self).tokens@[p].lexeme@.len()
                                ==> crate::token::is_digit_char(
                                #[trigger] old(self).tokens@[p].lexeme@[q],
                            ))
                        &&& crate::digits::spec_decimal_value(old(self).tokens@[p].lexeme@)
                            <= u64::MAX
                    })
                })))
                &&& (operation_prefix_ok(old(self).tokens@, old(self).pos as int)
                    && old(self).tokens@[np].kind == TokenKind::BareIdentifier && kind_lookup(
                    old(self).registry.entries@,
                    old(self).tokens@[np].lexeme@,
                ) == Some(OpKind::Function) && bcount != 0 ==> r is Err)
                &&& (operation_prefix_ok(old(self).tokens@, old(self).pos as int)
                    && old(self).tokens@[np].kind == TokenKind::BareIdentifier && kind_lookup(
                    old(self).registry.entries@,
                    old(self).tokens@[np].lexeme@,
                ) == Some(OpKind::Function) && old(self).tokens@[np + 1].kind
                    != TokenKind::AtIdentifier ==> r is Err)
                &&& (operation_prefix_ok(old(self).tokens@, old(self).pos as int)
                    && old(self).tokens@[np].kind == TokenKind::BareIdentifier && kind_lookup(
                    old(self).registry.entries@,
                    old(self).tokens@[np].lexeme@,
                ) == Some(OpKind::Return) ==> (r is Ok <==> ({
                    let e = operand_run_end(old(self).tokens@, np + 1);
                    &&& bcount == 0
                    &&& (forall|i: int|
                        #![trigger operand_run_names(old(self).tokens@, np + 1)[i]]
                        0 <= i < operand_run_names(old(self).tokens@, np + 1).len()
                            ==> scope_lookup(
                            old(self).scope@,
                            operand_run_names(old(self).tokens@, np + 1)[i],
                        ) is Some)
                    &&& (old(self).tokens@[e].kind == TokenKind::Colon ==> old(self).tokens@[e
                        + 1].kind == TokenKind::IntType)
                })))
            }),
            r matches Err(e) ==> e matches IrError::SyntaxError { .. },
        decreases old(self).tokens@.len() - old(self).pos,
    {
        let ghost toks = self.tokens@;
        let ghost pos0 = self.pos as int;
        let ghost bnames = if self.cur().kind == TokenKind::PercentIdentifier {
            operand_run_names(toks, pos0)
        } else {
            Seq::<Seq<char>>::empty()
        };
        let mut result_names: Vec<String> = Vec::new();
        if self.check(TokenKind::PercentIdentifier) {
            proof {
                assert(bnames.skip(0) =~= bnames);
            }
            while self.check(TokenKind::PercentIdentifier)
                invariant
                    self.wf(),
                    self.tokens == old(self).tokens,
                    self.scope == old(self).scope,
                    self.registry == old(self).registry,
                    self.pos >= old(self).pos,
                    toks == self.tokens@,
                    pos0 == old(self).pos as int,
                    toks[pos0].kind == TokenKind::PercentIdentifier,
                    bnames == operand_run_names(toks, pos0),
                    result_names@.len() <= bnames.len(),
                    operand_run_end(toks, pos0) == operand_run_end(toks, self.pos as int),
                    operand_run_names(toks, self.pos as int) =~= bnames.skip(
                        result_names@.len() as int,
                    ),
                decreases self.tokens@.len() - self.pos,
            {
                let ghost k = result_names@.len() as int;
                let ghost p = self.pos as int;
                proof {
                    assert(operand_run_names(toks, p).len() >= 1);
                    assert(bnames.skip(k).len() >= 1);
                    assert(k < bnames.len());
                }
                let t = self.advance();
                result_names.push(t.lexeme);
                if self.check(TokenKind::Comma) {
                    let _comma = self.advance();
                }
                proof {
                    assert(operand_run_names(toks, p) =~= seq![toks[p].lexeme@]
                        + operand_run_names(toks, self.pos as int));
                    assert(operand_run_names(toks, self.pos as int) =~= (seq![toks[p].lexeme@]
                        + operand_run_names(toks, self.pos as int)).skip(1));
                    assert(bnames.skip(k + 1) =~= (seq![bnames[k]] + bnames.skip(k + 1)).skip(1));
                    assert(bnames.skip(k) =~= seq![bnames[k]] + bnames.skip(k + 1));
                    assert(operand_run_names(toks, self.pos as int) =~= bnames.skip(k + 1));
                    assert(operand_run_end(toks, p) == operand_run_end(toks, self.pos as int));
                }
            }
            proof {
                assert(operand_run_names(toks, self.pos as int) =~= Seq::<Seq<char>>::empty());
                assert(bnames.skip(result_names@.len() as int).len() == 0);
                assert(result_names@.len() == bnames.len());
                assert(operand_run_end(toks, self.pos as int) == self.pos as int);
                assert(self.pos as int == operand_run_end(toks, pos0));
            }
            let _equal = self.expect(TokenKind::Equal)?;
        }
        let ghost jname = self.pos;
        proof {
            assert(jname as int == operation_name_at(toks, pos0));
        }
        let name_token = self.expect(TokenKind::BareIdentifier)?;
        let ghost ntok = name_token;
        let kind = match self.registry.lookup(&name_token.lexeme) {
            Some(k) => k,
            None => {
                return Err(
                    IrError::SyntaxError {
                        detail: SyntaxDetail::UnknownOperation { name: name_token.lexeme },
                        pos: name_token.pos,
                    },
                );
            },
        };
        let r = match kind {
            OpKind::Function => {
                if result_names.len() != 0 {
                    return Err(
                        IrError::SyntaxError {
                            detail: SyntaxDetail::Expected {
                                expected: TokenKind::BareIdentifier,
                                found: TokenKind::PercentIdentifier,
                            },
                            pos: name_token.pos,
                        },
                    );
                }
                self.parse_function(name_token)
            },
            OpKind::Binary => self.parse_binary(name_token, result_names),
            OpKind::Constant => self.parse_constant(name_token, result_names),
            OpKind::Return => {
                if result_names.len() != 0 {
                    return Err(
                        IrError::SyntaxError {
                            detail: SyntaxDetail::Expected {
                                expected: TokenKind::BareIdentifier,
                                found: TokenKind::PercentIdentifier,
                            },
                            pos: name_token.pos,
                        },
                    );
                }
                self.parse_return(name_token)
            },
        };
        proof {
            assert(old(self).tokens@[jname as int] == ntok);
            assert(ntok.kind == TokenKind::BareIdentifier);
            assert(self.pos > jname);
        }
        r
    }

    /// A function definition after its name: symbol, parenthesised block
    /// arguments, optional return types, then the body region. The block
    /// arguments become the operation's operands and are in scope inside
    /// the body; the symbol and the return types become attributes.
    fn parse_function(&mut self, name_token: Token) -> (r: Result<Operation, IrError>)
        requires
            old(self).wf(),
            old(self).registry.spec_names().contains(name_token.lexeme@),
        ensures
            final(self).wf(),
            final(self).tokens == old(self).tokens,
            final(self).registry == old(self).registry,
            final(self).pos >= old(self).pos,
            r matches Ok(op) ==> ({
                &&& op@.wf()
                &&& op@.scoped(scope_names(old(self).scope@))
                &&& op@.registered(old(self).registry.spec_names())
                &&& op@.result_names.len() == 0
                &&& final(self).pos > old(self).pos
                &&& final(self).scope@ == old(self).scope@
                &&& op@.name == name_token.lexeme@
                &&& op@.pos == name_token.pos
                &&& op@.regions.len() == 1
                &&& old(self).cur().kind == TokenKind::AtIdentifier
                &&& attr_lookup(op@.attributes, "sym_name"@) == Some(
                    AttributeView::Str { value: old(self).cur().lexeme@ },
                )
                &&& old(self).tokens@[old(self).pos + 1].kind == TokenKind::LParen
                &&& op@.operands == barg_run_args(old(self).tokens@, old(self).pos + 2)
                &&& attr_lookup(op@.attributes, "return_types"@) == Some(
                    AttributeView::Types {
                        types: result_types_spec(
                            old(self).tokens@,
                            (if old(self).tokens@[barg_run_end(
                                old(self).tokens@,
                                old(self).pos + 2,
                            )].kind == TokenKind::RParen {
                                barg_run_end(old(self).tokens@, old(self).pos + 2) + 1
                            } else {
                                barg_run_end(old(self).tokens@, old(self).pos + 2)
                            }),
                        ),
                    },
                )
                &&& forall|i: int| 0 <= i < op@.regions.len() ==> region_from_tokens(
                    #[trigger] op@.regions[i],
                    old(self).tokens@,
                )
            }),
            r matches Err(e) ==> e matches IrError::SyntaxError { .. },
        decreases old(self).tokens@.len() - old(self).pos,
    {
        let identifier = self.identifier(TokenKind::AtIdentifier)?;
        let _lparen = self.expect(TokenKind::LParen)?;
        let args = self.block_arguments()?;
        let ret_types = self.result_types()?;
        let entry_len = self.scope.len();
        let ghost entry_scope = self.scope@;
        let mut k: usize = 0;
        while k < args.len()
            invariant
                k <= args@.len(),
                self.wf(),
                self.tokens == old(self).tokens,
                self.registry == old(self).registry,
                self.pos > old(self).pos,
                entry_len == entry_scope.len(),
                self.scope@ == entry_scope + args@.subrange(0, k as int),
                self.pos < self.tokens@.len(),
            decreases args@.len() - k,
        {
            let ghost pre = self.scope@;
            let v = args[k].clone();
            self.scope.push(v);
            proof {
                assert(self.scope@ =~= entry_scope + args@.subrange(0, k + 1 as int));
            }
            k = k + 1;
        }
        proof {
            assert(self.scope@ =~= entry_scope + args@);
        }
        let region = match self.region() {
            Ok(reg) => reg,
            Err(e) => {
                return Err(e);
            },
        };
        self.scope.truncate(entry_len);
        proof {
            assert((entry_scope + args@).subrange(0, entry_len as int) =~= entry_scope);
        }
        let mut operation = Operation::new();
        operation.set_pos(name_token.pos);
        operation.set_name(name_token.lexeme);
        operation.set_operands(args);
        let mut attrs: Vec<NamedAttribute> = Vec::new();
        attrs.push(
            NamedAttribute {
                name: str_to_string("sym_name"),
                attribute: Attribute::StringAttr { value: identifier },
            },
        );
        attrs.push(
            NamedAttribute {
                name: str_to_string("return_types"),
                attribute: Attribute::TypeArrayAttr { types: ret_types },
            },
        );
        operation.set_attributes(attrs);
        operation.set_region(region);
        proof {
            reveal_strlit("sym_name");
            reveal_strlit("return_types");
            assert(("sym_name"@).len() == 8);
            assert(("return_types"@).len() == 12);
            assert("sym_name"@ != "return_types"@);
            assert(operation@.attributes.len() == 2);
            assert(operation@.attributes[0].name == "sym_name"@);
            assert(operation@.attributes[1].name == "return_types"@);
            assert(operation@.attributes[0].name != operation@.attributes[1].name);
            assert(operation@.regions.len() == 1);
            assert(operation@.regions[0].wf());
            assert(operation@.wf());
            let outer = scope_names(old(self).scope@);
            assert(scope_names(entry_scope + args@) =~= outer + operation@.operands.map_values(
                |v: ValueView| v.name,
            ));
            assert(operation@.regions[0].scoped(
                outer + operation@.operands.map_values(|v: ValueView| v.name),
            ));
            assert(operation@.scoped(outer));
            assert(attr_lookup(operation@.attributes, "sym_name"@) == Some(
                operation@.attributes[0].attribute,
            ));
            assert(operation@.attributes[0].attribute == (AttributeView::Str {
                value: old(self).cur().lexeme@,
            }));
            assert(operation@.attributes.drop_first() =~= seq![operation@.attributes[1]]);
            assert(attr_lookup(seq![operation@.attributes[1]], "return_types"@) == Some(
                operation@.attributes[1].attribute,
            ));
            assert(attr_lookup(operation@.attributes, "return_types"@) == Some(
                operation@.attributes[1].attribute,
            ));
            assert(operation@.operands =~= args@.map_values(|v: Value| v@));
        }
        Ok(operation)
    }

    /// A block of operations between braces; single-block regions carry
    /// the minimal grammar. Result bindings made inside leave scope when
    /// the region closes.
    pub fn region(&mut self) -> (r: Result<Region, IrError>)
        requires
            old(self).wf(),
        ensures
            final(self).wf(),
            final(self).tokens == old(self).tokens,
            final(self).registry == old(self).registry,
            final(self).pos >= old(self).pos,
            r matches Ok(reg) ==> ({
                &&& reg@.wf()
                &&& reg@.scoped(scope_names(old(self).scope@))
                &&& reg@.registered(old(self).registry.spec_names())
                &&& final(self).pos > old(self).pos
                &&& final(self).scope@ == old(self).scope@
            }),
            r is Ok ==> old(self).cur().kind == TokenKind::LBrace,
            r matches Ok(reg) ==> region_from_tokens(reg@, old(self).tokens@),
            old(self).cur().kind != TokenKind::LBrace ==> r is Err,
            old(self).cur().kind == TokenKind::LBrace && old(self).tokens@[old(self).pos + 1].kind
                == TokenKind::RBrace ==> r is Ok && final(self).pos == old(self).pos + 2,
            r matches Err(e) ==> e matches IrError::SyntaxError { .. },
        decreases old(self).tokens@.len() - old(self).pos,
    {
        let _lbrace = self.expect(TokenKind::LBrace)?;
        let entry_len = self.scope.len();
        let ghost entry_scope = self.scope@;
        let ghost names0 = scope_names(entry_scope);
        let mut ops: Vec<Operation> = Vec::new();
        while !self.check(TokenKind::RBrace) && !self.check(TokenKind::Eof)
            invariant
                self.wf(),
                self.tokens == old(self).tokens,
                self.registry == old(self).registry,
                self.pos > old(self).pos,
                old(self).tokens@[old(self).pos + 1].kind == TokenKind::RBrace ==> ops@.len() == 0
                    && self.pos == old(self).pos + 1,
                entry_len == entry_scope.len(),
                self.scope@.len() >= entry_scope.len(),
                self.scope@.subrange(0, entry_len as int) == entry_scope,
                scope_names(self.scope@) == block_bound(op_views(ops@), names0),
                ops_scoped(op_views(ops@), names0),
                forall|i: int|
                    0 <= i < ops@.len() ==> ((#[trigger] ops@[i])@.wf() && ops@[i]@.registered(
                        old(self).registry.spec_names(),
                    ) && op_from_tokens(ops@[i]@, old(self).tokens@)),
            decreases self.tokens@.len() - self.pos,
        {
            let ghost pre = *self;
            let op = match self.operation() {
                Ok(op) => op,
                Err(e) => {
                    return Err(e);
                },
            };
            proof {
                assert(self.scope@.subrange(0, entry_len as int) =~= entry_scope);
                lemma_op_views(ops@);
                lemma_op_views(ops@.push(op));
                assert(op_views(ops@.push(op)) =~= op_views(ops@).push(op@));
                lemma_ops_scoped_push(op_views(ops@), names0, op@);
                lemma_block_bound_push(op_views(ops@), names0, op@);
            }
            ops.push(op);
        }
        let _rbrace = self.expect(TokenKind::RBrace)?;
        self.scope.truncate(entry_len);
        proof {
            assert(self.scope@ =~= entry_scope);
            lemma_op_views(ops@);
        }
        let block = Block { arguments: Vec::new(), operations: ops };
        let mut blocks: Vec<Block> = Vec::new();
        blocks.push(block);
        let region = Region { blocks };
        proof {
            crate::ir::lemma_block_views(region.blocks@);
            assert(region@.blocks.len() == 1);
            assert(region@.blocks[0].operations == op_views(region.blocks@[0].operations@));
            assert(region@.blocks[0].arguments =~= Seq::<ValueView>::empty());
            assert(names0 + region@.blocks[0].arguments.map_values(|v: ValueView| v.name)
                =~= names0);
            assert(region@.blocks[0].scoped(names0));
            assert(region@.scoped(names0));
            assert(block_from_tokens(region@.blocks[0], old(self).tokens@));
            assert(region_from_tokens(region@, old(self).tokens@));
            assert(region@.blocks[0].wf());
            assert(region@.wf());
            assert(region@.blocks[0].registered(old(self).registry.spec_names()));
            assert(region@.registered(old(self).registry.spec_names()));
        }
        Ok(region)
    }

    /// A binary operation after its name: `%a, %b : type`, with the one
    /// result name from the binding prefix.
    fn parse_binary(&mut self, name_token: Token, result_names: Vec<String>) -> (r: Result<
        Operation,
        IrError,
    >)
        requires
            old(self).wf(),
            old(self).registry.spec_names().contains(name_token.lexeme@),
        ensures
            final(self).wf(),
            final(self).tokens == old(self).tokens,
            final(self).registry == old(self).registry,
            final(self).pos >= old(self).pos,
            r matches Ok(op) ==> ({
                &&& op@.wf()
                &&& op@.scoped(scope_names(old(self).scope@))
                &&& op@.registered(old(self).registry.spec_names())
                &&& final(self).pos > old(self).pos
                &&& final(self).scope@.len() >= old(self).scope@.len()
                &&& final(self).scope@.subrange(0, old(self).scope@.len() as int) == old(
                    self,
                ).scope@
                &&& scope_names(final(self).scope@) == scope_names(old(self).scope@)
                    + op@.result_names
                &&& op@.name == name_token.lexeme@
                &&& op@.pos == name_token.pos
                &&& op@.result_names =~= result_names@.map_values(|s: String| s@)
                &&& op@.result_types.len() == 1
                &&& old(self).tokens@[final(self).pos - 1].kind == TokenKind::IntType
                &&& op@.result_types[0] == old(self).tokens@[final(self).pos - 1].lexeme@
                &&& op@.regions.len() == 0
                &&& op@.operands.len() == operand_run_names(
                    old(self).tokens@,
                    old(self).pos as int,
                ).len()
                &&& (forall|i: int|
                    0 <= i < op@.operands.len() ==> (match scope_lookup(
                        old(self).scope@,
                        operand_run_names(old(self).tokens@, old(self).pos as int)[i],
                    ) {
                        Some(v) => #[trigger] op@.operands[i] == v@,
                        None => false,
                    }))
            }),
            r is Ok <==> ({
                let e = operand_run_end(old(self).tokens@, old(self).pos as int);
                &&& result_names@.len() == 1
                &&& (forall|i: int|
                    0 <= i < operand_run_names(old(self).tokens@, old(self).pos as int).len()
                        ==> scope_lookup(
                        old(self).scope@,
                        operand_run_names(old(self).tokens@, old(self).pos as int)[i],
                    ) is Some)
                &&& old(self).tokens@[e].kind == TokenKind::Colon
                &&& old(self).tokens@[e + 1].kind == TokenKind::IntType
            }),
            r matches Err(e) ==> e matches IrError::SyntaxError { .. },
    {
        if result_names.len() != 1 {
            return Err(
                IrError::SyntaxError {
                    detail: SyntaxDetail::Expected {
                        expected: TokenKind::PercentIdentifier,
                        found: name_token.kind,
                    },
                    pos: name_token.pos,
                },
            );
        }
        let operands = match self.arguments() {
            Ok(vals) => vals,
            Err(e) => {
                return Err(e);
            },
        };
        let _colon = self.expect(TokenKind::Colon)?;
        let ghost jt = self.pos;
        let typ_token = self.expect(TokenKind::IntType)?;
        let mut operation = Operation::new();
        operation.set_pos(name_token.pos);
        operation.set_name(name_token.lexeme);
        operation.set_operands(operands);
        operation.set_result_names(result_names);
        let mut types: Vec<Type> = Vec::new();
        types.push(Type::new(typ_token.lexeme));
        match operation.set_result_types(types) {
            Ok(()) => {},
            Err(e) => {
                return Err(e);
            },
        }
        let result_value = Value::OpResult {
            name: operation.result_names[0].clone(),
            typ: operation.result_types[0].clone(),
        };
        let ghost pre_scope = self.scope@;
        self.scope.push(result_value);
        proof {
            assert(self.scope@.subrange(0, pre_scope.len() as int) =~= pre_scope);
            assert(scope_names(self.scope@) =~= scope_names(pre_scope) + operation@.result_names);
            assert(operation@.regions.len() == 0);
            assert(operation@.wf());
            assert(old(self).tokens@[jt as int] == typ_token);
            assert(self.pos == jt + 1);
            assert(operation@.result_types[0] == typ_token.lexeme@);
            assert forall|i: int| 0 <= i < operation@.operands.len() implies (match scope_lookup(
                old(self).scope@,
                operand_run_names(old(self).tokens@, old(self).pos as int)[i],
            ) {
                Some(v) => #[trigger] operation@.operands[i] == v@,
                None => false,
            }) by {
                assert(operation@.operands[i] == operation.operands@[i]@);
            }
        }
        Ok(operation)
    }

    /// A constant after its name: `42 : type`, or the parenthesised
    /// target-dialect form `(42 : type) : type`; the literal and its type
    /// become the `value` attribute.
    fn parse_constant(&mut self, name_token: Token, result_names: Vec<String>) -> (r: Result<
        Operation,
        IrError,
    >)
        requires
            old(self).wf(),
            old(self).registry.spec_names().contains(name_token.lexeme@),
        ensures
            final(self).wf(),
            final(self).tokens == old(self).tokens,
            final(self).registry == old(self).registry,
            final(self).pos >= old(self).pos,
            r matches Ok(op) ==> ({
                &&& op@.wf()
                &&& op@.scoped(scope_names(old(self).scope@))
                &&& op@.registered(old(self).registry.spec_names())
                &&& final(self).pos > old(self).pos
                &&& final(self).scope@.len() >= old(self).scope@.len()
                &&& final(self).scope@.subrange(0, old(self).scope@.len() as int) == old(
                    self,
                ).scope@
                &&& scope_names(final(self).scope@) == scope_names(old(self).scope@)
                    + op@.result_names
                &&& op@.name == name_token.lexeme@
                &&& op@.pos == name_token.pos
                &&& op@.result_names =~= result_names@.map_values(|s: String| s@)
                &&& attr_lookup(op@.attributes, "value"@) matches Some(AttributeView::Int { .. })
                &&& op@.regions.len() == 0
                &&& op@.operands.len() == 0
                &&& (attr_lookup(op@.attributes, "value"@) matches Some(
                    AttributeView::Int { value, typ },
                ) ==> ((exists|j: int|
                    old(self).pos <= j < final(self).pos && (#[trigger] old(self).tokens@[j]).kind
                        == TokenKind::Integer && value == crate::digits::spec_decimal_value(
                        old(self).tokens@[j].lexeme@,
                    )) && (exists|j: int|
                    old(self).pos <= j < final(self).pos && (#[trigger] old(self).tokens@[j]).kind
                        == TokenKind::IntType && typ == old(self).tokens@[j].lexeme@)))
            }),
            r is Ok <==> ({
                let p = old(self).pos as int;
                &&& result_names@.len() == 1
                &&& (if old(self).tokens@[p].kind == TokenKind::LParen {
                    &&& old(self).tokens@[p + 1].kind == TokenKind::Integer
                    &&& old(self).tokens@[p + 2].kind == TokenKind::Colon
                    &&& old(self).tokens@[p + 3].kind == TokenKind::IntType
                    &&& old(self).tokens@[p + 4].kind == TokenKind::RParen
                    &&& old(self).tokens@[p + 5].kind == TokenKind::Colon
                    &&& old(self).tokens@[p + 6].kind == TokenKind::IntType
                    &&& (forall|q: int|
                        0 <= q < old(self).tokens@[p + 1].lexeme@.len()
                            ==> crate::token::is_digit_char(
                            #[trigger] old(self).tokens@[p + 1].lexeme@[q],
                        ))
                    &&& crate::digits::spec_decimal_value(old(self).tokens@[p + 1].lexeme@)
                        <= u64::MAX
                } else {
                    &&& old(self).tokens@[p].kind == TokenKind::Integer
                    &&& old(self).tokens@[p + 1].kind == TokenKind::Colon
                    &&& old(self).tokens@[p + 2].kind == TokenKind::IntType
                    &&& (forall|q: int|
                        0 <= q < old(self).tokens@[p].lexeme@.len()
                            ==> crate::token::is_digit_char(
                            #[trigger] old(self).tokens@[p].lexeme@[q],
                        ))
                    &&& crate::digits::spec_decimal_value(old(self).tokens@[p].lexeme@)
                        <= u64::MAX
                })
            }),
            r matches Err(e) ==> e matches IrError::SyntaxError { .. },
    {
        if result_names.len() != 1 {
            return Err(
                IrError::SyntaxError {
                    detail: SyntaxDetail::Expected {
                        expected: TokenKind::PercentIdentifier,
                        found: name_token.kind,
                    },
                    pos: name_token.pos,
                },
            );
        }
        let parenthesised = self.check(TokenKind::LParen);
        if parenthesised {
            let _lparen = self.advance();
        }
        let ghost jint = self.pos;
        let int_token = self.expect(TokenKind::Integer)?;
        let _colon = self.expect(TokenKind::Colon)?;
        let ghost jtyp = self.pos;
        let typ_token = self.expect(TokenKind::IntType)?;
        if parenthesised {
            let _rparen = self.expect(TokenKind::RParen)?;
            let _outer_colon = self.expect(TokenKind::Colon)?;
            let _outer_typ = self.expect(TokenKind::IntType)?;
        }
        let value = match self.integer_literal(&int_token) {
            Ok(v) => v,
            Err(e) => {
                return Err(e);
            },
        };
        let attr_typ = Type::new(typ_token.lexeme.clone());
        let result_typ = Type::new(typ_token.lexeme);
        let mut operation = Operation::new();
        operation.set_pos(name_token.pos);
        operation.set_name(name_token.lexeme);
        operation.set_result_names(result_names);
        let mut types: Vec<Type> = Vec::new();
        types.push(result_typ);
        match operation.set_result_types(types) {
            Ok(()) => {},
            Err(e) => {
                return Err(e);
            },
        }
        let mut attrs: Vec<NamedAttribute> = Vec::new();
        attrs.push(
            NamedAttribute {
                name: str_to_string("value"),
                attribute: Attribute::IntegerAttr { value, typ: attr_typ },
            },
        );
        operation.set_attributes(attrs);
        let result_value = Value::OpResult {
            name: operation.result_names[0].clone(),
            typ: operation.result_types[0].clone(),
        };
        let ghost pre_scope = self.scope@;
        self.scope.push(result_value);
        proof {
            assert(self.scope@.subrange(0, pre_scope.len() as int) =~= pre_scope);
            assert(scope_names(self.scope@) =~= scope_names(pre_scope) + operation@.result_names);
            assert(operation@.regions.len() == 0);
            assert(operation@.operands =~= Seq::<ValueView>::empty());
            assert(operation@.wf());
            assert(operation@.attributes.len() == 1);
            assert(operation@.attributes[0].name == "value"@);
            assert(attr_lookup(operation@.attributes, "value"@) == Some(
                operation@.attributes[0].attribute,
            ));
            assert(old(self).tokens@[jint as int] == int_token);
            assert(old(self).tokens@[jtyp as int] == typ_token);
            assert(jint < self.pos);
            assert(jtyp < self.pos);
        }
        Ok(operation)
    }

    /// A terminator after its name: its operands and an optional trailing
    /// type annotation.
    fn parse_return(&mut self, name_token: Token) -> (r: Result<Operation, IrError>)
        requires
            old(self).wf(),
            old(self).registry.spec_names().contains(name_token.lexeme@),
        ensures
            final(self).wf(),
            final(self).tokens == old(self).tokens,
            final(self).registry == old(self).registry,
            final(self).pos >= old(self).pos,
            r matches Ok(op) ==> ({
                &&& op@.wf()
                &&& op@.scoped(scope_names(old(self).scope@))
                &&& op@.registered(old(self).registry.spec_names())
                &&& op@.result_names.len() == 0
                &&& final(self).scope@ == old(self).scope@
                &&& op@.name == name_token.lexeme@
                &&& op@.pos == name_token.pos
                &&& op@.regions.len() == 0
                &&& op@.operands.len() == operand_run_names(
                    old(self).tokens@,
                    old(self).pos as int,
                ).len()
            }),
            r is Ok <==> ({
                let e = operand_run_end(old(self).tokens@, old(self).pos as int);
                &&& (forall|i: int|
                    0 <= i < operand_run_names(old(self).tokens@, old(self).pos as int).len()
                        ==> scope_lookup(
                        old(self).scope@,
                        operand_run_names(old(self).tokens@, old(self).pos as int)[i],
                    ) is Some)
                &&& (old(self).tokens@[e].kind == TokenKind::Colon ==> old(self).tokens@[e
                    + 1].kind == TokenKind::IntType)
            }),
            r matches Err(e) ==> e matches IrError::SyntaxError { .. },
    {
        let operands = match self.arguments() {
            Ok(vals) => vals,
            Err(e) => {
                return Err(e);
            },
        };
        if self.check(TokenKind::Colon) {
            let _colon = self.advance();
            let _typ = self.expect(TokenKind::IntType)?;
        }
        let mut operation = Operation::new();
        operation.set_pos(name_token.pos);
        operation.set_name(name_token.lexeme);
        operation.set_operands(operands);
        proof {
            assert(operation@.regions.len() == 0);
            assert(operation@.wf());
        }
        Ok(operation)
    }

    /// Parses source text into a module: lexes it, then parses top-level
    /// operations until the stream ends.
    ///
    /// On success the module is well formed (every operation's result
    /// count matches its declared result types), every operand refers to
    /// a visible definition, and every operation name is registered.
    pub fn parse(registry: DialectRegistry, src: &str) -> (r: Result<Module, IrError>)
        ensures
            r matches Ok(m) ==> m@.wf() && m@.scoped() && m@.registered(registry.spec_names()),
            r matches Ok(m) ==> module_named_in(m@, src@),
            r matches Ok(m) ==> ((exists|c: int|
                0 <= c < src@.len() && !crate::token::is_space_char(#[trigger] src@[c]))
                ==> m@.region.blocks[0].operations.len() >= 1),
            (forall|c: int|
                0 <= c < src@.len() ==> crate::token::is_space_char(#[trigger] src@[c])) ==> r
                is Ok,
            r matches Err(e) ==> e matches IrError::SyntaxError { .. },
    {
        let tokens = match lex(src) {
            Ok(tokens) => tokens,
            Err(e) => {
                return Err(e);
            },
        };
        let ghost toks = tokens@;
        let mut parser = Parser::new(registry, tokens);
        let ghost names0 = scope_names(parser.scope@);
        let mut ops: Vec<Operation> = Vec::new();
        proof {
            assert(names0 =~= Seq::<Seq<char>>::empty());
        }
        while !parser.check(TokenKind::Eof)
            invariant
                parser.wf(),
                parser.registry == registry,
                scope_names(parser.scope@) == block_bound(op_views(ops@), names0),
                names0 == Seq::<Seq<char>>::empty(),
                ops_scoped(op_views(ops@), names0),
                parser.tokens@ == toks,
                ops@.len() == 0 ==> parser.pos == 0,
                (forall|c: int|
                    0 <= c < src@.len() ==> crate::token::is_space_char(#[trigger] src@[c]))
                    ==> toks.len() == 1,
                forall|i: int|
                    0 <= i < ops@.len() ==> ((#[trigger] ops@[i])@.wf() && ops@[i]@.registered(
                        registry.spec_names(),
                    ) && op_from_tokens(ops@[i]@, toks)),
            decreases parser.tokens@.len() - parser.pos,
        {
            let op = match parser.operation() {
                Ok(op) => op,
                Err(e) => {
                    return Err(e);
                },
            };
            proof {
                lemma_op_views(ops@);
                lemma_op_views(ops@.push(op));
                assert(op_views(ops@.push(op)) =~= op_views(ops@).push(op@));
                lemma_ops_scoped_push(op_views(ops@), names0, op@);
                lemma_block_bound_push(op_views(ops@), names0, op@);
            }
            ops.push(op);
        }
        proof {
            lemma_op_views(ops@);
        }
        let block = Block { arguments: Vec::new(), operations: ops };
        let mut blocks: Vec<Block> = Vec::new();
        blocks.push(block);
        let module = Module { region: Region { blocks } };
        proof {
            crate::ir::lemma_block_views(module.region.blocks@);
            assert(module@.region.blocks.len() == 1);
            assert(module@.region.blocks[0].arguments =~= Seq::<ValueView>::empty());
            assert(Seq::<Seq<char>>::empty() + module@.region.blocks[0].arguments.map_values(
                |v: ValueView| v.name,
            ) =~= names0);
            assert(module@.region.blocks[0].scoped(Seq::<Seq<char>>::empty()));
            assert(module@.scoped());
            assert(module@.region.blocks[0].wf());
            assert(module@.wf());
            assert(module@.region.blocks[0].registered(registry.spec_names()));
            assert(module@.registered(registry.spec_names()));
            assert(block_from_tokens(module@.region.blocks[0], toks));
            assert(region_from_tokens(module@.region, toks));
            lemma_region_named_from_tokens(module@.region, toks, src@);
            assert(module_named_in(module@, src@));
            if exists|c: int|
                0 <= c < src@.len() && !crate::token::is_space_char(#[trigger] src@[c]) {
                let c = choose|c: int|
                    0 <= c < src@.len() && !crate::token::is_space_char(#[trigger] src@[c]);
                let k = choose|k: int|
                    0 <= k < toks.len() - 1 && (#[trigger] toks[k]).pos <= c < toks[k].pos
                        + toks[k].lexeme@.len();
                assert(toks.len() > 1);
                assert(toks[0].kind != TokenKind::Eof);
                assert(module@.region.blocks[0].operations.len() >= 1);
            }
        }
        Ok(module)
    }

    /// The optional trailing result types of a signature: nothing, or
    /// `-> i64`, or the parenthesised form `-> (i64, i64)`.
    pub fn result_types(&mut self) -> (r: Result<Vec<Type>, IrError>)
        requires
            old(self).wf(),
        ensures
            final(self).wf(),
            final(self).tokens == old(self).tokens,
            final(self).scope == old(self).scope,
            final(self).registry == old(self).registry,
            final(self).pos >= old(self).pos,
            old(self).cur().kind != TokenKind::Arrow ==> r is Ok && final(self).pos == old(
                self,
            ).pos,
            old(self).cur().kind != TokenKind::Arrow ==> (r matches Ok(ts) ==> ts@.len() == 0),
            old(self).cur().kind == TokenKind::Arrow && old(self).tokens@[old(self).pos + 1].kind
                != TokenKind::LParen ==> r is Ok && final(self).pos == type_run_end(
                old(self).tokens@,
                old(self).pos + 1,
            ),
            old(self).cur().kind == TokenKind::Arrow && old(self).tokens@[old(self).pos + 1].kind
                != TokenKind::LParen ==> (r matches Ok(ts) ==> ts@.map_values(|t: Type| t@)
                == type_run_types(old(self).tokens@, old(self).pos + 1)),
            old(self).cur().kind == TokenKind::Arrow && old(self).tokens@[old(self).pos + 1].kind
                == TokenKind::LParen ==> ({
                let q = typelist_run_end(old(self).tokens@, old(self).pos + 2);
                &&& (r is Ok <==> old(self).tokens@[q].kind == TokenKind::RParen)
                &&& (r is Ok ==> final(self).pos == q + 1)
                &&& (r matches Ok(ts) ==> ts@.map_values(|t: Type| t@) == typelist_run_types(
                    old(self).tokens@,
                    old(self).pos + 2,
                ))
            }),
            r matches Ok(ts) ==> ts@.map_values(|t: Type| t@) == result_types_spec(
                old(self).tokens@,
                old(self).pos as int,
            ),
            r matches Err(e) ==> e matches IrError::SyntaxError { .. },
    {
        let mut result_types: Vec<Type> = Vec::new();
        if !self.check(TokenKind::Arrow) {
            return Ok(result_types);
        }
        let _arrow = self.advance();
        if self.check(TokenKind::LParen) {
            let _lparen = self.advance();
            let ghost first_pos = self.pos;
            while self.check(TokenKind::IntType)
                invariant
                    self.wf(),
                    self.tokens == old(self).tokens,
                    self.scope == old(self).scope,
                    self.registry == old(self).registry,
                    self.pos >= first_pos >= old(self).pos,
                    typelist_run_end(self.tokens@, first_pos as int) == typelist_run_end(
                        self.tokens@,
                        self.pos as int,
                    ),
                    typelist_run_types(self.tokens@, first_pos as int) =~= result_types@.map_values(
                        |t: Type| t@,
                    ) + typelist_run_types(self.tokens@, self.pos as int),
                decreases self.tokens@.len() - self.pos,
            {
                let ghost p = self.pos as int;
                let typ = self.advance();
                result_types.push(Type::new(typ.lexeme));
                if self.check(TokenKind::Comma) {
                    let _comma = self.advance();
                }
                proof {
                    assert(typelist_run_types(self.tokens@, first_pos as int)
                        =~= result_types@.map_values(|t: Type| t@) + typelist_run_types(
                        self.tokens@,
                        self.pos as int,
                    ));
                }
            }
            proof {
                assert(typelist_run_end(self.tokens@, self.pos as int) == self.pos as int);
                assert(typelist_run_types(self.tokens@, self.pos as int)
                    =~= Seq::<Seq<char>>::empty());
                assert(result_types@.map_values(|t: Type| t@) =~= typelist_run_types(
                    self.tokens@,
                    first_pos as int,
                ));
            }
            let _rparen = self.expect(TokenKind::RParen)?;
        } else {
            let ghost first_pos = self.pos;
            while self.check(TokenKind::IntType)
                invariant
                    self.wf(),
                    self.tokens == old(self).tokens,
                    self.scope == old(self).scope,
                    self.registry == old(self).registry,
                    self.pos >= first_pos >= old(self).pos,
                    type_run_end(self.tokens@, first_pos as int) == type_run_end(
                        self.tokens@,
                        self.pos as int,
                    ),
                    type_run_types(self.tokens@, first_pos as int) =~= result_types@.map_values(
                        |t: Type| t@,
                    ) + type_run_types(self.tokens@, self.pos as int),
                decreases self.tokens@.len() - self.pos,
            {
                let typ = self.advance();
                result_types.push(Type::new(typ.lexeme));
                proof {
                    assert(type_run_types(self.tokens@, first_pos as int)
                        =~= result_types@.map_values(|t: Type| t@) + type_run_types(
                        self.tokens@,
                        self.pos as int,
                    ));
                }
            }
            proof {
                assert(type_run_end(self.tokens@, self.pos as int) == self.pos as int);
                assert(type_run_types(self.tokens@, self.pos as int) =~= Seq::<Seq<char>>::empty());
                assert(result_types@.map_values(|t: Type| t@) =~= type_run_types(
                    self.tokens@,
                    first_pos as int,
                ));
            }
        }
        Ok(result_types)
    }
}

} // verus!
