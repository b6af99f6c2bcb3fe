//! The dialect registry: a table mapping namespaced operation names to the
//! grammar shape the parser dispatches to. Registration is additive;
//! namespace prefixes such as `arith.` keep dialects from colliding.

use vstd::prelude::*;
use vstd::string::StringExecFns;

use crate::Dialect;

verus! {

/// Copies borrowed text into an owned string.
pub fn str_to_string(s: &str) -> (r: String)
    ensures
        r@ == s@,
{
    String::from_str(s)
}

/// Compares an owned string against borrowed text.
pub fn str_eq(s: &String, other: &str) -> (r: bool)
    ensures
        r == (s@ == other@),
{
    s.eq(&String::from_str(other))
}

/// The grammar shape of an operation's body after the common
/// result-binding-and-name prefix: which registered parsing function the
/// shared parser dispatches to.
#[derive(Clone, Copy, PartialEq, Eq, Structural, Debug)]
pub enum OpKind {
    /// `@sym(%arg : type, ...) -> type { ... }`, as `func.func`.
    Function,
    /// `%operand, %operand : type`, as `arith.addi`.
    Binary,
    /// `literal : type`, as `arith.constant`.
    Constant,
    /// `%operand : type`, a block terminator, as `return`.
    Return,
}

/// One registered operation: the dialect that owns it, the full name the
/// parser sees, and the grammar shape of its body.
pub struct RegistryEntry {
    pub dialect: String,
    pub name: String,
    pub kind: OpKind,
}

impl Clone for RegistryEntry {
    fn clone(&self) -> (r: Self)
        ensures
            r == *self,
    {
        RegistryEntry { dialect: self.dialect.clone(), name: self.name.clone(), kind: self.kind }
    }
}

/// The table of registered operations, threaded explicitly into the
/// parser and the pass pipeline; read-only once registration is done.
pub struct DialectRegistry {
    pub entries: Vec<RegistryEntry>,
}

/// First-match lookup of an operation's grammar shape by name.
pub open spec fn kind_lookup(entries: Seq<RegistryEntry>, name: Seq<char>) -> Option<OpKind>
    decreases entries,
{
    if entries.len() == 0 {
        None
    } else if entries[0].name@ == name {
        Some(entries[0].kind)
    } else {
        kind_lookup(entries.drop_first(), name)
    }
}

impl DialectRegistry {
    /// The set of operation names that some dialect has registered.
    pub open spec fn spec_names(self) -> Set<Seq<char>> {
        Set::new(
            |n: Seq<char>|
                exists|i: int| 0 <= i < self.entries@.len() && (#[trigger] self.entries@[i]).name@
                    == n,
        )
    }

    pub fn new() -> (r: DialectRegistry)
        ensures
            r.spec_names() =~= Set::<Seq<char>>::empty(),
    {
        DialectRegistry { entries: Vec::new() }
    }

    /// Registers one operation name under its owning dialect. Additive:
    /// what was registered before stays registered.
    pub fn register(&mut self, dialect: &str, name: &str, kind: OpKind)
        ensures
            final(self).spec_names() =~= old(self).spec_names().insert(name@),
            kind_lookup(final(self).entries@, name@) is Some,
            forall|n: Seq<char>|
                n != name@ ==> kind_lookup(final(self).entries@, n) == kind_lookup(
                    old(self).entries@,
                    n,
                ),
    {
        let ghost pre = self.entries@;
        let entry = RegistryEntry {
            dialect: str_to_string(dialect),
            name: str_to_string(name),
            kind,
        };
        self.entries.push(entry);
        proof {
            lemma_kind_lookup_push(pre, entry, name@);
            assert forall|n: Seq<char>| n != name@ implies kind_lookup(self.entries@, n)
                == kind_lookup(pre, n) by {
                lemma_kind_lookup_push(pre, entry, n);
            }
            assert forall|n: Seq<char>| self.spec_names().contains(n) implies old(
                self,
            ).spec_names().insert(name@).contains(n) by {
                let i = choose|i: int|
                    0 <= i < self.entries@.len() && (#[trigger] self.entries@[i]).name@ == n;
                if i < pre.len() {
                    assert(pre[i].name@ == n);
                }
            }
            assert forall|n: Seq<char>|
                old(self).spec_names().insert(name@).contains(n) implies self.spec_names().contains(
                n,
            ) by {
                if n == name@ {
                    assert(self.entries@[pre.len() as int].name@ == n);
                } else {
                    let i = choose|i: int| 0 <= i < pre.len() && (#[trigger] pre[i]).name@ == n;
                    assert(self.entries@[i].name@ == n);
                }
            }
        }
    }

    /// Looks the grammar shape of `name` up; `None` when no dialect has
    /// registered it.
    pub fn lookup(&self, name: &String) -> (r: Option<OpKind>)
        ensures
            r == kind_lookup(self.entries@, name@),
            r is Some <==> self.spec_names().contains(name@),
    {
        proof {
            lemma_kind_lookup_names(self.entries@, name@);
        }
        let mut i: usize = 0;
        assert(self.entries@.skip(0) =~= self.entries@);
        while i < self.entries.len()
            invariant
                i <= self.entries@.len(),
                kind_lookup(self.entries@, name@) == kind_lookup(
                    self.entries@.skip(i as int),
                    name@,
                ),
            decreases self.entries@.len() - i,
        {
            assert(self.entries@.skip(i as int)[0] == self.entries@[i as int]);
            if self.entries[i].name.eq(name) {
                return Some(self.entries[i].kind);
            }
            assert(self.entries@.skip(i as int).drop_first() =~= self.entries@.skip(i + 1 as int));
            i = i + 1;
        }
        None
    }
}

/// Appending an entry changes lookups only for that entry's name, and
/// then only where the name was absent: registration is additive and,
/// for distinct names, order-independent.
pub proof fn lemma_kind_lookup_push(entries: Seq<RegistryEntry>, entry: RegistryEntry, n: Seq<char>)
    ensures
        kind_lookup(entries.push(entry), n) == if kind_lookup(entries, n) is Some {
            kind_lookup(entries, n)
        } else if entry.name@ == n {
            Some(entry.kind)
        } else {
            None::<OpKind>
        },
    decreases entries.len(),
{
    if entries.len() == 0 {
        assert(entries.push(entry)[0] == entry);
        assert(entries.push(entry).drop_first() =~= Seq::<RegistryEntry>::empty());
    } else {
        assert(entries.push(entry)[0] == entries[0]);
        assert(entries.push(entry).drop_first() =~= entries.drop_first().push(entry));
        lemma_kind_lookup_push(entries.drop_first(), entry, n);
    }
}

/// A name is found exactly when some entry carries it.
pub proof fn lemma_kind_lookup_names(entries: Seq<RegistryEntry>, n: Seq<char>)
    ensures
        kind_lookup(entries, n) is Some <==> exists|i: int|
            0 <= i < entries.len() && (#[trigger] entries[i]).name@ == n,
    decreases entries.len(),
{
    if entries.len() > 0 {
        lemma_kind_lookup_names(entries.drop_first(), n);
        if entries[0].name@ != n {
            if kind_lookup(entries.drop_first(), n) is Some {
                let i = choose|i: int|
                    0 <= i < entries.drop_first().len() && (#[trigger] entries.drop_first()[
                        i
                    ]).name@ == n;
                assert(entries[i + 1].name@ == n);
            }
            if exists|i: int| 0 <= i < entries.len() && (#[trigger] entries[i]).name@ == n {
                let i = choose|i: int| 0 <= i < entries.len() && (#[trigger] entries[i]).name@ == n;
                assert(entries.drop_first()[i - 1].name@ == n);
            }
        }
    }
}

/// The arithmetic dialect: integer constants and integer addition.
pub struct Arith;

impl Dialect for Arith {
    open spec fn spec_name(&self) -> Seq<char> {
        "arith"@
    }

    open spec fn spec_description(&self) -> Seq<char> {
        "Arithmetic operations."@
    }

    fn name(&self) -> (r: &'static str) {
        "arith"
    }

    fn description(&self) -> (r: &'static str) {
        "Arithmetic operations."
    }
}

/// The built-in function dialect: function definitions and returns.
pub struct Func;

impl Dialect for Func {
    open spec fn spec_name(&self) -> Seq<char> {
        "func"@
    }

    open spec fn spec_description(&self) -> Seq<char> {
        "Function definitions."@
    }

    fn name(&self) -> (r: &'static str) {
        "func"
    }

    fn description(&self) -> (r: &'static str) {
        "Function definitions."
    }
}

/// The low-level target dialect that conversion lowers into.
pub struct Llvm;

impl Dialect for Llvm {
    open spec fn spec_name(&self) -> Seq<char> {
        "llvm"@
    }

    open spec fn spec_description(&self) -> Seq<char> {
        "Low-level target operations."@
    }

    fn name(&self) -> (r: &'static str) {
        "llvm"
    }

    fn description(&self) -> (r: &'static str) {
        "Low-level target operations."
    }
}

impl Arith {
    /// Registers the operations the arithmetic dialect owns.
    pub fn register(registry: &mut DialectRegistry)
        ensures
            final(registry).spec_names() =~= old(registry).spec_names().insert(
                "arith.addi"@,
            ).insert("arith.constant"@),
    {
        registry.register("arith", "arith.addi", OpKind::Binary);
        registry.register("arith", "arith.constant", OpKind::Constant);
    }
}

impl Func {
    /// Registers the operations the function dialect owns.
    pub fn register(registry: &mut DialectRegistry)
        ensures
            final(registry).spec_names() =~= old(registry).spec_names().insert(
                "func.func"@,
            ).insert("return"@),
    {
        registry.register("func", "func.func", OpKind::Function);
        registry.register("func", "return", OpKind::Return);
    }
}

impl Llvm {
    /// Registers the operations the target dialect owns.
    pub fn register(registry: &mut DialectRegistry)
        ensures
            final(registry).spec_names() =~= old(registry).spec_names().insert(
                "llvm.func"@,
            ).insert("llvm.add"@).insert("llvm.mlir.constant"@).insert("llvm.return"@),
    {
        registry.register("llvm", "llvm.func", OpKind::Function);
        registry.register("llvm", "llvm.add", OpKind::Binary);
        registry.register("llvm", "llvm.mlir.constant", OpKind::Constant);
        registry.register("llvm", "llvm.return", OpKind::Return);
    }
}

/// The registry holding every dialect of the minimal set.
pub fn default_registry() -> (r: DialectRegistry)
    ensures
        r.spec_names() =~= Set::<Seq<char>>::empty().insert("arith.addi"@).insert(
            "arith.constant"@,
        ).insert("func.func"@).insert("return"@).insert("llvm.func"@).insert("llvm.add"@).insert(
            "llvm.mlir.constant"@,
        ).insert("llvm.return"@),
{
    let mut registry = DialectRegistry::new();
    Arith::register(&mut registry);
    Func::register(&mut registry);
    Llvm::register(&mut registry);
    registry
}

} // verus!
