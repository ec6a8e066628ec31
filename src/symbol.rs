//! Symbols, the rule that merges two bindings of one name, and the arena
//! that holds them.
use crate::scope::ScopeId;
use crate::syntax::{Name, NodeIndex, SourceRange};
use vstd::prelude::*;

verus! {

/// The largest number of symbols one table can hold.
pub const MAX_SYMBOLS: u64 = 4294967296;

/// What kind of statement bound a name.
#[derive(Clone, Copy, Debug, PartialEq, Eq, Structural)]
pub enum SymbolKind {
    Class,
    Alias,
    Variable,
    Function,
    Nonlocal,
}

/// How a kind is named in messages.
pub open spec fn kind_text(k: SymbolKind) -> Seq<char> {
    match k {
        SymbolKind::Class => "class"@,
        SymbolKind::Alias => "type alias"@,
        SymbolKind::Variable => "variable"@,
        SymbolKind::Function => "function"@,
        SymbolKind::Nonlocal => "nonlocal"@,
    }
}

impl SymbolKind {
    /// How the kind is named in messages.
    pub fn text(&self) -> (r: &'static str)
        ensures
            r@ == kind_text(*self),
    {
        match self {
            SymbolKind::Class => "class",
            SymbolKind::Alias => "type alias",
            SymbolKind::Variable => "variable",
            SymbolKind::Function => "function",
            SymbolKind::Nonlocal => "nonlocal",
        }
    }

    /// Whether symbols of this kind name a type.
    pub fn is_type(self) -> (r: bool)
        ensures
            r == (self is Class || self is Alias),
    {
        match self {
            SymbolKind::Alias | SymbolKind::Class => true,
            SymbolKind::Variable | SymbolKind::Function | SymbolKind::Nonlocal => false,
        }
    }
}

/// A name bound in one scope: the node that declared it and the node that
/// gave it a value, either of which may be absent.
#[derive(Clone, Copy, Debug)]
pub struct Symbol {
    pub kind: SymbolKind,
    pub scope: ScopeId,
    pub name: NodeIndex,
    pub name_range: SourceRange,
    pub decl: NodeIndex,
    pub defn: NodeIndex,
}

/// Which part a binding statement plays: it declares the name, defines it,
/// or both.
#[derive(Clone, Copy, Debug, PartialEq, Eq, Structural)]
pub enum DeclOrDefn {
    Decl(NodeIndex),
    Defn(NodeIndex),
    DeclAndDefn(NodeIndex),
}

/// The symbol that binding `name` with `kind` in `scope` creates.
pub open spec fn made(
    kind: SymbolKind,
    scope: ScopeId,
    name: Name,
    decl_defn: DeclOrDefn,
) -> Symbol {
    let none = NodeIndex(crate::syntax::NO_NODE_RAW);
    Symbol {
        kind,
        scope,
        name: name.node,
        name_range: name.range,
        decl: match decl_defn {
            DeclOrDefn::Defn(_) => none,
            DeclOrDefn::Decl(n) => n,
            DeclOrDefn::DeclAndDefn(n) => n,
        },
        defn: match decl_defn {
            DeclOrDefn::Decl(_) => none,
            DeclOrDefn::Defn(n) => n,
            DeclOrDefn::DeclAndDefn(n) => n,
        },
    }
}

/// Rebinding a name that `prev` holds with `later`: the symbol that replaces
/// `prev`, if any, and whether the two bindings conflict.
pub open spec fn merged(prev: Symbol, later: Symbol) -> (Option<Symbol>, bool) {
    match (prev.kind, later.kind) {
        (SymbolKind::Variable, SymbolKind::Variable) => {
            let keep = if prev.is_decl() || !later.is_decl() {
                prev
            } else {
                later
            };
            (
                Some(Symbol { defn: prev.defn.spec_min(later.defn), ..keep }),
                prev.is_decl() && later.is_decl(),
            )
        },
        (SymbolKind::Variable, SymbolKind::Nonlocal) => (Some(later), prev.is_decl()),
        (SymbolKind::Nonlocal, SymbolKind::Variable) => (None, prev.is_decl()),
        _ => (None, true),
    }
}

impl Symbol {
    pub open spec fn is_decl(self) -> bool {
        self.decl.is_node()
    }

    /// Whether the symbol has a declaring node.
    pub fn has_decl(&self) -> (r: bool)
        ensures
            r == self.is_decl(),
    {
        self.decl.is_some()
    }

    /// Rebinds the name of `self` with `later`: the symbol that replaces
    /// `self`, if any, and whether the two bindings conflict.
    pub fn merge(&self, later: &Symbol) -> (r: (Option<Symbol>, bool))
        ensures
            r == merged(*self, *later),
    {
        match (self.kind, later.kind) {
            (SymbolKind::Variable, SymbolKind::Variable) => {
                let conflict = self.has_decl() && later.has_decl();
                let keep = if self.has_decl() || !later.has_decl() {
                    self
                } else {
                    later
                };
                let defn = self.defn.min(later.defn);
                let m = Symbol { defn, ..*keep };
                (Some(m), conflict)
            },
            (SymbolKind::Variable, SymbolKind::Nonlocal) => (Some(*later), self.has_decl()),
            (SymbolKind::Nonlocal, SymbolKind::Variable) => (None, self.has_decl()),
            _ => (None, true),
        }
    }

    /// A fresh symbol for `name`, bound with `kind` in `scope`.
    pub fn make(kind: SymbolKind, scope: ScopeId, name: &Name, decl_defn: DeclOrDefn) -> (r: Symbol)
        ensures
            r == made(kind, scope, *name, decl_defn),
    {
        let (decl, defn) = match decl_defn {
            DeclOrDefn::Decl(node) => (node, NodeIndex::none()),
            DeclOrDefn::Defn(node) => (NodeIndex::none(), node),
            DeclOrDefn::DeclAndDefn(node) => (node, node),
        };
        Symbol { kind, scope, name: name.node, name_range: name.range, decl, defn }
    }
}

/// An annotation without a value followed by a plain assignment merges
/// without conflict into one symbol that keeps the annotation as its
/// declaration and takes the assignment as its definition.
pub proof fn lemma_annotate_then_assign(prev: Symbol, later: Symbol)
    requires
        prev.kind is Variable,
        later.kind is Variable,
        prev.is_decl(),
        !prev.defn.is_node(),
        !later.is_decl(),
    ensures
        merged(prev, later) == (Some(Symbol { defn: later.defn, ..prev }), false),
{
}

/// Annotating a variable that is already annotated is a conflict.
pub proof fn lemma_reannotate_conflicts(prev: Symbol, later: Symbol)
    requires
        prev.kind is Variable,
        later.kind is Variable,
        prev.is_decl(),
        later.is_decl(),
    ensures
        merged(prev, later).1,
{
}

/// A class, type alias or function shares its name with nothing else in
/// its scope: rebinding always conflicts and replaces nothing, whatever is
/// declared or defined.
pub proof fn lemma_single_binder_kinds_conflict(prev: Symbol, later: Symbol)
    requires
        prev.kind is Class || prev.kind is Alias || prev.kind is Function || later.kind is Class
            || later.kind is Alias || later.kind is Function,
    ensures
        merged(prev, later) == (None::<Symbol>, true),
{
}

/// `nonlocal` after a variable that was only assigned is no conflict, and
/// the nonlocal symbol takes its place.
pub proof fn lemma_nonlocal_after_assignment(prev: Symbol, later: Symbol)
    requires
        prev.kind is Variable,
        !prev.is_decl(),
        later.kind is Nonlocal,
    ensures
        merged(prev, later) == (Some(later), false),
{
}

/// An assignment after `nonlocal` keeps the nonlocal symbol; it conflicts
/// exactly when that symbol has a declaring node.
pub proof fn lemma_assignment_after_nonlocal(prev: Symbol, later: Symbol)
    requires
        prev.kind is Nonlocal,
        later.kind is Variable,
    ensures
        merged(prev, later) == (None::<Symbol>, prev.is_decl()),
{
}

/// A handle to a symbol of a `SymbolTable`: its position there.
#[derive(Clone, Copy, Debug, PartialEq, Eq, Structural, Hash)]
pub struct SymbolId(pub u32);

/// The append-only arena of symbols; a symbol's handle is its position.
#[derive(Debug)]
pub struct SymbolTable {
    symbols: Vec<Symbol>,
}

impl View for SymbolTable {
    type V = Seq<Symbol>;

    closed spec fn view(&self) -> Seq<Symbol> {
        self.symbols@
    }
}

impl SymbolTable {
    pub fn new() -> (r: SymbolTable)
        ensures
            r@ == Seq::<Symbol>::empty(),
    {
        SymbolTable { symbols: Vec::new() }
    }

    pub fn len(&self) -> (r: usize)
        ensures
            r == self@.len(),
    {
        self.symbols.len()
    }

    /// Appends a symbol and hands out its handle.
    pub fn insert(&mut self, symbol: Symbol) -> (r: SymbolId)
        requires
            old(self)@.len() < MAX_SYMBOLS,
        ensures
            r.0 == old(self)@.len(),
            final(self)@ == old(self)@.push(symbol),
    {
        let id = self.symbols.len() as u32;
        self.symbols.push(symbol);
        SymbolId(id)
    }

    pub fn get(&self, id: SymbolId) -> (r: &Symbol)
        requires
            id.0 < self@.len(),
        ensures
            *r == self@[id.0 as int],
    {
        &self.symbols[id.0 as usize]
    }

    pub fn get_mut(&mut self, id: SymbolId) -> (r: &mut Symbol)
        requires
            id.0 < old(self)@.len(),
        ensures
            *r == old(self)@[id.0 as int],
            final(self)@ == old(self)@.update(id.0 as int, *final(r)),
    {
        &mut self.symbols[id.0 as usize]
    }
}

} // verus!
