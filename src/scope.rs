//! The scope tree: an append-only arena of scopes addressed by `ScopeId`.
use crate::symbol::{Symbol, SymbolId};
use crate::syntax::NodeIndex;
use vstd::prelude::*;

verus! {

/// The largest number of scopes one table can hold.
pub const MAX_SCOPES: usize = 65535;

/// A handle to a scope of a `ScopeTable`. It is stored as the index plus
/// one in sixteen bits, so that zero never occurs.
#[derive(Clone, Copy, Debug)]
pub struct ScopeId {
    raw: u16,
}

impl ScopeId {
    #[verifier::type_invariant]
    spec fn inv(self) -> bool {
        self.raw >= 1
    }

    /// The position of the scope in its table.
    pub closed spec fn index(self) -> nat {
        (self.raw - 1) as nat
    }

    /// The handle of the scope at position `index`.
    pub closed spec fn spec_from_index(index: nat) -> ScopeId {
        ScopeId { raw: (index + 1) as u16 }
    }

    pub fn from_index(index: usize) -> (r: ScopeId)
        requires
            index < MAX_SCOPES,
        ensures
            r.index() == index,
            r == ScopeId::spec_from_index(index as nat),
    {
        let short: u16 = index as u16;
        ScopeId { raw: short + 1 }
    }

    pub fn into_index(self) -> (r: usize)
        ensures
            r == self.index(),
    {
        proof {
            use_type_invariant(&self);
        }
        (self.raw - 1) as usize
    }
}

/// What a scope is: the node that opened it, its parent, its children and
/// the symbols bound in it.
pub ghost struct ScopeView {
    pub node: NodeIndex,
    pub parent: Option<ScopeId>,
    pub children: Seq<ScopeId>,
    pub members: Set<SymbolId>,
}

/// One lexical scope.
#[derive(Debug)]
pub struct Scope {
    node: NodeIndex,
    parent: Option<ScopeId>,
    children: Vec<ScopeId>,
    symbols: Vec<SymbolId>,
}

impl View for Scope {
    type V = ScopeView;

    closed spec fn view(&self) -> ScopeView {
        ScopeView {
            node: self.node,
            parent: self.parent,
            children: self.children@,
            members: self.symbols@.to_set(),
        }
    }
}

impl Scope {
    fn empty(node: NodeIndex, parent: Option<ScopeId>) -> (r: Scope)
        ensures
            r@ == (ScopeView {
                node,
                parent,
                children: Seq::empty(),
                members: Set::empty(),
            }),
    {
        let r = Scope { node, parent, children: Vec::new(), symbols: Vec::new() };
        assert(r.symbols@.to_set() =~= Set::empty());
        r
    }

    /// The node that opened the scope.
    pub fn node(&self) -> (r: NodeIndex)
        ensures
            r == self@.node,
    {
        self.node
    }

    /// The enclosing scope, `None` for the root.
    pub fn parent(&self) -> (r: Option<ScopeId>)
        ensures
            r == self@.parent,
    {
        self.parent
    }

    /// The scopes nested in this one.
    pub fn children(&self) -> (r: &[ScopeId])
        ensures
            r@ == self@.children,
    {
        self.children.as_slice()
    }

    /// Whether the symbol is bound in this scope.
    pub fn contains(&self, symbol: SymbolId) -> (r: bool)
        ensures
            r == self@.members.contains(symbol),
    {
        let n = self.symbols.len();
        let mut i: usize = 0;
        while i < n
            invariant
                n == self.symbols@.len(),
                i <= n,
                forall|j: int| 0 <= j < i ==> self.symbols@[j] != symbol,
            decreases n - i,
        {
            if self.symbols[i] == symbol {
                assert(self.symbols@.to_set().contains(self.symbols@[i as int]));
                return true;
            }
            i = i + 1;
        }
        assert(!self.symbols@.to_set().contains(symbol)) by {
            if self.symbols@.to_set().contains(symbol) {
                let j = choose|j: int| 0 <= j < n && self.symbols@[j] == symbol;
                assert(self.symbols@[j] != symbol);
            }
        }
        false
    }

    /// Binds the symbol in this scope; tells whether it was new here.
    fn insert(&mut self, symbol: SymbolId) -> (r: bool)
        ensures
            r == !old(self)@.members.contains(symbol),
            final(self)@ == (ScopeView {
                members: old(self)@.members.insert(symbol),
                ..old(self)@
            }),
    {
        if self.contains(symbol) {
            assert(self@.members.insert(symbol) =~= self@.members);
            false
        } else {
            let ghost before = self.symbols@;
            self.symbols.push(symbol);
            assert(self.symbols@.to_set() =~= before.to_set().insert(symbol)) by {
                assert forall|x: SymbolId|
                    self.symbols@.to_set().contains(x) implies #[trigger] before.to_set().insert(
                    symbol,
                ).contains(x) by {
                    let j = choose|j: int| 0 <= j < self.symbols@.len() && self.symbols@[j] == x;
                    if j < before.len() {
                        assert(before[j] == x);
                    }
                }
                assert forall|x: SymbolId|
                    before.to_set().insert(symbol).contains(x) implies #[trigger] self.symbols@.to_set().contains(
                    x,
                ) by {
                    if x == symbol {
                        assert(self.symbols@[before.len() as int] == x);
                    } else {
                        let j = choose|j: int| 0 <= j < before.len() && before[j] == x;
                        assert(self.symbols@[j] == x);
                    }
                }
            }
            true
        }
    }
}

/// The arena of scopes of one module. The root scope comes first; scopes
/// are only ever added.
#[derive(Debug)]
pub struct ScopeTable {
    root_id: ScopeId,
    scopes: Vec<Scope>,
}

impl View for ScopeTable {
    type V = Seq<ScopeView>;

    closed spec fn view(&self) -> Seq<ScopeView> {
        self.scopes@.map_values(|s: Scope| s@)
    }
}

impl ScopeTable {
    /// The root comes first and the table never holds more than it can
    /// address.
    pub closed spec fn wf(&self) -> bool {
        &&& 1 <= self.scopes@.len() <= MAX_SCOPES
        &&& self.root_id == ScopeId::spec_from_index(0)
    }

    /// Whether `id` designates a scope of this table.
    pub open spec fn has(&self, id: ScopeId) -> bool {
        id.index() < self@.len()
    }

    /// The number of scopes: never none, never more than can be addressed.
    pub fn len(&self) -> (r: usize)
        requires
            self.wf(),
        ensures
            r == self@.len(),
            1 <= r <= MAX_SCOPES,
    {
        self.scopes.len()
    }

    /// A table with one scope, the root, opened by `root_node`.
    pub fn new(root_node: NodeIndex) -> (r: ScopeTable)
        ensures
            r.wf(),
            r@ == seq![
                ScopeView {
                    node: root_node,
                    parent: None,
                    children: Seq::empty(),
                    members: Set::empty(),
                },
            ],
    {
        let root_id = ScopeId::from_index(0);
        let root = Scope::empty(root_node, None);
        let scopes = vec![root];
        let r = ScopeTable { root_id, scopes };
        assert(r@ =~= seq![root@]);
        r
    }

    pub fn root_id(&self) -> (r: ScopeId)
        requires
            self.wf(),
        ensures
            r.index() == 0,
            r == ScopeId::spec_from_index(0),
            self.has(r),
    {
        self.root_id
    }

    pub fn root(&self) -> (r: &Scope)
        requires
            self.wf(),
        ensures
            r@ == self@[0],
    {
        &self.scopes[0]
    }

    /// Appends a scope opened by `node` inside `parent`. The parent's list
    /// of children is left to the caller.
    pub fn make_scope(&mut self, node: NodeIndex, parent: ScopeId) -> (r: ScopeId)
        requires
            old(self).wf(),
            old(self)@.len() < MAX_SCOPES,
        ensures
            final(self).wf(),
            r.index() == old(self)@.len(),
            final(self)@ == old(self)@.push(
                ScopeView {
                    node,
                    parent: Some(parent),
                    children: Seq::empty(),
                    members: Set::empty(),
                },
            ),
    {
        let index = self.scopes.len();
        let scope = Scope::empty(node, Some(parent));
        let ghost before = self@;
        self.scopes.push(scope);
        assert(self@ =~= before.push(scope@));
        ScopeId::from_index(index)
    }

    pub fn get(&self, id: ScopeId) -> (r: &Scope)
        requires
            self.has(id),
        ensures
            r@ == self@[id.index() as int],
    {
        &self.scopes[id.into_index()]
    }

    /// Binds `symbol` in the scope `scope`; tells whether it was new there.
    pub fn add_symbol(&mut self, scope: ScopeId, symbol: SymbolId) -> (r: bool)
        requires
            old(self).wf(),
            old(self).has(scope),
        ensures
            final(self).wf(),
            r == !old(self)@[scope.index() as int].members.contains(symbol),
            final(self)@ == old(self)@.update(
                scope.index() as int,
                ScopeView {
                    members: old(self)@[scope.index() as int].members.insert(symbol),
                    ..old(self)@[scope.index() as int]
                },
            ),
    {
        let i = scope.into_index();
        let ghost before = self@;
        let mut s = self.scopes.remove(i);
        let r = s.insert(symbol);
        self.scopes.insert(i, s);
        assert(self@ =~= before.update(i as int, s@));
        r
    }
}

/// Each scope's members are exactly the symbols that name it as their scope.
pub open spec fn members_consistent(symbols: Seq<Symbol>, scopes: Seq<ScopeView>) -> bool {
    &&& forall|j: int|
        0 <= j < symbols.len() ==> {
            &&& (#[trigger] symbols[j]).scope.index() < scopes.len()
            &&& scopes[symbols[j].scope.index() as int].members.contains(SymbolId(j as u32))
        }
    &&& forall|i: int, id: SymbolId|
        0 <= i < scopes.len() && (#[trigger] scopes[i].members.contains(id)) ==> {
            &&& id.0 < symbols.len()
            &&& symbols[id.0 as int].scope.index() == i
        }
}

} // verus!
