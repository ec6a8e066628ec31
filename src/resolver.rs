//! The resolver: binds a module's top-level block into its root scope.
pub mod lookup;

use crate::error::{flatten, flatten_all, ErrorsBuilder, Outcome};
use crate::scope::{members_consistent, ScopeId, ScopeTable, ScopeView};
use crate::symbol::{Symbol, SymbolId, SymbolTable, MAX_SYMBOLS};
use crate::syntax::{block_binding_count, block_wf, Module, NodeIndex};
use lookup::{bind_block, BindState, ScopeLookupBuilder};
use std::collections::HashMap;
use vstd::prelude::*;

verus! {

/// What resolving a module yields: its symbols, its scopes, and the symbol
/// that each syntax node resolves to.
#[derive(Debug)]
pub struct Resolution {
    symbols: SymbolTable,
    scopes: ScopeTable,
    nodes: HashMap<u32, SymbolId>,
}

impl Resolution {
    pub closed spec fn symbol_seq(&self) -> Seq<Symbol> {
        self.symbols@
    }

    pub closed spec fn scope_seq(&self) -> Seq<ScopeView> {
        self.scopes@
    }

    /// The symbol of each node, keyed by the node's raw identity.
    pub closed spec fn node_map(&self) -> Map<u32, SymbolId> {
        self.nodes@
    }

    pub closed spec fn wf(&self) -> bool {
        self.scopes.wf()
    }

    pub fn symbols(&self) -> (r: &SymbolTable)
        ensures
            r@ == self.symbol_seq(),
    {
        &self.symbols
    }

    /// The symbol that `node` resolves to, if any.
    pub fn node_symbol(&self, node: NodeIndex) -> (r: Option<SymbolId>)
        ensures
            r == self.node_map().get(node.0),
    {
        broadcast use vstd::std_specs::hash::group_hash_axioms;

        match self.nodes.get(&node.0) {
            Some(id) => Some(*id),
            None => None,
        }
    }

    pub fn scopes(&self) -> (r: &ScopeTable)
        ensures
            r@ == self.scope_seq(),
            self.wf() ==> r.wf(),
    {
        &self.scopes
    }
}

/// The state of resolving a module before any statement is bound.
pub open spec fn initial_state(module_node: NodeIndex) -> BindState {
    BindState {
        symbols: Seq::empty(),
        scopes: seq![
            ScopeView {
                node: module_node,
                parent: None,
                children: Seq::empty(),
                members: Set::empty(),
            },
        ],
        lookup: Map::empty(),
        diags: Seq::empty(),
    }
}

/// Resolves the names of one module.
pub struct Resolver<'m> {
    module: &'m Module,
    resolution: Resolution,
    errors: ErrorsBuilder,
}

impl<'m> Resolver<'m> {
    pub closed spec fn module(&self) -> Module {
        *self.module
    }

    pub closed spec fn wf(&self) -> bool {
        &&& self.resolution.symbols@ == Seq::<Symbol>::empty()
        &&& self.resolution.scopes.wf()
        &&& self.resolution.scopes@ == initial_state(self.module.node).scopes
        &&& self.resolution.nodes@ == Map::<u32, SymbolId>::empty()
        &&& self.errors.wf()
        &&& self.errors@ == Seq::<crate::error::Errors>::empty()
    }

    /// A resolver for `module` with no symbol, one scope for the module
    /// itself, and no diagnostic.
    pub fn new(module: &'m Module) -> (r: Resolver<'m>)
        ensures
            r.module() == *module,
            r.wf(),
    {
        let symbols = SymbolTable::new();
        let scopes = ScopeTable::new(module.node);
        let nodes = HashMap::new();
        let resolution = Resolution { symbols, scopes, nodes };
        let errors = ErrorsBuilder::new();
        Resolver { module, resolution, errors }
    }

    /// Binds the module's top-level statements into its root scope and
    /// returns what was built with every diagnostic found. It never stops
    /// early.
    pub fn run(self) -> (r: Outcome<Resolution>)
        requires
            self.wf(),
            block_wf(self.module().body@),
            block_binding_count(self.module().body@) <= MAX_SYMBOLS,
        ensures
            ({
                let st = bind_block(
                    initial_state(self.module().node),
                    ScopeId::spec_from_index(0),
                    self.module().body@,
                );
                &&& r.value.symbol_seq() == st.symbols
                &&& r.value.scope_seq() == st.scopes
                &&& flatten(r.errors) == st.diags
            }),
            r.value.wf(),
            r.value.node_map() == Map::<u32, SymbolId>::empty(),
            members_consistent(r.value.symbol_seq(), r.value.scope_seq()),
    {
        let Resolver { module, resolution, errors } = self;
        let Resolution { symbols, scopes, nodes } = resolution;
        let root_id = scopes.root_id();
        proof {
            assert(flatten_all(errors@) =~= Seq::empty());
        }
        let mut builder = ScopeLookupBuilder::new(symbols, scopes, errors, root_id);
        builder.add_block(&module.body);
        let (symbols, scopes, errors, _lookup) = builder.finish();
        let resolution = Resolution { symbols, scopes, nodes };
        Outcome::mixed(resolution, errors.build())
    }
}

} // verus!
