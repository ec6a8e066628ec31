//! Binding the statements of one block into one scope.
use crate::error::{flatten_all, lemma_added_flatten, Errors, ErrorsBuilder};
use crate::scope::{members_consistent, ScopeId, ScopeTable, ScopeView};
use crate::symbol::{
    kind_text, lemma_annotate_then_assign, lemma_nonlocal_after_assignment,
    lemma_single_binder_kinds_conflict, made, merged, DeclOrDefn, Symbol, SymbolId, SymbolKind,
    SymbolTable, MAX_SYMBOLS,
};
use crate::syntax::{
    block_binding_count, block_wf, range_text, Expr, Name, NodeIndex, SourceRange, Stmt,
};
use vstd::prelude::*;

verus! {

/// The map that a list of names and a list of handles make, a later entry
/// overriding an earlier one with the same name.
pub open spec fn entries_map(names: Seq<Seq<char>>, ids: Seq<SymbolId>) -> Map<Seq<char>, SymbolId>
    decreases names.len(),
{
    if names.len() == 0 || ids.len() != names.len() {
        Map::empty()
    } else {
        entries_map(names.drop_last(), ids.drop_last()).insert(names.last(), ids.last())
    }
}

proof fn lemma_entries_contains(names: Seq<Seq<char>>, ids: Seq<SymbolId>, k: Seq<char>)
    requires
        names.len() == ids.len(),
    ensures
        entries_map(names, ids).contains_key(k) <==> exists|i: int|
            0 <= i < names.len() && names[i] == k,
    decreases names.len(),
{
    if names.len() > 0 {
        let n0 = names.drop_last();
        lemma_entries_contains(n0, ids.drop_last(), k);
        if entries_map(names, ids).contains_key(k) && names.last() != k {
            let i = choose|i: int| 0 <= i < n0.len() && n0[i] == k;
            assert(names[i] == k);
        }
        if exists|i: int| 0 <= i < names.len() && names[i] == k {
            let i = choose|i: int| 0 <= i < names.len() && names[i] == k;
            if i < n0.len() {
                assert(n0[i] == k);
            }
        }
    }
}

proof fn lemma_entries_value(names: Seq<Seq<char>>, ids: Seq<SymbolId>, k: Seq<char>, i: int)
    requires
        names.len() == ids.len(),
        0 <= i < names.len(),
        names[i] == k,
        forall|j: int| i < j < names.len() ==> names[j] != k,
    ensures
        entries_map(names, ids).contains_key(k),
        entries_map(names, ids)[k] == ids[i],
    decreases names.len(),
{
    let n0 = names.drop_last();
    if i < n0.len() {
        assert(names[names.len() - 1] != k);
        assert(n0[i] == k);
        assert forall|j: int| i < j < n0.len() implies n0[j] != k by {
            assert(names[j] != k);
        }
        lemma_entries_value(n0, ids.drop_last(), k, i);
    }
}

/// The latest symbol bound to each name of one scope.
pub struct ScopeLookup {
    names: Vec<String>,
    ids: Vec<SymbolId>,
}

impl View for ScopeLookup {
    type V = Map<Seq<char>, SymbolId>;

    closed spec fn view(&self) -> Map<Seq<char>, SymbolId> {
        entries_map(self.names@.map_values(|s: String| s@), self.ids@)
    }
}

impl ScopeLookup {
    pub closed spec fn wf(&self) -> bool {
        self.names@.len() == self.ids@.len()
    }

    pub fn new() -> (r: ScopeLookup)
        ensures
            r.wf(),
            r@ == Map::<Seq<char>, SymbolId>::empty(),
    {
        ScopeLookup { names: Vec::new(), ids: Vec::new() }
    }

    /// The symbol bound to `name`, if any.
    pub fn get(&self, name: &String) -> (r: Option<SymbolId>)
        requires
            self.wf(),
        ensures
            r is None <==> !self@.contains_key(name@),
            r is Some ==> r->Some_0 == self@[name@],
    {
        let ghost ns = self.names@.map_values(|s: String| s@);
        let mut i = self.names.len();
        while i > 0
            invariant
                i <= self.names@.len(),
                ns == self.names@.map_values(|s: String| s@),
                self.wf(),
                forall|j: int| i <= j < ns.len() ==> ns[j] != name@,
            decreases i,
        {
            i = i - 1;
            if self.names[i] == *name {
                proof {
                    lemma_entries_value(ns, self.ids@, name@, i as int);
                }
                return Some(self.ids[i]);
            }
        }
        proof {
            lemma_entries_contains(ns, self.ids@, name@);
            if self@.contains_key(name@) {
                let j = choose|j: int| 0 <= j < ns.len() && ns[j] == name@;
                assert(ns[j] != name@);
            }
        }
        None
    }

    fn bind(&mut self, name: String, id: SymbolId)
        requires
            old(self).wf(),
        ensures
            final(self).wf(),
            final(self)@ == old(self)@.insert(name@, id),
    {
        let ghost ns = self.names@.map_values(|s: String| s@);
        let ghost is = self.ids@;
        let ghost k = name@;
        self.names.push(name);
        self.ids.push(id);
        proof {
            let ns2 = self.names@.map_values(|s: String| s@);
            assert(ns2.drop_last() =~= ns);
            assert(self.ids@.drop_last() =~= is);
            assert(ns2.last() == k);
        }
    }
}

/// What binding a block has built so far: the symbols, the scopes, the
/// latest symbol of each name in the scope being bound, and the diagnostics.
pub ghost struct BindState {
    pub symbols: Seq<Symbol>,
    pub scopes: Seq<ScopeView>,
    pub lookup: Map<Seq<char>, SymbolId>,
    pub diags: Seq<(SourceRange, Seq<char>)>,
}

/// The message for a binding of kind `incoming` that conflicts with an
/// earlier one of kind `previous` whose name stands at `at`.
pub open spec fn conflict_message(
    incoming: SymbolKind,
    previous: SymbolKind,
    at: SourceRange,
) -> Seq<char> {
    kind_text(incoming) + " definition conflicts with earlier "@ + kind_text(previous)
        + " definition at "@ + range_text(at)
}

pub open spec fn name_target_message() -> Seq<char> {
    "only name targets are supported"@
}

pub open spec fn single_target_message() -> Seq<char> {
    "only single target assignments are supported"@
}

/// Binding `name` with `kind` in `scope`: a new symbol if the name is not
/// bound there yet, else the merge of the two bindings.
pub open spec fn bind_name(
    st: BindState,
    scope: ScopeId,
    kind: SymbolKind,
    name: Name,
    decl_defn: DeclOrDefn,
) -> BindState {
    let sym = made(kind, scope, name, decl_defn);
    if st.lookup.contains_key(name.id@) {
        let id = st.lookup[name.id@];
        let prev = st.symbols[id.0 as int];
        let (replacement, conflict) = merged(prev, sym);
        BindState {
            symbols: match replacement {
                Some(s) => st.symbols.update(id.0 as int, s),
                None => st.symbols,
            },
            diags: if conflict {
                st.diags.push((sym.name_range, conflict_message(kind, prev.kind, prev.name_range)))
            } else {
                st.diags
            },
            ..st
        }
    } else {
        let id = SymbolId(st.symbols.len() as u32);
        let s = st.scopes[scope.index() as int];
        BindState {
            symbols: st.symbols.push(sym),
            scopes: st.scopes.update(
                scope.index() as int,
                ScopeView { members: s.members.insert(id), ..s },
            ),
            lookup: st.lookup.insert(name.id@, id),
            diags: st.diags,
        }
    }
}

/// Binding each of `names` in turn, each declared by `node`.
pub open spec fn bind_names(
    st: BindState,
    scope: ScopeId,
    kind: SymbolKind,
    names: Seq<Name>,
    node: NodeIndex,
) -> BindState
    decreases names.len(),
{
    if names.len() == 0 {
        st
    } else {
        bind_name(
            bind_names(st, scope, kind, names.drop_last(), node),
            scope,
            kind,
            names.last(),
            DeclOrDefn::Decl(node),
        )
    }
}

/// Adding one diagnostic.
pub open spec fn report(st: BindState, range: SourceRange, message: Seq<char>) -> BindState {
    BindState { diags: st.diags.push((range, message)), ..st }
}

/// Binding one statement in `scope`.
pub open spec fn bind_stmt(st: BindState, scope: ScopeId, stmt: Stmt) -> BindState {
    match stmt {
        Stmt::ClassDef { node, name, .. } => bind_name(
            st,
            scope,
            SymbolKind::Class,
            name,
            DeclOrDefn::Decl(node),
        ),
        Stmt::TypeAlias { node, name, .. } => bind_name(
            st,
            scope,
            SymbolKind::Alias,
            name,
            DeclOrDefn::Decl(node),
        ),
        Stmt::Assign { node, range, targets } => if targets@.len() == 1 {
            match targets@[0] {
                Expr::Name(name) => bind_name(
                    st,
                    scope,
                    SymbolKind::Variable,
                    name,
                    DeclOrDefn::Defn(node),
                ),
                Expr::Other { range: target_range, .. } => report(
                    st,
                    target_range,
                    name_target_message(),
                ),
            }
        } else {
            report(st, range, single_target_message())
        },
        Stmt::AnnAssign { node, target, has_value, .. } => match target {
            Expr::Name(name) => bind_name(
                st,
                scope,
                SymbolKind::Variable,
                name,
                if has_value {
                    DeclOrDefn::DeclAndDefn(node)
                } else {
                    DeclOrDefn::Decl(node)
                },
            ),
            Expr::Other { range: target_range, .. } => report(
                st,
                target_range,
                name_target_message(),
            ),
        },
        Stmt::FunctionDef { node, name, .. } => bind_name(
            st,
            scope,
            SymbolKind::Function,
            name,
            DeclOrDefn::Decl(node),
        ),
        Stmt::Nonlocal { node, names, .. } => bind_names(
            st,
            scope,
            SymbolKind::Nonlocal,
            names@,
            node,
        ),
        Stmt::Other { .. } => st,
    }
}

/// Binding each statement of a block in turn.
pub open spec fn bind_block(st: BindState, scope: ScopeId, stmts: Seq<Stmt>) -> BindState
    decreases stmts.len(),
{
    if stmts.len() == 0 {
        st
    } else {
        bind_stmt(bind_block(st, scope, stmts.drop_last()), scope, stmts.last())
    }
}

/// Relies on text_size's `Debug` for `TextRange`, which writes a range as
/// `start..end` with both offsets in decimal; `TextRange::new` panics
/// unless `start <= end`.
#[verifier::external_body]
fn range_debug(r: SourceRange) -> (s: String)
    requires
        r.wf(),
    ensures
        s@ == range_text(r),
{
    format!("{:?}", text_size::TextRange::new(r.start.into(), r.end.into()))
}

/// The message for a binding of kind `incoming` that conflicts with an
/// earlier one of kind `previous` whose name stands at `at`.
fn conflict_text(incoming: SymbolKind, previous: SymbolKind, at: SourceRange) -> (r: String)
    requires
        at.wf(),
    ensures
        r@ == conflict_message(incoming, previous, at),
{
    let mut m = String::from_str(incoming.text());
    m.append(" definition conflicts with earlier ");
    m.append(previous.text());
    m.append(" definition at ");
    let at_text = range_debug(at);
    m.append(at_text.as_str());
    m
}

/// Binds the statements of one block into one scope, creating and merging
/// symbols and collecting diagnostics; it never stops early.
pub struct ScopeLookupBuilder {
    symbols: SymbolTable,
    scopes: ScopeTable,
    errors: ErrorsBuilder,
    scope_id: ScopeId,
    lookup: ScopeLookup,
}

impl ScopeLookupBuilder {
    /// What has been built so far.
    pub closed spec fn state(&self) -> BindState {
        BindState {
            symbols: self.symbols@,
            scopes: self.scopes@,
            lookup: self.lookup@,
            diags: flatten_all(self.errors@),
        }
    }

    /// The scope being bound.
    pub closed spec fn scope(&self) -> ScopeId {
        self.scope_id
    }

    pub closed spec fn wf(&self) -> bool {
        &&& self.scopes.wf()
        &&& self.errors.wf()
        &&& self.lookup.wf()
        &&& self.scopes.has(self.scope_id)
        &&& self.symbols@.len() <= MAX_SYMBOLS
        &&& members_consistent(self.symbols@, self.scopes@)
        &&& forall|j: int|
            0 <= j < self.symbols@.len() ==> (#[trigger] self.symbols@[j]).name_range.wf()
        &&& forall|k: Seq<char>|
            #[trigger] self.lookup@.contains_key(k) ==> {
                &&& self.lookup@[k].0 < self.symbols@.len()
                &&& self.symbols@[self.lookup@[k].0 as int].scope.index() == self.scope_id.index()
            }
    }

    /// A builder for the scope `scope_id` of `scopes`, with no name bound
    /// in it yet.
    pub fn new(
        symbols: SymbolTable,
        scopes: ScopeTable,
        errors: ErrorsBuilder,
        scope_id: ScopeId,
    ) -> (r: ScopeLookupBuilder)
        requires
            scopes.wf(),
            errors.wf(),
            scopes.has(scope_id),
            symbols@.len() <= MAX_SYMBOLS,
            members_consistent(symbols@, scopes@),
            forall|j: int| 0 <= j < symbols@.len() ==> (#[trigger] symbols@[j]).name_range.wf(),
        ensures
            r.wf(),
            r.scope() == scope_id,
            r.state() == (BindState {
                symbols: symbols@,
                scopes: scopes@,
                lookup: Map::empty(),
                diags: flatten_all(errors@),
            }),
    {
        let lookup = ScopeLookup::new();
        ScopeLookupBuilder { symbols, scopes, errors, scope_id, lookup }
    }

    /// Hands back what was built: the symbols, the scopes, the diagnostics
    /// and the latest symbol of each name in the scope.
    pub fn finish(self) -> (r: (SymbolTable, ScopeTable, ErrorsBuilder, ScopeLookup))
        requires
            self.wf(),
        ensures
            r.0@ == self.state().symbols,
            r.1@ == self.state().scopes,
            r.1.wf(),
            r.2.wf(),
            flatten_all(r.2@) == self.state().diags,
            r.3@ == self.state().lookup,
            members_consistent(r.0@, r.1@),
    {
        (self.symbols, self.scopes, self.errors, self.lookup)
    }

    /// Binds `name` with `kind`: a new symbol if the name is not bound in
    /// the scope yet, else the merge of the two bindings, with a diagnostic
    /// where they conflict.
    pub fn add_symbol(&mut self, kind: SymbolKind, name: &Name, decl_defn: DeclOrDefn)
        requires
            old(self).wf(),
            name.range.wf(),
            old(self).state().symbols.len() < MAX_SYMBOLS,
        ensures
            final(self).wf(),
            final(self).scope() == old(self).scope(),
            final(self).state() == bind_name(
                old(self).state(),
                old(self).scope(),
                kind,
                *name,
                decl_defn,
            ),
            final(self).state().symbols.len() <= old(self).state().symbols.len() + 1,
            members_consistent(final(self).state().symbols, final(self).state().scopes),
    {
        let ghost st = self.state();
        let symbol = Symbol::make(kind, self.scope_id, name, decl_defn);
        match self.lookup.get(&name.id) {
            None => {
                let id = self.symbols.insert(symbol);
                self.scopes.add_symbol(self.scope_id, id);
                self.lookup.bind(name.id.clone(), id);
                proof {
                    let si = self.scope_id.index() as int;
                    assert(self.symbols@[id.0 as int] == symbol);
                    assert forall|j: int| 0 <= j < self.symbols@.len() implies {
                        &&& (#[trigger] self.symbols@[j]).scope.index() < self.scopes@.len()
                        &&& self.scopes@[self.symbols@[j].scope.index() as int].members.contains(
                            SymbolId(j as u32),
                        )
                    } by {
                        if j < st.symbols.len() {
                            assert(st.symbols[j] == self.symbols@[j]);
                        }
                    }
                    assert forall|i: int, sid: SymbolId|
                        0 <= i < self.scopes@.len()
                            && #[trigger] self.scopes@[i].members.contains(sid) implies {
                            &&& sid.0 < self.symbols@.len()
                            &&& self.symbols@[sid.0 as int].scope.index() == i
                        } by {
                        if sid != id || i != si {
                            assert(st.scopes[i].members.contains(sid));
                        }
                    }
                    assert forall|k: Seq<char>| #[trigger] self.lookup@.contains_key(k) implies {
                        &&& self.lookup@[k].0 < self.symbols@.len()
                        &&& self.symbols@[self.lookup@[k].0 as int].scope.index()
                            == self.scope_id.index()
                    } by {
                        if k != name.id@ {
                            assert(st.lookup.contains_key(k));
                        }
                    }
                    assert(self.state() == bind_name(st, self.scope_id, kind, *name, decl_defn));
                }
            },
            Some(id) => {
                let previous = *self.symbols.get(id);
                let (replacement, conflict) = previous.merge(&symbol);
                if conflict {
                    let message = conflict_text(symbol.kind, previous.kind, previous.name_range);
                    let e = Errors::single(symbol.name_range, message);
                    proof {
                        lemma_added_flatten(self.errors@, e);
                    }
                    self.errors.add(e);
                    assert(self.state().diags =~= st.diags.push(
                        (
                            symbol.name_range,
                            conflict_message(kind, previous.kind, previous.name_range),
                        ),
                    ));
                }
                match replacement {
                    Some(m) => {
                        *self.symbols.get_mut(id) = m;
                        proof {
                            assert forall|j: int| 0 <= j < self.symbols@.len() implies {
                                &&& (#[trigger] self.symbols@[j]).scope.index() < self.scopes@.len()
                                &&& self.scopes@[self.symbols@[j].scope.index() as int].members.contains(
                                    SymbolId(j as u32),
                                )
                            } by {
                                assert(st.symbols[j].scope.index()
                                    == self.symbols@[j].scope.index());
                            }
                            assert forall|j: int| 0 <= j < self.symbols@.len() implies (
                            #[trigger] self.symbols@[j]).name_range.wf() by {
                                assert(st.symbols[j].name_range.wf() || j == id.0);
                            }
                        }
                    },
                    None => {},
                }
            },
        }
    }

    /// Binds one statement, or records why it cannot be bound.
    pub fn add_stmt(&mut self, stmt: &Stmt)
        requires
            old(self).wf(),
            stmt.wf(),
            old(self).state().symbols.len() + stmt.binding_count() <= MAX_SYMBOLS,
        ensures
            final(self).wf(),
            final(self).scope() == old(self).scope(),
            final(self).state() == bind_stmt(old(self).state(), old(self).scope(), *stmt),
            final(self).state().symbols.len() <= old(self).state().symbols.len()
                + stmt.binding_count(),
            members_consistent(final(self).state().symbols, final(self).state().scopes),
    {
        let ghost st = self.state();
        match stmt {
            Stmt::ClassDef { node, name, .. } => {
                self.add_symbol(SymbolKind::Class, name, DeclOrDefn::Decl(*node));
            },
            Stmt::TypeAlias { node, name, .. } => {
                self.add_symbol(SymbolKind::Alias, name, DeclOrDefn::Decl(*node));
            },
            Stmt::Assign { node, range, targets } => {
                if targets.len() == 1 {
                    match &targets[0] {
                        Expr::Name(name) => {
                            assert(targets@[0].wf());
                            self.add_symbol(SymbolKind::Variable, name, DeclOrDefn::Defn(*node));
                        },
                        Expr::Other { range: target_range, .. } => {
                            let m = String::from_str("only name targets are supported");
                            self.report(*target_range, m);
                        },
                    }
                } else {
                    let m = String::from_str("only single target assignments are supported");
                    self.report(*range, m);
                }
            },
            Stmt::AnnAssign { node, target, has_value, .. } => match target {
                Expr::Name(name) => {
                    if *has_value {
                        self.add_symbol(SymbolKind::Variable, name, DeclOrDefn::DeclAndDefn(*node));
                    } else {
                        self.add_symbol(SymbolKind::Variable, name, DeclOrDefn::Decl(*node));
                    }
                },
                Expr::Other { range: target_range, .. } => {
                    let m = String::from_str("only name targets are supported");
                    self.report(*target_range, m);
                },
            },
            Stmt::FunctionDef { node, name, .. } => {
                self.add_symbol(SymbolKind::Function, name, DeclOrDefn::Decl(*node));
            },
            Stmt::Nonlocal { node, names, .. } => {
                let n = names.len();
                let mut i: usize = 0;
                while i < n
                    invariant
                        n == names@.len(),
                        i <= n,
                        self.wf(),
                        self.scope() == old(self).scope(),
                        forall|j: int| 0 <= j < names@.len() ==> (#[trigger] names@[j]).range.wf(),
                        st.symbols.len() + names@.len() <= MAX_SYMBOLS,
                        self.state().symbols.len() <= st.symbols.len() + i,
                        self.state() == bind_names(
                            st,
                            old(self).scope(),
                            SymbolKind::Nonlocal,
                            names@.subrange(0, i as int),
                            *node,
                        ),
                    decreases n - i,
                {
                    assert(names@.subrange(0, i + 1).drop_last() =~= names@.subrange(0, i as int));
                    self.add_symbol(SymbolKind::Nonlocal, &names[i], DeclOrDefn::Decl(*node));
                    i = i + 1;
                }
                assert(names@.subrange(0, n as int) =~= names@);
            },
            Stmt::Other { .. } => {},
        }
    }

    /// Records a diagnostic at `range`.
    fn report(&mut self, range: SourceRange, message: String)
        requires
            old(self).wf(),
        ensures
            final(self).wf(),
            final(self).scope() == old(self).scope(),
            final(self).state() == report(old(self).state(), range, message@),
    {
        let ghost st = self.state();
        let ghost mv = message@;
        let e = Errors::single(range, message);
        proof {
            lemma_added_flatten(self.errors@, e);
        }
        self.errors.add(e);
        assert(self.state().diags =~= st.diags.push((range, mv)));
    }

    /// Binds each statement of a block in turn.
    pub fn add_block(&mut self, stmts: &Vec<Stmt>)
        requires
            old(self).wf(),
            block_wf(stmts@),
            old(self).state().symbols.len() + block_binding_count(stmts@) <= MAX_SYMBOLS,
        ensures
            final(self).wf(),
            final(self).scope() == old(self).scope(),
            final(self).state() == bind_block(old(self).state(), old(self).scope(), stmts@),
            members_consistent(final(self).state().symbols, final(self).state().scopes),
    {
        let ghost st = self.state();
        let n = stmts.len();
        let mut i: usize = 0;
        while i < n
            invariant
                n == stmts@.len(),
                i <= n,
                self.wf(),
                self.scope() == old(self).scope(),
                block_wf(stmts@),
                st.symbols.len() + block_binding_count(stmts@) <= MAX_SYMBOLS,
                self.state().symbols.len() <= st.symbols.len() + block_binding_count(
                    stmts@.subrange(0, i as int),
                ),
                self.state() == bind_block(st, old(self).scope(), stmts@.subrange(0, i as int)),
            decreases n - i,
        {
            proof {
                assert(stmts@.subrange(0, i + 1).drop_last() =~= stmts@.subrange(0, i as int));
                lemma_block_count_prefix(stmts@, i + 1);
                assert(stmts@[i as int].wf());
            }
            self.add_stmt(&stmts[i]);
            i = i + 1;
        }
        assert(stmts@.subrange(0, n as int) =~= stmts@);
    }
}

proof fn lemma_block_count_prefix(s: Seq<Stmt>, i: int)
    requires
        0 <= i <= s.len(),
    ensures
        block_binding_count(s.subrange(0, i)) <= block_binding_count(s),
    decreases s.len(),
{
    if i < s.len() {
        assert(s.drop_last().subrange(0, i) =~= s.subrange(0, i));
        lemma_block_count_prefix(s.drop_last(), i);
    } else {
        assert(s.subrange(0, i) =~= s);
    }
}

/// An assignment to several targets, or to one target that is not a plain
/// name, binds nothing and adds exactly one diagnostic.
pub proof fn lemma_unsupported_assignment(st: BindState, scope: ScopeId, stmt: Stmt)
    requires
        stmt is Assign,
        stmt->Assign_targets@.len() != 1 || stmt->Assign_targets@[0] is Other,
    ensures
        bind_stmt(st, scope, stmt).symbols == st.symbols,
        bind_stmt(st, scope, stmt).scopes == st.scopes,
        bind_stmt(st, scope, stmt).lookup == st.lookup,
        bind_stmt(st, scope, stmt).diags.len() == st.diags.len() + 1,
        bind_stmt(st, scope, stmt).diags.drop_last() == st.diags,
{
    assert(bind_stmt(st, scope, stmt).diags.drop_last() =~= st.diags);
}

/// Binding a name twice in a scope where it was not bound leaves one new
/// symbol: the merge of the two bindings, or the first where the merge
/// replaces nothing. A conflict adds one diagnostic, at the second name,
/// that cites the first name's range.
pub proof fn lemma_bind_twice(
    st: BindState,
    scope: ScopeId,
    k1: SymbolKind,
    n1: Name,
    dd1: DeclOrDefn,
    k2: SymbolKind,
    n2: Name,
    dd2: DeclOrDefn,
)
    requires
        n1.id@ == n2.id@,
        !st.lookup.contains_key(n1.id@),
        st.symbols.len() < MAX_SYMBOLS,
    ensures
        ({
            let first = made(k1, scope, n1, dd1);
            let (replacement, conflict) = merged(first, made(k2, scope, n2, dd2));
            let r = bind_name(bind_name(st, scope, k1, n1, dd1), scope, k2, n2, dd2);
            &&& r.symbols == st.symbols.push(
                match replacement {
                    Some(s) => s,
                    None => first,
                },
            )
            &&& r.diags == if conflict {
                st.diags.push((n2.range, conflict_message(k2, k1, n1.range)))
            } else {
                st.diags
            }
        }),
{
    let first = made(k1, scope, n1, dd1);
    let s1 = bind_name(st, scope, k1, n1, dd1);
    let id = SymbolId(st.symbols.len() as u32);
    assert(s1.lookup[n2.id@] == id);
    assert(s1.symbols[id.0 as int] == first);
    let (replacement, conflict) = merged(first, made(k2, scope, n2, dd2));
    if let Some(m) = replacement {
        assert(s1.symbols.update(id.0 as int, m) =~= st.symbols.push(m));
    }
}

/// `x: T` then `x = v` in one scope: no diagnostic, and one symbol that
/// the annotation declares and the assignment defines.
pub proof fn lemma_bind_annotation_then_assignment(
    st: BindState,
    scope: ScopeId,
    n1: Name,
    d1: NodeIndex,
    n2: Name,
    d2: NodeIndex,
)
    requires
        n1.id@ == n2.id@,
        !st.lookup.contains_key(n1.id@),
        st.symbols.len() < MAX_SYMBOLS,
        d1.is_node(),
    ensures
        ({
            let r = bind_name(
                bind_name(st, scope, SymbolKind::Variable, n1, DeclOrDefn::Decl(d1)),
                scope,
                SymbolKind::Variable,
                n2,
                DeclOrDefn::Defn(d2),
            );
            &&& r.diags == st.diags
            &&& r.symbols.len() == st.symbols.len() + 1
            &&& r.symbols.last().decl == d1
            &&& r.symbols.last().defn == d2
        }),
{
    let first = made(SymbolKind::Variable, scope, n1, DeclOrDefn::Decl(d1));
    let second = made(SymbolKind::Variable, scope, n2, DeclOrDefn::Defn(d2));
    lemma_annotate_then_assign(first, second);
    lemma_bind_twice(
        st,
        scope,
        SymbolKind::Variable,
        n1,
        DeclOrDefn::Decl(d1),
        SymbolKind::Variable,
        n2,
        DeclOrDefn::Defn(d2),
    );
}

/// `x: T` then `x: U` in one scope: exactly one diagnostic, at the second
/// name's range, citing the first name's range.
pub proof fn lemma_bind_reannotation(
    st: BindState,
    scope: ScopeId,
    n1: Name,
    d1: NodeIndex,
    n2: Name,
    d2: NodeIndex,
)
    requires
        n1.id@ == n2.id@,
        !st.lookup.contains_key(n1.id@),
        st.symbols.len() < MAX_SYMBOLS,
        d1.is_node(),
        d2.is_node(),
    ensures
        bind_name(
            bind_name(st, scope, SymbolKind::Variable, n1, DeclOrDefn::Decl(d1)),
            scope,
            SymbolKind::Variable,
            n2,
            DeclOrDefn::Decl(d2),
        ).diags == st.diags.push(
            (n2.range, conflict_message(SymbolKind::Variable, SymbolKind::Variable, n1.range)),
        ),
{
    lemma_bind_twice(
        st,
        scope,
        SymbolKind::Variable,
        n1,
        DeclOrDefn::Decl(d1),
        SymbolKind::Variable,
        n2,
        DeclOrDefn::Decl(d2),
    );
}

/// `class C` then `def C()` in one scope: one diagnostic, and the class
/// symbol stays as it was, whatever the two statements declare or define.
pub proof fn lemma_bind_class_then_function(
    st: BindState,
    scope: ScopeId,
    n1: Name,
    dd1: DeclOrDefn,
    n2: Name,
    dd2: DeclOrDefn,
)
    requires
        n1.id@ == n2.id@,
        !st.lookup.contains_key(n1.id@),
        st.symbols.len() < MAX_SYMBOLS,
    ensures
        ({
            let r = bind_name(
                bind_name(st, scope, SymbolKind::Class, n1, dd1),
                scope,
                SymbolKind::Function,
                n2,
                dd2,
            );
            &&& r.diags == st.diags.push(
                (n2.range, conflict_message(SymbolKind::Function, SymbolKind::Class, n1.range)),
            )
            &&& r.symbols == st.symbols.push(made(SymbolKind::Class, scope, n1, dd1))
        }),
{
    lemma_single_binder_kinds_conflict(
        made(SymbolKind::Class, scope, n1, dd1),
        made(SymbolKind::Function, scope, n2, dd2),
    );
    lemma_bind_twice(st, scope, SymbolKind::Class, n1, dd1, SymbolKind::Function, n2, dd2);
}

/// `x = v` then `nonlocal x` in one scope: no diagnostic, and the symbol is
/// the nonlocal one.
pub proof fn lemma_bind_assignment_then_nonlocal(
    st: BindState,
    scope: ScopeId,
    n1: Name,
    d1: NodeIndex,
    n2: Name,
    d2: NodeIndex,
)
    requires
        n1.id@ == n2.id@,
        !st.lookup.contains_key(n1.id@),
        st.symbols.len() < MAX_SYMBOLS,
    ensures
        ({
            let r = bind_name(
                bind_name(st, scope, SymbolKind::Variable, n1, DeclOrDefn::Defn(d1)),
                scope,
                SymbolKind::Nonlocal,
                n2,
                DeclOrDefn::Decl(d2),
            );
            &&& r.diags == st.diags
            &&& r.symbols == st.symbols.push(
                made(SymbolKind::Nonlocal, scope, n2, DeclOrDefn::Decl(d2)),
            )
        }),
{
    lemma_nonlocal_after_assignment(
        made(SymbolKind::Variable, scope, n1, DeclOrDefn::Defn(d1)),
        made(SymbolKind::Nonlocal, scope, n2, DeclOrDefn::Decl(d2)),
    );
    lemma_bind_twice(
        st,
        scope,
        SymbolKind::Variable,
        n1,
        DeclOrDefn::Defn(d1),
        SymbolKind::Nonlocal,
        n2,
        DeclOrDefn::Decl(d2),
    );
}

} // verus!
