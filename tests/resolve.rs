use xykpy::error::TypeError;
use xykpy::resolver::{Resolution, Resolver};
use xykpy::symbol::{Symbol, SymbolId, SymbolKind};
use xykpy::syntax::{Expr, Module, Name, NodeIndex, SourceRange, Stmt};

fn name(text: &str, node: u32, start: u32) -> Name {
    Name {
        id: text.to_string(),
        node: NodeIndex(node),
        range: SourceRange::new(start, start + text.len() as u32),
    }
}

fn at(start: u32, end: u32) -> SourceRange {
    SourceRange::new(start, end)
}

fn class(node: u32, n: Name) -> Stmt {
    Stmt::ClassDef { node: NodeIndex(node), range: at(n.range.start, n.range.end), name: n }
}

fn function(node: u32, n: Name) -> Stmt {
    Stmt::FunctionDef { node: NodeIndex(node), range: at(n.range.start, n.range.end), name: n }
}

fn alias(node: u32, n: Name) -> Stmt {
    Stmt::TypeAlias { node: NodeIndex(node), range: at(n.range.start, n.range.end), name: n }
}

fn assign(node: u32, n: Name) -> Stmt {
    Stmt::Assign { node: NodeIndex(node), range: at(n.range.start, n.range.end + 4), targets: vec![Expr::Name(n)] }
}

fn annotate(node: u32, n: Name, has_value: bool) -> Stmt {
    Stmt::AnnAssign { node: NodeIndex(node), range: at(n.range.start, n.range.end + 5), target: Expr::Name(n), has_value }
}

fn nonlocal(node: u32, names: Vec<Name>) -> Stmt {
    Stmt::Nonlocal { node: NodeIndex(node), range: at(0, 0), names }
}

fn resolve(body: Vec<Stmt>) -> (Resolution, Vec<TypeError>) {
    let module = Module { node: NodeIndex(0), body };
    let outcome = Resolver::new(&module).run();
    (outcome.value, outcome.errors.into_vec())
}

fn symbol(r: &Resolution, i: u32) -> Symbol {
    *r.symbols().get(SymbolId(i))
}

#[test]
fn annotation_then_assignment_merges() {
    let (r, errors) = resolve(vec![annotate(1, name("x", 2, 0), false), assign(3, name("x", 4, 10))]);
    assert!(errors.is_empty());
    assert_eq!(r.symbols().len(), 1);
    let x = symbol(&r, 0);
    assert_eq!(x.kind, SymbolKind::Variable);
    assert_eq!(x.decl, NodeIndex(1));
    assert_eq!(x.defn, NodeIndex(3));
    assert_eq!(x.name, NodeIndex(2));
}

#[test]
fn reannotation_conflicts() {
    let (r, errors) = resolve(vec![annotate(1, name("x", 2, 0), false), annotate(3, name("x", 4, 10), false)]);
    assert_eq!(errors.len(), 1);
    assert_eq!(errors[0].range, at(10, 11));
    assert_eq!(errors[0].message, "variable definition conflicts with earlier variable definition at 0..1");
    assert_eq!(r.symbols().len(), 1);
    assert_eq!(symbol(&r, 0).decl, NodeIndex(1));
}

#[test]
fn class_then_function_conflicts() {
    let (r, errors) = resolve(vec![class(1, name("Foo", 2, 6)), function(3, name("Foo", 4, 124))]);
    assert_eq!(errors.len(), 1);
    assert_eq!(errors[0].range, at(124, 127));
    assert_eq!(errors[0].message, "function definition conflicts with earlier class definition at 6..9");
    assert_eq!(symbol(&r, 0).kind, SymbolKind::Class);
}

#[test]
fn alias_then_assignment_conflicts() {
    let (r, errors) = resolve(vec![alias(1, name("T", 2, 5)), assign(3, name("T", 4, 20))]);
    assert_eq!(errors.len(), 1);
    assert_eq!(errors[0].message, "variable definition conflicts with earlier type alias definition at 5..6");
    assert_eq!(symbol(&r, 0).kind, SymbolKind::Alias);
}

#[test]
fn nonlocal_after_assignment_replaces() {
    let (r, errors) = resolve(vec![assign(1, name("x", 2, 0)), nonlocal(3, vec![name("x", 4, 20)])]);
    assert!(errors.is_empty());
    assert_eq!(r.symbols().len(), 1);
    let x = symbol(&r, 0);
    assert_eq!(x.kind, SymbolKind::Nonlocal);
    assert_eq!(x.decl, NodeIndex(3));
}

#[test]
fn assignment_after_nonlocal_keeps_nonlocal() {
    let (r, errors) = resolve(vec![nonlocal(1, vec![name("x", 2, 9)]), assign(3, name("x", 4, 20))]);
    assert_eq!(r.symbols().len(), 1);
    assert_eq!(symbol(&r, 0).kind, SymbolKind::Nonlocal);
    assert_eq!(symbol(&r, 0).decl, NodeIndex(1));
    assert_eq!(errors.len(), 1);
    assert_eq!(errors[0].message, "variable definition conflicts with earlier nonlocal definition at 9..10");
}

#[test]
fn nonlocal_binds_every_name() {
    let (r, errors) = resolve(vec![nonlocal(1, vec![name("a", 2, 9), name("b", 3, 12)])]);
    assert!(errors.is_empty());
    assert_eq!(r.symbols().len(), 2);
    assert_eq!(symbol(&r, 1).name, NodeIndex(3));
}

#[test]
fn scope_members_match_symbol_scopes() {
    let (r, _) = resolve(vec![
        class(1, name("A", 2, 0)),
        assign(3, name("x", 4, 10)),
        assign(5, name("x", 6, 20)),
        function(7, name("f", 8, 30)),
    ]);
    let root = r.scopes().root_id();
    assert_eq!(r.symbols().len(), 3);
    for i in 0..3 {
        assert_eq!(symbol(&r, i).scope.into_index(), 0);
        assert!(r.scopes().get(root).contains(SymbolId(i)));
    }
    assert!(!r.scopes().get(root).contains(SymbolId(3)));
    assert!(r.node_symbol(NodeIndex(2)).is_none());
}

#[test]
fn unsupported_targets_recover() {
    let multi = Stmt::Assign {
        node: NodeIndex(1),
        range: at(0, 12),
        targets: vec![
            Expr::Other { node: NodeIndex(2), range: at(0, 4) },
            Expr::Name(name("c", 3, 7)),
        ],
    };
    let attribute = Stmt::Assign {
        node: NodeIndex(4),
        range: at(13, 20),
        targets: vec![Expr::Other { node: NodeIndex(5), range: at(13, 16) }],
    };
    let annotated = Stmt::AnnAssign {
        node: NodeIndex(6),
        range: at(21, 30),
        target: Expr::Other { node: NodeIndex(7), range: at(21, 24) },
        has_value: true,
    };
    let (r, errors) = resolve(vec![multi, attribute, annotated, assign(8, name("y", 9, 31))]);
    assert_eq!(errors.len(), 3);
    assert_eq!(errors[0].range, at(0, 12));
    assert_eq!(errors[0].message, "only single target assignments are supported");
    assert_eq!(errors[1].range, at(13, 16));
    assert_eq!(errors[1].message, "only name targets are supported");
    assert_eq!(errors[2].range, at(21, 24));
    assert_eq!(errors[2].message, "only name targets are supported");
    assert_eq!(r.symbols().len(), 1);
    assert_eq!(symbol(&r, 0).defn, NodeIndex(8));
}

#[test]
fn other_statements_bind_nothing() {
    let (r, errors) = resolve(vec![Stmt::Other { node: NodeIndex(1), range: at(0, 4) }]);
    assert!(errors.is_empty());
    assert_eq!(r.symbols().len(), 0);
}

#[test]
fn end_to_end_example() {
    let (r, errors) = resolve(vec![
        class(1, name("A", 2, 6)),
        annotate(3, name("x", 4, 15), false),
        assign(5, name("x", 6, 22)),
        function(7, name("A", 8, 32)),
    ]);
    assert_eq!(errors.len(), 1);
    assert_eq!(errors[0].range, at(32, 33));
    assert_eq!(errors[0].message, "function definition conflicts with earlier class definition at 6..7");
    assert_eq!(r.symbols().len(), 2);
    let a = symbol(&r, 0);
    assert_eq!(a.kind, SymbolKind::Class);
    assert_eq!(a.decl, NodeIndex(1));
    assert_eq!(a.defn, NodeIndex::none());
    let x = symbol(&r, 1);
    assert_eq!(x.kind, SymbolKind::Variable);
    assert_eq!(x.decl, NodeIndex(3));
    assert_eq!(x.defn, NodeIndex(5));
}

#[test]
fn annotated_with_value_is_both() {
    let (r, errors) = resolve(vec![annotate(1, name("z", 2, 0), true)]);
    assert!(errors.is_empty());
    assert_eq!(symbol(&r, 0).decl, NodeIndex(1));
    assert_eq!(symbol(&r, 0).defn, NodeIndex(1));
}
