use xykpy::scope::{ScopeId, ScopeTable};
use xykpy::symbol::{DeclOrDefn, Symbol, SymbolId, SymbolKind, SymbolTable};
use xykpy::syntax::{Name, NodeIndex, SourceRange};

fn name(text: &str, node: u32, start: u32) -> Name {
    Name {
        id: text.to_string(),
        node: NodeIndex(node),
        range: SourceRange::new(start, start + text.len() as u32),
    }
}

fn sym(kind: SymbolKind, node: u32, dd: DeclOrDefn) -> Symbol {
    Symbol::make(kind, ScopeId::from_index(0), &name("x", node, 0), dd)
}

#[test]
fn make_sets_decl_and_defn() {
    let d = sym(SymbolKind::Variable, 1, DeclOrDefn::Decl(NodeIndex(10)));
    assert_eq!(d.decl, NodeIndex(10));
    assert_eq!(d.defn, NodeIndex::none());
    assert_eq!(d.name, NodeIndex(1));
    assert_eq!(d.name_range, SourceRange::new(0, 1));
    let f = sym(SymbolKind::Variable, 1, DeclOrDefn::Defn(NodeIndex(11)));
    assert_eq!(f.decl, NodeIndex::none());
    assert_eq!(f.defn, NodeIndex(11));
    let b = sym(SymbolKind::Variable, 1, DeclOrDefn::DeclAndDefn(NodeIndex(12)));
    assert_eq!(b.decl, NodeIndex(12));
    assert_eq!(b.defn, NodeIndex(12));
}

#[test]
fn merge_annotation_then_assignment() {
    let prev = sym(SymbolKind::Variable, 1, DeclOrDefn::Decl(NodeIndex(10)));
    let later = sym(SymbolKind::Variable, 2, DeclOrDefn::Defn(NodeIndex(20)));
    let (m, conflict) = prev.merge(&later);
    assert!(!conflict);
    let m = m.unwrap();
    assert_eq!(m.decl, NodeIndex(10));
    assert_eq!(m.defn, NodeIndex(20));
    assert_eq!(m.name, NodeIndex(1));
}

#[test]
fn merge_assignment_then_annotation_takes_the_declaration() {
    let prev = sym(SymbolKind::Variable, 1, DeclOrDefn::Defn(NodeIndex(10)));
    let later = sym(SymbolKind::Variable, 2, DeclOrDefn::Decl(NodeIndex(20)));
    let (m, conflict) = prev.merge(&later);
    assert!(!conflict);
    let m = m.unwrap();
    assert_eq!(m.decl, NodeIndex(20));
    assert_eq!(m.defn, NodeIndex(10));
    assert_eq!(m.name, NodeIndex(2));
}

#[test]
fn merge_two_assignments_keeps_earliest_definition() {
    let prev = sym(SymbolKind::Variable, 1, DeclOrDefn::Defn(NodeIndex(30)));
    let later = sym(SymbolKind::Variable, 2, DeclOrDefn::Defn(NodeIndex(20)));
    let (m, conflict) = prev.merge(&later);
    assert!(!conflict);
    let m = m.unwrap();
    assert_eq!(m.defn, NodeIndex(20));
    assert_eq!(m.name, NodeIndex(1));
}

#[test]
fn merge_two_annotations_conflicts() {
    let prev = sym(SymbolKind::Variable, 1, DeclOrDefn::Decl(NodeIndex(10)));
    let later = sym(SymbolKind::Variable, 2, DeclOrDefn::DeclAndDefn(NodeIndex(20)));
    let (m, conflict) = prev.merge(&later);
    assert!(conflict);
    assert_eq!(m.unwrap().decl, NodeIndex(10));
}

#[test]
fn merge_class_and_function_conflicts() {
    let prev = sym(SymbolKind::Class, 1, DeclOrDefn::Decl(NodeIndex(10)));
    let later = sym(SymbolKind::Function, 2, DeclOrDefn::Decl(NodeIndex(20)));
    let (m, conflict) = prev.merge(&later);
    assert!(conflict);
    assert!(m.is_none());
    let plain = sym(SymbolKind::Variable, 3, DeclOrDefn::Defn(NodeIndex(30)));
    let (m, conflict) = plain.merge(&prev);
    assert!(conflict);
    assert!(m.is_none());
}

#[test]
fn merge_variable_then_nonlocal() {
    let prev = sym(SymbolKind::Variable, 1, DeclOrDefn::Defn(NodeIndex(10)));
    let later = sym(SymbolKind::Nonlocal, 2, DeclOrDefn::Decl(NodeIndex(20)));
    let (m, conflict) = prev.merge(&later);
    assert!(!conflict);
    let m = m.unwrap();
    assert_eq!(m.kind, SymbolKind::Nonlocal);
    assert_eq!(m.decl, NodeIndex(20));
    let declared = sym(SymbolKind::Variable, 1, DeclOrDefn::Decl(NodeIndex(10)));
    assert!(declared.merge(&later).1);
}

#[test]
fn merge_nonlocal_then_variable() {
    let prev = sym(SymbolKind::Nonlocal, 1, DeclOrDefn::Decl(NodeIndex(10)));
    let later = sym(SymbolKind::Variable, 2, DeclOrDefn::Defn(NodeIndex(20)));
    let (m, conflict) = prev.merge(&later);
    assert!(m.is_none());
    assert!(conflict);
}

#[test]
fn kind_texts_and_types() {
    assert_eq!(SymbolKind::Class.text(), "class");
    assert_eq!(SymbolKind::Alias.text(), "type alias");
    assert_eq!(SymbolKind::Variable.text(), "variable");
    assert_eq!(SymbolKind::Function.text(), "function");
    assert_eq!(SymbolKind::Nonlocal.text(), "nonlocal");
    assert!(SymbolKind::Class.is_type());
    assert!(SymbolKind::Alias.is_type());
    assert!(!SymbolKind::Variable.is_type());
    assert!(!SymbolKind::Function.is_type());
    assert!(!SymbolKind::Nonlocal.is_type());
}

#[test]
fn node_index_order_and_sentinel() {
    assert!(!NodeIndex::none().is_some());
    assert!(NodeIndex(0).is_some());
    assert_eq!(NodeIndex(3).min(NodeIndex(2)), NodeIndex(2));
    assert_eq!(NodeIndex::none().min(NodeIndex(7)), NodeIndex(7));
}

#[test]
fn symbol_table_hands_out_dense_ids() {
    let mut t = SymbolTable::new();
    let a = t.insert(sym(SymbolKind::Class, 1, DeclOrDefn::Decl(NodeIndex(10))));
    let b = t.insert(sym(SymbolKind::Function, 2, DeclOrDefn::Decl(NodeIndex(20))));
    assert_eq!(a, SymbolId(0));
    assert_eq!(b, SymbolId(1));
    assert_eq!(t.len(), 2);
    assert_eq!(t.get(b).kind, SymbolKind::Function);
    t.get_mut(a).defn = NodeIndex(99);
    assert_eq!(t.get(a).defn, NodeIndex(99));
    assert_eq!(t.get(b).defn, NodeIndex::none());
}

#[test]
fn scope_ids_round_trip() {
    for i in [0usize, 1, 2, 1000, 65534] {
        assert_eq!(ScopeId::from_index(i).into_index(), i);
    }
}

#[test]
fn scope_table_tree_and_members() {
    let mut scopes = ScopeTable::new(NodeIndex(0));
    let root = scopes.root_id();
    assert_eq!(root.into_index(), 0);
    assert_eq!(scopes.len(), 1);
    assert!(scopes.root().parent().is_none());
    assert_eq!(scopes.root().node(), NodeIndex(0));
    let child = scopes.make_scope(NodeIndex(5), root);
    assert_eq!(child.into_index(), 1);
    assert_eq!(scopes.len(), 2);
    assert_eq!(scopes.get(child).parent().unwrap().into_index(), 0);
    assert_eq!(scopes.get(child).node(), NodeIndex(5));
    assert!(scopes.root().children().is_empty());
    assert!(scopes.add_symbol(child, SymbolId(3)));
    assert!(!scopes.add_symbol(child, SymbolId(3)));
    assert!(scopes.get(child).contains(SymbolId(3)));
    assert!(!scopes.get(root).contains(SymbolId(3)));
}

#[test]
fn symbol_is_compact() {
    assert_eq!(std::mem::size_of::<Symbol>(), 24);
}
