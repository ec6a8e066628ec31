//! The parts of a parsed syntax tree that name resolution reads.
use vstd::prelude::*;

verus! {

/// The raw value reserved for "no node".
pub const NO_NODE_RAW: u32 = 4294967295;

/// The identity of a node of the syntax tree. Identities are totally
/// ordered; the largest value is reserved for "no node".
#[derive(Clone, Copy, Debug, PartialEq, Eq, Structural, Hash)]
pub struct NodeIndex(pub u32);

impl NodeIndex {
    /// The reserved identity that stands for no node at all.
    pub fn none() -> (r: NodeIndex)
        ensures
            r.0 == NO_NODE_RAW,
    {
        NodeIndex(NO_NODE_RAW)
    }

    pub open spec fn is_node(self) -> bool {
        self.0 != NO_NODE_RAW
    }

    /// Whether this identity designates a real node.
    pub fn is_some(&self) -> (r: bool)
        ensures
            r == self.is_node(),
    {
        self.0 != NO_NODE_RAW
    }

    pub open spec fn spec_min(self, other: NodeIndex) -> NodeIndex {
        if self.0 <= other.0 {
            self
        } else {
            other
        }
    }

    /// The smaller of two identities.
    pub fn min(self, other: NodeIndex) -> (r: NodeIndex)
        ensures
            r == self.spec_min(other),
    {
        if self.0 <= other.0 {
            self
        } else {
            other
        }
    }
}

/// A range of byte offsets in the source text, `start..end`.
#[derive(Clone, Copy, Debug, PartialEq, Eq, Structural, Hash)]
pub struct SourceRange {
    pub start: u32,
    pub end: u32,
}

impl SourceRange {
    pub open spec fn wf(self) -> bool {
        self.start <= self.end
    }

    pub fn new(start: u32, end: u32) -> (r: SourceRange)
        requires
            start <= end,
        ensures
            r.start == start,
            r.end == end,
    {
        SourceRange { start, end }
    }
}

/// The decimal digit `d`.
pub open spec fn digit(d: nat) -> char {
    (48 + d) as u8 as char
}

/// `n` written in decimal, without sign or leading zeros.
pub open spec fn decimal(n: nat) -> Seq<char>
    decreases n,
{
    if n < 10 {
        seq![digit(n)]
    } else {
        decimal(n / 10) + seq![digit(n % 10)]
    }
}

/// How a range is written in messages: `start..end`, both in decimal.
pub open spec fn range_text(r: SourceRange) -> Seq<char> {
    decimal(r.start as nat) + ".."@ + decimal(r.end as nat)
}

impl Default for SourceRange {
    fn default() -> (r: SourceRange)
        ensures
            r.start == 0 && r.end == 0,
    {
        SourceRange { start: 0, end: 0 }
    }
}

/// A name as it occurs in the tree: its text, its node and its range.
#[derive(Clone, Debug)]
pub struct Name {
    pub id: String,
    pub node: NodeIndex,
    pub range: SourceRange,
}

/// An expression, as far as binding needs to tell expressions apart.
#[derive(Clone, Debug)]
pub enum Expr {
    Name(Name),
    Other { node: NodeIndex, range: SourceRange },
}

impl Expr {
    pub open spec fn spec_range(&self) -> SourceRange {
        match self {
            Expr::Name(n) => n.range,
            Expr::Other { range, .. } => *range,
        }
    }

    /// The source range of the expression.
    pub fn range(&self) -> (r: SourceRange)
        ensures
            r == self.spec_range(),
    {
        match self {
            Expr::Name(n) => n.range,
            Expr::Other { range, .. } => *range,
        }
    }
}

/// A statement, classified by the kinds that introduce bindings.
#[derive(Clone, Debug)]
pub enum Stmt {
    /// `class name: ...`
    ClassDef { node: NodeIndex, range: SourceRange, name: Name },
    /// `type name = ...`; the grammar only admits a plain name here.
    TypeAlias { node: NodeIndex, range: SourceRange, name: Name },
    /// `t1 = t2 = ... = value`
    Assign { node: NodeIndex, range: SourceRange, targets: Vec<Expr> },
    /// `target: annotation` or `target: annotation = value`
    AnnAssign { node: NodeIndex, range: SourceRange, target: Expr, has_value: bool },
    /// `def name(...): ...`
    FunctionDef { node: NodeIndex, range: SourceRange, name: Name },
    /// `nonlocal a, b, ...`
    Nonlocal { node: NodeIndex, range: SourceRange, names: Vec<Name> },
    /// Any statement that binds nothing at the level of its block.
    Other { node: NodeIndex, range: SourceRange },
}

/// A parsed module: its node and its top-level statements.
#[derive(Clone, Debug)]
pub struct Module {
    pub node: NodeIndex,
    pub body: Vec<Stmt>,
}

impl Expr {
    /// A name in the expression has a well-formed range.
    pub open spec fn wf(&self) -> bool {
        match self {
            Expr::Name(n) => n.range.wf(),
            Expr::Other { .. } => true,
        }
    }
}

impl Stmt {
    /// Every name that the statement may bind has a well-formed range.
    pub open spec fn wf(&self) -> bool {
        match self {
            Stmt::ClassDef { name, .. } => name.range.wf(),
            Stmt::TypeAlias { name, .. } => name.range.wf(),
            Stmt::FunctionDef { name, .. } => name.range.wf(),
            Stmt::Assign { targets, .. } => forall|i: int|
                0 <= i < targets@.len() ==> (#[trigger] targets@[i]).wf(),
            Stmt::AnnAssign { target, .. } => target.wf(),
            Stmt::Nonlocal { names, .. } => forall|i: int|
                0 <= i < names@.len() ==> (#[trigger] names@[i]).range.wf(),
            Stmt::Other { .. } => true,
        }
    }

    /// The most symbols that binding the statement can create.
    pub open spec fn binding_count(&self) -> nat {
        match self {
            Stmt::Nonlocal { names, .. } => names@.len(),
            Stmt::Other { .. } => 0,
            _ => 1,
        }
    }
}

/// The most symbols that binding a block can create.
pub open spec fn block_binding_count(stmts: Seq<Stmt>) -> nat
    decreases stmts.len(),
{
    if stmts.len() == 0 {
        0
    } else {
        block_binding_count(stmts.drop_last()) + stmts.last().binding_count()
    }
}

/// Every statement of the block is well formed.
pub open spec fn block_wf(stmts: Seq<Stmt>) -> bool {
    forall|i: int| 0 <= i < stmts.len() ==> (#[trigger] stmts[i]).wf()
}

} // verus!
