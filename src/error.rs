//! Diagnostics: single errors, trees of errors, and values paired with them.
use crate::syntax::SourceRange;
use vstd::prelude::*;

verus! {

/// One diagnostic: where it applies and what it says.
pub struct TypeError {
    pub range: SourceRange,
    pub message: String,
}

impl View for TypeError {
    type V = (SourceRange, Seq<char>);

    open spec fn view(&self) -> (SourceRange, Seq<char>) {
        (self.range, self.message@)
    }
}

impl TypeError {
    pub fn new(range: SourceRange, message: String) -> (r: TypeError)
        ensures
            r@ == (range, message@),
    {
        TypeError { range, message }
    }
}

/// A tree of diagnostics: none, one, or a list of non-empty sub-trees.
pub enum Errors {
    AllGood,
    Single(Box<TypeError>),
    Many(Vec<Errors>),
}

/// The diagnostics of a tree, depth first and left to right.
pub open spec fn flatten(e: Errors) -> Seq<(SourceRange, Seq<char>)>
    decreases e,
{
    match e {
        Errors::AllGood => Seq::empty(),
        Errors::Single(t) => seq![t@],
        Errors::Many(v) => flatten_all(v@),
    }
}

/// The diagnostics of a list of trees, one tree after the other.
pub open spec fn flatten_all(s: Seq<Errors>) -> Seq<(SourceRange, Seq<char>)>
    decreases s,
{
    if s.len() == 0 {
        Seq::empty()
    } else {
        flatten_all(s.drop_last()) + flatten(s.last())
    }
}


/// The size of a tree: one for each node.
pub open spec fn size(e: Errors) -> nat
    decreases e,
{
    match e {
        Errors::Many(v) => 1 + size_all(v@),
        _ => 1,
    }
}

/// The total size of a list of trees.
pub open spec fn size_all(s: Seq<Errors>) -> nat
    decreases s,
{
    if s.len() == 0 {
        0
    } else {
        size_all(s.drop_last()) + size(s.last())
    }
}

/// The diagnostics still held by a stack of trees whose top is its last
/// element: the top tree's first.
pub open spec fn pending(stack: Seq<Errors>) -> Seq<(SourceRange, Seq<char>)>
    decreases stack.len(),
{
    if stack.len() == 0 {
        Seq::empty()
    } else {
        flatten(stack.last()) + pending(stack.drop_last())
    }
}

impl Errors {
    /// Creates a tree that holds one diagnostic.
    pub fn single(range: SourceRange, message: String) -> (r: Errors)
        ensures
            r is Single,
            flatten(r) == seq![(range, message@)],
    {
        Errors::Single(Box::new(TypeError { range, message }))
    }

    /// Whether the tree holds no diagnostic node at all.
    pub fn is_all_good(&self) -> (r: bool)
        ensures
            r == (*self is AllGood),
    {
        match self {
            Errors::AllGood => true,
            _ => false,
        }
    }

    /// Hands out the diagnostics one by one, depth first and left to right.
    pub fn into_iter(self) -> (r: ErrorsIter)
        ensures
            r@ == flatten(self),
    {
        let stack = vec![self];
        proof {
            assert(stack@.drop_last() =~= Seq::<Errors>::empty());
            assert(pending(stack@) =~= flatten(self) + pending(Seq::<Errors>::empty()));
        }
        ErrorsIter { stack }
    }

    /// All diagnostics of the tree, depth first and left to right.
    pub fn into_vec(self) -> (r: Vec<TypeError>)
        ensures
            r@.map_values(|t: TypeError| t@) == flatten(self),
    {
        let mut it = self.into_iter();
        let mut out: Vec<TypeError> = Vec::new();
        loop
            invariant
                out@.map_values(|t: TypeError| t@) + it@ == flatten(self),
            decreases it@.len(),
        {
            let ghost before = it@;
            match it.next() {
                None => {
                    assert(out@.map_values(|t: TypeError| t@) =~= flatten(self));
                    return out;
                },
                Some(t) => {
                    let ghost tv = t@;
                    let ghost old_out = out@;
                    out.push(t);
                    assert(out@.map_values(|t: TypeError| t@) =~= old_out.map_values(
                        |t: TypeError| t@,
                    ).push(tv));
                    assert(out@.map_values(|t: TypeError| t@) + it@ =~= old_out.map_values(
                        |t: TypeError| t@,
                    ) + before);
                },
            }
        }
    }
}

impl Default for Errors {
    fn default() -> (r: Errors)
        ensures
            r is AllGood,
    {
        Errors::AllGood
    }
}

/// Walks a tree of diagnostics with an explicit stack, so that deep trees
/// need no deep recursion.
pub struct ErrorsIter {
    stack: Vec<Errors>,
}

impl View for ErrorsIter {
    type V = Seq<(SourceRange, Seq<char>)>;

    closed spec fn view(&self) -> Seq<(SourceRange, Seq<char>)> {
        pending(self.stack@)
    }
}

proof fn lemma_push(stack: Seq<Errors>, e: Errors)
    ensures
        pending(stack.push(e)) == flatten(e) + pending(stack),
        size_all(stack.push(e)) == size_all(stack) + size(e),
{
    assert(stack.push(e).drop_last() =~= stack);
}

impl ErrorsIter {
    /// The next diagnostic, or `None` once all have been handed out.
    pub fn next(&mut self) -> (r: Option<TypeError>)
        ensures
            r is None ==> old(self)@.len() == 0 && final(self)@.len() == 0,
            r is Some ==> old(self)@ == seq![r->Some_0@] + final(self)@,
    {
        let ghost start = self@;
        loop
            invariant
                pending(self.stack@) == start,
                start == old(self)@,
            decreases size_all(self.stack@),
        {
            let ghost before = self.stack@;
            match self.stack.pop() {
                None => {
                    assert(before.len() == 0);
                    return None;
                },
                Some(top) => {
                    proof {
                        lemma_push(self.stack@, top);
                        assert(before =~= self.stack@.push(top));
                    }
                    match top {
                        Errors::AllGood => {},
                        Errors::Single(t) => {
                            let t = *t;
                            return Some(t);
                        },
                        Errors::Many(v) => {
                            let ghost vs = v@;
                            let ghost base = self.stack@;
                            let mut v = v;
                            while v.len() > 0
                                invariant
                                    flatten_all(v@) + pending(self.stack@) == flatten_all(vs)
                                        + pending(base),
                                    size_all(v@) + size_all(self.stack@) == size_all(vs)
                                        + size_all(base),
                                decreases v.len(),
                            {
                                let ghost vb = v@;
                                let ghost sb = self.stack@;
                                let x = v.pop().unwrap();
                                proof {
                                    lemma_push(sb, x);
                                    assert(vb.drop_last() =~= v@);
                                    assert(flatten_all(vb) == flatten_all(v@) + flatten(x));
                                }
                                self.stack.push(x);
                                assert(flatten_all(v@) + pending(self.stack@) =~= flatten_all(
                                    v@,
                                ) + flatten(x) + pending(sb));
                            }
                            assert(flatten_all(v@) =~= Seq::empty());
                            assert(pending(self.stack@) =~= flatten_all(vs) + pending(base));
                        },
                    }
                },
            }
        }
    }
}

/// What `ErrorsBuilder::build` makes of the trees added so far: nothing,
/// the one tree itself, or a list of them all.
pub open spec fn builds_to(items: Seq<Errors>, r: Errors) -> bool {
    &&& items.len() == 0 ==> r is AllGood
    &&& items.len() == 1 ==> r == items[0]
    &&& items.len() >= 2 ==> (r is Many && r->Many_0@ == items)
}

/// What `ErrorsBuilder::add` makes of the trees added so far: an empty tree
/// is dropped, any other is kept at the end.
pub open spec fn added(items: Seq<Errors>, e: Errors) -> Seq<Errors> {
    if e is AllGood {
        items
    } else {
        items.push(e)
    }
}

/// Collects the diagnostics of many computations into one tree.
pub struct ErrorsBuilder {
    errors: Vec<Errors>,
}

impl View for ErrorsBuilder {
    type V = Seq<Errors>;

    closed spec fn view(&self) -> Seq<Errors> {
        self.errors@
    }
}

impl ErrorsBuilder {
    /// No tree the builder holds is empty.
    pub closed spec fn wf(&self) -> bool {
        forall|i: int| 0 <= i < self.errors@.len() ==> !(#[trigger] self.errors@[i] is AllGood)
    }

    pub fn new() -> (r: ErrorsBuilder)
        ensures
            r@ == Seq::<Errors>::empty(),
            r.wf(),
    {
        ErrorsBuilder { errors: Vec::new() }
    }

    /// Adds the diagnostics of one computation.
    pub fn add(&mut self, error: Errors)
        requires
            old(self).wf(),
        ensures
            final(self)@ == added(old(self)@, error),
            final(self).wf(),
    {
        if !error.is_all_good() {
            self.errors.push(error);
        }
    }

    /// The tree of all diagnostics added, with no list of fewer than two.
    pub fn build(self) -> (r: Errors)
        requires
            self.wf(),
        ensures
            builds_to(self@, r),
            flatten(r) == flatten_all(self@),
            self@.len() >= 2 ==> forall|i: int|
                0 <= i < r->Many_0@.len() ==> !(#[trigger] r->Many_0@[i] is AllGood),
    {
        let mut errors = self.errors;
        let n = errors.len();
        if n == 0 {
            Errors::AllGood
        } else if n == 1 {
            let e = errors.pop().unwrap();
            proof {
                assert(self@.drop_last() =~= Seq::<Errors>::empty());
                assert(flatten_all(Seq::<Errors>::empty()) =~= Seq::empty());
                assert(flatten_all(self@) =~= flatten(e));
            }
            e
        } else {
            Errors::Many(errors)
        }
    }
}

/// Adding one non-empty tree to the diagnostics of many computations adds
/// its diagnostics at the end.
pub proof fn lemma_added_flatten(items: Seq<Errors>, e: Errors)
    ensures
        flatten_all(added(items, e)) == flatten_all(items) + flatten(e),
{
    if e is AllGood {
        assert(flatten_all(items) + flatten(e) =~= flatten_all(items));
    } else {
        assert(items.push(e).drop_last() =~= items);
    }
}

/// A builder to which nothing was added builds the empty tree, which holds
/// no diagnostic.
pub proof fn lemma_build_nothing(r: Errors)
    requires
        builds_to(Seq::empty(), r),
    ensures
        r is AllGood,
        flatten(r).len() == 0,
{
}

/// A builder to which one non-empty tree was added builds that very tree,
/// not a list that wraps it.
pub proof fn lemma_build_one(e: Errors, r: Errors)
    requires
        !(e is AllGood),
        builds_to(added(Seq::empty(), e), r),
    ensures
        r == e,
{
    assert(added(Seq::empty(), e)[0] == e);
}

/// A builder to which two or more non-empty trees were added builds a list
/// of them, whose diagnostics come in the order in which they were added.
pub proof fn lemma_build_many(a: Errors, b: Errors, rest: Seq<Errors>, r: Errors)
    requires
        !(a is AllGood),
        !(b is AllGood),
        builds_to(added(added(Seq::empty(), a), b) + rest, r),
    ensures
        r is Many,
        flatten(r) == flatten(a) + flatten(b) + flatten_all(rest),
    decreases rest.len(),
{
    let items = added(added(Seq::empty(), a), b) + rest;
    assert(items.len() >= 2);
    assert(flatten(r) == flatten_all(items));
    lemma_flatten_all_append(seq![a, b], rest);
    assert(added(added(Seq::empty(), a), b) =~= seq![a, b]);
    assert(seq![a, b].drop_last() =~= seq![a]);
    assert(seq![a].drop_last() =~= Seq::<Errors>::empty());
    assert(flatten_all(Seq::<Errors>::empty()) =~= Seq::empty());
    assert(flatten_all(seq![a]) =~= flatten(a));
}

/// The diagnostics of two lists of trees, one after the other.
pub proof fn lemma_flatten_all_append(s: Seq<Errors>, t: Seq<Errors>)
    ensures
        flatten_all(s + t) == flatten_all(s) + flatten_all(t),
    decreases t.len(),
{
    if t.len() == 0 {
        assert(s + t =~= s);
        assert(flatten_all(s) + flatten_all(t) =~= flatten_all(s));
    } else {
        lemma_flatten_all_append(s, t.drop_last());
        assert((s + t).drop_last() =~= s + t.drop_last());
        assert((s + t).last() == t.last());
        assert(flatten_all(s + t) =~= flatten_all(s) + flatten_all(t));
    }
}

/// A value with the diagnostics found while computing it.
pub struct Outcome<T> {
    pub value: T,
    pub errors: Errors,
}

impl<T> Outcome<T> {
    pub fn success(value: T) -> (r: Outcome<T>)
        ensures
            r.value == value,
            r.errors is AllGood,
    {
        Outcome { value, errors: Errors::AllGood }
    }

    pub fn mixed(value: T, errors: Errors) -> (r: Outcome<T>)
        ensures
            r.value == value,
            r.errors == errors,
    {
        Outcome { value, errors }
    }
}

impl<T: Default> Outcome<T> {
    /// A default value with the diagnostics that kept a real one from
    /// being computed.
    pub fn failed(errors: Errors) -> (r: Outcome<T>)
        ensures
            r.errors == errors,
    {
        let value = T::default();
        Outcome { value, errors }
    }
}

impl From<TypeError> for Errors {
    fn from(value: TypeError) -> (r: Errors)
        ensures
            r is Single,
            flatten(r) == seq![value@],
    {
        Errors::Single(Box::new(value))
    }
}

impl vstd::std_specs::convert::FromSpecImpl<TypeError> for Errors {
    open spec fn obeys_from_spec() -> bool {
        true
    }

    open spec fn from_spec(v: TypeError) -> Errors {
        Errors::Single(Box::new(v))
    }
}

impl From<()> for Errors {
    fn from(value: ()) -> (r: Errors)
        ensures
            r is AllGood,
    {
        Errors::AllGood
    }
}

impl vstd::std_specs::convert::FromSpecImpl<()> for Errors {
    open spec fn obeys_from_spec() -> bool {
        true
    }

    open spec fn from_spec(v: ()) -> Errors {
        Errors::AllGood
    }
}

} // verus!
