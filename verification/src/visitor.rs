//! The kind-keyed visitor dispatch engine.
//!
//! A [`Visitor`] holds a table mapping node kinds to handlers and a shared
//! mutable scope.  [`Visitor::visit`] looks the node's kind up and invokes
//! the registered handler, which may recurse into children through the
//! visitor and may read or mutate the scope; a node whose kind has no
//! handler fails with a [`VisitError`] naming the kind and label.  Dispatch
//! is purely by integer kind: every kind that can appear in a visited tree
//! must have a handler registered.

use std::collections::HashMap;
use vstd::prelude::*;
use crate::ast::{Node, lemma_child_height};
use crate::text::{u64_dec, u64_to_string, spaces, make_spaces};

verus! {

broadcast use vstd::std_specs::hash::group_hash_axioms;

/// No handler was registered for a node's kind.
#[derive(Debug, PartialEq, Eq)]
pub struct VisitError {
    /// The kind that had no handler.
    pub kind: u32,
    /// The label of the node that could not be dispatched.
    pub label: String,
}

impl Clone for VisitError {
    fn clone(&self) -> (r: Self)
        ensures
            r.kind == self.kind,
            r.label@ == self.label@,
    {
        Self { kind: self.kind, label: self.label.clone() }
    }
}

/// A value produced by visiting: a tagged union that a handler assembles.
/// `Compound` is the only variant that accumulates children; `Nothing`
/// carries no value.
#[derive(Debug)]
pub enum VisitorResult {
    Compound(Vec<VisitorResult>),
    String(String),
    Integer(u64),
    Tagged(String, Box<VisitorResult>),
    Nothing,
}

/// Whether a result carries text everywhere: no `Nothing` is reachable, so
/// [`VisitorResult::as_string`] is meaningful.
pub open spec fn text_defined(r: VisitorResult) -> bool
    decreases r,
{
    match r {
        VisitorResult::Compound(s) => forall|i: int|
            0 <= i < s@.len() ==> text_defined(#[trigger] s@[i]),
        VisitorResult::String(_) => true,
        VisitorResult::Integer(_) => true,
        VisitorResult::Tagged(_, v) => text_defined(*v),
        VisitorResult::Nothing => false,
    }
}

/// What [`VisitorResult::as_string`] renders: children concatenated in
/// order, scalar text as is, integers in decimal, and a tagged value as its
/// label, a space, and the value's text.
pub open spec fn as_string_spec(r: VisitorResult) -> Seq<char>
    decreases r,
{
    match r {
        VisitorResult::Compound(s) => children_text(r, s@.len() as int),
        VisitorResult::String(s) => s@,
        VisitorResult::Integer(n) => u64_dec(n as nat),
        VisitorResult::Tagged(s, v) => s@ + seq![' '] + as_string_spec(*v),
        VisitorResult::Nothing => Seq::<char>::empty(),
    }
}

/// The concatenated text of the first `i` children of a `Compound`.
pub open spec fn children_text(r: VisitorResult, i: int) -> Seq<char>
    decreases r, i,
{
    match r {
        VisitorResult::Compound(s) => {
            if i <= 0 || i > s@.len() {
                Seq::<char>::empty()
            } else {
                children_text(r, i - 1) + as_string_spec(s@[i - 1])
            }
        },
        _ => Seq::<char>::empty(),
    }
}

/// What the connector before a child's rendering is: a plain dash for
/// children that open their own block, otherwise a tee, or an elbow for the
/// last child.
pub open spec fn vr_connector(child: VisitorResult, last: bool, depth: int) -> Seq<char> {
    spaces(2 * depth) + if child is Tagged || child is Compound {
        "\u{1b}[38;2;120;120;120m\u{2500}\u{1b}[0m "@
    } else if !last {
        "\u{1b}[38;2;120;120;120m\u{251c}\u{2500}\u{1b}[0m "@
    } else {
        "\u{1b}[38;2;120;120;120m\u{2514}\u{2500}\u{1b}[0m "@
    }
}

/// What [`VisitorResult::display`] renders.
pub open spec fn vr_display_spec(r: VisitorResult, depth: int) -> Seq<char>
    decreases r,
{
    match r {
        VisitorResult::Compound(s) => "\u{1b}[38;2;200;30;200mcompound\u{1b}[0m\n"@
            + vr_children_display(r, s@.len() as int, depth),
        VisitorResult::String(s) => "\u{1b}[38;2;150;150;170mstring:\u{1b}[0m \u{1b}[38;2;60;180;100m"@
            + s@ + "\u{1b}[0m\n"@,
        VisitorResult::Integer(n) => "\u{1b}[38;2;150;150;170minteger:\u{1b}[0m \u{1b}[38;2;240;140;30m"@
            + u64_dec(n as nat) + "\u{1b}[0m\n"@,
        VisitorResult::Tagged(s, v) => "\u{1b}[38;2;200;30;200m"@ + s@ + "\u{1b}[0m\n"@
            + spaces(2 * depth) + "\u{1b}[38;2;120;120;120m\u{2514}\u{2500}\u{1b}[0m "@
            + vr_display_spec(*v, depth + 2),
        VisitorResult::Nothing => "\u{1b}[38;2;255;100;100mnone\u{1b}[0m\n"@,
    }
}

/// The renderings of the first `i` children of a `Compound`, each behind
/// its connector.
pub open spec fn vr_children_display(r: VisitorResult, i: int, depth: int) -> Seq<char>
    decreases r, i,
{
    match r {
        VisitorResult::Compound(s) => {
            if i <= 0 || i > s@.len() {
                Seq::<char>::empty()
            } else {
                vr_children_display(r, i - 1, depth)
                    + vr_connector(s@[i - 1], i == s@.len(), depth)
                    + vr_display_spec(s@[i - 1], depth + 2)
            }
        },
        _ => Seq::<char>::empty(),
    }
}

/// Every child of a `Compound` is strictly lower than the compound itself.
pub proof fn lemma_result_child_height(r: VisitorResult, i: int)
    requires
        r matches VisitorResult::Compound(s) && 0 <= i < s@.len(),
    ensures
        (r matches VisitorResult::Compound(s) && s@[i].height() < r.height()),
{
    lemma_result_children_height_bound(r, i + 1, (r->Compound_0)@.len() as int);
}

proof fn lemma_result_children_height_bound(r: VisitorResult, i: int, j: int)
    requires
        r matches VisitorResult::Compound(s) && 0 < i <= j <= s@.len(),
    ensures
        (r matches VisitorResult::Compound(s) && s@[i - 1].height() <= r.children_height(j)),
    decreases j,
{
    if i == j {
    } else {
        lemma_result_children_height_bound(r, i, j - 1);
    }
}

impl VisitorResult {
    /// The height of the result tree: one more than the tallest child.
    pub open spec fn height(self) -> nat
        decreases self,
    {
        match self {
            VisitorResult::Compound(s) => 1 + self.children_height(s@.len() as int),
            VisitorResult::Tagged(_, v) => 1 + v.height(),
            _ => 1,
        }
    }

    /// The tallest height among the first `i` children of a `Compound`.
    pub open spec fn children_height(self, i: int) -> nat
        decreases self, i,
    {
        match self {
            VisitorResult::Compound(s) => {
                if i <= 0 || i > s@.len() {
                    0
                } else {
                    let h = s@[i - 1].height();
                    let rest = self.children_height(i - 1);
                    if h > rest {
                        h
                    } else {
                        rest
                    }
                }
            },
            _ => 0,
        }
    }

    /// Flattens the result to text.  Asking a `Nothing` (anywhere in the
    /// tree) for text is a programming error, which the precondition rules
    /// out.
    pub fn as_string(&self) -> (r: String)
        requires
            text_defined(*self),
        ensures
            r@ == as_string_spec(*self),
        decreases *self,
    {
        match self {
            VisitorResult::Compound(s) => {
                let mut out = String::new();
                let mut i: usize = 0;
                while i < s.len()
                    invariant
                        text_defined(*self),
                        *self matches VisitorResult::Compound(cs) && cs@ == s@,
                        i <= s@.len(),
                        out@ == children_text(*self, i as int),
                    decreases s@.len() - i,
                {
                    let piece = s[i].as_string();
                    out.append(piece.as_str());
                    i = i + 1;
                }
                out
            }
            VisitorResult::String(s) => s.clone(),
            VisitorResult::Integer(n) => u64_to_string(*n),
            VisitorResult::Tagged(label, v) => {
                let mut out = label.clone();
                out.append(" ");
                proof {
                    reveal_strlit(" ");
                    assert(" "@ =~= seq![' ']);
                }
                let inner = v.as_string();
                out.append(inner.as_str());
                out
            }
            VisitorResult::Nothing => vstd::pervasive::unreached(),
        }
    }

    /// Appends a child to a `Compound` result.  Appending to any other
    /// variant is a programming error, which the precondition rules out.
    pub fn add_child(&mut self, child: VisitorResult)
        requires
            *old(self) is Compound,
        ensures
            *old(self) matches VisitorResult::Compound(os) && (*final(self) matches
                VisitorResult::Compound(ns) && ns@ == os@.push(child)),
    {
        match self {
            VisitorResult::Compound(s) => s.push(child),
            _ => vstd::pervasive::unreached(),
        }
    }

    /// Renders the result with colors and box-drawing connectors, indented
    /// by `depth` levels.  A purely diagnostic view of the result.
    pub fn display(&self, depth: usize) -> (r: String)
        requires
            2 * depth + 4 * self.height() <= usize::MAX,
        ensures
            r@ == vr_display_spec(*self, depth as int),
        decreases *self,
    {
        let space = make_spaces(2 * depth);
        match self {
            VisitorResult::Compound(s) => {
                let mut out = String::from_str("\u{1b}[38;2;200;30;200mcompound\u{1b}[0m\n");
                let ghost head = out@;
                let mut i: usize = 0;
                while i < s.len()
                    invariant
                        *self matches VisitorResult::Compound(cs) && cs@ == s@,
                        2 * depth + 4 * self.height() <= usize::MAX,
                        i <= s@.len(),
                        space@ == spaces(2 * depth as int),
                        out@ == head + vr_children_display(*self, i as int, depth as int),
                    decreases s@.len() - i,
                {
                    proof {
                        lemma_result_child_height(*self, i as int);
                    }
                    out.append(space.as_str());
                    let child = &s[i];
                    match child {
                        VisitorResult::Tagged(_, _) => {
                            out.append("\u{1b}[38;2;120;120;120m\u{2500}\u{1b}[0m ");
                        }
                        VisitorResult::Compound(_) => {
                            out.append("\u{1b}[38;2;120;120;120m\u{2500}\u{1b}[0m ");
                        }
                        _ => {
                            if i < s.len() - 1 {
                                out.append("\u{1b}[38;2;120;120;120m\u{251c}\u{2500}\u{1b}[0m ");
                            } else {
                                out.append("\u{1b}[38;2;120;120;120m\u{2514}\u{2500}\u{1b}[0m ");
                            }
                        }
                    }
                    let child_text = child.display(depth + 2);
                    out.append(child_text.as_str());
                    proof {
                        assert(out@ =~= head + vr_children_display(*self, i + 1, depth as int));
                    }
                    i = i + 1;
                }
                out
            }
            VisitorResult::String(s) => {
                let mut out = String::from_str(
                    "\u{1b}[38;2;150;150;170mstring:\u{1b}[0m \u{1b}[38;2;60;180;100m",
                );
                out.append(s.as_str());
                out.append("\u{1b}[0m\n");
                out
            }
            VisitorResult::Integer(n) => {
                let mut out = String::from_str(
                    "\u{1b}[38;2;150;150;170minteger:\u{1b}[0m \u{1b}[38;2;240;140;30m",
                );
                let digits = u64_to_string(*n);
                out.append(digits.as_str());
                out.append("\u{1b}[0m\n");
                out
            }
            VisitorResult::Tagged(label, v) => {
                let mut out = String::from_str("\u{1b}[38;2;200;30;200m");
                out.append(label.as_str());
                out.append("\u{1b}[0m\n");
                out.append(space.as_str());
                out.append("\u{1b}[38;2;120;120;120m\u{2514}\u{2500}\u{1b}[0m ");
                let inner = v.display(depth + 2);
                out.append(inner.as_str());
                out
            }
            VisitorResult::Nothing => {
                String::from_str("\u{1b}[38;2;255;100;100mnone\u{1b}[0m\n")
            }
        }
    }
}

/// `out` is what a run of the handler registered for child `j`'s kind, on
/// some visitor whose table had that handler, returned for that child.
pub open spec fn visited_child<T, H: Handler<T>>(node: Node, j: int, out: VisitorResult) -> bool {
    exists|h: H, m: &mut Visitor<T, H>, cc: &Node|
        *cc == node.children@[j] && (*m).visitors@.contains_key((*cc).kind)
            && vstd::pervasive::cloned::<H>((*m).visitors@[(*cc).kind], h) && #[trigger] call_ensures(
            H::call,
            (&h, m, cc),
            Ok::<VisitorResult, VisitError>(out),
        )
}

/// Entry `j` of the compound came from this visitor's own entry state: the
/// run's visitor had `v`'s table and scope, and its handler was the one `v`
/// registered for the child's kind.
pub open spec fn visited_child_from<T, H: Handler<T>>(
    v: Visitor<T, H>,
    node: Node,
    j: int,
    out: VisitorResult,
) -> bool {
    exists|h: H, m: &mut Visitor<T, H>, cc: &Node|
        *cc == node.children@[j] && (*m).visitors@ == v.visitors@ && (*m).scope == v.scope
            && (*m).visitors@.contains_key((*cc).kind)
            && vstd::pervasive::cloned::<H>((*m).visitors@[(*cc).kind], h) && #[trigger] call_ensures(
            H::call,
            (&h, m, cc),
            Ok::<VisitorResult, VisitError>(out),
        )
}

/// The visit of child `j` failed with `e`: either no handler was registered
/// for the child's kind, and `e` names that kind and label, or a run of a
/// registered handler on that child returned `e`.
pub open spec fn child_visit_failed<T, H: Handler<T>>(node: Node, j: int, e: VisitError) -> bool {
    ||| (e.kind == node.children@[j].kind && e.label@ == node.children@[j].label@)
    ||| (exists|h: H, m: &mut Visitor<T, H>, cc: &Node|
        *cc == node.children@[j] && (*m).visitors@.contains_key((*cc).kind)
            && vstd::pervasive::cloned::<H>((*m).visitors@[(*cc).kind], h) && #[trigger] call_ensures(
            H::call,
            (&h, m, cc),
            Err::<VisitorResult, VisitError>(e),
        ))
}

/// A handler for one node kind.  The visitor hands the handler itself, the
/// visitor (for recursion and for the shared scope), and the node; handlers
/// only descend, so recursion is bounded by the node's height.
pub trait Handler<T>: Sized + Clone {
    fn call(&self, visitor: &mut Visitor<T, Self>, node: &Node) -> (r: Result<
        VisitorResult,
        VisitError,
    >)
        decreases node.height(), 1int,
    ;
}

/// A kind-keyed table of handlers plus a shared mutable scope.  Registering
/// a kind twice replaces the earlier handler: last write wins.
pub struct Visitor<T, H> {
    pub visitors: HashMap<u32, H>,
    pub scope: T,
}

impl<T, H: Handler<T>> Visitor<T, H> {
    pub fn new(scope: T) -> (r: Self)
        ensures
            r.visitors@ == Map::<u32, H>::empty(),
            r.scope == scope,
    {
        Self { visitors: HashMap::new(), scope }
    }

    /// Installs or replaces the handler for `kind`.
    pub fn register(&mut self, kind: u32, visitor: H)
        ensures
            final(self).visitors@ == old(self).visitors@.insert(kind, visitor),
            final(self).scope == old(self).scope,
    {
        self.visitors.insert(kind, visitor);
    }

    /// Dispatches `node` to the handler registered for its kind.  With no
    /// handler registered the visit always fails, naming the node's kind and
    /// label and leaving the visitor untouched; with one registered, the
    /// visit returns exactly what a run of that handler on this visitor and
    /// node returns.
    pub fn visit(&mut self, node: &Node) -> (r: Result<VisitorResult, VisitError>)
        ensures
            !old(self).visitors@.contains_key(node.kind) ==> {
                &&& r matches Err(e) && e.kind == node.kind && e.label@ == node.label@
                &&& final(self).visitors@ == old(self).visitors@
                &&& final(self).scope == old(self).scope
            },
            old(self).visitors@.contains_key(node.kind) ==> (exists|h: H, m: &mut Visitor<T, H>|
                vstd::pervasive::cloned::<H>(old(self).visitors@[node.kind], h)
                    && (*m).visitors@ == old(self).visitors@
                    && (*m).scope == old(self).scope
                    && #[trigger] call_ensures(H::call, (&h, m, node), r)
                    && final(self).visitors@ == final(m).visitors@
                    && final(self).scope == final(m).scope),
        decreases node.height(), 2int,
    {
        let handler = match self.visitors.get(&node.kind) {
            Some(h) => h.clone(),
            None => {
                return Err(VisitError { kind: node.kind, label: node.label.clone() });
            }
        };
        let m: &mut Visitor<T, H> = &mut *self;
        handler.call(m, node)
    }

    /// Visits every child in order, collecting the results into a
    /// `Compound` with one entry per child: entry `i` is what a run of a
    /// handler registered for child `i`'s kind returned for that child, and
    /// the first entry comes from this visitor's own table and scope.  A
    /// childless node always yields an empty `Compound`; the first failing
    /// child's error propagates, and no partial result is returned.
    pub fn visit_children(&mut self, node: &Node) -> (r: Result<VisitorResult, VisitError>)
        ensures
            r matches Ok(c) ==> c is Compound && (c->Compound_0)@.len()
                == node.children@.len() && (forall|j: int| 0 <= j < (c->Compound_0)@.len()
                ==> #[trigger] visited_child::<T, H>(*node, j, (c->Compound_0)@[j])),
            r matches Ok(c) ==> (node.children@.len() > 0 ==> visited_child_from::<T, H>(
                *old(self),
                *node,
                0,
                (c->Compound_0)@[0],
            )),
            node.children@.len() == 0 ==> (r matches Ok(c) && c is Compound
                && (c->Compound_0)@.len() == 0),
            r matches Err(e) ==> (exists|j: int| 0 <= j < node.children@.len()
                && #[trigger] child_visit_failed::<T, H>(*node, j, e)),
        decreases node.height(), 0int,
    {
        let mut compound = VisitorResult::Compound(Vec::new());
        let mut i: usize = 0;
        while i < node.children.len()
            invariant
                i <= node.children@.len(),
                compound is Compound,
                (compound->Compound_0)@.len() == i,
                forall|j: int| 0 <= j < i ==> #[trigger] visited_child::<T, H>(
                    *node,
                    j,
                    (compound->Compound_0)@[j],
                ),
                i == 0 ==> self.visitors@ == old(self).visitors@ && self.scope == old(self).scope,
                i > 0 ==> visited_child_from::<T, H>(
                    *old(self),
                    *node,
                    0,
                    (compound->Compound_0)@[0],
                ),
            decreases node.children@.len() - i,
        {
            proof {
                lemma_child_height(*node, i as int);
            }
            let cr: &Node = &node.children[i];
            let ghost before = *self;
            let res = self.visit(cr);
            let ghost pre = compound;
            match res {
                Ok(result) => {
                    let ghost kept = result;
                    compound.add_child(result);
                    proof {
                        assert(before.visitors@.contains_key(cr.kind));
                        assert(res == Ok::<VisitorResult, VisitError>(kept));
                        assert((compound->Compound_0)@[i as int] == kept);
                        assert(visited_child::<T, H>(*node, i as int, kept));
                        if i == 0 {
                            assert(visited_child_from::<T, H>(*old(self), *node, 0, kept));
                        } else {
                            assert((compound->Compound_0)@[0] == (pre->Compound_0)@[0]);
                        }
                        assert forall|j: int| 0 <= j < i + 1 implies #[trigger] visited_child::<
                            T,
                            H,
                        >(*node, j, (compound->Compound_0)@[j]) by {
                            if j < i {
                                assert((compound->Compound_0)@[j] == (pre->Compound_0)@[j]);
                            } else {
                                assert((compound->Compound_0)@[j] == kept);
                            }
                        }
                    }
                }
                Err(e) => {
                    proof {
                        assert(res == Err::<VisitorResult, VisitError>(e));
                        if !before.visitors@.contains_key(cr.kind) {
                            assert(e.kind == node.children@[i as int].kind);
                            assert(e.label@ == node.children@[i as int].label@);
                        }
                        assert(child_visit_failed::<T, H>(*node, i as int, e));
                    }
                    return Err(e);
                }
            }
            i = i + 1;
        }
        Ok(compound)
    }
}

} // verus!
