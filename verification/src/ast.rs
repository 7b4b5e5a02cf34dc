//! The generic tree representation.
//!
//! A [`Node`] is a tagged tree: a numeric kind, a debug label, an optional
//! scalar value, and an ordered list of children.  Parsing units build nodes
//! incrementally by appending children; once a tree is handed to a visitor
//! it is traversed read-only.

use vstd::prelude::*;
use crate::text::{u64_dec, u64_to_string, spaces, make_spaces};

verus! {

/// The scalar payload of a node.  `Nothing` marks nodes whose meaning is
/// purely structural.
#[derive(Debug)]
pub enum Value {
    String(String),
    Nothing,
}

impl Clone for Value {
    fn clone(&self) -> (r: Self)
        ensures
            r == *self,
    {
        match self {
            Value::String(s) => Value::String(s.clone()),
            Value::Nothing => Value::Nothing,
        }
    }
}

impl Value {
    /// The scalar text.  Asking a purely structural value for text is a
    /// programming error, which the precondition rules out.
    pub fn as_string(&self) -> (r: String)
        requires
            self is String,
        ensures
            self matches Value::String(s) && r@ == s@,
    {
        match self {
            Value::String(s) => s.clone(),
            Value::Nothing => vstd::pervasive::unreached(),
        }
    }
}

/// A tagged tree node: numeric kind, debug label, scalar value, and ordered
/// children.
#[derive(Debug)]
pub struct Node {
    pub kind: u32,
    pub label: String,
    pub value: Value,
    pub children: Vec<Node>,
}

impl Node {
    /// The height of the tree: one more than the tallest child.
    pub open spec fn height(self) -> nat
        decreases self,
    {
        1 + self.children_height(self.children@.len() as int)
    }

    /// The tallest height among the first `i` children.
    pub open spec fn children_height(self, i: int) -> nat
        decreases self, i,
    {
        if i <= 0 || i > self.children@.len() {
            0
        } else {
            let h = self.children@[i - 1].height();
            let rest = self.children_height(i - 1);
            if h > rest {
                h
            } else {
                rest
            }
        }
    }

    pub fn new(kind: u32, label: &str, value: Value) -> (r: Node)
        ensures
            r.kind == kind,
            r.label@ == label@,
            r.value == value,
            r.children@ == Seq::<Node>::empty(),
    {
        Node { kind, label: label.to_owned(), value, children: Vec::new() }
    }

    /// Appends `child` to the children, keeping every earlier child in place.
    pub fn add_child(&mut self, child: Node)
        ensures
            final(self).kind == old(self).kind,
            final(self).label == old(self).label,
            final(self).value == old(self).value,
            final(self).children@ == old(self).children@.push(child),
    {
        self.children.push(child);
    }

    /// Renders the tree with colors and box-drawing connectors, indented by
    /// `depth` levels.  A purely diagnostic view of the tree.
    pub fn display(&self, depth: usize) -> (r: String)
        requires
            2 * depth + 4 * self.height() <= usize::MAX,
        ensures
            r@ == display_spec(*self, depth as int),
        decreases *self,
    {
        let space = make_spaces(2 * depth);
        let mut out = String::from_str("\u{1b}[38;2;200;30;200m");
        out.append(self.label.as_str());
        out.append("\u{1b}[0m\n");
        out.append(space.as_str());
        out.append("\u{1b}[38;2;120;120;120m\u{2514}\u{252c}\u{2500}\u{1b}[0m \u{1b}[38;2;150;150;170mvalue:\u{1b}[38;2;150;150;170m ");
        let vtext = value_text_of(&self.value);
        out.append(vtext.as_str());
        out.append(space.as_str());
        out.append(" \u{1b}[38;2;120;120;120m\u{2514}\u{2500}\u{1b}[0m \u{1b}[38;2;150;150;170mkind:\u{1b}[38;2;150;150;170m \u{1b}[38;2;240;140;30m");
        let kind_text = u64_to_string(self.kind as u64);
        out.append(kind_text.as_str());
        out.append("\u{1b}[0m\n");
        let ghost head = out@;
        let mut i: usize = 0;
        while i < self.children.len()
            invariant
                2 * depth + 4 * self.height() <= usize::MAX,
                i <= self.children@.len(),
                space@ == spaces(2 * depth as int),
                out@ == head + children_display(*self, i as int, depth as int),
            decreases self.children@.len() - i,
        {
            proof {
                lemma_child_height(*self, i as int);
            }
            out.append(space.as_str());
            out.append("    \u{1b}[38;2;120;120;120m\u{250c}\u{2500}\u{1b}[0m ");
            let child_text = self.children[i].display(depth + 2);
            out.append(child_text.as_str());
            proof {
                assert(out@ =~= head + children_display(*self, i + 1, depth as int));
            }
            i = i + 1;
        }
        proof {
            assert(out@ =~= display_spec(*self, depth as int));
        }
        out
    }
}

/// What the colored tree rendering of a value is: its text in green, or
/// the word `none` in red, each ending the line.
pub open spec fn value_text(v: Value) -> Seq<char> {
    match v {
        Value::String(s) => "\u{1b}[38;2;60;180;100m"@ + s@ + "\u{1b}[0m\n"@,
        Value::Nothing => "\u{1b}[38;2;255;100;100mnone\u{1b}[0m\n"@,
    }
}

/// What [`Node::display`] renders: the label line, the value line, the kind
/// line, then each child indented two levels deeper.
pub open spec fn display_spec(node: Node, depth: int) -> Seq<char>
    decreases node,
{
    "\u{1b}[38;2;200;30;200m"@ + node.label@ + "\u{1b}[0m\n"@ + spaces(2 * depth)
        + "\u{1b}[38;2;120;120;120m\u{2514}\u{252c}\u{2500}\u{1b}[0m \u{1b}[38;2;150;150;170mvalue:\u{1b}[38;2;150;150;170m "@
        + value_text(node.value) + spaces(2 * depth)
        + " \u{1b}[38;2;120;120;120m\u{2514}\u{2500}\u{1b}[0m \u{1b}[38;2;150;150;170mkind:\u{1b}[38;2;150;150;170m \u{1b}[38;2;240;140;30m"@
        + u64_dec(node.kind as nat) + "\u{1b}[0m\n"@
        + children_display(node, node.children@.len() as int, depth)
}

/// The renderings of the first `i` children, each behind its connector.
pub open spec fn children_display(node: Node, i: int, depth: int) -> Seq<char>
    decreases node, i,
{
    if i <= 0 || i > node.children@.len() {
        Seq::<char>::empty()
    } else {
        children_display(node, i - 1, depth) + spaces(2 * depth)
            + "    \u{1b}[38;2;120;120;120m\u{250c}\u{2500}\u{1b}[0m "@
            + display_spec(node.children@[i - 1], depth + 2)
    }
}

fn value_text_of(v: &Value) -> (r: String)
    ensures
        r@ == value_text(*v),
{
    match v {
        Value::String(s) => {
            let mut out = String::from_str("\u{1b}[38;2;60;180;100m");
            out.append(s.as_str());
            out.append("\u{1b}[0m\n");
            out
        }
        Value::Nothing => String::from_str("\u{1b}[38;2;255;100;100mnone\u{1b}[0m\n"),
    }
}

/// Every child is strictly lower than its parent.
pub proof fn lemma_child_height(node: Node, i: int)
    requires
        0 <= i < node.children@.len(),
    ensures
        node.children@[i].height() < node.height(),
{
    lemma_children_height_bound(node, i + 1, node.children@.len() as int);
}

proof fn lemma_children_height_bound(node: Node, i: int, j: int)
    requires
        0 < i <= j <= node.children@.len(),
    ensures
        node.children@[i - 1].height() <= node.children_height(j),
    decreases j,
{
    if i == j {
    } else {
        lemma_children_height_bound(node, i, j - 1);
    }
}

} // verus!
