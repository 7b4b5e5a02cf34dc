use ars::ast::{Node, Value};
use ars::visitor::{Handler, Visitor, VisitorResult, VisitError};

// A handler set for a small numeric language: it counts visits in the
// scope and renders leaves as integers.
#[derive(Clone)]
enum H {
    Leaf,
    Children,
}

impl Handler<u64> for H {
    fn call(&self, visitor: &mut Visitor<u64, Self>, node: &Node) -> Result<VisitorResult, VisitError> {
        visitor.scope += 1;
        match self {
            H::Leaf => Ok(VisitorResult::Integer(node.kind as u64)),
            H::Children => visitor.visit_children(node),
        }
    }
}

// Visitor dispatch law: with no handler registered a visit always fails
// with the node's kind and label; after registering one, the visit returns
// that handler's result.
#[test]
fn test_visit_dispatch() {
    let node = Node::new(3, "leaf", Value::Nothing);
    let mut visitor: Visitor<u64, H> = Visitor::new(0);
    let err = visitor.visit(&node).unwrap_err();
    assert_eq!(err.kind, 3);
    assert_eq!(err.label, "leaf");
    visitor.register(3, H::Leaf);
    let result = visitor.visit(&node).unwrap();
    assert!(matches!(result, VisitorResult::Integer(3)));
}

// A node of kind 9 against a visitor that registered only kinds 0 through 8
// fails naming kind 9.
#[test]
fn test_visit_unregistered_kind() {
    let mut visitor: Visitor<u64, H> = Visitor::new(0);
    for kind in 0u32..9 {
        visitor.register(kind, H::Leaf);
    }
    let node = Node::new(9, "nine", Value::Nothing);
    let err = visitor.visit(&node).unwrap_err();
    assert_eq!(err.kind, 9);
    assert_eq!(err.label, "nine");
}

// Re-registering a kind replaces the handler: last write wins.
#[test]
fn test_register_replaces() {
    let mut visitor: Visitor<u64, H> = Visitor::new(0);
    visitor.register(1, H::Children);
    visitor.register(1, H::Leaf);
    let node = Node::new(1, "n", Value::Nothing);
    let result = visitor.visit(&node).unwrap();
    assert!(matches!(result, VisitorResult::Integer(1)));
}

// visit_children visits every child in order and collects the results into
// a Compound; the shared scope sees every mutation.
#[test]
fn test_visit_children_order_and_scope() {
    let mut root = Node::new(0, "root", Value::Nothing);
    root.add_child(Node::new(4, "a", Value::Nothing));
    root.add_child(Node::new(5, "b", Value::Nothing));
    let mut visitor: Visitor<u64, H> = Visitor::new(0);
    visitor.register(0, H::Children);
    visitor.register(4, H::Leaf);
    visitor.register(5, H::Leaf);
    let result = visitor.visit(&root).unwrap();
    match result {
        VisitorResult::Compound(children) => {
            assert_eq!(children.len(), 2);
            assert!(matches!(children[0], VisitorResult::Integer(4)));
            assert!(matches!(children[1], VisitorResult::Integer(5)));
        }
        _ => panic!("expected a compound result"),
    }
    assert_eq!(visitor.scope, 3);
}

// A missing handler deep in the tree aborts the whole traversal.
#[test]
fn test_visit_children_propagates_failure() {
    let mut root = Node::new(0, "root", Value::Nothing);
    root.add_child(Node::new(4, "a", Value::Nothing));
    root.add_child(Node::new(7, "mystery", Value::Nothing));
    let mut visitor: Visitor<u64, H> = Visitor::new(0);
    visitor.register(0, H::Children);
    visitor.register(4, H::Leaf);
    let err = visitor.visit(&root).unwrap_err();
    assert_eq!(err.kind, 7);
    assert_eq!(err.label, "mystery");
}

#[test]
fn test_result_as_string() {
    assert_eq!(VisitorResult::String(String::from("hi")).as_string(), "hi");
    assert_eq!(VisitorResult::Integer(0).as_string(), "0");
    assert_eq!(VisitorResult::Integer(120).as_string(), "120");
    assert_eq!(
        VisitorResult::Tagged(String::from("n"), Box::new(VisitorResult::Integer(7))).as_string(),
        "n 7"
    );
    let compound = VisitorResult::Compound(vec![
        VisitorResult::String(String::from("a")),
        VisitorResult::Integer(3),
    ]);
    assert_eq!(compound.as_string(), "a3");
    assert_eq!(VisitorResult::Compound(vec![]).as_string(), "");
}

#[test]
fn test_result_add_child() {
    let mut compound = VisitorResult::Compound(vec![]);
    compound.add_child(VisitorResult::Integer(1));
    compound.add_child(VisitorResult::String(String::from("x")));
    match compound {
        VisitorResult::Compound(children) => {
            assert_eq!(children.len(), 2);
            assert!(matches!(children[0], VisitorResult::Integer(1)));
            assert!(matches!(children[1], VisitorResult::String(ref s) if s == "x"));
        }
        _ => panic!("expected a compound result"),
    }
}
