use ars::ast::{Node, Value};
use ars::visitor::VisitorResult;

#[test]
fn test_node_display_leaf() {
    let node = Node::new(1, "x", Value::Nothing);
    let expected = "\u{1b}[38;2;200;30;200mx\u{1b}[0m\n\u{1b}[38;2;120;120;120m└┬─\u{1b}[0m \u{1b}[38;2;150;150;170mvalue:\u{1b}[38;2;150;150;170m \u{1b}[38;2;255;100;100mnone\u{1b}[0m\n \u{1b}[38;2;120;120;120m└─\u{1b}[0m \u{1b}[38;2;150;150;170mkind:\u{1b}[38;2;150;150;170m \u{1b}[38;2;240;140;30m1\u{1b}[0m\n";
    assert_eq!(node.display(0), expected);
}

#[test]
fn test_node_display_string_value() {
    let node = Node::new(12, "n", Value::String(String::from("hi")));
    let expected = "\u{1b}[38;2;200;30;200mn\u{1b}[0m\n\u{1b}[38;2;120;120;120m└┬─\u{1b}[0m \u{1b}[38;2;150;150;170mvalue:\u{1b}[38;2;150;150;170m \u{1b}[38;2;60;180;100mhi\u{1b}[0m\n \u{1b}[38;2;120;120;120m└─\u{1b}[0m \u{1b}[38;2;150;150;170mkind:\u{1b}[38;2;150;150;170m \u{1b}[38;2;240;140;30m12\u{1b}[0m\n";
    assert_eq!(node.display(0), expected);
}

// A child is rendered behind its connector, two levels deeper.
#[test]
fn test_node_display_child() {
    let mut root = Node::new(1, "r", Value::Nothing);
    root.add_child(Node::new(2, "c", Value::Nothing));
    let out = root.display(0);
    let tail = format!(
        "    \u{1b}[38;2;120;120;120m┌─\u{1b}[0m {}",
        root.children[0].display(2)
    );
    assert!(out.ends_with(&tail));
    assert!(out.starts_with("\u{1b}[38;2;200;30;200mr\u{1b}[0m\n"));
}

#[test]
fn test_result_display_leaves() {
    assert_eq!(
        VisitorResult::String(String::from("s")).display(0),
        "\u{1b}[38;2;150;150;170mstring:\u{1b}[0m \u{1b}[38;2;60;180;100ms\u{1b}[0m\n"
    );
    assert_eq!(
        VisitorResult::Integer(40).display(0),
        "\u{1b}[38;2;150;150;170minteger:\u{1b}[0m \u{1b}[38;2;240;140;30m40\u{1b}[0m\n"
    );
    assert_eq!(
        VisitorResult::Nothing.display(0),
        "\u{1b}[38;2;255;100;100mnone\u{1b}[0m\n"
    );
}

// The last scalar child gets an elbow, earlier ones a tee.
#[test]
fn test_result_display_compound() {
    let compound = VisitorResult::Compound(vec![
        VisitorResult::Integer(1),
        VisitorResult::Integer(2),
    ]);
    let expected = format!(
        "\u{1b}[38;2;200;30;200mcompound\u{1b}[0m\n\u{1b}[38;2;120;120;120m├─\u{1b}[0m {}\u{1b}[38;2;120;120;120m└─\u{1b}[0m {}",
        VisitorResult::Integer(1).display(2),
        VisitorResult::Integer(2).display(2),
    );
    assert_eq!(compound.display(0), expected);
}

#[test]
fn test_result_display_tagged() {
    let tagged = VisitorResult::Tagged(String::from("t"), Box::new(VisitorResult::Integer(3)));
    let expected = format!(
        "\u{1b}[38;2;200;30;200mt\u{1b}[0m\n\u{1b}[38;2;120;120;120m└─\u{1b}[0m {}",
        VisitorResult::Integer(3).display(2),
    );
    assert_eq!(tagged.display(0), expected);
}
