use std::ops::ControlFlow;

use sms_2dm::{
    weak_error, Diagnostics, Error, ErrorMode, MaterialCountPerElement, Node, Nodestring, E2L,
    E3L, E3T, E4Q, E6T, E8Q, E9Q,
};

#[test]
fn node_card() {
    let mut sink = Diagnostics::new();
    let node = Node::from_str("ND 12 1.5 -2e3 .25", ErrorMode::Strict, &mut sink).unwrap();
    assert_eq!(node.id, 12);
    let floats: Vec<f64> =
        node.coordinate.iter().map(|c| c.as_str().parse::<f64>().unwrap()).collect();
    assert_eq!(floats, vec![1.5, -2000.0, 0.25]);
    assert_eq!(sink.len(), 0);
}

#[test]
fn node_card_with_tabs_and_wide_spaces() {
    let mut sink = Diagnostics::new();
    let node =
        Node::from_str("\tND\u{3000}7 \u{a0}1\t2\u{2003}3  ", ErrorMode::Strict, &mut sink).unwrap();
    assert_eq!(node.id, 7);
    assert_eq!(node.coordinate[2].as_str(), "3");
}

#[test]
fn node_card_errors() {
    let mut sink = Diagnostics::new();
    assert!(matches!(Node::from_str("", ErrorMode::Lenient, &mut sink), Err(Error::EmptyLine)));
    assert!(matches!(Node::from_str("  ", ErrorMode::Lenient, &mut sink), Err(Error::EmptyLine)));
    match Node::from_str("NDX 1 0 0 0", ErrorMode::Lenient, &mut sink) {
        Err(Error::WrongCardTag { expect, actual }) => {
            assert_eq!(expect, "ND");
            assert_eq!(actual, "NDX");
        }
        other => panic!("unexpected: {:?}", other),
    }
    assert!(matches!(Node::from_str("ND", ErrorMode::Lenient, &mut sink), Err(Error::MissingValue)));
    assert!(matches!(
        Node::from_str("ND 1 2 3", ErrorMode::Lenient, &mut sink),
        Err(Error::MissingValue)
    ));
    assert!(matches!(
        Node::from_str("ND 1.0 2 3 4", ErrorMode::Lenient, &mut sink),
        Err(Error::InvalidInt(_))
    ));
    assert!(matches!(
        Node::from_str("ND 1 2 3 4,5", ErrorMode::Lenient, &mut sink),
        Err(Error::InvalidFloat(_))
    ));
    // the leftmost bad field decides
    assert!(matches!(
        Node::from_str("ND 1 x", ErrorMode::Lenient, &mut sink),
        Err(Error::InvalidFloat(_))
    ));
    assert!(matches!(
        Node::from_str("ND x", ErrorMode::Lenient, &mut sink),
        Err(Error::InvalidInt(_))
    ));
    assert_eq!(sink.len(), 0);
}

#[test]
fn node_card_extraneous() {
    let mut sink = Diagnostics::new();
    match Node::from_str("ND 1 2 3 4 5 6", ErrorMode::Strict, &mut sink) {
        Err(Error::ExtraneousValue(token)) => assert_eq!(token, "5"),
        other => panic!("unexpected: {:?}", other),
    }
    assert_eq!(sink.len(), 0);
    let node = Node::from_str("ND 1 2 3 4 5 6", ErrorMode::Lenient, &mut sink).unwrap();
    assert_eq!(node.id, 1);
    assert_eq!(sink.len(), 1);
    assert!(matches!(&sink.entries[0], Error::ExtraneousValue(t) if t == "5"));
}

#[test]
fn element_cards() {
    let mut sink = Diagnostics::new();
    let mode = ErrorMode::Strict;
    let e = E2L::from_str("E2L 1 10 20 5", mode, &mut sink).unwrap();
    assert_eq!(e, E2L { id: 1, nodes: [10, 20], material: 5 });
    let e = E3L::from_str("E3L 2 10 20 30 5", mode, &mut sink).unwrap();
    assert_eq!(e, E3L { id: 2, nodes: [10, 20, 30], material: 5 });
    let e = E3T::from_str("E3T 3 10 20 30 6", mode, &mut sink).unwrap();
    assert_eq!(e, E3T { id: 3, nodes: [10, 20, 30], material: 6 });
    let e = E6T::from_str("E6T 4 1 2 3 4 5 6 7", mode, &mut sink).unwrap();
    assert_eq!(e, E6T { id: 4, nodes: [1, 2, 3, 4, 5, 6], material: 7 });
    let e = E4Q::from_str("E4Q 5 1 2 3 4 8", mode, &mut sink).unwrap();
    assert_eq!(e, E4Q { id: 5, nodes: [1, 2, 3, 4], material: 8 });
    let e = E8Q::from_str("E8Q 6 1 2 3 4 5 6 7 8 9", mode, &mut sink).unwrap();
    assert_eq!(e, E8Q { id: 6, nodes: [1, 2, 3, 4, 5, 6, 7, 8], material: 9 });
    let e = E9Q::from_str("E9Q 7 1 2 3 4 5 6 7 8 9 10", mode, &mut sink).unwrap();
    assert_eq!(e, E9Q { id: 7, nodes: [1, 2, 3, 4, 5, 6, 7, 8, 9], material: 10 });
    assert_eq!(sink.len(), 0);
}

#[test]
fn element_card_errors() {
    let mut sink = Diagnostics::new();
    for mode in [ErrorMode::Strict, ErrorMode::Lenient] {
        assert!(matches!(E3T::from_str(" ", mode, &mut sink), Err(Error::EmptyLine)));
        match E3T::from_str("E3L 1 1 2 3 1", mode, &mut sink) {
            Err(Error::WrongCardTag { expect, actual }) => {
                assert_eq!(expect, "E3T");
                assert_eq!(actual, "E3L");
            }
            other => panic!("unexpected: {:?}", other),
        }
        assert!(matches!(E3T::from_str("E3T 1 1 2 3", mode, &mut sink), Err(Error::MissingValue)));
        assert!(matches!(
            E3T::from_str("E3T 1 1 b 3", mode, &mut sink),
            Err(Error::InvalidInt(_))
        ));
        assert!(matches!(
            E9Q::from_str("E9Q 7 1 2 3 4 5 6 7 8 9", mode, &mut sink),
            Err(Error::MissingValue)
        ));
    }
    assert_eq!(sink.len(), 0);
}

#[test]
fn element_card_extraneous() {
    let mut sink = Diagnostics::new();
    match E2L::from_str("E2L 1 10 20 5 6", ErrorMode::Strict, &mut sink) {
        Err(Error::ExtraneousValue(token)) => assert_eq!(token, "6"),
        other => panic!("unexpected: {:?}", other),
    }
    let e = E2L::from_str("E2L 1 10 20 5 6", ErrorMode::Lenient, &mut sink).unwrap();
    assert_eq!(e, E2L { id: 1, nodes: [10, 20], material: 5 });
    assert_eq!(sink.len(), 1);
}

#[test]
fn material_count_card() {
    let mut sink = Diagnostics::new();
    let count =
        MaterialCountPerElement::from_str("NUM_MATERIALS_PER_ELEM 4", ErrorMode::Strict, &mut sink)
            .unwrap();
    assert_eq!(count, MaterialCountPerElement(4));
    assert!(matches!(
        MaterialCountPerElement::from_str("NUM_MATERIALS_PER_ELEM", ErrorMode::Strict, &mut sink),
        Err(Error::MissingValue)
    ));
    assert!(matches!(
        MaterialCountPerElement::from_str("NUM_MATERIALS_PER_ELEM -4", ErrorMode::Strict, &mut sink),
        Err(Error::InvalidInt(_))
    ));
    assert!(matches!(
        MaterialCountPerElement::from_str("NUM_MATERIALS 4", ErrorMode::Strict, &mut sink),
        Err(Error::WrongCardTag { .. })
    ));
    assert!(matches!(
        MaterialCountPerElement::from_str("", ErrorMode::Strict, &mut sink),
        Err(Error::EmptyLine)
    ));
    assert!(matches!(
        MaterialCountPerElement::from_str("NUM_MATERIALS_PER_ELEM 4 5", ErrorMode::Strict, &mut sink),
        Err(Error::ExtraneousValue(_))
    ));
    let count = MaterialCountPerElement::from_str(
        "NUM_MATERIALS_PER_ELEM 4 5",
        ErrorMode::Lenient,
        &mut sink,
    )
    .unwrap();
    assert_eq!(count.0, 4);
    assert_eq!(sink.len(), 1);
}

#[test]
fn nodestring_starts_empty() {
    assert!(Nodestring::new().nodes.is_empty());
}

#[test]
fn nodestring_ingest_line_by_line() {
    let mut sink = Diagnostics::new();
    let mut ns = Nodestring::new();
    let flow = ns.ingest("NS 1 2 3", ErrorMode::Strict, &mut sink).unwrap();
    assert_eq!(flow, ControlFlow::Continue(()));
    assert_eq!(ns.nodes, vec![1, 2, 3]);
    let flow = ns.ingest("NS", ErrorMode::Strict, &mut sink).unwrap();
    assert_eq!(flow, ControlFlow::Continue(()));
    assert_eq!(ns.nodes, vec![1, 2, 3]);
    let flow = ns.ingest("NS 4 -5", ErrorMode::Strict, &mut sink).unwrap();
    assert_eq!(flow, ControlFlow::Break(()));
    assert_eq!(ns.nodes, vec![1, 2, 3, 4, 5]);
    assert_eq!(sink.len(), 0);
}

#[test]
fn nodestring_ingest_errors() {
    let mut sink = Diagnostics::new();
    for mode in [ErrorMode::Strict, ErrorMode::Lenient] {
        let mut ns = Nodestring::new();
        assert!(matches!(ns.ingest("", mode, &mut sink), Err(Error::EmptyLine)));
        match ns.ingest("ND 1 2", mode, &mut sink) {
            Err(Error::WrongCardTag { expect, actual }) => {
                assert_eq!(expect, "NS");
                assert_eq!(actual, "ND");
            }
            other => panic!("unexpected: {:?}", other),
        }
        assert!(ns.nodes.is_empty());
        assert!(matches!(ns.ingest("NS 1 2 x 4", mode, &mut sink), Err(Error::InvalidInt(_))));
        assert_eq!(ns.nodes, vec![1, 2]);
        assert!(matches!(ns.ingest("NS 3 --4", mode, &mut sink), Err(Error::InvalidInt(_))));
        assert_eq!(ns.nodes, vec![1, 2, 3]);
    }
    assert_eq!(sink.len(), 0);
}

#[test]
fn nodestring_ingest_extraneous() {
    let mut sink = Diagnostics::new();
    let mut ns = Nodestring::new();
    match ns.ingest("NS 1 -2 3 4", ErrorMode::Strict, &mut sink) {
        Err(Error::ExtraneousValue(token)) => assert_eq!(token, "3"),
        other => panic!("unexpected: {:?}", other),
    }
    assert_eq!(ns.nodes, vec![1, 2]);
    let mut ns = Nodestring::new();
    let flow = ns.ingest("NS 1 -2 3 4", ErrorMode::Lenient, &mut sink).unwrap();
    assert_eq!(flow, ControlFlow::Break(()));
    assert_eq!(ns.nodes, vec![1, 2]);
    assert_eq!(sink.len(), 1);
    assert!(matches!(&sink.entries[0], Error::ExtraneousValue(t) if t == "3"));
}

#[test]
fn nodestring_tail_with_plus_behind_minus() {
    let mut sink = Diagnostics::new();
    let mut ns = Nodestring::new();
    let flow = ns.ingest("NS +1 -+2", ErrorMode::Strict, &mut sink).unwrap();
    assert_eq!(flow, ControlFlow::Break(()));
    assert_eq!(ns.nodes, vec![1, 2]);
}

#[test]
fn weak_error_by_mode() {
    let mut sink = Diagnostics::new();
    assert!(matches!(
        weak_error(Error::EmptyLine, ErrorMode::Strict, &mut sink),
        Err(Error::EmptyLine)
    ));
    assert_eq!(sink.len(), 0);
    assert!(weak_error(Error::MissingValue, ErrorMode::Lenient, &mut sink).is_ok());
    assert!(weak_error(Error::EmptyLine, ErrorMode::Lenient, &mut sink).is_ok());
    assert_eq!(sink.len(), 2);
    assert!(matches!(&sink.entries[0], Error::MissingValue));
    assert!(matches!(&sink.entries[1], Error::EmptyLine));
}
