use sms_2dm::{parse, Diagnostics, Error, ErrorMode, Mesh2D};

const SAMPLE: &str = "MESH2D
E3T 1 1 2 3 1
E3T 2 2 4 3 1
E3T 3 4 5 3 2
E4Q 4 1 2 5 6 1
E4Q 5 2 3 6 1 2
E4Q 6 3 4 5 6 2
ND 1 0.0 0.0 0.0
ND 2 1.5e1 0.0 0.25
ND 3 15. 10 -0.5
ND 4 -.5 1E+2 0
ND 5 30.0 20.0 1.0
ND 6 0.0 20.0 1.0
NS 1 2 3 -4
NS 4 5
NS -6
NS -1
NS 6 1 2 3 4
NS 5 -6
BEGPARAMDEF
GM \"Mesh\"
ENDPARAMDEF
";

#[test]
fn multi_line_nodestring_parse() {
    let input = "MESH2D\nNS 1 2 3 4 5 6 7 8 9 10\nNS 11 12 13 14\nNS 15 16 -17\n";
    let mesh = parse(input, ErrorMode::Strict).unwrap();

    assert_eq!(mesh.nodestring.len(), 1);
    assert_eq!(
        mesh.nodestring[0].nodes,
        vec![1, 2, 3, 4, 5, 6, 7, 8, 9, 10, 11, 12, 13, 14, 15, 16, 17]
    );
}

#[test]
fn sample_file_2_parse() {
    let mesh = parse(SAMPLE, ErrorMode::Strict).unwrap();

    assert!(mesh.material_count_per_element.is_none());
    assert_eq!(mesh.nodes.len(), 6);
    assert_eq!(mesh.e2ls.len(), 0);
    assert_eq!(mesh.e3ls.len(), 0);
    assert_eq!(mesh.e3ts.len(), 3);
    assert_eq!(mesh.e6ts.len(), 0);
    assert_eq!(mesh.e4qs.len(), 3);
    assert_eq!(mesh.e8qs.len(), 0);
    assert_eq!(mesh.e9qs.len(), 0);
    assert_eq!(mesh.nodestring.len(), 4);
}

#[test]
fn sample_keeps_input_order_and_values() {
    let mesh = parse(SAMPLE, ErrorMode::Strict).unwrap();

    assert_eq!(mesh.e3ts[2].id, 3);
    assert_eq!(mesh.e3ts[2].nodes, [4, 5, 3]);
    assert_eq!(mesh.e3ts[2].material, 2);
    assert_eq!(mesh.e4qs[1].id, 5);
    assert_eq!(mesh.e4qs[1].nodes, [2, 3, 6, 1]);
    assert_eq!(mesh.e4qs[1].material, 2);
    assert_eq!(mesh.nodes[1].id, 2);
    assert_eq!(mesh.nodes[1].coordinate[0].as_str(), "1.5e1");
    assert_eq!(mesh.nodes[3].coordinate[0].as_str(), "-.5");
    assert_eq!(mesh.nodes[3].coordinate[1].as_str(), "1E+2");
    assert_eq!(mesh.nodestring[0].nodes, vec![1, 2, 3, 4]);
    assert_eq!(mesh.nodestring[1].nodes, vec![4, 5, 6]);
    assert_eq!(mesh.nodestring[2].nodes, vec![1]);
    assert_eq!(mesh.nodestring[3].nodes, vec![6, 1, 2, 3, 4, 5, 6]);
}

#[test]
fn coordinates_convert_to_floats() {
    let mesh = parse(SAMPLE, ErrorMode::Strict).unwrap();
    let as_floats: Vec<f64> = mesh.nodes[3]
        .coordinate
        .iter()
        .map(|c| c.as_str().parse::<f64>().unwrap())
        .collect();
    assert_eq!(as_floats, vec![-0.5, 100.0, 0.0]);
}

#[test]
fn one_node_one_triangle() {
    let input = "MESH2D\nND 1 0.0 0.0 0.0\nE3T 1 1 1 1 1\n";
    let mesh = parse(input, ErrorMode::Strict).unwrap();

    assert_eq!(mesh.nodes.len(), 1);
    assert_eq!(mesh.nodes[0].id, 1);
    for c in mesh.nodes[0].coordinate.iter() {
        assert_eq!(c.as_str().parse::<f64>().unwrap(), 0.0);
    }
    assert_eq!(mesh.e3ts.len(), 1);
    assert_eq!(mesh.e3ts[0].id, 1);
    assert_eq!(mesh.e3ts[0].nodes, [1, 1, 1]);
    assert_eq!(mesh.e3ts[0].material, 1);
    assert!(mesh.material_count_per_element.is_none());
    assert!(mesh.e2ls.is_empty());
    assert!(mesh.e3ls.is_empty());
    assert!(mesh.e6ts.is_empty());
    assert!(mesh.e4qs.is_empty());
    assert!(mesh.e8qs.is_empty());
    assert!(mesh.e9qs.is_empty());
    assert!(mesh.nodestring.is_empty());
}

#[test]
fn nodestring_over_two_lines() {
    let mesh = parse("MESH2D\nNS 1 2 3\nNS 4 -5\n", ErrorMode::Strict).unwrap();
    assert_eq!(mesh.nodestring.len(), 1);
    assert_eq!(mesh.nodestring[0].nodes, vec![1, 2, 3, 4, 5]);
}

#[test]
fn nodestring_without_tail_is_missing_card() {
    for mode in [ErrorMode::Strict, ErrorMode::Lenient] {
        match parse("MESH2D\nNS 1 2 3\n", mode) {
            Err(Error::MissingCard(tag)) => assert_eq!(tag, "NS"),
            other => panic!("unexpected: {:?}", other),
        }
    }
}

#[test]
fn nodestring_lines_are_not_read_twice() {
    let mesh = parse("MESH2D\nNS 1 2\nNS 3 -4\nNS -9\n", ErrorMode::Strict).unwrap();
    assert_eq!(mesh.nodestring.len(), 2);
    assert_eq!(mesh.nodestring[0].nodes, vec![1, 2, 3, 4]);
    assert_eq!(mesh.nodestring[1].nodes, vec![9]);
}

#[test]
fn nodestring_continuation_needs_its_tag() {
    for mode in [ErrorMode::Strict, ErrorMode::Lenient] {
        match parse("MESH2D\nNS 1 2\nFOO\nNS -3\n", mode) {
            Err(Error::WrongCardTag { expect, actual }) => {
                assert_eq!(expect, "NS");
                assert_eq!(actual, "FOO");
            }
            other => panic!("unexpected: {:?}", other),
        }
        assert!(matches!(parse("MESH2D\nNS 1 2\n\nNS -3\n", mode), Err(Error::EmptyLine)));
    }
}

#[test]
fn unknown_tags_change_nothing() {
    let plain = "MESH2D\nND 1 0 0 0\nE3T 1 1 1 1 1\nNS 1 -1\n";
    let noisy = "MESH2D\nMESHNAME \"x\"\nND 1 0 0 0\nBEGPARAMDEF\nE3T 1 1 1 1 1\nTD 0 1 junk\nNS 1 -1\nENDPARAMDEF\n";
    for mode in [ErrorMode::Strict, ErrorMode::Lenient] {
        let mut sink = Diagnostics::new();
        let a = Mesh2D::from_str(plain, mode, &mut sink).unwrap();
        let b = Mesh2D::from_str(noisy, mode, &mut sink).unwrap();
        assert_eq!(format!("{:?}", a), format!("{:?}", b));
        assert_eq!(sink.len(), 0);
    }
}

#[test]
fn parse_gives_the_same_for_the_same() {
    for mode in [ErrorMode::Strict, ErrorMode::Lenient] {
        let a = parse(SAMPLE, mode).unwrap();
        let b = parse(SAMPLE, mode).unwrap();
        assert_eq!(format!("{:?}", a), format!("{:?}", b));
        let bad = "MESH2D\nND x 0 0 0\n";
        assert_eq!(format!("{:?}", parse(bad, mode)), format!("{:?}", parse(bad, mode)));
    }
}

#[test]
fn extraneous_value_on_every_kind_of_card() {
    let cards = [
        "NUM_MATERIALS_PER_ELEM 2 9",
        "ND 1 0 0 0 9",
        "E2L 1 1 2 7 9",
        "E3L 1 1 2 3 7 9",
        "E3T 1 1 2 3 7 9",
        "E6T 1 1 2 3 4 5 6 7 9",
        "E4Q 1 1 2 3 4 7 9",
        "E8Q 1 1 2 3 4 5 6 7 8 7 9",
        "E9Q 1 1 2 3 4 5 6 7 8 9 7 9",
        "NS 1 2 -3 9",
    ];
    for card in cards {
        let text = format!("MESH2D\n{}\n", card);
        match parse(&text, ErrorMode::Strict) {
            Err(Error::ExtraneousValue(token)) => assert_eq!(token, "9"),
            other => panic!("{}: unexpected {:?}", card, other),
        }
        let mut sink = Diagnostics::new();
        let mesh = Mesh2D::from_str(&text, ErrorMode::Lenient, &mut sink).unwrap();
        let records = mesh.material_count_per_element.iter().count()
            + mesh.nodes.len()
            + mesh.e2ls.len()
            + mesh.e3ls.len()
            + mesh.e3ts.len()
            + mesh.e6ts.len()
            + mesh.e4qs.len()
            + mesh.e8qs.len()
            + mesh.e9qs.len()
            + mesh.nodestring.len();
        assert_eq!(records, 1, "{}", card);
        assert_eq!(sink.len(), 1);
        assert!(matches!(&sink.entries[0], Error::ExtraneousValue(t) if t == "9"));
    }
}

#[test]
fn lenient_record_is_the_one_without_the_extra_token() {
    let with = parse("MESH2D\nE4Q 4 1 2 5 6 1 extra more\n", ErrorMode::Lenient).unwrap();
    let without = parse("MESH2D\nE4Q 4 1 2 5 6 1\n", ErrorMode::Strict).unwrap();
    assert_eq!(with.e4qs, without.e4qs);
    assert_eq!(with.e4qs[0].nodes, [1, 2, 5, 6]);
}

#[test]
fn second_material_count() {
    let text = "MESH2D\nNUM_MATERIALS_PER_ELEM 1\nNUM_MATERIALS_PER_ELEM 2\n";
    match parse(text, ErrorMode::Strict) {
        Err(Error::ExtraneousCard(tag)) => assert_eq!(tag, "NUM_MATERIALS_PER_ELEM"),
        other => panic!("unexpected: {:?}", other),
    }
    let mut sink = Diagnostics::new();
    let mesh = Mesh2D::from_str(text, ErrorMode::Lenient, &mut sink).unwrap();
    assert_eq!(mesh.material_count_per_element.unwrap().0, 2);
    assert_eq!(sink.len(), 1);
    assert!(matches!(&sink.entries[0], Error::ExtraneousCard(t) if t == "NUM_MATERIALS_PER_ELEM"));
}

#[test]
fn single_material_count() {
    let mesh = parse("MESH2D\nNUM_MATERIALS_PER_ELEM 3\n", ErrorMode::Strict).unwrap();
    assert_eq!(mesh.material_count_per_element.unwrap().0, 3);
}

#[test]
fn missing_header() {
    for text in ["", "ND 1 0 0 0\nND 2 0 0 0\n", "MESH2D \nND 2 0 0 0\n", "mesh2d\nND 2 0 0 0"] {
        match parse(text, ErrorMode::Strict) {
            Err(Error::MissingCard(tag)) => assert_eq!(tag, "MESH2D"),
            other => panic!("unexpected: {:?}", other),
        }
    }
    let mut sink = Diagnostics::new();
    let mesh =
        Mesh2D::from_str("ND 1 0 0 0\nND 2 0 0 0\n", ErrorMode::Lenient, &mut sink).unwrap();
    assert_eq!(mesh.nodes.len(), 1);
    assert_eq!(mesh.nodes[0].id, 2);
    assert_eq!(sink.len(), 1);
    assert!(matches!(&sink.entries[0], Error::MissingCard(t) if t == "MESH2D"));

    let mut sink = Diagnostics::new();
    let mesh = Mesh2D::from_str("", ErrorMode::Lenient, &mut sink).unwrap();
    assert!(mesh.nodes.is_empty());
    assert_eq!(sink.len(), 1);
}

#[test]
fn header_with_carriage_return() {
    let mesh = parse("MESH2D\r\nND 1 0 0 0\r\nNS 1 -1\r\n", ErrorMode::Strict).unwrap();
    assert_eq!(mesh.nodes.len(), 1);
    assert_eq!(mesh.nodestring.len(), 1);
}

#[test]
fn empty_line() {
    let text = "MESH2D\nND 1 0 0 0\n\n  \t \nND 2 0 0 0\n";
    assert!(matches!(parse(text, ErrorMode::Strict), Err(Error::EmptyLine)));
    let mut sink = Diagnostics::new();
    let mesh = Mesh2D::from_str(text, ErrorMode::Lenient, &mut sink).unwrap();
    assert_eq!(mesh.nodes.len(), 2);
    assert_eq!(sink.len(), 2);
    assert!(matches!(&sink.entries[0], Error::EmptyLine));
    assert!(matches!(&sink.entries[1], Error::EmptyLine));
}

#[test]
fn hard_errors_stop_either_mode() {
    for mode in [ErrorMode::Strict, ErrorMode::Lenient] {
        assert!(matches!(parse("MESH2D\nND 1 0 0\n", mode), Err(Error::MissingValue)));
        assert!(matches!(parse("MESH2D\nE3T 1 1 2 3\n", mode), Err(Error::MissingValue)));
        assert!(matches!(parse("MESH2D\nE3T\n", mode), Err(Error::MissingValue)));
        assert!(matches!(parse("MESH2D\nND 1 0 zero 0\n", mode), Err(Error::InvalidFloat(_))));
        assert!(matches!(parse("MESH2D\nND -1 0 0 0\n", mode), Err(Error::InvalidInt(_))));
        assert!(matches!(parse("MESH2D\nE3T 1 1 2 3.5 1\n", mode), Err(Error::InvalidInt(_))));
        assert!(matches!(parse("MESH2D\nNS 1 two -3\n", mode), Err(Error::InvalidInt(_))));
        assert!(matches!(parse("MESH2D\nNS 1 -\n", mode), Err(Error::InvalidInt(_))));
        assert!(matches!(
            parse("MESH2D\nNUM_MATERIALS_PER_ELEM\n", mode),
            Err(Error::MissingValue)
        ));
    }
}

#[test]
fn first_violation_from_the_top_wins() {
    let text = "MESH2D\nND 1 0 0 0 extra\nND x 0 0 0\n";
    assert!(matches!(parse(text, ErrorMode::Strict), Err(Error::ExtraneousValue(_))));
    let mut sink = Diagnostics::new();
    let result = Mesh2D::from_str(text, ErrorMode::Lenient, &mut sink);
    assert!(matches!(result, Err(Error::InvalidInt(_))));
    assert_eq!(sink.len(), 1);
}

#[test]
fn strict_fails_with_what_lenient_reports_first() {
    let texts = [
        "ND 1 0 0 0\n\nNUM_MATERIALS_PER_ELEM 1\nNUM_MATERIALS_PER_ELEM 2 3\nNS 1 -2 4\n",
        "MESH2D\nE3T 1 1 1 1 1\n\nND 1 0 0 0 x\n",
        "MESH2D\nE3T 1 1 1 1 1\n",
        "MESH2D\nNS 1 -2 x\nND q\n",
    ];
    for text in texts {
        let mut sink = Diagnostics::new();
        let lenient = Mesh2D::from_str(text, ErrorMode::Lenient, &mut sink);
        let strict = parse(text, ErrorMode::Strict);
        if sink.len() == 0 {
            assert_eq!(format!("{:?}", lenient), format!("{:?}", strict));
        } else {
            assert_eq!(format!("{:?}", strict.unwrap_err()), format!("{:?}", sink.entries[0]));
        }
    }
}

#[test]
fn strict_leaves_the_sink_alone() {
    let mut sink = Diagnostics::new();
    let result = Mesh2D::from_str("MESH2D\n\n", ErrorMode::Strict, &mut sink);
    assert!(result.is_err());
    assert_eq!(sink.len(), 0);
}

#[test]
fn new_mesh_is_empty() {
    let mesh = Mesh2D::new();
    assert!(mesh.material_count_per_element.is_none());
    assert!(mesh.nodes.is_empty());
    assert!(mesh.e2ls.is_empty());
    assert!(mesh.e3ls.is_empty());
    assert!(mesh.e3ts.is_empty());
    assert!(mesh.e6ts.is_empty());
    assert!(mesh.e4qs.is_empty());
    assert!(mesh.e8qs.is_empty());
    assert!(mesh.e9qs.is_empty());
    assert!(mesh.nodestring.is_empty());
}
