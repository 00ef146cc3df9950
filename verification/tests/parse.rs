use epp::parser::{parse_motif, CMSInfo, MotifInfo, ParseError, Parser};

/// Four lines of a motif stream, as a reader hands them over.
const FOUR_LINES: &str = "\
P ENSG00000164164:ENSG00000175376 0 11:12 12:12 ENSG00000114125:ENSG00000135916
P ENSG00000006194:ENSG00000174851 0 6:6 6:6 ENSG00000006194:ENSG00000145907
P ENSG00000205302:ENSG00000175895 0 11:12 12:12 ENSG00000205302:ENSG00000138641
P ENSG00000147041:ENSG00000205302 0 6:6 6:6 ENSG00000147041:ENSG00000171867
";

/// What reading line by line gives: every line with its line feed, and then
/// the empty text that stands for the end.
fn reads(text: &str) -> Vec<&str> {
    let mut lines: Vec<&str> = text.split_inclusive('\n').collect();
    lines.push("");
    lines
}

fn motif(raw: &str, u_prefix: &str, u: u32, v_prefix: &str, v: u32, o: u32, p: u32) -> MotifInfo {
    MotifInfo {
        raw: raw.to_owned(),
        u_prefix: u_prefix.to_owned(),
        u,
        v_prefix: v_prefix.to_owned(),
        v,
        o,
        p,
    }
}

fn expected_motifs() -> Vec<MotifInfo> {
    vec![
        MotifInfo {
            raw: "ENSG00000164164:ENSG00000175376:11:12".to_owned(),
            u_prefix: "ENSG".to_owned(),
            u: 164164,
            v_prefix: "ENSG".to_owned(),
            v: 175376,
            o: 11,
            p: 12,
        },
        MotifInfo {
            raw: "ENSG00000006194:ENSG00000174851:6:6".to_owned(),
            u_prefix: "ENSG".to_owned(),
            u: 6194,
            v_prefix: "ENSG".to_owned(),
            v: 174851,
            o: 6,
            p: 6,
        },
        MotifInfo {
            raw: "ENSG00000205302:ENSG00000175895:11:12".to_owned(),
            u_prefix: "ENSG".to_owned(),
            u: 205302,
            v_prefix: "ENSG".to_owned(),
            v: 175895,
            o: 11,
            p: 12,
        },
        MotifInfo {
            raw: "ENSG00000147041:ENSG00000205302:6:6".to_owned(),
            u_prefix: "ENSG".to_owned(),
            u: 147041,
            v_prefix: "ENSG".to_owned(),
            v: 205302,
            o: 6,
            p: 6,
        },
    ]
}

#[test]
fn it_works() {
    let expected = expected_motifs();
    let mut actual = Vec::new();
    for line in reads(FOUR_LINES) {
        match parse_motif(line).unwrap() {
            Some(mi) => actual.push(mi),
            None => break,
        }
    }
    assert_eq!(expected, actual);
}

#[test]
fn parse_motif_test() {
    let expected = expected_motifs();
    let mut actual = Vec::new();
    let mut parser = Parser::new();
    for line in reads(FOUR_LINES) {
        match parser.parse_motif(line).unwrap() {
            Some(mi) => actual.push(mi),
            None => break,
        }
    }
    assert_eq!(expected, actual);
}

#[test]
fn parse_raw_test() {
    let expected = vec![
        "ENSG00000164164:ENSG00000175376:11:12".to_owned(),
        "ENSG00000006194:ENSG00000174851:6:6".to_owned(),
        "ENSG00000205302:ENSG00000175895:11:12".to_owned(),
        "ENSG00000147041:ENSG00000205302:6:6".to_owned(),
    ];
    let mut actual = Vec::new();
    let mut parser = Parser::new();
    for line in reads(FOUR_LINES) {
        match parser.parse_raw(line).unwrap() {
            Some(raw) => actual.push(raw),
            None => break,
        }
    }
    assert_eq!(expected, actual);
}

#[test]
fn parse_split_test() {
    let expected = vec![
        CMSInfo {
            uv: "ENSG00000164164:ENSG00000175376".to_owned(),
            op: "11:12".to_owned(),
            c: 0,
        },
        CMSInfo {
            uv: "ENSG00000006194:ENSG00000174851".to_owned(),
            op: "6:6".to_owned(),
            c: 0,
        },
        CMSInfo {
            uv: "ENSG00000205302:ENSG00000175895".to_owned(),
            op: "11:12".to_owned(),
            c: 0,
        },
        CMSInfo {
            uv: "ENSG00000147041:ENSG00000205302".to_owned(),
            op: "6:6".to_owned(),
            c: 0,
        },
    ];
    let mut actual = Vec::new();
    let mut parser = Parser::new();
    for line in reads(FOUR_LINES) {
        match parser.parse_cms(line).unwrap() {
            Some(info) => actual.push(info),
            None => break,
        }
    }
    assert_eq!(expected, actual);
}

#[test]
fn one_line_in_full() {
    let line =
        "P ENSG00000164164:ENSG00000175376 0 11:12 12:12 ENSG00000114125:ENSG00000135916";
    let mut parser = Parser::default();
    let mi = parser.parse_motif(line).unwrap().unwrap();
    assert_eq!(mi.u_prefix, "ENSG");
    assert_eq!(mi.u, 164164);
    assert_eq!(mi.v_prefix, "ENSG");
    assert_eq!(mi.v, 175376);
    assert_eq!(mi.o, 11);
    assert_eq!(mi.p, 12);
    assert_eq!(mi.raw, "ENSG00000164164:ENSG00000175376:11:12");
    let info = parser.parse_cms(line).unwrap().unwrap();
    assert_eq!(info.c, 0);
    assert_eq!(info.uv, "ENSG00000164164:ENSG00000175376");
    assert_eq!(info.op, "11:12");
    assert_eq!(
        parser.parse_raw(line).unwrap().unwrap(),
        "ENSG00000164164:ENSG00000175376:11:12"
    );
}

#[test]
fn a_node_pair_without_a_colon_is_malformed() {
    let mut parser = Parser::new();
    assert_eq!(parser.parse_motif("P badtoken"), Err(ParseError::NodePair));
    assert_eq!(parser.parse_raw("P badtoken"), Err(ParseError::NodePair));
    assert_eq!(parser.parse_cms("P badtoken"), Err(ParseError::NodePair));
    assert_eq!(parse_motif("P badtoken"), Err(ParseError::NodePair));
    assert_eq!(parser.parse_cms("P badtoken 0 1:1"), Err(ParseError::NodePair));
}

#[test]
fn the_end_of_the_input_is_no_error() {
    let mut parser = Parser::new();
    assert_eq!(parser.parse_motif(""), Ok(None));
    assert_eq!(parser.parse_raw(""), Ok(None));
    assert_eq!(parser.parse_cms(""), Ok(None));
    assert_eq!(parse_motif(""), Ok(None));
}

#[test]
fn a_line_without_a_node_pair() {
    let mut parser = Parser::new();
    for line in ["\n", " ", "P", "P\n", "  P  \t\r\n"] {
        assert_eq!(parser.parse_motif(line), Err(ParseError::MissingNodePair));
        assert_eq!(parser.parse_raw(line), Err(ParseError::MissingNodePair));
        assert_eq!(parser.parse_cms(line), Err(ParseError::MissingNodePair));
    }
}

#[test]
fn a_node_pair_holds_one_colon() {
    let mut parser = Parser::new();
    for line in ["P a1b2 0 1:2", "P a1:b2:c3 0 1:2", "P a1::b2 0 1:2"] {
        assert_eq!(parser.parse_motif(line), Err(ParseError::NodePair));
        assert_eq!(parser.parse_cms(line), Err(ParseError::NodePair));
    }
}

#[test]
fn a_node_holds_a_digit() {
    let mut parser = Parser::new();
    for line in ["P a:b2 0 1:2", "P a1:b 0 1:2", "P :b2 0 1:2", "P a1: 0 1:2", "P : 0 1:2"] {
        assert_eq!(parser.parse_motif(line), Err(ParseError::NoDigits));
        assert_eq!(parser.parse_raw(line), Err(ParseError::NoDigits));
        assert_eq!(parser.parse_cms(line), Err(ParseError::NoDigits));
    }
}

#[test]
fn a_node_ends_in_a_number() {
    let mut parser = Parser::new();
    for line in ["P a1x:b2 0 1:2", "P a1:b2y 0 1:2", "P a4294967296:b2 0 1:2", "P a1:b2+3 0 1:2"] {
        assert_eq!(parser.parse_motif(line), Err(ParseError::ParseIntErr));
        assert_eq!(parser.parse_cms(line), Err(ParseError::ParseIntErr));
    }
    assert_eq!(
        parser.parse_motif("P a4294967295:b0 1 0:0"),
        Ok(Some(motif("a4294967295:b0:0:0", "a", 4294967295, "b", 0, 0, 0)))
    );
}

#[test]
fn a_node_is_split_at_its_first_digit() {
    let mut parser = Parser::new();
    assert_eq!(
        parser.parse_motif("P A12:B3 1 4:5"),
        Ok(Some(motif("A12:B3:4:5", "A", 12, "B", 3, 4, 5)))
    );
    assert_eq!(parser.parse_motif("P 7:8 1 4:5"), Ok(Some(motif("7:8:4:5", "", 7, "", 8, 4, 5))));
    assert_eq!(
        parser.parse_motif("P x-y_007:\u{e9}9 0 1:2"),
        Ok(Some(motif("x-y_007:\u{e9}9:1:2", "x-y_", 7, "\u{e9}", 9, 1, 2)))
    );
}

#[test]
fn a_line_without_a_connectivity_flag() {
    let mut parser = Parser::new();
    for line in ["P a1:b2", "P a1:b2\n", "P a1:b2   "] {
        assert_eq!(parser.parse_motif(line), Err(ParseError::MissingConnectivity));
        assert_eq!(parser.parse_raw(line), Err(ParseError::MissingConnectivity));
        assert_eq!(parser.parse_cms(line), Err(ParseError::MissingConnectivity));
    }
}

#[test]
fn a_connectivity_flag_is_zero_or_one() {
    let mut parser = Parser::new();
    for line in ["P a1:b2 2 1:2", "P a1:b2 00 1:2", "P a1:b2 true 1:2", "P a1:b2 1:2", "P a1:b2 +1 1:2"]
    {
        assert_eq!(parser.parse_motif(line), Err(ParseError::Connectivity));
        assert_eq!(parser.parse_raw(line), Err(ParseError::Connectivity));
        assert_eq!(parser.parse_cms(line), Err(ParseError::Connectivity));
    }
    assert_eq!(parser.parse_cms("P a1:b2 0 1:2").unwrap().unwrap().c, 0);
    assert_eq!(parser.parse_cms("P a1:b2 1 1:2").unwrap().unwrap().c, 1);
}

#[test]
fn a_line_without_an_orbit_pair() {
    let mut parser = Parser::new();
    for line in ["P a1:b2 0", "P a1:b2 1\n"] {
        assert_eq!(parser.parse_motif(line), Err(ParseError::MissingOrbitPair));
        assert_eq!(parser.parse_raw(line), Err(ParseError::MissingOrbitPair));
        assert_eq!(parser.parse_cms(line), Err(ParseError::MissingOrbitPair));
    }
}

#[test]
fn an_orbit_pair_holds_one_colon() {
    let mut parser = Parser::new();
    for line in ["P a1:b2 0 12", "P a1:b2 0 1:2:3", "P a1:b2 0 1::2"] {
        assert_eq!(parser.parse_motif(line), Err(ParseError::OrbitPair));
        assert_eq!(parser.parse_raw(line), Err(ParseError::OrbitPair));
        assert_eq!(parser.parse_cms(line), Err(ParseError::OrbitPair));
    }
}

#[test]
fn an_orbit_is_a_number() {
    let mut parser = Parser::new();
    for line in
        ["P a1:b2 0 x:2", "P a1:b2 0 1:y", "P a1:b2 0 :2", "P a1:b2 0 1:", "P a1:b2 0 -1:2", "P a1:b2 0 1:4294967296", "P a1:b2 0 +:2"]
    {
        assert_eq!(parser.parse_motif(line), Err(ParseError::ParseIntErr));
        assert_eq!(parser.parse_raw(line), Err(ParseError::ParseIntErr));
        assert_eq!(parser.parse_cms(line), Err(ParseError::ParseIntErr));
    }
    assert_eq!(
        parser.parse_motif("P a1:b2 0 +1:002"),
        Ok(Some(motif("a1:b2:+1:002", "a", 1, "b", 2, 1, 2)))
    );
}

#[test]
fn the_first_fault_decides() {
    let mut parser = Parser::new();
    assert_eq!(parser.parse_cms("P a:b x y"), Err(ParseError::NoDigits));
    assert_eq!(parser.parse_cms("P a1:b x y"), Err(ParseError::NoDigits));
    assert_eq!(parser.parse_cms("P a1:b2 x y"), Err(ParseError::Connectivity));
    assert_eq!(parser.parse_cms("P a1:b2 1 y"), Err(ParseError::OrbitPair));
    assert_eq!(parser.parse_cms("P a1:b2 1 y:z"), Err(ParseError::ParseIntErr));
    assert_eq!(parser.parse_cms("P a1x:b 1 1:1"), Err(ParseError::ParseIntErr));
}

#[test]
fn the_flag_and_the_tail_are_not_looked_at() {
    let mut parser = Parser::new();
    let want = CMSInfo { uv: "a1:b2".to_owned(), op: "3:4".to_owned(), c: 1 };
    for line in [
        "P a1:b2 1 3:4",
        "Q a1:b2 1 3:4\n",
        "anything a1:b2 1 3:4 not:looked at all",
        "  P\ta1:b2   1\u{a0}3:4\r\n",
        "P\u{2003}a1:b2\u{3000}1\u{85}3:4\u{2028}",
    ] {
        assert_eq!(parser.parse_cms(line), Ok(Some(CMSInfo { uv: want.uv.clone(), op: want.op.clone(), c: 1 })));
        assert_eq!(parser.parse_raw(line), Ok(Some("a1:b2:3:4".to_owned())));
    }
    assert_eq!(want.c, 1);
}

#[test]
fn a_parser_is_used_again_after_a_fault() {
    let mut parser = Parser::new();
    assert_eq!(parser.parse_raw("P badtoken"), Err(ParseError::NodePair));
    assert_eq!(parser.parse_raw("P a1:b2 1 3:4"), Ok(Some("a1:b2:3:4".to_owned())));
    assert_eq!(parser.parse_raw(""), Ok(None));
    assert_eq!(parser.parse_raw("P c5:d6 0 7:8 and more"), Ok(Some("c5:d6:7:8".to_owned())));
}

#[test]
fn the_three_forms_agree() {
    let mut parser = Parser::new();
    for line in reads(FOUR_LINES) {
        let mi = parser.parse_motif(line).unwrap();
        let raw = parser.parse_raw(line).unwrap();
        let info = parser.parse_cms(line).unwrap();
        match (mi, raw, info) {
            (Some(mi), Some(raw), Some(info)) => {
                assert_eq!(mi.raw, raw);
                assert_eq!(format!("{}:{}", info.uv, info.op), raw);
            }
            (None, None, None) => assert_eq!(line, ""),
            _ => panic!("the three forms differ on {:?}", line),
        }
    }
}
