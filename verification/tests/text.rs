use epp::text::{
    code_point, fill, is_whitespace, next_token, parse_u32, push_all, push_decimal, split,
    split_pair, string_of,
};

fn chars(s: &str) -> Vec<char> {
    s.chars().collect()
}

fn text(c: &[char]) -> String {
    c.iter().collect()
}

#[test]
fn white_space_is_what_std_calls_so() {
    let mut seen = 0;
    for code in 0..=0x10ffffu32 {
        if let Some(c) = char::from_u32(code) {
            assert_eq!(is_whitespace(c), c.is_whitespace(), "at {:#x}", code);
            if is_whitespace(c) {
                seen += 1;
            }
        }
    }
    assert_eq!(seen, 25);
}

#[test]
fn code_points() {
    assert_eq!(code_point('\0'), 0);
    assert_eq!(code_point('a'), 97);
    assert_eq!(code_point('\u{e9}'), 0xe9);
    assert_eq!(code_point('\u{10ffff}'), 0x10ffff);
}

#[test]
fn filling_replaces_what_was_held() {
    let mut buf = chars("left over");
    fill(&mut buf, "h\u{e9}llo");
    assert_eq!(buf, vec!['h', '\u{e9}', 'l', 'l', 'o']);
    fill(&mut buf, "");
    assert!(buf.is_empty());
}

#[test]
fn tokens_are_what_split_whitespace_gives() {
    let lines = [
        "",
        " ",
        "a",
        " a",
        "a ",
        "P u1:v2 0 1:2",
        "  P\tu1:v2 \r\n 0\u{a0}1:2\u{3000}",
        "\u{2003}x\u{2003}\u{2003}y",
        "one\u{200b}word",
    ];
    for line in lines {
        let buf = chars(line);
        let mut found: Vec<String> = Vec::new();
        let mut from = 0;
        while let Some((tok, end)) = next_token(&buf, from) {
            assert!(from < end || from == 0);
            found.push(text(tok));
            from = end;
        }
        let want: Vec<String> = line.split_whitespace().map(|t| t.to_owned()).collect();
        assert_eq!(found, want, "on {:?}", line);
    }
}

#[test]
fn no_token_beyond_the_end() {
    let buf = chars("a b");
    assert_eq!(next_token(&buf, 3), None);
    assert_eq!(next_token(&buf, 4), None);
    assert_eq!(next_token(&buf, usize::MAX), None);
    assert_eq!(next_token(&buf, 1).map(|(t, e)| (text(t), e)), Some(("b".to_owned(), 3)));
}

#[test]
fn pieces_are_what_split_gives() {
    for tok in ["", ":", "a", "a:b", "a:", ":b", "a:b:c", "::", "11:12", "a\u{e9}:\u{4e16}"] {
        let buf = chars(tok);
        let found: Vec<String> = split(&buf, ':').iter().map(|p| text(p)).collect();
        let want: Vec<String> = tok.split(':').map(|p| p.to_owned()).collect();
        assert_eq!(found, want, "on {:?}", tok);
    }
}

#[test]
fn a_pair_is_two_pieces() {
    let pair = |tok: &str| {
        let buf = chars(tok);
        split_pair(&buf, ':').map(|(a, b)| (text(a), text(b)))
    };
    assert_eq!(pair("a:b"), Some(("a".to_owned(), "b".to_owned())));
    assert_eq!(pair("11:12"), Some(("11".to_owned(), "12".to_owned())));
    assert_eq!(pair(":"), Some((String::new(), String::new())));
    assert_eq!(pair("a:"), Some(("a".to_owned(), String::new())));
    assert_eq!(pair(":b"), Some((String::new(), "b".to_owned())));
    assert_eq!(pair(""), None);
    assert_eq!(pair("ab"), None);
    assert_eq!(pair("a:b:c"), None);
    assert_eq!(pair("::"), None);
}

#[test]
fn numbers_are_what_std_reads() {
    let texts = [
        "", "0", "7", "42", "007", "+", "+0", "+42", "++1", "-", "-1", "-0", "1a", "a1", " 1", "1 ",
        "4294967295", "4294967296", "04294967295", "+4294967295", "99999999999999999999",
        "429496729x", "4294967296x", "1_000", "0x10", "\u{661}", "1\u{661}", "12:", "1.5",
    ];
    for t in texts {
        let buf = chars(t);
        assert_eq!(parse_u32(&buf), t.parse::<u32>().ok(), "on {:?}", t);
    }
    assert_eq!(parse_u32(&chars("164164")), Some(164164));
    assert_eq!(parse_u32(&chars("0000175376")), Some(175376));
}

#[test]
fn numbers_are_written_as_std_writes_them() {
    for n in [0u64, 1, 9, 10, 11, 99, 100, 101, 65535, 4294967295, 1 << 63, u64::MAX] {
        let mut s = String::from("n=");
        push_decimal(&mut s, n);
        assert_eq!(s, format!("n={}", n));
        let digits: Vec<char> = s.chars().skip(2).collect();
        if n <= u32::MAX as u64 {
            assert_eq!(parse_u32(&digits), Some(n as u32));
        } else {
            assert_eq!(parse_u32(&digits), None);
        }
    }
}

#[test]
fn strings_from_characters() {
    assert_eq!(string_of(&[]), "");
    assert_eq!(string_of(&chars("ENSG")), "ENSG");
    assert_eq!(string_of(&chars("h\u{e9}llo \u{4e16}\u{754c}")), "h\u{e9}llo \u{4e16}\u{754c}");
    let mut s = String::from("11");
    push_all(&mut s, &[':', '1', '2']);
    assert_eq!(s, "11:12");
    push_all(&mut s, &[]);
    assert_eq!(s, "11:12");
}
