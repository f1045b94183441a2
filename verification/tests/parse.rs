use fea_rs::kind::Kind;
use fea_rs::parse::parse_root;
use fea_rs::token_tree::AstSink;
use fea_rs::types::GlyphMap;

fn diagnostics(text: &str) -> Vec<(usize, usize, String)> {
    let (_root, errors) = parse_root(text);
    errors.into_iter().map(|e| (e.start, e.end, e.message)).collect()
}

#[test]
fn parse_bad() {
    let cases: Vec<(&str, Vec<(usize, usize, &str)>)> = vec![
        ("feature liga { sub a by \"b; } liga;", vec![(24, 35, "this string is not terminated")]),
        ("pos a 0x;", vec![(6, 8, "a hexadecimal number needs at least one digit")]),
        (
            "0x 0x11 0xzz",
            vec![
                (0, 2, "a hexadecimal number needs at least one digit"),
                (8, 10, "a hexadecimal number needs at least one digit"),
            ],
        ),
        (
            "0x \"open",
            vec![
                (0, 2, "a hexadecimal number needs at least one digit"),
                (3, 8, "this string is not terminated"),
            ],
        ),
    ];
    for (text, expected) in cases {
        let found = diagnostics(text);
        assert!(!found.is_empty(), "{:?} was accepted", text);
        let expected: Vec<(usize, usize, String)> =
            expected.into_iter().map(|(s, e, m)| (s, e, m.to_string())).collect();
        assert_eq!(found, expected, "{:?}", text);
        let (root, _) = parse_root(text);
        assert!(root.error);
    }

    let mut map = GlyphMap::new();
    map.push_name("a");
    map.push_name("a-cy");
    map.push_name("z");
    map.push_name("cy-z");
    let text = "a-cy-z q";
    let mut sink = AstSink::new(text, Some(&map));
    sink.start_node(Kind::SourceFile);
    sink.token(Kind::GlyphNameOrRange, 6);
    sink.token(Kind::Whitespace, 1);
    sink.token(Kind::GlyphNameOrRange, 1);
    sink.finish_node();
    let (root, errors) = sink.finish();
    assert!(root.error);
    assert_eq!(errors.len(), 2);
    assert!(errors[0].message.contains("multiple possible glyph ranges"));
    assert_eq!((errors[0].start, errors[0].end), (0, 6));
    assert_eq!(errors[1].message, "'q' is neither a known glyph or a range of known glyphs");
    assert_eq!((errors[1].start, errors[1].end), (7, 8));
}

#[test]
fn good_text_has_no_diagnostics() {
    assert!(diagnostics("feature liga { sub f i by f_i; } liga;").is_empty());
    assert!(diagnostics("").is_empty());
}

#[test]
fn named_empty_block_parses() {
    let text = "lookup Foo { } Foo;";
    let (root, errors) = parse_root(text);
    assert!(errors.is_empty());
    let spelled: String = root.iter_tokens().iter().map(|t| t.as_str()).collect();
    assert_eq!(spelled, text);
    let kinds: Vec<Kind> = root
        .iter_tokens()
        .iter()
        .map(|t| t.kind)
        .filter(|k| *k != Kind::Whitespace)
        .collect();
    assert_eq!(
        kinds,
        vec![Kind::LookupKw, Kind::Ident, Kind::LBrace, Kind::RBrace, Kind::Ident, Kind::Semi]
    );
}
