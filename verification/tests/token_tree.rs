use fea_rs::kind::Kind;
use fea_rs::parse::parse_root;
use fea_rs::token_tree::{
    try_split_range, AstSink, Event, Node, NodeOrToken, Token, TreeBuilder,
};
use fea_rs::types::GlyphMap;

static SAMPLE_FEA: &str = "\
languagesystem DFLT dflt;
languagesystem latn dflt;

@lower = [a b c];

# ligatures
feature liga {
    sub f i by f_i;
    sub f l by f_l;
} liga;

feature kern {
    pos a b -20;
    pos @lower c <0 0 15 0>;
} kern;
";

fn glyph_map(names: &[&str]) -> GlyphMap {
    let mut map = GlyphMap::new();
    for name in names {
        map.push_name(name);
    }
    map
}

fn token_text(item: &NodeOrToken) -> String {
    item.token_text().unwrap().to_string()
}

#[test]
fn token_iter() {
    let (root, _errs) = parse_root(SAMPLE_FEA);
    let reconstruct = root.iter_tokens().iter().map(|t| t.as_str()).collect::<String>();
    assert_eq!(SAMPLE_FEA, reconstruct);
}

#[test]
fn root_covers_the_source() {
    let (root, errs) = parse_root(SAMPLE_FEA);
    assert!(errs.is_empty());
    assert_eq!(root.kind(), Kind::SourceFile);
    assert_eq!(root.text_len(), SAMPLE_FEA.len());
    assert!(!root.error);
    assert!(root.children().iter().all(|c| c.is_token()));
}

#[test]
fn unambiguous_range_is_split() {
    let map = glyph_map(&["a", "a-cy", "z"]);
    let node = try_split_range("a-z", &map).unwrap();
    assert_eq!(node.kind(), Kind::GlyphRange);
    assert_eq!(node.children().len(), 3);
    assert_eq!(token_text(&node.children()[0]), "a");
    assert_eq!(token_text(&node.children()[1]), "-");
    assert_eq!(token_text(&node.children()[2]), "z");
    assert_eq!(node.children()[0].kind(), Kind::GlyphName);
    assert_eq!(node.children()[1].kind(), Kind::Hyphen);
    assert_eq!(node.children()[2].kind(), Kind::GlyphName);
    assert_eq!(node.text_len(), 3);
    assert!(!node.error);
}

#[test]
fn ambiguous_range_is_reported() {
    let map = glyph_map(&["a", "a-cy", "z", "cy-z"]);
    let message = try_split_range("a-cy-z", &map).unwrap_err();
    assert_eq!(
        message,
        "the name 'a-cy-z' contains multiple possible glyph ranges (a to -cy-z and a-cy to -z). \
         Please insert spaces around the '-' to clarify your intent."
    );
}

#[test]
fn unknown_range_is_reported() {
    let map = glyph_map(&["a", "z"]);
    let message = try_split_range("b-z", &map).unwrap_err();
    assert_eq!(message, "'b-z' is neither a known glyph or a range of known glyphs");
    let message = try_split_range("abc", &map).unwrap_err();
    assert_eq!(message, "'abc' is neither a known glyph or a range of known glyphs");
}

#[test]
fn sink_splits_ranges_without_complaint() {
    let map = glyph_map(&["a", "a-cy", "z"]);
    let text = "a-z";
    let mut sink = AstSink::new(text, Some(&map));
    sink.start_node(Kind::SourceFile);
    sink.token(Kind::GlyphNameOrRange, 3);
    sink.finish_node();
    let (root, errors) = sink.finish();
    assert!(errors.is_empty());
    assert!(!root.error);
    assert_eq!(root.children().len(), 1);
    let range = root.children()[0].as_node().unwrap();
    assert_eq!(range.kind(), Kind::GlyphRange);
    let texts: Vec<&str> = range.iter_tokens().iter().map(|t| t.as_str()).collect();
    assert_eq!(texts, vec!["a", "-", "z"]);
}

#[test]
fn sink_knows_glyphs_with_hyphens() {
    let map = glyph_map(&["a", "a-cy", "z"]);
    let mut sink = AstSink::new("a-cy", Some(&map));
    sink.start_node(Kind::SourceFile);
    sink.token(Kind::GlyphNameOrRange, 4);
    sink.finish_node();
    let (root, errors) = sink.finish();
    assert!(errors.is_empty());
    assert_eq!(root.children()[0].kind(), Kind::GlyphName);
    assert_eq!(token_text(&root.children()[0]), "a-cy");
}

#[test]
fn sink_without_map_keeps_kind() {
    let mut sink = AstSink::new("a-z", None);
    sink.start_node(Kind::SourceFile);
    sink.token(Kind::GlyphNameOrRange, 3);
    sink.finish_node();
    let (root, errors) = sink.finish();
    assert!(errors.is_empty());
    assert_eq!(root.children()[0].kind(), Kind::GlyphNameOrRange);
}

#[test]
fn sink_marks_only_the_direct_parent() {
    let map = glyph_map(&["a"]);
    let text = "x a";
    let mut sink = AstSink::new(text, Some(&map));
    sink.start_node(Kind::SourceFile);
    sink.start_node(Kind::GlyphClass);
    sink.token(Kind::GlyphNameOrRange, 1);
    sink.finish_node();
    sink.token(Kind::Whitespace, 1);
    sink.token(Kind::GlyphNameOrRange, 1);
    sink.finish_node();
    let (root, errors) = sink.finish();
    assert_eq!(errors.len(), 1);
    assert_eq!(errors[0].message, "'x' is neither a known glyph or a range of known glyphs");
    assert_eq!((errors[0].start, errors[0].end), (0, 1));
    assert!(!root.error);
    let inner = root.children()[0].as_node().unwrap();
    assert!(inner.error);
    assert_eq!(root.children()[2].kind(), Kind::GlyphName);
}

#[test]
fn node_places_its_children() {
    let mut builder = TreeBuilder::new();
    builder.start_node(Kind::SourceFile);
    builder.token(Kind::Ident, "ab");
    builder.start_node(Kind::GlyphClass);
    builder.token(Kind::LSquare, "[");
    builder.token(Kind::RSquare, "]");
    builder.finish_node(false);
    builder.start_node(Kind::GlyphClass);
    builder.token(Kind::Ident, "xyz");
    builder.finish_node(true);
    builder.finish_node(false);
    let root = builder.finish();
    assert_eq!(root.text_len(), 7);
    assert_eq!(root.rel_pos, 0);
    let first = root.children()[1].as_node().unwrap();
    let second = root.children()[2].as_node().unwrap();
    assert_eq!((first.rel_pos, first.text_len()), (2, 2));
    assert_eq!((second.rel_pos, second.text_len()), (4, 3));
    assert!(!first.error && second.error);
}

#[test]
fn node_or_token_accessors() {
    let token = NodeOrToken::from(Token::new(Kind::Ident, "abc".into()));
    assert!(token.is_token());
    assert_eq!(token.token_text(), Some("abc"));
    assert_eq!(token.kind(), Kind::Ident);
    assert_eq!(token.text_len(), 3);
    assert!(token.as_node().is_none());
    assert_eq!(token.as_token().unwrap().as_str(), "abc");
    assert!(token.matches(&[Kind::Comma, Kind::Ident]));
    assert!(!token.matches(&[Kind::Comma]));
    assert!(token.into_node().is_none());

    let node = NodeOrToken::from(Node::new(Kind::GlyphClass, Vec::new(), false));
    assert!(!node.is_token());
    assert_eq!(node.token_text(), None);
    assert_eq!(node.kind(), Kind::GlyphClass);
    assert_eq!(node.text_len(), 0);
    assert!(node.as_token().is_none());
    assert_eq!(node.into_node().unwrap().kind(), Kind::GlyphClass);
}

#[test]
fn walk_gives_every_place() {
    let (root, _) = parse_root("a [b]");
    assert_eq!(
        root.walk(0),
        vec![
            Event::Enter { kind: Kind::SourceFile, start: 0, end: 5 },
            Event::Leaf { kind: Kind::Ident, start: 0, end: 1 },
            Event::Leaf { kind: Kind::Whitespace, start: 1, end: 2 },
            Event::Leaf { kind: Kind::LSquare, start: 2, end: 3 },
            Event::Leaf { kind: Kind::Ident, start: 3, end: 4 },
            Event::Leaf { kind: Kind::RSquare, start: 4, end: 5 },
            Event::Leave,
        ]
    );

    let mut builder = TreeBuilder::new();
    builder.start_node(Kind::SourceFile);
    builder.token(Kind::Ident, "ab");
    builder.start_node(Kind::GlyphClass);
    builder.token(Kind::LSquare, "[");
    builder.start_node(Kind::GlyphRange);
    builder.token(Kind::GlyphName, "a");
    builder.finish_node(false);
    builder.finish_node(false);
    builder.finish_node(false);
    let root = builder.finish();
    assert_eq!(
        root.walk(10),
        vec![
            Event::Enter { kind: Kind::SourceFile, start: 10, end: 14 },
            Event::Leaf { kind: Kind::Ident, start: 10, end: 12 },
            Event::Enter { kind: Kind::GlyphClass, start: 12, end: 14 },
            Event::Leaf { kind: Kind::LSquare, start: 12, end: 13 },
            Event::Enter { kind: Kind::GlyphRange, start: 13, end: 14 },
            Event::Leaf { kind: Kind::GlyphName, start: 13, end: 14 },
            Event::Leave,
            Event::Leave,
            Event::Leave,
        ]
    );
}

#[test]
fn two_hyphens_make_no_range() {
    let map = glyph_map(&["a", "z"]);
    let message = try_split_range("a--z", &map).unwrap_err();
    assert_eq!(message, "'a--z' is neither a known glyph or a range of known glyphs");

    let mut sink = AstSink::new("a--z", Some(&map));
    sink.start_node(Kind::SourceFile);
    sink.token(Kind::GlyphNameOrRange, 4);
    sink.finish_node();
    let (root, errors) = sink.finish();
    assert_eq!(errors.len(), 1);
    assert_eq!((errors[0].start, errors[0].end), (0, 4));
    assert!(root.error);
    assert_eq!(root.text_len(), 4);
    assert_eq!(token_text(&root.children()[0]), "a--z");
}

#[test]
fn a_glyph_named_with_a_hyphen_in_front_ends_a_range() {
    let map = glyph_map(&["a", "-z"]);
    let node = try_split_range("a--z", &map).unwrap();
    let texts: Vec<&str> = node.iter_tokens().iter().map(|t| t.as_str()).collect();
    assert_eq!(texts, vec!["a", "-", "-z"]);
    assert_eq!(node.text_len(), 4);
}

#[test]
fn ranges_keep_every_byte() {
    let map = glyph_map(&["a", "a-cy", "z", "é", "ü-x"]);
    for text in ["a-z", "a-cy-z", "é-ü-x", "a-é"] {
        let mut sink = AstSink::new(text, Some(&map));
        sink.start_node(Kind::SourceFile);
        sink.token(Kind::GlyphNameOrRange, text.len());
        sink.finish_node();
        let (root, errors) = sink.finish();
        assert!(errors.is_empty(), "{}", text);
        assert_eq!(root.children()[0].kind(), Kind::GlyphRange);
        assert_eq!(root.children()[0].text_len(), text.len());
        let spelled: String = root.iter_tokens().iter().map(|t| t.as_str()).collect();
        assert_eq!(spelled, text);
    }
}

#[test]
fn trees_know_whether_they_are_well_formed() {
    let (root, _) = parse_root("a [b]");
    assert!(root.is_wf());
    let mut broken = Node::new(Kind::SourceFile, vec![NodeOrToken::from(root)], false);
    assert!(broken.is_wf());
    broken.text_len = 4;
    assert!(!broken.is_wf());
    broken.text_len = 5;
    match &mut broken.children[0] {
        NodeOrToken::Node(inner) => inner.text_len = 6,
        NodeOrToken::Token(_) => unreachable!(),
    }
    assert!(!broken.is_wf());
}

#[test]
fn tokens_of_other_alphabets() {
    let text = "sub é by ü; # ß\n";
    let (root, errors) = parse_root(text);
    assert!(errors.is_empty());
    let spelled: String = root.iter_tokens().iter().map(|t| t.as_str()).collect();
    assert_eq!(spelled, text);
    assert_eq!(root.text_len(), text.len());
}
