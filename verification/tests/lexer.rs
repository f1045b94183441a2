use fea_rs::kind::Kind;
use fea_rs::lexer::{is_ascii_whitespace, is_special, tokenize, Lexer, Token};

fn debug_tokens(tokens: &[Token]) -> Vec<String> {
    let mut result = Vec::new();
    let mut pos = 0;
    for token in tokens {
        result.push(format!("{}..{} {}", pos, pos + token.len, token.kind.to_string()));
        pos += token.len;
    }
    result
}

fn debug_tokens2(tokens: &[Token], src: &str) -> Vec<String> {
    let mut result = Vec::new();
    let mut pos = 0;
    for token in tokens {
        let text = if token.kind.has_contents() {
            format!("{}({})", token.kind.to_string(), &src[pos..pos + token.len])
        } else {
            token.kind.to_string()
        };
        result.push(text);
        pos += token.len;
    }
    result
}

fn kinds(text: &str) -> Vec<Kind> {
    tokenize(text).iter().map(|t| t.kind).collect()
}

#[test]
fn empty_hex() {
    let fea = "0x 0x11 0xzz";
    let tokens = tokenize(fea);
    let token_strs = debug_tokens(&tokens);
    assert_eq!(token_strs[0], "0..2 HEX EMPTY");
    assert_eq!(token_strs[1], "2..3 WS");
    assert_eq!(token_strs[2], "3..7 HEX");
    assert_eq!(token_strs[3], "7..8 WS");
    assert_eq!(token_strs[4], "8..10 HEX EMPTY");
    assert_eq!(token_strs[5], "10..12 ID");
}

#[test]
fn languagesystem() {
    let fea = "languagesystem dflt cool;";
    let tokens = tokenize(fea);
    assert_eq!(tokens[0].len, 14);
    let token_strs = debug_tokens2(&tokens, fea);
    assert_eq!(token_strs[0], "LanguagesystemKw");
    assert_eq!(token_strs[1], "WS( )");
    assert_eq!(token_strs[2], "ID(dflt)");
    assert_eq!(token_strs[3], "WS( )");
    assert_eq!(token_strs[4], "ID(cool)");
    assert_eq!(token_strs[5], ";");
}

#[test]
fn escaping_keywords() {
    let fea = "sub \\sub \\rsub";
    let tokens = tokenize(fea);
    let token_strs = debug_tokens2(&tokens, fea);
    assert_eq!(token_strs[0], "SubKw");
    assert_eq!(token_strs[1], "WS( )");
    assert_eq!(token_strs[2], "\\");
    assert_eq!(token_strs[3], "ID(sub)");
    assert_eq!(token_strs[4], "WS( )");
    assert_eq!(token_strs[5], "\\");
    assert_eq!(token_strs[6], "ID(rsub)");
}

#[test]
fn cid_versus_ident() {
    let fea = "@hi =[\\1-\\2 a - b];";
    let tokens = tokenize(fea);
    let token_strs = debug_tokens2(&tokens, fea);
    assert_eq!(token_strs[0], "@GlyphClass(@hi)");
    assert_eq!(token_strs[1], "WS( )");
    assert_eq!(token_strs[2], "=");
    assert_eq!(token_strs[3], "[");
    assert_eq!(token_strs[4], "\\");
    assert_eq!(token_strs[5], "DEC(1)");
    assert_eq!(token_strs[6], "-");
    assert_eq!(token_strs[7], "\\");
    assert_eq!(token_strs[8], "DEC(2)");
    assert_eq!(token_strs[9], "WS( )");
    assert_eq!(token_strs[10], "ID(a)");
    assert_eq!(token_strs[11], "WS( )");
    assert_eq!(token_strs[12], "-");
    assert_eq!(token_strs[13], "WS( )");
    assert_eq!(token_strs[14], "ID(b)");
    assert_eq!(token_strs[15], "]");
    assert_eq!(token_strs[16], ";");
}

#[test]
fn empty_hex_kinds_and_lengths() {
    let tokens = tokenize("0x 0x11 0xzz");
    let expected = [
        (Kind::NumberHexEmpty, 2),
        (Kind::Whitespace, 1),
        (Kind::NumberHex, 4),
        (Kind::Whitespace, 1),
        (Kind::NumberHexEmpty, 2),
        (Kind::Ident, 2),
    ];
    assert_eq!(tokens.len(), expected.len());
    for (token, (kind, len)) in tokens.iter().zip(expected.iter()) {
        assert_eq!(token.kind, *kind);
        assert_eq!(token.len, *len);
    }
}

#[test]
fn keyword_after_backslash_is_identifier() {
    assert_eq!(
        kinds("sub \\sub \\rsub"),
        vec![
            Kind::SubKw,
            Kind::Whitespace,
            Kind::Backslash,
            Kind::Ident,
            Kind::Whitespace,
            Kind::Backslash,
            Kind::Ident
        ]
    );
}

#[test]
fn tokens_cover_the_text() {
    let samples = [
        "",
        "feature liga { sub f i by f_i; } liga;",
        "# a comment\nlookup Foo { } Foo;",
        "\"open string",
        "pos a <1 2 3 4>; 1.5 0xAF 077",
        "@class = [a-z \\12 é ü];\n",
        "   \t\r\n",
    ];
    for text in samples {
        let total: usize = tokenize(text).iter().map(|t| t.len).sum();
        assert_eq!(total, text.len(), "{:?}", text);
    }
}

#[test]
fn zero_byte_ends_the_text() {
    let tokens = tokenize("ab\0cd");
    assert_eq!(tokens.len(), 1);
    assert_eq!(tokens[0], Token { len: 2, kind: Kind::Ident });
}

#[test]
fn comment_runs_to_end_of_line() {
    let tokens = tokenize("# hi\nx");
    assert_eq!(tokens[0], Token { len: 4, kind: Kind::Comment });
    assert_eq!(tokens[1], Token { len: 1, kind: Kind::Whitespace });
    assert_eq!(tokens[2], Token { len: 1, kind: Kind::Ident });
    let tokens = tokenize("#");
    assert_eq!(tokens, vec![Token { len: 1, kind: Kind::Comment }]);
}

#[test]
fn strings_closed_and_open() {
    assert_eq!(tokenize("\"ab\" "), vec![
        Token { len: 4, kind: Kind::String },
        Token { len: 1, kind: Kind::Whitespace }
    ]);
    assert_eq!(tokenize("\"ab"), vec![Token { len: 3, kind: Kind::StringUnterminated }]);
}

#[test]
fn numbers() {
    assert_eq!(tokenize("12"), vec![Token { len: 2, kind: Kind::NumberDec }]);
    assert_eq!(tokenize("1.25"), vec![Token { len: 4, kind: Kind::NumberFloat }]);
    assert_eq!(tokenize("1."), vec![Token { len: 2, kind: Kind::NumberFloat }]);
    assert_eq!(tokenize("0X1f"), vec![Token { len: 4, kind: Kind::NumberHex }]);
    assert_eq!(tokenize("0x"), vec![Token { len: 2, kind: Kind::NumberHexEmpty }]);
    assert_eq!(tokenize("1x"), vec![
        Token { len: 1, kind: Kind::NumberDec },
        Token { len: 1, kind: Kind::Ident }
    ]);
}

#[test]
fn punctuation_kinds() {
    assert_eq!(
        kinds(";,-={}[]()<>'"),
        vec![
            Kind::Semi,
            Kind::Comma,
            Kind::Hyphen,
            Kind::Eq,
            Kind::LBrace,
            Kind::RBrace,
            Kind::LSquare,
            Kind::RSquare,
            Kind::LParen,
            Kind::RParen,
            Kind::LAngle,
            Kind::RAngle,
            Kind::SingleQuote
        ]
    );
}

#[test]
fn hyphen_inside_identifier() {
    assert_eq!(tokenize("a-z b"), vec![
        Token { len: 3, kind: Kind::Ident },
        Token { len: 1, kind: Kind::Whitespace },
        Token { len: 1, kind: Kind::Ident }
    ]);
}

#[test]
fn keywords_with_two_spellings() {
    assert_eq!(kinds("substitute"), vec![Kind::SubKw]);
    assert_eq!(kinds("position"), vec![Kind::PosKw]);
    assert_eq!(kinds("pos"), vec![Kind::PosKw]);
    assert_eq!(kinds("reversesub"), vec![Kind::RsubKw]);
    assert_eq!(kinds("anonymous"), vec![Kind::AnonKw]);
    assert_eq!(kinds("excludeDFLT"), vec![Kind::ExcludeDfltKw]);
    assert_eq!(kinds("subs"), vec![Kind::Ident]);
    assert_eq!(Kind::from_keyword(b"lookupflag"), Some(Kind::LookupflagKw));
    assert_eq!(Kind::from_keyword(b""), None);
}

#[test]
fn byte_classes() {
    for b in b"',-;<=>@[\\](){}" {
        assert!(is_special(*b), "{}", *b as char);
    }
    assert!(!is_special(b'a') && !is_special(b'.') && !is_special(b'#'));
    for b in [b' ', b'\t', b'\n', 0x0B, 0x0C, b'\r'] {
        assert!(is_ascii_whitespace(b));
    }
    assert!(!is_ascii_whitespace(b'a') && !is_ascii_whitespace(0));
}

#[test]
fn lexer_steps() {
    let mut lexer = Lexer::new("ab");
    assert_eq!(lexer.nth(0), b'a');
    assert_eq!(lexer.nth(1), b'b');
    assert_eq!(lexer.nth(2), 0);
    assert_eq!(lexer.bump(), Some(b'a'));
    assert_eq!(lexer.bump(), Some(b'b'));
    assert_eq!(lexer.bump(), None);
    assert_eq!(lexer.position(), 2);
    assert_eq!(lexer.next_token(), Token { len: 0, kind: Kind::Eof });
}

#[test]
fn lexer_scanners() {
    let mut lexer = Lexer::new("  x");
    assert_eq!(lexer.whitespace(), Kind::Whitespace);
    assert_eq!(lexer.position(), 2);
    let mut lexer = Lexer::new("12ab");
    lexer.eat_decimal_digits();
    assert_eq!(lexer.position(), 2);
    lexer.eat_hex_digits();
    assert_eq!(lexer.position(), 4);
    let mut lexer = Lexer::new("abc def");
    lexer.eat_ident();
    assert_eq!(lexer.position(), 3);
    let mut lexer = Lexer::new("hi =");
    assert_eq!(lexer.glyph_class_name(), Kind::NamedGlyphClass);
    assert_eq!(lexer.position(), 2);
    let mut lexer = Lexer::new("rest\nnext");
    assert_eq!(lexer.comment(), Kind::Comment);
    assert_eq!(lexer.position(), 4);
    let mut lexer = Lexer::new("ab\" c");
    assert_eq!(lexer.string(), Kind::String);
    assert_eq!(lexer.position(), 3);
    let mut lexer = Lexer::new("x10");
    assert_eq!(lexer.number(true), Kind::NumberHex);
    assert_eq!(lexer.position(), 3);
    let mut lexer = Lexer::new("eature x");
    assert_eq!(lexer.ident(), Kind::Ident);
    assert_eq!(lexer.position(), 6);
}
