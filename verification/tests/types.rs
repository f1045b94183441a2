use fea_rs::types::{GlyphClass, GlyphId, GlyphIdent, GlyphMap, GlyphOrClass, InvalidTag, Tag};

#[test]
fn glyph_ids() {
    assert_eq!(GlyphId::notdef(), GlyphId(0));
    assert_eq!(GlyphId::new(7).to_u16(), 7);
    assert_eq!(GlyphId::from(9u16), GlyphId(9));
    assert_eq!(GlyphId::try_from_usize(65535), Some(GlyphId(65535)));
    assert_eq!(GlyphId::try_from_usize(65536), None);
}

#[test]
fn glyph_classes_keep_order_and_duplicates() {
    let class = GlyphClass::from_vec(vec![GlyphId(3), GlyphId(1), GlyphId(3)]);
    assert_eq!(class.items(), &[GlyphId(3), GlyphId(1), GlyphId(3)]);
    assert_eq!(class.len(), 3);
    assert!(class.contains(GlyphId(1)));
    assert!(!class.contains(GlyphId(2)));
    assert!(class.same_as(&class.duplicate()));
    assert!(!class.same_as(&GlyphClass::from_vec(vec![GlyphId(1), GlyphId(3), GlyphId(3)])));
    assert_eq!(GlyphClass::from(vec![GlyphId(2)]).items(), &[GlyphId(2)]);
    assert_eq!(
        GlyphClass::from(vec![GlyphId(9), GlyphId(2), GlyphId(9)]).items(),
        &[GlyphId(9), GlyphId(2), GlyphId(9)]
    );
    assert_eq!(GlyphOrClass::Glyph(GlyphId(5)).into_class().items(), &[GlyphId(5)]);
    assert_eq!(GlyphOrClass::Class(class.duplicate()).into_class().items(), class.items());
}

#[test]
fn tags() {
    let tag = Tag::new(b"liga");
    assert_eq!(tag, Tag(0x6C69_6761));
    assert_eq!(tag.to_be_bytes(), *b"liga");
    assert_eq!(Tag::from_raw(b"liga"), Ok(tag));
    assert_eq!(Tag::from_raw(b"ab"), Ok(Tag::new(b"ab  ")));
    assert_eq!(Tag::from_raw(b""), Err(InvalidTag::InvalidLength(0)));
    assert_eq!(Tag::from_raw(b"abcde"), Err(InvalidTag::InvalidLength(5)));
    assert_eq!(Tag::from_raw(b"a\x01c"), Err(InvalidTag::InvalidByte { pos: 1, byte: 1 }));
    assert_eq!(Tag::from_raw(b"ab\x7F"), Err(InvalidTag::InvalidByte { pos: 2, byte: 0x7F }));
    assert!(Tag::new(b"DFLT") < Tag::new(b"dflt"));
    assert!(Tag::new(b"arab") < Tag::new(b"latn"));
}

#[test]
fn glyph_map_lookup() {
    let mut map = GlyphMap::new();
    assert!(map.is_empty());
    map.push_name(".notdef");
    map.push_name("a");
    map.push_cid(17);
    map.push_name("a");
    assert_eq!(map.len(), 4);
    assert!(map.contains("a"));
    assert!(!map.contains("b"));
    assert_eq!(map.id_for(&GlyphIdent::from_name("a".into())), Some(GlyphId(1)));
    assert_eq!(map.id_for(&GlyphIdent::Cid(17)), Some(GlyphId(2)));
    assert_eq!(map.id_for(&GlyphIdent::Cid(18)), None);
    assert_eq!(map.id_for(&GlyphIdent::Name("zz".into())), None);
}

#[test]
fn glyph_idents_are_shown() {
    assert_eq!(GlyphIdent::Name("a.alt".into()).to_string(), "a.alt");
    assert_eq!(GlyphIdent::Cid(0).to_string(), "Cid(0)");
    assert_eq!(GlyphIdent::Cid(7).to_string(), "Cid(7)");
    assert_eq!(GlyphIdent::Cid(1203).to_string(), "Cid(1203)");
    assert_eq!(GlyphIdent::Cid(u32::MAX).to_string(), "Cid(4294967295)");
}
