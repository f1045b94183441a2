use fea_rs::compile::lookups::ClassDefBuilder2;
use fea_rs::types::{GlyphClass, GlyphId};
use write_fonts::types::GlyphId16;

fn make_glyph_class<const N: usize>(glyphs: [u16; N]) -> GlyphClass {
    GlyphClass::from_vec(glyphs.iter().copied().map(GlyphId::new).collect())
}

#[test]
fn smoke_test_class_builder() {
    let mut builder = ClassDefBuilder2::new(false);
    builder.add(make_glyph_class([6, 10]));
    let (cls, _) = builder.build();
    assert_eq!(cls.get(GlyphId16::new(6)), 1);

    let mut builder = ClassDefBuilder2::new(true);
    builder.add(make_glyph_class([6, 10]));
    let (cls, _) = builder.build();
    assert_eq!(cls.get(GlyphId16::new(6)), 0);
    assert_eq!(cls.get(GlyphId16::new(10)), 0);
}

#[test]
fn largest_class_gets_lowest_id() {
    let mut builder = ClassDefBuilder2::new(false);
    builder.add(make_glyph_class([1, 12]));
    builder.add(make_glyph_class([7, 8, 9]));
    builder.add(make_glyph_class([3, 4]));
    let (cls, mapping) = builder.build();
    let ids: Vec<(Vec<u16>, u16)> = mapping
        .iter()
        .map(|(class, id)| (class.items().iter().map(|g| g.to_u16()).collect(), *id))
        .collect();
    assert_eq!(ids, vec![(vec![7, 8, 9], 1), (vec![1, 12], 2), (vec![3, 4], 3)]);
    assert_eq!(cls.get(GlyphId16::new(9)), 1);
    assert_eq!(cls.get(GlyphId16::new(1)), 2);
    assert_eq!(cls.get(GlyphId16::new(12)), 2);
    assert_eq!(cls.get(GlyphId16::new(4)), 3);
    assert_eq!(cls.get(GlyphId16::new(5)), 0);
}

#[test]
fn class_zero_is_used_on_request() {
    let mut builder = ClassDefBuilder2::new(true);
    builder.add(make_glyph_class([20]));
    builder.add(make_glyph_class([30, 31]));
    let (cls, mapping) = builder.build();
    assert_eq!(mapping[0].0.items(), make_glyph_class([30, 31]).items());
    assert_eq!(mapping[0].1, 0);
    assert_eq!(mapping[1].1, 1);
    assert_eq!(cls.get(GlyphId16::new(20)), 1);
    assert_eq!(cls.get(GlyphId16::new(30)), 0);
}

#[test]
fn ties_go_to_the_smallest_glyph() {
    let mut builder = ClassDefBuilder2::new(false);
    builder.add(make_glyph_class([9, 5]));
    builder.add(make_glyph_class([8, 2]));
    builder.add(make_glyph_class([7, 3]));
    let (_, mapping) = builder.build();
    let firsts: Vec<u16> = mapping.iter().map(|(class, _)| class.items()[1].to_u16()).collect();
    assert_eq!(firsts, vec![2, 3, 5]);
}

#[test]
fn classes_may_not_share_glyphs() {
    let mut builder = ClassDefBuilder2::new(false);
    let one = make_glyph_class([1, 2, 3, 4]);
    assert!(builder.can_add(&one));
    builder.add(one.duplicate());
    assert!(builder.can_add(&one));
    assert!(!builder.can_add(&make_glyph_class([4, 3, 2, 1])));
    assert!(!builder.can_add(&make_glyph_class([1, 5, 6, 7])));
    assert!(builder.can_add(&make_glyph_class([5, 6, 7])));
    builder.add(one);
    let (_, mapping) = builder.build();
    assert_eq!(mapping.len(), 1);
}

#[test]
fn builder_counts_its_classes() {
    let mut builder = ClassDefBuilder2::new(true);
    assert_eq!(builder.len(), 0);
    assert!(builder.use_class_0());
    builder.add(make_glyph_class([1]));
    builder.add(make_glyph_class([1]));
    builder.add(make_glyph_class([2, 3]));
    assert_eq!(builder.len(), 2);
    assert!(!ClassDefBuilder2::new(false).use_class_0());
}

#[test]
fn empty_builder_builds_empty_table() {
    let (cls, mapping) = ClassDefBuilder2::new(false).build();
    assert!(mapping.is_empty());
    assert_eq!(cls.get(GlyphId16::new(0)), 0);
    assert_eq!(cls.get(GlyphId16::new(77)), 0);
}
