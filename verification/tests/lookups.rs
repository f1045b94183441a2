use fea_rs::compile::lookups::contextual::ContextualLookupBuilder;
use fea_rs::compile::lookups::features::{PosSubBuilder, TooManyFeatures};
use fea_rs::compile::lookups::gpos::{
    Attachment, MarkToBaseBuilder, MarkToBaseRule, MarkToLigBuilder, MarkToLigRule,
    MarkToMarkBuilder, MarkToMarkRule, PreviouslyAssignedClass,
};
use fea_rs::compile::lookups::gsub::{is_ascending, SingleSubBuilder, SingleSubRule};
use fea_rs::compile::lookups::kinds::is_lookup_kind;
use fea_rs::compile::lookups::{
    is_gpos_rule, split_lookups, AllLookups, Builder, FeatureKey, LookupBuilder, LookupFlag,
    LookupFlagInfo, LookupId, PositionLookup, SomeLookup, SubstitutionLookup,
};
use fea_rs::compile::tables;
use fea_rs::compile::tables::ClassId;
use fea_rs::compile::tags;
use fea_rs::kind::Kind;
use fea_rs::types::{Anchor, GlyphId, GlyphOrClass, Tag, ValueRecord};

fn no_flags() -> LookupFlagInfo {
    LookupFlagInfo::new(LookupFlag::empty(), None)
}

fn key(feature: &[u8; 4], script: &[u8; 4], language: &[u8; 4]) -> FeatureKey {
    FeatureKey { feature: Tag::new(feature), language: Tag::new(language), script: Tag::new(script) }
}

fn glyph(id: u16) -> GlyphOrClass {
    GlyphOrClass::Glyph(GlyphId(id))
}

fn nested(lookups: &AllLookups, index: usize) -> Vec<Vec<LookupId>> {
    match &lookups.gsub_lookups()[index] {
        SubstitutionLookup::ChainedContextual(lookup) => lookup.subtables[0]
            .0
            .0
            .rules
            .iter()
            .flat_map(|rule| rule.context.iter().map(|(_, ids)| ids.clone()))
            .collect(),
        other => panic!("not a chaining lookup: {:?}", other),
    }
}

#[test]
fn split_lookups_mixed_feature() {
    let ids = [LookupId::Gpos(2), LookupId::Gsub(0), LookupId::Gpos(5), LookupId::Gsub(1)];
    assert_eq!(split_lookups(&ids), (vec![2, 5], vec![0, 1]));
}

#[test]
fn split_lookups_leaves_empty_out() {
    assert_eq!(split_lookups(&[]), (vec![], vec![]));
    assert_eq!(split_lookups(&[LookupId::Empty]), (vec![], vec![]));
    assert_eq!(split_lookups(&[LookupId::Gsub(4), LookupId::Empty]), (vec![], vec![4]));
    assert_eq!(
        split_lookups(&[LookupId::Gpos(1), LookupId::Empty, LookupId::Gsub(2), LookupId::Gpos(1)]),
        (vec![1, 1], vec![2])
    );
    assert_eq!(split_lookups(&[LookupId::Gpos(65535)]), (vec![65535], vec![]));
}

#[test]
fn lookup_id_operations() {
    assert_eq!(LookupId::Gpos(3).to_raw(), 3);
    assert_eq!(LookupId::Gsub(4).to_raw(), 4);
    assert_eq!(LookupId::Empty.to_raw(), usize::MAX);
    let mut id = LookupId::Gsub(3);
    id.adjust_if_gsub(2);
    assert_eq!(id, LookupId::Gsub(5));
    let mut id = LookupId::Gpos(3);
    id.adjust_if_gsub(2);
    assert_eq!(id, LookupId::Gpos(3));
    let mut id = LookupId::Empty;
    id.adjust_if_gsub(2);
    assert_eq!(id, LookupId::Empty);
    assert_eq!(LookupId::Gpos(7).to_gpos_id_or_die(), 7);
    assert_eq!(LookupId::Gsub(9).to_gsub_id_or_die(), 9);
}

#[test]
fn rule_kinds() {
    for kind in [
        Kind::GposType1,
        Kind::GposType2,
        Kind::GposType3,
        Kind::GposType4,
        Kind::GposType5,
        Kind::GposType6,
        Kind::GposType7,
        Kind::GposType8,
    ] {
        assert!(is_gpos_rule(kind));
        assert!(is_lookup_kind(kind));
    }
    for kind in [
        Kind::GsubType1,
        Kind::GsubType2,
        Kind::GsubType3,
        Kind::GsubType4,
        Kind::GsubType5,
        Kind::GsubType6,
        Kind::GsubType8,
    ] {
        assert!(!is_gpos_rule(kind));
        assert!(is_lookup_kind(kind));
    }
    assert!(!is_lookup_kind(Kind::GsubType7));
    assert!(!is_lookup_kind(Kind::Ident));
    assert!(!is_gpos_rule(Kind::GposNode));
}

#[test]
fn flag_info() {
    let mut info = LookupFlagInfo::new(LookupFlag::from_bits(9), Some(3));
    assert_eq!(info.flags.to_bits(), 9);
    info.clear();
    assert_eq!(info, LookupFlagInfo::new(LookupFlag::empty(), None));
}

#[test]
fn sequencing_rules_into_lookups() {
    let mut all = AllLookups::new();
    assert!(!all.has_current());
    assert!(all.needs_new_lookup(Kind::GsubType1));
    assert!(!all.add_subtable_break());
    assert_eq!(all.start_lookup(Kind::GsubType1, no_flags()), None);
    assert!(all.has_current());
    assert!(!all.needs_new_lookup(Kind::GsubType1));
    assert!(all.needs_new_lookup(Kind::GsubType2));
    all.current_mut().unwrap().add_gsub_type_1(GlyphId(1), GlyphId(2));
    assert!(all.add_subtable_break());
    all.current_mut().unwrap().add_gsub_type_1(GlyphId(3), GlyphId(4));

    assert_eq!(all.start_lookup(Kind::GposType1, no_flags()), Some(LookupId::Gsub(0)));
    all.current_mut().unwrap().add_gpos_type_1(GlyphId(1), ValueRecord::new());
    assert_eq!(all.start_lookup(Kind::GsubType4, no_flags()), Some(LookupId::Gpos(0)));
    all.current_mut().unwrap().add_gsub_type_4(vec![GlyphId(1), GlyphId(2)], GlyphId(9));
    assert_eq!(all.finish_current(), Some((LookupId::Gsub(1), None)));
    assert_eq!(all.finish_current(), None);

    assert_eq!(all.gsub_lookups().len(), 2);
    assert_eq!(all.gpos_lookups().len(), 1);
    match &all.gsub_lookups()[0] {
        SubstitutionLookup::Single(lookup) => {
            assert_eq!(lookup.subtables.len(), 2);
            assert_eq!(
                lookup.subtables[0].rules(),
                &[SingleSubRule { target: GlyphId(1), replacement: GlyphId(2) }]
            );
            assert_eq!(
                lookup.subtables[1].rules(),
                &[SingleSubRule { target: GlyphId(3), replacement: GlyphId(4) }]
            );
        }
        other => panic!("unexpected lookup {:?}", other),
    }
    assert!(matches!(all.gsub_lookups()[1], SubstitutionLookup::Ligature(_)));
    assert!(matches!(all.gpos_lookups()[0], PositionLookup::Single(_)));
}

#[test]
fn new_lookups_have_the_kind_asked_for() {
    let plain = [
        Kind::GposType1,
        Kind::GposType2,
        Kind::GposType3,
        Kind::GposType4,
        Kind::GposType5,
        Kind::GposType6,
        Kind::GposType8,
        Kind::GsubType1,
        Kind::GsubType2,
        Kind::GsubType3,
        Kind::GsubType4,
        Kind::GsubType6,
        Kind::GsubType8,
    ];
    for kind in plain {
        assert_eq!(SomeLookup::new(kind, LookupFlag::from_bits(1), Some(2)).kind(), kind);
    }
    assert_eq!(SomeLookup::new(Kind::GposType7, LookupFlag::empty(), None).kind(), Kind::GposType8);
    assert_eq!(SomeLookup::new(Kind::GsubType5, LookupFlag::empty(), None).kind(), Kind::GsubType6);
}

#[test]
fn named_lookup_binding() {
    let mut all = AllLookups::new();
    all.start_named("Foo".into());
    assert_eq!(all.finish_current(), Some((LookupId::Empty, Some("Foo".into()))));
    assert_eq!(all.get_named("Foo"), Some(LookupId::Empty));
    assert_eq!(all.get_named("Bar"), None);
    assert!(all.gsub_lookups().is_empty());
    assert!(all.gpos_lookups().is_empty());

    all.start_named("Bar".into());
    all.start_lookup(Kind::GposType1, no_flags());
    all.current_mut().unwrap().add_gpos_type_1(GlyphId(4), ValueRecord::new());
    assert_eq!(all.finish_current(), Some((LookupId::Gpos(0), Some("Bar".into()))));
    assert_eq!(all.get_named("Bar"), Some(LookupId::Gpos(0)));
    assert_eq!(all.get_named("Foo"), Some(LookupId::Empty));

    all.start_named("Baz".into());
    all.start_lookup(Kind::GsubType1, no_flags());
    assert_eq!(all.finish_current(), Some((LookupId::Gsub(0), Some("Baz".into()))));
    assert_eq!(all.get_named("Baz"), Some(LookupId::Gsub(0)));

    let (gsub, gpos) = all.build(&Vec::new(), &Vec::new()).unwrap();
    assert_eq!(gsub.unwrap().lookups.len(), 1);
    assert_eq!(gpos.unwrap().lookups.len(), 1);
}

#[test]
fn named_empty_block_gives_no_tables() {
    let mut all = AllLookups::new();
    all.start_named("Foo".into());
    all.finish_current();
    assert_eq!(all.get_named("Foo"), Some(LookupId::Empty));
    let features = vec![(key(b"test", b"DFLT", b"dflt"), vec![LookupId::Empty])];
    let (gsub, gpos) = all.build(&features, &Vec::new()).unwrap();
    assert!(gsub.is_none());
    assert!(gpos.is_none());
}

#[test]
fn contextual_lookup_is_followed_by_its_own_lookups() {
    let mut all = AllLookups::new();
    all.start_lookup(Kind::GsubType1, no_flags());
    all.start_lookup(Kind::GsubType6, no_flags());
    {
        let context = all.current_mut().unwrap().as_gsub_contextual();
        assert_eq!(context.root_id, LookupId::Gsub(1));
        let first = context.add_anon_gsub_type_1(GlyphId(10), GlyphId(11));
        let second = context.add_anon_gsub_type_1(GlyphId(12), GlyphId(13));
        let third = context.add_anon_gsub_type_1(GlyphId(10), GlyphId(14));
        assert_eq!(first, LookupId::Gsub(2));
        assert_eq!(second, LookupId::Gsub(2));
        assert_eq!(third, LookupId::Gsub(3));
    }
    all.current_mut().unwrap().add_contextual_rule(
        vec![],
        vec![(glyph(10), vec![LookupId::Gsub(2)]), (glyph(12), vec![LookupId::Gsub(3)])],
        vec![],
    );
    assert_eq!(all.start_lookup(Kind::GsubType2, no_flags()), Some(LookupId::Gsub(1)));
    assert_eq!(all.finish_current(), Some((LookupId::Gsub(4), None)));
    let kinds: Vec<&str> = all
        .gsub_lookups()
        .iter()
        .map(|l| match l {
            SubstitutionLookup::Single(_) => "single",
            SubstitutionLookup::Multiple(_) => "multiple",
            SubstitutionLookup::ChainedContextual(_) => "chain",
            _ => "other",
        })
        .collect();
    assert_eq!(kinds, vec!["single", "chain", "single", "single", "multiple"]);
    match &all.gsub_lookups()[2] {
        SubstitutionLookup::Single(lookup) => assert_eq!(lookup.subtables[0].len(), 2),
        other => panic!("unexpected lookup {:?}", other),
    }
}

#[test]
fn anonymous_positioning_lookups() {
    let mut context: ContextualLookupBuilder<PositionLookup> =
        ContextualLookupBuilder::new(LookupFlag::from_bits(8), Some(1));
    context.root_id = LookupId::Gpos(5);
    let record = ValueRecord { x_advance: Some(10), ..ValueRecord::new() };
    assert_eq!(context.add_anon_gpos_type_1(GlyphId(1), record), LookupId::Gpos(6));
    assert_eq!(context.add_anon_gpos_type_1(GlyphId(2), record), LookupId::Gpos(6));
    assert_eq!(context.add_anon_gpos_type_1(GlyphId(1), ValueRecord::new()), LookupId::Gpos(7));
    assert_eq!(context.anon_lookups.len(), 2);
    match &context.anon_lookups[1] {
        PositionLookup::Single(lookup) => {
            assert_eq!(lookup.flags.to_bits(), 8);
            assert_eq!(lookup.mark_set, Some(1));
        }
        other => panic!("unexpected lookup {:?}", other),
    }
}

#[test]
fn contextual_lookups_are_stored_as_chaining() {
    let mut all = AllLookups::new();
    all.start_lookup(Kind::GposType7, no_flags());
    all.current_mut().unwrap().add_contextual_rule(
        vec![],
        vec![(glyph(1), vec![])],
        vec![],
    );
    all.start_lookup(Kind::GsubType5, no_flags());
    all.finish_current();
    assert!(matches!(all.gpos_lookups()[0], PositionLookup::ChainedContextual(_)));
    assert!(matches!(all.gsub_lookups()[0], SubstitutionLookup::ChainedContextual(_)));
}

#[test]
fn aalt_renumbers_nested_references() {
    let mut all = AllLookups::new();
    all.start_lookup(Kind::GsubType6, no_flags());
    all.current_mut().unwrap().add_contextual_rule(
        vec![glyph(1)],
        vec![
            (glyph(2), vec![LookupId::Gsub(3), LookupId::Gpos(3), LookupId::Empty]),
            (glyph(3), vec![]),
            (glyph(4), vec![LookupId::Gsub(0)]),
        ],
        vec![glyph(5)],
    );
    all.finish_current();
    assert_eq!(
        nested(&all, 0),
        vec![
            vec![LookupId::Gsub(3), LookupId::Gpos(3), LookupId::Empty],
            vec![],
            vec![LookupId::Gsub(0)]
        ]
    );

    let ids = all.insert_aalt_lookups(vec![(GlyphId(5), vec![GlyphId(6)])]);
    assert_eq!(ids, vec![LookupId::Gsub(0)]);
    assert_eq!(all.gsub_lookups().len(), 2);
    assert!(matches!(all.gsub_lookups()[0], SubstitutionLookup::Single(_)));
    assert_eq!(
        nested(&all, 1),
        vec![
            vec![LookupId::Gsub(4), LookupId::Gpos(3), LookupId::Empty],
            vec![],
            vec![LookupId::Gsub(1)]
        ]
    );
}

#[test]
fn aalt_makes_up_to_two_lookups() {
    let mut all = AllLookups::new();
    all.start_lookup(Kind::GsubType6, no_flags());
    all.current_mut().unwrap().add_contextual_rule(
        vec![],
        vec![(glyph(2), vec![LookupId::Gsub(3)])],
        vec![],
    );
    all.finish_current();
    assert_eq!(all.insert_aalt_lookups(vec![]), vec![]);
    assert_eq!(nested(&all, 0), vec![vec![LookupId::Gsub(3)]]);

    let ids = all.insert_aalt_lookups(vec![
        (GlyphId(1), vec![GlyphId(2)]),
        (GlyphId(3), vec![GlyphId(4), GlyphId(5)]),
        (GlyphId(6), vec![GlyphId(7)]),
    ]);
    assert_eq!(ids, vec![LookupId::Gsub(0), LookupId::Gsub(1)]);
    assert_eq!(nested(&all, 2), vec![vec![LookupId::Gsub(5)]]);
    match &all.gsub_lookups()[0] {
        SubstitutionLookup::Single(lookup) => {
            assert_eq!(lookup.flags, LookupFlag::empty());
            assert_eq!(lookup.mark_set, None);
            assert_eq!(
                lookup.subtables[0].rules(),
                &[
                    SingleSubRule { target: GlyphId(1), replacement: GlyphId(2) },
                    SingleSubRule { target: GlyphId(6), replacement: GlyphId(7) }
                ]
            );
        }
        other => panic!("unexpected lookup {:?}", other),
    }
    match &all.gsub_lookups()[1] {
        SubstitutionLookup::Alternate(lookup) => {
            assert_eq!(lookup.subtables[0].len(), 1);
            assert_eq!(lookup.subtables[0].rules()[0].alternates, vec![GlyphId(4), GlyphId(5)]);
        }
        other => panic!("unexpected lookup {:?}", other),
    }

    let ids = all.insert_aalt_lookups(vec![(GlyphId(3), vec![])]);
    assert_eq!(ids, vec![LookupId::Gsub(0)]);
    assert!(matches!(all.gsub_lookups()[0], SubstitutionLookup::Alternate(_)));
    assert_eq!(nested(&all, 3), vec![vec![LookupId::Gsub(6)]]);
}

#[test]
fn aalt_relevant_lookups() {
    let mut all = AllLookups::new();
    all.start_lookup(Kind::GsubType1, no_flags());
    all.start_lookup(Kind::GsubType3, no_flags());
    all.start_lookup(Kind::GsubType4, no_flags());
    all.start_lookup(Kind::GsubType6, no_flags());
    all.current_mut().unwrap().add_contextual_rule(
        vec![],
        vec![
            (glyph(1), vec![LookupId::Gsub(0), LookupId::Gsub(1)]),
            (glyph(2), vec![LookupId::Gsub(2), LookupId::Gsub(0), LookupId::Gsub(9)]),
        ],
        vec![],
    );
    all.finish_current();
    assert_eq!(all.aalt_lookups(LookupId::Gsub(0)).len(), 1);
    assert!(matches!(all.aalt_lookups(LookupId::Gsub(1))[0], SubstitutionLookup::Alternate(_)));
    assert!(all.aalt_lookups(LookupId::Gsub(2)).is_empty());
    assert!(all.aalt_lookups(LookupId::Gpos(0)).is_empty());
    assert!(all.aalt_lookups(LookupId::Empty).is_empty());
    assert!(all.aalt_lookups(LookupId::Gsub(17)).is_empty());
    let referenced = all.aalt_lookups(LookupId::Gsub(3));
    assert_eq!(referenced.len(), 2);
    assert!(referenced.iter().all(|l| matches!(l, SubstitutionLookup::Single(_))));
    assert!(all.get_gsub_lookup(&LookupId::Gsub(3)).is_some());
    assert!(all.get_gsub_lookup(&LookupId::Gsub(4)).is_none());
}

#[test]
fn glyph_classes_are_inferred_from_attachment_lookups() {
    let anchor = Anchor::new(0, 0);
    let at = |glyph: u16| Attachment { glyph: GlyphId(glyph), class: 0, anchor };
    let mut all = AllLookups::new();
    all.start_lookup(Kind::GposType4, no_flags());
    all.current_mut().unwrap().with_gpos_type_4(MarkToBaseRule::Mark(at(10)));
    all.current_mut().unwrap().with_gpos_type_4(MarkToBaseRule::Base(at(1)));
    all.current_mut().unwrap().with_gpos_type_4(MarkToBaseRule::Base(at(2)));
    all.start_lookup(Kind::GposType1, no_flags());
    all.current_mut().unwrap().add_gpos_type_1(GlyphId(50), ValueRecord::new());
    all.start_lookup(Kind::GposType5, no_flags());
    all.current_mut().unwrap().with_gpos_type_5(MarkToLigRule::Ligature {
        glyph: GlyphId(20),
        class: 0,
        components: vec![Some(anchor), None],
    });
    all.current_mut().unwrap().with_gpos_type_5(MarkToLigRule::Mark(at(11)));
    all.start_lookup(Kind::GposType6, no_flags());
    all.current_mut().unwrap().with_gpos_type_6(MarkToMarkRule::Mark2(at(12)));
    all.current_mut().unwrap().with_gpos_type_6(MarkToMarkRule::Mark1(at(13)));
    all.start_lookup(Kind::GsubType1, no_flags());
    all.current_mut().unwrap().add_gsub_type_1(GlyphId(60), GlyphId(61));
    all.finish_current();
    assert_eq!(
        all.infer_glyph_classes(),
        vec![
            (GlyphId(1), ClassId::Base),
            (GlyphId(2), ClassId::Base),
            (GlyphId(10), ClassId::Mark),
            (GlyphId(20), ClassId::Ligature),
            (GlyphId(11), ClassId::Mark),
            (GlyphId(13), ClassId::Mark),
            (GlyphId(12), ClassId::Mark),
        ]
    );
    assert_eq!(ClassId::Base.to_raw(), 1);
    assert_eq!(ClassId::Ligature.to_raw(), 2);
    assert_eq!(ClassId::Mark.to_raw(), 3);
    assert_eq!(ClassId::Component.to_raw(), 4);
}

#[test]
fn mixed_feature_is_recorded_in_both_tables() {
    let mut all = AllLookups::new();
    for _ in 0..2 {
        all.start_lookup(Kind::GsubType1, no_flags());
    }
    for _ in 0..6 {
        all.start_lookup(Kind::GposType1, no_flags());
    }
    all.finish_current();
    let feature = key(b"test", b"latn", b"dflt");
    let features = vec![(
        feature,
        vec![LookupId::Gpos(2), LookupId::Gsub(0), LookupId::Gpos(5), LookupId::Gsub(1)],
    )];
    let (gsub, gpos) = all.build(&features, &Vec::new()).unwrap();
    let gsub = gsub.unwrap();
    let gpos = gpos.unwrap();
    assert_eq!(gpos.features.len(), 1);
    assert_eq!(gpos.features[0].feature_tag, Tag::new(b"test"));
    assert_eq!(gpos.features[0].lookup_list_indices, vec![2, 5]);
    assert_eq!(gsub.features.len(), 1);
    assert_eq!(gsub.features[0].feature_tag, Tag::new(b"test"));
    assert_eq!(gsub.features[0].lookup_list_indices, vec![0, 1]);
    for scripts in [&gsub.scripts, &gpos.scripts] {
        assert_eq!(scripts.len(), 1);
        assert_eq!(scripts[0].script_tag, Tag::new(b"latn"));
        let default = scripts[0].script.default_lang_sys.as_ref().unwrap();
        assert_eq!(default.feature_indices, vec![0]);
        assert_eq!(default.required_feature_index, 0xFFFF);
        assert!(scripts[0].script.lang_sys_records.is_empty());
    }
    assert_eq!(gsub.lookups.len(), 2);
    assert_eq!(gpos.lookups.len(), 6);
}

#[test]
fn size_feature_goes_to_gpos_without_lookups() {
    let all = AllLookups::new();
    let size = FeatureKey {
        feature: tags::size(),
        script: tags::script_dflt(),
        language: tags::lang_dflt(),
    };
    let features = vec![(size, vec![LookupId::Gsub(0), LookupId::Gpos(1)])];
    let (gsub, gpos) = all.build(&features, &vec![size]).unwrap();
    assert!(gsub.is_none());
    let gpos = gpos.unwrap();
    assert_eq!(gpos.features.len(), 1);
    assert_eq!(gpos.features[0].feature_tag, Tag::new(b"size"));
    assert!(gpos.features[0].lookup_list_indices.is_empty());
    let default = gpos.scripts[0].script.default_lang_sys.as_ref().unwrap();
    assert_eq!(default.required_feature_index, 0);
    assert!(default.feature_indices.is_empty());
}

#[test]
fn features_are_deduplicated() {
    let mut builder: PosSubBuilder<SubstitutionLookup> = PosSubBuilder::new(Vec::new());
    builder.add(key(b"liga", b"latn", b"dflt"), vec![0, 1], false).unwrap();
    builder.add(key(b"liga", b"cyrl", b"dflt"), vec![0, 1], false).unwrap();
    builder.add(key(b"liga", b"latn", b"TRK "), vec![1, 0], false).unwrap();
    builder.add(key(b"calt", b"latn", b"dflt"), vec![0, 1], false).unwrap();
    builder.add(key(b"liga", b"latn", b"NLD "), vec![0, 1], true).unwrap();
    let (_, scripts, features) = builder.build_raw().unwrap();
    let listed: Vec<(Tag, Vec<u16>)> =
        features.iter().map(|f| (f.feature_tag, f.lookup_list_indices.clone())).collect();
    assert_eq!(
        listed,
        vec![
            (Tag::new(b"liga"), vec![0, 1]),
            (Tag::new(b"liga"), vec![1, 0]),
            (Tag::new(b"calt"), vec![0, 1]),
        ]
    );
    assert_eq!(scripts.len(), 2);
    assert_eq!(scripts[0].script_tag, Tag::new(b"cyrl"));
    assert_eq!(scripts[0].script.default_lang_sys.as_ref().unwrap().feature_indices, vec![0]);
    assert_eq!(scripts[1].script_tag, Tag::new(b"latn"));
    let latn = &scripts[1].script;
    assert_eq!(latn.default_lang_sys.as_ref().unwrap().feature_indices, vec![0, 2]);
    let languages: Vec<Tag> = latn.lang_sys_records.iter().map(|r| r.lang_sys_tag).collect();
    assert_eq!(languages, vec![Tag::new(b"NLD "), Tag::new(b"TRK ")]);
    assert_eq!(latn.lang_sys_records[0].lang_sys.required_feature_index, 0);
    assert!(latn.lang_sys_records[0].lang_sys.feature_indices.is_empty());
    assert_eq!(latn.lang_sys_records[1].lang_sys.feature_indices, vec![1]);
    assert_eq!(latn.lang_sys_records[1].lang_sys.required_feature_index, 0xFFFF);
}

#[test]
fn scripts_and_languages_are_ordered_by_tag() {
    let mut builder: PosSubBuilder<PositionLookup> = PosSubBuilder::new(Vec::new());
    let order = [
        (b"latn", b"TRK "),
        (b"DFLT", b"dflt"),
        (b"latn", b"dflt"),
        (b"arab", b"URD "),
        (b"latn", b"AZE "),
        (b"arab", b"ARA "),
    ];
    for (script, language) in order {
        builder.add(key(b"kern", script, language), vec![0], false).unwrap();
    }
    let (_, scripts, _) = builder.build_raw().unwrap();
    let seen: Vec<(Tag, bool, Vec<Tag>)> = scripts
        .iter()
        .map(|s| {
            (
                s.script_tag,
                s.script.default_lang_sys.is_some(),
                s.script.lang_sys_records.iter().map(|r| r.lang_sys_tag).collect(),
            )
        })
        .collect();
    assert_eq!(
        seen,
        vec![
            (Tag::new(b"DFLT"), true, vec![]),
            (Tag::new(b"arab"), false, vec![Tag::new(b"ARA "), Tag::new(b"URD ")]),
            (Tag::new(b"latn"), true, vec![Tag::new(b"AZE "), Tag::new(b"TRK ")]),
        ]
    );
}

#[test]
fn empty_builder_builds_nothing() {
    let builder: PosSubBuilder<SubstitutionLookup> = PosSubBuilder::new(Vec::new());
    assert!(builder.build_raw().is_none());
    let builder: PosSubBuilder<PositionLookup> = PosSubBuilder::new(Vec::new());
    assert!(builder.build().is_none());
}

#[test]
fn too_many_features() {
    let mut builder: PosSubBuilder<SubstitutionLookup> = PosSubBuilder::new(Vec::new());
    let feature = |index: u32| FeatureKey {
        feature: Tag(index),
        script: tags::script_dflt(),
        language: tags::lang_dflt(),
    };
    for index in 0..=0xFFFFu32 {
        assert_eq!(builder.add(feature(index), vec![0], true), Ok(()));
    }
    assert_eq!(builder.add(feature(0), vec![0], true), Ok(()));
    assert_eq!(builder.add(feature(0xFFFF), vec![0], false), Ok(()));
    assert_eq!(builder.add(feature(0x10000), vec![0], true), Err(TooManyFeatures));
    assert_eq!(builder.add(feature(0), vec![1], true), Err(TooManyFeatures));
    let (_, scripts, features) = builder.build_raw().unwrap();
    assert_eq!(features.len(), 0x10000);
    assert_eq!(features[0xFFFF].feature_tag, Tag(0xFFFF));
    let default = scripts[0].script.default_lang_sys.as_ref().unwrap();
    assert_eq!(default.required_feature_index, 0);
    assert_eq!(default.feature_indices, vec![0xFFFF]);
}

#[test]
fn lookups_are_assembled_without_empty_subtables() {
    let mut single = SingleSubBuilder::new();
    single.insert(GlyphId(1), GlyphId(2));
    let subtables = vec![SingleSubBuilder::new(), single, SingleSubBuilder::new()];
    let lookup = SubstitutionLookup::Single(LookupBuilder::new_with_lookups(
        LookupFlag::from_bits(0x10),
        Some(7),
        subtables,
    ));
    match lookup.build() {
        tables::SubstitutionLookup::Single(raw) => {
            assert_eq!(raw.lookup_flag.to_bits(), 0x10);
            assert_eq!(raw.mark_filtering_set, Some(7));
            assert_eq!(raw.subtables.len(), 1);
            assert_eq!(
                raw.subtables[0].rules,
                vec![SingleSubRule { target: GlyphId(1), replacement: GlyphId(2) }]
            );
        }
        other => panic!("unexpected lookup {:?}", other),
    }
    let lookup: LookupBuilder<SingleSubBuilder> = LookupBuilder::new(LookupFlag::empty(), None);
    let raw = lookup.build();
    assert_eq!(raw.mark_filtering_set, None);
    assert!(raw.subtables.is_empty());
}

#[test]
fn lookup_builder_breaks() {
    let mut lookup: LookupBuilder<SingleSubBuilder> = LookupBuilder::new(LookupFlag::empty(), None);
    lookup.last_mut().unwrap().insert(GlyphId(1), GlyphId(2));
    lookup.force_subtable_break();
    assert_eq!(lookup.iter_subtables().len(), 2);
    assert_eq!(lookup.iter_subtables()[0].len(), 1);
    assert!(lookup.iter_subtables()[1].is_empty());
    let mut empty: LookupBuilder<SingleSubBuilder> =
        LookupBuilder::new_with_lookups(LookupFlag::empty(), None, Vec::new());
    assert!(empty.last_mut().is_none());
}

#[test]
fn later_rule_governs() {
    let mut rules = SingleSubBuilder::new();
    assert_eq!(rules.get(GlyphId(1)), None);
    assert!(rules.can_add(GlyphId(1), GlyphId(2)));
    rules.insert(GlyphId(1), GlyphId(2));
    assert!(rules.can_add(GlyphId(1), GlyphId(2)));
    assert!(!rules.can_add(GlyphId(1), GlyphId(3)));
    rules.insert(GlyphId(1), GlyphId(3));
    assert_eq!(rules.get(GlyphId(1)), Some(GlyphId(3)));
    assert_eq!(rules.len(), 2);
}

#[test]
fn a_mark_has_one_class() {
    let anchor = Anchor::new(1, 2);
    let at = |glyph: u16, class: u16| Attachment { glyph: GlyphId(glyph), class, anchor };

    let mut rules = MarkToBaseBuilder::new();
    assert_eq!(rules.insert_mark(at(10, 1)), Ok(()));
    assert_eq!(rules.insert_mark(at(11, 2)), Ok(()));
    assert_eq!(rules.insert_mark(at(10, 1)), Ok(()));
    rules.insert_base(at(10, 2));
    assert_eq!(
        rules.insert_mark(at(10, 2)),
        Err(PreviouslyAssignedClass { glyph_id: GlyphId(10), class: 1 })
    );
    assert_eq!(rules.len(), 4);

    let mut rules = MarkToLigBuilder::new();
    rules.insert_ligature(GlyphId(5), 1, vec![Some(anchor), None]);
    assert_eq!(rules.insert_mark(at(5, 3)), Ok(()));
    assert_eq!(
        rules.insert_mark(at(5, 4)),
        Err(PreviouslyAssignedClass { glyph_id: GlyphId(5), class: 3 })
    );
    assert_eq!(rules.len(), 2);

    let mut rules = MarkToMarkBuilder::new();
    rules.insert_mark2(at(7, 9));
    assert_eq!(rules.insert_mark1(at(7, 1)), Ok(()));
    assert_eq!(
        rules.insert_mark1(at(7, 2)),
        Err(PreviouslyAssignedClass { glyph_id: GlyphId(7), class: 1 })
    );
    assert_eq!(rules.rules(), &[MarkToMarkRule::Mark2(at(7, 9)), MarkToMarkRule::Mark1(at(7, 1))]);
}

#[test]
fn lookup_flag_bits() {
    assert_eq!(LookupFlag::empty().to_bits(), 0);
    let flags = LookupFlag::from_bits(LookupFlag::IGNORE_MARKS | LookupFlag::RIGHT_TO_LEFT);
    assert_eq!(flags.to_bits(), 9);
    assert_eq!(LookupFlag::USE_MARK_FILTERING_SET, 0x10);
    assert_eq!(LookupFlag::IGNORE_BASE_GLYPHS | LookupFlag::IGNORE_LIGATURES, 6);
    assert_eq!(LookupFlag::MARK_ATTACHMENT_TYPE_MASK, 0xFF00);
}

#[test]
fn feature_keys_order_by_feature_first() {
    let a = key(b"calt", b"latn", b"TRK ");
    let b = key(b"liga", b"arab", b"ARA ");
    let c = key(b"liga", b"arab", b"URD ");
    let d = key(b"liga", b"latn", b"ARA ");
    assert!(a < b && b < d && d < c);
    assert_eq!(tags::aalt(), Tag::new(b"aalt"));
    assert_eq!(tags::size(), Tag::new(b"size"));
    assert_eq!(tags::lang_dflt(), Tag::new(b"dflt"));
    assert_eq!(tags::script_dflt(), Tag::new(b"DFLT"));
}

#[test]
fn orders_of_a_contextual_rule() {
    let mut all = AllLookups::new();
    all.start_lookup(Kind::GsubType6, no_flags());
    all.current_mut().unwrap().add_contextual_rule(
        vec![glyph(1)],
        vec![
            (glyph(2), vec![LookupId::Gsub(3), LookupId::Empty, LookupId::Gsub(1)]),
            (glyph(3), vec![]),
            (glyph(4), vec![LookupId::Gpos(9)]),
        ],
        vec![],
    );
    all.finish_current();
    match &all.gsub_lookups()[0] {
        SubstitutionLookup::ChainedContextual(lookup) => {
            let rule = &lookup.subtables[0].0 .0.rules[0];
            assert!(rule.is_chain_rule());
            assert!(rule.is_encodable());
            let orders: Vec<(u16, u16)> = rule
                .sequence_lookups()
                .iter()
                .map(|o| (o.sequence_index, o.lookup_list_index))
                .collect();
            assert_eq!(orders, vec![(0, 3), (0, 1), (2, 9)]);
            assert!(rule.can_bump(2));
            assert!(!rule.can_bump(usize::MAX - 2));
        }
        other => panic!("unexpected lookup {:?}", other),
    }
    assert!(all.can_renumber_gsub(2));
    assert!(!all.can_renumber_gsub(usize::MAX));
    let ids = all.try_insert_aalt_lookups(vec![(GlyphId(1), vec![GlyphId(2)])]);
    assert_eq!(ids, Some(vec![LookupId::Gsub(0)]));
    assert_eq!(nested(&all, 1)[0], vec![LookupId::Gsub(4), LookupId::Empty, LookupId::Gsub(2)]);
}

#[test]
fn aalt_is_refused_where_a_reference_cannot_move() {
    let mut all = AllLookups::new();
    all.start_lookup(Kind::GsubType6, no_flags());
    all.current_mut().unwrap().add_contextual_rule(
        vec![],
        vec![(glyph(2), vec![LookupId::Gsub(usize::MAX)])],
        vec![],
    );
    all.finish_current();
    assert_eq!(AllLookups::count_aalt_lookups(&vec![(GlyphId(1), vec![GlyphId(2)])]), 1);
    assert_eq!(AllLookups::count_aalt_lookups(&vec![]), 0);
    assert_eq!(all.try_insert_aalt_lookups(vec![(GlyphId(1), vec![GlyphId(2)])]), None);
    assert_eq!(all.gsub_lookups().len(), 1);
    assert_eq!(all.try_insert_aalt_lookups(vec![]), Some(vec![]));
}

#[test]
fn reverse_rules_want_ascending_glyphs() {
    assert!(is_ascending(&[]));
    assert!(is_ascending(&[
        (GlyphId(1), GlyphId(9)),
        (GlyphId(2), GlyphId(8)),
        (GlyphId(7), GlyphId(7))
    ]));
    assert!(!is_ascending(&[(GlyphId(1), GlyphId(9)), (GlyphId(1), GlyphId(8))]));
    assert!(!is_ascending(&[(GlyphId(3), GlyphId(9)), (GlyphId(2), GlyphId(8))]));
    let mut all = AllLookups::new();
    all.start_lookup(Kind::GsubType8, no_flags());
    all.current_mut().unwrap().add_gsub_type_8(
        vec![glyph(1)],
        vec![(GlyphId(2), GlyphId(3)), (GlyphId(4), GlyphId(5))],
        vec![glyph(6)],
    );
    all.finish_current();
    match &all.gsub_lookups()[0] {
        SubstitutionLookup::Reverse(lookup) => {
            assert_eq!(lookup.subtables[0].rules()[0].input.len(), 2);
        }
        other => panic!("unexpected lookup {:?}", other),
    }
    assert!(LookupId::Gsub(0xFFFF).is_encodable());
    assert!(!LookupId::Gpos(0x10000).is_encodable());
    assert!(LookupId::Empty.is_encodable());
}
