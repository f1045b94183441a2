//! The assembled tables: lookups, features and scripts in the shape in which
//! they are encoded.

use vstd::prelude::*;

use crate::compile::lookups::contextual::ContextRule;
use crate::compile::lookups::gpos::{
    CursivePosRule, MarkToBaseRule, MarkToLigRule, MarkToMarkRule, PairPosRule, SinglePosRule,
};
use crate::compile::lookups::gsub::{
    AlternateSubRule, LigatureSubRule, MultipleSubRule, ReverseSubRule, SingleSubRule,
};
use crate::compile::lookups::LookupFlag;
use crate::types::Tag;

verus! {

/// The class of a glyph in the glyph definition table.
#[derive(Debug, Clone, Copy, PartialEq, Eq, Hash, Structural)]
pub enum ClassId {
    Base,
    Ligature,
    Mark,
    Component,
}

impl ClassId {
    /// The number that stands for this class in the encoded table.
    pub open spec fn raw(self) -> u16 {
        match self {
            ClassId::Base => 1,
            ClassId::Ligature => 2,
            ClassId::Mark => 3,
            ClassId::Component => 4,
        }
    }

    /// The number that stands for this class in the encoded table.
    pub fn to_raw(self) -> (r: u16)
        ensures
            r == self.raw(),
    {
        match self {
            ClassId::Base => 1,
            ClassId::Ligature => 2,
            ClassId::Mark => 3,
            ClassId::Component => 4,
        }
    }
}

/// One subtable of a lookup: its rules, in the order in which they were given.
#[derive(Debug)]
pub struct Subtable<R> {
    pub rules: Vec<R>,
}

impl<R> View for Subtable<R> {
    type V = Seq<R>;

    open spec fn view(&self) -> Seq<R> {
        self.rules@
    }
}

/// A lookup: its flags, its subtables in order, and the number of its mark
/// filtering set, if it has one.
#[derive(Debug)]
pub struct RawLookup<U> {
    pub lookup_flag: LookupFlag,
    pub subtables: Vec<U>,
    pub mark_filtering_set: Option<u16>,
}

impl<U> RawLookup<U> {
    /// The lookup with the given parts.
    pub fn new(
        lookup_flag: LookupFlag,
        subtables: Vec<U>,
        mark_filtering_set: Option<u16>,
    ) -> (r: Self)
        ensures
            r.lookup_flag == lookup_flag,
            r.subtables == subtables,
            r.mark_filtering_set == mark_filtering_set,
    {
        RawLookup { lookup_flag, subtables, mark_filtering_set }
    }
}

/// A lookup of the positioning table.
#[derive(Debug)]
pub enum PositionLookup {
    Single(RawLookup<Subtable<SinglePosRule>>),
    Pair(RawLookup<Subtable<PairPosRule>>),
    Cursive(RawLookup<Subtable<CursivePosRule>>),
    MarkToBase(RawLookup<Subtable<MarkToBaseRule>>),
    MarkToLig(RawLookup<Subtable<MarkToLigRule>>),
    MarkToMark(RawLookup<Subtable<MarkToMarkRule>>),
    Contextual(RawLookup<Subtable<ContextRule>>),
    ChainContextual(RawLookup<Subtable<ContextRule>>),
}

/// A lookup of the substitution table.
#[derive(Debug)]
pub enum SubstitutionLookup {
    Single(RawLookup<Subtable<SingleSubRule>>),
    Multiple(RawLookup<Subtable<MultipleSubRule>>),
    Alternate(RawLookup<Subtable<AlternateSubRule>>),
    Ligature(RawLookup<Subtable<LigatureSubRule>>),
    Contextual(RawLookup<Subtable<ContextRule>>),
    ChainContextual(RawLookup<Subtable<ContextRule>>),
    Reverse(RawLookup<Subtable<ReverseSubRule>>),
}

/// The features of one language of a script: at most one required feature,
/// and the others in the order in which they were registered.
#[derive(Debug)]
pub struct LangSys {
    /// The position of the required feature in the feature list, or `0xFFFF`
    /// where no feature is required.
    pub required_feature_index: u16,
    /// The positions of the other features in the feature list.
    pub feature_indices: Vec<u16>,
}

/// The value of `required_feature_index` that stands for no required feature.
pub const NO_REQUIRED_FEATURE: u16 = 0xFFFF;

/// A feature: its tag and the positions of its lookups in the lookup list.
#[derive(Debug)]
pub struct FeatureRecord {
    pub feature_tag: Tag,
    pub lookup_list_indices: Vec<u16>,
}

/// A language of a script, with its features.
#[derive(Debug)]
pub struct LangSysRecord {
    pub lang_sys_tag: Tag,
    pub lang_sys: LangSys,
}

/// A script: the features of its default language, if it has one, and its
/// other languages in ascending order of their tags.
#[derive(Debug)]
pub struct Script {
    pub default_lang_sys: Option<LangSys>,
    pub lang_sys_records: Vec<LangSysRecord>,
}

/// A script with its tag.
#[derive(Debug)]
pub struct ScriptRecord {
    pub script_tag: Tag,
    pub script: Script,
}

/// A layout table: scripts in ascending order of their tags, features in the
/// order of their indices, and lookups in the order of theirs.
#[derive(Debug)]
pub struct LayoutTable<L> {
    pub scripts: Vec<ScriptRecord>,
    pub features: Vec<FeatureRecord>,
    pub lookups: Vec<L>,
}

/// The substitution table.
pub type Gsub = LayoutTable<SubstitutionLookup>;

/// The positioning table.
pub type Gpos = LayoutTable<PositionLookup>;

/// The features of one language, as values of the model.
pub struct LangSysView {
    pub required: u16,
    pub features: Seq<u16>,
}

/// A script with its languages, as values of the model.
pub struct ScriptView {
    pub tag: Tag,
    pub default_lang_sys: Option<LangSysView>,
    pub langs: Seq<(Tag, LangSysView)>,
}

/// The model of a language system.
pub open spec fn lang_sys_view(sys: LangSys) -> LangSysView {
    LangSysView { required: sys.required_feature_index, features: sys.feature_indices@ }
}

/// The model of a script with its tag.
pub open spec fn script_record_view(record: ScriptRecord) -> ScriptView {
    ScriptView {
        tag: record.script_tag,
        default_lang_sys: match record.script.default_lang_sys {
            Some(sys) => Some(lang_sys_view(sys)),
            None => None,
        },
        langs: Seq::new(
            record.script.lang_sys_records@.len(),
            |i: int|
                (
                    record.script.lang_sys_records@[i].lang_sys_tag,
                    lang_sys_view(record.script.lang_sys_records@[i].lang_sys),
                ),
        ),
    }
}

/// The model of the scripts of a table.
pub open spec fn script_records_view(records: Seq<ScriptRecord>) -> Seq<ScriptView> {
    Seq::new(records.len(), |i: int| script_record_view(records[i]))
}

/// The model of the features of a table: each with its tag and the
/// positions of its lookups.
pub open spec fn feature_records_view(records: Seq<FeatureRecord>) -> Seq<(Tag, Seq<u16>)> {
    Seq::new(records.len(), |i: int| (records[i].feature_tag, records[i].lookup_list_indices@))
}

impl LangSys {
    /// The language system without features.
    pub fn new() -> (r: LangSys)
        ensures
            r.required_feature_index == NO_REQUIRED_FEATURE,
            r.feature_indices@ == Seq::<u16>::empty(),
    {
        LangSys { required_feature_index: NO_REQUIRED_FEATURE, feature_indices: Vec::new() }
    }
}

} // verus!
