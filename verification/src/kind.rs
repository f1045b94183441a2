//! The kinds of tokens and tree nodes.

use vstd::prelude::*;
use vstd::string::StringSliceAdditionalSpecFns;

verus! {

/// The kind of a token or of a node of the syntax tree.
///
/// Lexical kinds are produced by the scanner; keyword kinds are assigned to
/// identifier bodies found in the keyword table; the remaining kinds are
/// given to tokens and nodes while the tree is built.
#[derive(Clone, Copy, Debug, PartialEq, Eq, PartialOrd, Ord, Hash, Structural)]
pub enum Kind {
    Eof,
    SourceFile,
    Ident,
    String,
    StringUnterminated,
    NumberDec,
    NumberHex,
    NumberHexEmpty,
    NumberFloat,
    Whitespace,
    Comment,
    Semi,
    Comma,
    Backslash,
    Hyphen,
    Eq,
    LBrace,
    RBrace,
    LSquare,
    RSquare,
    LParen,
    RParen,
    LAngle,
    RAngle,
    SingleQuote,
    NamedGlyphClass,
    Cid,
    TableKw,
    LookupKw,
    LanguagesystemKw,
    AnchorDefKw,
    FeatureKw,
    MarkClassKw,
    AnonKw,
    AnchorKw,
    ByKw,
    ContourpointKw,
    CursiveKw,
    DeviceKw,
    EnumKw,
    ExcludeDfltKw,
    FromKw,
    IgnoreKw,
    IgnoreBaseGlyphsKw,
    IgnoreLigaturesKw,
    IgnoreMarksKw,
    IncludeKw,
    IncludeDfltKw,
    LanguageKw,
    LookupflagKw,
    MarkKw,
    MarkAttachmentTypeKw,
    NameIdKw,
    NullKw,
    ParametersKw,
    PosKw,
    RequiredKw,
    RightToLeftKw,
    RsubKw,
    ScriptKw,
    SubKw,
    SubtableKw,
    UseExtensionKw,
    UseMarkFilteringSetKw,
    ValueRecordDefKw,
    Tag,
    Path,
    GlyphName,
    GlyphNameOrRange,
    GlyphRange,
    GlyphClass,
    Metric,
    Label,
    GsubNode,
    GposNode,
    GsubType1,
    GsubType2,
    GsubType3,
    GsubType4,
    GsubType5,
    GsubType6,
    GsubType7,
    GsubType8,
    GposType1,
    GposType2,
    GposType3,
    GposType4,
    GposType5,
    GposType6,
    GposType7,
    GposType8,
}

impl Kind {
    /// Whether a token of this kind is a single fixed spelling, so that its
    /// text adds nothing to its kind.
    pub open spec fn spec_has_contents(self) -> bool {
        self == Kind::Ident || self == Kind::String || self == Kind::StringUnterminated
            || self == Kind::NumberDec || self == Kind::NumberHex || self == Kind::NumberHexEmpty
            || self == Kind::NumberFloat || self == Kind::Whitespace || self == Kind::Comment
            || self == Kind::NamedGlyphClass || self == Kind::Cid || self == Kind::Tag
            || self == Kind::Path || self == Kind::GlyphName || self == Kind::GlyphNameOrRange
            || self == Kind::Metric || self == Kind::Label
    }

    /// Whether the text of a token of this kind carries information beyond
    /// the kind itself.
    #[verifier::when_used_as_spec(spec_has_contents)]
    pub fn has_contents(self) -> (r: bool)
        ensures
            r == self.spec_has_contents(),
    {
        match self {
            Kind::Ident
            | Kind::String
            | Kind::StringUnterminated
            | Kind::NumberDec
            | Kind::NumberHex
            | Kind::NumberHexEmpty
            | Kind::NumberFloat
            | Kind::Whitespace
            | Kind::Comment
            | Kind::NamedGlyphClass
            | Kind::Cid
            | Kind::Tag
            | Kind::Path
            | Kind::GlyphName
            | Kind::GlyphNameOrRange
            | Kind::Metric
            | Kind::Label => true,
            _ => false,
        }
    }
}

/// Whether `word` is the byte spelling of `text`.
pub open spec fn spells(word: Seq<u8>, text: &str) -> bool {
    word == text.spec_bytes()
}

/// Compares two byte slices for equality.
pub fn bytes_eq(a: &[u8], b: &[u8]) -> (r: bool)
    ensures
        r == (a@ == b@),
{
    if a.len() != b.len() {
        return false;
    }
    let mut i: usize = 0;
    while i < a.len()
        invariant
            a@.len() == b@.len(),
            i <= a@.len(),
            forall|j: int| 0 <= j < i ==> a@[j] == b@[j],
        decreases a@.len() - i,
    {
        if a[i] != b[i] {
            return false;
        }
        i += 1;
    }
    assert(a@ =~= b@);
    true
}

/// Whether the bytes of `word` spell `text`.
pub fn is_spelled(word: &[u8], text: &str) -> (r: bool)
    ensures
        r == spells(word@, text),
{
    bytes_eq(word, text.as_bytes())
}

impl Kind {
    /// The keyword kind that an identifier body spells, if it spells one.
    ///
    /// Several keywords have a long and a short spelling, and two have a
    /// deprecated spelling; each spelling gives the same kind.
    #[verifier::opaque]
    pub open spec fn keyword(word: Seq<u8>) -> Option<Kind> {
        if spells(word, "anchor") {
            Some(Kind::AnchorKw)
        } else if spells(word, "anchorDef") {
            Some(Kind::AnchorDefKw)
        } else if spells(word, "anon") {
            Some(Kind::AnonKw)
        } else if spells(word, "anonymous") {
            Some(Kind::AnonKw)
        } else if spells(word, "by") {
            Some(Kind::ByKw)
        } else if spells(word, "contourpoint") {
            Some(Kind::ContourpointKw)
        } else if spells(word, "cursive") {
            Some(Kind::CursiveKw)
        } else if spells(word, "device") {
            Some(Kind::DeviceKw)
        } else if spells(word, "enum") {
            Some(Kind::EnumKw)
        } else if spells(word, "enumerate") {
            Some(Kind::EnumKw)
        } else if spells(word, "exclude_dflt") {
            Some(Kind::ExcludeDfltKw)
        } else if spells(word, "excludeDFLT") {
            Some(Kind::ExcludeDfltKw)
        } else if spells(word, "feature") {
            Some(Kind::FeatureKw)
        } else if spells(word, "from") {
            Some(Kind::FromKw)
        } else if spells(word, "ignore") {
            Some(Kind::IgnoreKw)
        } else if spells(word, "IgnoreBaseGlyphs") {
            Some(Kind::IgnoreBaseGlyphsKw)
        } else if spells(word, "IgnoreLigatures") {
            Some(Kind::IgnoreLigaturesKw)
        } else if spells(word, "IgnoreMarks") {
            Some(Kind::IgnoreMarksKw)
        } else if spells(word, "include") {
            Some(Kind::IncludeKw)
        } else if spells(word, "include_dflt") {
            Some(Kind::IncludeDfltKw)
        } else if spells(word, "includeDFLT") {
            Some(Kind::IncludeDfltKw)
        } else if spells(word, "language") {
            Some(Kind::LanguageKw)
        } else if spells(word, "languagesystem") {
            Some(Kind::LanguagesystemKw)
        } else if spells(word, "lookup") {
            Some(Kind::LookupKw)
        } else if spells(word, "lookupflag") {
            Some(Kind::LookupflagKw)
        } else if spells(word, "mark") {
            Some(Kind::MarkKw)
        } else if spells(word, "MarkAttachmentType") {
            Some(Kind::MarkAttachmentTypeKw)
        } else if spells(word, "markClass") {
            Some(Kind::MarkClassKw)
        } else if spells(word, "nameid") {
            Some(Kind::NameIdKw)
        } else if spells(word, "NULL") {
            Some(Kind::NullKw)
        } else if spells(word, "parameters") {
            Some(Kind::ParametersKw)
        } else if spells(word, "pos") {
            Some(Kind::PosKw)
        } else if spells(word, "position") {
            Some(Kind::PosKw)
        } else if spells(word, "required") {
            Some(Kind::RequiredKw)
        } else if spells(word, "reversesub") {
            Some(Kind::RsubKw)
        } else if spells(word, "rsub") {
            Some(Kind::RsubKw)
        } else if spells(word, "RightToLeft") {
            Some(Kind::RightToLeftKw)
        } else if spells(word, "script") {
            Some(Kind::ScriptKw)
        } else if spells(word, "sub") {
            Some(Kind::SubKw)
        } else if spells(word, "substitute") {
            Some(Kind::SubKw)
        } else if spells(word, "subtable") {
            Some(Kind::SubtableKw)
        } else if spells(word, "table") {
            Some(Kind::TableKw)
        } else if spells(word, "useExtension") {
            Some(Kind::UseExtensionKw)
        } else if spells(word, "UseMarkFilteringSet") {
            Some(Kind::UseMarkFilteringSetKw)
        } else if spells(word, "valueRecordDef") {
            Some(Kind::ValueRecordDefKw)
        } else {
            None
        }
    }

    /// Looks an identifier body up in the keyword table.
    pub fn from_keyword(word: &[u8]) -> (r: Option<Kind>)
        ensures
            r == Kind::keyword(word@),
    {
        reveal(Kind::keyword);
        if is_spelled(word, "anchor") {
            Some(Kind::AnchorKw)
        } else if is_spelled(word, "anchorDef") {
            Some(Kind::AnchorDefKw)
        } else if is_spelled(word, "anon") {
            Some(Kind::AnonKw)
        } else if is_spelled(word, "anonymous") {
            Some(Kind::AnonKw)
        } else if is_spelled(word, "by") {
            Some(Kind::ByKw)
        } else if is_spelled(word, "contourpoint") {
            Some(Kind::ContourpointKw)
        } else if is_spelled(word, "cursive") {
            Some(Kind::CursiveKw)
        } else if is_spelled(word, "device") {
            Some(Kind::DeviceKw)
        } else if is_spelled(word, "enum") {
            Some(Kind::EnumKw)
        } else if is_spelled(word, "enumerate") {
            Some(Kind::EnumKw)
        } else if is_spelled(word, "exclude_dflt") {
            Some(Kind::ExcludeDfltKw)
        } else if is_spelled(word, "excludeDFLT") {
            Some(Kind::ExcludeDfltKw)
        } else if is_spelled(word, "feature") {
            Some(Kind::FeatureKw)
        } else if is_spelled(word, "from") {
            Some(Kind::FromKw)
        } else if is_spelled(word, "ignore") {
            Some(Kind::IgnoreKw)
        } else if is_spelled(word, "IgnoreBaseGlyphs") {
            Some(Kind::IgnoreBaseGlyphsKw)
        } else if is_spelled(word, "IgnoreLigatures") {
            Some(Kind::IgnoreLigaturesKw)
        } else if is_spelled(word, "IgnoreMarks") {
            Some(Kind::IgnoreMarksKw)
        } else if is_spelled(word, "include") {
            Some(Kind::IncludeKw)
        } else if is_spelled(word, "include_dflt") {
            Some(Kind::IncludeDfltKw)
        } else if is_spelled(word, "includeDFLT") {
            Some(Kind::IncludeDfltKw)
        } else if is_spelled(word, "language") {
            Some(Kind::LanguageKw)
        } else if is_spelled(word, "languagesystem") {
            Some(Kind::LanguagesystemKw)
        } else if is_spelled(word, "lookup") {
            Some(Kind::LookupKw)
        } else if is_spelled(word, "lookupflag") {
            Some(Kind::LookupflagKw)
        } else if is_spelled(word, "mark") {
            Some(Kind::MarkKw)
        } else if is_spelled(word, "MarkAttachmentType") {
            Some(Kind::MarkAttachmentTypeKw)
        } else if is_spelled(word, "markClass") {
            Some(Kind::MarkClassKw)
        } else if is_spelled(word, "nameid") {
            Some(Kind::NameIdKw)
        } else if is_spelled(word, "NULL") {
            Some(Kind::NullKw)
        } else if is_spelled(word, "parameters") {
            Some(Kind::ParametersKw)
        } else if is_spelled(word, "pos") {
            Some(Kind::PosKw)
        } else if is_spelled(word, "position") {
            Some(Kind::PosKw)
        } else if is_spelled(word, "required") {
            Some(Kind::RequiredKw)
        } else if is_spelled(word, "reversesub") {
            Some(Kind::RsubKw)
        } else if is_spelled(word, "rsub") {
            Some(Kind::RsubKw)
        } else if is_spelled(word, "RightToLeft") {
            Some(Kind::RightToLeftKw)
        } else if is_spelled(word, "script") {
            Some(Kind::ScriptKw)
        } else if is_spelled(word, "sub") {
            Some(Kind::SubKw)
        } else if is_spelled(word, "substitute") {
            Some(Kind::SubKw)
        } else if is_spelled(word, "subtable") {
            Some(Kind::SubtableKw)
        } else if is_spelled(word, "table") {
            Some(Kind::TableKw)
        } else if is_spelled(word, "useExtension") {
            Some(Kind::UseExtensionKw)
        } else if is_spelled(word, "UseMarkFilteringSet") {
            Some(Kind::UseMarkFilteringSetKw)
        } else if is_spelled(word, "valueRecordDef") {
            Some(Kind::ValueRecordDefKw)
        } else {
            None
        }
    }

    /// The display name of this kind, as a sequence of characters.
    pub open spec fn name(self) -> Seq<char> {
        match self {
            Kind::Eof => "EOF"@,
            Kind::SourceFile => "FILE"@,
            Kind::Ident => "ID"@,
            Kind::String => "STR"@,
            Kind::StringUnterminated => "STR OPEN"@,
            Kind::NumberDec => "DEC"@,
            Kind::NumberHex => "HEX"@,
            Kind::NumberHexEmpty => "HEX EMPTY"@,
            Kind::NumberFloat => "FLOAT"@,
            Kind::Whitespace => "WS"@,
            Kind::Comment => "#"@,
            Kind::Semi => ";"@,
            Kind::Comma => ","@,
            Kind::Backslash => "\\"@,
            Kind::Hyphen => "-"@,
            Kind::Eq => "="@,
            Kind::LBrace => "{"@,
            Kind::RBrace => "}"@,
            Kind::LSquare => "["@,
            Kind::RSquare => "]"@,
            Kind::LParen => "("@,
            Kind::RParen => ")"@,
            Kind::LAngle => "<"@,
            Kind::RAngle => ">"@,
            Kind::SingleQuote => "'"@,
            Kind::NamedGlyphClass => "@GlyphClass"@,
            Kind::Cid => "CID"@,
            Kind::Tag => "Tag"@,
            Kind::Path => "Path"@,
            Kind::GlyphName => "GlyphName"@,
            Kind::GlyphNameOrRange => "GlyphNameOrRange"@,
            Kind::GlyphRange => "GlyphRange"@,
            Kind::GlyphClass => "GlyphClass"@,
            Kind::Metric => "METRIC"@,
            Kind::Label => "LABEL"@,
            Kind::GsubNode => "GsubNode"@,
            Kind::GposNode => "GposNode"@,
            Kind::TableKw => "TableKw"@,
            Kind::LookupKw => "LookupKw"@,
            Kind::LanguagesystemKw => "LanguagesystemKw"@,
            Kind::AnchorDefKw => "AnchorDefKw"@,
            Kind::FeatureKw => "FeatureKw"@,
            Kind::MarkClassKw => "MarkClassKw"@,
            Kind::AnonKw => "AnonKw"@,
            Kind::AnchorKw => "AnchorKw"@,
            Kind::ByKw => "ByKw"@,
            Kind::ContourpointKw => "ContourpointKw"@,
            Kind::CursiveKw => "CursiveKw"@,
            Kind::DeviceKw => "DeviceKw"@,
            Kind::EnumKw => "EnumKw"@,
            Kind::ExcludeDfltKw => "ExcludeDfltKw"@,
            Kind::FromKw => "FromKw"@,
            Kind::IgnoreKw => "IgnoreKw"@,
            Kind::IgnoreBaseGlyphsKw => "IgnoreBaseGlyphsKw"@,
            Kind::IgnoreLigaturesKw => "IgnoreLigaturesKw"@,
            Kind::IgnoreMarksKw => "IgnoreMarksKw"@,
            Kind::IncludeKw => "IncludeKw"@,
            Kind::IncludeDfltKw => "IncludeDfltKw"@,
            Kind::LanguageKw => "LanguageKw"@,
            Kind::LookupflagKw => "LookupflagKw"@,
            Kind::MarkKw => "MarkKw"@,
            Kind::MarkAttachmentTypeKw => "MarkAttachmentTypeKw"@,
            Kind::NameIdKw => "NameIdKw"@,
            Kind::NullKw => "NullKw"@,
            Kind::ParametersKw => "ParametersKw"@,
            Kind::PosKw => "PosKw"@,
            Kind::RequiredKw => "RequiredKw"@,
            Kind::RightToLeftKw => "RightToLeftKw"@,
            Kind::RsubKw => "RsubKw"@,
            Kind::ScriptKw => "ScriptKw"@,
            Kind::SubKw => "SubKw"@,
            Kind::SubtableKw => "SubtableKw"@,
            Kind::UseExtensionKw => "UseExtensionKw"@,
            Kind::UseMarkFilteringSetKw => "UseMarkFilteringSetKw"@,
            Kind::ValueRecordDefKw => "ValueRecordDefKw"@,
            Kind::GsubType1 => "GsubType1"@,
            Kind::GsubType2 => "GsubType2"@,
            Kind::GsubType3 => "GsubType3"@,
            Kind::GsubType4 => "GsubType4"@,
            Kind::GsubType5 => "GsubType5"@,
            Kind::GsubType6 => "GsubType6"@,
            Kind::GsubType7 => "GsubType7"@,
            Kind::GsubType8 => "GsubType8"@,
            Kind::GposType1 => "GposType1"@,
            Kind::GposType2 => "GposType2"@,
            Kind::GposType3 => "GposType3"@,
            Kind::GposType4 => "GposType4"@,
            Kind::GposType5 => "GposType5"@,
            Kind::GposType6 => "GposType6"@,
            Kind::GposType7 => "GposType7"@,
            Kind::GposType8 => "GposType8"@,
        }
    }

    /// The display name of this kind: the spelling itself for punctuation,
    /// a short tag for the other lexical kinds, the variant's name otherwise.
    pub fn as_str(self) -> (r: &'static str)
        ensures
            r@ == self.name(),
    {
        match self {
            Kind::Eof => "EOF",
            Kind::SourceFile => "FILE",
            Kind::Ident => "ID",
            Kind::String => "STR",
            Kind::StringUnterminated => "STR OPEN",
            Kind::NumberDec => "DEC",
            Kind::NumberHex => "HEX",
            Kind::NumberHexEmpty => "HEX EMPTY",
            Kind::NumberFloat => "FLOAT",
            Kind::Whitespace => "WS",
            Kind::Comment => "#",
            Kind::Semi => ";",
            Kind::Comma => ",",
            Kind::Backslash => "\\",
            Kind::Hyphen => "-",
            Kind::Eq => "=",
            Kind::LBrace => "{",
            Kind::RBrace => "}",
            Kind::LSquare => "[",
            Kind::RSquare => "]",
            Kind::LParen => "(",
            Kind::RParen => ")",
            Kind::LAngle => "<",
            Kind::RAngle => ">",
            Kind::SingleQuote => "'",
            Kind::NamedGlyphClass => "@GlyphClass",
            Kind::Cid => "CID",
            Kind::Tag => "Tag",
            Kind::Path => "Path",
            Kind::GlyphName => "GlyphName",
            Kind::GlyphNameOrRange => "GlyphNameOrRange",
            Kind::GlyphRange => "GlyphRange",
            Kind::GlyphClass => "GlyphClass",
            Kind::Metric => "METRIC",
            Kind::Label => "LABEL",
            Kind::GsubNode => "GsubNode",
            Kind::GposNode => "GposNode",
            Kind::TableKw => "TableKw",
            Kind::LookupKw => "LookupKw",
            Kind::LanguagesystemKw => "LanguagesystemKw",
            Kind::AnchorDefKw => "AnchorDefKw",
            Kind::FeatureKw => "FeatureKw",
            Kind::MarkClassKw => "MarkClassKw",
            Kind::AnonKw => "AnonKw",
            Kind::AnchorKw => "AnchorKw",
            Kind::ByKw => "ByKw",
            Kind::ContourpointKw => "ContourpointKw",
            Kind::CursiveKw => "CursiveKw",
            Kind::DeviceKw => "DeviceKw",
            Kind::EnumKw => "EnumKw",
            Kind::ExcludeDfltKw => "ExcludeDfltKw",
            Kind::FromKw => "FromKw",
            Kind::IgnoreKw => "IgnoreKw",
            Kind::IgnoreBaseGlyphsKw => "IgnoreBaseGlyphsKw",
            Kind::IgnoreLigaturesKw => "IgnoreLigaturesKw",
            Kind::IgnoreMarksKw => "IgnoreMarksKw",
            Kind::IncludeKw => "IncludeKw",
            Kind::IncludeDfltKw => "IncludeDfltKw",
            Kind::LanguageKw => "LanguageKw",
            Kind::LookupflagKw => "LookupflagKw",
            Kind::MarkKw => "MarkKw",
            Kind::MarkAttachmentTypeKw => "MarkAttachmentTypeKw",
            Kind::NameIdKw => "NameIdKw",
            Kind::NullKw => "NullKw",
            Kind::ParametersKw => "ParametersKw",
            Kind::PosKw => "PosKw",
            Kind::RequiredKw => "RequiredKw",
            Kind::RightToLeftKw => "RightToLeftKw",
            Kind::RsubKw => "RsubKw",
            Kind::ScriptKw => "ScriptKw",
            Kind::SubKw => "SubKw",
            Kind::SubtableKw => "SubtableKw",
            Kind::UseExtensionKw => "UseExtensionKw",
            Kind::UseMarkFilteringSetKw => "UseMarkFilteringSetKw",
            Kind::ValueRecordDefKw => "ValueRecordDefKw",
            Kind::GsubType1 => "GsubType1",
            Kind::GsubType2 => "GsubType2",
            Kind::GsubType3 => "GsubType3",
            Kind::GsubType4 => "GsubType4",
            Kind::GsubType5 => "GsubType5",
            Kind::GsubType6 => "GsubType6",
            Kind::GsubType7 => "GsubType7",
            Kind::GsubType8 => "GsubType8",
            Kind::GposType1 => "GposType1",
            Kind::GposType2 => "GposType2",
            Kind::GposType3 => "GposType3",
            Kind::GposType4 => "GposType4",
            Kind::GposType5 => "GposType5",
            Kind::GposType6 => "GposType6",
            Kind::GposType7 => "GposType7",
            Kind::GposType8 => "GposType8",
        }
    }

    /// The display name of this kind as an owned string.
    pub fn to_string(self) -> (r: String)
        ensures
            r@ == self.name(),
    {
        self.as_str().to_owned()
    }
}


} // verus!
