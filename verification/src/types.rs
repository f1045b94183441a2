//! Glyph identifiers, glyph classes and the other small value types that the
//! compiler passes around.

use smol_str::SmolStr;
use vstd::prelude::*;
use vstd::std_specs::convert::FromSpecImpl;
use vstd::string::StringExecFns;

use crate::text::{decimal_chars, push_decimal, smol_as_str, smol_chars};

pub mod glyph_map;
pub mod metrics;
pub mod tag;

pub use glyph_map::GlyphMap;
pub use metrics::{Anchor, ValueRecord};
pub use tag::{InvalidTag, Tag};

verus! {

/// The name of a glyph.
pub type GlyphName = SmolStr;

/// An index into the glyph order of a font; zero is `.notdef`.
#[derive(Debug, Clone, Copy, PartialEq, Eq, PartialOrd, Ord, Hash, Structural)]
pub struct GlyphId(pub u16);

/// An ordered sequence of glyphs. Glyphs may repeat, and their order is kept:
/// some substitution rules pair the members of two classes by position.
#[derive(Clone, Debug, PartialEq, Eq, PartialOrd, Ord, Hash)]
pub struct GlyphClass {
    glyphs: Vec<GlyphId>,
}

/// Either a single glyph or a class of glyphs.
#[derive(Debug, Clone)]
pub enum GlyphOrClass {
    Glyph(GlyphId),
    Class(GlyphClass),
}

/// A sequence of glyphs and classes, as it stands on one side of a rule.
pub struct GlyphSequence {
    items: Vec<GlyphOrClass>,
}

/// How a source file names a glyph: by name or by character identifier.
#[derive(Debug, Clone, PartialEq, Eq, Hash)]
pub enum GlyphIdent {
    Name(GlyphName),
    Cid(u32),
}

/// A script and a language under which features are registered.
#[derive(Debug, Clone, Copy, PartialEq, Eq, Hash, Structural)]
pub struct LanguageSystem {
    pub script: Tag,
    pub language: Tag,
}

impl GlyphId {
    /// The glyph that stands for a missing glyph.
    pub fn notdef() -> (r: GlyphId)
        ensures
            r == GlyphId(0),
    {
        GlyphId(0)
    }

    /// The glyph with the given index.
    pub fn new(raw: u16) -> (r: GlyphId)
        ensures
            r == GlyphId(raw),
    {
        GlyphId(raw)
    }

    /// The index of this glyph.
    pub fn to_u16(self) -> (r: u16)
        ensures
            r == self.0,
    {
        self.0
    }

    /// The glyph with the given index, if the index fits in sixteen bits.
    pub fn try_from_usize(value: usize) -> (r: Option<GlyphId>)
        ensures
            r == if value <= u16::MAX { Some(GlyphId(value as u16)) } else { None::<GlyphId> },
    {
        if value <= 0xFFFF {
            Some(GlyphId(value as u16))
        } else {
            None
        }
    }
}

impl From<u16> for GlyphId {
    fn from(src: u16) -> (r: GlyphId) {
        GlyphId(src)
    }
}

impl FromSpecImpl<u16> for GlyphId {
    open spec fn obeys_from_spec() -> bool {
        true
    }

    open spec fn from_spec(src: u16) -> GlyphId {
        GlyphId(src)
    }
}

impl View for GlyphClass {
    type V = Seq<GlyphId>;

    closed spec fn view(&self) -> Seq<GlyphId> {
        self.glyphs@
    }
}

impl GlyphClass {
    /// The class that holds the given glyphs in the given order.
    pub fn from_vec(glyphs: Vec<GlyphId>) -> (r: GlyphClass)
        ensures
            r@ == glyphs@,
    {
        GlyphClass { glyphs }
    }

    /// The class that holds one glyph.
    pub fn from_glyph(glyph: GlyphId) -> (r: GlyphClass)
        ensures
            r@ == seq![glyph],
    {
        let mut glyphs: Vec<GlyphId> = Vec::new();
        glyphs.push(glyph);
        GlyphClass { glyphs }
    }

    /// The glyphs of this class, in order.
    pub fn items(&self) -> (r: &[GlyphId])
        ensures
            r@ == self@,
    {
        self.glyphs.as_slice()
    }

    /// The number of glyphs in this class, repeated glyphs counted each time.
    pub fn len(&self) -> (r: usize)
        ensures
            r == self@.len(),
    {
        self.glyphs.len()
    }

    /// Whether the glyph occurs in this class.
    pub fn contains(&self, glyph: GlyphId) -> (r: bool)
        ensures
            r == self@.contains(glyph),
    {
        let mut i: usize = 0;
        while i < self.glyphs.len()
            invariant
                i <= self.glyphs@.len(),
                forall|j: int| 0 <= j < i ==> self.glyphs@[j] != glyph,
            decreases self.glyphs@.len() - i,
        {
            if self.glyphs[i] == glyph {
                return true;
            }
            i += 1;
        }
        false
    }

    /// A copy of this class.
    pub fn duplicate(&self) -> (r: GlyphClass)
        ensures
            r@ == self@,
    {
        let glyphs = self.glyphs.clone();
        assert(glyphs@ =~= self.glyphs@);
        GlyphClass { glyphs }
    }

    /// Whether the two classes hold the same glyphs in the same order.
    pub fn same_as(&self, other: &GlyphClass) -> (r: bool)
        ensures
            r == (self@ == other@),
    {
        if self.glyphs.len() != other.glyphs.len() {
            return false;
        }
        let mut i: usize = 0;
        while i < self.glyphs.len()
            invariant
                self.glyphs@.len() == other.glyphs@.len(),
                i <= self.glyphs@.len(),
                forall|j: int| 0 <= j < i ==> self.glyphs@[j] == other.glyphs@[j],
            decreases self.glyphs@.len() - i,
        {
            if self.glyphs[i] != other.glyphs[i] {
                return false;
            }
            i += 1;
        }
        assert(self.glyphs@ =~= other.glyphs@);
        true
    }
}

impl From<Vec<GlyphId>> for GlyphClass {
    /// The class that holds the given glyphs in the given order.
    fn from(src: Vec<GlyphId>) -> (r: GlyphClass)
        ensures
            r@ == src@,
    {
        GlyphClass { glyphs: src }
    }
}

/// The class made from a list of glyphs holds the glyphs of the list in
/// their order.
pub proof fn lemma_class_from_vec(src: Vec<GlyphId>)
    ensures
        <GlyphClass as vstd::std_specs::convert::FromSpec<Vec<GlyphId>>>::from_spec(src)@ == src@,
{
}

impl FromSpecImpl<Vec<GlyphId>> for GlyphClass {
    open spec fn obeys_from_spec() -> bool {
        true
    }

    closed spec fn from_spec(src: Vec<GlyphId>) -> GlyphClass {
        GlyphClass { glyphs: src }
    }
}

impl GlyphOrClass {
    /// The glyphs that this item stands for: the glyph itself, or the members
    /// of the class in order.
    pub open spec fn glyphs(&self) -> Seq<GlyphId> {
        match self {
            GlyphOrClass::Glyph(id) => seq![*id],
            GlyphOrClass::Class(class) => class@,
        }
    }

    /// Turns the item into a class; a single glyph becomes a class of one.
    pub fn into_class(self) -> (r: GlyphClass)
        ensures
            r@ == self.glyphs(),
    {
        match self {
            GlyphOrClass::Class(class) => class,
            GlyphOrClass::Glyph(id) => GlyphClass::from_glyph(id),
        }
    }

    /// A copy of this item.
    pub fn duplicate(&self) -> (r: GlyphOrClass)
        ensures
            r.glyphs() == self.glyphs(),
            r is Glyph <==> self is Glyph,
    {
        match self {
            GlyphOrClass::Glyph(id) => GlyphOrClass::Glyph(*id),
            GlyphOrClass::Class(class) => GlyphOrClass::Class(class.duplicate()),
        }
    }
}

impl View for GlyphSequence {
    type V = Seq<GlyphOrClass>;

    closed spec fn view(&self) -> Seq<GlyphOrClass> {
        self.items@
    }
}

impl GlyphSequence {
    /// The sequence that holds the given items in the given order.
    pub fn from_vec(items: Vec<GlyphOrClass>) -> (r: GlyphSequence)
        ensures
            r@ == items@,
    {
        GlyphSequence { items }
    }

    /// The items of this sequence, in order.
    pub fn items(&self) -> (r: &[GlyphOrClass])
        ensures
            r@ == self@,
    {
        self.items.as_slice()
    }
}

impl GlyphIdent {
    /// How the identifier is shown: a name as it is, a character identifier
    /// as `Cid(` with its number in decimal and `)`.
    pub open spec fn shown(&self) -> Seq<char> {
        match self {
            GlyphIdent::Name(name) => smol_chars(*name),
            GlyphIdent::Cid(cid) => "Cid("@ + decimal_chars(*cid as nat) + ")"@,
        }
    }

    /// How the identifier is shown.
    pub fn to_string(&self) -> (r: String)
        ensures
            r@ == self.shown(),
    {
        match self {
            GlyphIdent::Name(name) => smol_as_str(name).to_owned(),
            GlyphIdent::Cid(cid) => {
                let mut out = "Cid(".to_owned();
                push_decimal(&mut out, *cid);
                out.append(")");
                out
            },
        }
    }

    /// The identifier that names a glyph by its name.
    pub fn from_name(name: GlyphName) -> (r: GlyphIdent)
        ensures
            r == GlyphIdent::Name(name),
    {
        GlyphIdent::Name(name)
    }
}

} // verus!
