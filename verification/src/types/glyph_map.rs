//! The glyphs of a font, by name and by character identifier.

use vstd::prelude::*;

use crate::text::{smol_as_str, smol_chars, smol_new, str_eq};
use crate::types::{GlyphId, GlyphIdent};

verus! {

/// The glyph order of a font: the identifier of each glyph, the glyph's index
/// being its position.
pub struct GlyphMap {
    glyphs: Vec<GlyphIdent>,
}

/// What an identifier is as a value of the model: a name as its characters, a
/// character identifier as its number.
pub enum IdentView {
    Name(Seq<char>),
    Cid(u32),
}

/// The model of an identifier.
pub open spec fn ident_view(ident: GlyphIdent) -> IdentView {
    match ident {
        GlyphIdent::Name(name) => IdentView::Name(smol_chars(name)),
        GlyphIdent::Cid(cid) => IdentView::Cid(cid),
    }
}

/// The first position in `glyphs` at or after `from` that holds `ident`, if
/// there is one.
pub open spec fn position_from(glyphs: Seq<IdentView>, ident: IdentView, from: int) -> Option<int>
    decreases glyphs.len() - from,
{
    if from < 0 || from >= glyphs.len() {
        None
    } else if glyphs[from] == ident {
        Some(from)
    } else {
        position_from(glyphs, ident, from + 1)
    }
}

/// `position_from` finds the first occurrence, and finds one whenever the
/// identifier occurs.
pub proof fn lemma_position_from(glyphs: Seq<IdentView>, ident: IdentView, from: int)
    requires
        0 <= from,
    ensures
        match position_from(glyphs, ident, from) {
            Some(i) => from <= i < glyphs.len() && glyphs[i] == ident && forall|j: int|
                from <= j < i ==> glyphs[j] != ident,
            None => forall|j: int| from <= j < glyphs.len() ==> glyphs[j] != ident,
        },
    decreases glyphs.len() - from,
{
    if from < glyphs.len() && glyphs[from] != ident {
        lemma_position_from(glyphs, ident, from + 1);
    }
}

/// The identifier that a search asks for: the name where one is given, the
/// character identifier otherwise.
pub open spec fn wanted(name: Option<&str>, cid: u32) -> IdentView {
    match name {
        Some(n) => IdentView::Name(n@),
        None => IdentView::Cid(cid),
    }
}

impl View for GlyphMap {
    type V = Seq<IdentView>;

    closed spec fn view(&self) -> Seq<IdentView> {
        self.glyphs@.map_values(|ident: GlyphIdent| ident_view(ident))
    }
}

impl GlyphMap {
    /// The map of a font without glyphs.
    pub fn new() -> (r: GlyphMap)
        ensures
            r@ == Seq::<IdentView>::empty(),
    {
        let r = GlyphMap { glyphs: Vec::new() };
        assert(r@ =~= Seq::<IdentView>::empty());
        r
    }

    /// The number of glyphs.
    pub fn len(&self) -> (r: usize)
        ensures
            r == self@.len(),
    {
        self.glyphs.len()
    }

    /// Whether the font has no glyphs.
    pub fn is_empty(&self) -> (r: bool)
        ensures
            r == (self@.len() == 0),
    {
        self.glyphs.len() == 0
    }

    /// Appends a glyph; its index is the number of glyphs before the call.
    pub fn push(&mut self, ident: GlyphIdent)
        ensures
            final(self)@ == old(self)@.push(ident_view(ident)),
    {
        self.glyphs.push(ident);
        assert(self@ =~= old(self)@.push(ident_view(ident)));
    }

    /// Appends a glyph known by name.
    pub fn push_name(&mut self, name: &str)
        ensures
            final(self)@ == old(self)@.push(IdentView::Name(name@)),
    {
        self.push(GlyphIdent::Name(smol_new(name)));
    }

    /// Appends a glyph known by character identifier.
    pub fn push_cid(&mut self, cid: u32)
        ensures
            final(self)@ == old(self)@.push(IdentView::Cid(cid)),
    {
        self.push(GlyphIdent::Cid(cid));
    }

    /// The position of the first glyph with the given name, or, where no
    /// name is given, with the given character identifier.
    fn position(&self, name: Option<&str>, cid: u32) -> (r: Option<usize>)
        ensures
            match r {
                Some(i) => position_from(self@, wanted(name, cid), 0) == Some(i as int),
                None => position_from(self@, wanted(name, cid), 0) is None,
            },
    {
        let mut i: usize = 0;
        while i < self.glyphs.len()
            invariant
                i <= self.glyphs@.len(),
                self@.len() == self.glyphs@.len(),
                position_from(self@, wanted(name, cid), 0) == position_from(
                    self@,
                    wanted(name, cid),
                    i as int,
                ),
            decreases self.glyphs@.len() - i,
        {
            assert(self@[i as int] == ident_view(self.glyphs@[i as int]));
            let hit = match (&self.glyphs[i], name) {
                (GlyphIdent::Name(have), Some(want)) => str_eq(smol_as_str(have), want),
                (GlyphIdent::Cid(have), None) => *have == cid,
                _ => false,
            };
            if hit {
                return Some(i);
            }
            i += 1;
        }
        None
    }

    /// Whether a glyph of this name exists.
    pub fn contains(&self, name: &str) -> (r: bool)
        ensures
            r == self@.contains(IdentView::Name(name@)),
    {
        let found = self.position(Some(name), 0);
        proof {
            lemma_position_from(self@, IdentView::Name(name@), 0);
        }
        found.is_some()
    }

    /// The index of the first glyph with the given identifier, if there is one
    /// and its index fits a glyph identifier.
    pub fn id_for(&self, ident: &GlyphIdent) -> (r: Option<GlyphId>)
        ensures
            r == match position_from(self@, ident_view(*ident), 0) {
                Some(i) if i <= u16::MAX => Some(GlyphId(i as u16)),
                _ => None::<GlyphId>,
            },
    {
        let found = match ident {
            GlyphIdent::Name(name) => self.position(Some(smol_as_str(name)), 0),
            GlyphIdent::Cid(cid) => self.position(None, *cid),
        };
        match found {
            Some(i) => GlyphId::try_from_usize(i),
            None => None,
        }
    }
}

} // verus!
