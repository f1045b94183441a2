//! Class definitions: numbering the glyph classes of a lookup.

use vstd::multiset::Multiset;
use vstd::prelude::*;
use vstd::seq_lib::{to_multiset_build, to_multiset_remove};
use write_fonts::tables::layout::ClassDef;
use write_fonts::types::GlyphId16;

use crate::types::{GlyphClass, GlyphId};

verus! {

#[verifier::external_type_specification]
#[verifier::external_body]
pub struct ExClassDef(ClassDef);

/// The classes that a class definition table gives: each glyph that the
/// table gives a class other than zero, with that class. Every other glyph
/// is of class zero.
pub uninterp spec fn class_def_entries(def: ClassDef) -> Map<u16, u16>;

/// The classes that a list of glyphs with classes gives: each glyph with the
/// class of the last pair that names it with a class other than zero.
pub open spec fn assigned_classes(pairs: Seq<(u16, u16)>) -> Map<u16, u16>
    decreases pairs.len(),
{
    if pairs.len() == 0 {
        Map::empty()
    } else if pairs.last().1 != 0 {
        assigned_classes(pairs.drop_last()).insert(pairs.last().0, pairs.last().1)
    } else {
        assigned_classes(pairs.drop_last())
    }
}

/// Collects glyphs with their classes into a `ClassDef` of `write_fonts`
/// (`impl FromIterator<(GlyphId16, u16)> for ClassDef`).
///
/// The table drops the pairs of class zero, keeps for each glyph the class
/// of the last pair that names it, and picks the smaller of its two
/// encodings; whichever it picks, `ClassDef::get` gives each glyph the class
/// kept for it, and zero to every other glyph.
#[verifier::external_body]
fn class_def_from_pairs(pairs: &Vec<(u16, u16)>) -> (r: ClassDef)
    ensures
        class_def_entries(r) == assigned_classes(pairs@),
{
    pairs.iter().map(|(glyph, class)| (GlyphId16::new(*glyph), *class)).collect()
}

/// Numbers glyph classes so that the largest class gets the lowest number,
/// which keeps the encoded table small, and tells which number each class
/// got before the table is encoded.
///
/// Two classes may share a glyph only if they are the same class.
pub struct ClassDefBuilder2 {
    classes: Vec<GlyphClass>,
    use_class_0: bool,
}

/// The smallest index among the glyphs, or zero if there is no glyph.
pub open spec fn min_glyph(glyphs: Seq<GlyphId>) -> u16
    decreases glyphs.len(),
{
    if glyphs.len() == 0 {
        0
    } else if glyphs.len() == 1 {
        glyphs[0].0
    } else if glyphs.last().0 < min_glyph(glyphs.drop_last()) {
        glyphs.last().0
    } else {
        min_glyph(glyphs.drop_last())
    }
}

/// Whether the class `a` is numbered no later than the class `b`: it is
/// larger, or of the same size with a smallest glyph that is not greater.
pub open spec fn precedes(a: Seq<GlyphId>, b: Seq<GlyphId>) -> bool {
    a.len() > b.len() || (a.len() == b.len() && min_glyph(a) <= min_glyph(b))
}

/// Whether no glyph is in both classes.
pub open spec fn disjoint(a: Seq<GlyphId>, b: Seq<GlyphId>) -> bool {
    forall|i: int, j: int| 0 <= i < a.len() && 0 <= j < b.len() ==> a[i] != b[j]
}

/// The glyphs of a class, each with the number of the class.
pub open spec fn pairs_of(glyphs: Seq<GlyphId>, id: u16) -> Seq<(u16, u16)> {
    Seq::new(glyphs.len(), |k: int| (glyphs[k].0, id))
}

/// The glyphs of the numbered classes, each with the number of its class,
/// class by class.
pub open spec fn class_pairs(mapping: Seq<(Seq<GlyphId>, u16)>) -> Seq<(u16, u16)>
    decreases mapping.len(),
{
    if mapping.len() == 0 {
        Seq::empty()
    } else {
        class_pairs(mapping.drop_last()) + pairs_of(mapping.last().0, mapping.last().1)
    }
}

/// The classes with their numbers, as values of the model.
pub open spec fn mapping_view(mapping: Seq<(GlyphClass, u16)>) -> Seq<(Seq<GlyphId>, u16)> {
    Seq::new(mapping.len(), |i: int| (mapping[i].0@, mapping[i].1))
}

/// The classes, as values of the model.
pub open spec fn classes_view(classes: Seq<GlyphClass>) -> Seq<Seq<GlyphId>> {
    Seq::new(classes.len(), |i: int| classes[i]@)
}

/// The classes of a numbering, without their numbers.
pub open spec fn numbered_classes(mapping: Seq<(Seq<GlyphId>, u16)>) -> Seq<Seq<GlyphId>> {
    Seq::new(mapping.len(), |i: int| mapping[i].0)
}

/// Whether `mapping` numbers the classes `classes` from `base` on: it holds
/// each class once, the largest first, classes of one size in the order of
/// their smallest glyphs, and gives them the numbers `base`, `base + 1` and
/// so on in this order.
pub open spec fn is_numbering(
    mapping: Seq<(Seq<GlyphId>, u16)>,
    classes: Seq<Seq<GlyphId>>,
    base: u16,
) -> bool {
    &&& mapping.len() == classes.len()
    &&& numbered_classes(mapping).to_multiset() == classes.to_multiset()
    &&& forall|i: int| 0 <= i < mapping.len() ==> (#[trigger] mapping[i]).1 == base + i
    &&& forall|i: int, j: int|
        0 <= i < j < mapping.len() ==> precedes((#[trigger] mapping[i]).0, (#[trigger] mapping[j]).0)
}

/// A sequence without items holds nothing.
pub proof fn lemma_empty_to_multiset<A>(s: Seq<A>)
    requires
        s.len() == 0,
    ensures
        s.to_multiset() == Multiset::<A>::empty(),
{
    broadcast use {vstd::seq_lib::to_multiset_contains, vstd::multiset::group_multiset_axioms};

    assert forall|a: A| s.to_multiset().count(a) == 0 by {
        assert(!s.contains(a));
    }
    assert(s.to_multiset() =~= Multiset::<A>::empty());
}

/// The smallest glyph of a class is one of its glyphs, and no glyph of the
/// class is smaller.
pub proof fn lemma_min_glyph(glyphs: Seq<GlyphId>)
    requires
        glyphs.len() > 0,
    ensures
        exists|i: int| 0 <= i < glyphs.len() && (#[trigger] glyphs[i]).0 == min_glyph(glyphs),
        forall|i: int| 0 <= i < glyphs.len() ==> min_glyph(glyphs) <= (#[trigger] glyphs[i]).0,
    decreases glyphs.len(),
{
    if glyphs.len() == 1 {
        assert(glyphs[0].0 == min_glyph(glyphs));
    } else {
        let init = glyphs.drop_last();
        lemma_min_glyph(init);
        let w = choose|i: int| 0 <= i < init.len() && (#[trigger] init[i]).0 == min_glyph(init);
        if glyphs.last().0 < min_glyph(init) {
            assert(glyphs[glyphs.len() - 1].0 == min_glyph(glyphs));
        } else {
            assert(glyphs[w].0 == min_glyph(glyphs));
        }
        assert forall|i: int| 0 <= i < glyphs.len() implies min_glyph(glyphs) <= (
        #[trigger] glyphs[i]).0 by {
            if i < init.len() {
                assert(init[i] == glyphs[i]);
            }
        }
    }
}

/// The class that is numbered first is the largest; among the largest it is
/// the one with the smallest glyph. It gets the number `base`.
pub proof fn lemma_largest_class_first(
    mapping: Seq<(Seq<GlyphId>, u16)>,
    classes: Seq<Seq<GlyphId>>,
    base: u16,
    class: Seq<GlyphId>,
)
    requires
        is_numbering(mapping, classes, base),
        classes.contains(class),
    ensures
        mapping.len() > 0,
        mapping[0].1 == base,
        classes.contains(mapping[0].0),
        mapping[0].0.len() >= class.len(),
        mapping[0].0.len() == class.len() ==> min_glyph(mapping[0].0) <= min_glyph(class),
{
    broadcast use vstd::seq_lib::to_multiset_contains;

    let numbered = numbered_classes(mapping);
    assert(classes.to_multiset().contains(class));
    assert(numbered.contains(class));
    let j = choose|j: int| 0 <= j < numbered.len() && numbered[j] == class;
    assert(mapping[j].0 == class);
    assert(numbered[0] == mapping[0].0);
    assert(numbered.contains(mapping[0].0));
    assert(numbered.to_multiset().contains(mapping[0].0));
    if j > 0 {
        assert(precedes(mapping[0].0, mapping[j].0));
    }
}

/// The classes that a list of pairs gives are those that its first part
/// gives, except where its second part gives another.
pub proof fn lemma_assigned_concat(a: Seq<(u16, u16)>, b: Seq<(u16, u16)>)
    ensures
        assigned_classes(a + b) == assigned_classes(a).union_prefer_right(assigned_classes(b)),
    decreases b.len(),
{
    if b.len() == 0 {
        assert(a + b =~= a);
        assert(assigned_classes(a).union_prefer_right(assigned_classes(b)) =~= assigned_classes(a));
    } else {
        lemma_assigned_concat(a, b.drop_last());
        assert((a + b).drop_last() =~= a + b.drop_last());
        assert((a + b).last() == b.last());
        assert(assigned_classes(a + b) =~= assigned_classes(a).union_prefer_right(
            assigned_classes(b),
        ));
    }
}

/// The glyphs of one class with the number of the class give each glyph of
/// the class that number, and no other glyph a class; with the number zero
/// they give no glyph a class.
pub proof fn lemma_assigned_class(glyphs: Seq<GlyphId>, id: u16, upto: int)
    requires
        0 <= upto <= glyphs.len(),
    ensures
        forall|g: u16| #[trigger]
            assigned_classes(pairs_of(glyphs, id).take(upto)).dom().contains(g) <==> (id != 0
                && exists|k: int| 0 <= k < upto && (#[trigger] glyphs[k]).0 == g),
        forall|g: u16| #[trigger]
            assigned_classes(pairs_of(glyphs, id).take(upto)).dom().contains(g)
                ==> assigned_classes(pairs_of(glyphs, id).take(upto))[g] == id,
    decreases upto,
{
    let pairs = pairs_of(glyphs, id).take(upto);
    if upto > 0 {
        lemma_assigned_class(glyphs, id, upto - 1);
        let before = pairs_of(glyphs, id).take(upto - 1);
        let named = glyphs[upto - 1].0;
        assert(pairs.drop_last() =~= before);
        assert(pairs.last() == (named, id));
        let now = assigned_classes(pairs);
        let was = assigned_classes(before);
        assert(now == (if id != 0 {
            was.insert(named, id)
        } else {
            was
        }));
        assert forall|g: u16| #[trigger]
            now.dom().contains(g) <==> (id != 0 && exists|k: int|
                0 <= k < upto && (#[trigger] glyphs[k]).0 == g) by {
            if id != 0 {
                if now.dom().contains(g) {
                    if g == named {
                        assert(glyphs[upto - 1].0 == g);
                    } else {
                        assert(was.dom().contains(g));
                        let k = choose|k: int| 0 <= k < upto - 1 && (#[trigger] glyphs[k]).0 == g;
                        assert(0 <= k < upto && glyphs[k].0 == g);
                    }
                }
                if exists|k: int| 0 <= k < upto && (#[trigger] glyphs[k]).0 == g {
                    let k = choose|k: int| 0 <= k < upto && (#[trigger] glyphs[k]).0 == g;
                    if k < upto - 1 {
                        assert(0 <= k < upto - 1 && glyphs[k].0 == g);
                        assert(was.dom().contains(g));
                    } else {
                        assert(g == named);
                    }
                }
            } else {
                assert(!was.dom().contains(g));
            }
        }
        assert forall|g: u16| #[trigger] now.dom().contains(g) implies now[g] == id by {
            if id != 0 && g != named {
                assert(was.dom().contains(g));
            }
        }
    } else {
        assert(pairs =~= Seq::<(u16, u16)>::empty());
    }
}

/// In a numbering of classes of which no two share a glyph, the compiled
/// table gives each glyph of a class the number of its class. A glyph of the
/// class with the number zero, like a glyph of no class, has no entry: the
/// table gives it the class zero.
pub proof fn lemma_class_of_glyph(mapping: Seq<(Seq<GlyphId>, u16)>, class: int, glyph: int)
    requires
        forall|a: int, b: int|
            0 <= a < b < mapping.len() ==> disjoint(
                (#[trigger] mapping[a]).0,
                (#[trigger] mapping[b]).0,
            ),
        0 <= class < mapping.len(),
        0 <= glyph < mapping[class].0.len(),
    ensures
        mapping[class].1 != 0 ==> assigned_classes(class_pairs(mapping)).dom().contains(
            mapping[class].0[glyph].0,
        ) && assigned_classes(class_pairs(mapping))[mapping[class].0[glyph].0] == mapping[class].1,
        mapping[class].1 == 0 ==> !assigned_classes(class_pairs(mapping)).dom().contains(
            mapping[class].0[glyph].0,
        ),
    decreases mapping.len(),
{
    let init = mapping.drop_last();
    let last = mapping.last();
    let g = mapping[class].0[glyph].0;
    let head = class_pairs(init);
    let tail = pairs_of(last.0, last.1);
    lemma_assigned_concat(head, tail);
    lemma_assigned_class(last.0, last.1, last.0.len() as int);
    assert(tail.take(last.0.len() as int) =~= tail);
    if class == mapping.len() - 1 {
        if last.1 == 0 {
            lemma_not_assigned(init, last.0[glyph]);
        }
    } else {
        assert forall|a: int, b: int| 0 <= a < b < init.len() implies disjoint(
            (#[trigger] init[a]).0,
            (#[trigger] init[b]).0,
        ) by {
            assert(init[a] == mapping[a] && init[b] == mapping[b]);
        }
        assert(init[class] == mapping[class]);
        lemma_class_of_glyph(init, class, glyph);
        assert(disjoint(mapping[class].0, mapping[mapping.len() - 1].0));
        if assigned_classes(tail).dom().contains(g) {
            let k = choose|k: int| 0 <= k < last.0.len() && (#[trigger] last.0[k]).0 == g;
            assert(mapping[class].0[glyph] == last.0[k]);
        }
    }
}

/// A numbering of classes of which no two are the same and no two share a
/// glyph holds no class twice, and no two of its classes share a glyph.
pub proof fn lemma_numbering_disjoint(
    mapping: Seq<(Seq<GlyphId>, u16)>,
    classes: Seq<Seq<GlyphId>>,
    base: u16,
)
    requires
        is_numbering(mapping, classes, base),
        forall|i: int, j: int|
            0 <= i < j < classes.len() ==> (#[trigger] classes[i]) != (#[trigger] classes[j])
                && disjoint(classes[i], classes[j]),
    ensures
        forall|a: int, b: int|
            0 <= a < b < mapping.len() ==> (#[trigger] mapping[a]).0 != (#[trigger] mapping[b]).0
                && disjoint(mapping[a].0, mapping[b].0),
{
    broadcast use vstd::seq_lib::to_multiset_contains;

    let numbered = numbered_classes(mapping);
    assert(classes.no_duplicates()) by {
        assert forall|i: int, j: int|
            0 <= i < classes.len() && 0 <= j < classes.len() && i != j implies classes[i]
            != classes[j] by {
            if i < j {
                assert(classes[i] != classes[j]);
            } else {
                assert(classes[j] != classes[i]);
            }
        }
    }
    classes.lemma_multiset_has_no_duplicates();
    numbered.lemma_multiset_has_no_duplicates_conv();
    assert forall|a: int, b: int| 0 <= a < b < mapping.len() implies (#[trigger] mapping[a]).0 != (
    #[trigger] mapping[b]).0 && disjoint(mapping[a].0, mapping[b].0) by {
        assert(numbered[a] == mapping[a].0 && numbered[b] == mapping[b].0);
        assert(numbered[a] != numbered[b]);
        assert(numbered.contains(numbered[a]) && numbered.contains(numbered[b]));
        assert(classes.to_multiset().count(numbered[a]) > 0);
        assert(classes.to_multiset().count(numbered[b]) > 0);
        assert(classes.contains(numbered[a]) && classes.contains(numbered[b]));
        let i = choose|i: int| 0 <= i < classes.len() && classes[i] == numbered[a];
        let j = choose|j: int| 0 <= j < classes.len() && classes[j] == numbered[b];
        if i < j {
            assert(disjoint(classes[i], classes[j]));
        } else {
            assert(disjoint(classes[j], classes[i]));
        }
    }
}

/// A glyph that is in none of the classes has no entry in the compiled
/// table.
pub proof fn lemma_not_assigned(mapping: Seq<(Seq<GlyphId>, u16)>, glyph: GlyphId)
    requires
        forall|a: int, k: int|
            0 <= a < mapping.len() && 0 <= k < mapping[a].0.len() ==> #[trigger] mapping[a].0[k]
                != glyph,
    ensures
        !assigned_classes(class_pairs(mapping)).dom().contains(glyph.0),
    decreases mapping.len(),
{
    if mapping.len() > 0 {
        let init = mapping.drop_last();
        let last = mapping.last();
        assert forall|a: int, k: int|
            0 <= a < init.len() && 0 <= k < init[a].0.len() implies #[trigger] init[a].0[k]
            != glyph by {
            assert(init[a] == mapping[a]);
            assert(mapping[a].0[k] != glyph);
        }
        lemma_not_assigned(init, glyph);
        lemma_assigned_concat(class_pairs(init), pairs_of(last.0, last.1));
        lemma_assigned_class(last.0, last.1, last.0.len() as int);
        assert(pairs_of(last.0, last.1).take(last.0.len() as int) =~= pairs_of(last.0, last.1));
        if assigned_classes(pairs_of(last.0, last.1)).dom().contains(glyph.0) {
            let k = choose|k: int| 0 <= k < last.0.len() && (#[trigger] last.0[k]).0 == glyph.0;
            assert(mapping[mapping.len() - 1].0[k] == glyph);
        }
    }
}

/// The smallest index among the glyphs of the class, or zero if it has
/// none.
fn smallest_glyph(class: &GlyphClass) -> (r: u16)
    ensures
        r == min_glyph(class@),
{
    let items = class.items();
    if items.len() == 0 {
        return 0;
    }
    let mut best: u16 = items[0].0;
    let mut i: usize = 1;
    assert(items@.take(1) =~= seq![items@[0]]);
    while i < items.len()
        invariant
            1 <= i <= items@.len(),
            items@ == class@,
            best == min_glyph(items@.take(i as int)),
        decreases items@.len() - i,
    {
        proof {
            let next = items@.take(i + 1);
            assert(next.drop_last() =~= items@.take(i as int));
            assert(next.last() == items@[i as int]);
        }
        if items[i].0 < best {
            best = items[i].0;
        }
        i += 1;
    }
    assert(items@.take(i as int) =~= items@);
    best
}

/// Whether the class `a` is numbered no later than the class `b`.
fn comes_first(a: &GlyphClass, b: &GlyphClass) -> (r: bool)
    ensures
        r == precedes(a@, b@),
{
    a.len() > b.len() || (a.len() == b.len() && smallest_glyph(a) <= smallest_glyph(b))
}

impl View for ClassDefBuilder2 {
    type V = Seq<Seq<GlyphId>>;

    closed spec fn view(&self) -> Seq<Seq<GlyphId>> {
        classes_view(self.classes@)
    }
}

impl ClassDefBuilder2 {
    /// Whether class zero is given to one of the classes. Where it is not,
    /// it stands for every glyph that is in no class.
    pub closed spec fn uses_class_0(&self) -> bool {
        self.use_class_0
    }

    /// The number that the first class gets.
    pub open spec fn base(&self) -> u16 {
        if self.uses_class_0() {
            0
        } else {
            1
        }
    }

    /// Whether the classes are valid: no class was added twice, and no glyph
    /// is in two classes.
    pub open spec fn wf(&self) -> bool {
        forall|i: int, j: int|
            0 <= i < j < self@.len() ==> (#[trigger] self@[i]) != (#[trigger] self@[j]) && disjoint(
                self@[i],
                self@[j],
            )
    }

    /// Whether the class may be added: it was added before, or none of its
    /// glyphs is in a class that was added.
    pub open spec fn spec_can_add(&self, class: Seq<GlyphId>) -> bool {
        self@.contains(class) || forall|i: int|
            0 <= i < self@.len() ==> disjoint(class, #[trigger] self@[i])
    }

    /// A builder without classes. With `use_class_0` the largest class will
    /// get the number zero, as the class-based subtables of pair positioning
    /// need it; without, the numbers begin at one.
    pub fn new(use_class_0: bool) -> (r: Self)
        ensures
            r@ == Seq::<Seq<GlyphId>>::empty(),
            r.uses_class_0() == use_class_0,
            r.wf(),
    {
        let r = ClassDefBuilder2 { classes: Vec::new(), use_class_0 };
        assert(r@ =~= Seq::<Seq<GlyphId>>::empty());
        r
    }

    /// The number of classes that were added.
    pub fn len(&self) -> (r: usize)
        ensures
            r == self@.len(),
    {
        self.classes.len()
    }

    /// Whether class zero is given to one of the classes.
    pub fn use_class_0(&self) -> (r: bool)
        ensures
            r == self.uses_class_0(),
    {
        self.use_class_0
    }

    /// Whether this very class was added before.
    fn has_class(&self, class: &GlyphClass) -> (r: bool)
        ensures
            r == self@.contains(class@),
    {
        let mut i: usize = 0;
        while i < self.classes.len()
            invariant
                i <= self.classes@.len(),
                forall|j: int| 0 <= j < i ==> self@[j] != class@,
            decreases self.classes@.len() - i,
        {
            assert(self@[i as int] == self.classes@[i as int]@);
            if self.classes[i].same_as(class) {
                return true;
            }
            i += 1;
        }
        false
    }

    /// Whether the class may be added.
    pub fn can_add(&self, class: &GlyphClass) -> (r: bool)
        ensures
            r == self.spec_can_add(class@),
    {
        if self.has_class(class) {
            return true;
        }
        let glyphs = class.items();
        let mut i: usize = 0;
        while i < self.classes.len()
            invariant
                i <= self.classes@.len(),
                glyphs@ == class@,
                !self@.contains(class@),
                forall|j: int| 0 <= j < i ==> disjoint(class@, #[trigger] self@[j]),
            decreases self.classes@.len() - i,
        {
            let other = &self.classes[i];
            assert(self@[i as int] == other@);
            let mut k: usize = 0;
            while k < glyphs.len()
                invariant
                    k <= glyphs@.len(),
                    glyphs@ == class@,
                    0 <= i < self@.len(),
                    self@[i as int] == other@,
                    !self@.contains(class@),
                    forall|a: int, b: int|
                        0 <= a < k && 0 <= b < other@.len() ==> glyphs@[a] != other@[b],
                decreases glyphs@.len() - k,
            {
                if other.contains(glyphs[k]) {
                    proof {
                        let b = choose|b: int| 0 <= b < other@.len() && other@[b] == glyphs@[k as int];
                        assert(class@[k as int] == self@[i as int][b]);
                        assert(!disjoint(class@, self@[i as int]));
                    }
                    return false;
                }
                k += 1;
            }
            i += 1;
        }
        true
    }

    /// Adds a class. A class that was added before is not added again.
    pub fn add(&mut self, class: GlyphClass)
        requires
            old(self).wf(),
            old(self).spec_can_add(class@),
        ensures
            final(self).wf(),
            final(self).uses_class_0() == old(self).uses_class_0(),
            final(self)@ == (if old(self)@.contains(class@) {
                old(self)@
            } else {
                old(self)@.push(class@)
            }),
    {
        if !self.has_class(&class) {
            self.classes.push(class);
            assert(self@ =~= old(self)@.push(class@));
            assert forall|i: int, j: int| 0 <= i < j < self@.len() implies (#[trigger] self@[i]) != (
            #[trigger] self@[j]) && disjoint(self@[i], self@[j]) by {
                if j < old(self)@.len() {
                    assert(self@[i] == old(self)@[i] && self@[j] == old(self)@[j]);
                } else {
                    assert(self@[i] == old(self)@[i]);
                    assert(disjoint(class@, old(self)@[i]));
                }
            }
        }
    }

    /// Numbers the classes and compiles the class definition. Returns the
    /// compiled table and the classes with their numbers, in the order of
    /// the numbers. The numbers must fit in sixteen bits.
    #[verifier::rlimit(40)]
    pub fn build(self) -> (r: (ClassDef, Vec<(GlyphClass, u16)>))
        requires
            self@.len() + self.base() <= 0x1_0000,
        ensures
            is_numbering(mapping_view(r.1@), self@, self.base()),
            class_def_entries(r.0) == assigned_classes(class_pairs(mapping_view(r.1@))),
            self.wf() ==> forall|a: int, b: int|
                0 <= a < b < r.1@.len() ==> (#[trigger] mapping_view(r.1@)[a]).0 != (
                #[trigger] mapping_view(r.1@)[b]).0 && disjoint(
                    mapping_view(r.1@)[a].0,
                    mapping_view(r.1@)[b].0,
                ),
    {
        broadcast use {to_multiset_build, to_multiset_remove, vstd::multiset::group_multiset_axioms};

        let base: u16 = if self.use_class_0 {
            0
        } else {
            1
        };
        let ghost all = self@;
        let mut rest = self.classes;
        let mut out: Vec<(GlyphClass, u16)> = Vec::new();
        assert(numbered_classes(mapping_view(out@)) =~= Seq::empty());
        proof {
            lemma_empty_to_multiset(numbered_classes(mapping_view(out@)));
        }
        assert(numbered_classes(mapping_view(out@)).to_multiset().add(
            classes_view(rest@).to_multiset(),
        ) =~= all.to_multiset());
        while rest.len() > 0
            invariant
                all.len() + base <= 0x1_0000,
                base <= 1,
                out@.len() + rest@.len() == all.len(),
                numbered_classes(mapping_view(out@)).to_multiset().add(
                    classes_view(rest@).to_multiset(),
                ) == all.to_multiset(),
                forall|i: int| 0 <= i < out@.len() ==> (#[trigger] out@[i]).1 == base + i,
                forall|i: int, j: int|
                    0 <= i < j < out@.len() ==> precedes(
                        (#[trigger] out@[i]).0@,
                        (#[trigger] out@[j]).0@,
                    ),
                forall|i: int, j: int|
                    0 <= i < out@.len() && 0 <= j < rest@.len() ==> precedes(
                        (#[trigger] out@[i]).0@,
                        (#[trigger] rest@[j])@,
                    ),
            decreases rest@.len(),
        {
            let mut best: usize = 0;
            let mut k: usize = 1;
            while k < rest.len()
                invariant
                    best < k <= rest@.len(),
                    forall|j: int| 0 <= j < k ==> precedes(rest@[best as int]@, (#[trigger] rest@[j])@),
                decreases rest@.len() - k,
            {
                if !comes_first(&rest[best], &rest[k]) {
                    best = k;
                }
                k += 1;
            }
            let ghost before_rest = rest@;
            let ghost before_out = out@;
            let id: u16 = base + out.len() as u16;
            let class = rest.remove(best);
            out.push((class, id));
            proof {
                let views = classes_view(before_rest);
                assert(classes_view(rest@) =~= views.remove(best as int));
                assert(views[best as int] == class@);
                let numbered = numbered_classes(mapping_view(before_out));
                assert(numbered_classes(mapping_view(out@)) =~= numbered.push(class@));
                assert(views.to_multiset().count(class@) > 0) by {
                    broadcast use vstd::seq_lib::to_multiset_contains;

                    assert(views.contains(class@));
                }
                to_multiset_build(numbered, class@);
                to_multiset_remove(views, best as int);
                let a = numbered.to_multiset();
                let b = views.to_multiset();
                assert forall|x: Seq<GlyphId>|
                    a.insert(class@).add(b.remove(class@)).count(x) == a.add(b).count(x) by {
                    if x == class@ {
                        assert(b.remove(class@).count(x) == b.count(x) - 1);
                    }
                }
                assert(a.insert(class@).add(b.remove(class@)) =~= a.add(b));
                assert forall|i: int, j: int|
                    0 <= i < out@.len() && 0 <= j < rest@.len() implies precedes(
                    (#[trigger] out@[i]).0@,
                    (#[trigger] rest@[j])@,
                ) by {
                    let oj = if j < best {
                        j
                    } else {
                        j + 1
                    };
                    assert(rest@[j] == before_rest[oj]);
                    if i < before_out.len() {
                        assert(out@[i] == before_out[i]);
                    } else {
                        assert(precedes(before_rest[best as int]@, before_rest[oj]@));
                    }
                }
                assert forall|i: int, j: int| 0 <= i < j < out@.len() implies precedes(
                    (#[trigger] out@[i]).0@,
                    (#[trigger] out@[j]).0@,
                ) by {
                    if j < before_out.len() {
                        assert(out@[i] == before_out[i] && out@[j] == before_out[j]);
                    } else {
                        assert(out@[i] == before_out[i]);
                        assert(precedes(before_out[i].0@, before_rest[best as int]@));
                    }
                }
            }
        }
        proof {
            assert(classes_view(rest@) =~= Seq::empty());
            lemma_empty_to_multiset(classes_view(rest@));
            assert(numbered_classes(mapping_view(out@)).to_multiset().add(
                classes_view(rest@).to_multiset(),
            ) =~= numbered_classes(mapping_view(out@)).to_multiset());
        }

        let mut pairs: Vec<(u16, u16)> = Vec::new();
        let mut i: usize = 0;
        assert(mapping_view(out@).take(0) =~= Seq::empty());
        while i < out.len()
            invariant
                i <= out@.len(),
                pairs@ == class_pairs(mapping_view(out@).take(i as int)),
            decreases out@.len() - i,
        {
            let glyphs = out[i].0.items();
            let id = out[i].1;
            let ghost start = pairs@;
            let mut k: usize = 0;
            while k < glyphs.len()
                invariant
                    k <= glyphs@.len(),
                    pairs@ == start + pairs_of(glyphs@, id).take(k as int),
                decreases glyphs@.len() - k,
            {
                pairs.push((glyphs[k].0, id));
                assert(pairs_of(glyphs@, id).take(k + 1) =~= pairs_of(glyphs@, id).take(
                    k as int,
                ).push((glyphs@[k as int].0, id)));
                k += 1;
            }
            proof {
                assert(pairs_of(glyphs@, id).take(k as int) =~= pairs_of(glyphs@, id));
                let next = mapping_view(out@).take(i + 1);
                assert(next.drop_last() =~= mapping_view(out@).take(i as int));
                assert(next.last() == (out@[i as int].0@, id));
            }
            i += 1;
        }
        assert(mapping_view(out@).take(i as int) =~= mapping_view(out@));
        proof {
            if self.wf() {
                lemma_numbering_disjoint(mapping_view(out@), all, base);
            }
        }
        (class_def_from_pairs(&pairs), out)
    }
}

} // verus!
