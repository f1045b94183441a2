//! The rules of the positioning lookups.

use vstd::prelude::*;

use crate::compile::lookups::rules::RuleList;
use crate::compile::tables::ClassId;
use crate::types::{Anchor, GlyphClass, GlyphId, ValueRecord};

verus! {

/// One glyph with the adjustment of its position.
#[derive(Debug, Clone, Copy, PartialEq, Eq, Structural)]
pub struct SinglePosRule {
    pub glyph: GlyphId,
    pub record: ValueRecord,
}

/// Two neighbours with the adjustment of each: two glyphs, or two classes.
#[derive(Debug)]
pub enum PairPosRule {
    Glyphs { one: GlyphId, val_one: ValueRecord, two: GlyphId, val_two: ValueRecord },
    Classes { first: GlyphClass, val_first: ValueRecord, second: GlyphClass, val_second: ValueRecord },
}

/// One glyph with the points at which a cursive line enters and leaves it.
#[derive(Debug, Clone, Copy, PartialEq, Eq, Structural)]
pub struct CursivePosRule {
    pub glyph: GlyphId,
    pub entry: Option<Anchor>,
    pub exit: Option<Anchor>,
}

/// A glyph of an attachment rule, with the number of its mark class and the
/// anchor for that class.
#[derive(Debug, Clone, Copy, PartialEq, Eq, Structural)]
pub struct Attachment {
    pub glyph: GlyphId,
    pub class: u16,
    pub anchor: Anchor,
}

/// Marks attached to base glyphs: a rule names a mark or a base.
#[derive(Debug, Clone, Copy, PartialEq, Eq, Structural)]
pub enum MarkToBaseRule {
    Mark(Attachment),
    Base(Attachment),
}

/// Marks attached to ligatures: a rule names a mark, or a ligature with the
/// anchor that each of its components has for the marks of one class. A
/// component without anchor for that class has `None`.
#[derive(Debug)]
pub enum MarkToLigRule {
    Mark(Attachment),
    Ligature { glyph: GlyphId, class: u16, components: Vec<Option<Anchor>> },
}

/// Marks attached to marks: a rule names an attaching mark (`Mark1`) or a
/// mark that marks are attached to (`Mark2`).
#[derive(Debug, Clone, Copy, PartialEq, Eq, Structural)]
pub enum MarkToMarkRule {
    Mark1(Attachment),
    Mark2(Attachment),
}

pub type SinglePosBuilder = RuleList<SinglePosRule>;

pub type PairPosBuilder = RuleList<PairPosRule>;

pub type CursivePosBuilder = RuleList<CursivePosRule>;

pub type MarkToBaseBuilder = RuleList<MarkToBaseRule>;

pub type MarkToLigBuilder = RuleList<MarkToLigRule>;

pub type MarkToMarkBuilder = RuleList<MarkToMarkRule>;

/// A mark glyph was given a second mark class within one subtable: the
/// glyph, and the class that it has already.
#[derive(Debug, Clone, Copy, PartialEq, Eq, Structural)]
pub struct PreviouslyAssignedClass {
    pub glyph_id: GlyphId,
    pub class: u16,
}

/// A rule of an attachment lookup. It names a glyph on one of the two sides
/// of the lookup: an attaching mark, which has a mark class, or a glyph that
/// marks are attached to.
pub trait AttachmentRule {
    /// The glyph that the rule names, and whether it stands on the second
    /// side of the lookup, as the sides are listed for the glyph classes.
    spec fn spec_side(&self) -> (GlyphId, bool);

    /// Whether the rule names an attaching mark.
    spec fn spec_attaches(&self) -> bool;

    /// The mark class that the rule gives to an attaching mark.
    spec fn spec_mark_class(&self) -> u16;

    /// The glyph that the rule names, and whether it stands on the second
    /// side of the lookup.
    fn side(&self) -> (r: (GlyphId, bool))
        ensures
            r == self.spec_side(),
    ;

    /// Whether the rule names an attaching mark.
    fn attaches(&self) -> (r: bool)
        ensures
            r == self.spec_attaches(),
    ;

    /// The mark class that the rule gives to an attached mark.
    fn mark_class(&self) -> (r: u16)
        ensures
            r == self.spec_mark_class(),
    ;
}

impl AttachmentRule for MarkToBaseRule {
    open spec fn spec_side(&self) -> (GlyphId, bool) {
        match self {
            MarkToBaseRule::Mark(a) => (a.glyph, true),
            MarkToBaseRule::Base(a) => (a.glyph, false),
        }
    }

    open spec fn spec_attaches(&self) -> bool {
        self is Mark
    }

    open spec fn spec_mark_class(&self) -> u16 {
        match self {
            MarkToBaseRule::Mark(a) => a.class,
            MarkToBaseRule::Base(a) => a.class,
        }
    }

    fn side(&self) -> (r: (GlyphId, bool)) {
        match self {
            MarkToBaseRule::Mark(a) => (a.glyph, true),
            MarkToBaseRule::Base(a) => (a.glyph, false),
        }
    }

    fn attaches(&self) -> (r: bool) {
        match self {
            MarkToBaseRule::Mark(_) => true,
            MarkToBaseRule::Base(_) => false,
        }
    }

    fn mark_class(&self) -> (r: u16) {
        match self {
            MarkToBaseRule::Mark(a) => a.class,
            MarkToBaseRule::Base(a) => a.class,
        }
    }
}

impl AttachmentRule for MarkToLigRule {
    open spec fn spec_side(&self) -> (GlyphId, bool) {
        match self {
            MarkToLigRule::Mark(a) => (a.glyph, true),
            MarkToLigRule::Ligature { glyph, .. } => (*glyph, false),
        }
    }

    open spec fn spec_attaches(&self) -> bool {
        self is Mark
    }

    open spec fn spec_mark_class(&self) -> u16 {
        match self {
            MarkToLigRule::Mark(a) => a.class,
            MarkToLigRule::Ligature { class, .. } => *class,
        }
    }

    fn side(&self) -> (r: (GlyphId, bool)) {
        match self {
            MarkToLigRule::Mark(a) => (a.glyph, true),
            MarkToLigRule::Ligature { glyph, .. } => (*glyph, false),
        }
    }

    fn attaches(&self) -> (r: bool) {
        match self {
            MarkToLigRule::Mark(_) => true,
            MarkToLigRule::Ligature { .. } => false,
        }
    }

    fn mark_class(&self) -> (r: u16) {
        match self {
            MarkToLigRule::Mark(a) => a.class,
            MarkToLigRule::Ligature { class, .. } => *class,
        }
    }
}

impl AttachmentRule for MarkToMarkRule {
    open spec fn spec_side(&self) -> (GlyphId, bool) {
        match self {
            MarkToMarkRule::Mark1(a) => (a.glyph, false),
            MarkToMarkRule::Mark2(a) => (a.glyph, true),
        }
    }

    open spec fn spec_attaches(&self) -> bool {
        self is Mark1
    }

    open spec fn spec_mark_class(&self) -> u16 {
        match self {
            MarkToMarkRule::Mark1(a) => a.class,
            MarkToMarkRule::Mark2(a) => a.class,
        }
    }

    fn side(&self) -> (r: (GlyphId, bool)) {
        match self {
            MarkToMarkRule::Mark1(a) => (a.glyph, false),
            MarkToMarkRule::Mark2(a) => (a.glyph, true),
        }
    }

    fn attaches(&self) -> (r: bool) {
        match self {
            MarkToMarkRule::Mark1(_) => true,
            MarkToMarkRule::Mark2(_) => false,
        }
    }

    fn mark_class(&self) -> (r: u16) {
        match self {
            MarkToMarkRule::Mark1(a) => a.class,
            MarkToMarkRule::Mark2(a) => a.class,
        }
    }
}

/// The glyphs that the rules name on one side, each with `class`, in the
/// order of the rules.
pub open spec fn side_pairs<R: AttachmentRule>(rules: Seq<R>, second: bool, class: ClassId) -> Seq<
    (GlyphId, ClassId),
>
    decreases rules.len(),
{
    if rules.len() == 0 {
        Seq::empty()
    } else if rules.last().spec_side().1 == second {
        side_pairs(rules.drop_last(), second, class).push((rules.last().spec_side().0, class))
    } else {
        side_pairs(rules.drop_last(), second, class)
    }
}

/// The classes that the rules of one subtable show: the glyphs of the first
/// side with the class `first`, then the glyphs of the second side as marks.
pub open spec fn subtable_pairs<R: AttachmentRule>(rules: Seq<R>, first: ClassId) -> Seq<
    (GlyphId, ClassId),
> {
    side_pairs(rules, false, first) + side_pairs(rules, true, ClassId::Mark)
}

/// The classes that the subtables of one lookup show, subtable by subtable.
pub open spec fn lookup_pairs<R: AttachmentRule>(subtables: Seq<RuleList<R>>, first: ClassId) -> Seq<
    (GlyphId, ClassId),
>
    decreases subtables.len(),
{
    if subtables.len() == 0 {
        Seq::empty()
    } else {
        lookup_pairs(subtables.drop_last(), first) + subtable_pairs(subtables.last()@, first)
    }
}

/// Appends to `out` the glyphs that the rules name on one side.
fn push_side<R: AttachmentRule>(
    out: &mut Vec<(GlyphId, ClassId)>,
    rules: &[R],
    marks: bool,
    class: ClassId,
)
    ensures
        final(out)@ == old(out)@ + side_pairs(rules@, marks, class),
{
    let mut i: usize = 0;
    assert(side_pairs(rules@.take(0), marks, class) =~= Seq::empty());
    while i < rules.len()
        invariant
            i <= rules@.len(),
            out@ == old(out)@ + side_pairs(rules@.take(i as int), marks, class),
        decreases rules@.len() - i,
    {
        let (glyph, is_mark) = rules[i].side();
        proof {
            let next = rules@.take(i + 1);
            assert(next.drop_last() =~= rules@.take(i as int));
            assert(next.last() == rules@[i as int]);
        }
        if is_mark == marks {
            out.push((glyph, class));
        }
        i += 1;
    }
    assert(rules@.take(i as int) =~= rules@);
}

/// Appends to `out` the classes that the subtables of one lookup show.
pub fn push_lookup_pairs<R: AttachmentRule>(
    out: &mut Vec<(GlyphId, ClassId)>,
    subtables: &[RuleList<R>],
    first: ClassId,
)
    ensures
        final(out)@ == old(out)@ + lookup_pairs(subtables@, first),
{
    let mut i: usize = 0;
    assert(lookup_pairs(subtables@.take(0), first) =~= Seq::empty());
    while i < subtables.len()
        invariant
            i <= subtables@.len(),
            out@ == old(out)@ + lookup_pairs(subtables@.take(i as int), first),
        decreases subtables@.len() - i,
    {
        let rules = subtables[i].rules();
        push_side(out, rules, false, first);
        push_side(out, rules, true, ClassId::Mark);
        proof {
            let next = subtables@.take(i + 1);
            assert(next.drop_last() =~= subtables@.take(i as int));
            assert(next.last() == subtables@[i as int]);
        }
        i += 1;
    }
    assert(subtables@.take(i as int) =~= subtables@);
}

/// The adjustment that the rules give for `glyph`: that of the last rule that
/// names it.
pub open spec fn record_of(rules: Seq<SinglePosRule>, glyph: GlyphId) -> Option<ValueRecord>
    decreases rules.len(),
{
    if rules.len() == 0 {
        None
    } else if rules.last().glyph == glyph {
        Some(rules.last().record)
    } else {
        record_of(rules.drop_last(), glyph)
    }
}

impl RuleList<SinglePosRule> {
    /// The adjustment that the rules give for `glyph`, if they give one.
    pub fn get(&self, glyph: GlyphId) -> (r: Option<ValueRecord>)
        ensures
            r == record_of(self@, glyph),
    {
        let rules = self.rules();
        let mut i: usize = rules.len();
        assert(rules@.take(i as int) =~= rules@);
        while i > 0
            invariant
                i <= rules@.len(),
                rules@ == self@,
                record_of(self@, glyph) == record_of(rules@.take(i as int), glyph),
            decreases i,
        {
            let rule = rules[i - 1];
            assert(rules@.take(i as int).last() == rule);
            assert(rules@.take(i as int).drop_last() =~= rules@.take(i - 1));
            if rule.glyph == glyph {
                return Some(rule.record);
            }
            i -= 1;
        }
        None
    }

    /// Whether the rule that adjusts `glyph` by `record` can be added without
    /// changing what the list gives for `glyph`.
    pub fn can_add(&self, glyph: GlyphId, record: ValueRecord) -> (r: bool)
        ensures
            r == (record_of(self@, glyph) is None || record_of(self@, glyph) == Some(record)),
    {
        match self.get(glyph) {
            None => true,
            Some(have) => have == record,
        }
    }

    /// Adds the rule that adjusts `glyph` by `record`.
    pub fn insert(&mut self, glyph: GlyphId, record: ValueRecord)
        ensures
            final(self)@ == old(self)@.push(SinglePosRule { glyph, record }),
    {
        self.push(SinglePosRule { glyph, record });
    }
}

/// The mark class that the rules give to the attaching mark `glyph`: that
/// of the first rule that names it as an attaching mark.
pub open spec fn class_of_mark<R: AttachmentRule>(rules: Seq<R>, glyph: GlyphId, from: int) -> Option<
    u16,
>
    decreases rules.len() - from,
{
    if from < 0 || from >= rules.len() {
        None
    } else if rules[from].spec_attaches() && rules[from].spec_side().0 == glyph {
        Some(rules[from].spec_mark_class())
    } else {
        class_of_mark(rules, glyph, from + 1)
    }
}

/// The mark class that the rules give to the attaching mark `glyph`, if
/// they name it.
pub fn find_mark_class<R: AttachmentRule>(rules: &[R], glyph: GlyphId) -> (r: Option<u16>)
    ensures
        r == class_of_mark(rules@, glyph, 0),
{
    let mut i: usize = 0;
    while i < rules.len()
        invariant
            i <= rules@.len(),
            class_of_mark(rules@, glyph, 0) == class_of_mark(rules@, glyph, i as int),
        decreases rules@.len() - i,
    {
        if rules[i].attaches() && rules[i].side().0 == glyph {
            return Some(rules[i].mark_class());
        }
        i += 1;
    }
    None
}

impl RuleList<MarkToBaseRule> {
    /// Adds a mark with its class and anchor. A mark belongs to one class:
    /// where the rules give it another class already, nothing is added.
    pub fn insert_mark(&mut self, mark: Attachment) -> (r: Result<(), PreviouslyAssignedClass>)
        ensures
            match class_of_mark(old(self)@, mark.glyph, 0) {
                Some(class) if class != mark.class => r == Err::<(), PreviouslyAssignedClass>(
                    PreviouslyAssignedClass { glyph_id: mark.glyph, class },
                ) && final(self)@ == old(self)@,
                _ => r is Ok && final(self)@ == old(self)@.push(MarkToBaseRule::Mark(mark)),
            },
    {
        match find_mark_class(self.rules(), mark.glyph) {
            Some(class) if class != mark.class => Err(
                PreviouslyAssignedClass { glyph_id: mark.glyph, class },
            ),
            _ => {
                self.push(MarkToBaseRule::Mark(mark));
                Ok(())
            },
        }
    }

    /// Adds a base glyph with the anchor for a mark class.
    pub fn insert_base(&mut self, base: Attachment)
        ensures
            final(self)@ == old(self)@.push(MarkToBaseRule::Base(base)),
    {
        self.push(MarkToBaseRule::Base(base));
    }
}

impl RuleList<MarkToLigRule> {
    /// Adds a mark with its class and anchor. A mark belongs to one class:
    /// where the rules give it another class already, nothing is added.
    pub fn insert_mark(&mut self, mark: Attachment) -> (r: Result<(), PreviouslyAssignedClass>)
        ensures
            match class_of_mark(old(self)@, mark.glyph, 0) {
                Some(class) if class != mark.class => r == Err::<(), PreviouslyAssignedClass>(
                    PreviouslyAssignedClass { glyph_id: mark.glyph, class },
                ) && final(self)@ == old(self)@,
                _ => r is Ok && final(self)@ == old(self)@.push(MarkToLigRule::Mark(mark)),
            },
    {
        match find_mark_class(self.rules(), mark.glyph) {
            Some(class) if class != mark.class => Err(
                PreviouslyAssignedClass { glyph_id: mark.glyph, class },
            ),
            _ => {
                self.push(MarkToLigRule::Mark(mark));
                Ok(())
            },
        }
    }

    /// Adds a ligature with the anchor that each of its components has for
    /// the marks of the class `class`.
    pub fn insert_ligature(&mut self, glyph: GlyphId, class: u16, components: Vec<Option<Anchor>>)
        ensures
            final(self)@ == old(self)@.push(MarkToLigRule::Ligature { glyph, class, components }),
    {
        self.push(MarkToLigRule::Ligature { glyph, class, components });
    }
}

impl RuleList<MarkToMarkRule> {
    /// Adds an attaching mark with its class and anchor. A mark belongs to
    /// one class: where the rules give it another class already, nothing is
    /// added.
    pub fn insert_mark1(&mut self, mark: Attachment) -> (r: Result<(), PreviouslyAssignedClass>)
        ensures
            match class_of_mark(old(self)@, mark.glyph, 0) {
                Some(class) if class != mark.class => r == Err::<(), PreviouslyAssignedClass>(
                    PreviouslyAssignedClass { glyph_id: mark.glyph, class },
                ) && final(self)@ == old(self)@,
                _ => r is Ok && final(self)@ == old(self)@.push(MarkToMarkRule::Mark1(mark)),
            },
    {
        match find_mark_class(self.rules(), mark.glyph) {
            Some(class) if class != mark.class => Err(
                PreviouslyAssignedClass { glyph_id: mark.glyph, class },
            ),
            _ => {
                self.push(MarkToMarkRule::Mark1(mark));
                Ok(())
            },
        }
    }

    /// Adds a mark that marks are attached to, with the anchor for a mark
    /// class.
    pub fn insert_mark2(&mut self, mark: Attachment)
        ensures
            final(self)@ == old(self)@.push(MarkToMarkRule::Mark2(mark)),
    {
        self.push(MarkToMarkRule::Mark2(mark));
    }
}

impl RuleList<PairPosRule> {
    /// Adds a rule for two glyphs.
    pub fn insert_pair(
        &mut self,
        one: GlyphId,
        val_one: ValueRecord,
        two: GlyphId,
        val_two: ValueRecord,
    )
        ensures
            final(self)@ == old(self)@.push(PairPosRule::Glyphs { one, val_one, two, val_two }),
    {
        self.push(PairPosRule::Glyphs { one, val_one, two, val_two });
    }

    /// Adds a rule for two classes.
    pub fn insert_classes(
        &mut self,
        one: GlyphClass,
        val_one: ValueRecord,
        two: GlyphClass,
        val_two: ValueRecord,
    )
        ensures
            final(self)@ == old(self)@.push(
                PairPosRule::Classes { first: one, val_first: val_one, second: two, val_second: val_two },
            ),
    {
        self.push(
            PairPosRule::Classes { first: one, val_first: val_one, second: two, val_second: val_two },
        );
    }
}

impl RuleList<CursivePosRule> {
    /// Adds the rule that gives `glyph` its entry and exit.
    pub fn insert(&mut self, glyph: GlyphId, entry: Option<Anchor>, exit: Option<Anchor>)
        ensures
            final(self)@ == old(self)@.push(CursivePosRule { glyph, entry, exit }),
    {
        self.push(CursivePosRule { glyph, entry, exit });
    }
}

} // verus!
