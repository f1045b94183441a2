//! Lookups: grouping rules into lookups of the right kind, numbering them,
//! and assembling the features and scripts that refer to them.

use vstd::prelude::*;

use crate::compile::tables::RawLookup;
use crate::kind::Kind;
use crate::types::Tag;

pub mod all;
pub mod contextual;
pub mod features;
pub mod gpos;
pub mod gsub;
pub mod helpers;
pub mod kinds;
pub mod rules;

pub use all::AllLookups;
pub use helpers::ClassDefBuilder2;
pub use kinds::{PositionLookup, SomeLookup, SubstitutionLookup};

verus! {

/// Something that is finished into a part of an assembled table.
pub trait Builder: Sized {
    /// What the builder gives when it is finished.
    type Output;

    /// Finishes the builder.
    fn build(self) -> Self::Output;
}

/// A lookup under construction: its flags, its mark filtering set if it has
/// one, and its subtables. Rules go into the last subtable.
#[derive(Debug)]
pub struct LookupBuilder<T> {
    pub flags: LookupFlag,
    pub mark_set: Option<FilterSetId>,
    pub subtables: Vec<T>,
}

impl<T: Default> LookupBuilder<T> {
    /// A lookup with one subtable, which is the default of its type.
    pub fn new(flags: LookupFlag, mark_set: Option<FilterSetId>) -> (r: Self)
        ensures
            r.flags == flags,
            r.mark_set == mark_set,
            r.subtables@.len() == 1,
            call_ensures(T::default, (), r.subtables@[0]),
    {
        let mut subtables: Vec<T> = Vec::new();
        subtables.push(T::default());
        LookupBuilder { flags, mark_set, subtables }
    }

    /// Begins a new subtable, which is the default of its type.
    pub fn force_subtable_break(&mut self)
        ensures
            final(self).flags == old(self).flags,
            final(self).mark_set == old(self).mark_set,
            final(self).subtables@.len() == old(self).subtables@.len() + 1,
            final(self).subtables@.drop_last() == old(self).subtables@,
            call_ensures(T::default, (), final(self).subtables@.last()),
    {
        self.subtables.push(T::default());
        assert(self.subtables@.drop_last() =~= old(self).subtables@);
    }
}

impl<T> LookupBuilder<T> {
    /// Whether there is a subtable to add rules to.
    pub open spec fn wf(&self) -> bool {
        self.subtables@.len() > 0
    }

    /// A lookup with the given subtables.
    pub fn new_with_lookups(
        flags: LookupFlag,
        mark_set: Option<FilterSetId>,
        subtables: Vec<T>,
    ) -> (r: Self)
        ensures
            r.flags == flags,
            r.mark_set == mark_set,
            r.subtables == subtables,
    {
        LookupBuilder { flags, mark_set, subtables }
    }

    /// The subtable that rules are added to, if there is one.
    pub fn last_mut(&mut self) -> (r: Option<&mut T>)
        ensures
            final(self).flags == old(self).flags,
            final(self).mark_set == old(self).mark_set,
            old(self).subtables@.len() == 0 ==> r is None && final(self).subtables@
                == old(self).subtables@,
            old(self).subtables@.len() > 0 ==> r is Some && *r.unwrap() == old(
                self,
            ).subtables@.last() && final(self).subtables@ == old(self).subtables@.update(
                old(self).subtables@.len() - 1,
                *final(r.unwrap()),
            ),
    {
        let n = self.subtables.len();
        if n == 0 {
            None
        } else {
            Some(&mut self.subtables[n - 1])
        }
    }

    /// The subtables, in order.
    pub fn iter_subtables(&self) -> (r: &[T])
        ensures
            r@ == self.subtables@,
    {
        self.subtables.as_slice()
    }
}

impl<U> LookupBuilder<U> {
    /// The same lookup with each subtable turned into the type `T`.
    pub fn convert<T: From<U>>(self) -> (r: LookupBuilder<T>)
        ensures
            r.flags == self.flags,
            r.mark_set == self.mark_set,
            r.subtables@.len() == self.subtables@.len(),
            forall|i: int|
                0 <= i < self.subtables@.len() ==> call_ensures(
                    T::from,
                    (self.subtables@[i],),
                    #[trigger] r.subtables@[i],
                ),
    {
        let LookupBuilder { flags, mark_set, subtables } = self;
        let ghost before = subtables@;
        let mut out: Vec<T> = Vec::new();
        for x in it: subtables
            invariant
                it.seq() == before,
                out@.len() == it.index(),
                forall|i: int|
                    0 <= i < out@.len() ==> call_ensures(T::from, (before[i],), #[trigger] out@[i]),
        {
            out.push(T::from(x));
        }
        LookupBuilder { flags, mark_set, subtables: out }
    }
}

/// What the builders `subtables` gave when they were finished: `outs` holds
/// the result of each, in order.
pub open spec fn built_from<U, T: Builder<Output = Vec<U>>>(
    subtables: Seq<T>,
    outs: Seq<Vec<U>>,
) -> bool {
    &&& outs.len() == subtables.len()
    &&& forall|i: int|
        0 <= i < outs.len() ==> call_ensures(T::build, (subtables[i],), #[trigger] outs[i])
}

/// The items of the vectors of `outs`, one vector after the other.
pub open spec fn flattened<U>(outs: Seq<Vec<U>>) -> Seq<U>
    decreases outs.len(),
{
    if outs.len() == 0 {
        Seq::empty()
    } else {
        flattened(outs.drop_last()) + outs.last()@
    }
}

impl<U, T: Builder<Output = Vec<U>>> Builder for LookupBuilder<T> {
    type Output = RawLookup<U>;

    /// The lookup with the subtables that the builders of the subtables
    /// give, in order; a builder may give none or several.
    fn build(self) -> (r: RawLookup<U>)
        ensures
            r.lookup_flag == self.flags,
            r.mark_filtering_set == self.mark_set,
            exists|outs: Seq<Vec<U>>|
                built_from(self.subtables@, outs) && r.subtables@ == flattened(outs),
    {
        let LookupBuilder { flags, mark_set, subtables } = self;
        let ghost before = subtables@;
        let ghost mut outs: Seq<Vec<U>> = Seq::empty();
        let mut out: Vec<U> = Vec::new();
        for x in it: subtables
            invariant
                it.seq() == before,
                outs.len() == it.index(),
                forall|i: int|
                    0 <= i < outs.len() ==> call_ensures(T::build, (before[i],), #[trigger] outs[i]),
                out@ == flattened(outs),
        {
            let mut built = x.build();
            proof {
                let prev = outs;
                outs = outs.push(built);
                assert(outs.drop_last() =~= prev);
            }
            out.append(&mut built);
        }
        assert(built_from(before, outs));
        RawLookup::new(flags, out, mark_set)
    }
}

/// The number of a mark filtering set.
pub type FilterSetId = u16;

/// The identity of a lookup: the table it belongs to and its position there.
#[derive(Debug, Clone, Copy, PartialEq, Eq, Ord, PartialOrd, Hash, Structural)]
pub enum LookupId {
    Gpos(usize),
    Gsub(usize),
    /// The lookup of a named block without rules. It is accepted where a
    /// lookup is referred to, and adds nothing to the tables.
    Empty,
}

/// The flags of a lookup, as the bits of the encoded flag word.
#[derive(Clone, Copy, Debug, PartialEq, Eq, Hash, Structural)]
pub struct LookupFlag {
    pub bits: u16,
}

/// The lookup flags in force, with the mark filtering set if one is chosen.
#[derive(Clone, Copy, Debug, PartialEq, Eq, Structural)]
pub struct LookupFlagInfo {
    pub flags: LookupFlag,
    pub mark_filter_set: Option<FilterSetId>,
}

/// The feature, language and script under which lookups are registered.
/// Keys are ordered by feature, then language, then script.
#[derive(Clone, Copy, Debug, PartialEq, Eq, Hash, PartialOrd, Ord, Structural)]
pub struct FeatureKey {
    pub feature: Tag,
    pub language: Tag,
    pub script: Tag,
}

impl LookupFlag {
    /// The bit that makes a lookup walk the text from right to left.
    pub const RIGHT_TO_LEFT: u16 = 0x0001;

    /// The bit that makes a lookup pass over base glyphs.
    pub const IGNORE_BASE_GLYPHS: u16 = 0x0002;

    /// The bit that makes a lookup pass over ligatures.
    pub const IGNORE_LIGATURES: u16 = 0x0004;

    /// The bit that makes a lookup pass over marks.
    pub const IGNORE_MARKS: u16 = 0x0008;

    /// The bit that says that the lookup has a mark filtering set.
    pub const USE_MARK_FILTERING_SET: u16 = 0x0010;

    /// The bits that hold the mark attachment class that a lookup is
    /// restricted to.
    pub const MARK_ATTACHMENT_TYPE_MASK: u16 = 0xFF00;

    /// The flag word with no bit set.
    pub fn empty() -> (r: LookupFlag)
        ensures
            r.bits == 0,
    {
        LookupFlag { bits: 0 }
    }

    /// The flags with the given bits.
    pub fn from_bits(bits: u16) -> (r: LookupFlag)
        ensures
            r.bits == bits,
    {
        LookupFlag { bits }
    }

    /// The bits of the flag word.
    pub fn to_bits(self) -> (r: u16)
        ensures
            r == self.bits,
    {
        self.bits
    }
}

impl LookupFlagInfo {
    /// The given flags and filtering set.
    pub fn new(flags: LookupFlag, mark_filter_set: Option<FilterSetId>) -> (r: LookupFlagInfo)
        ensures
            r == (LookupFlagInfo { flags, mark_filter_set }),
    {
        LookupFlagInfo { flags, mark_filter_set }
    }

    /// Resets to no flags and no filtering set.
    pub fn clear(&mut self)
        ensures
            *final(self) == (LookupFlagInfo {
                flags: LookupFlag { bits: 0 },
                mark_filter_set: None,
            }),
    {
        self.flags = LookupFlag::empty();
        self.mark_filter_set = None;
    }
}

impl LookupId {
    /// The position of the lookup in its table; for `Empty`, the largest
    /// number there is.
    pub open spec fn raw(self) -> int {
        match self {
            LookupId::Gpos(idx) => idx as int,
            LookupId::Gsub(idx) => idx as int,
            LookupId::Empty => usize::MAX as int,
        }
    }

    /// The identifier shifted by `value` positions if it is of the
    /// substitution table, unchanged otherwise.
    pub open spec fn shifted(self, value: int) -> LookupId {
        match self {
            LookupId::Gsub(idx) => LookupId::Gsub((idx + value) as usize),
            other => other,
        }
    }

    /// Whether the identifier names a lookup whose position fits the sixteen
    /// bits that an encoded table gives it.
    pub open spec fn encodable(self) -> bool {
        match self {
            LookupId::Gpos(idx) => idx <= u16::MAX,
            LookupId::Gsub(idx) => idx <= u16::MAX,
            LookupId::Empty => true,
        }
    }

    /// Whether the identifier names a lookup whose position fits the sixteen
    /// bits that an encoded table gives it.
    #[verifier::when_used_as_spec(encodable)]
    pub fn is_encodable(self) -> (r: bool)
        ensures
            r == self.encodable(),
    {
        match self {
            LookupId::Gpos(idx) => idx <= 0xFFFF,
            LookupId::Gsub(idx) => idx <= 0xFFFF,
            LookupId::Empty => true,
        }
    }

    /// The position of the lookup in its table.
    pub fn to_raw(self) -> (r: usize)
        ensures
            r == self.raw(),
    {
        match self {
            LookupId::Gpos(idx) => idx,
            LookupId::Gsub(idx) => idx,
            LookupId::Empty => usize::MAX,
        }
    }

    /// Moves an identifier of the substitution table `value` positions up;
    /// other identifiers stay as they are.
    pub fn adjust_if_gsub(&mut self, value: usize)
        requires
            *old(self) matches LookupId::Gsub(idx) ==> idx + value <= usize::MAX,
        ensures
            *final(self) == old(self).shifted(value as int),
    {
        if let LookupId::Gsub(idx) = self {
            *idx = *idx + value;
        }
    }

    /// The position of a lookup of the positioning table, as encoded.
    pub fn to_gpos_id_or_die(self) -> (r: u16)
        requires
            self is Gpos,
            self.encodable(),
        ensures
            self == LookupId::Gpos(r as usize),
    {
        match self {
            LookupId::Gpos(x) => x as u16,
            _ => 0,
        }
    }

    /// The position of a lookup of the substitution table, as encoded.
    pub fn to_gsub_id_or_die(self) -> (r: u16)
        requires
            self is Gsub,
            self.encodable(),
        ensures
            self == LookupId::Gsub(r as usize),
    {
        match self {
            LookupId::Gsub(x) => x as u16,
            _ => 0,
        }
    }
}

/// The positions of the lookups of the positioning table among `lookups`, in
/// the order in which they stand there.
pub open spec fn gpos_indices(lookups: Seq<LookupId>) -> Seq<u16>
    decreases lookups.len(),
{
    if lookups.len() == 0 {
        Seq::empty()
    } else {
        let rest = gpos_indices(lookups.drop_last());
        match lookups.last() {
            LookupId::Gpos(idx) => rest.push(idx as u16),
            _ => rest,
        }
    }
}

/// The positions of the lookups of the substitution table among `lookups`, in
/// the order in which they stand there.
pub open spec fn gsub_indices(lookups: Seq<LookupId>) -> Seq<u16>
    decreases lookups.len(),
{
    if lookups.len() == 0 {
        Seq::empty()
    } else {
        let rest = gsub_indices(lookups.drop_last());
        match lookups.last() {
            LookupId::Gsub(idx) => rest.push(idx as u16),
            _ => rest,
        }
    }
}

/// The number of lookups of empty blocks among `lookups`.
pub open spec fn empty_count(lookups: Seq<LookupId>) -> nat
    decreases lookups.len(),
{
    if lookups.len() == 0 {
        0
    } else {
        empty_count(lookups.drop_last()) + (if lookups.last() is Empty {
            1nat
        } else {
            0nat
        })
    }
}

/// Splitting parts the lookups: every lookup of the positioning table is in
/// the first list and every lookup of the substitution table in the second,
/// each list holds nothing else, and the lookups of empty blocks are in
/// neither.
#[verifier::rlimit(40)]
pub proof fn lemma_split_is_partition(lookups: Seq<LookupId>)
    requires
        forall|i: int| 0 <= i < lookups.len() ==> (#[trigger] lookups[i]).encodable(),
    ensures
        gpos_indices(lookups).len() + gsub_indices(lookups).len() + empty_count(lookups)
            == lookups.len(),
        forall|k: int|
            0 <= k < lookups.len() ==> ((#[trigger] lookups[k]) matches LookupId::Gpos(i)
                ==> gpos_indices(lookups).contains(i as u16)),
        forall|k: int|
            0 <= k < lookups.len() ==> ((#[trigger] lookups[k]) matches LookupId::Gsub(i)
                ==> gsub_indices(lookups).contains(i as u16)),
        forall|j: int|
            0 <= j < gpos_indices(lookups).len() ==> lookups.contains(
                LookupId::Gpos((#[trigger] gpos_indices(lookups)[j]) as usize),
            ),
        forall|j: int|
            0 <= j < gsub_indices(lookups).len() ==> lookups.contains(
                LookupId::Gsub((#[trigger] gsub_indices(lookups)[j]) as usize),
            ),
    decreases lookups.len(),
{
    if lookups.len() > 0 {
        let init = lookups.drop_last();
        let last = lookups.last();
        lemma_split_is_partition(init);
        let g = gpos_indices(lookups);
        let s = gsub_indices(lookups);
        assert(last.encodable());
        assert forall|k: int| 0 <= k < lookups.len() implies ((#[trigger] lookups[k]) matches LookupId::Gpos(
            i,
        ) ==> g.contains(i as u16)) by {
            if let LookupId::Gpos(i) = lookups[k] {
                if k < init.len() {
                    assert(init[k] == lookups[k]);
                    let w = choose|w: int|
                        0 <= w < gpos_indices(init).len() && gpos_indices(init)[w] == i as u16;
                    assert(g[w] == i as u16);
                } else {
                    assert(g[g.len() - 1] == i as u16);
                }
            }
        }
        assert forall|k: int| 0 <= k < lookups.len() implies ((#[trigger] lookups[k]) matches LookupId::Gsub(
            i,
        ) ==> s.contains(i as u16)) by {
            if let LookupId::Gsub(i) = lookups[k] {
                if k < init.len() {
                    assert(init[k] == lookups[k]);
                    let w = choose|w: int|
                        0 <= w < gsub_indices(init).len() && gsub_indices(init)[w] == i as u16;
                    assert(s[w] == i as u16);
                } else {
                    assert(s[s.len() - 1] == i as u16);
                }
            }
        }
        assert forall|j: int| 0 <= j < g.len() implies lookups.contains(
            LookupId::Gpos((#[trigger] g[j]) as usize),
        ) by {
            if j < gpos_indices(init).len() {
                let id = LookupId::Gpos(gpos_indices(init)[j] as usize);
                assert(init.contains(id));
                let w = choose|w: int| 0 <= w < init.len() && init[w] == id;
                assert(lookups[w] == id);
            } else {
                assert(lookups[lookups.len() - 1] == LookupId::Gpos(g[j] as usize));
            }
        }
        assert forall|j: int| 0 <= j < s.len() implies lookups.contains(
            LookupId::Gsub((#[trigger] s[j]) as usize),
        ) by {
            if j < gsub_indices(init).len() {
                let id = LookupId::Gsub(gsub_indices(init)[j] as usize);
                assert(init.contains(id));
                let w = choose|w: int| 0 <= w < init.len() && init[w] == id;
                assert(lookups[w] == id);
            } else {
                assert(lookups[lookups.len() - 1] == LookupId::Gsub(s[j] as usize));
            }
        }
    }
}

/// Splits the lookups of a feature by table, into the positions of those of
/// the positioning table and of those of the substitution table.
///
/// Most features hold lookups of one table only, but neither the language
/// nor the tables ask for that, and fonts with mixed features exist. The
/// lookup of an empty block is in neither list.
pub fn split_lookups(lookups: &[LookupId]) -> (r: (Vec<u16>, Vec<u16>))
    requires
        forall|i: int| 0 <= i < lookups@.len() ==> (#[trigger] lookups@[i]).encodable(),
    ensures
        r.0@ == gpos_indices(lookups@),
        r.1@ == gsub_indices(lookups@),
{
    let mut gpos: Vec<u16> = Vec::new();
    let mut gsub: Vec<u16> = Vec::new();
    let mut i: usize = 0;
    while i < lookups.len()
        invariant
            i <= lookups@.len(),
            forall|k: int| 0 <= k < lookups@.len() ==> (#[trigger] lookups@[k]).encodable(),
            gpos@ == gpos_indices(lookups@.take(i as int)),
            gsub@ == gsub_indices(lookups@.take(i as int)),
        decreases lookups@.len() - i,
    {
        let lookup = lookups[i];
        proof {
            let next = lookups@.take(i + 1);
            assert(next.drop_last() =~= lookups@.take(i as int));
            assert(next.last() == lookup);
            assert(lookup.encodable());
        }
        match lookup {
            LookupId::Gpos(_) => gpos.push(lookup.to_gpos_id_or_die()),
            LookupId::Gsub(_) => gsub.push(lookup.to_gsub_id_or_die()),
            LookupId::Empty => (),
        }
        i += 1;
    }
    assert(lookups@.take(i as int) =~= lookups@);
    (gpos, gsub)
}

/// Whether rules of this kind belong to the positioning table.
pub open spec fn spec_is_gpos_rule(kind: Kind) -> bool {
    kind == Kind::GposType1 || kind == Kind::GposType2 || kind == Kind::GposType3 || kind
        == Kind::GposType4 || kind == Kind::GposType5 || kind == Kind::GposType6 || kind
        == Kind::GposType7 || kind == Kind::GposType8
}

/// Whether rules of this kind belong to the positioning table.
#[verifier::when_used_as_spec(spec_is_gpos_rule)]
pub fn is_gpos_rule(kind: Kind) -> (r: bool)
    ensures
        r == spec_is_gpos_rule(kind),
{
    match kind {
        Kind::GposType1
        | Kind::GposType2
        | Kind::GposType3
        | Kind::GposType4
        | Kind::GposType5
        | Kind::GposType6
        | Kind::GposType7
        | Kind::GposType8 => true,
        _ => false,
    }
}

} // verus!
