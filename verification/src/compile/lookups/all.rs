//! The state of the lookup compiler: the lookup that rules are being added
//! to, the finished lookups of both tables, and the names given to lookups.

use smol_str::SmolStr;
use vstd::prelude::*;

use crate::compile::lookups::contextual::{
    all_nested, ids_can_shift, shifted_ids, ChainOrNot, ContextualLookupBuilder,
    SubChainContextBuilder, SubContextBuilder,
};
use crate::compile::lookups::features::{
    contains_key, gpos_assembled, gsub_assembled, register_all, register_one, size_feature,
    PosSubBuilder, TooManyFeatures,
};
use crate::compile::lookups::gpos::{lookup_pairs, push_lookup_pairs};
use crate::compile::lookups::gsub::{
    AlternateSubBuilder, AlternateSubRule, SingleSubBuilder, SingleSubRule,
};
use crate::compile::lookups::kinds::{can_renumber, is_renumbered, spec_is_lookup_kind};
use crate::compile::lookups::{
    is_gpos_rule, split_lookups, Builder, FeatureKey, LookupBuilder, LookupFlag, LookupFlagInfo,
    LookupId, PositionLookup, SomeLookup, SubstitutionLookup,
};
use crate::compile::tables::{ClassId, Gpos, Gsub};
use crate::compile::tags;
use crate::kind::Kind;
use crate::text::{smol_as_str, smol_chars, str_eq};
use crate::types::GlyphId;

verus! {

/// The state of the lookup compiler.
pub struct AllLookups {
    current: Option<SomeLookup>,
    current_name: Option<SmolStr>,
    gpos: Vec<PositionLookup>,
    gsub: Vec<SubstitutionLookup>,
    named: Vec<(SmolStr, LookupId)>,
}

/// The names bound by `entries`, a later entry taking the place of an earlier
/// one of the same name.
pub open spec fn bindings(entries: Seq<(SmolStr, LookupId)>) -> Map<Seq<char>, LookupId>
    decreases entries.len(),
{
    if entries.len() == 0 {
        Map::empty()
    } else {
        bindings(entries.drop_last()).insert(smol_chars(entries.last().0), entries.last().1)
    }
}

/// Whether `root` is the stored form of the contextual lookup `lookup` of the
/// positioning table: the chaining form, with the same flags, filtering set
/// and rules.
pub open spec fn is_gpos_root(
    root: PositionLookup,
    lookup: ContextualLookupBuilder<PositionLookup>,
) -> bool {
    &&& root matches PositionLookup::ChainedContextual(c)
    &&& c.flags == lookup.flags
    &&& c.mark_set == lookup.mark_set
    &&& c.subtables@.len() == lookup.subtables@.len()
    &&& forall|i: int|
        0 <= i < c.subtables@.len() ==> (#[trigger] c.subtables@[i]).0.0 == lookup.subtables@[i]
}

/// Whether `root` is the stored form of the contextual lookup `lookup` of the
/// substitution table: the chaining form, with the same flags, filtering set
/// and rules.
pub open spec fn is_gsub_root(
    root: SubstitutionLookup,
    lookup: ContextualLookupBuilder<SubstitutionLookup>,
) -> bool {
    &&& root matches SubstitutionLookup::ChainedContextual(c)
    &&& c.flags == lookup.flags
    &&& c.mark_set == lookup.mark_set
    &&& c.subtables@.len() == lookup.subtables@.len()
    &&& forall|i: int|
        0 <= i < c.subtables@.len() ==> (#[trigger] c.subtables@[i]).0.0 == lookup.subtables@[i]
}

/// Whether a contextual lookup carries the identifier under which it will be
/// stored in tables that hold `gpos_len` and `gsub_len` lookups.
pub open spec fn root_matches(lookup: SomeLookup, gpos_len: nat, gsub_len: nat) -> bool {
    match lookup {
        SomeLookup::GposContextual(l) => l.root_id matches LookupId::Gpos(i) && i == gpos_len,
        SomeLookup::GsubContextual(l) => l.root_id matches LookupId::Gsub(i) && i == gsub_len,
        _ => true,
    }
}

/// Whether every identifier that a name is bound to lies within tables that
/// hold `gpos_len` and `gsub_len` lookups.
pub open spec fn names_in_range(names: Map<Seq<char>, LookupId>, gpos_len: nat, gsub_len: nat) -> bool {
    forall|n: Seq<char>| #[trigger]
        names.dom().contains(n) ==> match names[n] {
            LookupId::Gpos(i) => i < gpos_len,
            LookupId::Gsub(i) => i < gsub_len,
            LookupId::Empty => true,
        }
}

/// Whether no two names are bound to the same lookup. The lookup of an empty
/// block may be shared.
pub open spec fn names_distinct(names: Map<Seq<char>, LookupId>) -> bool {
    forall|a: Seq<char>, b: Seq<char>|
        #![trigger names.dom().contains(a), names.dom().contains(b)]
        names.dom().contains(a) && names.dom().contains(b) && a != b && names[a]
            != LookupId::Empty ==> names[a] != names[b]
}

/// The lookup of the substitution table that `id` names, if it names one.
pub open spec fn lookup_at(gsub: Seq<SubstitutionLookup>, id: LookupId) -> Option<
    SubstitutionLookup,
> {
    match id {
        LookupId::Gsub(i) => if i < gsub.len() {
            Some(gsub[i as int])
        } else {
            None
        },
        _ => None,
    }
}

/// The lookups that `ids` name and that replace one glyph by one glyph, in
/// the order of `ids`.
pub open spec fn referenced_singles(gsub: Seq<SubstitutionLookup>, ids: Seq<LookupId>) -> Seq<
    SubstitutionLookup,
>
    decreases ids.len(),
{
    if ids.len() == 0 {
        Seq::empty()
    } else {
        let rest = referenced_singles(gsub, ids.drop_last());
        match lookup_at(gsub, ids.last()) {
            Some(SubstitutionLookup::Single(l)) => rest.push(SubstitutionLookup::Single(l)),
            _ => rest,
        }
    }
}

/// The identifiers nested in the subtables of a plain contextual lookup,
/// subtable by subtable.
pub open spec fn sub_context_ids(subtables: Seq<SubContextBuilder>) -> Seq<LookupId>
    decreases subtables.len(),
{
    if subtables.len() == 0 {
        Seq::empty()
    } else {
        sub_context_ids(subtables.drop_last()) + all_nested(subtables.last().0.rules@)
    }
}

/// The identifiers nested in the subtables of a chaining lookup, subtable by
/// subtable.
pub open spec fn sub_chain_ids(subtables: Seq<SubChainContextBuilder>) -> Seq<LookupId>
    decreases subtables.len(),
{
    if subtables.len() == 0 {
        Seq::empty()
    } else {
        sub_chain_ids(subtables.drop_last()) + all_nested(subtables.last().0.0.rules@)
    }
}

/// The lookups that the feature of all alternates draws on for the lookup
/// `id`: the lookup itself if it replaces one glyph by one glyph or offers
/// alternates; for a contextual lookup, the lookups that it applies and that
/// replace one glyph by one glyph; otherwise none.
pub open spec fn aalt_relevant(gsub: Seq<SubstitutionLookup>, id: LookupId) -> Seq<
    SubstitutionLookup,
> {
    match lookup_at(gsub, id) {
        Some(SubstitutionLookup::Single(l)) => seq![SubstitutionLookup::Single(l)],
        Some(SubstitutionLookup::Alternate(l)) => seq![SubstitutionLookup::Alternate(l)],
        Some(SubstitutionLookup::Contextual(l)) => referenced_singles(
            gsub,
            sub_context_ids(l.subtables@),
        ),
        Some(SubstitutionLookup::ChainedContextual(l)) => referenced_singles(
            gsub,
            sub_chain_ids(l.subtables@),
        ),
        _ => Seq::empty(),
    }
}

/// The lookups that the references point to.
pub open spec fn referents(refs: Seq<&SubstitutionLookup>) -> Seq<SubstitutionLookup> {
    Seq::new(refs.len(), |i: int| *refs[i])
}

/// The lookups that a list of identifiers names are those that its first
/// part names, followed by those that its second part names.
pub proof fn lemma_referenced_singles_concat(
    gsub: Seq<SubstitutionLookup>,
    a: Seq<LookupId>,
    b: Seq<LookupId>,
)
    ensures
        referenced_singles(gsub, a + b) == referenced_singles(gsub, a) + referenced_singles(gsub, b),
    decreases b.len(),
{
    if b.len() == 0 {
        assert(a + b =~= a);
        assert(referenced_singles(gsub, a) + referenced_singles(gsub, b) =~= referenced_singles(
            gsub,
            a,
        ));
    } else {
        lemma_referenced_singles_concat(gsub, a, b.drop_last());
        assert((a + b).drop_last() =~= a + b.drop_last());
        assert((a + b).last() == b.last());
        let head = referenced_singles(gsub, a);
        let tail = referenced_singles(gsub, b.drop_last());
        match lookup_at(gsub, b.last()) {
            Some(SubstitutionLookup::Single(l)) => {
                assert((head + tail).push(SubstitutionLookup::Single(l)) =~= head + tail.push(
                    SubstitutionLookup::Single(l),
                ));
            },
            _ => {},
        }
    }
}

/// The glyph classes that the attachment lookups among `gpos` show, lookup
/// by lookup. In a lookup that attaches marks to bases the bases are bases,
/// in one that attaches marks to ligatures the ligatures are ligatures, in
/// one that attaches marks to marks both sides are marks; the attached marks
/// are marks throughout. Other lookups show nothing.
pub open spec fn glyph_classes(gpos: Seq<PositionLookup>) -> Seq<(GlyphId, ClassId)>
    decreases gpos.len(),
{
    if gpos.len() == 0 {
        Seq::empty()
    } else {
        glyph_classes(gpos.drop_last()) + (match gpos.last() {
            PositionLookup::MarkToBase(l) => lookup_pairs(l.subtables@, ClassId::Base),
            PositionLookup::MarkToLig(l) => lookup_pairs(l.subtables@, ClassId::Ligature),
            PositionLookup::MarkToMark(l) => lookup_pairs(l.subtables@, ClassId::Mark),
            _ => Seq::empty(),
        })
    }
}

/// The rules that replace one glyph by one glyph among the alternates given
/// for the feature of all alternates: one for each glyph with exactly one
/// alternate.
pub open spec fn aalt_singles(alts: Seq<(GlyphId, Vec<GlyphId>)>) -> Seq<SingleSubRule>
    decreases alts.len(),
{
    if alts.len() == 0 {
        Seq::empty()
    } else if alts.last().1@.len() == 1 {
        aalt_singles(alts.drop_last()).push(
            SingleSubRule { target: alts.last().0, replacement: alts.last().1@[0] },
        )
    } else {
        aalt_singles(alts.drop_last())
    }
}

/// The rules that offer alternates among the alternates given for the
/// feature of all alternates: one for each glyph that has not exactly one
/// alternate.
pub open spec fn aalt_alternates(alts: Seq<(GlyphId, Vec<GlyphId>)>) -> Seq<AlternateSubRule>
    decreases alts.len(),
{
    if alts.len() == 0 {
        Seq::empty()
    } else if alts.last().1@.len() == 1 {
        aalt_alternates(alts.drop_last())
    } else {
        aalt_alternates(alts.drop_last()).push(
            AlternateSubRule { target: alts.last().0, alternates: alts.last().1 },
        )
    }
}

/// The number of lookups that the feature of all alternates puts in front of
/// the others: one if a glyph has exactly one alternate, and one if a glyph
/// has another number of alternates.
pub open spec fn aalt_count(alts: Seq<(GlyphId, Vec<GlyphId>)>) -> int {
    (if aalt_singles(alts).len() > 0 {
        1int
    } else {
        0int
    }) + (if aalt_alternates(alts).len() > 0 {
        1int
    } else {
        0int
    })
}

/// Once registering the first `upto` features has failed, registering all of
/// them fails.
pub proof fn lemma_register_all_fails(
    entries: Seq<(FeatureKey, Vec<LookupId>)>,
    required: Seq<FeatureKey>,
    upto: int,
)
    requires
        0 <= upto <= entries.len(),
        register_all(entries.take(upto), required) is None,
    ensures
        register_all(entries, required) is None,
    decreases entries.len() - upto,
{
    if upto < entries.len() {
        let next = entries.take(upto + 1);
        assert(next.drop_last() =~= entries.take(upto));
        lemma_register_all_fails(entries, required, upto + 1);
    } else {
        assert(entries.take(upto) =~= entries);
    }
}

/// Finishing the lookup of a named block binds the name: to the lookup of an
/// empty block if the block held no rules, so that no lookup was begun, and
/// otherwise to the identifier under which the lookup was stored.
pub proof fn lemma_finish_binds_name(
    before: AllLookups,
    after: AllLookups,
    result: Option<(LookupId, Option<SmolStr>)>,
)
    requires
        after.is_finish_of(&before, result),
        before.pending_name() is Some,
    ensures
        after.names().dom().contains(before.pending_name().unwrap()),
        before.current() is None ==> after.names()[before.pending_name().unwrap()]
            == LookupId::Empty && after.same_lookups(&before),
        before.current() is Some ==> result is Some && after.names()[before.pending_name().unwrap()]
            == result.unwrap().0 && after.has_stored(
            &before,
            before.current().unwrap(),
            result.unwrap().0,
        ),
{
}

/// The lookups made for a contextual lookup follow it directly in its table:
/// the lookup made `k`-th, counted from zero, stands `k + 1` places after
/// the lookup itself.
pub proof fn lemma_anon_lookups_follow_root(
    before: AllLookups,
    after: AllLookups,
    lookup: SomeLookup,
    id: LookupId,
    k: int,
)
    requires
        after.has_stored(&before, lookup, id),
    ensures
        lookup matches SomeLookup::GsubContextual(l) ==> (0 <= k < l.anon_lookups@.len()
            ==> after.gsub()[id.raw() + 1 + k] == l.anon_lookups@[k]),
        lookup matches SomeLookup::GposContextual(l) ==> (0 <= k < l.anon_lookups@.len()
            ==> after.gpos()[id.raw() + 1 + k] == l.anon_lookups@[k]),
        forall|i: int| 0 <= i < before.gsub().len() ==> after.gsub()[i] == before.gsub()[i],
        forall|i: int| 0 <= i < before.gpos().len() ==> after.gpos()[i] == before.gpos()[i],
{
    match lookup {
        SomeLookup::GsubContextual(l) => {
            let n = before.gsub().len() as int;
            if 0 <= k < l.anon_lookups@.len() {
                assert(after.gsub().skip(n + 1)[k] == after.gsub()[n + 1 + k]);
            }
            assert forall|i: int| 0 <= i < n implies after.gsub()[i] == before.gsub()[i] by {
                assert(after.gsub().take(n)[i] == after.gsub()[i]);
            }
        },
        SomeLookup::GposContextual(l) => {
            let n = before.gpos().len() as int;
            if 0 <= k < l.anon_lookups@.len() {
                assert(after.gpos().skip(n + 1)[k] == after.gpos()[n + 1 + k]);
            }
            assert forall|i: int| 0 <= i < n implies after.gpos()[i] == before.gpos()[i] by {
                assert(after.gpos().take(n)[i] == after.gpos()[i]);
            }
        },
        _ => {},
    }
}

/// After the lookups of the feature of all alternates were put in front of
/// the substitution table, every reference from a chaining lookup to a
/// lookup of the substitution table names the place to which that lookup
/// has moved: its old place plus the number of new lookups.
pub proof fn lemma_aalt_moves_chain_references(
    before: AllLookups,
    after: AllLookups,
    alts: Seq<(GlyphId, Vec<GlyphId>)>,
    ids: Seq<LookupId>,
    lookup: int,
    subtable: int,
    rule: int,
    position: int,
    reference: int,
)
    requires
        after.is_aalt_insertion_of(&before, alts, ids),
        0 <= lookup < before.gsub().len(),
        can_renumber(before.gsub()[lookup], aalt_count(alts)),
        before.gsub()[lookup] matches SubstitutionLookup::ChainedContextual(b) && 0 <= subtable
            < b.subtables@.len() && 0 <= rule < b.subtables@[subtable].0.0.rules@.len() && 0
            <= position < b.subtables@[subtable].0.0.rules@[rule].context@.len() && 0 <= reference
            < b.subtables@[subtable].0.0.rules@[rule].context@[position].1@.len(),
    ensures
        0 <= aalt_count(alts) <= 2,
        after.gsub()[aalt_count(alts) + lookup] matches SubstitutionLookup::ChainedContextual(a)
            && before.gsub()[lookup] matches SubstitutionLookup::ChainedContextual(b) && (match b.subtables@[subtable].0.0.rules@[rule].context@[position].1@[reference] {
            LookupId::Gsub(k) => a.subtables@[subtable].0.0.rules@[rule].context@[position].1@[reference] matches LookupId::Gsub(
                moved,
            ) && moved == k + aalt_count(alts),
            other => a.subtables@[subtable].0.0.rules@[rule].context@[position].1@[reference]
                == other,
        }),
{
    let n = aalt_count(alts);
    let a = after.gsub()[n + lookup];
    let b = before.gsub()[lookup];
    assert(is_renumbered(a, b, n));
    let sa = a->ChainedContextual_0.subtables@[subtable].0.0;
    let sb = b->ChainedContextual_0.subtables@[subtable].0.0;
    assert(sa.is_shift_of(&sb, n));
    assert(sb.can_shift(n));
    let ra = sa.rules@[rule];
    let rb = sb.rules@[rule];
    assert(ra.is_shift_of(&rb, n));
    assert(rb.can_shift(n));
    assert(ra.nested(position) == shifted_ids(rb.nested(position), n));
    assert(ids_can_shift(rb.nested(position), n));
    assert(rb.nested(position)[reference] == rb.context@[position].1@[reference]);
}

/// After the lookups of the feature of all alternates were put in front of
/// the substitution table, every reference from a plain contextual lookup to
/// a lookup of the substitution table names the place to which that lookup
/// has moved: its old place plus the number of new lookups.
pub proof fn lemma_aalt_moves_context_references(
    before: AllLookups,
    after: AllLookups,
    alts: Seq<(GlyphId, Vec<GlyphId>)>,
    ids: Seq<LookupId>,
    lookup: int,
    subtable: int,
    rule: int,
    position: int,
    reference: int,
)
    requires
        after.is_aalt_insertion_of(&before, alts, ids),
        0 <= lookup < before.gsub().len(),
        can_renumber(before.gsub()[lookup], aalt_count(alts)),
        before.gsub()[lookup] matches SubstitutionLookup::Contextual(b) && 0 <= subtable
            < b.subtables@.len() && 0 <= rule < b.subtables@[subtable].0.rules@.len() && 0
            <= position < b.subtables@[subtable].0.rules@[rule].context@.len() && 0 <= reference
            < b.subtables@[subtable].0.rules@[rule].context@[position].1@.len(),
    ensures
        0 <= aalt_count(alts) <= 2,
        after.gsub()[aalt_count(alts) + lookup] matches SubstitutionLookup::Contextual(a)
            && before.gsub()[lookup] matches SubstitutionLookup::Contextual(b) && (match b.subtables@[subtable].0.rules@[rule].context@[position].1@[reference] {
            LookupId::Gsub(k) => a.subtables@[subtable].0.rules@[rule].context@[position].1@[reference] matches LookupId::Gsub(
                moved,
            ) && moved == k + aalt_count(alts),
            other => a.subtables@[subtable].0.rules@[rule].context@[position].1@[reference]
                == other,
        }),
{
    let n = aalt_count(alts);
    let a = after.gsub()[n + lookup];
    let b = before.gsub()[lookup];
    assert(is_renumbered(a, b, n));
    let sa = a->Contextual_0.subtables@[subtable].0;
    let sb = b->Contextual_0.subtables@[subtable].0;
    assert(sa.is_shift_of(&sb, n));
    assert(sb.can_shift(n));
    let ra = sa.rules@[rule];
    let rb = sb.rules@[rule];
    assert(ra.is_shift_of(&rb, n));
    assert(rb.can_shift(n));
    assert(ra.nested(position) == shifted_ids(rb.nested(position), n));
    assert(ids_can_shift(rb.nested(position), n));
    assert(rb.nested(position)[reference] == rb.context@[position].1@[reference]);
}

/// Binding a name to a lookup that was stored just now, or to the lookup of
/// an empty block, keeps the names bound to different lookups that exist.
pub proof fn lemma_bind_keeps_names(
    names: Map<Seq<char>, LookupId>,
    name: Seq<char>,
    id: LookupId,
    gpos_len: nat,
    gsub_len: nat,
    new_gpos_len: nat,
    new_gsub_len: nat,
)
    requires
        names_in_range(names, gpos_len, gsub_len),
        names_distinct(names),
        gpos_len <= new_gpos_len,
        gsub_len <= new_gsub_len,
        match id {
            LookupId::Gpos(i) => gpos_len <= i < new_gpos_len,
            LookupId::Gsub(i) => gsub_len <= i < new_gsub_len,
            LookupId::Empty => true,
        },
    ensures
        names_in_range(names.insert(name, id), new_gpos_len, new_gsub_len),
        names_distinct(names.insert(name, id)),
        names_in_range(names, new_gpos_len, new_gsub_len),
{
    let after = names.insert(name, id);
    assert forall|n: Seq<char>| #[trigger] after.dom().contains(n) implies match after[n] {
        LookupId::Gpos(i) => i < new_gpos_len,
        LookupId::Gsub(i) => i < new_gsub_len,
        LookupId::Empty => true,
    } by {
        if n != name {
            assert(names.dom().contains(n));
        }
    }
    assert forall|a: Seq<char>, b: Seq<char>|
        #![trigger after.dom().contains(a), after.dom().contains(b)]
        after.dom().contains(a) && after.dom().contains(b) && a != b && after[a]
            != LookupId::Empty implies after[a] != after[b] by {
        if a != name {
            assert(names.dom().contains(a));
        }
        if b != name {
            assert(names.dom().contains(b));
        }
    }
    assert forall|n: Seq<char>| #[trigger] names.dom().contains(n) implies match names[n] {
        LookupId::Gpos(i) => i < new_gpos_len,
        LookupId::Gsub(i) => i < new_gsub_len,
        LookupId::Empty => true,
    } by {}
}

impl AllLookups {
    /// The lookup that rules are being added to, if there is one.
    pub closed spec fn current(&self) -> Option<SomeLookup> {
        self.current
    }

    /// The name that the next finished lookup will be bound to, if one was
    /// given.
    pub closed spec fn pending_name(&self) -> Option<Seq<char>> {
        match self.current_name {
            Some(name) => Some(smol_chars(name)),
            None => None,
        }
    }

    /// The finished lookups of the positioning table, in the order of their
    /// identifiers.
    pub closed spec fn gpos(&self) -> Seq<PositionLookup> {
        self.gpos@
    }

    /// The finished lookups of the substitution table, in the order of their
    /// identifiers.
    pub closed spec fn gsub(&self) -> Seq<SubstitutionLookup> {
        self.gsub@
    }

    /// The lookups that names are bound to.
    pub closed spec fn names(&self) -> Map<Seq<char>, LookupId> {
        bindings(self.named@)
    }

    /// The state is well formed: rules can be added to the current lookup, a
    /// current contextual lookup carries the identifier under which it will
    /// be stored, and the names are bound to different lookups that exist.
    pub open spec fn wf(&self) -> bool {
        &&& self.current() matches Some(c) ==> c.wf() && root_matches(
            c,
            self.gpos().len(),
            self.gsub().len(),
        )
        &&& names_in_range(self.names(), self.gpos().len(), self.gsub().len())
        &&& names_distinct(self.names())
    }

    /// Whether the finished lookups are those of `before` with `lookup`
    /// stored under `id`. A plain lookup goes to the end of its table. A
    /// contextual lookup goes to the end of its table in the chaining form,
    /// and the lookups made for it follow it directly.
    pub open spec fn has_stored(&self, before: &AllLookups, lookup: SomeLookup, id: LookupId) -> bool {
        match lookup {
            SomeLookup::GsubLookup(sub) => {
                &&& id matches LookupId::Gsub(i) && i == before.gsub().len()
                &&& self.gsub() == before.gsub().push(sub)
                &&& self.gpos() == before.gpos()
            },
            SomeLookup::GposLookup(pos) => {
                &&& id matches LookupId::Gpos(i) && i == before.gpos().len()
                &&& self.gpos() == before.gpos().push(pos)
                &&& self.gsub() == before.gsub()
            },
            SomeLookup::GposContextual(l) => {
                &&& id matches LookupId::Gpos(i) && i == before.gpos().len()
                &&& self.gsub() == before.gsub()
                &&& self.gpos().len() == before.gpos().len() + 1 + l.anon_lookups@.len()
                &&& self.gpos().take(before.gpos().len() as int) == before.gpos()
                &&& is_gpos_root(self.gpos()[before.gpos().len() as int], l)
                &&& self.gpos().skip(before.gpos().len() as int + 1) == l.anon_lookups@
            },
            SomeLookup::GsubContextual(l) => {
                &&& id matches LookupId::Gsub(i) && i == before.gsub().len()
                &&& self.gpos() == before.gpos()
                &&& self.gsub().len() == before.gsub().len() + 1 + l.anon_lookups@.len()
                &&& self.gsub().take(before.gsub().len() as int) == before.gsub()
                &&& is_gsub_root(self.gsub()[before.gsub().len() as int], l)
                &&& self.gsub().skip(before.gsub().len() as int + 1) == l.anon_lookups@
            },
        }
    }

    /// Whether the finished lookups are those of `before`.
    pub open spec fn same_lookups(&self, before: &AllLookups) -> bool {
        self.gpos() == before.gpos() && self.gsub() == before.gsub()
    }

    /// The state before any rule: no lookup, no name.
    pub fn new() -> (r: AllLookups)
        ensures
            r.current() is None,
            r.pending_name() is None,
            r.gpos().len() == 0,
            r.gsub().len() == 0,
            r.names() == Map::<Seq<char>, LookupId>::empty(),
            r.wf(),
    {
        AllLookups {
            current: None,
            current_name: None,
            gpos: Vec::new(),
            gsub: Vec::new(),
            named: Vec::new(),
        }
    }

    /// Stores a finished lookup and says under which identifier.
    fn push(&mut self, lookup: SomeLookup) -> (id: LookupId)
        requires
            root_matches(lookup, old(self).gpos().len(), old(self).gsub().len()),
        ensures
            final(self).has_stored(old(self), lookup, id),
            final(self).current() == old(self).current(),
            final(self).pending_name() == old(self).pending_name(),
            final(self).names() == old(self).names(),
    {
        match lookup {
            SomeLookup::GsubLookup(sub) => {
                self.gsub.push(sub);
                LookupId::Gsub(self.gsub.len() - 1)
            },
            SomeLookup::GposLookup(pos) => {
                self.gpos.push(pos);
                LookupId::Gpos(self.gpos.len() - 1)
            },
            SomeLookup::GposContextual(lookup) => {
                let id = LookupId::Gpos(self.gpos.len());
                let ghost n = self.gpos@.len() as int;
                let ghost anon = lookup.anon_lookups@;
                let (lookup, mut anon_lookups) = lookup.into_lookups();
                // Every contextual lookup is stored in the chaining form.
                match lookup {
                    ChainOrNot::Context(lookup) => self.gpos.push(
                        PositionLookup::ChainedContextual(lookup.convert()),
                    ),
                    ChainOrNot::Chain(lookup) => self.gpos.push(
                        PositionLookup::ChainedContextual(lookup.convert()),
                    ),
                }
                let ghost root = self.gpos@[n];
                self.gpos.append(&mut anon_lookups);
                proof {
                    assert(self.gpos@.take(n) =~= old(self).gpos@);
                    assert(self.gpos@[n] == root);
                    assert(self.gpos@.skip(n + 1) =~= anon);
                }
                id
            },
            SomeLookup::GsubContextual(lookup) => {
                let id = LookupId::Gsub(self.gsub.len());
                let ghost n = self.gsub@.len() as int;
                let ghost anon = lookup.anon_lookups@;
                let (lookup, mut anon_lookups) = lookup.into_lookups();
                match lookup {
                    ChainOrNot::Context(lookup) => self.gsub.push(
                        SubstitutionLookup::ChainedContextual(lookup.convert()),
                    ),
                    ChainOrNot::Chain(lookup) => self.gsub.push(
                        SubstitutionLookup::ChainedContextual(lookup.convert()),
                    ),
                }
                let ghost root = self.gsub@[n];
                self.gsub.append(&mut anon_lookups);
                proof {
                    assert(self.gsub@.take(n) =~= old(self).gsub@);
                    assert(self.gsub@[n] == root);
                    assert(self.gsub@.skip(n + 1) =~= anon);
                }
                id
            },
        }
    }

    /// The finished lookups of the positioning table, in the order of their
    /// identifiers.
    pub fn gpos_lookups(&self) -> (r: &[PositionLookup])
        ensures
            r@ == self.gpos(),
    {
        self.gpos.as_slice()
    }

    /// The finished lookups of the substitution table, in the order of their
    /// identifiers.
    pub fn gsub_lookups(&self) -> (r: &[SubstitutionLookup])
        ensures
            r@ == self.gsub(),
    {
        self.gsub.as_slice()
    }

    /// The lookup that rules are being added to, if there is one.
    pub fn current_lookup(&self) -> (r: Option<&SomeLookup>)
        ensures
            match self.current() {
                Some(c) => r matches Some(found) && *found == c,
                None => r is None,
            },
    {
        self.current.as_ref()
    }

    /// The lookup that `name` is bound to, if it is bound.
    pub fn get_named(&self, name: &str) -> (r: Option<LookupId>)
        ensures
            r == (if self.names().dom().contains(name@) {
                Some(self.names()[name@])
            } else {
                None
            }),
    {
        let mut i: usize = self.named.len();
        assert(self.named@.take(i as int) =~= self.named@);
        while i > 0
            invariant
                i <= self.named@.len(),
                self.names().dom().contains(name@) == bindings(
                    self.named@.take(i as int),
                ).dom().contains(name@),
                self.names().dom().contains(name@) ==> self.names()[name@] == bindings(
                    self.named@.take(i as int),
                )[name@],
            decreases i,
        {
            proof {
                let here = self.named@.take(i as int);
                assert(here.drop_last() =~= self.named@.take(i - 1));
                assert(here.last() == self.named@[i - 1]);
            }
            if str_eq(smol_as_str(&self.named[i - 1].0), name) {
                return Some(self.named[i - 1].1);
            }
            i -= 1;
        }
        None
    }

    /// The lookup that rules are being added to, if there is one.
    pub fn current_mut(&mut self) -> (r: Option<&mut SomeLookup>)
        ensures
            match old(self).current() {
                None => r is None && final(self).current() is None,
                Some(c) => r is Some && *r.unwrap() == c && final(self).current() == Some(
                    *final(r.unwrap()),
                ),
            },
            final(self).same_lookups(old(self)),
            final(self).pending_name() == old(self).pending_name(),
            final(self).names() == old(self).names(),
    {
        self.current.as_mut()
    }

    /// Whether there is a lookup that rules are being added to.
    pub fn has_current(&self) -> (r: bool)
        ensures
            r == self.current() is Some,
    {
        self.current.is_some()
    }

    /// Whether a rule of `kind` needs a new lookup: there is no current
    /// lookup, or the current lookup holds rules of another kind. To be asked
    /// before each rule.
    pub fn needs_new_lookup(&self, kind: Kind) -> (r: bool)
        ensures
            r == (self.current() is None || self.current().unwrap().spec_kind() != kind),
    {
        match &self.current {
            None => true,
            Some(current) => current.kind() != kind,
        }
    }

    /// Begins a new subtable in the current lookup. The result says whether
    /// there was a current lookup; without one nothing changes.
    pub fn add_subtable_break(&mut self) -> (r: bool)
        ensures
            r == old(self).current() is Some,
            match old(self).current() {
                Some(c) => final(self).current() matches Some(n) && n.is_break_of(&c),
                None => final(self).current() is None,
            },
            final(self).same_lookups(old(self)),
            final(self).pending_name() == old(self).pending_name(),
            final(self).names() == old(self).names(),
            old(self).wf() ==> final(self).wf(),
    {
        match &mut self.current {
            Some(current) => {
                current.force_subtable_break();
                true
            },
            None => false,
        }
    }

    /// Keeps a name for the lookup that is finished next.
    pub fn start_named(&mut self, name: SmolStr)
        ensures
            final(self).pending_name() == Some(smol_chars(name)),
            final(self).current() == old(self).current(),
            final(self).same_lookups(old(self)),
            final(self).names() == old(self).names(),
            old(self).wf() ==> final(self).wf(),
    {
        self.current_name = Some(name);
    }

    /// Stores the current lookup, if there is one, and begins a new lookup
    /// for rules of `kind` with the given flags. Returns the identifier of
    /// the lookup that was stored.
    pub fn start_lookup(&mut self, kind: Kind, flags: LookupFlagInfo) -> (r: Option<LookupId>)
        requires
            old(self).wf(),
            spec_is_lookup_kind(kind),
        ensures
            final(self).wf(),
            final(self).pending_name() == old(self).pending_name(),
            final(self).names() == old(self).names(),
            match old(self).current() {
                Some(c) => r matches Some(id) && final(self).has_stored(old(self), c, id),
                None => r is None && final(self).same_lookups(old(self)),
            },
            final(self).current() matches Some(n) && n.is_new_rooted(
                kind,
                flags.flags,
                flags.mark_filter_set,
                n.root_id(),
            ) && root_matches(n, final(self).gpos().len(), final(self).gsub().len()),
    {
        let finished_id = match self.current.take() {
            Some(lookup) => Some(self.push(lookup)),
            None => None,
        };
        let mut new_one = SomeLookup::new(kind, flags.flags, flags.mark_filter_set);
        let new_id = if is_gpos_rule(kind) {
            LookupId::Gpos(self.gpos.len())
        } else {
            LookupId::Gsub(self.gsub.len())
        };
        match &mut new_one {
            SomeLookup::GsubContextual(lookup) => lookup.root_id = new_id,
            SomeLookup::GposContextual(lookup) => lookup.root_id = new_id,
            SomeLookup::GsubLookup(_) | SomeLookup::GposLookup(_) => (),
        }
        self.current = Some(new_one);
        finished_id
    }

    /// Whether this state is `before` after its current lookup was finished,
    /// with `result` returned.
    ///
    /// A current lookup is stored, and a pending name is bound to its
    /// identifier. Without a current lookup a pending name is bound to the
    /// lookup of an empty block. Without either nothing happens.
    pub open spec fn is_finish_of(
        &self,
        before: &AllLookups,
        result: Option<(LookupId, Option<SmolStr>)>,
    ) -> bool {
        &&& self.current() is None
        &&& self.pending_name() is None
        &&& match (before.current(), before.pending_name()) {
            (Some(c), Some(n)) => {
                &&& result matches Some((id, Some(name)))
                &&& smol_chars(name) == n
                &&& self.has_stored(before, c, id)
                &&& self.names() == before.names().insert(n, id)
            },
            (Some(c), None) => {
                &&& result matches Some((id, None))
                &&& self.has_stored(before, c, id)
                &&& self.names() == before.names()
            },
            (None, Some(n)) => {
                &&& result matches Some((LookupId::Empty, Some(name)))
                &&& smol_chars(name) == n
                &&& self.same_lookups(before)
                &&& self.names() == before.names().insert(n, LookupId::Empty)
            },
            (None, None) => {
                &&& result is None
                &&& self.same_lookups(before)
                &&& self.names() == before.names()
            },
        }
    }

    /// Finishes the current lookup: stores it, binds the pending name, and
    /// returns the identifier with the name.
    pub fn finish_current(&mut self) -> (r: Option<(LookupId, Option<SmolStr>)>)
        requires
            old(self).wf(),
        ensures
            final(self).wf(),
            final(self).is_finish_of(old(self), r),
    {
        let current = self.current.take();
        let current_name = self.current_name.take();
        match current {
            Some(lookup) => {
                let id = self.push(lookup);
                proof {
                    lemma_bind_keeps_names(
                        old(self).names(),
                        Seq::empty(),
                        id,
                        old(self).gpos().len(),
                        old(self).gsub().len(),
                        self.gpos().len(),
                        self.gsub().len(),
                    );
                }
                match current_name {
                    Some(name) => {
                        proof {
                            lemma_bind_keeps_names(
                                old(self).names(),
                                smol_chars(name),
                                id,
                                old(self).gpos().len(),
                                old(self).gsub().len(),
                                self.gpos().len(),
                                self.gsub().len(),
                            );
                        }
                        self.bind(name.clone(), id);
                        Some((id, Some(name)))
                    },
                    None => Some((id, None)),
                }
            },
            None => match current_name {
                Some(name) => {
                    // a named block without rules: the name stands for the
                    // empty lookup
                    proof {
                        lemma_bind_keeps_names(
                            old(self).names(),
                            smol_chars(name),
                            LookupId::Empty,
                            old(self).gpos().len(),
                            old(self).gsub().len(),
                            self.gpos().len(),
                            self.gsub().len(),
                        );
                    }
                    self.bind(name.clone(), LookupId::Empty);
                    Some((LookupId::Empty, Some(name)))
                },
                None => None,
            },
        }
    }

    /// Binds `name` to `id`.
    fn bind(&mut self, name: SmolStr, id: LookupId)
        ensures
            final(self).names() == old(self).names().insert(smol_chars(name), id),
            final(self).current() == old(self).current(),
            final(self).pending_name() == old(self).pending_name(),
            final(self).same_lookups(old(self)),
    {
        self.named.push((name, id));
        assert(self.named@.drop_last() =~= old(self).named@);
    }

    /// The lookup of the substitution table that `id` names, if it names one.
    pub fn get_gsub_lookup(&self, id: &LookupId) -> (r: Option<&SubstitutionLookup>)
        ensures
            match lookup_at(self.gsub(), *id) {
                Some(l) => r matches Some(found) && *found == l,
                None => r is None,
            },
    {
        match id {
            LookupId::Gsub(idx) => if *idx < self.gsub.len() {
                Some(&self.gsub[*idx])
            } else {
                None
            },
            _ => None,
        }
    }

    /// Appends to `out` the lookups that `ids` name and that replace one
    /// glyph by one glyph.
    fn push_referenced<'a>(&'a self, out: &mut Vec<&'a SubstitutionLookup>, ids: &Vec<LookupId>)
        ensures
            referents(final(out)@) == referents(old(out)@) + referenced_singles(self.gsub(), ids@),
    {
        let mut k: usize = 0;
        assert(referents(out@) + referenced_singles(self.gsub(), ids@.take(0)) =~= referents(out@));
        while k < ids.len()
            invariant
                k <= ids@.len(),
                referents(out@) == referents(old(out)@) + referenced_singles(
                    self.gsub(),
                    ids@.take(k as int),
                ),
            decreases ids@.len() - k,
        {
            proof {
                let next = ids@.take(k + 1);
                assert(next.drop_last() =~= ids@.take(k as int));
                assert(next.last() == ids@[k as int]);
            }
            let ghost before = out@;
            match self.get_gsub_lookup(&ids[k]) {
                Some(sub) => match sub {
                    SubstitutionLookup::Single(_) => {
                        out.push(sub);
                        assert(referents(out@) =~= referents(before).push(*sub));
                    },
                    _ => {},
                },
                None => {},
            }
            k += 1;
        }
        assert(ids@.take(k as int) =~= ids@);
    }

    /// The lookups that the feature of all alternates draws on for the lookup
    /// `id`.
    pub fn aalt_lookups(&self, id: LookupId) -> (r: Vec<&SubstitutionLookup>)
        ensures
            referents(r@) == aalt_relevant(self.gsub(), id),
    {
        let mut out: Vec<&SubstitutionLookup> = Vec::new();
        assert(referents(out@) =~= Seq::empty());
        match self.get_gsub_lookup(&id) {
            Some(sub) => match sub {
                SubstitutionLookup::Single(_) => {
                    out.push(sub);
                    assert(referents(out@) =~= seq![*sub]);
                },
                SubstitutionLookup::Alternate(_) => {
                    out.push(sub);
                    assert(referents(out@) =~= seq![*sub]);
                },
                SubstitutionLookup::Contextual(lookup) => {
                    let mut j: usize = 0;
                    while j < lookup.subtables.len()
                        invariant
                            j <= lookup.subtables@.len(),
                            referents(out@) == referenced_singles(
                                self.gsub(),
                                sub_context_ids(lookup.subtables@.take(j as int)),
                            ),
                        decreases lookup.subtables@.len() - j,
                    {
                        let ids = lookup.subtables[j].0.iter_lookups();
                        proof {
                            let next = lookup.subtables@.take(j + 1);
                            assert(next.drop_last() =~= lookup.subtables@.take(j as int));
                            assert(next.last() == lookup.subtables@[j as int]);
                            lemma_referenced_singles_concat(
                                self.gsub(),
                                sub_context_ids(lookup.subtables@.take(j as int)),
                                ids@,
                            );
                        }
                        self.push_referenced(&mut out, &ids);
                        j += 1;
                    }
                    assert(lookup.subtables@.take(j as int) =~= lookup.subtables@);
                },
                SubstitutionLookup::ChainedContextual(lookup) => {
                    let mut j: usize = 0;
                    while j < lookup.subtables.len()
                        invariant
                            j <= lookup.subtables@.len(),
                            referents(out@) == referenced_singles(
                                self.gsub(),
                                sub_chain_ids(lookup.subtables@.take(j as int)),
                            ),
                        decreases lookup.subtables@.len() - j,
                    {
                        let ids = lookup.subtables[j].0.0.iter_lookups();
                        proof {
                            let next = lookup.subtables@.take(j + 1);
                            assert(next.drop_last() =~= lookup.subtables@.take(j as int));
                            assert(next.last() == lookup.subtables@[j as int]);
                            lemma_referenced_singles_concat(
                                self.gsub(),
                                sub_chain_ids(lookup.subtables@.take(j as int)),
                                ids@,
                            );
                        }
                        self.push_referenced(&mut out, &ids);
                        j += 1;
                    }
                    assert(lookup.subtables@.take(j as int) =~= lookup.subtables@);
                },
                _ => {},
            },
            None => {},
        }
        out
    }

    /// The glyph classes that the lookups of the positioning table show,
    /// where no class definition was given. Each glyph comes with the class
    /// that a rule shows it to have; where rules disagree, every class comes,
    /// and the caller decides. The substitution table is not looked at.
    pub fn infer_glyph_classes(&self) -> (r: Vec<(GlyphId, ClassId)>)
        ensures
            r@ == glyph_classes(self.gpos()),
    {
        let mut out: Vec<(GlyphId, ClassId)> = Vec::new();
        let mut i: usize = 0;
        while i < self.gpos.len()
            invariant
                i <= self.gpos@.len(),
                out@ == glyph_classes(self.gpos@.take(i as int)),
            decreases self.gpos@.len() - i,
        {
            proof {
                let next = self.gpos@.take(i + 1);
                assert(next.drop_last() =~= self.gpos@.take(i as int));
                assert(next.last() == self.gpos@[i as int]);
            }
            let ghost before = out@;
            match &self.gpos[i] {
                PositionLookup::MarkToBase(lookup) => push_lookup_pairs(
                    &mut out,
                    lookup.iter_subtables(),
                    ClassId::Base,
                ),
                PositionLookup::MarkToLig(lookup) => push_lookup_pairs(
                    &mut out,
                    lookup.iter_subtables(),
                    ClassId::Ligature,
                ),
                PositionLookup::MarkToMark(lookup) => push_lookup_pairs(
                    &mut out,
                    lookup.iter_subtables(),
                    ClassId::Mark,
                ),
                _ => {
                    assert(out@ =~= before + Seq::<(GlyphId, ClassId)>::empty());
                },
            }
            i += 1;
        }
        assert(self.gpos@.take(i as int) =~= self.gpos@);
        out
    }

    /// Whether this state is `before` after the lookups of the feature of all
    /// alternates were put in front of the substitution table, with `ids`
    /// returned.
    ///
    /// The glyphs with exactly one alternate make a lookup that replaces one
    /// glyph by one glyph, the others a lookup that offers alternates; a
    /// lookup without rules is not made. The new lookups come first, in this
    /// order, and `ids` names them. Every lookup that was there before
    /// follows in the old order, with each identifier of the substitution
    /// table that is nested in it moved up by the number of new lookups.
    pub open spec fn is_aalt_insertion_of(
        &self,
        before: &AllLookups,
        alts: Seq<(GlyphId, Vec<GlyphId>)>,
        ids: Seq<LookupId>,
    ) -> bool {
        let n = aalt_count(alts);
        &&& ids.len() == n
        &&& forall|i: int|
            0 <= i < n ==> ((#[trigger] ids[i]) matches LookupId::Gsub(idx) && idx == i)
        &&& self.gsub().len() == before.gsub().len() + n
        &&& aalt_singles(alts).len() > 0 ==> {
            &&& self.gsub()[0] matches SubstitutionLookup::Single(l)
            &&& l.flags.bits == 0
            &&& l.mark_set is None
            &&& l.subtables@.len() == 1
            &&& l.subtables@[0]@ == aalt_singles(alts)
        }
        &&& aalt_alternates(alts).len() > 0 ==> {
            &&& self.gsub()[n - 1] matches SubstitutionLookup::Alternate(l)
            &&& l.flags.bits == 0
            &&& l.mark_set is None
            &&& l.subtables@.len() == 1
            &&& l.subtables@[0]@ == aalt_alternates(alts)
        }
        &&& forall|i: int|
            0 <= i < before.gsub().len() ==> is_renumbered(
                #[trigger] self.gsub()[n + i],
                before.gsub()[i],
                n,
            )
        &&& self.gpos() == before.gpos()
        &&& self.current() == before.current()
        &&& self.pending_name() == before.pending_name()
        &&& self.names() == before.names()
    }

    /// Whether every identifier of the substitution table that is nested in
    /// a finished lookup can be moved `by` positions up.
    pub fn can_renumber_gsub(&self, by: usize) -> (r: bool)
        ensures
            r == forall|i: int|
                0 <= i < self.gsub().len() ==> can_renumber(#[trigger] self.gsub()[i], by as int),
    {
        let mut i: usize = 0;
        while i < self.gsub.len()
            invariant
                i <= self.gsub@.len(),
                forall|k: int| 0 <= k < i ==> can_renumber(#[trigger] self.gsub@[k], by as int),
            decreases self.gsub@.len() - i,
        {
            if !self.gsub[i].can_bump(by) {
                assert(!can_renumber(self.gsub()[i as int], by as int));
                return false;
            }
            i += 1;
        }
        assert forall|k: int| 0 <= k < self.gsub().len() implies can_renumber(
            #[trigger] self.gsub()[k],
            by as int,
        ) by {
            assert(can_renumber(self.gsub@[k], by as int));
        }
        true
    }

    /// Puts the lookups of the feature of all alternates in front of the
    /// substitution table and renumbers the references to the lookups that
    /// move. Returns the identifiers of the new lookups.
    ///
    /// The glyphs are taken in the order in which `all_alts` gives them, and
    /// the rules of each new lookup stand in that order. Nothing is asked of
    /// the order, and a glyph may be given more than once: each time makes a
    /// rule of its own, and of two rules for one glyph the later governs.
    #[verifier::rlimit(40)]
    pub fn insert_aalt_lookups(&mut self, all_alts: Vec<(GlyphId, Vec<GlyphId>)>) -> (r: Vec<
        LookupId,
    >)
        requires
            forall|i: int|
                0 <= i < old(self).gsub().len() ==> can_renumber(
                    #[trigger] old(self).gsub()[i],
                    aalt_count(all_alts@),
                ),
        ensures
            final(self).is_aalt_insertion_of(old(self), all_alts@, r@),
            old(self).wf() && old(self).current() is None ==> final(self).wf(),
    {
        let mut single: SingleSubBuilder = SingleSubBuilder::new();
        let mut alt: AlternateSubBuilder = AlternateSubBuilder::new();
        let ghost alts = all_alts@;
        for entry in it: all_alts
            invariant
                it.seq() == alts,
                single@ == aalt_singles(alts.take(it.index() as int)),
                alt@ == aalt_alternates(alts.take(it.index() as int)),
        {
            proof {
                let next = alts.take(it.index() + 1);
                assert(next.drop_last() =~= alts.take(it.index() as int));
                assert(next.last() == entry);
            }
            let (target, alternates) = entry;
            if alternates.len() == 1 {
                single.insert(target, alternates[0]);
            } else {
                alt.insert(target, alternates);
            }
        }
        assert(alts.take(alts.len() as int) =~= alts);

        let mut lookups: Vec<SubstitutionLookup> = Vec::new();
        if !single.is_empty() {
            let mut subtables: Vec<SingleSubBuilder> = Vec::new();
            subtables.push(single);
            lookups.push(
                SubstitutionLookup::Single(
                    LookupBuilder::new_with_lookups(LookupFlag::empty(), None, subtables),
                ),
            );
        }
        if !alt.is_empty() {
            let mut subtables: Vec<AlternateSubBuilder> = Vec::new();
            subtables.push(alt);
            lookups.push(
                SubstitutionLookup::Alternate(
                    LookupBuilder::new_with_lookups(LookupFlag::empty(), None, subtables),
                ),
            );
        }
        let n = lookups.len();
        assert(n == aalt_count(alts));

        let mut ids: Vec<LookupId> = Vec::new();
        let mut k: usize = 0;
        while k < n
            invariant
                k <= n,
                ids@.len() == k,
                forall|i: int|
                    0 <= i < k ==> ((#[trigger] ids@[i]) matches LookupId::Gsub(idx) && idx == i),
            decreases n - k,
        {
            ids.push(LookupId::Gsub(k));
            k += 1;
        }

        assert forall|j: int| 0 <= j < old(self).gsub@.len() implies can_renumber(
            #[trigger] old(self).gsub@[j],
            n as int,
        ) by {
            assert(can_renumber(old(self).gsub()[j], aalt_count(alts)));
        }
        // the lookups that move: every reference to one of them moves along
        let mut i: usize = 0;
        while i < self.gsub.len()
            invariant
                self.gsub@.len() == old(self).gsub@.len(),
                i <= self.gsub@.len(),
                n == aalt_count(alts),
                forall|j: int|
                    0 <= j < old(self).gsub@.len() ==> can_renumber(
                        #[trigger] old(self).gsub@[j],
                        n as int,
                    ),
                forall|j: int|
                    0 <= j < i ==> is_renumbered(
                        #[trigger] self.gsub@[j],
                        old(self).gsub@[j],
                        n as int,
                    ),
                forall|j: int| i <= j < self.gsub@.len() ==> self.gsub@[j] == old(self).gsub@[j],
                self.gpos == old(self).gpos,
                self.current == old(self).current,
                self.current_name == old(self).current_name,
                self.named == old(self).named,
            decreases self.gsub@.len() - i,
        {
            assert(can_renumber(old(self).gsub@[i as int], n as int));
            let lookup = &mut self.gsub[i];
            lookup.bump_all_lookup_ids(n);
            i += 1;
        }
        let ghost moved = self.gsub@;
        let ghost front = lookups@;
        lookups.append(&mut self.gsub);
        self.gsub = lookups;
        proof {
            assert(self.gsub@ =~= front + moved);
            assert forall|j: int| 0 <= j < old(self).gsub().len() implies is_renumbered(
                #[trigger] self.gsub()[n + j],
                old(self).gsub()[j],
                n as int,
            ) by {
                assert(self.gsub@[n + j] == moved[j]);
            }
            if old(self).wf() && old(self).current() is None {
                lemma_bind_keeps_names(
                    old(self).names(),
                    Seq::empty(),
                    LookupId::Empty,
                    old(self).gpos().len(),
                    old(self).gsub().len(),
                    self.gpos().len(),
                    self.gsub().len(),
                );
            }
        }
        ids
    }

    /// Assembles both tables from the finished lookups and the features
    /// `features`, each given with its key and the identifiers of its
    /// lookups; the features whose key is among `required_features` are
    /// registered as required. The result is the substitution table and the
    /// positioning table; a table without lookups and without features is
    /// left out.
    ///
    /// The features are registered in the order in which `features` gives
    /// them, and that order alone decides which index a feature gets.
    /// Nothing is asked of the order, and a key may be given more than once:
    /// each time is registered like any other. A caller that wants the
    /// indices of an ordered map gives the entries in ascending order of
    /// their keys.
    #[verifier::rlimit(40)]
    pub fn build(
        self,
        features: &Vec<(FeatureKey, Vec<LookupId>)>,
        required_features: &Vec<FeatureKey>,
    ) -> (r: Result<(Option<Gsub>, Option<Gpos>), TooManyFeatures>)
        requires
            forall|i: int, j: int|
                0 <= i < features@.len() && 0 <= j < features@[i].1@.len() ==> (
                #[trigger] features@[i].1@[j]).encodable(),
        ensures
            match register_all(features@, required_features@) {
                Some((gsub_table, gpos_table)) => r matches Ok((gsub, gpos)) && gsub_assembled(
                    gsub,
                    self.gsub(),
                    gsub_table,
                ) && gpos_assembled(gpos, self.gpos(), gpos_table),
                None => r is Err,
            },
    {
        let AllLookups { current: _, current_name: _, gpos, gsub, named: _ } = self;
        let mut gpos_builder = PosSubBuilder::new(gpos);
        let mut gsub_builder = PosSubBuilder::new(gsub);
        let size = tags::size();

        let mut i: usize = 0;
        while i < features.len()
            invariant
                i <= features@.len(),
                size == size_feature(),
                gpos_builder.wf(),
                gsub_builder.wf(),
                gpos_builder.lookups() == self.gpos(),
                gsub_builder.lookups() == self.gsub(),
                forall|k: int, j: int|
                    0 <= k < features@.len() && 0 <= j < features@[k].1@.len() ==> (
                    #[trigger] features@[k].1@[j]).encodable(),
                register_all(features@.take(i as int), required_features@) == Some(
                    (gsub_builder.table(), gpos_builder.table()),
                ),
            decreases features@.len() - i,
        {
            let key = features[i].0;
            let ids = &features[i].1;
            let required = contains_key(required_features, key);
            proof {
                let next = features@.take(i + 1);
                assert(next.drop_last() =~= features@.take(i as int));
                assert(next.last() == features@[i as int]);
                assert forall|j: int| 0 <= j < ids@.len() implies (#[trigger] ids@[j]).encodable() by {
                    assert(features@[i as int].1@[j].encodable());
                }
            }
            let ghost step = register_one(
                gsub_builder.table(),
                gpos_builder.table(),
                key,
                ids@,
                required,
            );
            let ghost rest_none = register_all(features@, required_features@) is None;
            proof {
                if step is None {
                    lemma_register_all_fails(features@, required_features@, i + 1);
                }
            }
            if key.feature.0 == size.0 {
                match gpos_builder.add(key, Vec::new(), required) {
                    Ok(()) => {},
                    Err(e) => {
                        return Err(e);
                    },
                }
            } else {
                let (gpos_idxes, gsub_idxes) = split_lookups(ids.as_slice());
                if gpos_idxes.len() > 0 {
                    match gpos_builder.add(key, gpos_idxes, required) {
                        Ok(()) => {},
                        Err(e) => {
                            return Err(e);
                        },
                    }
                }
                if gsub_idxes.len() > 0 {
                    match gsub_builder.add(key, gsub_idxes, required) {
                        Ok(()) => {},
                        Err(e) => {
                            return Err(e);
                        },
                    }
                }
            }
            i += 1;
        }
        assert(features@.take(i as int) =~= features@);
        Ok((gsub_builder.build(), gpos_builder.build()))
    }

    /// The number of lookups that the feature of all alternates would put in
    /// front of the others.
    pub fn count_aalt_lookups(all_alts: &Vec<(GlyphId, Vec<GlyphId>)>) -> (r: usize)
        ensures
            r == aalt_count(all_alts@),
    {
        let mut single = false;
        let mut other = false;
        let mut i: usize = 0;
        while i < all_alts.len()
            invariant
                i <= all_alts@.len(),
                single == (aalt_singles(all_alts@.take(i as int)).len() > 0),
                other == (aalt_alternates(all_alts@.take(i as int)).len() > 0),
            decreases all_alts@.len() - i,
        {
            proof {
                let next = all_alts@.take(i + 1);
                assert(next.drop_last() =~= all_alts@.take(i as int));
                assert(next.last() == all_alts@[i as int]);
            }
            if all_alts[i].1.len() == 1 {
                single = true;
            } else {
                other = true;
            }
            i += 1;
        }
        assert(all_alts@.take(i as int) =~= all_alts@);
        let a: usize = if single {
            1
        } else {
            0
        };
        let b: usize = if other {
            1
        } else {
            0
        };
        a + b
    }

    /// Puts the lookups of the feature of all alternates in front of the
    /// substitution table, if every reference to a lookup that moves can be
    /// renumbered. Where one cannot, nothing changes and there is no result.
    pub fn try_insert_aalt_lookups(&mut self, all_alts: Vec<(GlyphId, Vec<GlyphId>)>) -> (r: Option<
        Vec<LookupId>,
    >)
        ensures
            match r {
                Some(ids) => final(self).is_aalt_insertion_of(old(self), all_alts@, ids@),
                None => *final(self) == *old(self) && exists|i: int|
                    0 <= i < old(self).gsub().len() && !can_renumber(
                        #[trigger] old(self).gsub()[i],
                        aalt_count(all_alts@),
                    ),
            },
            r is Some && old(self).wf() && old(self).current() is None ==> final(self).wf(),
    {
        let count = Self::count_aalt_lookups(&all_alts);
        if self.can_renumber_gsub(count) {
            Some(self.insert_aalt_lookups(all_alts))
        } else {
            None
        }
    }
}

} // verus!
