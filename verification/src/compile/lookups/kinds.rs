//! The lookups of each table as one type, and the lookup that rules are being
//! added to.

use vstd::prelude::*;

use crate::compile::lookups::contextual::{
    ContextBuilder, ContextRule, ContextualLookupBuilder, PosChainContextBuilder,
    PosContextBuilder, SubChainContextBuilder, SubContextBuilder,
};
use crate::compile::lookups::gpos::{
    CursivePosBuilder, CursivePosRule, MarkToBaseBuilder, MarkToBaseRule, MarkToLigBuilder,
    MarkToLigRule, MarkToMarkBuilder, MarkToMarkRule, PairPosBuilder, PairPosRule,
    SinglePosBuilder, SinglePosRule,
};
use crate::compile::lookups::gsub::{
    ascending_targets, AlternateSubBuilder, AlternateSubRule, LigatureSubBuilder, LigatureSubRule,
    MultipleSubBuilder, MultipleSubRule, ReverseChainBuilder, ReverseSubRule, SingleSubBuilder,
    SingleSubRule,
};
use crate::compile::lookups::rules::RuleList;
use crate::compile::lookups::{
    built_from, flattened, is_gpos_rule, spec_is_gpos_rule, Builder, FilterSetId, LookupBuilder,
    LookupFlag, LookupId,
};
use crate::compile::tables;
use crate::compile::tables::{RawLookup, Subtable};
use crate::kind::Kind;
use crate::types::{Anchor, GlyphClass, GlyphId, GlyphOrClass, ValueRecord};

verus! {

/// A lookup of the positioning table under construction.
#[derive(Debug)]
pub enum PositionLookup {
    Single(LookupBuilder<SinglePosBuilder>),
    Pair(LookupBuilder<PairPosBuilder>),
    Cursive(LookupBuilder<CursivePosBuilder>),
    MarkToBase(LookupBuilder<MarkToBaseBuilder>),
    MarkToLig(LookupBuilder<MarkToLigBuilder>),
    MarkToMark(LookupBuilder<MarkToMarkBuilder>),
    /// Kept for lookups that are stored in the plain form; the compiler
    /// stores every contextual lookup in the chaining form.
    Contextual(LookupBuilder<PosContextBuilder>),
    ChainedContextual(LookupBuilder<PosChainContextBuilder>),
}

/// A lookup of the substitution table under construction.
#[derive(Debug)]
pub enum SubstitutionLookup {
    Single(LookupBuilder<SingleSubBuilder>),
    Multiple(LookupBuilder<MultipleSubBuilder>),
    Alternate(LookupBuilder<AlternateSubBuilder>),
    Ligature(LookupBuilder<LigatureSubBuilder>),
    /// Kept for lookups that are stored in the plain form; the compiler
    /// stores every contextual lookup in the chaining form.
    Contextual(LookupBuilder<SubContextBuilder>),
    ChainedContextual(LookupBuilder<SubChainContextBuilder>),
    Reverse(LookupBuilder<ReverseChainBuilder>),
}

/// The lookup that rules are being added to.
#[derive(Debug)]
pub enum SomeLookup {
    GsubLookup(SubstitutionLookup),
    GposLookup(PositionLookup),
    GposContextual(ContextualLookupBuilder<PositionLookup>),
    GsubContextual(ContextualLookupBuilder<SubstitutionLookup>),
}

/// Whether `after` is `before` with one more subtable at the end.
pub open spec fn has_break<T>(after: LookupBuilder<T>, before: LookupBuilder<T>) -> bool {
    &&& after.flags == before.flags
    &&& after.mark_set == before.mark_set
    &&& after.subtables@.len() == before.subtables@.len() + 1
    &&& after.subtables@.drop_last() == before.subtables@
}

/// Whether `after` is `before` with `rule` added at the end of the last
/// subtable.
pub open spec fn has_rule<R>(
    after: LookupBuilder<RuleList<R>>,
    before: LookupBuilder<RuleList<R>>,
    rule: R,
) -> bool {
    &&& after.flags == before.flags
    &&& after.mark_set == before.mark_set
    &&& after.subtables@.len() == before.subtables@.len()
    &&& before.subtables@.len() > 0
    &&& after.subtables@.drop_last() == before.subtables@.drop_last()
    &&& after.subtables@.last()@ == before.subtables@.last()@.push(rule)
}

/// Whether `lookup` is a new lookup with the given flags and filtering set:
/// one subtable, without rules.
pub open spec fn is_fresh<R>(
    lookup: LookupBuilder<RuleList<R>>,
    flags: LookupFlag,
    filter: Option<FilterSetId>,
) -> bool {
    &&& lookup.flags == flags
    &&& lookup.mark_set == filter
    &&& lookup.subtables@.len() == 1
    &&& lookup.subtables@[0]@ == Seq::<R>::empty()
}

/// Those of `lists` that hold a rule, in order.
pub open spec fn nonempty<R>(lists: Seq<Seq<R>>) -> Seq<Seq<R>>
    decreases lists.len(),
{
    if lists.len() == 0 {
        Seq::empty()
    } else if lists.last().len() == 0 {
        nonempty(lists.drop_last())
    } else {
        nonempty(lists.drop_last()).push(lists.last())
    }
}

/// The rules of each subtable, in order.
pub open spec fn subtable_rules<R>(subtables: Seq<Subtable<R>>) -> Seq<Seq<R>> {
    Seq::new(subtables.len(), |i: int| subtables[i]@)
}

/// Whether `raw` is the assembled form of a lookup with the given flags and
/// filtering set whose subtables hold the rules `lists`: the subtables
/// without rules are left out, the others follow in order.
pub open spec fn assembled<R>(
    raw: RawLookup<Subtable<R>>,
    flags: LookupFlag,
    mark_set: Option<FilterSetId>,
    lists: Seq<Seq<R>>,
) -> bool {
    &&& raw.lookup_flag == flags
    &&& raw.mark_filtering_set == mark_set
    &&& subtable_rules(raw.subtables@) == nonempty(lists)
}

/// What finishing subtable by subtable gives, put together: where each
/// finished subtable holds the rules of its list if the list has any, and is
/// absent otherwise, the whole holds the lists that have rules.
pub proof fn lemma_flattened_rules<R>(lists: Seq<Seq<R>>, outs: Seq<Vec<Subtable<R>>>)
    requires
        outs.len() == lists.len(),
        forall|i: int|
            0 <= i < outs.len() ==> (if lists[i].len() == 0 {
                (#[trigger] outs[i])@.len() == 0
            } else {
                outs[i]@.len() == 1 && outs[i]@[0]@ == lists[i]
            }),
    ensures
        subtable_rules(flattened(outs)) == nonempty(lists),
    decreases outs.len(),
{
    if outs.len() == 0 {
        assert(subtable_rules(flattened(outs)) =~= nonempty(lists));
    } else {
        lemma_flattened_rules(lists.drop_last(), outs.drop_last());
        let head = flattened(outs.drop_last());
        assert(flattened(outs) == head + outs.last()@);
        if lists.last().len() == 0 {
            assert(head + outs.last()@ =~= head);
        } else {
            assert(head + outs.last()@ =~= head.push(outs.last()@[0]));
            assert(subtable_rules(head.push(outs.last()@[0])) =~= subtable_rules(head).push(
                lists.last(),
            ));
        }
    }
}

/// The rules of each subtable of a lookup, in order.
pub open spec fn lists_of<R>(subtables: Seq<RuleList<R>>) -> Seq<Seq<R>> {
    Seq::new(subtables.len(), |i: int| subtables[i]@)
}

/// The rules of each subtable of a plain contextual lookup of the
/// positioning table.
pub open spec fn pos_context_lists(subtables: Seq<PosContextBuilder>) -> Seq<Seq<ContextRule>> {
    Seq::new(subtables.len(), |i: int| subtables[i].0.rules@)
}

/// The rules of each subtable of a plain contextual lookup of the
/// substitution table.
pub open spec fn sub_context_lists(subtables: Seq<SubContextBuilder>) -> Seq<Seq<ContextRule>> {
    Seq::new(subtables.len(), |i: int| subtables[i].0.rules@)
}

/// The rules of each subtable of a chaining lookup of the positioning table.
pub open spec fn pos_chain_lists(subtables: Seq<PosChainContextBuilder>) -> Seq<Seq<ContextRule>> {
    Seq::new(subtables.len(), |i: int| subtables[i].0.0.rules@)
}

/// The rules of each subtable of a chaining lookup of the substitution table.
pub open spec fn sub_chain_lists(subtables: Seq<SubChainContextBuilder>) -> Seq<Seq<ContextRule>> {
    Seq::new(subtables.len(), |i: int| subtables[i].0.0.rules@)
}

/// Finishes a lookup whose subtables are lists of rules.
fn build_rule_lists<R>(lookup: LookupBuilder<RuleList<R>>) -> (r: RawLookup<Subtable<R>>)
    ensures
        assembled(r, lookup.flags, lookup.mark_set, lists_of(lookup.subtables@)),
{
    let r = lookup.build();
    proof {
        let outs = choose|outs: Seq<Vec<Subtable<R>>>|
            built_from(lookup.subtables@, outs) && r.subtables@ == flattened(outs);
        lemma_flattened_rules(lists_of(lookup.subtables@), outs);
    }
    r
}

impl PositionLookup {
    /// Whether there is a subtable to add rules to.
    pub open spec fn wf(&self) -> bool {
        match self {
            PositionLookup::Single(l) => l.wf(),
            PositionLookup::Pair(l) => l.wf(),
            PositionLookup::Cursive(l) => l.wf(),
            PositionLookup::MarkToBase(l) => l.wf(),
            PositionLookup::MarkToLig(l) => l.wf(),
            PositionLookup::MarkToMark(l) => l.wf(),
            PositionLookup::Contextual(l) => l.wf(),
            PositionLookup::ChainedContextual(l) => l.wf(),
        }
    }

    /// Whether this lookup is `before` with one more subtable at the end,
    /// which holds no rule.
    pub open spec fn is_break_of(&self, before: &PositionLookup) -> bool {
        match (*self, *before) {
            (PositionLookup::Single(a), PositionLookup::Single(b)) => has_break(a, b)
                && a.subtables@.last()@.len() == 0,
            (PositionLookup::Pair(a), PositionLookup::Pair(b)) => has_break(a, b)
                && a.subtables@.last()@.len() == 0,
            (PositionLookup::Cursive(a), PositionLookup::Cursive(b)) => has_break(a, b)
                && a.subtables@.last()@.len() == 0,
            (PositionLookup::MarkToBase(a), PositionLookup::MarkToBase(b)) => has_break(a, b)
                && a.subtables@.last()@.len() == 0,
            (PositionLookup::MarkToLig(a), PositionLookup::MarkToLig(b)) => has_break(a, b)
                && a.subtables@.last()@.len() == 0,
            (PositionLookup::MarkToMark(a), PositionLookup::MarkToMark(b)) => has_break(a, b)
                && a.subtables@.last()@.len() == 0,
            (PositionLookup::Contextual(a), PositionLookup::Contextual(b)) => has_break(a, b)
                && a.subtables@.last().0.rules@.len() == 0,
            (PositionLookup::ChainedContextual(a), PositionLookup::ChainedContextual(b)) =>
                has_break(a, b) && a.subtables@.last().0.0.rules@.len() == 0,
            _ => false,
        }
    }

    /// Whether `built` is the assembled form of this lookup.
    pub open spec fn assembles_to(&self, built: &tables::PositionLookup) -> bool {
        match (*self, *built) {
            (PositionLookup::Single(l), tables::PositionLookup::Single(raw)) => assembled(
                raw,
                l.flags,
                l.mark_set,
                lists_of(l.subtables@),
            ),
            (PositionLookup::Pair(l), tables::PositionLookup::Pair(raw)) => assembled(
                raw,
                l.flags,
                l.mark_set,
                lists_of(l.subtables@),
            ),
            (PositionLookup::Cursive(l), tables::PositionLookup::Cursive(raw)) => assembled(
                raw,
                l.flags,
                l.mark_set,
                lists_of(l.subtables@),
            ),
            (PositionLookup::MarkToBase(l), tables::PositionLookup::MarkToBase(raw)) => assembled(
                raw,
                l.flags,
                l.mark_set,
                lists_of(l.subtables@),
            ),
            (PositionLookup::MarkToLig(l), tables::PositionLookup::MarkToLig(raw)) => assembled(
                raw,
                l.flags,
                l.mark_set,
                lists_of(l.subtables@),
            ),
            (PositionLookup::MarkToMark(l), tables::PositionLookup::MarkToMark(raw)) => assembled(
                raw,
                l.flags,
                l.mark_set,
                lists_of(l.subtables@),
            ),
            (PositionLookup::Contextual(l), tables::PositionLookup::Contextual(raw)) => assembled(
                raw,
                l.flags,
                l.mark_set,
                pos_context_lists(l.subtables@),
            ),
            (
                PositionLookup::ChainedContextual(l),
                tables::PositionLookup::ChainContextual(raw),
            ) => assembled(raw, l.flags, l.mark_set, pos_chain_lists(l.subtables@)),
            _ => false,
        }
    }

    /// Begins a new subtable.
    pub fn force_subtable_break(&mut self)
        ensures
            final(self).is_break_of(old(self)),
    {
        match self {
            PositionLookup::Single(lookup) => lookup.force_subtable_break(),
            PositionLookup::Pair(lookup) => lookup.force_subtable_break(),
            PositionLookup::Cursive(lookup) => lookup.force_subtable_break(),
            PositionLookup::MarkToBase(lookup) => lookup.force_subtable_break(),
            PositionLookup::MarkToLig(lookup) => lookup.force_subtable_break(),
            PositionLookup::MarkToMark(lookup) => lookup.force_subtable_break(),
            PositionLookup::Contextual(lookup) => {
                lookup.subtables.push(PosContextBuilder(ContextBuilder::new()));
                assert(lookup.subtables@.drop_last() =~= old(self)->Contextual_0.subtables@);
            },
            PositionLookup::ChainedContextual(lookup) => {
                lookup.subtables.push(
                    PosChainContextBuilder(
                        crate::compile::lookups::contextual::ChainContextBuilder(
                            ContextBuilder::new(),
                        ),
                    ),
                );
                assert(lookup.subtables@.drop_last() =~= old(self)->ChainedContextual_0.subtables@);
            },
        }
    }
}

impl Builder for PositionLookup {
    type Output = tables::PositionLookup;

    /// The assembled lookup of the same kind.
    fn build(self) -> (r: tables::PositionLookup)
        ensures
            self.assembles_to(&r),
    {
        match self {
            PositionLookup::Single(lookup) => tables::PositionLookup::Single(
                build_rule_lists(lookup),
            ),
            PositionLookup::Pair(lookup) => tables::PositionLookup::Pair(build_rule_lists(lookup)),
            PositionLookup::Cursive(lookup) => tables::PositionLookup::Cursive(
                build_rule_lists(lookup),
            ),
            PositionLookup::MarkToBase(lookup) => tables::PositionLookup::MarkToBase(
                build_rule_lists(lookup),
            ),
            PositionLookup::MarkToLig(lookup) => tables::PositionLookup::MarkToLig(
                build_rule_lists(lookup),
            ),
            PositionLookup::MarkToMark(lookup) => tables::PositionLookup::MarkToMark(
                build_rule_lists(lookup),
            ),
            PositionLookup::Contextual(lookup) => {
                let r = lookup.build();
                proof {
                    let outs = choose|outs: Seq<Vec<Subtable<ContextRule>>>|
                        built_from(lookup.subtables@, outs) && r.subtables@ == flattened(outs);
                    lemma_flattened_rules(pos_context_lists(lookup.subtables@), outs);
                }
                tables::PositionLookup::Contextual(r)
            },
            PositionLookup::ChainedContextual(lookup) => {
                let r = lookup.build();
                proof {
                    let outs = choose|outs: Seq<Vec<Subtable<ContextRule>>>|
                        built_from(lookup.subtables@, outs) && r.subtables@ == flattened(outs);
                    lemma_flattened_rules(pos_chain_lists(lookup.subtables@), outs);
                }
                tables::PositionLookup::ChainContextual(r)
            },
        }
    }
}

impl SubstitutionLookup {
    /// Whether there is a subtable to add rules to.
    pub open spec fn wf(&self) -> bool {
        match self {
            SubstitutionLookup::Single(l) => l.wf(),
            SubstitutionLookup::Multiple(l) => l.wf(),
            SubstitutionLookup::Alternate(l) => l.wf(),
            SubstitutionLookup::Ligature(l) => l.wf(),
            SubstitutionLookup::Contextual(l) => l.wf(),
            SubstitutionLookup::ChainedContextual(l) => l.wf(),
            SubstitutionLookup::Reverse(l) => l.wf(),
        }
    }

    /// Whether this lookup is `before` with one more subtable at the end,
    /// which holds no rule.
    pub open spec fn is_break_of(&self, before: &SubstitutionLookup) -> bool {
        match (*self, *before) {
            (SubstitutionLookup::Single(a), SubstitutionLookup::Single(b)) => has_break(a, b)
                && a.subtables@.last()@.len() == 0,
            (SubstitutionLookup::Multiple(a), SubstitutionLookup::Multiple(b)) => has_break(a, b)
                && a.subtables@.last()@.len() == 0,
            (SubstitutionLookup::Alternate(a), SubstitutionLookup::Alternate(b)) => has_break(a, b)
                && a.subtables@.last()@.len() == 0,
            (SubstitutionLookup::Ligature(a), SubstitutionLookup::Ligature(b)) => has_break(a, b)
                && a.subtables@.last()@.len() == 0,
            (SubstitutionLookup::Contextual(a), SubstitutionLookup::Contextual(b)) => has_break(
                a,
                b,
            ) && a.subtables@.last().0.rules@.len() == 0,
            (
                SubstitutionLookup::ChainedContextual(a),
                SubstitutionLookup::ChainedContextual(b),
            ) => has_break(a, b) && a.subtables@.last().0.0.rules@.len() == 0,
            (SubstitutionLookup::Reverse(a), SubstitutionLookup::Reverse(b)) => has_break(a, b)
                && a.subtables@.last()@.len() == 0,
            _ => false,
        }
    }

    /// Whether `built` is the assembled form of this lookup.
    pub open spec fn assembles_to(&self, built: &tables::SubstitutionLookup) -> bool {
        match (*self, *built) {
            (SubstitutionLookup::Single(l), tables::SubstitutionLookup::Single(raw)) => assembled(
                raw,
                l.flags,
                l.mark_set,
                lists_of(l.subtables@),
            ),
            (SubstitutionLookup::Multiple(l), tables::SubstitutionLookup::Multiple(raw)) =>
                assembled(raw, l.flags, l.mark_set, lists_of(l.subtables@)),
            (SubstitutionLookup::Alternate(l), tables::SubstitutionLookup::Alternate(raw)) =>
                assembled(raw, l.flags, l.mark_set, lists_of(l.subtables@)),
            (SubstitutionLookup::Ligature(l), tables::SubstitutionLookup::Ligature(raw)) =>
                assembled(raw, l.flags, l.mark_set, lists_of(l.subtables@)),
            (SubstitutionLookup::Contextual(l), tables::SubstitutionLookup::Contextual(raw)) =>
                assembled(raw, l.flags, l.mark_set, sub_context_lists(l.subtables@)),
            (
                SubstitutionLookup::ChainedContextual(l),
                tables::SubstitutionLookup::ChainContextual(raw),
            ) => assembled(raw, l.flags, l.mark_set, sub_chain_lists(l.subtables@)),
            (SubstitutionLookup::Reverse(l), tables::SubstitutionLookup::Reverse(raw)) => assembled(
                raw,
                l.flags,
                l.mark_set,
                lists_of(l.subtables@),
            ),
            _ => false,
        }
    }

    /// Begins a new subtable.
    pub fn force_subtable_break(&mut self)
        ensures
            final(self).is_break_of(old(self)),
    {
        match self {
            SubstitutionLookup::Single(lookup) => lookup.force_subtable_break(),
            SubstitutionLookup::Multiple(lookup) => lookup.force_subtable_break(),
            SubstitutionLookup::Alternate(lookup) => lookup.force_subtable_break(),
            SubstitutionLookup::Ligature(lookup) => lookup.force_subtable_break(),
            SubstitutionLookup::Contextual(lookup) => {
                lookup.subtables.push(SubContextBuilder(ContextBuilder::new()));
                assert(lookup.subtables@.drop_last() =~= old(self)->Contextual_0.subtables@);
            },
            SubstitutionLookup::Reverse(lookup) => lookup.force_subtable_break(),
            SubstitutionLookup::ChainedContextual(lookup) => {
                lookup.subtables.push(
                    SubChainContextBuilder(
                        crate::compile::lookups::contextual::ChainContextBuilder(
                            ContextBuilder::new(),
                        ),
                    ),
                );
                assert(lookup.subtables@.drop_last() =~= old(self)->ChainedContextual_0.subtables@);
            },
        }
    }
}

/// Whether every nested identifier of the substitution table in `lookup` can
/// be moved `by` positions up. Only contextual lookups hold such identifiers.
pub open spec fn can_renumber(lookup: SubstitutionLookup, by: int) -> bool {
    match lookup {
        SubstitutionLookup::Contextual(l) => forall|j: int|
            0 <= j < l.subtables@.len() ==> (#[trigger] l.subtables@[j]).0.can_shift(by),
        SubstitutionLookup::ChainedContextual(l) => forall|j: int|
            0 <= j < l.subtables@.len() ==> (#[trigger] l.subtables@[j]).0.0.can_shift(by),
        _ => true,
    }
}

/// Whether `after` is `before` with every nested identifier of the
/// substitution table moved `by` positions up. Only contextual lookups hold
/// such identifiers; every other lookup stays as it is.
pub open spec fn is_renumbered(
    after: SubstitutionLookup,
    before: SubstitutionLookup,
    by: int,
) -> bool {
    match (after, before) {
        (SubstitutionLookup::Contextual(a), SubstitutionLookup::Contextual(b)) => {
            &&& a.flags == b.flags
            &&& a.mark_set == b.mark_set
            &&& a.subtables@.len() == b.subtables@.len()
            &&& forall|j: int|
                0 <= j < a.subtables@.len() ==> (#[trigger] a.subtables@[j]).0.is_shift_of(
                    &b.subtables@[j].0,
                    by,
                )
        },
        (SubstitutionLookup::ChainedContextual(a), SubstitutionLookup::ChainedContextual(b)) => {
            &&& a.flags == b.flags
            &&& a.mark_set == b.mark_set
            &&& a.subtables@.len() == b.subtables@.len()
            &&& forall|j: int|
                0 <= j < a.subtables@.len() ==> (#[trigger] a.subtables@[j]).0.0.is_shift_of(
                    &b.subtables@[j].0.0,
                    by,
                )
        },
        (SubstitutionLookup::Contextual(_), _) => false,
        (SubstitutionLookup::ChainedContextual(_), _) => false,
        _ => after == before,
    }
}

impl SubstitutionLookup {
    /// Whether every nested identifier of the substitution table can be
    /// moved `by` positions up.
    pub fn can_bump(&self, by: usize) -> (r: bool)
        ensures
            r == can_renumber(*self, by as int),
    {
        match self {
            SubstitutionLookup::Contextual(lookup) => {
                let mut j: usize = 0;
                while j < lookup.subtables.len()
                    invariant
                        j <= lookup.subtables@.len(),
                        *self == SubstitutionLookup::Contextual(*lookup),
                        forall|k: int|
                            0 <= k < j ==> (#[trigger] lookup.subtables@[k]).0.can_shift(by as int),
                    decreases lookup.subtables@.len() - j,
                {
                    if !lookup.subtables[j].0.can_bump(by) {
                        assert(!lookup.subtables@[j as int].0.can_shift(by as int));
                        return false;
                    }
                    j += 1;
                }
                true
            },
            SubstitutionLookup::ChainedContextual(lookup) => {
                let mut j: usize = 0;
                while j < lookup.subtables.len()
                    invariant
                        j <= lookup.subtables@.len(),
                        *self == SubstitutionLookup::ChainedContextual(*lookup),
                        forall|k: int|
                            0 <= k < j ==> (#[trigger] lookup.subtables@[k]).0.0.can_shift(
                                by as int,
                            ),
                    decreases lookup.subtables@.len() - j,
                {
                    if !lookup.subtables[j].0.0.can_bump(by) {
                        assert(!lookup.subtables@[j as int].0.0.can_shift(by as int));
                        return false;
                    }
                    j += 1;
                }
                true
            },
            _ => true,
        }
    }

    /// Moves every nested identifier of the substitution table `by`
    /// positions up.
    pub fn bump_all_lookup_ids(&mut self, by: usize)
        requires
            can_renumber(*old(self), by as int),
        ensures
            is_renumbered(*final(self), *old(self), by as int),
    {
        match self {
            SubstitutionLookup::Contextual(lookup) => {
                let mut j: usize = 0;
                while j < lookup.subtables.len()
                    invariant
                        *old(self) is Contextual,
                        can_renumber(*old(self), by as int),
                        lookup.flags == old(self)->Contextual_0.flags,
                        lookup.mark_set == old(self)->Contextual_0.mark_set,
                        lookup.subtables@.len() == old(self)->Contextual_0.subtables@.len(),
                        j <= lookup.subtables@.len(),
                        forall|k: int|
                            0 <= k < j ==> (#[trigger] lookup.subtables@[k]).0.is_shift_of(
                                &old(self)->Contextual_0.subtables@[k].0,
                                by as int,
                            ),
                        forall|k: int|
                            j <= k < lookup.subtables@.len() ==> lookup.subtables@[k] == old(
                                self,
                            )->Contextual_0.subtables@[k],
                    decreases lookup.subtables@.len() - j,
                {
                    assert(old(self)->Contextual_0.subtables@[j as int].0.can_shift(by as int));
                    let subtable = &mut lookup.subtables[j];
                    subtable.0.bump_all_lookup_ids(by);
                    j += 1;
                }
            },
            SubstitutionLookup::ChainedContextual(lookup) => {
                let mut j: usize = 0;
                while j < lookup.subtables.len()
                    invariant
                        *old(self) is ChainedContextual,
                        can_renumber(*old(self), by as int),
                        lookup.flags == old(self)->ChainedContextual_0.flags,
                        lookup.mark_set == old(self)->ChainedContextual_0.mark_set,
                        lookup.subtables@.len() == old(self)->ChainedContextual_0.subtables@.len(),
                        j <= lookup.subtables@.len(),
                        forall|k: int|
                            0 <= k < j ==> (#[trigger] lookup.subtables@[k]).0.0.is_shift_of(
                                &old(self)->ChainedContextual_0.subtables@[k].0.0,
                                by as int,
                            ),
                        forall|k: int|
                            j <= k < lookup.subtables@.len() ==> lookup.subtables@[k] == old(
                                self,
                            )->ChainedContextual_0.subtables@[k],
                    decreases lookup.subtables@.len() - j,
                {
                    assert(old(self)->ChainedContextual_0.subtables@[j as int].0.0.can_shift(
                        by as int,
                    ));
                    let subtable = &mut lookup.subtables[j];
                    subtable.0.0.bump_all_lookup_ids(by);
                    j += 1;
                }
            },
            _ => {},
        }
    }
}

impl Builder for SubstitutionLookup {
    type Output = tables::SubstitutionLookup;

    /// The assembled lookup of the same kind.
    fn build(self) -> (r: tables::SubstitutionLookup)
        ensures
            self.assembles_to(&r),
    {
        match self {
            SubstitutionLookup::Single(lookup) => tables::SubstitutionLookup::Single(
                build_rule_lists(lookup),
            ),
            SubstitutionLookup::Multiple(lookup) => tables::SubstitutionLookup::Multiple(
                build_rule_lists(lookup),
            ),
            SubstitutionLookup::Alternate(lookup) => tables::SubstitutionLookup::Alternate(
                build_rule_lists(lookup),
            ),
            SubstitutionLookup::Ligature(lookup) => tables::SubstitutionLookup::Ligature(
                build_rule_lists(lookup),
            ),
            SubstitutionLookup::Contextual(lookup) => {
                let r = lookup.build();
                proof {
                    let outs = choose|outs: Seq<Vec<Subtable<ContextRule>>>|
                        built_from(lookup.subtables@, outs) && r.subtables@ == flattened(outs);
                    lemma_flattened_rules(sub_context_lists(lookup.subtables@), outs);
                }
                tables::SubstitutionLookup::Contextual(r)
            },
            SubstitutionLookup::ChainedContextual(lookup) => {
                let r = lookup.build();
                proof {
                    let outs = choose|outs: Seq<Vec<Subtable<ContextRule>>>|
                        built_from(lookup.subtables@, outs) && r.subtables@ == flattened(outs);
                    lemma_flattened_rules(sub_chain_lists(lookup.subtables@), outs);
                }
                tables::SubstitutionLookup::ChainContextual(r)
            },
            SubstitutionLookup::Reverse(lookup) => tables::SubstitutionLookup::Reverse(
                build_rule_lists(lookup),
            ),
        }
    }
}

/// Whether a lookup can be made for rules of this kind: the six plain and
/// the two contextual kinds of the positioning table, and of the substitution
/// table the four plain kinds, the two contextual kinds and the reverse
/// chaining kind. The extension kind stands for no lookup of its own.
pub open spec fn spec_is_lookup_kind(kind: Kind) -> bool {
    spec_is_gpos_rule(kind) || kind == Kind::GsubType1 || kind == Kind::GsubType2 || kind
        == Kind::GsubType3 || kind == Kind::GsubType4 || kind == Kind::GsubType5 || kind
        == Kind::GsubType6 || kind == Kind::GsubType8
}

/// Whether a lookup can be made for rules of this kind.
#[verifier::when_used_as_spec(spec_is_lookup_kind)]
pub fn is_lookup_kind(kind: Kind) -> (r: bool)
    ensures
        r == spec_is_lookup_kind(kind),
{
    is_gpos_rule(kind) || match kind {
        Kind::GsubType1
        | Kind::GsubType2
        | Kind::GsubType3
        | Kind::GsubType4
        | Kind::GsubType5
        | Kind::GsubType6
        | Kind::GsubType8 => true,
        _ => false,
    }
}

impl SomeLookup {
    /// Whether rules can be added: there is a subtable to add them to, and
    /// a contextual lookup of the substitution table is held as such, not as
    /// a plain lookup.
    pub open spec fn wf(&self) -> bool {
        match self {
            SomeLookup::GsubLookup(SubstitutionLookup::Contextual(_)) => false,
            SomeLookup::GsubLookup(SubstitutionLookup::ChainedContextual(_)) => false,
            SomeLookup::GsubLookup(l) => l.wf(),
            SomeLookup::GposLookup(l) => l.wf(),
            SomeLookup::GposContextual(l) => l.wf(),
            SomeLookup::GsubContextual(l) => l.wf(),
        }
    }

    /// The kind of rules that the lookup holds. A contextual lookup counts
    /// as chaining, whatever its rules are.
    pub open spec fn spec_kind(&self) -> Kind {
        match self {
            SomeLookup::GsubContextual(_) => Kind::GsubType6,
            SomeLookup::GposContextual(_) => Kind::GposType8,
            SomeLookup::GsubLookup(gsub) => match gsub {
                SubstitutionLookup::Single(_) => Kind::GsubType1,
                SubstitutionLookup::Multiple(_) => Kind::GsubType2,
                SubstitutionLookup::Alternate(_) => Kind::GsubType3,
                SubstitutionLookup::Ligature(_) => Kind::GsubType4,
                SubstitutionLookup::Contextual(_) => Kind::GsubType5,
                SubstitutionLookup::ChainedContextual(_) => Kind::GsubType6,
                SubstitutionLookup::Reverse(_) => Kind::GsubType8,
            },
            SomeLookup::GposLookup(gpos) => match gpos {
                PositionLookup::Single(_) => Kind::GposType1,
                PositionLookup::Pair(_) => Kind::GposType2,
                PositionLookup::Cursive(_) => Kind::GposType3,
                PositionLookup::MarkToBase(_) => Kind::GposType4,
                PositionLookup::MarkToLig(_) => Kind::GposType5,
                PositionLookup::MarkToMark(_) => Kind::GposType6,
                PositionLookup::Contextual(_) => Kind::GposType7,
                PositionLookup::ChainedContextual(_) => Kind::GposType8,
            },
        }
    }

    /// The identifier that a contextual lookup carries; for another lookup,
    /// that of the empty lookup.
    pub open spec fn root_id(&self) -> LookupId {
        match self {
            SomeLookup::GposContextual(l) => l.root_id,
            SomeLookup::GsubContextual(l) => l.root_id,
            _ => LookupId::Empty,
        }
    }

    /// Whether this is a new lookup for rules of `kind` with the given flags
    /// and filtering set: one subtable, without rules, and for a contextual
    /// lookup the identifier `root` and no lookups of its own yet.
    pub open spec fn is_new_rooted(
        &self,
        kind: Kind,
        flags: LookupFlag,
        filter: Option<FilterSetId>,
        root: LookupId,
    ) -> bool {
        match *self {
            SomeLookup::GposContextual(l) => (kind == Kind::GposType7 || kind == Kind::GposType8)
                && l.flags == flags && l.mark_set == filter && l.subtables@.len() == 1
                && l.subtables@[0].rules@.len() == 0 && l.anon_lookups@.len() == 0 && l.root_id
                == root,
            SomeLookup::GsubContextual(l) => (kind == Kind::GsubType5 || kind == Kind::GsubType6)
                && l.flags == flags && l.mark_set == filter && l.subtables@.len() == 1
                && l.subtables@[0].rules@.len() == 0 && l.anon_lookups@.len() == 0 && l.root_id
                == root,
            SomeLookup::GposLookup(PositionLookup::Single(l)) => kind == Kind::GposType1
                && is_fresh(l, flags, filter),
            SomeLookup::GposLookup(PositionLookup::Pair(l)) => kind == Kind::GposType2 && is_fresh(
                l,
                flags,
                filter,
            ),
            SomeLookup::GposLookup(PositionLookup::Cursive(l)) => kind == Kind::GposType3
                && is_fresh(l, flags, filter),
            SomeLookup::GposLookup(PositionLookup::MarkToBase(l)) => kind == Kind::GposType4
                && is_fresh(l, flags, filter),
            SomeLookup::GposLookup(PositionLookup::MarkToLig(l)) => kind == Kind::GposType5
                && is_fresh(l, flags, filter),
            SomeLookup::GposLookup(PositionLookup::MarkToMark(l)) => kind == Kind::GposType6
                && is_fresh(l, flags, filter),
            SomeLookup::GsubLookup(SubstitutionLookup::Single(l)) => kind == Kind::GsubType1
                && is_fresh(l, flags, filter),
            SomeLookup::GsubLookup(SubstitutionLookup::Multiple(l)) => kind == Kind::GsubType2
                && is_fresh(l, flags, filter),
            SomeLookup::GsubLookup(SubstitutionLookup::Alternate(l)) => kind == Kind::GsubType3
                && is_fresh(l, flags, filter),
            SomeLookup::GsubLookup(SubstitutionLookup::Ligature(l)) => kind == Kind::GsubType4
                && is_fresh(l, flags, filter),
            SomeLookup::GsubLookup(SubstitutionLookup::Reverse(l)) => kind == Kind::GsubType8
                && is_fresh(l, flags, filter),
            _ => false,
        }
    }

    /// Whether this is a new lookup for rules of `kind` with the given flags
    /// and filtering set, which has no identifier yet.
    pub open spec fn is_new(&self, kind: Kind, flags: LookupFlag, filter: Option<FilterSetId>) -> bool {
        self.is_new_rooted(kind, flags, filter, LookupId::Empty)
    }

    /// A new lookup for rules of `kind`.
    pub fn new(kind: Kind, flags: LookupFlag, filter: Option<FilterSetId>) -> (r: SomeLookup)
        requires
            spec_is_lookup_kind(kind),
        ensures
            r.is_new(kind, flags, filter),
            r.wf(),
    {
        match kind {
            Kind::GposType7 | Kind::GposType8 => SomeLookup::GposContextual(
                ContextualLookupBuilder::new(flags, filter),
            ),
            Kind::GsubType5 | Kind::GsubType6 => SomeLookup::GsubContextual(
                ContextualLookupBuilder::new(flags, filter),
            ),
            Kind::GposType1 => SomeLookup::GposLookup(
                PositionLookup::Single(LookupBuilder::new(flags, filter)),
            ),
            Kind::GposType2 => SomeLookup::GposLookup(
                PositionLookup::Pair(LookupBuilder::new(flags, filter)),
            ),
            Kind::GposType3 => SomeLookup::GposLookup(
                PositionLookup::Cursive(LookupBuilder::new(flags, filter)),
            ),
            Kind::GposType4 => SomeLookup::GposLookup(
                PositionLookup::MarkToBase(LookupBuilder::new(flags, filter)),
            ),
            Kind::GposType5 => SomeLookup::GposLookup(
                PositionLookup::MarkToLig(LookupBuilder::new(flags, filter)),
            ),
            Kind::GposType6 => SomeLookup::GposLookup(
                PositionLookup::MarkToMark(LookupBuilder::new(flags, filter)),
            ),
            Kind::GsubType1 => SomeLookup::GsubLookup(
                SubstitutionLookup::Single(LookupBuilder::new(flags, filter)),
            ),
            Kind::GsubType2 => SomeLookup::GsubLookup(
                SubstitutionLookup::Multiple(LookupBuilder::new(flags, filter)),
            ),
            Kind::GsubType3 => SomeLookup::GsubLookup(
                SubstitutionLookup::Alternate(LookupBuilder::new(flags, filter)),
            ),
            Kind::GsubType4 => SomeLookup::GsubLookup(
                SubstitutionLookup::Ligature(LookupBuilder::new(flags, filter)),
            ),
            _ => SomeLookup::GsubLookup(
                SubstitutionLookup::Reverse(LookupBuilder::new(flags, filter)),
            ),
        }
    }

    /// The kind of rules that the lookup holds.
    #[verifier::when_used_as_spec(spec_kind)]
    pub fn kind(&self) -> (r: Kind)
        ensures
            r == self.spec_kind(),
    {
        match self {
            SomeLookup::GsubContextual(_) => Kind::GsubType6,
            SomeLookup::GposContextual(_) => Kind::GposType8,
            SomeLookup::GsubLookup(gsub) => match gsub {
                SubstitutionLookup::Single(_) => Kind::GsubType1,
                SubstitutionLookup::Multiple(_) => Kind::GsubType2,
                SubstitutionLookup::Alternate(_) => Kind::GsubType3,
                SubstitutionLookup::Ligature(_) => Kind::GsubType4,
                SubstitutionLookup::Contextual(_) => Kind::GsubType5,
                SubstitutionLookup::ChainedContextual(_) => Kind::GsubType6,
                SubstitutionLookup::Reverse(_) => Kind::GsubType8,
            },
            SomeLookup::GposLookup(gpos) => match gpos {
                PositionLookup::Single(_) => Kind::GposType1,
                PositionLookup::Pair(_) => Kind::GposType2,
                PositionLookup::Cursive(_) => Kind::GposType3,
                PositionLookup::MarkToBase(_) => Kind::GposType4,
                PositionLookup::MarkToLig(_) => Kind::GposType5,
                PositionLookup::MarkToMark(_) => Kind::GposType6,
                PositionLookup::Contextual(_) => Kind::GposType7,
                PositionLookup::ChainedContextual(_) => Kind::GposType8,
            },
        }
    }

    /// Begins a new subtable.
    pub fn force_subtable_break(&mut self)
        ensures
            final(self).is_break_of(old(self)),
    {
        match self {
            SomeLookup::GsubLookup(lookup) => lookup.force_subtable_break(),
            SomeLookup::GposLookup(lookup) => lookup.force_subtable_break(),
            SomeLookup::GposContextual(lookup) => lookup.force_subtable_break(),
            SomeLookup::GsubContextual(lookup) => lookup.force_subtable_break(),
        }
    }

    /// Whether this lookup is `before` with one more subtable at the end,
    /// which holds no rule.
    pub open spec fn is_break_of(&self, before: &SomeLookup) -> bool {
        match (*self, *before) {
            (SomeLookup::GsubLookup(a), SomeLookup::GsubLookup(b)) => a.is_break_of(&b),
            (SomeLookup::GposLookup(a), SomeLookup::GposLookup(b)) => a.is_break_of(&b),
            (SomeLookup::GposContextual(a), SomeLookup::GposContextual(b)) => {
                &&& a.flags == b.flags
                &&& a.mark_set == b.mark_set
                &&& a.anon_lookups == b.anon_lookups
                &&& a.root_id == b.root_id
                &&& a.subtables@.len() == b.subtables@.len() + 1
                &&& a.subtables@.drop_last() == b.subtables@
                &&& a.subtables@.last().rules@.len() == 0
            },
            (SomeLookup::GsubContextual(a), SomeLookup::GsubContextual(b)) => {
                &&& a.flags == b.flags
                &&& a.mark_set == b.mark_set
                &&& a.anon_lookups == b.anon_lookups
                &&& a.root_id == b.root_id
                &&& a.subtables@.len() == b.subtables@.len() + 1
                &&& a.subtables@.drop_last() == b.subtables@
                &&& a.subtables@.last().rules@.len() == 0
            },
            _ => false,
        }
    }

    /// Adds a rule that adjusts the position of one glyph.
    pub fn add_gpos_type_1(&mut self, id: GlyphId, record: ValueRecord)
        requires
            *old(self) matches SomeLookup::GposLookup(PositionLookup::Single(t)) && t.wf(),
        ensures
            *final(self) matches SomeLookup::GposLookup(PositionLookup::Single(t)) && has_rule(
                t,
                old(self)->GposLookup_0->Single_0,
                SinglePosRule { glyph: id, record },
            ),
    {
        if let SomeLookup::GposLookup(PositionLookup::Single(table)) = self {
            let n = table.subtables.len();
            let subtable = &mut table.subtables[n - 1];
            subtable.insert(id, record);
            assert(table.subtables@.drop_last() =~= old(
                self,
            )->GposLookup_0->Single_0.subtables@.drop_last());
        }
    }

    /// Adds a rule that adjusts the positions of two neighbouring glyphs.
    pub fn add_gpos_type_2_pair(
        &mut self,
        one: GlyphId,
        two: GlyphId,
        val_one: ValueRecord,
        val_two: ValueRecord,
    )
        requires
            *old(self) matches SomeLookup::GposLookup(PositionLookup::Pair(t)) && t.wf(),
        ensures
            *final(self) matches SomeLookup::GposLookup(PositionLookup::Pair(t)) && has_rule(
                t,
                old(self)->GposLookup_0->Pair_0,
                PairPosRule::Glyphs { one, val_one, two, val_two },
            ),
    {
        if let SomeLookup::GposLookup(PositionLookup::Pair(table)) = self {
            let n = table.subtables.len();
            let subtable = &mut table.subtables[n - 1];
            subtable.insert_pair(one, val_one, two, val_two);
            assert(table.subtables@.drop_last() =~= old(
                self,
            )->GposLookup_0->Pair_0.subtables@.drop_last());
        }
    }

    /// Adds a rule that adjusts the positions of neighbours of two classes.
    pub fn add_gpos_type_2_class(
        &mut self,
        one: GlyphClass,
        two: GlyphClass,
        val_one: ValueRecord,
        val_two: ValueRecord,
    )
        requires
            *old(self) matches SomeLookup::GposLookup(PositionLookup::Pair(t)) && t.wf(),
        ensures
            *final(self) matches SomeLookup::GposLookup(PositionLookup::Pair(t)) && has_rule(
                t,
                old(self)->GposLookup_0->Pair_0,
                PairPosRule::Classes {
                    first: one,
                    val_first: val_one,
                    second: two,
                    val_second: val_two,
                },
            ),
    {
        if let SomeLookup::GposLookup(PositionLookup::Pair(table)) = self {
            let n = table.subtables.len();
            let subtable = &mut table.subtables[n - 1];
            subtable.insert_classes(one, val_one, two, val_two);
            assert(table.subtables@.drop_last() =~= old(
                self,
            )->GposLookup_0->Pair_0.subtables@.drop_last());
        }
    }

    /// Adds a rule that gives a glyph the points where a cursive line enters
    /// and leaves it.
    pub fn add_gpos_type_3(&mut self, id: GlyphId, entry: Option<Anchor>, exit: Option<Anchor>)
        requires
            *old(self) matches SomeLookup::GposLookup(PositionLookup::Cursive(t)) && t.wf(),
        ensures
            *final(self) matches SomeLookup::GposLookup(PositionLookup::Cursive(t)) && has_rule(
                t,
                old(self)->GposLookup_0->Cursive_0,
                CursivePosRule { glyph: id, entry, exit },
            ),
    {
        if let SomeLookup::GposLookup(PositionLookup::Cursive(table)) = self {
            let n = table.subtables.len();
            let subtable = &mut table.subtables[n - 1];
            subtable.insert(id, entry, exit);
            assert(table.subtables@.drop_last() =~= old(
                self,
            )->GposLookup_0->Cursive_0.subtables@.drop_last());
        }
    }

    /// Adds a rule that attaches marks to base glyphs.
    pub fn with_gpos_type_4(&mut self, rule: MarkToBaseRule)
        requires
            *old(self) matches SomeLookup::GposLookup(PositionLookup::MarkToBase(t)) && t.wf(),
        ensures
            *final(self) matches SomeLookup::GposLookup(PositionLookup::MarkToBase(t)) && has_rule(
                t,
                old(self)->GposLookup_0->MarkToBase_0,
                rule,
            ),
    {
        if let SomeLookup::GposLookup(PositionLookup::MarkToBase(table)) = self {
            let n = table.subtables.len();
            let subtable = &mut table.subtables[n - 1];
            subtable.push(rule);
            assert(table.subtables@.drop_last() =~= old(
                self,
            )->GposLookup_0->MarkToBase_0.subtables@.drop_last());
        }
    }

    /// Adds a rule that attaches marks to ligatures.
    pub fn with_gpos_type_5(&mut self, rule: MarkToLigRule)
        requires
            *old(self) matches SomeLookup::GposLookup(PositionLookup::MarkToLig(t)) && t.wf(),
        ensures
            *final(self) matches SomeLookup::GposLookup(PositionLookup::MarkToLig(t)) && has_rule(
                t,
                old(self)->GposLookup_0->MarkToLig_0,
                rule,
            ),
    {
        if let SomeLookup::GposLookup(PositionLookup::MarkToLig(table)) = self {
            let n = table.subtables.len();
            let subtable = &mut table.subtables[n - 1];
            subtable.push(rule);
            assert(table.subtables@.drop_last() =~= old(
                self,
            )->GposLookup_0->MarkToLig_0.subtables@.drop_last());
        }
    }

    /// Adds a rule that attaches marks to marks.
    pub fn with_gpos_type_6(&mut self, rule: MarkToMarkRule)
        requires
            *old(self) matches SomeLookup::GposLookup(PositionLookup::MarkToMark(t)) && t.wf(),
        ensures
            *final(self) matches SomeLookup::GposLookup(PositionLookup::MarkToMark(t)) && has_rule(
                t,
                old(self)->GposLookup_0->MarkToMark_0,
                rule,
            ),
    {
        if let SomeLookup::GposLookup(PositionLookup::MarkToMark(table)) = self {
            let n = table.subtables.len();
            let subtable = &mut table.subtables[n - 1];
            subtable.push(rule);
            assert(table.subtables@.drop_last() =~= old(
                self,
            )->GposLookup_0->MarkToMark_0.subtables@.drop_last());
        }
    }

    /// Whether this lookup is `before` with the contextual rule made of the
    /// three parts added at the end of the last subtable.
    pub open spec fn has_contextual_rule(
        &self,
        before: &SomeLookup,
        backtrack: Vec<GlyphOrClass>,
        input: Vec<(GlyphOrClass, Vec<LookupId>)>,
        lookahead: Vec<GlyphOrClass>,
    ) -> bool {
        match (*self, *before) {
            (SomeLookup::GposContextual(a), SomeLookup::GposContextual(b)) => {
                &&& a.flags == b.flags
                &&& a.mark_set == b.mark_set
                &&& a.anon_lookups == b.anon_lookups
                &&& a.root_id == b.root_id
                &&& a.subtables@.len() == b.subtables@.len()
                &&& a.subtables@.drop_last() == b.subtables@.drop_last()
                &&& a.subtables@.last().rules@ == b.subtables@.last().rules@.push(
                    ContextRule { backtrack, context: input, lookahead },
                )
            },
            (SomeLookup::GsubContextual(a), SomeLookup::GsubContextual(b)) => {
                &&& a.flags == b.flags
                &&& a.mark_set == b.mark_set
                &&& a.anon_lookups == b.anon_lookups
                &&& a.root_id == b.root_id
                &&& a.subtables@.len() == b.subtables@.len()
                &&& a.subtables@.drop_last() == b.subtables@.drop_last()
                &&& a.subtables@.last().rules@ == b.subtables@.last().rules@.push(
                    ContextRule { backtrack, context: input, lookahead },
                )
            },
            _ => false,
        }
    }

    /// Adds a contextual or chaining rule, of either table.
    pub fn add_contextual_rule(
        &mut self,
        backtrack: Vec<GlyphOrClass>,
        input: Vec<(GlyphOrClass, Vec<LookupId>)>,
        lookahead: Vec<GlyphOrClass>,
    )
        requires
            *old(self) is GposContextual || *old(self) is GsubContextual,
            old(self).wf(),
        ensures
            final(self).has_contextual_rule(old(self), backtrack, input, lookahead),
    {
        match self {
            SomeLookup::GposContextual(lookup) => {
                let n = lookup.subtables.len();
                let subtable = &mut lookup.subtables[n - 1];
                subtable.add(backtrack, input, lookahead);
                assert(lookup.subtables@.drop_last() =~= old(
                    self,
                )->GposContextual_0.subtables@.drop_last());
            },
            SomeLookup::GsubContextual(lookup) => {
                let n = lookup.subtables.len();
                let subtable = &mut lookup.subtables[n - 1];
                subtable.add(backtrack, input, lookahead);
                assert(lookup.subtables@.drop_last() =~= old(
                    self,
                )->GsubContextual_0.subtables@.drop_last());
            },
            _ => {},
        }
    }

    /// Adds a rule that replaces one glyph by one glyph.
    pub fn add_gsub_type_1(&mut self, id: GlyphId, replacement: GlyphId)
        requires
            *old(self) matches SomeLookup::GsubLookup(SubstitutionLookup::Single(t)) && t.wf(),
        ensures
            *final(self) matches SomeLookup::GsubLookup(SubstitutionLookup::Single(t)) && has_rule(
                t,
                old(self)->GsubLookup_0->Single_0,
                SingleSubRule { target: id, replacement },
            ),
    {
        if let SomeLookup::GsubLookup(SubstitutionLookup::Single(table)) = self {
            let n = table.subtables.len();
            let subtable = &mut table.subtables[n - 1];
            subtable.insert(id, replacement);
            assert(table.subtables@.drop_last() =~= old(
                self,
            )->GsubLookup_0->Single_0.subtables@.drop_last());
        }
    }

    /// Adds a rule that replaces one glyph by a sequence of glyphs.
    pub fn add_gsub_type_2(&mut self, id: GlyphId, replacement: Vec<GlyphId>)
        requires
            *old(self) matches SomeLookup::GsubLookup(SubstitutionLookup::Multiple(t)) && t.wf(),
        ensures
            *final(self) matches SomeLookup::GsubLookup(SubstitutionLookup::Multiple(t))
                && has_rule(
                t,
                old(self)->GsubLookup_0->Multiple_0,
                MultipleSubRule { target: id, replacement },
            ),
    {
        if let SomeLookup::GsubLookup(SubstitutionLookup::Multiple(table)) = self {
            let n = table.subtables.len();
            let subtable = &mut table.subtables[n - 1];
            subtable.insert(id, replacement);
            assert(table.subtables@.drop_last() =~= old(
                self,
            )->GsubLookup_0->Multiple_0.subtables@.drop_last());
        }
    }

    /// Adds a rule that offers alternates for one glyph.
    pub fn add_gsub_type_3(&mut self, id: GlyphId, alternates: Vec<GlyphId>)
        requires
            *old(self) matches SomeLookup::GsubLookup(SubstitutionLookup::Alternate(t)) && t.wf(),
        ensures
            *final(self) matches SomeLookup::GsubLookup(SubstitutionLookup::Alternate(t))
                && has_rule(
                t,
                old(self)->GsubLookup_0->Alternate_0,
                AlternateSubRule { target: id, alternates },
            ),
    {
        if let SomeLookup::GsubLookup(SubstitutionLookup::Alternate(table)) = self {
            let n = table.subtables.len();
            let subtable = &mut table.subtables[n - 1];
            subtable.insert(id, alternates);
            assert(table.subtables@.drop_last() =~= old(
                self,
            )->GsubLookup_0->Alternate_0.subtables@.drop_last());
        }
    }

    /// Adds a rule that replaces a sequence of glyphs by one glyph.
    pub fn add_gsub_type_4(&mut self, target: Vec<GlyphId>, replacement: GlyphId)
        requires
            *old(self) matches SomeLookup::GsubLookup(SubstitutionLookup::Ligature(t)) && t.wf(),
        ensures
            *final(self) matches SomeLookup::GsubLookup(SubstitutionLookup::Ligature(t))
                && has_rule(
                t,
                old(self)->GsubLookup_0->Ligature_0,
                LigatureSubRule { target, replacement },
            ),
    {
        if let SomeLookup::GsubLookup(SubstitutionLookup::Ligature(table)) = self {
            let n = table.subtables.len();
            let subtable = &mut table.subtables[n - 1];
            subtable.insert(target, replacement);
            assert(table.subtables@.drop_last() =~= old(
                self,
            )->GsubLookup_0->Ligature_0.subtables@.drop_last());
        }
    }

    /// Adds a reverse chaining rule.
    pub fn add_gsub_type_8(
        &mut self,
        backtrack: Vec<GlyphOrClass>,
        input: Vec<(GlyphId, GlyphId)>,
        lookahead: Vec<GlyphOrClass>,
    )
        requires
            *old(self) matches SomeLookup::GsubLookup(SubstitutionLookup::Reverse(t)) && t.wf(),
            ascending_targets(input@),
        ensures
            *final(self) matches SomeLookup::GsubLookup(SubstitutionLookup::Reverse(t)) && has_rule(
                t,
                old(self)->GsubLookup_0->Reverse_0,
                ReverseSubRule { backtrack, input, lookahead },
            ),
    {
        if let SomeLookup::GsubLookup(SubstitutionLookup::Reverse(table)) = self {
            let n = table.subtables.len();
            let subtable = &mut table.subtables[n - 1];
            subtable.add(backtrack, input, lookahead);
            assert(table.subtables@.drop_last() =~= old(
                self,
            )->GsubLookup_0->Reverse_0.subtables@.drop_last());
        }
    }

    /// The contextual lookup of the substitution table that this is.
    pub fn as_gsub_contextual(&mut self) -> (r: &mut ContextualLookupBuilder<SubstitutionLookup>)
        requires
            *old(self) is GsubContextual,
        ensures
            *r == old(self)->GsubContextual_0,
            *final(self) == SomeLookup::GsubContextual(*final(r)),
    {
        match self {
            SomeLookup::GsubContextual(table) => table,
            _ => vstd::pervasive::unreached(),
        }
    }

    /// The contextual lookup of the positioning table that this is.
    pub fn as_gpos_contextual(&mut self) -> (r: &mut ContextualLookupBuilder<PositionLookup>)
        requires
            *old(self) is GposContextual,
        ensures
            *r == old(self)->GposContextual_0,
            *final(self) == SomeLookup::GposContextual(*final(r)),
    {
        match self {
            SomeLookup::GposContextual(table) => table,
            _ => vstd::pervasive::unreached(),
        }
    }
}


} // verus!
