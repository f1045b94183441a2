//! Contextual lookups: rules that apply other lookups at chosen positions of
//! a matching glyph sequence.

use vstd::prelude::*;
use vstd::std_specs::convert::FromSpecImpl;

use crate::compile::lookups::gpos::{record_of, SinglePosBuilder, SinglePosRule};
use crate::compile::lookups::gsub::{replacement_of, SingleSubBuilder, SingleSubRule};
use crate::compile::lookups::kinds::{has_rule};
use crate::compile::lookups::{
    Builder, FilterSetId, LookupBuilder, LookupFlag, LookupId, PositionLookup, SubstitutionLookup,
};
use crate::compile::tables::Subtable;
use crate::types::{GlyphId, GlyphOrClass, ValueRecord};

verus! {

/// A contextual rule: the glyphs that must precede the match, the glyphs of
/// the match itself, each with the lookups to apply at its position, and the
/// glyphs that must follow.
#[derive(Debug)]
pub struct ContextRule {
    pub backtrack: Vec<GlyphOrClass>,
    pub context: Vec<(GlyphOrClass, Vec<LookupId>)>,
    pub lookahead: Vec<GlyphOrClass>,
}

/// The rules of one contextual subtable, in the order in which they were
/// added.
#[derive(Debug)]
pub struct ContextBuilder {
    pub rules: Vec<ContextRule>,
}

/// The rules of a chaining subtable.
#[derive(Debug)]
pub struct ChainContextBuilder(pub ContextBuilder);

/// The rules of a contextual subtable of the positioning table.
#[derive(Debug)]
pub struct PosContextBuilder(pub ContextBuilder);

/// The rules of a contextual subtable of the substitution table.
#[derive(Debug)]
pub struct SubContextBuilder(pub ContextBuilder);

/// The rules of a chaining subtable of the positioning table.
#[derive(Debug)]
pub struct PosChainContextBuilder(pub ChainContextBuilder);

/// The rules of a chaining subtable of the substitution table.
#[derive(Debug)]
pub struct SubChainContextBuilder(pub ChainContextBuilder);

/// A contextual lookup under construction, with the lookups made for the
/// rules that were written out at the place where they apply.
#[derive(Debug)]
pub struct ContextualLookupBuilder<T> {
    pub flags: LookupFlag,
    pub mark_set: Option<FilterSetId>,
    pub subtables: Vec<ContextBuilder>,
    pub anon_lookups: Vec<T>,
    /// The identifier under which the lookup itself will be stored. The
    /// lookups in `anon_lookups` follow it directly.
    pub root_id: LookupId,
}

/// A finished contextual lookup, in the plain form or in the chaining form.
#[derive(Debug)]
pub enum ChainOrNot {
    Context(LookupBuilder<ContextBuilder>),
    Chain(LookupBuilder<ChainContextBuilder>),
}

/// The identifiers of `ids`, each moved `by` positions up if it is of the
/// substitution table.
pub open spec fn shifted_ids(ids: Seq<LookupId>, by: int) -> Seq<LookupId> {
    Seq::new(ids.len(), |i: int| ids[i].shifted(by))
}

/// Whether every identifier of the substitution table in `ids` can be moved
/// `by` positions up.
pub open spec fn ids_can_shift(ids: Seq<LookupId>, by: int) -> bool {
    forall|i: int|
        0 <= i < ids.len() ==> ((#[trigger] ids[i]) matches LookupId::Gsub(idx) ==> idx + by
            <= usize::MAX)
}

/// Moves every identifier of the substitution table in `ids` up by `by`.
pub fn bump_ids(ids: &mut Vec<LookupId>, by: usize)
    requires
        ids_can_shift(old(ids)@, by as int),
    ensures
        final(ids)@ == shifted_ids(old(ids)@, by as int),
{
    let mut k: usize = 0;
    while k < ids.len()
        invariant
            ids@.len() == old(ids)@.len(),
            k <= ids@.len(),
            ids_can_shift(old(ids)@, by as int),
            forall|j: int| 0 <= j < k ==> ids@[j] == (#[trigger] old(ids)@[j]).shifted(by as int),
            forall|j: int| k <= j < ids@.len() ==> ids@[j] == old(ids)@[j],
        decreases ids@.len() - k,
    {
        let mut id = ids[k];
        assert(id == old(ids)@[k as int]);
        id.adjust_if_gsub(by);
        ids[k] = id;
        k += 1;
    }
    assert(ids@ =~= shifted_ids(old(ids)@, by as int));
}

impl ContextRule {
    /// Whether the rule looks at glyphs before or after the match.
    pub open spec fn spec_is_chain_rule(&self) -> bool {
        self.backtrack@.len() > 0 || self.lookahead@.len() > 0
    }

    /// The lookups to apply at position `i` of the match.
    pub open spec fn nested(&self, i: int) -> Seq<LookupId> {
        self.context@[i].1@
    }

    /// Whether every nested identifier of the substitution table can be moved
    /// `by` positions up.
    pub open spec fn can_shift(&self, by: int) -> bool {
        forall|i: int| 0 <= i < self.context@.len() ==> ids_can_shift(#[trigger] self.nested(i), by)
    }

    /// Whether this rule is `before` with every nested identifier of the
    /// substitution table moved `by` positions up, and nothing else changed.
    pub open spec fn is_shift_of(&self, before: &ContextRule, by: int) -> bool {
        &&& self.backtrack == before.backtrack
        &&& self.lookahead == before.lookahead
        &&& self.context@.len() == before.context@.len()
        &&& forall|i: int|
            0 <= i < self.context@.len() ==> (#[trigger] self.context@[i]).0 == before.context@[i].0
        &&& forall|i: int|
            0 <= i < self.context@.len() ==> #[trigger] self.nested(i) == shifted_ids(
                before.nested(i),
                by,
            )
    }

    /// Whether the rule looks at glyphs before or after the match.
    #[verifier::when_used_as_spec(spec_is_chain_rule)]
    pub fn is_chain_rule(&self) -> (r: bool)
        ensures
            r == self.spec_is_chain_rule(),
    {
        self.backtrack.len() > 0 || self.lookahead.len() > 0
    }

    /// Moves every nested identifier of the substitution table `by` positions
    /// up.
    pub fn bump_all_lookup_ids(&mut self, by: usize)
        requires
            old(self).can_shift(by as int),
        ensures
            final(self).is_shift_of(old(self), by as int),
    {
        let mut i: usize = 0;
        while i < self.context.len()
            invariant
                self.backtrack == old(self).backtrack,
                self.lookahead == old(self).lookahead,
                self.context@.len() == old(self).context@.len(),
                i <= self.context@.len(),
                old(self).can_shift(by as int),
                forall|k: int|
                    0 <= k < self.context@.len() ==> (#[trigger] self.context@[k]).0 == old(self).context@[k].0,
                forall|k: int|
                    0 <= k < i ==> #[trigger] self.nested(k) == shifted_ids(
                        old(self).nested(k),
                        by as int,
                    ),
                forall|k: int|
                    i <= k < self.context@.len() ==> #[trigger] self.nested(k) == old(self).nested(
                        k,
                    ),
            decreases self.context@.len() - i,
        {
            assert(ids_can_shift(old(self).nested(i as int), by as int));
            assert(self.nested(i as int) == old(self).nested(i as int));
            let ghost whole = self.context@;
            assert forall|k: int| 0 <= k < whole.len() implies (#[trigger] whole[k]).1@ == (if k
                < i {
                shifted_ids(old(self).nested(k), by as int)
            } else {
                old(self).nested(k)
            }) by {
                assert(self.nested(k) == whole[k].1@);
            }
            let item = &mut self.context[i];
            bump_ids(&mut item.1, by);
            assert(self.context@[i as int].0 == whole[i as int].0);
            assert(self.nested(i as int) == shifted_ids(old(self).nested(i as int), by as int));
            assert forall|k: int| 0 <= k < self.context@.len() && k != i implies #[trigger] self.nested(
                k,
            ) == (if k < i {
                shifted_ids(old(self).nested(k), by as int)
            } else {
                old(self).nested(k)
            }) by {
                assert(self.context@[k] == whole[k]);
            }
            assert forall|k: int| 0 <= k < self.context@.len() implies (#[trigger] self.context@[k]).0
                == old(self).context@[k].0 by {
                if k != i {
                    assert(self.context@[k] == whole[k]);
                }
            }
            i += 1;
        }
    }
}

/// An order to apply a lookup at a position of a match, as it stands in an
/// encoded rule.
#[derive(Debug, Clone, Copy, PartialEq, Eq, Structural)]
pub struct SequenceLookup {
    pub sequence_index: u16,
    pub lookup_list_index: u16,
}

/// The orders that the lookups `ids` give for the position `at`: one for
/// each lookup that is not the lookup of an empty block, in order.
pub open spec fn orders_at(ids: Seq<LookupId>, at: u16) -> Seq<SequenceLookup>
    decreases ids.len(),
{
    if ids.len() == 0 {
        Seq::empty()
    } else if ids.last() is Empty {
        orders_at(ids.drop_last(), at)
    } else {
        orders_at(ids.drop_last(), at).push(
            SequenceLookup { sequence_index: at, lookup_list_index: ids.last().raw() as u16 },
        )
    }
}

/// The orders that the positions of a match give, position by position.
pub open spec fn orders(context: Seq<(GlyphOrClass, Vec<LookupId>)>) -> Seq<SequenceLookup>
    decreases context.len(),
{
    if context.len() == 0 {
        Seq::empty()
    } else {
        orders(context.drop_last()) + orders_at(
            context.last().1@,
            (context.len() - 1) as u16,
        )
    }
}

impl ContextRule {
    /// Whether the rule can be encoded: its match is short enough for
    /// positions of sixteen bits, and so is the place of every lookup that
    /// it applies.
    pub open spec fn encodable(&self) -> bool {
        &&& self.context@.len() <= 0x1_0000
        &&& forall|i: int, k: int|
            0 <= i < self.context@.len() && 0 <= k < self.context@[i].1@.len() ==> (
            #[trigger] self.context@[i].1@[k]).encodable()
    }

    /// Whether the rule can be encoded.
    #[verifier::when_used_as_spec(encodable)]
    pub fn is_encodable(&self) -> (r: bool)
        ensures
            r == self.encodable(),
    {
        if self.context.len() > 0x1_0000 {
            return false;
        }
        let mut i: usize = 0;
        while i < self.context.len()
            invariant
                i <= self.context@.len(),
                self.context@.len() <= 0x1_0000,
                forall|a: int, k: int|
                    0 <= a < i && 0 <= k < self.context@[a].1@.len() ==> (
                    #[trigger] self.context@[a].1@[k]).encodable(),
            decreases self.context@.len() - i,
        {
            let ids = &self.context[i].1;
            let mut k: usize = 0;
            while k < ids.len()
                invariant
                    k <= ids@.len(),
                    i < self.context@.len(),
                    ids@ == self.context@[i as int].1@,
                    forall|j: int| 0 <= j < k ==> (#[trigger] ids@[j]).encodable(),
                decreases ids@.len() - k,
            {
                if !ids[k].is_encodable() {
                    assert(!self.context@[i as int].1@[k as int].encodable());
                    return false;
                }
                k += 1;
            }
            i += 1;
        }
        true
    }

    /// Whether every nested identifier of the substitution table can be
    /// moved `by` positions up.
    pub fn can_bump(&self, by: usize) -> (r: bool)
        ensures
            r == self.can_shift(by as int),
    {
        let mut i: usize = 0;
        while i < self.context.len()
            invariant
                i <= self.context@.len(),
                forall|a: int| 0 <= a < i ==> ids_can_shift(#[trigger] self.nested(a), by as int),
            decreases self.context@.len() - i,
        {
            let ids = &self.context[i].1;
            let mut k: usize = 0;
            while k < ids.len()
                invariant
                    k <= ids@.len(),
                    i < self.context@.len(),
                    ids@ == self.nested(i as int),
                    forall|j: int|
                        0 <= j < k ==> ((#[trigger] ids@[j]) matches LookupId::Gsub(idx) ==> idx
                            + by <= usize::MAX),
                decreases ids@.len() - k,
            {
                match ids[k] {
                    LookupId::Gsub(idx) => {
                        if idx > usize::MAX - by {
                            assert(!ids_can_shift(self.nested(i as int), by as int));
                            return false;
                        }
                    },
                    _ => {},
                }
                k += 1;
            }
            i += 1;
        }
        true
    }

    /// The orders to apply lookups that the rule gives, position by
    /// position, as they stand in the encoded rule. The lookup of an empty
    /// block gives no order.
    pub fn sequence_lookups(&self) -> (r: Vec<SequenceLookup>)
        requires
            self.encodable(),
        ensures
            r@ == orders(self.context@),
    {
        let mut out: Vec<SequenceLookup> = Vec::new();
        let mut i: usize = 0;
        while i < self.context.len()
            invariant
                i <= self.context@.len(),
                self.encodable(),
                out@ == orders(self.context@.take(i as int)),
            decreases self.context@.len() - i,
        {
            let ids = &self.context[i].1;
            let at: u16 = i as u16;
            let ghost start = out@;
            let mut k: usize = 0;
            while k < ids.len()
                invariant
                    k <= ids@.len(),
                    i < self.context@.len(),
                    ids@ == self.context@[i as int].1@,
                    self.encodable(),
                    out@ == start + orders_at(ids@.take(k as int), at),
                decreases ids@.len() - k,
            {
                proof {
                    let next = ids@.take(k + 1);
                    assert(next.drop_last() =~= ids@.take(k as int));
                    assert(next.last() == ids@[k as int]);
                    assert(self.context@[i as int].1@[k as int].encodable());
                }
                match ids[k] {
                    LookupId::Gpos(index) => out.push(
                        SequenceLookup { sequence_index: at, lookup_list_index: index as u16 },
                    ),
                    LookupId::Gsub(index) => out.push(
                        SequenceLookup { sequence_index: at, lookup_list_index: index as u16 },
                    ),
                    LookupId::Empty => {},
                }
                k += 1;
            }
            proof {
                assert(ids@.take(k as int) =~= ids@);
                let next = self.context@.take(i + 1);
                assert(next.drop_last() =~= self.context@.take(i as int));
                assert(next.last() == self.context@[i as int]);
            }
            i += 1;
        }
        assert(self.context@.take(i as int) =~= self.context@);
        out
    }
}

impl ContextBuilder {
    /// Whether some rule looks at glyphs before or after its match.
    pub open spec fn spec_is_chain_rule(&self) -> bool {
        exists|i: int| 0 <= i < self.rules@.len() && (#[trigger] self.rules@[i]).spec_is_chain_rule()
    }

    /// Whether every nested identifier of the substitution table can be moved
    /// `by` positions up.
    pub open spec fn can_shift(&self, by: int) -> bool {
        forall|i: int| 0 <= i < self.rules@.len() ==> (#[trigger] self.rules@[i]).can_shift(by)
    }

    /// Whether this subtable is `before` with every nested identifier of the
    /// substitution table moved `by` positions up, and nothing else changed.
    pub open spec fn is_shift_of(&self, before: &ContextBuilder, by: int) -> bool {
        &&& self.rules@.len() == before.rules@.len()
        &&& forall|i: int|
            0 <= i < self.rules@.len() ==> (#[trigger] self.rules@[i]).is_shift_of(
                &before.rules@[i],
                by,
            )
    }

    /// The subtable without rules.
    pub fn new() -> (r: ContextBuilder)
        ensures
            r.rules@ == Seq::<ContextRule>::empty(),
    {
        ContextBuilder { rules: Vec::new() }
    }

    /// Adds a rule at the end.
    pub fn add(
        &mut self,
        backtrack: Vec<GlyphOrClass>,
        context: Vec<(GlyphOrClass, Vec<LookupId>)>,
        lookahead: Vec<GlyphOrClass>,
    )
        ensures
            final(self).rules@ == old(self).rules@.push(
                ContextRule { backtrack, context, lookahead },
            ),
    {
        self.rules.push(ContextRule { backtrack, context, lookahead });
    }

    /// Whether some rule looks at glyphs before or after its match.
    #[verifier::when_used_as_spec(spec_is_chain_rule)]
    pub fn is_chain_rule(&self) -> (r: bool)
        ensures
            r == self.spec_is_chain_rule(),
    {
        let mut i: usize = 0;
        while i < self.rules.len()
            invariant
                i <= self.rules@.len(),
                forall|k: int| 0 <= k < i ==> !(#[trigger] self.rules@[k]).spec_is_chain_rule(),
            decreases self.rules@.len() - i,
        {
            if self.rules[i].is_chain_rule() {
                return true;
            }
            i += 1;
        }
        false
    }

    /// Whether every nested identifier of the substitution table can be
    /// moved `by` positions up.
    pub fn can_bump(&self, by: usize) -> (r: bool)
        ensures
            r == self.can_shift(by as int),
    {
        let mut i: usize = 0;
        while i < self.rules.len()
            invariant
                i <= self.rules@.len(),
                forall|a: int| 0 <= a < i ==> (#[trigger] self.rules@[a]).can_shift(by as int),
            decreases self.rules@.len() - i,
        {
            if !self.rules[i].can_bump(by) {
                return false;
            }
            i += 1;
        }
        true
    }

    /// Moves every nested identifier of the substitution table `by` positions
    /// up.
    pub fn bump_all_lookup_ids(&mut self, by: usize)
        requires
            old(self).can_shift(by as int),
        ensures
            final(self).is_shift_of(old(self), by as int),
    {
        let mut i: usize = 0;
        while i < self.rules.len()
            invariant
                self.rules@.len() == old(self).rules@.len(),
                i <= self.rules@.len(),
                old(self).can_shift(by as int),
                forall|k: int|
                    0 <= k < i ==> (#[trigger] self.rules@[k]).is_shift_of(
                        &old(self).rules@[k],
                        by as int,
                    ),
                forall|k: int| i <= k < self.rules@.len() ==> self.rules@[k] == old(self).rules@[k],
            decreases self.rules@.len() - i,
        {
            assert(old(self).rules@[i as int].can_shift(by as int));
            let rule = &mut self.rules[i];
            rule.bump_all_lookup_ids(by);
            i += 1;
        }
    }

    /// Every nested identifier of the subtable, rule by rule and position by
    /// position.
    pub fn iter_lookups(&self) -> (r: Vec<LookupId>)
        ensures
            r@ == all_nested(self.rules@),
    {
        let mut out: Vec<LookupId> = Vec::new();
        let mut i: usize = 0;
        while i < self.rules.len()
            invariant
                i <= self.rules@.len(),
                out@ == all_nested(self.rules@.take(i as int)),
            decreases self.rules@.len() - i,
        {
            let rule = &self.rules[i];
            let ghost base = out@;
            let mut j: usize = 0;
            while j < rule.context.len()
                invariant
                    j <= rule.context@.len(),
                    out@ == base + rule_nested(rule.context@.take(j as int)),
                decreases rule.context@.len() - j,
            {
                let ids = &rule.context[j].1;
                let ghost mid = out@;
                let mut k: usize = 0;
                while k < ids.len()
                    invariant
                        k <= ids@.len(),
                        out@ == mid + ids@.take(k as int),
                    decreases ids@.len() - k,
                {
                    out.push(ids[k]);
                    assert(ids@.take(k + 1) =~= ids@.take(k as int).push(ids@[k as int]));
                    k += 1;
                }
                proof {
                    assert(ids@.take(k as int) =~= ids@);
                    let next = rule.context@.take(j + 1);
                    assert(next.drop_last() =~= rule.context@.take(j as int));
                    assert(next.last() == rule.context@[j as int]);
                    assert(out@ =~= base + rule_nested(next));
                }
                j += 1;
            }
            proof {
                assert(rule.context@.take(j as int) =~= rule.context@);
                let next = self.rules@.take(i + 1);
                assert(next.drop_last() =~= self.rules@.take(i as int));
                assert(next.last() == self.rules@[i as int]);
            }
            i += 1;
        }
        assert(self.rules@.take(i as int) =~= self.rules@);
        out
    }
}

/// The nested identifiers of the positions of a match, position by position.
pub open spec fn rule_nested(context: Seq<(GlyphOrClass, Vec<LookupId>)>) -> Seq<LookupId>
    decreases context.len(),
{
    if context.len() == 0 {
        Seq::empty()
    } else {
        rule_nested(context.drop_last()) + context.last().1@
    }
}

/// The nested identifiers of the rules, rule by rule.
pub open spec fn all_nested(rules: Seq<ContextRule>) -> Seq<LookupId>
    decreases rules.len(),
{
    if rules.len() == 0 {
        Seq::empty()
    } else {
        all_nested(rules.drop_last()) + rule_nested(rules.last().context@)
    }
}

impl Default for ContextBuilder {
    fn default() -> (r: ContextBuilder)
        ensures
            r.rules@ == Seq::<ContextRule>::empty(),
    {
        ContextBuilder { rules: Vec::new() }
    }
}

impl From<ContextBuilder> for ChainContextBuilder {
    fn from(src: ContextBuilder) -> (r: ChainContextBuilder) {
        ChainContextBuilder(src)
    }
}

impl FromSpecImpl<ContextBuilder> for ChainContextBuilder {
    open spec fn obeys_from_spec() -> bool {
        true
    }

    open spec fn from_spec(src: ContextBuilder) -> ChainContextBuilder {
        ChainContextBuilder(src)
    }
}

impl From<ContextBuilder> for PosContextBuilder {
    fn from(src: ContextBuilder) -> (r: PosContextBuilder) {
        PosContextBuilder(src)
    }
}

impl FromSpecImpl<ContextBuilder> for PosContextBuilder {
    open spec fn obeys_from_spec() -> bool {
        true
    }

    open spec fn from_spec(src: ContextBuilder) -> PosContextBuilder {
        PosContextBuilder(src)
    }
}

impl From<ContextBuilder> for SubContextBuilder {
    fn from(src: ContextBuilder) -> (r: SubContextBuilder) {
        SubContextBuilder(src)
    }
}

impl FromSpecImpl<ContextBuilder> for SubContextBuilder {
    open spec fn obeys_from_spec() -> bool {
        true
    }

    open spec fn from_spec(src: ContextBuilder) -> SubContextBuilder {
        SubContextBuilder(src)
    }
}

impl From<ChainContextBuilder> for PosChainContextBuilder {
    fn from(src: ChainContextBuilder) -> (r: PosChainContextBuilder) {
        PosChainContextBuilder(src)
    }
}

impl FromSpecImpl<ChainContextBuilder> for PosChainContextBuilder {
    open spec fn obeys_from_spec() -> bool {
        true
    }

    open spec fn from_spec(src: ChainContextBuilder) -> PosChainContextBuilder {
        PosChainContextBuilder(src)
    }
}

impl From<ChainContextBuilder> for SubChainContextBuilder {
    fn from(src: ChainContextBuilder) -> (r: SubChainContextBuilder) {
        SubChainContextBuilder(src)
    }
}

impl FromSpecImpl<ChainContextBuilder> for SubChainContextBuilder {
    open spec fn obeys_from_spec() -> bool {
        true
    }

    open spec fn from_spec(src: ChainContextBuilder) -> SubChainContextBuilder {
        SubChainContextBuilder(src)
    }
}

impl From<ContextBuilder> for PosChainContextBuilder {
    fn from(src: ContextBuilder) -> (r: PosChainContextBuilder) {
        PosChainContextBuilder(ChainContextBuilder(src))
    }
}

impl FromSpecImpl<ContextBuilder> for PosChainContextBuilder {
    open spec fn obeys_from_spec() -> bool {
        true
    }

    open spec fn from_spec(src: ContextBuilder) -> PosChainContextBuilder {
        PosChainContextBuilder(ChainContextBuilder(src))
    }
}

impl From<ContextBuilder> for SubChainContextBuilder {
    fn from(src: ContextBuilder) -> (r: SubChainContextBuilder) {
        SubChainContextBuilder(ChainContextBuilder(src))
    }
}

impl FromSpecImpl<ContextBuilder> for SubChainContextBuilder {
    open spec fn obeys_from_spec() -> bool {
        true
    }

    open spec fn from_spec(src: ContextBuilder) -> SubChainContextBuilder {
        SubChainContextBuilder(ChainContextBuilder(src))
    }
}

impl Builder for ContextBuilder {
    type Output = Vec<Subtable<ContextRule>>;

    /// A subtable without rules gives nothing; any other gives one subtable
    /// with its rules.
    fn build(self) -> (r: Vec<Subtable<ContextRule>>)
        ensures
            self.rules@.len() == 0 ==> r@.len() == 0,
            self.rules@.len() > 0 ==> r@.len() == 1 && r@[0]@ == self.rules@,
    {
        let mut out: Vec<Subtable<ContextRule>> = Vec::new();
        if self.rules.len() > 0 {
            out.push(Subtable { rules: self.rules });
        }
        out
    }
}

impl Builder for PosContextBuilder {
    type Output = Vec<Subtable<ContextRule>>;

    fn build(self) -> (r: Vec<Subtable<ContextRule>>)
        ensures
            self.0.rules@.len() == 0 ==> r@.len() == 0,
            self.0.rules@.len() > 0 ==> r@.len() == 1 && r@[0]@ == self.0.rules@,
    {
        self.0.build()
    }
}

impl Builder for SubContextBuilder {
    type Output = Vec<Subtable<ContextRule>>;

    fn build(self) -> (r: Vec<Subtable<ContextRule>>)
        ensures
            self.0.rules@.len() == 0 ==> r@.len() == 0,
            self.0.rules@.len() > 0 ==> r@.len() == 1 && r@[0]@ == self.0.rules@,
    {
        self.0.build()
    }
}

impl Builder for PosChainContextBuilder {
    type Output = Vec<Subtable<ContextRule>>;

    fn build(self) -> (r: Vec<Subtable<ContextRule>>)
        ensures
            self.0.0.rules@.len() == 0 ==> r@.len() == 0,
            self.0.0.rules@.len() > 0 ==> r@.len() == 1 && r@[0]@ == self.0.0.rules@,
    {
        self.0.0.build()
    }
}

impl Builder for SubChainContextBuilder {
    type Output = Vec<Subtable<ContextRule>>;

    fn build(self) -> (r: Vec<Subtable<ContextRule>>)
        ensures
            self.0.0.rules@.len() == 0 ==> r@.len() == 0,
            self.0.0.rules@.len() > 0 ==> r@.len() == 1 && r@[0]@ == self.0.0.rules@,
    {
        self.0.0.build()
    }
}

impl<T> ContextualLookupBuilder<T> {
    /// Whether there is a subtable to add rules to.
    pub open spec fn wf(&self) -> bool {
        self.subtables@.len() > 0
    }

    /// Whether some rule looks at glyphs before or after its match.
    pub open spec fn has_chain_rule(&self) -> bool {
        exists|i: int|
            0 <= i < self.subtables@.len() && (#[trigger] self.subtables@[i]).spec_is_chain_rule()
    }

    /// A lookup with one subtable without rules, and no identifier yet.
    pub fn new(flags: LookupFlag, mark_set: Option<FilterSetId>) -> (r: Self)
        ensures
            r.flags == flags,
            r.mark_set == mark_set,
            r.subtables@.len() == 1,
            r.subtables@[0].rules@ == Seq::<ContextRule>::empty(),
            r.anon_lookups@ == Seq::<T>::empty(),
            r.root_id == LookupId::Empty,
    {
        let mut subtables: Vec<ContextBuilder> = Vec::new();
        subtables.push(ContextBuilder::new());
        ContextualLookupBuilder {
            flags,
            mark_set,
            subtables,
            anon_lookups: Vec::new(),
            root_id: LookupId::Empty,
        }
    }

    /// The subtable that rules are added to.
    pub fn last_mut(&mut self) -> (r: &mut ContextBuilder)
        requires
            old(self).wf(),
        ensures
            *r == old(self).subtables@.last(),
            final(self).subtables@ == old(self).subtables@.update(
                old(self).subtables@.len() - 1,
                *final(r),
            ),
            final(self).flags == old(self).flags,
            final(self).mark_set == old(self).mark_set,
            final(self).anon_lookups == old(self).anon_lookups,
            final(self).root_id == old(self).root_id,
    {
        let n = self.subtables.len();
        &mut self.subtables[n - 1]
    }

    /// Begins a new subtable.
    pub fn force_subtable_break(&mut self)
        ensures
            final(self).subtables@.len() == old(self).subtables@.len() + 1,
            final(self).subtables@.drop_last() == old(self).subtables@,
            final(self).subtables@.last().rules@ == Seq::<ContextRule>::empty(),
            final(self).flags == old(self).flags,
            final(self).mark_set == old(self).mark_set,
            final(self).anon_lookups == old(self).anon_lookups,
            final(self).root_id == old(self).root_id,
    {
        self.subtables.push(ContextBuilder::new());
        assert(self.subtables@.drop_last() =~= old(self).subtables@);
    }

    /// Parts the lookup itself from the lookups made for it. The lookup is in
    /// the chaining form if one of its rules looks at glyphs before or after
    /// its match, in the plain form otherwise.
    pub fn into_lookups(self) -> (r: (ChainOrNot, Vec<T>))
        ensures
            r.1 == self.anon_lookups,
            match r.0 {
                ChainOrNot::Chain(lookup) => {
                    &&& self.has_chain_rule()
                    &&& lookup.flags == self.flags
                    &&& lookup.mark_set == self.mark_set
                    &&& lookup.subtables@.len() == self.subtables@.len()
                    &&& forall|i: int|
                        0 <= i < self.subtables@.len() ==> (#[trigger] lookup.subtables@[i]).0
                            == self.subtables@[i]
                },
                ChainOrNot::Context(lookup) => {
                    &&& !self.has_chain_rule()
                    &&& lookup.flags == self.flags
                    &&& lookup.mark_set == self.mark_set
                    &&& lookup.subtables == self.subtables
                },
            },
    {
        let mut chain = false;
        let mut i: usize = 0;
        while i < self.subtables.len()
            invariant
                i <= self.subtables@.len(),
                chain ==> self.has_chain_rule(),
                !chain ==> forall|k: int|
                    0 <= k < i ==> !(#[trigger] self.subtables@[k]).spec_is_chain_rule(),
            decreases self.subtables@.len() - i,
        {
            if self.subtables[i].is_chain_rule() {
                chain = true;
            }
            i += 1;
        }
        let ContextualLookupBuilder { flags, mark_set, subtables, anon_lookups, root_id: _ } = self;
        if chain {
            let converted: LookupBuilder<ChainContextBuilder> = LookupBuilder::new_with_lookups(
                flags,
                mark_set,
                subtables,
            ).convert();
            (ChainOrNot::Chain(converted), anon_lookups)
        } else {
            (ChainOrNot::Context(LookupBuilder::new_with_lookups(flags, mark_set, subtables)), anon_lookups)
        }
    }
}

impl ContextualLookupBuilder<SubstitutionLookup> {
    /// Whether the rule that replaces `target` by `replacement` can join the
    /// last lookup made for this lookup: that lookup replaces one glyph by
    /// one glyph, and gives `target` no other replacement.
    pub open spec fn can_reuse(&self, target: GlyphId, replacement: GlyphId) -> bool {
        &&& self.anon_lookups@.len() > 0
        &&& self.anon_lookups@.last() matches SubstitutionLookup::Single(l)
        &&& l.subtables@.len() > 0
        &&& (replacement_of(l.subtables@.last()@, target) is None || replacement_of(
            l.subtables@.last()@,
            target,
        ) == Some(replacement))
    }

    /// Takes a rule that was written out at the place where it applies, and
    /// returns the identifier of the lookup that holds it now.
    ///
    /// The rule joins the last lookup made for this lookup where it can;
    /// otherwise a new lookup with the flags and the filtering set of this
    /// lookup is made for it. The lookups made for this lookup are numbered
    /// on from the identifier of this lookup.
    pub fn add_anon_gsub_type_1(&mut self, target: GlyphId, replacement: GlyphId) -> (r: LookupId)
        requires
            old(self).root_id is Gsub,
            old(self).root_id.raw() + old(self).anon_lookups@.len() + 1 <= usize::MAX,
        ensures
            final(self).flags == old(self).flags,
            final(self).mark_set == old(self).mark_set,
            final(self).subtables == old(self).subtables,
            final(self).root_id == old(self).root_id,
            r matches LookupId::Gsub(idx) && idx == final(self).root_id.raw() + final(self).anon_lookups@.len(),
            final(self).anon_lookups@.drop_last() == (if old(self).can_reuse(target, replacement) {
                old(self).anon_lookups@.drop_last()
            } else {
                old(self).anon_lookups@
            }),
            final(self).anon_lookups@.len() > 0,
            final(self).anon_lookups@.last() matches SubstitutionLookup::Single(l) && (if old(self).can_reuse(target, replacement) {
                has_rule(
                    l,
                    old(self).anon_lookups@.last()->Single_0,
                    SingleSubRule { target, replacement },
                )
            } else {
                l.flags == old(self).flags && l.mark_set == old(self).mark_set && l.subtables@.len()
                    == 1 && l.subtables@[0]@ == seq![SingleSubRule { target, replacement }]
            }),
    {
        let n = self.anon_lookups.len();
        let mut reuse = false;
        if n > 0 {
            match &self.anon_lookups[n - 1] {
                SubstitutionLookup::Single(lookup) => {
                    let m = lookup.subtables.len();
                    if m > 0 && lookup.subtables[m - 1].can_add(target, replacement) {
                        reuse = true;
                    }
                },
                _ => {},
            }
        }
        if reuse {
            let last = &mut self.anon_lookups[n - 1];
            match last {
                SubstitutionLookup::Single(lookup) => {
                    let m = lookup.subtables.len();
                    let subtable = &mut lookup.subtables[m - 1];
                    subtable.insert(target, replacement);
                    assert(lookup.subtables@.drop_last() =~= old(self).anon_lookups@.last()->Single_0.subtables@.drop_last());
                },
                _ => {},
            }
            assert(self.anon_lookups@.drop_last() =~= old(self).anon_lookups@.drop_last());
        } else {
            let mut rules = SingleSubBuilder::new();
            rules.insert(target, replacement);
            let mut subtables: Vec<SingleSubBuilder> = Vec::new();
            subtables.push(rules);
            self.anon_lookups.push(
                SubstitutionLookup::Single(
                    LookupBuilder::new_with_lookups(self.flags, self.mark_set, subtables),
                ),
            );
            assert(self.anon_lookups@.drop_last() =~= old(self).anon_lookups@);
        }
        LookupId::Gsub(self.root_id.to_raw() + self.anon_lookups.len())
    }
}

impl ContextualLookupBuilder<PositionLookup> {
    /// Whether the rule that adjusts `glyph` by `record` can join the last
    /// lookup made for this lookup: that lookup adjusts single glyphs, and
    /// gives `glyph` no other adjustment.
    pub open spec fn can_reuse(&self, glyph: GlyphId, record: ValueRecord) -> bool {
        &&& self.anon_lookups@.len() > 0
        &&& self.anon_lookups@.last() matches PositionLookup::Single(l)
        &&& l.subtables@.len() > 0
        &&& (record_of(l.subtables@.last()@, glyph) is None || record_of(
            l.subtables@.last()@,
            glyph,
        ) == Some(record))
    }

    /// Takes a rule that was written out at the place where it applies, and
    /// returns the identifier of the lookup that holds it now.
    ///
    /// The rule joins the last lookup made for this lookup where it can;
    /// otherwise a new lookup with the flags and the filtering set of this
    /// lookup is made for it. The lookups made for this lookup are numbered
    /// on from the identifier of this lookup.
    pub fn add_anon_gpos_type_1(&mut self, glyph: GlyphId, record: ValueRecord) -> (r: LookupId)
        requires
            old(self).root_id is Gpos,
            old(self).root_id.raw() + old(self).anon_lookups@.len() + 1 <= usize::MAX,
        ensures
            final(self).flags == old(self).flags,
            final(self).mark_set == old(self).mark_set,
            final(self).subtables == old(self).subtables,
            final(self).root_id == old(self).root_id,
            r matches LookupId::Gpos(idx) && idx == final(self).root_id.raw() + final(self).anon_lookups@.len(),
            final(self).anon_lookups@.drop_last() == (if old(self).can_reuse(glyph, record) {
                old(self).anon_lookups@.drop_last()
            } else {
                old(self).anon_lookups@
            }),
            final(self).anon_lookups@.len() > 0,
            final(self).anon_lookups@.last() matches PositionLookup::Single(l) && (if old(self).can_reuse(glyph, record) {
                has_rule(l, old(self).anon_lookups@.last()->Single_0, SinglePosRule { glyph, record })
            } else {
                l.flags == old(self).flags && l.mark_set == old(self).mark_set && l.subtables@.len()
                    == 1 && l.subtables@[0]@ == seq![SinglePosRule { glyph, record }]
            }),
    {
        let n = self.anon_lookups.len();
        let mut reuse = false;
        if n > 0 {
            match &self.anon_lookups[n - 1] {
                PositionLookup::Single(lookup) => {
                    let m = lookup.subtables.len();
                    if m > 0 && lookup.subtables[m - 1].can_add(glyph, record) {
                        reuse = true;
                    }
                },
                _ => {},
            }
        }
        if reuse {
            let last = &mut self.anon_lookups[n - 1];
            match last {
                PositionLookup::Single(lookup) => {
                    let m = lookup.subtables.len();
                    let subtable = &mut lookup.subtables[m - 1];
                    subtable.insert(glyph, record);
                    assert(lookup.subtables@.drop_last() =~= old(self).anon_lookups@.last()->Single_0.subtables@.drop_last());
                },
                _ => {},
            }
            assert(self.anon_lookups@.drop_last() =~= old(self).anon_lookups@.drop_last());
        } else {
            let mut rules = SinglePosBuilder::new();
            rules.insert(glyph, record);
            let mut subtables: Vec<SinglePosBuilder> = Vec::new();
            subtables.push(rules);
            self.anon_lookups.push(
                PositionLookup::Single(
                    LookupBuilder::new_with_lookups(self.flags, self.mark_set, subtables),
                ),
            );
            assert(self.anon_lookups@.drop_last() =~= old(self).anon_lookups@);
        }
        LookupId::Gpos(self.root_id.to_raw() + self.anon_lookups.len())
    }
}

} // verus!
