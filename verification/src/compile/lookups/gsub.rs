//! The rules of the substitution lookups.

use vstd::prelude::*;

use crate::compile::lookups::rules::RuleList;
use crate::types::{GlyphId, GlyphOrClass};

verus! {

/// One glyph replaced by one glyph.
#[derive(Debug, Clone, Copy, PartialEq, Eq, Structural)]
pub struct SingleSubRule {
    pub target: GlyphId,
    pub replacement: GlyphId,
}

/// One glyph replaced by a sequence of glyphs.
#[derive(Debug)]
pub struct MultipleSubRule {
    pub target: GlyphId,
    pub replacement: Vec<GlyphId>,
}

/// One glyph with the glyphs that may stand in its place.
#[derive(Debug)]
pub struct AlternateSubRule {
    pub target: GlyphId,
    pub alternates: Vec<GlyphId>,
}

/// A sequence of glyphs replaced by one glyph.
#[derive(Debug)]
pub struct LigatureSubRule {
    pub target: Vec<GlyphId>,
    pub replacement: GlyphId,
}

/// Glyphs replaced one for one where they stand between the given
/// neighbours, the text being walked from its end. The glyphs to replace
/// stand in ascending order, each with its replacement.
#[derive(Debug)]
pub struct ReverseSubRule {
    pub backtrack: Vec<GlyphOrClass>,
    pub input: Vec<(GlyphId, GlyphId)>,
    pub lookahead: Vec<GlyphOrClass>,
}

pub type SingleSubBuilder = RuleList<SingleSubRule>;

pub type MultipleSubBuilder = RuleList<MultipleSubRule>;

pub type AlternateSubBuilder = RuleList<AlternateSubRule>;

pub type LigatureSubBuilder = RuleList<LigatureSubRule>;

pub type ReverseChainBuilder = RuleList<ReverseSubRule>;

/// Whether the glyphs to replace stand in ascending order, none of them
/// twice.
pub open spec fn ascending_targets(pairs: Seq<(GlyphId, GlyphId)>) -> bool {
    forall|i: int, j: int|
        0 <= i < j < pairs.len() ==> (#[trigger] pairs[i]).0.0 < (#[trigger] pairs[j]).0.0
}

/// Whether the glyphs to replace stand in ascending order, none of them
/// twice.
pub fn is_ascending(pairs: &[(GlyphId, GlyphId)]) -> (r: bool)
    ensures
        r == ascending_targets(pairs@),
{
    let mut i: usize = 1;
    while i < pairs.len()
        invariant
            1 <= i,
            forall|a: int, b: int|
                0 <= a < b < i && b < pairs@.len() ==> (#[trigger] pairs@[a]).0.0 < (
                #[trigger] pairs@[b]).0.0,
        decreases pairs@.len() - i,
    {
        if pairs[i - 1].0.0 >= pairs[i].0.0 {
            return false;
        }
        proof {
            assert forall|a: int, b: int| 0 <= a < b < i + 1 && b < pairs@.len() implies (
            #[trigger] pairs@[a]).0.0 < (#[trigger] pairs@[b]).0.0 by {
                if b == i {
                    if a < i - 1 {
                        assert(pairs@[a].0.0 < pairs@[i - 1].0.0);
                    }
                }
            }
        }
        i += 1;
    }
    true
}

/// The replacement that the rules give for `target`: that of the last rule
/// that names it.
pub open spec fn replacement_of(rules: Seq<SingleSubRule>, target: GlyphId) -> Option<GlyphId>
    decreases rules.len(),
{
    if rules.len() == 0 {
        None
    } else if rules.last().target == target {
        Some(rules.last().replacement)
    } else {
        replacement_of(rules.drop_last(), target)
    }
}

impl RuleList<SingleSubRule> {
    /// Adds the rule that replaces `target` by `replacement`.
    pub fn insert(&mut self, target: GlyphId, replacement: GlyphId)
        ensures
            final(self)@ == old(self)@.push(SingleSubRule { target, replacement }),
    {
        self.push(SingleSubRule { target, replacement });
    }

    /// The replacement that the rules give for `target`, if they give one.
    pub fn get(&self, target: GlyphId) -> (r: Option<GlyphId>)
        ensures
            r == replacement_of(self@, target),
    {
        let rules = self.rules();
        let mut i: usize = rules.len();
        assert(rules@.take(i as int) =~= rules@);
        while i > 0
            invariant
                i <= rules@.len(),
                rules@ == self@,
                replacement_of(self@, target) == replacement_of(rules@.take(i as int), target),
            decreases i,
        {
            let rule = rules[i - 1];
            assert(rules@.take(i as int).last() == rule);
            assert(rules@.take(i as int).drop_last() =~= rules@.take(i - 1));
            if rule.target == target {
                return Some(rule.replacement);
            }
            i -= 1;
        }
        None
    }

    /// Whether the rule that replaces `target` by `replacement` can be added
    /// without changing what the list gives for `target`.
    pub fn can_add(&self, target: GlyphId, replacement: GlyphId) -> (r: bool)
        ensures
            r == (replacement_of(self@, target) is None || replacement_of(self@, target) == Some(
                replacement,
            )),
    {
        match self.get(target) {
            None => true,
            Some(have) => have == replacement,
        }
    }
}

impl RuleList<MultipleSubRule> {
    /// Adds the rule that replaces `target` by the sequence `replacement`.
    pub fn insert(&mut self, target: GlyphId, replacement: Vec<GlyphId>)
        ensures
            final(self)@ == old(self)@.push(MultipleSubRule { target, replacement }),
    {
        self.push(MultipleSubRule { target, replacement });
    }
}

impl RuleList<AlternateSubRule> {
    /// Adds the rule that offers `alternates` for `target`.
    pub fn insert(&mut self, target: GlyphId, alternates: Vec<GlyphId>)
        ensures
            final(self)@ == old(self)@.push(AlternateSubRule { target, alternates }),
    {
        self.push(AlternateSubRule { target, alternates });
    }
}

impl RuleList<LigatureSubRule> {
    /// Adds the rule that replaces the sequence `target` by `replacement`.
    pub fn insert(&mut self, target: Vec<GlyphId>, replacement: GlyphId)
        ensures
            final(self)@ == old(self)@.push(LigatureSubRule { target, replacement }),
    {
        self.push(LigatureSubRule { target, replacement });
    }
}

impl RuleList<ReverseSubRule> {
    /// Adds a rule with its neighbours.
    pub fn add(
        &mut self,
        backtrack: Vec<GlyphOrClass>,
        input: Vec<(GlyphId, GlyphId)>,
        lookahead: Vec<GlyphOrClass>,
    )
        requires
            ascending_targets(input@),
        ensures
            final(self)@ == old(self)@.push(ReverseSubRule { backtrack, input, lookahead }),
    {
        self.push(ReverseSubRule { backtrack, input, lookahead });
    }
}

} // verus!
