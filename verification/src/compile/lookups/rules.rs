//! The list of rules that a subtable is built from.

use vstd::prelude::*;

use crate::compile::lookups::Builder;
use crate::compile::tables::Subtable;

verus! {

/// The rules of one subtable under construction, in the order in which they
/// were added. Where two rules speak of the same target, the later one
/// governs.
#[derive(Debug)]
pub struct RuleList<R> {
    rules: Vec<R>,
}

impl<R> View for RuleList<R> {
    type V = Seq<R>;

    closed spec fn view(&self) -> Seq<R> {
        self.rules@
    }
}

impl<R> RuleList<R> {
    /// The list without rules.
    pub fn new() -> (r: Self)
        ensures
            r@ == Seq::<R>::empty(),
    {
        RuleList { rules: Vec::new() }
    }

    /// Adds a rule at the end.
    pub fn push(&mut self, rule: R)
        ensures
            final(self)@ == old(self)@.push(rule),
    {
        self.rules.push(rule);
    }

    /// The number of rules.
    pub fn len(&self) -> (r: usize)
        ensures
            r == self@.len(),
    {
        self.rules.len()
    }

    /// Whether there is no rule.
    pub fn is_empty(&self) -> (r: bool)
        ensures
            r == (self@.len() == 0),
    {
        self.rules.len() == 0
    }

    /// The rules, in order.
    pub fn rules(&self) -> (r: &[R])
        ensures
            r@ == self@,
    {
        self.rules.as_slice()
    }

    /// The list that holds the given rules.
    pub fn from_vec(rules: Vec<R>) -> (r: Self)
        ensures
            r@ == rules@,
    {
        RuleList { rules }
    }

    /// Gives the rules up.
    pub fn into_vec(self) -> (r: Vec<R>)
        ensures
            r@ == self@,
    {
        self.rules
    }
}

impl<R> Default for RuleList<R> {
    fn default() -> (r: Self)
        ensures
            r@ == Seq::<R>::empty(),
    {
        RuleList { rules: Vec::new() }
    }
}

impl<R> Builder for RuleList<R> {
    type Output = Vec<Subtable<R>>;

    /// A list without rules gives no subtable; any other gives one subtable
    /// with its rules.
    fn build(self) -> (r: Vec<Subtable<R>>)
        ensures
            self@.len() == 0 ==> r@.len() == 0,
            self@.len() > 0 ==> r@.len() == 1 && r@[0]@ == self@,
    {
        let mut out: Vec<Subtable<R>> = Vec::new();
        if self.rules.len() > 0 {
            out.push(Subtable { rules: self.rules });
        }
        out
    }
}

} // verus!
