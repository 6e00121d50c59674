use core::cmp::Ordering;
use vstd::prelude::*;
use vstd::std_specs::cmp::OrdSpec;
use vstd::std_specs::cmp::PartialEqSpec;

verus! {

/// An item paired with the score that orders it. Scored items compare by
/// score alone, so two entries with equal scores compare as equal whatever
/// their items hold.
pub struct ScoredItem<T, S: Ord> {
    pub score: S,
    pub item: T,
}

impl<T, S: Ord> PartialEq for ScoredItem<T, S> {
    fn eq(&self, other: &Self) -> (r: bool) {
        self.score == other.score
    }
}

impl<T, S: Ord> vstd::std_specs::cmp::PartialEqSpecImpl for ScoredItem<T, S> {
    open spec fn obeys_eq_spec() -> bool {
        S::obeys_eq_spec()
    }

    open spec fn eq_spec(&self, other: &Self) -> bool {
        self.score.eq_spec(&other.score)
    }
}

impl<T, S: Ord> Eq for ScoredItem<T, S> {}

impl<T, S: Ord> ScoredItem<T, S> {
    /// Three-way comparison by score alone.
    pub fn cmp(&self, other: &Self) -> (r: Ordering)
        ensures
            S::obeys_cmp_spec() ==> r == self.score.cmp_spec(&other.score),
    {
        self.score.cmp(&other.score)
    }
}

impl<T, S: Ord> PartialOrd for ScoredItem<T, S> {
    fn partial_cmp(&self, other: &Self) -> (r: Option<Ordering>) {
        Some(self.score.cmp(&other.score))
    }
}

impl<T, S: Ord> vstd::std_specs::cmp::PartialOrdSpecImpl for ScoredItem<T, S> {
    open spec fn obeys_partial_cmp_spec() -> bool {
        S::obeys_cmp_spec()
    }

    open spec fn partial_cmp_spec(&self, other: &Self) -> Option<Ordering> {
        Some(self.score.cmp_spec(&other.score))
    }
}

impl<T, S: Ord> From<(S, T)> for ScoredItem<T, S> {
    fn from(value: (S, T)) -> (r: Self) {
        ScoredItem { score: value.0, item: value.1 }
    }
}

impl<T, S: Ord> vstd::std_specs::convert::FromSpecImpl<(S, T)> for ScoredItem<T, S> {
    open spec fn obeys_from_spec() -> bool {
        true
    }

    open spec fn from_spec(value: (S, T)) -> Self {
        ScoredItem { score: value.0, item: value.1 }
    }
}

} // verus!
