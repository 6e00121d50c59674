use core::cmp::Ordering;
use vstd::laws_cmp::obeys_cmp;
use vstd::laws_cmp::obeys_cmp_ord;
use vstd::laws_cmp::obeys_cmp_partial_ord;
use vstd::laws_cmp::obeys_partial_cmp_spec_properties;
use vstd::laws_eq::obeys_eq_spec_properties;
use vstd::prelude::*;
use vstd::std_specs::cmp::OrdSpec;
use vstd::std_specs::cmp::PartialEqSpec;
use vstd::std_specs::cmp::PartialOrdSpec;

verus! {

/// `a` ranks no higher than `b` under the comparison that `S`'s `Ord`
/// implementation describes through `cmp_spec`.
pub open spec fn score_le<S: Ord>(a: S, b: S) -> bool {
    a.cmp_spec(&b) != Ordering::Greater
}

/// A lawful `Ord` implementation (vstd's `obeys_cmp`) ties the executable
/// comparison to `cmp_spec`.
pub proof fn lemma_obeys_cmp_spec_visible<S: Ord>()
    requires
        obeys_cmp::<S>(),
    ensures
        S::obeys_cmp_spec(),
        S::obeys_partial_cmp_spec(),
        forall|a: S, b: S| #[trigger] a.partial_cmp_spec(&b) == Some(a.cmp_spec(&b)),
{
    reveal(obeys_cmp_ord);
    reveal(obeys_cmp_partial_ord);
}

/// Under a lawful `Ord`, every score ranks no higher than itself.
pub proof fn lemma_score_le_refl<S: Ord>(a: S)
    requires
        obeys_cmp::<S>(),
    ensures
        score_le(a, a),
{
    reveal(obeys_cmp_ord);
    reveal(obeys_partial_cmp_spec_properties);
    if a.cmp_spec(&a) == Ordering::Greater {
        assert(a.partial_cmp_spec(&a) == Some(Ordering::Greater));
        assert(a.partial_cmp_spec(&a) == Some(Ordering::Less));
    }
}

/// Under a lawful `Ord`, any two scores are comparable: one of them ranks
/// no higher than the other.
pub proof fn lemma_score_le_total<S: Ord>(a: S, b: S)
    requires
        obeys_cmp::<S>(),
    ensures
        score_le(a, b) || score_le(b, a),
{
    reveal(obeys_cmp_ord);
    reveal(obeys_partial_cmp_spec_properties);
    if a.cmp_spec(&b) == Ordering::Greater {
        assert(a.partial_cmp_spec(&b) == Some(Ordering::Greater));
        assert(b.partial_cmp_spec(&a) == Some(Ordering::Less));
        assert(b.cmp_spec(&a) == Ordering::Less);
    }
}

/// Under a lawful `Ord`, `score_le` is transitive.
pub proof fn lemma_score_le_trans<S: Ord>(a: S, b: S, c: S)
    requires
        obeys_cmp::<S>(),
        score_le(a, b),
        score_le(b, c),
    ensures
        score_le(a, c),
{
    reveal(obeys_cmp_ord);
    reveal(obeys_cmp_partial_ord);
    reveal(obeys_partial_cmp_spec_properties);
    reveal(obeys_eq_spec_properties);
    assert(a.partial_cmp_spec(&b) == Some(a.cmp_spec(&b)));
    assert(b.partial_cmp_spec(&c) == Some(b.cmp_spec(&c)));
    assert(a.partial_cmp_spec(&c) == Some(a.cmp_spec(&c)));
    if a.cmp_spec(&c) == Ordering::Greater {
        // Flip the supposed strict drop from `a` to `c`.
        assert(c.partial_cmp_spec(&a) == Some(Ordering::Less));
        if a.cmp_spec(&b) == Ordering::Less {
            if b.cmp_spec(&c) == Ordering::Less {
                // c < a < b contradicts b < c.
                assert(c.partial_cmp_spec(&b) == Some(Ordering::Less));
                assert(b.partial_cmp_spec(&c) == Some(Ordering::Greater));
            } else {
                // b and c are equal, so c < a contradicts a < b.
                assert(b.eq_spec(&c));
                assert(c.eq_spec(&b));
                assert(c.partial_cmp_spec(&a) == Some(Ordering::Less));
                assert(a.partial_cmp_spec(&b) == Some(Ordering::Less));
                assert(c.partial_cmp_spec(&b) == Some(Ordering::Less));
                assert(c.partial_cmp_spec(&b) == Some(Ordering::Equal));
            }
        } else {
            assert(a.eq_spec(&b));
            if b.cmp_spec(&c) == Ordering::Less {
                // b < c < a contradicts a and b being equal.
                assert(b.partial_cmp_spec(&a) == Some(Ordering::Less));
                assert(b.eq_spec(&a));
                assert(b.partial_cmp_spec(&a) == Some(Ordering::Equal));
            } else {
                // Equality is transitive, contradicting a > c.
                assert(b.eq_spec(&c));
                assert(a.eq_spec(&c));
                assert(a.partial_cmp_spec(&c) == Some(Ordering::Equal));
            }
        }
    }
}

} // verus!
