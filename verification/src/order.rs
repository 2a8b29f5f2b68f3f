//! A total order on key types, with an executable three-way comparison.
use vstd::prelude::*;

verus! {

/// A key type for the tree: a strict total order `less`, together with an
/// executable three-way comparison that decides it.
///
/// `less` must be a strict total order: asymmetric, transitive, and connected
/// (any two distinct keys are ordered one way or the other). Each implementor
/// proves these laws, and proves that `compare` answers according to `less`.
pub trait TotalOrder: Sized {
    /// The strict order on keys: `less(a, b)` means `a` sorts before `b`.
    spec fn less(self, other: Self) -> bool;

    /// No two keys sort before each other. With `a == b` this also gives
    /// irreflexivity: no key sorts before itself.
    proof fn lemma_less_asymmetric(a: Self, b: Self)
        requires
            Self::less(a, b),
        ensures
            !Self::less(b, a),
    ;

    /// The order composes.
    proof fn lemma_less_transitive(a: Self, b: Self, c: Self)
        requires
            Self::less(a, b),
            Self::less(b, c),
        ensures
            Self::less(a, c),
    ;

    /// Distinct keys are always ordered one way or the other.
    proof fn lemma_less_connected(a: Self, b: Self)
        requires
            a != b,
        ensures
            Self::less(a, b) || Self::less(b, a),
    ;

    /// Three-way comparison deciding `less`.
    fn compare(&self, other: &Self) -> (c: core::cmp::Ordering)
        ensures
            (match c {
                core::cmp::Ordering::Less => Self::less(*self, *other),
                core::cmp::Ordering::Equal => *self == *other,
                core::cmp::Ordering::Greater => Self::less(*other, *self),
            }),
    ;
}

impl TotalOrder for u64 {
    open spec fn less(self, other: Self) -> bool {
        self < other
    }

    proof fn lemma_less_asymmetric(a: Self, b: Self) {
    }

    proof fn lemma_less_transitive(a: Self, b: Self, c: Self) {
    }

    proof fn lemma_less_connected(a: Self, b: Self) {
    }

    fn compare(&self, other: &Self) -> (c: core::cmp::Ordering) {
        if *self < *other {
            core::cmp::Ordering::Less
        } else if *self == *other {
            core::cmp::Ordering::Equal
        } else {
            core::cmp::Ordering::Greater
        }
    }
}

impl TotalOrder for u32 {
    open spec fn less(self, other: Self) -> bool {
        self < other
    }

    proof fn lemma_less_asymmetric(a: Self, b: Self) {
    }

    proof fn lemma_less_transitive(a: Self, b: Self, c: Self) {
    }

    proof fn lemma_less_connected(a: Self, b: Self) {
    }

    fn compare(&self, other: &Self) -> (c: core::cmp::Ordering) {
        if *self < *other {
            core::cmp::Ordering::Less
        } else if *self == *other {
            core::cmp::Ordering::Equal
        } else {
            core::cmp::Ordering::Greater
        }
    }
}

} // verus!
