//! Branch rules of the Fisher-metric computations: which terms of a KL
//! divergence vanish or diverge, and which components of a gradient carry
//! Fisher information.
//!
//! Values are handed in as order keys (see `float_order`).
use vstd::prelude::*;
use crate::float_order::key_gt;

verus! {

/// How a term `p_i * ln(p_i / q_i)` of a KL divergence is evaluated.
#[derive(PartialEq, Eq, Structural, Debug, Clone, Copy)]
pub enum KlTerm {
    /// `p_i` is below the floor: the term is zero.
    Negligible,
    /// `p_i` is not below the floor but `q_i` is: the term is infinite.
    Divergent,
    /// Otherwise the term is `p_i * ln(p_i / q_i)`.
    Finite,
}

/// The kind of the term for `p`, `q` against `floor`: `p < floor` first,
/// then `q < floor`, each false when a NaN is involved.
pub open spec fn spec_kl_term(p: Option<i64>, q: Option<i64>, floor: Option<i64>) -> KlTerm {
    if key_gt(floor, p) {
        KlTerm::Negligible
    } else if key_gt(floor, q) {
        KlTerm::Divergent
    } else {
        KlTerm::Finite
    }
}

/// `x < floor`, false when either stands for a NaN.
fn below_floor(x: Option<i64>, floor: Option<i64>) -> (r: bool)
    ensures
        r == key_gt(floor, x),
{
    match (floor, x) {
        (Some(f), Some(v)) => f > v,
        _ => false,
    }
}

/// The kind of each term of `D_KL(p || q)`, pairing `p` and `q` index by
/// index up to the shorter of the two.
pub fn kl_term_kinds(p: &Vec<Option<i64>>, q: &Vec<Option<i64>>, floor: Option<i64>) -> (kinds:
    Vec<KlTerm>)
    ensures
        kinds.len() == if p.len() <= q.len() {
            p.len()
        } else {
            q.len()
        },
        forall|i: int| 0 <= i < kinds.len() ==> kinds@[i] == spec_kl_term(p@[i], q@[i], floor),
        forall|i: int|
            #![trigger kinds@[i]]
            0 <= i < kinds.len() ==> {
                let p_small = p@[i] is Some && floor is Some && p@[i]->0 < floor->0;
                let q_small = q@[i] is Some && floor is Some && q@[i]->0 < floor->0;
                &&& (p_small ==> kinds@[i] == KlTerm::Negligible)
                &&& (!p_small && q_small ==> kinds@[i] == KlTerm::Divergent)
                &&& (!p_small && !q_small ==> kinds@[i] == KlTerm::Finite)
            },
{
    let len = if p.len() <= q.len() {
        p.len()
    } else {
        q.len()
    };
    let mut kinds: Vec<KlTerm> = Vec::with_capacity(len);
    for i in 0..len
        invariant
            len <= p.len(),
            len <= q.len(),
            kinds.len() == i,
            forall|j: int| 0 <= j < i ==> kinds@[j] == spec_kl_term(p@[j], q@[j], floor),
    {
        let kind = if below_floor(p[i], floor) {
            KlTerm::Negligible
        } else if below_floor(q[i], floor) {
            KlTerm::Divergent
        } else {
            KlTerm::Finite
        };
        kinds.push(kind);
    }
    kinds
}

/// `|x| > floor` between keys, false when either stands for a NaN.
pub open spec fn abs_exceeds(x: Option<i64>, floor: Option<i64>) -> bool {
    match (x, floor) {
        (Some(v), Some(f)) => (if v < 0 {
            -v
        } else {
            v as int
        }) > f,
        _ => false,
    }
}

/// The term for `p` below the floor vanishes whatever `q` is; otherwise a
/// `q` below the floor makes it diverge; a NaN on either side is below
/// nothing.
pub proof fn lemma_kl_term_cases(p: Option<i64>, q: Option<i64>, floor: Option<i64>)
    ensures
        p is Some && floor is Some && p->0 < floor->0 ==> spec_kl_term(p, q, floor)
            == KlTerm::Negligible,
        !(p is Some && floor is Some && p->0 < floor->0) && (q is Some && floor is Some && q->0
            < floor->0) ==> spec_kl_term(p, q, floor) == KlTerm::Divergent,
        !(p is Some && floor is Some && p->0 < floor->0) && !(q is Some && floor is Some && q->0
            < floor->0) ==> spec_kl_term(p, q, floor) == KlTerm::Finite,
        p == q && p is Some && floor is Some && p->0 < floor->0 ==> spec_kl_term(p, q, floor)
            == KlTerm::Negligible,
{
}

/// A value whose magnitude exceeds the floor carries information, whichever
/// its sign; a larger magnitude never loses it; a NaN (or a NaN floor)
/// carries none.
pub proof fn lemma_information_by_magnitude(v: i64, w: i64, floor: Option<i64>)
    ensures
        floor matches Some(f) && v > f ==> abs_exceeds(Some(v), floor),
        floor matches Some(f) && -v > f ==> abs_exceeds(Some(v), floor),
        floor matches Some(f) && f >= 0 && v <= f && -v <= f ==> !abs_exceeds(Some(v), floor),
        abs_exceeds(Some(v), floor) && (w >= v >= 0 || w <= v <= 0 || (v >= 0 && -w >= v) || (v
            <= 0 && w >= -v)) ==> abs_exceeds(Some(w), floor),
        !abs_exceeds(None, floor),
        !abs_exceeds(Some(v), None),
{
}

/// Which components of a diagonal Fisher matrix carry information:
/// `|f_i| > floor`. Where one does not (a NaN included), the natural gradient
/// falls back to the Euclidean gradient.
pub fn informative_components(fisher: &Vec<Option<i64>>, floor: Option<i64>) -> (informative:
    Vec<bool>)
    ensures
        informative.len() == fisher.len(),
        forall|i: int| 0 <= i < fisher.len() ==> informative@[i] == abs_exceeds(fisher@[i], floor),
        forall|i: int|
            #![trigger informative@[i]]
            0 <= i < fisher.len() ==> (informative@[i] <==> (fisher@[i] is Some && floor is Some && (
            fisher@[i]->0 > floor->0 || -fisher@[i]->0 > floor->0))),
{
    let n = fisher.len();
    let mut informative: Vec<bool> = Vec::with_capacity(n);
    for i in 0..n
        invariant
            n == fisher.len(),
            informative.len() == i,
            forall|j: int| 0 <= j < i ==> informative@[j] == abs_exceeds(fisher@[j], floor),
    {
        let carries = match (fisher[i], floor) {
            (Some(v), Some(f)) => if v >= 0 {
                v > f
            } else if f < 0 {
                true
            } else {
                v < -f
            },
            _ => false,
        };
        informative.push(carries);
    }
    informative
}

} // verus!
