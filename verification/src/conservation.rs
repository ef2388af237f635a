//! The decision rule of the energy-conservation check of a processing chain.
use vstd::prelude::*;

verus! {

/// Every entry holds.
pub open spec fn all_hold(checks: Seq<bool>) -> bool {
    forall|i: int| 0 <= i < checks.len() ==> checks[i]
}

/// A single failed check spoils the whole: a sequence of checks holds only
/// when no entry fails, and the empty sequence holds.
pub proof fn lemma_one_failure_spoils(checks: Seq<bool>, i: int)
    ensures
        0 <= i < checks.len() && !checks[i] ==> !all_hold(checks),
        checks.len() == 0 ==> all_hold(checks),
        all_hold(checks) <==> !(exists|k: int| 0 <= k < checks.len() && !checks[k]),
        all_hold(checks) && 0 <= i < checks.len() ==> checks[i],
{
}

/// Whether a chain of transformation steps conserves energy.
///
/// `step_balanced[i]` says that step `i` puts out, within tolerance, the
/// energy it takes in; `link_continuous[i]` says that step `i + 1` takes in,
/// within tolerance, what step `i` puts out. The chain conserves energy when
/// every step is balanced and every link continuous; an empty chain does.
pub fn chain_conserves_energy(step_balanced: &Vec<bool>, link_continuous: &Vec<bool>) -> (ok: bool)
    ensures
        ok == (all_hold(step_balanced@) && all_hold(link_continuous@)),
        ok <==> ((forall|i: int| 0 <= i < step_balanced.len() ==> step_balanced@[i]) && (forall|
            j: int,
        |
            0 <= j < link_continuous.len() ==> link_continuous@[j])),
        (exists|i: int| 0 <= i < step_balanced.len() && !step_balanced@[i]) ==> !ok,
        (exists|j: int| 0 <= j < link_continuous.len() && !link_continuous@[j]) ==> !ok,
        step_balanced.len() == 0 && link_continuous.len() == 0 ==> ok,
{
    let mut i: usize = 0;
    while i < step_balanced.len()
        invariant
            i <= step_balanced.len(),
            forall|j: int| 0 <= j < i ==> step_balanced@[j],
        decreases step_balanced.len() - i,
    {
        if !step_balanced[i] {
            return false;
        }
        i = i + 1;
    }
    let mut j: usize = 0;
    while j < link_continuous.len()
        invariant
            j <= link_continuous.len(),
            all_hold(step_balanced@),
            forall|k: int| 0 <= k < j ==> link_continuous@[k],
        decreases link_continuous.len() - j,
    {
        if !link_continuous[j] {
            return false;
        }
        j = j + 1;
    }
    true
}

} // verus!
