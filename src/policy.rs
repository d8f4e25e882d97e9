use vstd::prelude::*;

use crate::types::ActionType;

verus! {

/// Whether user `u` may count towards a request of `action` made by `requester`.
pub open spec fn eligible(action: ActionType, requester: u64, u: u64) -> bool {
    u != requester && action.eligible@.contains(u)
}

/// Number of distinct eligible approvers among `s`.
pub open spec fn tally(action: ActionType, requester: u64, s: Seq<u64>) -> nat
    decreases s.len(),
{
    if s.len() == 0 {
        0
    } else {
        let init = s.drop_last();
        let u = s.last();
        tally(action, requester, init) + if eligible(action, requester, u) && !init.contains(u) {
            1nat
        } else {
            0nat
        }
    }
}

/// Outcome of evaluating a request's approvals against its action's threshold.
#[derive(Clone, Copy, Debug, PartialEq, Eq, Structural)]
pub enum Decision {
    Satisfied,
    NotYet,
}

pub open spec fn satisfied(action: ActionType, requester: u64, s: Seq<u64>) -> bool {
    tally(action, requester, s) >= action.threshold
}

/// Whether `u` may count towards a request of `action` made by `requester`.
pub fn is_eligible(action: &ActionType, requester: u64, u: u64) -> (r: bool)
    ensures
        r == eligible(*action, requester, u),
{
    if u == requester {
        return false;
    }
    contains(&action.eligible, u)
}

pub fn contains(v: &Vec<u64>, x: u64) -> (r: bool)
    ensures
        r == v@.contains(x),
{
    let mut i: usize = 0;
    while i < v.len()
        invariant
            i <= v.len(),
            forall|j: int| 0 <= j < i ==> v@[j] != x,
        decreases v.len() - i,
    {
        if v[i] == x {
            return true;
        }
        i += 1;
    }
    false
}

/// Counts the distinct approvers in `approvers` that are eligible for `action`;
/// the requester never counts.
pub fn count_eligible(action: &ActionType, requester: u64, approvers: &Vec<u64>) -> (r: u64)
    ensures
        r as nat == tally(*action, requester, approvers@),
{
    let mut n: u64 = 0;
    let mut i: usize = 0;
    while i < approvers.len()
        invariant
            i <= approvers.len(),
            n as nat == tally(*action, requester, approvers@.subrange(0, i as int)),
            n <= i,
        decreases approvers.len() - i,
    {
        let u = approvers[i];
        let mut seen = false;
        let mut j: usize = 0;
        while j < i
            invariant
                j <= i < approvers.len(),
                seen == approvers@.subrange(0, j as int).contains(u),
            decreases i - j,
        {
            if approvers[j] == u {
                seen = true;
            }
            proof {
                let a = approvers@.subrange(0, j as int);
                let b = approvers@.subrange(0, j + 1);
                assert(b =~= a.push(approvers@[j as int]));
                assert(b.contains(u) == (a.contains(u) || approvers@[j as int] == u)) by {
                    if b.contains(u) {
                        let k = choose|k: int| 0 <= k < b.len() && b[k] == u;
                        if k < j {
                            assert(a[k] == u);
                        }
                    }
                    if a.contains(u) {
                        let k = choose|k: int| 0 <= k < a.len() && a[k] == u;
                        assert(b[k] == u);
                    }
                    if approvers@[j as int] == u {
                        assert(b[j as int] == u);
                    }
                }
            }
            j += 1;
        }
        let prefix = Ghost(approvers@.subrange(0, i as int));
        let next = Ghost(approvers@.subrange(0, i + 1));
        assert(next@.drop_last() =~= prefix@);
        assert(next@.last() == u);
        if !seen && is_eligible(action, requester, u) {
            n = n + 1;
        }
        i += 1;
    }
    assert(approvers@.subrange(0, approvers.len() as int) =~= approvers@);
    n
}

/// Decides whether the distinct eligible approvers reach the action's threshold.
pub fn evaluate(action: &ActionType, requester: u64, approvers: &Vec<u64>) -> (r: Decision)
    ensures
        (r == Decision::Satisfied) == satisfied(*action, requester, approvers@),
{
    if count_eligible(action, requester, approvers) >= action.threshold {
        Decision::Satisfied
    } else {
        Decision::NotYet
    }
}

} // verus!
