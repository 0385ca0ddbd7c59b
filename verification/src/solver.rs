//! A sound and complete solver for a set of cell constraints: backtracking
//! search over one boolean per cell, proved to return a satisfying
//! assignment exactly when one exists.

use vstd::prelude::*;

use crate::constraint::{
    constraint_wf, count_true_at, extends_seq, lemma_sat_constraint_prefix, sat_all,
    sat_constraint, wf_all, Constraint,
};

verus! {

/// The definitive failure signal: no assignment satisfies the constraint
/// set.  Not an error to retry — a single solve attempt is conclusive.
#[derive(Clone, Copy, PartialEq, Eq, Structural, Debug)]
pub struct Unsatisfiable;

/// Decides whether `a` satisfies the single constraint `c`.
fn eval_constraint(c: &Constraint, a: &Vec<bool>) -> (r: bool)
    requires
        constraint_wf(*c, a@.len() as int),
    ensures
        r == sat_constraint(*c, a@),
{
    match c {
        Constraint::Fixed(p, v) => a[*p] == *v,
        Constraint::NoTripleRun(x, y, z) => {
            let b1 = a[*x];
            let b2 = a[*y];
            let b3 = a[*z];
            !(b1 && b2 && b3) && (b1 || b2 || b3)
        },
        Constraint::ExactCount(cells, t) => {
            let m = cells.len();
            let mut cnt: usize = 0;
            let mut k: usize = 0;
            while k < m
                invariant
                    m == cells@.len(),
                    forall|kk: int| 0 <= kk < cells@.len() ==> #[trigger] cells@[kk] < a@.len(),
                    0 <= k <= m,
                    cnt <= k,
                    cnt == count_true_at(a@, cells@.subrange(0, k as int)),
                decreases m - k,
            {
                proof {
                    assert(cells@.subrange(0, k + 1).drop_last() =~= cells@.subrange(0, k as int));
                }
                if a[cells[k]] {
                    cnt = cnt + 1;
                }
                k = k + 1;
            }
            proof {
                assert(cells@.subrange(0, m as int) =~= cells@);
            }
            cnt == *t
        },
    }
}

/// Decides whether the first `m` cells suffice to evaluate `c`.
fn constraint_decided(c: &Constraint, m: usize) -> (r: bool)
    ensures
        r == constraint_wf(*c, m as int),
{
    match c {
        Constraint::Fixed(p, _v) => *p < m,
        Constraint::NoTripleRun(x, y, z) => *x < m && *y < m && *z < m,
        Constraint::ExactCount(cells, _t) => {
            let len = cells.len();
            let mut ok = true;
            let mut k: usize = 0;
            while k < len
                invariant
                    len == cells@.len(),
                    0 <= k <= len,
                    ok == (forall|kk: int|
                        #![trigger cells@[kk]]
                        0 <= kk < k ==> cells@[kk] < m),
                decreases len - k,
            {
                if cells[k] >= m {
                    ok = false;
                }
                k = k + 1;
            }
            ok
        },
    }
}

/// Checks the partial assignment `prefix` against every constraint it
/// already decides; a violation found here is final for every completion.
fn no_decided_violation(cs: &Vec<Constraint>, prefix: &Vec<bool>) -> (ok: bool)
    ensures
        !ok ==> exists|k: int|
            0 <= k < cs@.len() && constraint_wf(#[trigger] cs@[k], prefix@.len() as int)
                && !sat_constraint(cs@[k], prefix@),
{
    let m = cs.len();
    let mut k: usize = 0;
    while k < m
        invariant
            m == cs@.len(),
            0 <= k <= m,
        decreases m - k,
    {
        let c = &cs[k];
        if constraint_decided(c, prefix.len()) {
            if !eval_constraint(c, prefix) {
                return false;
            }
        }
        k = k + 1;
    }
    true
}

/// Decides whether `a` satisfies every constraint of `cs`.
fn check_all(cs: &Vec<Constraint>, a: &Vec<bool>) -> (r: bool)
    requires
        wf_all(cs@, a@.len() as int),
    ensures
        r == sat_all(cs@, a@),
{
    let m = cs.len();
    let mut k: usize = 0;
    while k < m
        invariant
            m == cs@.len(),
            wf_all(cs@, a@.len() as int),
            0 <= k <= m,
            forall|kk: int| 0 <= kk < k ==> sat_constraint(#[trigger] cs@[kk], a@),
        decreases m - k,
    {
        if !eval_constraint(&cs[k], a) {
            return false;
        }
        k = k + 1;
    }
    true
}

/// Backtracking search: tries every completion of `prefix` to a total
/// assignment of `n` booleans.  Finds one that satisfies `cs`, or proves
/// that no completion does and leaves `prefix` as it was.
fn search(n: usize, cs: &Vec<Constraint>, prefix: &mut Vec<bool>) -> (found: bool)
    requires
        wf_all(cs@, n as int),
        old(prefix)@.len() <= n,
    ensures
        found ==> final(prefix)@.len() == n && extends_seq(final(prefix)@, old(prefix)@)
            && sat_all(cs@, final(prefix)@),
        !found ==> final(prefix)@ == old(prefix)@ && (forall|b: Seq<bool>|
            b.len() == n && extends_seq(b, old(prefix)@) ==> !sat_all(cs@, b)),
    decreases n - old(prefix)@.len(),
{
    let ghost p0 = prefix@;
    let len = prefix.len();
    if len == n {
        let ok = check_all(cs, prefix);
        if ok {
            return true;
        } else {
            proof {
                assert forall|b: Seq<bool>| b.len() == n && extends_seq(b, p0) implies !sat_all(
                    cs@,
                    b,
                ) by {
                    assert(b =~= p0);
                }
            }
            return false;
        }
    }
    if !no_decided_violation(cs, prefix) {
        proof {
            let k = choose|k: int|
                0 <= k < cs@.len() && constraint_wf(cs@[k], prefix@.len() as int)
                    && !sat_constraint(cs@[k], prefix@);
            assert forall|b: Seq<bool>| b.len() == n && extends_seq(b, p0) implies !sat_all(
                cs@,
                b,
            ) by {
                lemma_sat_constraint_prefix(cs@[k], p0, b);
                assert(!sat_constraint(cs@[k], b));
            }
        }
        return false;
    }
    prefix.push(false);
    if search(n, cs, prefix) {
        proof {
            assert forall|k: int| 0 <= k < p0.len() implies prefix@[k] == p0[k] by {
                assert(prefix@[k] == p0.push(false)[k]);
            }
        }
        return true;
    }
    let _dropped = prefix.pop();
    proof {
        assert(prefix@ =~= p0);
    }
    prefix.push(true);
    if search(n, cs, prefix) {
        proof {
            assert forall|k: int| 0 <= k < p0.len() implies prefix@[k] == p0[k] by {
                assert(prefix@[k] == p0.push(true)[k]);
            }
        }
        return true;
    }
    let _dropped = prefix.pop();
    proof {
        assert(prefix@ =~= p0);
        assert forall|b: Seq<bool>| b.len() == n && extends_seq(b, p0) implies !sat_all(
            cs@,
            b,
        ) by {
            let v = b[p0.len() as int];
            assert forall|k: int| 0 <= k < p0.push(v).len() implies b[k] == p0.push(v)[k] by {
                if k < p0.len() {
                    assert(b[k] == p0[k]);
                } else {
                    assert(p0.push(v)[k] == v);
                }
            }
            assert(extends_seq(b, p0.push(v)));
            if v {
                assert(extends_seq(b, p0.push(true)));
            } else {
                assert(extends_seq(b, p0.push(false)));
            }
        }
    }
    false
}

/// Finds an assignment of `n` booleans satisfying every constraint of
/// `cs`, or reports that none exists.  Sound: a returned assignment is
/// total and satisfies the whole set.  Complete: `Unsatisfiable` comes
/// back only when no total assignment satisfies the set.
pub fn solve(n: usize, cs: &Vec<Constraint>) -> (r: Result<Vec<bool>, Unsatisfiable>)
    requires
        wf_all(cs@, n as int),
    ensures
        r matches Ok(a) ==> a@.len() == n && sat_all(cs@, a@),
        r is Err ==> forall|b: Seq<bool>| b.len() == n ==> !sat_all(cs@, b),
{
    let mut prefix: Vec<bool> = Vec::new();
    let found = search(n, cs, &mut prefix);
    if found {
        Ok(prefix)
    } else {
        proof {
            assert forall|b: Seq<bool>| b.len() == n implies !sat_all(cs@, b) by {
                assert(extends_seq(b, Seq::<bool>::empty()));
            }
        }
        Err(Unsatisfiable)
    }
}

} // verus!
