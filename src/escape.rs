//! The escape-time loop shared by every fractal variant.
//!
//! A variant supplies its recurrence (`step`) and its continuation test
//! (`keep_going`: still bounded for the quadratic maps, not yet near a root
//! for Newton's method); the loop counts how many steps are taken before
//! the test fails or the iteration cap is reached.

use vstd::prelude::*;

verus! {

/// `trace` is a run of the recurrence: each state but the last passed the
/// continuation test, and each state is the step of the one before it.
pub open spec fn is_run<S, C: Fn(S) -> bool, F: Fn(S) -> S>(
    keep_going: C,
    step: F,
    trace: Seq<S>,
) -> bool {
    forall|k: int|
        0 <= k < trace.len() - 1 ==> keep_going.ensures((#[trigger] trace[k],), true) && step.ensures(
            (trace[k],),
            trace[k + 1],
        )
}

/// Iterates `step` from `z0` while `keep_going` holds, at most
/// `max_iterations` times. Returns the number of steps taken and the final
/// state; fewer than `max_iterations` steps means the test failed there.
pub fn escape_time<S: Copy, C: Fn(S) -> bool, F: Fn(S) -> S>(
    z0: S,
    max_iterations: u32,
    keep_going: C,
    step: F,
) -> (r: (u32, S))
    requires
        forall|z: S| keep_going.requires((z,)),
        forall|z: S| step.requires((z,)),
    ensures
        r.0 <= max_iterations,
        exists|trace: Seq<S>|
            {
                &&& trace.len() == r.0 + 1
                &&& trace[0] == z0
                &&& trace.last() == r.1
                &&& is_run(keep_going, step, trace)
            },
        r.0 < max_iterations ==> keep_going.ensures((r.1,), false),
{
    let ghost start = z0;
    let mut z = z0;
    let mut i: u32 = 0;
    let ghost mut trace: Seq<S> = seq![start];
    loop
        invariant
            forall|w: S| keep_going.requires((w,)),
            forall|w: S| step.requires((w,)),
            i <= max_iterations,
            trace.len() == i + 1,
            trace[0] == start,
            trace.last() == z,
            is_run(keep_going, step, trace),
        ensures
            i <= max_iterations,
            trace.len() == i + 1,
            trace[0] == start,
            trace.last() == z,
            is_run(keep_going, step, trace),
            i < max_iterations ==> keep_going.ensures((z,), false),
        decreases max_iterations - i,
    {
        if i >= max_iterations {
            break;
        }
        let go = keep_going(z);
        if !go {
            break;
        }
        let ghost prev = z;
        z = step(z);
        i = i + 1;
        proof {
            let t = trace.push(z);
            assert forall|k: int| 0 <= k < t.len() - 1 implies keep_going.ensures((#[trigger] t[k],), true)
                && step.ensures((t[k],), t[k + 1]) by {
                if k < trace.len() - 1 {
                    assert(t[k] == trace[k] && t[k + 1] == trace[k + 1]);
                } else {
                    assert(t[k] == prev && t[k + 1] == z);
                }
            }
            trace = t;
        }
    }
    (i, z)
}

} // verus!
