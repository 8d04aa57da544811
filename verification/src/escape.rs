//! Escape time: how many tests a point passes before its orbit is found to
//! have left the escape radius.
//!
//! The iteration is written over any kind of state. The caller supplies the
//! test for having escaped and the step from one state to the next, so the
//! arithmetic of the plane stays with the caller; what is fixed here is the
//! order of tests and steps and the count that is returned.

use vstd::prelude::*;

verus! {

/// `orbit` is a run of the iteration: it begins at `start`, and each state
/// is one that `step` may make of the state before it.
pub open spec fn is_orbit<Z, T>(orbit: Seq<Z>, start: Z, step: &T) -> bool
    where T: Fn(Z) -> Z
{
    &&& orbit.len() >= 1
    &&& orbit[0] == start
    &&& forall|k: int|
        #![trigger orbit[k]]
        0 <= k < orbit.len() - 1 ==> call_ensures(*step, (orbit[k],), orbit[k + 1])
}

/// `found` is the escape time along `orbit`: the number of the first state
/// that was tested and found escaped, all states before it having been tested
/// and found inside; or nothing, where `limit` states were tested and all found
/// inside.
pub open spec fn escape_time_along<Z, P>(
    orbit: Seq<Z>,
    limit: usize,
    escaped: &P,
    found: Option<usize>,
) -> bool
    where P: Fn(&Z) -> bool
{
    match found {
        Some(n) => {
            &&& n < limit
            &&& orbit.len() == n + 1
            &&& call_ensures(*escaped, (&orbit[n as int],), true)
            &&& forall|k: int|
                #![trigger orbit[k]]
                0 <= k < n ==> call_ensures(*escaped, (&orbit[k],), false)
        },
        None => {
            &&& orbit.len() == limit + 1
            &&& forall|k: int|
                #![trigger orbit[k]]
                0 <= k < limit ==> call_ensures(*escaped, (&orbit[k],), false)
        },
    }
}

/// Iterates from `start`, at most `limit` times: tests the state, and where it
/// has escaped returns the number of tests passed before it (so a `start` that
/// has escaped already gives zero); else steps on. Returns nothing where no
/// tested state had escaped.
pub fn escape_time<Z, P, T>(start: Z, limit: usize, escaped: &P, step: &T) -> (found: Option<
    usize,
>)
    where P: Fn(&Z) -> bool, T: Fn(Z) -> Z
    requires
        limit > 0,
        forall|z: Z| #[trigger] call_requires(*escaped, (&z,)),
        forall|z: Z| #[trigger] call_requires(*step, (z,)),
    ensures
        exists|orbit: Seq<Z>|
            is_orbit(orbit, start, step) && #[trigger] escape_time_along(
                orbit,
                limit,
                escaped,
                found,
            ),
{
    let ghost mut orbit: Seq<Z> = seq![start];
    let mut z = start;
    let mut i: usize = 0;
    while i < limit
        invariant
            i <= limit,
            orbit.len() == i + 1,
            orbit[i as int] == z,
            is_orbit(orbit, start, step),
            forall|k: int|
                #![trigger orbit[k]]
                0 <= k < i ==> call_ensures(*escaped, (&orbit[k],), false),
            forall|z: Z| #[trigger] call_requires(*escaped, (&z,)),
            forall|z: Z| #[trigger] call_requires(*step, (z,)),
        decreases limit - i,
    {
        if escaped(&z) {
            proof {
                assert(escape_time_along(orbit, limit, escaped, Some(i)));
            }
            return Some(i);
        }
        z = step(z);
        proof {
            let longer = orbit.push(z);
            assert forall|k: int|
                #![trigger longer[k]]
                0 <= k < longer.len() - 1 implies call_ensures(*step, (longer[k],), longer[k + 1]) by {
                if k < orbit.len() - 1 {
                    assert(longer[k] == orbit[k]);
                    assert(longer[k + 1] == orbit[k + 1]);
                }
            }
            assert forall|k: int|
                #![trigger longer[k]]
                0 <= k < i + 1 implies call_ensures(*escaped, (&longer[k],), false) by {
                assert(longer[k] == orbit[k]);
            }
            orbit = longer;
        }
        i += 1;
    }
    proof {
        assert(escape_time_along(orbit, limit, escaped, None::<usize>));
    }
    None
}

/// Every state of an orbit is its start, where `step` leaves the start where
/// it is.
proof fn lemma_orbit_rests<Z, T>(orbit: Seq<Z>, start: Z, step: &T, at: int)
    where T: Fn(Z) -> Z
    requires
        is_orbit(orbit, start, step),
        forall|next: Z| #[trigger] call_ensures(*step, (start,), next) ==> next == start,
        0 <= at < orbit.len(),
    ensures
        orbit[at] == start,
    decreases at,
{
    if at > 0 {
        lemma_orbit_rests(orbit, start, step, at - 1);
        assert(call_ensures(*step, (orbit[at - 1],), orbit[at - 1 + 1]));
    }
}

/// A start that the step leaves where it is, and that has not escaped, never
/// escapes, whatever the limit.
pub proof fn lemma_resting_start_never_escapes<Z, P, T>(
    orbit: Seq<Z>,
    start: Z,
    limit: usize,
    escaped: &P,
    step: &T,
    found: Option<usize>,
)
    where P: Fn(&Z) -> bool, T: Fn(Z) -> Z
    requires
        is_orbit(orbit, start, step),
        escape_time_along(orbit, limit, escaped, found),
        forall|next: Z| #[trigger] call_ensures(*step, (start,), next) ==> next == start,
        forall|out: bool| #[trigger] call_ensures(*escaped, (&start,), out) ==> !out,
    ensures
        found is None,
{
    if let Some(n) = found {
        lemma_orbit_rests(orbit, start, step, n as int);
    }
}

/// Where the start has not escaped and every state one step from it has, the
/// escape time is one, for every limit of two or more.
pub proof fn lemma_escape_at_first_step<Z, P, T>(
    orbit: Seq<Z>,
    start: Z,
    limit: usize,
    escaped: &P,
    step: &T,
    found: Option<usize>,
)
    where P: Fn(&Z) -> bool, T: Fn(Z) -> Z
    requires
        limit >= 2,
        is_orbit(orbit, start, step),
        escape_time_along(orbit, limit, escaped, found),
        forall|out: bool| #[trigger] call_ensures(*escaped, (&start,), out) ==> !out,
        forall|next: Z, out: bool|
            #[trigger] call_ensures(*step, (start,), next) && #[trigger] call_ensures(
                *escaped,
                (&next,),
                out,
            ) ==> out,
    ensures
        found == Some(1usize),
{
    match found {
        Some(n) => {
            if n >= 2 {
                assert(call_ensures(*step, (orbit[0],), orbit[0int + 1]));
                assert(call_ensures(*escaped, (&orbit[1],), false));
            }
        },
        None => {
            assert(call_ensures(*step, (orbit[0],), orbit[0int + 1]));
            assert(call_ensures(*escaped, (&orbit[1],), false));
        },
    }
}

} // verus!
