//! Newton-Raphson root search with a bounded number of steps.
//!
//! The search works on numbers of any kind: their arithmetic is the
//! caller's, handed in as two functions. What is fixed here is the course of
//! the search: what is tested in which order, when the search has found its
//! root, and when it gives up.

use vstd::prelude::*;

verus! {

/// The number of steps after which a search that has not converged gives up.
pub const MAX_ITERATIONS: u32 = 100;

/// A root search took `MAX_ITERATIONS` steps without converging.
#[derive(Clone, Copy, Debug, PartialEq, Eq, Structural, Hash)]
pub struct MaxIterationsExceeded;

/// A search that stands at the estimate `x` after `steps` steps may end
/// with `result`.
///
/// It evaluates the function at `x`. If the value is within the tolerance,
/// `x` is the result. Otherwise it takes a step; if the new estimate is
/// within the tolerance of `x`, the new estimate is the result. Otherwise
/// the step is counted: at `MAX_ITERATIONS` the search fails, below it the
/// search goes on from the new estimate.
pub open spec fn search_ends<N, E: Fn(&N) -> (N, bool), A: Fn(N, N) -> (N, bool)>(
    evaluate: &E,
    advance: &A,
    steps: u32,
    x: N,
    result: Result<N, MaxIterationsExceeded>,
) -> bool
    decreases MAX_ITERATIONS - steps,
{
    exists|fx: N, found: bool| #[trigger]
        call_ensures(*evaluate, (&x,), (fx, found)) && if found {
            result == Ok::<N, MaxIterationsExceeded>(x)
        } else {
            step_ends(evaluate, advance, steps, x, fx, result)
        }
}

/// A search that found the value `fx` at the estimate `x`, not within the
/// tolerance, after `steps` steps may end with `result`.
pub open spec fn step_ends<N, E: Fn(&N) -> (N, bool), A: Fn(N, N) -> (N, bool)>(
    evaluate: &E,
    advance: &A,
    steps: u32,
    x: N,
    fx: N,
    result: Result<N, MaxIterationsExceeded>,
) -> bool
    decreases MAX_ITERATIONS - steps, 0int,
{
    exists|next: N, settled: bool| #[trigger]
        call_ensures(*advance, (x, fx), (next, settled)) && if settled {
            result == Ok::<N, MaxIterationsExceeded>(next)
        } else if steps + 1 >= MAX_ITERATIONS {
            result == Err::<N, MaxIterationsExceeded>(MaxIterationsExceeded)
        } else {
            search_ends(evaluate, advance, (steps + 1) as u32, next, result)
        }
}

/// `evaluate` and `advance` can be called wherever a search that stands at
/// the estimate `x` after `steps` steps calls them.
pub open spec fn search_runs<N, E: Fn(&N) -> (N, bool), A: Fn(N, N) -> (N, bool)>(
    evaluate: &E,
    advance: &A,
    steps: u32,
    x: N,
) -> bool
    decreases MAX_ITERATIONS - steps,
{
    call_requires(*evaluate, (&x,)) && forall|fx: N, found: bool|
        #![trigger call_ensures(*evaluate, (&x,), (fx, found))]
        call_ensures(*evaluate, (&x,), (fx, found)) && !found ==> step_runs(
            evaluate,
            advance,
            steps,
            x,
            fx,
        )
}

/// `evaluate` and `advance` can be called wherever a search calls them that
/// found the value `fx` at the estimate `x`, not within the tolerance, after
/// `steps` steps.
pub open spec fn step_runs<N, E: Fn(&N) -> (N, bool), A: Fn(N, N) -> (N, bool)>(
    evaluate: &E,
    advance: &A,
    steps: u32,
    x: N,
    fx: N,
) -> bool
    decreases MAX_ITERATIONS - steps, 0int,
{
    call_requires(*advance, (x, fx)) && forall|next: N, settled: bool|
        #![trigger call_ensures(*advance, (x, fx), (next, settled))]
        call_ensures(*advance, (x, fx), (next, settled)) && !settled && steps + 1
            < MAX_ITERATIONS ==> search_runs(evaluate, advance, (steps + 1) as u32, next)
}

/// Searches for a root of a function by Newton's method, from the estimate
/// `guess`.
///
/// The arithmetic is the caller's: `evaluate` gives the value of the function
/// at an estimate and says whether that value is within the tolerance of
/// zero; `advance` takes an estimate and the value there, gives the estimate
/// that a Newton step leads to and says whether the two estimates are within
/// the tolerance of each other. The search returns the first estimate at
/// which one of them says yes. It gives up with `MaxIterationsExceeded`
/// after `MAX_ITERATIONS` steps, so it always ends.
pub fn newtons_method<N, E: Fn(&N) -> (N, bool), A: Fn(N, N) -> (N, bool)>(
    evaluate: &E,
    advance: &A,
    guess: N,
) -> (result: Result<N, MaxIterationsExceeded>)
    requires
        search_runs(evaluate, advance, 0, guess),
    ensures
        search_ends(evaluate, advance, 0, guess, result),
{
    let mut x = guess;
    let mut steps: u32 = 0;
    loop
        invariant
            steps < MAX_ITERATIONS,
            search_runs(evaluate, advance, steps, x),
            forall|r: Result<N, MaxIterationsExceeded>| #[trigger]
                search_ends(evaluate, advance, steps, x, r) ==> search_ends(
                    evaluate,
                    advance,
                    0,
                    guess,
                    r,
                ),
        decreases MAX_ITERATIONS - steps,
    {
        let ghost here = x;
        let (fx, found) = evaluate(&x);
        if found {
            assert(search_ends(evaluate, advance, steps, here, Ok(x)));
            return Ok(x);
        }
        let ghost value = fx;
        let (next, settled) = advance(x, fx);
        if settled {
            assert(step_ends(evaluate, advance, steps, here, value, Ok(next)));
            assert(search_ends(evaluate, advance, steps, here, Ok(next)));
            return Ok(next);
        }
        if steps + 1 >= MAX_ITERATIONS {
            assert(step_ends(evaluate, advance, steps, here, value, Err(MaxIterationsExceeded)));
            assert(search_ends(evaluate, advance, steps, here, Err(MaxIterationsExceeded)));
            return Err(MaxIterationsExceeded);
        }
        assert forall|r: Result<N, MaxIterationsExceeded>| #[trigger]
            search_ends(evaluate, advance, (steps + 1) as u32, next, r) implies search_ends(
            evaluate,
            advance,
            0,
            guess,
            r,
        ) by {
            assert(step_ends(evaluate, advance, steps, here, value, r));
            assert(search_ends(evaluate, advance, steps, here, r));
        }
        x = next;
        steps = steps + 1;
    }
}

/// A search whose first estimate is already within the tolerance returns
/// that estimate, and nothing else.
pub proof fn lemma_root_at_guess<N, E: Fn(&N) -> (N, bool), A: Fn(N, N) -> (N, bool)>(
    evaluate: &E,
    advance: &A,
    guess: N,
    result: Result<N, MaxIterationsExceeded>,
)
    requires
        search_ends(evaluate, advance, 0, guess, result),
        forall|fx: N, found: bool| call_ensures(*evaluate, (&guess,), (fx, found)) ==> found,
    ensures
        result == Ok::<N, MaxIterationsExceeded>(guess),
{
}

/// A search in which nothing ever comes within the tolerance fails with
/// `MaxIterationsExceeded`.
pub proof fn lemma_no_root<N, E: Fn(&N) -> (N, bool), A: Fn(N, N) -> (N, bool)>(
    evaluate: &E,
    advance: &A,
    steps: u32,
    x: N,
    result: Result<N, MaxIterationsExceeded>,
)
    requires
        steps < MAX_ITERATIONS,
        search_ends(evaluate, advance, steps, x, result),
        forall|x: &N, fx: N, found: bool| call_ensures(*evaluate, (x,), (fx, found)) ==> !found,
        forall|x: N, fx: N, next: N, settled: bool|
            call_ensures(*advance, (x, fx), (next, settled)) ==> !settled,
    ensures
        result == Err::<N, MaxIterationsExceeded>(MaxIterationsExceeded),
    decreases MAX_ITERATIONS - steps,
{
    let (fx, found) = choose|fx: N, found: bool| #[trigger]
        call_ensures(*evaluate, (&x,), (fx, found)) && if found {
            result == Ok::<N, MaxIterationsExceeded>(x)
        } else {
            step_ends(evaluate, advance, steps, x, fx, result)
        };
    let (next, settled) = choose|next: N, settled: bool| #[trigger]
        call_ensures(*advance, (x, fx), (next, settled)) && if settled {
            result == Ok::<N, MaxIterationsExceeded>(next)
        } else if steps + 1 >= MAX_ITERATIONS {
            result == Err::<N, MaxIterationsExceeded>(MaxIterationsExceeded)
        } else {
            search_ends(evaluate, advance, (steps + 1) as u32, next, result)
        };
    if steps + 1 < MAX_ITERATIONS {
        lemma_no_root(evaluate, advance, (steps + 1) as u32, next, result);
    }
}

} // verus!
