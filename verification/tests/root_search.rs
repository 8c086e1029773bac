use image_tree::newton::{newtons_method, MaxIterationsExceeded, MAX_ITERATIONS};
use std::cell::Cell;

/// Runs the search on a function of real numbers, with the derivative taken
/// from a symmetric difference of one machine epsilon to each side.
fn find_root(f: &dyn Fn(f64) -> f64, guess: f64) -> Result<f64, MaxIterationsExceeded> {
    let eps = f64::EPSILON;
    newtons_method(
        &|x: &f64| {
            let fx = f(*x);
            (fx, fx.abs() <= eps)
        },
        &|x: f64, fx: f64| {
            let slope = (f(x + eps) - f(x - eps)) / (2.0 * eps);
            let next = x - fx / slope;
            (next, (next - x).abs() <= eps)
        },
        guess,
    )
}

#[test]
fn root_at_the_guess_is_returned_at_once() {
    let calls = Cell::new(0u32);
    let f = |x: f64| {
        calls.set(calls.get() + 1);
        x - 0.5
    };
    assert_eq!(find_root(&f, 0.5), Ok(0.5));
    assert_eq!(calls.get(), 1);
}

#[test]
fn function_without_a_root_gives_up() {
    let f = |x: f64| x * x + 1.0;
    assert_eq!(find_root(&f, 0.5), Err(MaxIterationsExceeded));
}

#[test]
fn search_takes_no_more_steps_than_allowed() {
    assert_eq!(MAX_ITERATIONS, 100);
    let evaluations = Cell::new(0u32);
    let steps = Cell::new(0u32);
    let out = newtons_method(
        &|x: &u64| {
            evaluations.set(evaluations.get() + 1);
            (*x, false)
        },
        &|x: u64, _fx: u64| {
            steps.set(steps.get() + 1);
            (x + 1, false)
        },
        7u64,
    );
    assert_eq!(out, Err(MaxIterationsExceeded));
    assert_eq!(evaluations.get(), 100);
    assert_eq!(steps.get(), 100);
}

#[test]
fn search_returns_the_estimate_that_settles() {
    // the value is never small, but the third step moves nowhere
    let out = newtons_method(
        &|x: &u32| (*x * 10, false),
        &|x: u32, fx: u32| if fx == 30 { (x, true) } else { (x + 1, false) },
        1u32,
    );
    assert_eq!(out, Ok(3));
}

#[test]
fn search_returns_the_estimate_whose_value_is_small() {
    let out = newtons_method(
        &|x: &i32| (*x - 4, *x == 4),
        &|x: i32, _fx: i32| (x + 1, false),
        0i32,
    );
    assert_eq!(out, Ok(4));
}

#[test]
fn search_passes_the_value_on_to_the_step() {
    let out = newtons_method(
        &|x: &i64| (x * x, false),
        &|x: i64, fx: i64| (x + fx, x + fx > 1000),
        2i64,
    );
    // 2 -> 6 -> 42 -> 1806
    assert_eq!(out, Ok(1806));
}

#[test]
fn linear_function_converges() {
    let f = |x: f64| 2.0 * x - 3.0;
    let root = find_root(&f, 1.0).unwrap();
    assert!((root - 1.5).abs() <= 1e-9);
}
