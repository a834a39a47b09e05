use std::cell::Cell;

use patched_conics::solver::{newton_solver, SolverError, MAX_ITERATIONS};

const EPSILON: f32 = 0.000001;

fn assert_f(x: f32, y: f32) {
    if !((x - y) < EPSILON && (y - x) < EPSILON) {
        panic!("assert_f failed: {} !=> {}", x, y);
    }
}

/// Newton's method on `f` with derivative `df`, from `x0`.
fn newton<F: Fn(f32) -> f32, G: Fn(f32) -> f32>(f: F, df: G, x0: f32) -> Result<f32, SolverError> {
    newton_solver(|x: f32| (0. - f(x)).abs() < EPSILON, |x: f32| x - f(x) / df(x), x0)
}

#[test]
fn test_newton_solver() {
    let f = |x: f32| 6. * x.powi(5) - 5. * x.powi(4) - 4. * x.powi(3) + 3. * x.powi(2);
    let df = |x: f32| 30. * x.powi(4) - 20. * x.powi(3) - 12. * x.powi(2) + 6. * x;

    // first root
    let x = newton(f, df, 0.).unwrap();
    assert_f(x, 0.);
    assert_f(f(x), 0.);

    // second root
    let x = newton(f, df, 0.5).unwrap();
    assert_f(x, 0.628667);
    assert_f(f(x), 0.);

    // third root
    let x = newton(f, df, 1.).unwrap();
    assert_f(x, 1.);
    assert_f(f(x), 0.);
}

#[test]
fn accepted_start_is_returned_without_refinement() {
    let refinements = Cell::new(0u32);
    let r = newton_solver(
        |_x: i64| true,
        |x: i64| {
            refinements.set(refinements.get() + 1);
            x + 1
        },
        42i64,
    );
    assert_eq!(r, Ok(42));
    assert_eq!(refinements.get(), 0);
}

#[test]
fn first_accepted_point_is_returned() {
    // halve until below ten: 40 -> 20 -> 10 -> 5
    let r = newton_solver(|x: u64| x < 10, |x: u64| x / 2, 40u64);
    assert_eq!(r, Ok(5));
}

#[test]
fn search_gives_up_after_the_last_refinement() {
    let refinements = Cell::new(0u32);
    let tests = Cell::new(0u32);
    let r = newton_solver(
        |_x: u32| {
            tests.set(tests.get() + 1);
            false
        },
        |x: u32| {
            refinements.set(refinements.get() + 1);
            x + 1
        },
        0u32,
    );
    assert_eq!(r, Err(SolverError::NoConvergence));
    assert_eq!(MAX_ITERATIONS, 20);
    assert_eq!(refinements.get(), 20);
    assert_eq!(tests.get(), 21);
}

#[test]
fn point_accepted_after_the_last_refinement_is_a_root() {
    // the point reached by the twentieth refinement is accepted
    let r = newton_solver(|x: u32| x >= 20, |x: u32| x + 1, 0u32);
    assert_eq!(r, Ok(20));
    // one more refinement would have been needed
    let r = newton_solver(|x: u32| x >= 21, |x: u32| x + 1, 0u32);
    assert_eq!(r, Err(SolverError::NoConvergence));
}

#[test]
fn divergent_newton_iteration_fails() {
    // x^2 + 1 has no real root
    let r = newton(|x: f32| x * x + 1., |x: f32| 2. * x, 3.);
    assert_eq!(r, Err(SolverError::NoConvergence));
}

#[test]
fn kepler_equation_elliptical() {
    // E - e sin E = M with e = 0.5, M = 1, started at pi
    let e = 0.5f64;
    let m = 1.0f64;
    let f = |x: f64| x - e * x.sin() - m;
    let df = |x: f64| 1. - e * x.cos();
    let r = newton_solver(
        |x: f64| f(x).abs() < 1e-6,
        |x: f64| x - f(x) / df(x),
        std::f64::consts::PI,
    );
    let root = r.unwrap();
    assert!((root - 1.4987011335).abs() < 1e-6);
    assert!(f(root).abs() < 1e-6);
}

#[test]
fn kepler_equation_hyperbolic() {
    // e sinh H - H = M with e = 1.5, M = 2, started at pi
    let e = 1.5f64;
    let m = 2.0f64;
    let f = |x: f64| e * x.sinh() - x - m;
    let df = |x: f64| e * x.cosh() - 1.;
    let r = newton_solver(
        |x: f64| f(x).abs() < 1e-6,
        |x: f64| x - f(x) / df(x),
        std::f64::consts::PI,
    );
    let root = r.unwrap();
    assert!(f(root).abs() < 1e-6);
    assert!((e * root.sinh() - root - m).abs() < 1e-6);
    assert!(root > 0. && root < std::f64::consts::PI);
}

#[test]
fn error_message_names_the_solver() {
    assert_eq!(SolverError::NoConvergence.message(), "newton solver failed to converge");
}
