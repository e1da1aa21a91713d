//! Newton-Raphson iteration from one seed, behind a sign safeguard.
use vstd::prelude::*;

use crate::number::{DifferentiableFunction, Real};

verus! {

/// The Newton update `x - f(x) / f'(x)`.
pub open spec fn newton_step<T: Real, F: DifferentiableFunction<T>>(f: F, x: T) -> T {
    T::spec_sub(x, T::spec_div(f.spec_value(x), f.spec_first_derivative(x)))
}

/// `|f(x)| < epsilon`: the acceptance test of the iteration.
pub open spec fn is_close_to_root<T: Real, F: DifferentiableFunction<T>>(
    f: F,
    x: T,
    epsilon: T,
) -> bool {
    T::spec_lt(T::spec_abs(f.spec_value(x)), epsilon)
}

/// What at most `n` Newton iterations from `x` yield: the first iterate that
/// passes the acceptance test, or `None` when none of the first `n` does.
pub open spec fn newton_iterate<T: Real, F: DifferentiableFunction<T>>(
    f: F,
    x: T,
    epsilon: T,
    n: nat,
) -> Option<T>
    decreases n,
{
    if n == 0 {
        None
    } else if is_close_to_root(f, x, epsilon) {
        Some(x)
    } else {
        newton_iterate(f, newton_step(f, x), epsilon, (n - 1) as nat)
    }
}

/// The safeguard: a seed is tried only when `f(x0) * f''(x0) > 0`, that is,
/// when the product is not `<= 0`.
pub open spec fn passes_safeguard<T: Real, F: DifferentiableFunction<T>>(f: F, x0: T) -> bool {
    !T::spec_le(
        T::spec_mul(f.spec_value(x0), f.spec_second_derivative(x0)),
        T::spec_from_u32(0),
    )
}

/// The outcome of a safeguarded Newton run from `x0` with an iteration cap.
pub open spec fn newton_root<T: Real, F: DifferentiableFunction<T>>(
    f: F,
    x0: T,
    epsilon: T,
    max_iterations: nat,
) -> Option<T> {
    if passes_safeguard(f, x0) {
        newton_iterate(f, x0, epsilon, max_iterations)
    } else {
        None
    }
}

/// Whatever the iteration returns passes the acceptance test.
pub proof fn lemma_newton_iterate_converged<T: Real, F: DifferentiableFunction<T>>(
    f: F,
    x: T,
    epsilon: T,
    n: nat,
)
    ensures
        newton_iterate(f, x, epsilon, n) is Some ==> is_close_to_root(
            f,
            newton_iterate(f, x, epsilon, n)->0,
            epsilon,
        ),
    decreases n,
{
    if n > 0 && !is_close_to_root(f, x, epsilon) {
        lemma_newton_iterate_converged(f, newton_step(f, x), epsilon, (n - 1) as nat);
    }
}

/// Runs Newton's method from `x0` for at most `max_iterations` steps.
///
/// Returns `None` at once when `f(x0) * f''(x0) <= 0`; otherwise the first
/// iterate `x` with `|f(x)| < epsilon`, or `None` when the cap is reached.
pub fn find_root_newton<T: Real, F: DifferentiableFunction<T>>(
    f: &F,
    x0: T,
    epsilon: T,
    max_iterations: u64,
) -> (r: Option<T>)
    ensures
        r == newton_root(*f, x0, epsilon, max_iterations as nat),
        r is Some ==> is_close_to_root(*f, r->0, epsilon),
        !passes_safeguard(*f, x0) ==> r is None,
{
    proof {
        lemma_newton_iterate_converged(*f, x0, epsilon, max_iterations as nat);
    }
    if f.value(x0).mul(f.second_derivative(x0)).le(T::from_u32(0)) {
        return None;
    }
    let mut x = x0;
    let mut i: u64 = 0;
    while i < max_iterations
        invariant
            i <= max_iterations,
            passes_safeguard(*f, x0),
            newton_iterate(*f, x, epsilon, (max_iterations - i) as nat) == newton_iterate(
                *f,
                x0,
                epsilon,
                max_iterations as nat,
            ),
        decreases max_iterations - i,
    {
        let fx = f.value(x);
        let dfx = f.first_derivative(x);
        if fx.abs().lt(epsilon) {
            return Some(x);
        }
        x = x.sub(fx.div(dfx));
        i = i + 1;
    }
    None
}

} // verus!
