//! Scanning an interval with evenly spaced Newton seeds and collecting the
//! distinct roots found inside it.
use vstd::prelude::*;

use crate::newton::{find_root_newton, is_close_to_root, newton_root};
use crate::number::{DifferentiableFunction, Real};

verus! {

/// The iteration cap used when the caller has no reason to pick another.
pub const DEFAULT_MAX_ITERATIONS: u64 = 1000000000;

/// The spacing of the seeds: `epsilon * 10`.
pub open spec fn scan_step<T: Real>(epsilon: T) -> T {
    T::spec_mul(epsilon, T::spec_from_u32(10))
}

/// The `k`-th seed: `lower_bound` with `step` added `k` times, one addition
/// after the other.
pub open spec fn seed<T: Real>(lower_bound: T, step: T, k: nat) -> T
    decreases k,
{
    if k == 0 {
        lower_bound
    } else {
        T::spec_add(seed(lower_bound, step, (k - 1) as nat), step)
    }
}

/// Whether the `k`-th seed is used: `seed_k + step <= upper_bound`.
pub open spec fn seed_is_used<T: Real>(epsilon: T, lower_bound: T, upper_bound: T, k: nat) -> bool {
    T::spec_le(
        T::spec_add(seed(lower_bound, scan_step(epsilon), k), scan_step(epsilon)),
        upper_bound,
    )
}

/// The scan uses exactly the seeds `0 .. n`.
pub open spec fn scan_uses_seeds<T: Real>(epsilon: T, lower_bound: T, upper_bound: T, n: nat) -> bool {
    &&& !seed_is_used(epsilon, lower_bound, upper_bound, n)
    &&& forall|k: nat| k < n ==> #[trigger] seed_is_used(epsilon, lower_bound, upper_bound, k)
}

/// The seed cursor eventually fails the loop test, so that the scan ends.
pub open spec fn scan_terminates<T: Real>(epsilon: T, lower_bound: T, upper_bound: T) -> bool {
    exists|n: nat| !#[trigger] seed_is_used(epsilon, lower_bound, upper_bound, n)
}

/// The number of seeds the scan uses, where the scan ends.
pub open spec fn seed_count<T: Real>(epsilon: T, lower_bound: T, upper_bound: T) -> nat {
    choose|n: nat| scan_uses_seeds(epsilon, lower_bound, upper_bound, n)
}

/// `r` lies in `[lower_bound, upper_bound]`: neither `r < lower_bound` nor
/// `upper_bound < r`.
pub open spec fn within_bounds<T: Real>(r: T, lower_bound: T, upper_bound: T) -> bool {
    !T::spec_lt(r, lower_bound) && !T::spec_lt(upper_bound, r)
}

/// Some root in `roots` lies within `epsilon` of `r`: `|r - x| < epsilon`.
pub open spec fn has_root_near<T: Real>(roots: Seq<T>, r: T, epsilon: T) -> bool {
    exists|j: int| 0 <= j < roots.len() && T::spec_lt(T::spec_abs(T::spec_sub(r, #[trigger] roots[j])), epsilon)
}

/// The root set after one seed's outcome is offered to it.
pub open spec fn accept<T: Real>(
    roots: Seq<T>,
    candidate: Option<T>,
    epsilon: T,
    lower_bound: T,
    upper_bound: T,
) -> Seq<T> {
    match candidate {
        Some(r) => if within_bounds(r, lower_bound, upper_bound) && !has_root_near(roots, r, epsilon) {
            roots.push(r)
        } else {
            roots
        },
        None => roots,
    }
}

/// The root set after the first `k` seeds.
pub open spec fn scan_prefix<T: Real, F: DifferentiableFunction<T>>(
    f: F,
    epsilon: T,
    lower_bound: T,
    upper_bound: T,
    max_iterations: nat,
    k: nat,
) -> Seq<T>
    decreases k,
{
    if k == 0 {
        Seq::empty()
    } else {
        accept(
            scan_prefix(f, epsilon, lower_bound, upper_bound, max_iterations, (k - 1) as nat),
            newton_root(
                f,
                seed(lower_bound, scan_step(epsilon), (k - 1) as nat),
                epsilon,
                max_iterations,
            ),
            epsilon,
            lower_bound,
            upper_bound,
        )
    }
}

/// The roots a complete scan returns, in the order they were found.
pub open spec fn scan_roots<T: Real, F: DifferentiableFunction<T>>(
    f: F,
    epsilon: T,
    lower_bound: T,
    upper_bound: T,
    max_iterations: nat,
) -> Seq<T> {
    scan_prefix(
        f,
        epsilon,
        lower_bound,
        upper_bound,
        max_iterations,
        seed_count(epsilon, lower_bound, upper_bound),
    )
}

/// Every root lies in the interval, passes the acceptance test, and is at
/// least `epsilon` away from each root found before it.
pub open spec fn roots_are_valid<T: Real, F: DifferentiableFunction<T>>(
    f: F,
    epsilon: T,
    lower_bound: T,
    upper_bound: T,
    roots: Seq<T>,
) -> bool {
    &&& forall|i: int| 0 <= i < roots.len() ==> within_bounds(#[trigger] roots[i], lower_bound, upper_bound)
    &&& forall|i: int| 0 <= i < roots.len() ==> is_close_to_root(f, #[trigger] roots[i], epsilon)
    &&& forall|i: int, j: int|
        0 <= i < j < roots.len() ==> !T::spec_lt(
            T::spec_abs(T::spec_sub(#[trigger] roots[j], #[trigger] roots[i])),
            epsilon,
        )
}

/// The number of seeds used is the one `n` with all seeds before it used and
/// seed `n` not.
pub proof fn lemma_seed_count_unique<T: Real>(epsilon: T, lower_bound: T, upper_bound: T, n: nat)
    requires
        scan_uses_seeds(epsilon, lower_bound, upper_bound, n),
    ensures
        seed_count(epsilon, lower_bound, upper_bound) == n,
{
    let m = seed_count(epsilon, lower_bound, upper_bound);
    assert(scan_uses_seeds(epsilon, lower_bound, upper_bound, m));
    if m < n {
        assert(seed_is_used(epsilon, lower_bound, upper_bound, m));
    } else if n < m {
        assert(seed_is_used(epsilon, lower_bound, upper_bound, n));
    }
}

/// Every prefix of the scan is a valid root set.
pub proof fn lemma_scan_prefix_valid<T: Real, F: DifferentiableFunction<T>>(
    f: F,
    epsilon: T,
    lower_bound: T,
    upper_bound: T,
    max_iterations: nat,
    k: nat,
)
    ensures
        roots_are_valid(
            f,
            epsilon,
            lower_bound,
            upper_bound,
            scan_prefix(f, epsilon, lower_bound, upper_bound, max_iterations, k),
        ),
    decreases k,
{
    if k > 0 {
        let prev = scan_prefix(f, epsilon, lower_bound, upper_bound, max_iterations, (k - 1) as nat);
        let x0 = seed(lower_bound, scan_step(epsilon), (k - 1) as nat);
        lemma_scan_prefix_valid(f, epsilon, lower_bound, upper_bound, max_iterations, (k - 1) as nat);
        crate::newton::lemma_newton_iterate_converged(f, x0, epsilon, max_iterations);
        let cur = scan_prefix(f, epsilon, lower_bound, upper_bound, max_iterations, k);
        if cur != prev {
            let r = newton_root(f, x0, epsilon, max_iterations)->0;
            assert(cur == prev.push(r));
            assert forall|i: int, j: int| 0 <= i < j < cur.len() implies !T::spec_lt(
                T::spec_abs(T::spec_sub(#[trigger] cur[j], #[trigger] cur[i])),
                epsilon,
            ) by {
                if j == prev.len() {
                    assert(cur[i] == prev[i]);
                    if T::spec_lt(T::spec_abs(T::spec_sub(r, prev[i])), epsilon) {
                        assert(has_root_near(prev, r, epsilon));
                    }
                } else {
                    assert(cur[i] == prev[i] && cur[j] == prev[j]);
                }
            }
            assert forall|i: int| 0 <= i < cur.len() implies within_bounds(
                #[trigger] cur[i],
                lower_bound,
                upper_bound,
            ) && is_close_to_root(f, cur[i], epsilon) by {
                if i < prev.len() {
                    assert(cur[i] == prev[i]);
                }
            }
        }
    }
}

/// Some seed index at or below an unused one is the first unused seed.
proof fn lemma_first_unused_seed<T: Real>(epsilon: T, lower_bound: T, upper_bound: T, n: nat)
    requires
        !seed_is_used(epsilon, lower_bound, upper_bound, n),
    ensures
        exists|m: nat| m <= n && scan_uses_seeds(epsilon, lower_bound, upper_bound, m),
    decreases n,
{
    if forall|k: nat| k < n ==> #[trigger] seed_is_used(epsilon, lower_bound, upper_bound, k) {
        assert(scan_uses_seeds(epsilon, lower_bound, upper_bound, n));
    } else {
        let k = choose|k: nat| k < n && !#[trigger] seed_is_used(epsilon, lower_bound, upper_bound, k);
        lemma_first_unused_seed(epsilon, lower_bound, upper_bound, k);
    }
}

/// A scan is deterministic: two scans with the same function, tolerance,
/// interval and iteration cap return the same roots in the same order.
pub proof fn lemma_scan_deterministic<T: Real, F: DifferentiableFunction<T>>(
    f: F,
    epsilon: T,
    lower_bound: T,
    upper_bound: T,
    max_iterations: nat,
    first: Seq<T>,
    second: Seq<T>,
)
    requires
        first == scan_roots(f, epsilon, lower_bound, upper_bound, max_iterations),
        second == scan_roots(f, epsilon, lower_bound, upper_bound, max_iterations),
    ensures
        first == second,
{
}

/// Every root a scan returns lies in `[lower_bound, upper_bound]`.
pub proof fn lemma_roots_within_bounds<T: Real, F: DifferentiableFunction<T>>(
    f: F,
    epsilon: T,
    lower_bound: T,
    upper_bound: T,
    max_iterations: nat,
)
    ensures
        forall|i: int|
            0 <= i < scan_roots(f, epsilon, lower_bound, upper_bound, max_iterations).len()
                ==> within_bounds(
                #[trigger] scan_roots(f, epsilon, lower_bound, upper_bound, max_iterations)[i],
                lower_bound,
                upper_bound,
            ),
{
    lemma_scan_prefix_valid(
        f,
        epsilon,
        lower_bound,
        upper_bound,
        max_iterations,
        seed_count(epsilon, lower_bound, upper_bound),
    );
}

/// Every root `r` a scan returns satisfies `|f(r)| < epsilon`.
pub proof fn lemma_roots_within_tolerance<T: Real, F: DifferentiableFunction<T>>(
    f: F,
    epsilon: T,
    lower_bound: T,
    upper_bound: T,
    max_iterations: nat,
)
    ensures
        forall|i: int|
            0 <= i < scan_roots(f, epsilon, lower_bound, upper_bound, max_iterations).len()
                ==> is_close_to_root(
                f,
                #[trigger] scan_roots(f, epsilon, lower_bound, upper_bound, max_iterations)[i],
                epsilon,
            ),
{
    lemma_scan_prefix_valid(
        f,
        epsilon,
        lower_bound,
        upper_bound,
        max_iterations,
        seed_count(epsilon, lower_bound, upper_bound),
    );
}

/// The roots a scan returns are distinct: each later root `r2` and earlier
/// root `r1` have `|r2 - r1| >= epsilon`.
pub proof fn lemma_roots_distinct<T: Real, F: DifferentiableFunction<T>>(
    f: F,
    epsilon: T,
    lower_bound: T,
    upper_bound: T,
    max_iterations: nat,
)
    ensures
        forall|i: int, j: int|
            0 <= i < j < scan_roots(f, epsilon, lower_bound, upper_bound, max_iterations).len()
                ==> !T::spec_lt(
                T::spec_abs(
                    T::spec_sub(
                        #[trigger] scan_roots(f, epsilon, lower_bound, upper_bound, max_iterations)[j],
                        #[trigger] scan_roots(f, epsilon, lower_bound, upper_bound, max_iterations)[i],
                    ),
                ),
                epsilon,
            ),
{
    lemma_scan_prefix_valid(
        f,
        epsilon,
        lower_bound,
        upper_bound,
        max_iterations,
        seed_count(epsilon, lower_bound, upper_bound),
    );
}

/// An interval too narrow for one step gives no roots: when
/// `lower_bound + epsilon * 10 <= upper_bound` fails, the scan is empty.
pub proof fn lemma_narrow_interval_empty<T: Real, F: DifferentiableFunction<T>>(
    f: F,
    epsilon: T,
    lower_bound: T,
    upper_bound: T,
    max_iterations: nat,
)
    requires
        !seed_is_used(epsilon, lower_bound, upper_bound, 0),
    ensures
        scan_roots(f, epsilon, lower_bound, upper_bound, max_iterations) == Seq::<T>::empty(),
{
    assert(scan_uses_seeds(epsilon, lower_bound, upper_bound, 0));
    lemma_seed_count_unique(epsilon, lower_bound, upper_bound, 0);
}

/// The seeds of a scan that ends are `lower_bound`, `lower_bound + step`,
/// `lower_bound + step + step`, ... in turn (see [`seed`]), and each seed
/// `s` used has `s + step <= upper_bound`; the first seed that fails this
/// test ends the scan.
pub proof fn lemma_seeds_in_sequence<T: Real>(epsilon: T, lower_bound: T, upper_bound: T)
    requires
        scan_terminates(epsilon, lower_bound, upper_bound),
    ensures
        forall|k: nat|
            k < seed_count(epsilon, lower_bound, upper_bound) ==> T::spec_le(
                T::spec_add(#[trigger] seed(lower_bound, scan_step(epsilon), k), scan_step(epsilon)),
                upper_bound,
            ),
        !T::spec_le(
            T::spec_add(
                seed(lower_bound, scan_step(epsilon), seed_count(epsilon, lower_bound, upper_bound)),
                scan_step(epsilon),
            ),
            upper_bound,
        ),
{
    let n = choose|n: nat| !#[trigger] seed_is_used(epsilon, lower_bound, upper_bound, n);
    lemma_first_unused_seed(epsilon, lower_bound, upper_bound, n);
    let m = choose|m: nat| m <= n && scan_uses_seeds(epsilon, lower_bound, upper_bound, m);
    lemma_seed_count_unique(epsilon, lower_bound, upper_bound, m);
    assert forall|k: nat| k < seed_count(epsilon, lower_bound, upper_bound) implies T::spec_le(
        T::spec_add(#[trigger] seed(lower_bound, scan_step(epsilon), k), scan_step(epsilon)),
        upper_bound,
    ) by {
        assert(seed_is_used(epsilon, lower_bound, upper_bound, k));
    }
}

/// Whether some root in `roots` lies within `epsilon` of `r`.
fn root_near_exists<T: Real>(roots: &Vec<T>, r: T, epsilon: T) -> (b: bool)
    ensures
        b == has_root_near(roots@, r, epsilon),
{
    let mut j: usize = 0;
    while j < roots.len()
        invariant
            j <= roots.len(),
            forall|i: int| 0 <= i < j ==> !T::spec_lt(T::spec_abs(T::spec_sub(r, #[trigger] roots@[i])), epsilon),
        decreases roots.len() - j,
    {
        if r.sub(roots[j]).abs().lt(epsilon) {
            return true;
        }
        j = j + 1;
    }
    false
}

/// Counts the seeds a scan of `[lower_bound, upper_bound]` uses, walking the
/// seed cursor as [`find_roots`] does but without running Newton's method.
///
/// Returns `Some(n)` when the cursor fails the loop test at seed `n`, with
/// `n <= max_seeds`; `None` when seeds `0 ..= max_seeds` all pass it. On
/// `Some`, the scan is known to end, as [`find_roots`] requires.
pub fn count_seeds<T: Real>(epsilon: T, lower_bound: T, upper_bound: T, max_seeds: u64) -> (r: Option<u64>)
    ensures
        match r {
            Some(n) => {
                &&& n <= max_seeds
                &&& scan_uses_seeds(epsilon, lower_bound, upper_bound, n as nat)
                &&& seed_count(epsilon, lower_bound, upper_bound) == n as nat
                &&& scan_terminates(epsilon, lower_bound, upper_bound)
            },
            None => forall|k: nat| k <= max_seeds ==> #[trigger] seed_is_used(epsilon, lower_bound, upper_bound, k),
        },
{
    let step = epsilon.mul(T::from_u32(10));
    let mut current = lower_bound;
    let mut n: u64 = 0;
    loop
        invariant
            step == scan_step(epsilon),
            current == seed(lower_bound, step, n as nat),
            n <= max_seeds,
            forall|j: nat| j < n ==> #[trigger] seed_is_used(epsilon, lower_bound, upper_bound, j),
        decreases max_seeds - n,
    {
        if !current.add(step).le(upper_bound) {
            proof {
                assert(scan_uses_seeds(epsilon, lower_bound, upper_bound, n as nat));
                lemma_seed_count_unique(epsilon, lower_bound, upper_bound, n as nat);
            }
            return Some(n);
        }
        if n == max_seeds {
            proof {
                assert forall|k: nat| k <= max_seeds implies #[trigger] seed_is_used(
                    epsilon,
                    lower_bound,
                    upper_bound,
                    k,
                ) by {
                    if k == n as nat {
                    } else {
                        assert(k < n);
                    }
                }
            }
            return None;
        }
        current = current.add(step);
        n = n + 1;
    }
}

/// Scans `[lower_bound, upper_bound]` for roots of `f`.
///
/// Seeds start at `lower_bound` and advance by `epsilon * 10` while
/// `seed + step <= upper_bound`. From each seed a safeguarded Newton run
/// (see [`find_root_newton`]) is made; a root it yields is kept when it lies
/// in the interval and is not within `epsilon` of a root kept before.
/// The roots come in the order they were found.
pub fn find_roots<T: Real, F: DifferentiableFunction<T>>(
    f: &F,
    epsilon: T,
    lower_bound: T,
    upper_bound: T,
    max_iterations: u64,
) -> (roots: Vec<T>)
    requires
        scan_terminates(epsilon, lower_bound, upper_bound),
    ensures
        roots@ == scan_roots(*f, epsilon, lower_bound, upper_bound, max_iterations as nat),
        roots_are_valid(*f, epsilon, lower_bound, upper_bound, roots@),
        !seed_is_used(epsilon, lower_bound, upper_bound, 0) ==> roots@.len() == 0,
{
    let mut list: Vec<T> = Vec::new();
    let step = epsilon.mul(T::from_u32(10));
    let mut current = lower_bound;
    let ghost mut k: nat = 0;
    let ghost end: nat = choose|n: nat| !#[trigger] seed_is_used(epsilon, lower_bound, upper_bound, n);
    while current.add(step).le(upper_bound)
        invariant
            step == scan_step(epsilon),
            current == seed(lower_bound, step, k),
            !seed_is_used(epsilon, lower_bound, upper_bound, end),
            forall|j: nat| j < k ==> #[trigger] seed_is_used(epsilon, lower_bound, upper_bound, j),
            k <= end,
            list@ == scan_prefix(*f, epsilon, lower_bound, upper_bound, max_iterations as nat, k),
        decreases end - k,
    {
        let candidate = find_root_newton(f, current, epsilon, max_iterations);
        match candidate {
            Some(root) => {
                if !root.lt(lower_bound) && !upper_bound.lt(root) && !root_near_exists(&list, root, epsilon) {
                    list.push(root);
                }
            },
            None => {},
        }
        assert(seed_is_used(epsilon, lower_bound, upper_bound, k));
        current = current.add(step);
        proof {
            k = k + 1;
        }
    }
    proof {
        assert(scan_uses_seeds(epsilon, lower_bound, upper_bound, k));
        lemma_seed_count_unique(epsilon, lower_bound, upper_bound, k);
        lemma_scan_prefix_valid(*f, epsilon, lower_bound, upper_bound, max_iterations as nat, k);
    }
    list
}

} // verus!
