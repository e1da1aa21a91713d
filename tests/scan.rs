use std::cell::RefCell;

use root_scanner::{count_seeds, find_root_newton, find_roots, DifferentiableFunction, Real, DEFAULT_MAX_ITERATIONS};

#[derive(Clone, Copy, Debug, PartialEq)]
struct Num(f64);

impl Num {
    /// Every NaN is stored as the one canonical NaN, so that each operation
    /// is a function of its arguments.
    fn new(x: f64) -> Num {
        if x.is_nan() { Num(f64::NAN) } else { Num(x) }
    }
}

impl Real for Num {
    fn spec_add(a: Self, b: Self) -> Self {
        Num::new(a.0 + b.0)
    }

    fn spec_sub(a: Self, b: Self) -> Self {
        Num::new(a.0 - b.0)
    }

    fn spec_mul(a: Self, b: Self) -> Self {
        Num::new(a.0 * b.0)
    }

    fn spec_div(a: Self, b: Self) -> Self {
        Num::new(a.0 / b.0)
    }

    fn spec_abs(a: Self) -> Self {
        Num::new(a.0.abs())
    }

    fn spec_lt(a: Self, b: Self) -> bool {
        a.0 < b.0
    }

    fn spec_le(a: Self, b: Self) -> bool {
        a.0 <= b.0
    }

    fn spec_from_u32(n: u32) -> Self {
        Num(n as f64)
    }

    fn add(self, other: Self) -> Self {
        Self::spec_add(self, other)
    }

    fn sub(self, other: Self) -> Self {
        Self::spec_sub(self, other)
    }

    fn mul(self, other: Self) -> Self {
        Self::spec_mul(self, other)
    }

    fn div(self, other: Self) -> Self {
        Self::spec_div(self, other)
    }

    fn abs(self) -> Self {
        Self::spec_abs(self)
    }

    fn lt(self, other: Self) -> bool {
        Self::spec_lt(self, other)
    }

    fn le(self, other: Self) -> bool {
        Self::spec_le(self, other)
    }

    fn from_u32(n: u32) -> Self {
        Self::spec_from_u32(n)
    }
}

/// A function given by three plain functions: value, first and second
/// derivative.
struct Triple {
    f: fn(f64) -> f64,
    df: fn(f64) -> f64,
    d2f: fn(f64) -> f64,
}

impl DifferentiableFunction<Num> for Triple {
    fn spec_value(&self, x: Num) -> Num {
        Num::new((self.f)(x.0))
    }

    fn spec_first_derivative(&self, x: Num) -> Num {
        Num::new((self.df)(x.0))
    }

    fn spec_second_derivative(&self, x: Num) -> Num {
        Num::new((self.d2f)(x.0))
    }

    fn value(&self, x: Num) -> Num {
        self.spec_value(x)
    }

    fn first_derivative(&self, x: Num) -> Num {
        self.spec_first_derivative(x)
    }

    fn second_derivative(&self, x: Num) -> Num {
        self.spec_second_derivative(x)
    }
}

/// f(x) = x^2 - 4, with roots -2 and 2.
const SQUARE: Triple = Triple { f: |x| x * x - 4.0, df: |x| 2.0 * x, d2f: |_| 2.0 };

/// f(x) = x^2 + 1, with no real root.
const NO_ROOT: Triple = Triple { f: |x| x * x + 1.0, df: |x| 2.0 * x, d2f: |_| 2.0 };

/// f(x) = x^4 - 4.3x^3 - 1.29x^2 + 15.1 sin x + 9.84.
const QUARTIC: Triple = Triple {
    f: |x| x * x * x * x - 4.3 * x * x * x - 1.29 * x * x + 15.1 * x.sin() + 9.84,
    df: |x| (151.0 / 10.0) * x.cos() + 4.0 * x * x * x - 12.9 * x * x - (129.0 / 50.0) * x,
    d2f: |x| (1.0 / 50.0) * (-755.0 * x.sin() + 600.0 * x * x - 1290.0 * x - 129.0),
};

const EPS: f64 = 0.0001;

fn scan(f: &Triple, lower: f64, upper: f64, cap: u64) -> Vec<f64> {
    find_roots(f, Num(EPS), Num(lower), Num(upper), cap).into_iter().map(|r| r.0).collect()
}

fn assert_valid(f: &Triple, roots: &[f64], lower: f64, upper: f64) {
    for (j, r) in roots.iter().enumerate() {
        assert!(lower <= *r && *r <= upper);
        assert!(f.value(Num(*r)).0.abs() < EPS);
        for r1 in &roots[..j] {
            assert!((r - r1).abs() >= EPS);
        }
    }
}

#[test]
fn square_on_zero_to_four_has_one_root() {
    let roots = scan(&SQUARE, 0.0, 4.0, DEFAULT_MAX_ITERATIONS);
    assert_eq!(roots.len(), 1);
    assert!((roots[0] - 2.0).abs() < 0.001);
    assert_valid(&SQUARE, &roots, 0.0, 4.0);
}

#[test]
fn inverted_interval_is_empty() {
    assert!(scan(&SQUARE, 5.0, 1.0, DEFAULT_MAX_ITERATIONS).is_empty());
    assert!(scan(&QUARTIC, 5.0, 1.0, DEFAULT_MAX_ITERATIONS).is_empty());
}

#[test]
fn interval_narrower_than_a_step_is_empty() {
    assert!(scan(&SQUARE, 0.0, 0.0005, DEFAULT_MAX_ITERATIONS).is_empty());
    assert!(scan(&QUARTIC, 0.0, 0.0005, DEFAULT_MAX_ITERATIONS).is_empty());
    // A root inside the interval is still not looked for.
    assert!(scan(&SQUARE, 1.9998, 2.0003, DEFAULT_MAX_ITERATIONS).is_empty());
}

#[test]
fn two_separated_roots_in_order_of_discovery() {
    let roots = scan(&SQUARE, -3.0, 3.0, DEFAULT_MAX_ITERATIONS);
    assert_eq!(roots.len(), 2);
    assert!((roots[0] + 2.0).abs() < 0.001);
    assert!((roots[1] - 2.0).abs() < 0.001);
    assert_valid(&SQUARE, &roots, -3.0, 3.0);
}

#[test]
fn scan_is_deterministic() {
    let first = scan(&QUARTIC, -3.0, 5.0, DEFAULT_MAX_ITERATIONS);
    let second = scan(&QUARTIC, -3.0, 5.0, DEFAULT_MAX_ITERATIONS);
    assert_eq!(first, second);
    let first = scan(&SQUARE, -3.0, 3.0, DEFAULT_MAX_ITERATIONS);
    let second = scan(&SQUARE, -3.0, 3.0, DEFAULT_MAX_ITERATIONS);
    assert_eq!(first, second);
}

#[test]
fn quartic_roots_are_valid() {
    let roots = scan(&QUARTIC, -3.0, 5.0, 10000);
    assert!(!roots.is_empty());
    assert_valid(&QUARTIC, &roots, -3.0, 5.0);
}

#[test]
fn roots_outside_the_interval_are_dropped() {
    // Seeds in [2.5, 3] converge to 2, below the interval.
    assert!(scan(&SQUARE, 2.5, 3.0, DEFAULT_MAX_ITERATIONS).is_empty());
}

#[test]
fn function_without_roots_gives_none() {
    assert!(scan(&NO_ROOT, -1.0, 1.0, 1000).is_empty());
}

#[test]
fn newton_safeguard_rejects_seed() {
    // f(1) * f''(1) = -3 * 2 <= 0.
    assert_eq!(find_root_newton(&SQUARE, Num(1.0), Num(EPS), DEFAULT_MAX_ITERATIONS), None);
    // f(2) * f''(2) = 0 <= 0, although 2 is a root.
    assert_eq!(find_root_newton(&SQUARE, Num(2.0), Num(EPS), DEFAULT_MAX_ITERATIONS), None);
}

#[test]
fn newton_converges_from_above() {
    let r = find_root_newton(&SQUARE, Num(3.0), Num(EPS), DEFAULT_MAX_ITERATIONS).unwrap();
    assert!((r.0 - 2.0).abs() < 0.001);
    assert!((r.0 * r.0 - 4.0).abs() < EPS);
}

#[test]
fn newton_cap_reached_gives_none() {
    assert_eq!(find_root_newton(&NO_ROOT, Num(0.5), Num(EPS), 1000), None);
    assert_eq!(find_root_newton(&SQUARE, Num(3.0), Num(EPS), 0), None);
    assert_eq!(find_root_newton(&SQUARE, Num(3.0), Num(EPS), 1), None);
}

#[test]
fn newton_seed_already_close_is_returned() {
    let seed = 2.00001;
    assert_eq!(find_root_newton(&SQUARE, Num(seed), Num(EPS), 1), Some(Num(seed)));
}

/// f(x) = x^2 - 4, noting each point at which the second derivative is
/// asked for: the scan asks for it once per seed, in the safeguard.
struct SeedRecorder {
    seeds: RefCell<Vec<f64>>,
}

impl DifferentiableFunction<Num> for SeedRecorder {
    fn spec_value(&self, x: Num) -> Num {
        SQUARE.spec_value(x)
    }

    fn spec_first_derivative(&self, x: Num) -> Num {
        SQUARE.spec_first_derivative(x)
    }

    fn spec_second_derivative(&self, x: Num) -> Num {
        SQUARE.spec_second_derivative(x)
    }

    fn value(&self, x: Num) -> Num {
        self.spec_value(x)
    }

    fn first_derivative(&self, x: Num) -> Num {
        self.spec_first_derivative(x)
    }

    fn second_derivative(&self, x: Num) -> Num {
        self.seeds.borrow_mut().push(x.0);
        self.spec_second_derivative(x)
    }
}

#[test]
fn seeds_step_through_the_interval() {
    let recorder = SeedRecorder { seeds: RefCell::new(Vec::new()) };
    let (lower, upper) = (1.5, 2.5);
    let roots = find_roots(&recorder, Num(EPS), Num(lower), Num(upper), DEFAULT_MAX_ITERATIONS);
    assert_eq!(roots.len(), 1);
    let seeds = recorder.seeds.into_inner();
    let step = EPS * 10.0;
    let mut expected = lower;
    for s in &seeds {
        assert_eq!(*s, expected);
        assert!(*s + step <= upper);
        expected += step;
    }
    assert!(expected + step > upper);
    assert_eq!(Some(seeds.len() as u64), count_seeds(Num(EPS), Num(lower), Num(upper), u64::MAX));
    assert!(seeds.len() >= 999 && seeds.len() <= 1000);
}

#[test]
fn count_seeds_small_interval() {
    assert_eq!(count_seeds(Num(EPS), Num(0.0), Num(0.0035), 100), Some(3));
    assert_eq!(count_seeds(Num(EPS), Num(0.0), Num(0.0005), 100), Some(0));
    assert_eq!(count_seeds(Num(EPS), Num(5.0), Num(1.0), 100), Some(0));
}

#[test]
fn count_seeds_gives_up_at_the_cap() {
    assert_eq!(count_seeds(Num(EPS), Num(0.0), Num(4.0), 10), None);
    assert_eq!(count_seeds(Num(EPS), Num(0.0), Num(0.0035), 2), None);
    assert_eq!(count_seeds(Num(EPS), Num(0.0), Num(0.0035), 3), Some(3));
}
