//! Aggregate queries over tasksets.
//!
//! A taskset is an ordered sequence of tasks. The queries here work on what a
//! caller reads from each task: integer periods for the hyperperiod, and
//! totally ordered integer keys for sortedness and for picking the largest
//! value.

use vstd::prelude::*;

verus! {

/// Greatest common divisor, by Euclid's rule.
pub open spec fn gcd(a: nat, b: nat) -> nat
    decreases b,
{
    if b == 0 {
        a
    } else {
        gcd(b, a % b)
    }
}

/// Least common multiple; zero when either argument is zero.
pub open spec fn lcm(a: nat, b: nat) -> nat {
    if a == 0 || b == 0 {
        0
    } else {
        a * b / gcd(a, b)
    }
}

/// Absolute value.
pub open spec fn abs(x: int) -> nat {
    if x < 0 {
        (-x) as nat
    } else {
        x as nat
    }
}

/// The hyperperiod of `periods`: the least common multiple of the absolute
/// values of the periods, folded from the left starting at 1.
pub open spec fn hyperperiod_of(periods: Seq<i64>) -> nat
    decreases periods.len(),
{
    if periods.len() == 0 {
        1
    } else {
        lcm(hyperperiod_of(periods.drop_last()), abs(periods.last() as int))
    }
}

/// The `k`-th step of the hyperperiod fold stays within `i64`: the period it
/// takes in is not `i64::MIN` and the hyperperiod of the first `k` periods fits.
pub open spec fn step_fits(periods: Seq<i64>, k: int) -> bool {
    periods[k - 1] != i64::MIN && hyperperiod_of(periods.take(k)) <= i64::MAX
}

/// Every step of the hyperperiod fold stays within `i64`.
pub open spec fn hyperperiod_fits(periods: Seq<i64>) -> bool {
    forall|k: int| 0 < k <= periods.len() ==> #[trigger] step_fits(periods, k)
}

/// Adjacent keys never decrease.
pub open spec fn sorted_by_key(keys: Seq<i64>) -> bool {
    forall|i: int| 0 <= i < keys.len() - 1 ==> #[trigger] keys[i] <= keys[i + 1]
}

/// `m` is the position of the last largest key.
pub open spec fn is_last_max(keys: Seq<i64>, m: int) -> bool {
    &&& 0 <= m < keys.len()
    &&& forall|j: int| 0 <= j < keys.len() ==> #[trigger] keys[j] <= keys[m]
    &&& forall|j: int| m < j < keys.len() ==> #[trigger] keys[j] < keys[m]
}

proof fn lemma_gcd_pos(a: nat, b: nat)
    requires
        a > 0 || b > 0,
    ensures
        gcd(a, b) > 0,
    decreases b,
{
    if b != 0 {
        lemma_gcd_pos(b, a % b);
    }
}

proof fn lemma_lcm_le_product(a: nat, b: nat)
    ensures
        lcm(a, b) <= a * b,
{
    if a != 0 && b != 0 {
        lemma_gcd_pos(a, b);
        let g = gcd(a, b);
        assert(a * b / g <= a * b) by (nonlinear_arith)
            requires
                g >= 1,
                a * b >= 0,
        ;
    }
}

/// `h` is a whole multiple of `p`.
pub open spec fn is_multiple(h: nat, p: nat) -> bool {
    exists|m: nat| h == #[trigger] (m * p)
}

proof fn lemma_gcd_divides(a: nat, b: nat)
    requires
        a > 0 || b > 0,
    ensures
        is_multiple(a, gcd(a, b)),
        is_multiple(b, gcd(a, b)),
    decreases b,
{
    if b == 0 {
        assert(a == 1 * a);
        assert(b == 0 * a);
    } else {
        let r = a % b;
        let q = a / b;
        lemma_gcd_divides(b, r);
        let g = gcd(b, r);
        let kb = choose|m: nat| b == #[trigger] (m * g);
        let kr = choose|m: nat| r == #[trigger] (m * g);
        assert(a == q * b + r) by (nonlinear_arith)
            requires
                b > 0,
                q == a / b,
                r == a % b,
        ;
        assert(q >= 0) by (nonlinear_arith)
            requires
                b > 0,
                a >= 0,
                q == a / b,
        ;
        assert(a == ((q * kb + kr) as nat) * g) by (nonlinear_arith)
            requires
                a == q * b + r,
                b == kb * g,
                r == kr * g,
        ;
    }
}

proof fn lemma_lcm_multiple(a: nat, b: nat)
    ensures
        is_multiple(lcm(a, b), a),
        is_multiple(lcm(a, b), b),
{
    if a == 0 || b == 0 {
        assert(lcm(a, b) == 0 * a);
        assert(lcm(a, b) == 0 * b);
    } else {
        lemma_gcd_pos(a, b);
        lemma_gcd_divides(a, b);
        let g = gcd(a, b);
        let ka = choose|m: nat| a == #[trigger] (m * g);
        let kb = choose|m: nat| b == #[trigger] (m * g);
        assert(a * b == (a * kb) * g) by (nonlinear_arith)
            requires
                b == kb * g,
        ;
        assert(a * b == (ka * b) * g) by (nonlinear_arith)
            requires
                a == ka * g,
        ;
        vstd::arithmetic::div_mod::lemma_div_by_multiple((a * kb) as int, g as int);
        vstd::arithmetic::div_mod::lemma_div_by_multiple((ka * b) as int, g as int);
        assert(lcm(a, b) == (a * kb) * g / g);
        assert(lcm(a, b) == (ka * b) * g / g);
        assert(a * kb == kb * a) by (nonlinear_arith);
        assert(lcm(a, b) == kb * a);
        assert(lcm(a, b) == ka * b);
    }
}

proof fn lemma_multiple_trans(h: nat, m: nat, p: nat)
    requires
        is_multiple(h, m),
        is_multiple(m, p),
    ensures
        is_multiple(h, p),
{
    let x = choose|k: nat| h == #[trigger] (k * m);
    let y = choose|k: nat| m == #[trigger] (k * p);
    assert(h == ((x * y) as nat) * p) by (nonlinear_arith)
        requires
            h == x * m,
            m == y * p,
    ;
}

/// The hyperperiod is a whole multiple of the absolute value of every
/// period.
pub proof fn lemma_hyperperiod_common_multiple(periods: Seq<i64>)
    ensures
        forall|k: int|
            0 <= k < periods.len() ==> is_multiple(
                hyperperiod_of(periods),
                abs(#[trigger] periods[k] as int),
            ),
    decreases periods.len(),
{
    if periods.len() > 0 {
        let prev = periods.drop_last();
        lemma_hyperperiod_common_multiple(prev);
        let p = abs(periods.last() as int);
        lemma_lcm_multiple(hyperperiod_of(prev), p);
        assert forall|k: int| 0 <= k < periods.len() implies is_multiple(
            hyperperiod_of(periods),
            abs(#[trigger] periods[k] as int),
        ) by {
            if k < periods.len() - 1 {
                assert(prev[k] == periods[k]);
                lemma_multiple_trans(hyperperiod_of(periods), hyperperiod_of(prev), abs(periods[k] as int));
            }
        }
    }
}

/// Relies on num::integer::lcm for `i128`: it returns the least common
/// multiple of the absolute values (zero when either is zero). It negates and
/// multiplies in `i128`, so neither argument is `i128::MIN` and the result
/// fits.
#[verifier::external_body]
fn lcm_i128(a: i128, b: i128) -> (r: i128)
    requires
        a != i128::MIN,
        b != i128::MIN,
        lcm(abs(a as int), abs(b as int)) <= i128::MAX,
    ensures
        r as int == lcm(abs(a as int), abs(b as int)),
{
    num::integer::lcm(a, b)
}

/// Utility functions on tasksets.
pub struct RTUtils;

impl RTUtils {
    /// The hyperperiod of integer periods (in nanoseconds), or `None` where a
    /// step of the fold leaves `i64`. An empty list gives 1.
    pub fn hyperperiod_ns(periods: &Vec<i64>) -> (r: Option<i64>)
        ensures
            r == (if hyperperiod_fits(periods@) {
                Some(hyperperiod_of(periods@) as i64)
            } else {
                None::<i64>
            }),
    {
        let mut acc: i64 = 1;
        let mut i: usize = 0;
        assert(periods@.take(0) =~= Seq::<i64>::empty());
        while i < periods.len()
            invariant
                0 <= i <= periods.len(),
                acc as int == hyperperiod_of(periods@.take(i as int)),
                forall|k: int| 0 < k <= i ==> #[trigger] step_fits(periods@, k),
            decreases periods.len() - i,
        {
            let p = periods[i];
            let ghost next = periods@.take(i + 1);
            assert(next.drop_last() =~= periods@.take(i as int));
            assert(next.last() == p);
            assert(hyperperiod_of(next) == lcm(acc as nat, abs(p as int)));
            if p == i64::MIN {
                assert(!step_fits(periods@, i + 1));
                return None;
            }
            proof {
                lemma_lcm_le_product(acc as nat, abs(p as int));
                assert(acc as nat * abs(p as int) <= 0x7fff_ffff_ffff_ffffnat
                    * 0x8000_0000_0000_0000nat) by (nonlinear_arith)
                    requires
                        acc as nat <= 0x7fff_ffff_ffff_ffffnat,
                        abs(p as int) <= 0x8000_0000_0000_0000nat,
                ;
            }
            let l = lcm_i128(acc as i128, p as i128);
            if l > i64::MAX as i128 {
                assert(!step_fits(periods@, i + 1));
                return None;
            }
            assert(l as int == hyperperiod_of(next));
            assert(hyperperiod_of(periods@.take(i + 1)) <= i64::MAX);
            acc = l as i64;
            assert(step_fits(periods@, i + 1));
            i = i + 1;
        }
        assert(periods@.take(periods@.len() as int) =~= periods@);
        Some(acc)
    }

    /// Whether adjacent keys never decrease; true for zero or one key.
    pub fn is_sorted_by_key(keys: &Vec<i64>) -> (r: bool)
        ensures
            r == sorted_by_key(keys@),
    {
        let mut i: usize = 1;
        while i < keys.len()
            invariant
                1 <= i,
                forall|j: int| 0 <= j < i - 1 && j < keys@.len() - 1 ==> #[trigger] keys@[j] <= keys@[j + 1],
            decreases keys.len() - i,
        {
            if keys[i - 1] > keys[i] {
                assert(keys@[i - 1] > keys@[i - 1 + 1]);
                return false;
            }
            i = i + 1;
        }
        true
    }

    /// The position of the last largest key, or `None` for no keys.
    pub fn last_max_index(keys: &Vec<i64>) -> (r: Option<usize>)
        ensures
            r is None <==> keys@.len() == 0,
            r matches Some(m) ==> is_last_max(keys@, m as int),
    {
        if keys.len() == 0 {
            return None;
        }
        let mut m: usize = 0;
        let mut i: usize = 1;
        while i < keys.len()
            invariant
                1 <= i <= keys@.len(),
                m < i,
                forall|j: int| 0 <= j < i ==> #[trigger] keys@[j] <= keys@[m as int],
                forall|j: int| m < j < i ==> #[trigger] keys@[j] < keys@[m as int],
            decreases keys.len() - i,
        {
            if keys[i] >= keys[m] {
                m = i;
            }
            i = i + 1;
        }
        Some(m)
    }
}

} // verus!
