use vstd::prelude::*;

verus! {

/// Absolute value of a mathematical integer.
pub open spec fn abs(x: int) -> int {
    if x < 0 {
        -x
    } else {
        x
    }
}

/// The `k`-th multiple of `d`.
pub open spec fn multiple(d: int, k: int) -> int {
    d * k
}

/// `d` divides `x`: some integer multiple of `d` is `x`.
pub open spec fn divides(d: int, x: int) -> bool {
    exists|k: int| #[trigger] multiple(d, k) == x
}

/// Euclid's greatest common divisor on natural numbers.
pub open spec fn spec_gcd(a: nat, b: nat) -> nat
    decreases b,
{
    if b == 0 {
        a
    } else {
        spec_gcd(b, a % b)
    }
}

/// The greatest common divisor of two machine integers, taken on their absolute values.
pub open spec fn gcd_of(a: int, b: int) -> int {
    spec_gcd(abs(a) as nat, abs(b) as nat) as int
}

/// Least common multiple as the library computes it: zero when either argument is
/// zero, otherwise `|a| / gcd(a, b) * |b|`.
pub open spec fn lcm_of(a: int, b: int) -> int {
    if a == 0 || b == 0 {
        0
    } else {
        (abs(a) / gcd_of(a, b)) * abs(b)
    }
}

/// The arguments on which the computation of `gcd` stays within `isize`: the
/// remainder `isize::MIN % -1` and the absolute value of `isize::MIN` both overflow.
pub open spec fn gcd_defined(a: int, b: int) -> bool {
    !((a == isize::MIN || b == isize::MIN) && (a == 0 || b == 0 || a == -1 || b == -1 || a
        == b))
}

/// The arguments on which `lcm` computes without overflow.
pub open spec fn lcm_defined(a: int, b: int) -> bool {
    a == 0 || b == 0 || (a != isize::MIN && b != isize::MIN && lcm_of(a, b) <= isize::MAX)
}

/// The left fold of `lcm` over a non-empty sequence, starting from its first element
/// (which is kept as it is, sign included); zero for the empty sequence.
pub open spec fn lcm_fold(s: Seq<isize>) -> int
    decreases s.len(),
{
    if s.len() == 0 {
        0
    } else if s.len() == 1 {
        s[0] as int
    } else {
        lcm_of(lcm_fold(s.drop_last()), s.last() as int)
    }
}

/// Every step of the fold of `lcm` over `s` stays within `isize`.
pub open spec fn lcm_fold_defined(s: Seq<isize>) -> bool {
    forall|i: int|
        1 <= i < s.len() ==> #[trigger] lcm_defined(lcm_fold(s.take(i)), s[i] as int)
}

proof fn lemma_mod_neg_divisor(x: int, d: int)
    requires
        d != 0,
    ensures
        x % d == x % abs(d),
{
    if d < 0 {
        let q = x / d;
        let r = x % d;
        assert(x == d * q + r && 0 <= r < abs(d)) by (nonlinear_arith)
            requires
                d != 0,
                q == x / d,
                r == x % d,
        ;
        assert(x == abs(d) * (-q) + r) by (nonlinear_arith)
            requires
                x == d * q + r,
                d < 0,
        ;
        vstd::arithmetic::div_mod::lemma_fundamental_div_mod_converse(x, abs(d), -q, r);
    }
}

/// The remainder of a truncating division has the magnitude of the Euclidean
/// remainder of the magnitudes.
proof fn lemma_abs_rem(a: int, b: int, r: int)
    requires
        b != 0,
        r == (if a >= 0 {
            a % b
        } else {
            -((-a) % b)
        }),
    ensures
        abs(r) == abs(a) % abs(b),
        abs(r) < abs(b),
{
    lemma_mod_neg_divisor(abs(a), b);
}

/// The greatest common divisor is zero only when both arguments are.
pub proof fn lemma_gcd_zero(a: nat, b: nat)
    ensures
        spec_gcd(a, b) == 0 <==> (a == 0 && b == 0),
    decreases b,
{
    if b != 0 {
        lemma_gcd_zero(b, a % b);
    }
}

/// The greatest common divisor divides both of its arguments.
pub proof fn lemma_gcd_divides(a: nat, b: nat)
    ensures
        divides(spec_gcd(a, b) as int, a as int),
        divides(spec_gcd(a, b) as int, b as int),
    decreases b,
{
    let g = spec_gcd(a, b) as int;
    if b == 0 {
        assert(multiple(g, 1) == a as int);
        assert(multiple(g, 0) == b as int);
    } else {
        lemma_gcd_divides(b, a % b);
        let kb = choose|k: int| multiple(g, k) == b as int;
        let kr = choose|k: int| multiple(g, k) == (a % b) as int;
        let q = a as int / b as int;
        assert(a as int == b as int * q + (a % b) as int) by (nonlinear_arith)
            requires
                b != 0,
                q == a as int / b as int,
        ;
        assert(a as int == g * (kb * q + kr)) by (nonlinear_arith)
            requires
                a as int == b as int * q + (a % b) as int,
                b as int == g * kb,
                (a % b) as int == g * kr,
        ;
        assert(multiple(g, kb * q + kr) == a as int);
    }
}

/// Every common divisor of the arguments divides their greatest common divisor.
pub proof fn lemma_gcd_greatest(a: nat, b: nat, d: int)
    requires
        divides(d, a as int),
        divides(d, b as int),
    ensures
        divides(d, spec_gcd(a, b) as int),
    decreases b,
{
    if b != 0 {
        let ka = choose|k: int| multiple(d, k) == a as int;
        let kb = choose|k: int| multiple(d, k) == b as int;
        let q = a as int / b as int;
        assert(a as int == b as int * q + (a % b) as int) by (nonlinear_arith)
            requires
                b != 0,
                q == a as int / b as int,
        ;
        assert((a % b) as int == d * (ka - kb * q)) by (nonlinear_arith)
            requires
                a as int == b as int * q + (a % b) as int,
                a as int == d * ka,
                b as int == d * kb,
        ;
        assert(multiple(d, ka - kb * q) == (a % b) as int);
        lemma_gcd_greatest(b, a % b, d);
    }
}

/// Two natural numbers that divide each other are equal.
proof fn lemma_divides_antisym(x: nat, y: nat)
    requires
        divides(x as int, y as int),
        divides(y as int, x as int),
    ensures
        x == y,
{
    let k1 = choose|k: int| multiple(x as int, k) == y as int;
    let k2 = choose|k: int| multiple(y as int, k) == x as int;
    if x != 0 && y != 0 {
        assert(x as int == x as int * (k1 * k2)) by (nonlinear_arith)
            requires
                y as int == x as int * k1,
                x as int == y as int * k2,
        ;
        assert(k1 * k2 == 1) by (nonlinear_arith)
            requires
                x as int == x as int * (k1 * k2),
                x != 0,
        ;
        assert(k1 == 1 || k1 == -1) by (nonlinear_arith)
            requires
                k1 * k2 == 1,
        ;
    } else if x == 0 {
        assert(y as int == 0) by (nonlinear_arith)
            requires
                y as int == x as int * k1,
                x == 0,
        ;
    } else {
        assert(x as int == 0) by (nonlinear_arith)
            requires
                x as int == y as int * k2,
                y == 0,
        ;
    }
}

/// The greatest common divisor does not depend on the order of its arguments.
pub proof fn lemma_gcd_commutative(a: nat, b: nat)
    ensures
        spec_gcd(a, b) == spec_gcd(b, a),
{
    lemma_gcd_divides(a, b);
    lemma_gcd_divides(b, a);
    lemma_gcd_greatest(a, b, spec_gcd(b, a) as int);
    lemma_gcd_greatest(b, a, spec_gcd(a, b) as int);
    lemma_divides_antisym(spec_gcd(a, b), spec_gcd(b, a));
}

/// The greatest common divisor of two integers, computed by Euclid's algorithm on the
/// truncating remainder; the result is non-negative.
pub fn gcd(a: isize, b: isize) -> (r: isize)
    requires
        gcd_defined(a as int, b as int),
    ensures
        r as int == gcd_of(a as int, b as int),
        r >= 0,
    decreases abs(b as int),
{
    if b == 0 {
        if a < 0 {
            -a
        } else {
            a
        }
    } else {
        let rem = a % b;
        proof {
            lemma_abs_rem(a as int, b as int, rem as int);
            assert(spec_gcd(abs(a as int) as nat, abs(b as int) as nat) == spec_gcd(
                abs(b as int) as nat,
                abs(rem as int) as nat,
            ));
            if b == isize::MIN {
                vstd::arithmetic::div_mod::lemma_small_mod(abs(a as int) as nat, abs(b as int) as nat);
                assert(rem == a);
            }
        }
        gcd(b, rem)
    }
}

/// Divisibility is transitive.
pub proof fn lemma_divides_trans(a: int, b: int, c: int)
    requires
        divides(a, b),
        divides(b, c),
    ensures
        divides(a, c),
{
    let k1 = choose|k: int| multiple(a, k) == b;
    let k2 = choose|k: int| multiple(b, k) == c;
    assert(c == a * (k1 * k2)) by (nonlinear_arith)
        requires
            b == a * k1,
            c == b * k2,
    ;
    assert(multiple(a, k1 * k2) == c);
}

/// `lcm_of(a, b)` is a multiple of both `a` and `b`.
pub proof fn lemma_lcm_common_multiple(a: int, b: int)
    ensures
        divides(a, lcm_of(a, b)),
        divides(b, lcm_of(a, b)),
{
    if a == 0 || b == 0 {
        assert(multiple(a, 0) == lcm_of(a, b));
        assert(multiple(b, 0) == lcm_of(a, b));
    } else {
        let x = abs(a) as nat;
        let y = abs(b) as nat;
        let g = spec_gcd(x, y) as int;
        lemma_gcd_zero(x, y);
        lemma_gcd_divides(x, y);
        let ka = choose|k: int| multiple(g, k) == x as int;
        let kb = choose|k: int| multiple(g, k) == y as int;
        assert(x as int / g == ka) by (nonlinear_arith)
            requires
                x as int == g * ka,
                g > 0,
        ;
        let l = lcm_of(a, b);
        assert(l == ka * (y as int));
        let sa: int = if a < 0 { -1 } else { 1 };
        let sb: int = if b < 0 { -1 } else { 1 };
        assert(l == a * (sa * kb)) by (nonlinear_arith)
            requires
                l == ka * (y as int),
                y as int == g * kb,
                x as int == g * ka,
                x as int == a * sa,
        ;
        assert(l == b * (sb * ka)) by (nonlinear_arith)
            requires
                l == ka * (y as int),
                y as int == b * sb,
        ;
        assert(multiple(a, sa * kb) == l);
        assert(multiple(b, sb * ka) == l);
    }
}

/// The least common multiple of two integers: zero when either is zero, otherwise
/// `|a| / gcd(a, b) * |b|`.
pub fn lcm(a: isize, b: isize) -> (r: isize)
    requires
        lcm_defined(a as int, b as int),
    ensures
        r as int == lcm_of(a as int, b as int),
{
    if a == 0 || b == 0 {
        0
    } else {
        let g = gcd(a, b);
        proof {
            lemma_gcd_zero(abs(a as int) as nat, abs(b as int) as nat);
        }
        let abs_a: isize = if a < 0 {
            -a
        } else {
            a
        };
        let abs_b: isize = if b < 0 {
            -b
        } else {
            b
        };
        let q = abs_a / g;
        proof {
            vstd::arithmetic::div_mod::lemma_div_is_ordered_by_denominator(abs_a as int, 1, g as int);
            assert(q as int * abs_b as int == lcm_of(a as int, b as int));
            assert(0 <= q as int * abs_b as int) by (nonlinear_arith)
                requires
                    q >= 0,
                    abs_b >= 0,
            ;
        }
        q * abs_b
    }
}

/// The least common multiple of all the numbers, folded from the left; zero for an
/// empty vector.
pub fn multiple_lcm(numbers: Vec<isize>) -> (r: isize)
    requires
        lcm_fold_defined(numbers@),
    ensures
        r as int == lcm_fold(numbers@),
{
    let n = numbers.len();
    if n == 0 {
        return 0;
    }
    let mut acc = numbers[0];
    let mut i: usize = 1;
    assert(numbers@.take(1).drop_last() =~= Seq::<isize>::empty());
    while i < n
        invariant
            1 <= i <= n,
            n == numbers@.len(),
            lcm_fold_defined(numbers@),
            acc as int == lcm_fold(numbers@.take(i as int)),
        decreases n - i,
    {
        assert(lcm_defined(lcm_fold(numbers@.take(i as int)), numbers@[i as int] as int));
        assert(numbers@.take(i + 1).drop_last() =~= numbers@.take(i as int));
        acc = lcm(acc, numbers[i]);
        i = i + 1;
    }
    assert(numbers@.take(n as int) =~= numbers@);
    acc
}

/// The least common multiple of two integers as `lcm` computes it, when that computes
/// without overflow (see `lcm_defined`); `None` otherwise.
pub fn checked_lcm(a: isize, b: isize) -> (r: Option<isize>)
    ensures
        r is Some <==> lcm_defined(a as int, b as int),
        r is Some ==> r->0 as int == lcm_of(a as int, b as int),
{
    if a == 0 || b == 0 {
        return Some(0);
    }
    if a == isize::MIN || b == isize::MIN {
        return None;
    }
    let g = gcd(a, b);
    proof {
        lemma_gcd_zero(abs(a as int) as nat, abs(b as int) as nat);
    }
    let abs_a: isize = if a < 0 {
        -a
    } else {
        a
    };
    let abs_b: isize = if b < 0 {
        -b
    } else {
        b
    };
    let q = abs_a / g;
    proof {
        vstd::arithmetic::div_mod::lemma_div_is_ordered_by_denominator(abs_a as int, 1, g as int);
        assert(q as int * abs_b as int == lcm_of(a as int, b as int));
        assert(0 <= q as int * abs_b as int) by (nonlinear_arith)
            requires
                q >= 0,
                abs_b >= 0,
        ;
    }
    q.checked_mul(abs_b)
}

/// The fold of `lcm` over the numbers as `multiple_lcm` computes it, when every step
/// computes without overflow (see `lcm_fold_defined`); `None` otherwise.
pub fn checked_multiple_lcm(numbers: &Vec<isize>) -> (r: Option<isize>)
    ensures
        r is Some <==> lcm_fold_defined(numbers@),
        r is Some ==> r->0 as int == lcm_fold(numbers@),
{
    let n = numbers.len();
    if n == 0 {
        return Some(0);
    }
    let mut acc = numbers[0];
    let mut i: usize = 1;
    assert(numbers@.take(1).drop_last() =~= Seq::<isize>::empty());
    while i < n
        invariant
            1 <= i <= n,
            n == numbers@.len(),
            forall|j: int|
                1 <= j < i ==> #[trigger] lcm_defined(lcm_fold(numbers@.take(j)), numbers@[j] as int),
            acc as int == lcm_fold(numbers@.take(i as int)),
        decreases n - i,
    {
        assert(numbers@.take(i + 1).drop_last() =~= numbers@.take(i as int));
        match checked_lcm(acc, numbers[i]) {
            Some(v) => {
                acc = v;
            },
            None => {
                assert(!lcm_defined(lcm_fold(numbers@.take(i as int)), numbers@[i as int] as int));
                return None;
            },
        }
        i = i + 1;
    }
    assert(numbers@.take(n as int) =~= numbers@);
    Some(acc)
}

/// Every number of the sequence divides the fold of `lcm` over it.
pub proof fn lemma_lcm_fold_common_multiple(s: Seq<isize>, j: int)
    requires
        0 <= j < s.len(),
    ensures
        divides(s[j] as int, lcm_fold(s)),
    decreases s.len(),
{
    if s.len() == 1 {
        assert(multiple(s[j] as int, 1) == lcm_fold(s));
    } else {
        let p = s.drop_last();
        lemma_lcm_common_multiple(lcm_fold(p), s.last() as int);
        if j < s.len() - 1 {
            lemma_lcm_fold_common_multiple(p, j);
            assert(p[j] == s[j]);
            lemma_divides_trans(s[j] as int, lcm_fold(p), lcm_fold(s));
        }
    }
}

} // verus!
