use vstd::prelude::*;

verus! {

/// Most samples a `Vec<i64>` can hold: std never allocates more than
/// `isize::MAX` bytes, and a sample takes eight.
pub const MAX_SAMPLES: u64 = 0x0fff_ffff_ffff_ffff;

/// Largest square of a difference of two `i64` values, `(2^64 - 1)^2`.
pub open spec fn max_square() -> int {
    0xffff_ffff_ffff_fffe_0000_0000_0000_0001
}

/// Sum of the samples.
pub open spec fn total(s: Seq<i64>) -> int
    decreases s.len(),
{
    if s.len() == 0 { 0 } else { total(s.drop_last()) + s.last() }
}

/// Sum over the samples of `(n * x - t)^2`. With `n` the number of samples
/// and `t` their total this is `n^2` times the sum of squared deviations
/// from the mean, so the population variance is this over `n^3`.
pub open spec fn scaled_square_deviations(s: Seq<i64>, n: int, t: int) -> int
    decreases s.len(),
{
    if s.len() == 0 {
        0
    } else {
        scaled_square_deviations(s.drop_last(), n, t) + (n * s.last() - t) * (n * s.last() - t)
    }
}

/// Sum over the samples of `(x - q)^2`.
pub open spec fn squares_about(s: Seq<i64>, q: int) -> int
    decreases s.len(),
{
    if s.len() == 0 { 0 } else { squares_about(s.drop_last(), q) + (s.last() - q) * (s.last() - q) }
}

/// Mean of the samples rounded to the nearest integer, halves upward:
/// `floor(t / n + 1/2)` with `t` the total and `n` the count.
pub open spec fn mean_nearest(s: Seq<i64>) -> int {
    let n = s.len() as int;
    (2 * total(s) + n) / (2 * n)
}

/// Four times the scaled sum of squared deviations: the population
/// variance is this over `4 * n^3`.
pub open spec fn four_scaled_square_deviations(s: Seq<i64>) -> int {
    4 * scaled_square_deviations(s, s.len() as int, total(s))
}

/// Whether `dev` is the population standard deviation (dividing by the
/// number of samples) rounded to the nearest integer, that is
/// `(dev - 1/2)^2 <= variance < (dev + 1/2)^2`.
pub open spec fn is_nearest_deviation(s: Seq<i64>, dev: int) -> bool {
    let n = s.len() as int;
    let cube = n * n * n;
    let f = four_scaled_square_deviations(s);
    &&& dev >= 0
    &&& (dev > 0 ==> (2 * dev - 1) * (2 * dev - 1) * cube <= f)
    &&& f < (2 * dev + 1) * (2 * dev + 1) * cube
}

/// Splitting the total as `n * q + r`, the scaled sum of squared deviations
/// is expressed through the squares about `q`.
proof fn lemma_scaled_about(s: Seq<i64>, n: int, q: int, r: int)
    ensures
        scaled_square_deviations(s, n, n * q + r) == n * n * squares_about(s, q) - 2 * n * r * (
        total(s) - s.len() * q) + s.len() * r * r,
    decreases s.len(),
{
    if s.len() > 0 {
        let p = s.drop_last();
        lemma_scaled_about(p, n, q, r);
        let x = s.last() as int;
        let y = x - q;
        let t = n * q + r;
        let sp = scaled_square_deviations(p, n, t);
        let qp = squares_about(p, q);
        let tp = total(p);
        let lp = p.len() as int;
        assert(n * x - t == n * y - r) by (nonlinear_arith)
            requires
                y == x - q,
                t == n * q + r,
        ;
        assert((n * y - r) * (n * y - r) == n * n * (y * y) - 2 * n * r * y + r * r) by (nonlinear_arith);
        assert(n * n * (qp + y * y) == n * n * qp + n * n * (y * y)) by (nonlinear_arith);
        assert(2 * n * r * (tp + x - (lp + 1) * q) == 2 * n * r * (tp - lp * q) + 2 * n * r * y)
            by (nonlinear_arith)
            requires
                y == x - q,
        ;
        assert((lp + 1) * r * r == lp * r * r + r * r) by (nonlinear_arith);
        let e = n * x - t;
        assert(e * e == n * n * (y * y) - 2 * n * r * y + r * r);
        let big = scaled_square_deviations(s, n, t);
        assert(big == sp + e * e);
        let rhs = n * n * squares_about(s, q) - 2 * n * r * (total(s) - s.len() * q) + s.len() * r * r;
        assert(rhs == (n * n * qp + n * n * (y * y)) - (2 * n * r * (tp - lp * q) + 2 * n * r * y) + (lp * r * r + r * r));
        assert(big == rhs);
    } else {
        assert(n * n * 0 - 2 * n * r * (0 - 0 * q) + 0 * r * r == 0) by (nonlinear_arith);
    }
}

/// Whether `4 * (a * n^2 + b * n - r^2) < (2d + 1)^2 * n^2`, computed without
/// leaving 128 bits.
fn below_square(d: u128, a: u128, b: u128, r: u128, n: u128) -> (res: bool)
    requires
        d <= 0xffff_ffff_ffff_ffff,
        1 <= n <= MAX_SAMPLES,
        b < n,
        r < n,
    ensures
        res == (4 * (a * n * n + b * n - r * r) < (2 * d + 1) * (2 * d + 1) * n * n),
{
    assert(d * d + d <= 0xffff_ffff_ffff_ffff_0000_0000_0000_0000) by (nonlinear_arith)
        requires
            d <= 0xffff_ffff_ffff_ffff,
    ;
    let w: u128 = d * d + d;
    assert(n * n <= 0x00ff_ffff_ffff_ffff_e000_0000_0000_0001 && b * n < n * n && r * r < n * n)
        by (nonlinear_arith)
        requires
            1 <= n <= 0x0fff_ffff_ffff_ffff,
            b < n,
            r < n,
    ;
    let nn: i128 = (n * n) as i128;
    let lhs: i128 = 4 * ((b * n) as i128) - 4 * ((r * r) as i128);
    let ghost ai = a as int;
    let ghost ni = n as int;
    let ghost li = lhs as int;
    let ghost sq = (2 * d + 1) * (2 * d + 1);
    assert(sq == 4 * w + 1) by (nonlinear_arith)
        requires
            w == d * d + d,
            sq == (2 * d + 1) * (2 * d + 1),
    ;
    assert(4 * (ai * ni * ni + b * n - r * r) == 4 * ai * (ni * ni) + li) by (nonlinear_arith)
        requires
            li == 4 * (b * n) - 4 * (r * r),
            ni == n,
    ;
    assert((2 * d + 1) * (2 * d + 1) * n * n == sq * (ni * ni)) by (nonlinear_arith)
        requires
            sq == (2 * d + 1) * (2 * d + 1),
            ni == n,
    ;
    assert(-4 * (ni * ni) < li < 4 * (ni * ni));
    if w > a {
        assert(4 * ai * (ni * ni) + li < sq * (ni * ni)) by (nonlinear_arith)
            requires
                sq == 4 * w + 1,
                w > ai,
                li < 4 * (ni * ni),
                ni >= 1,
        ;
        true
    } else if w == a {
        assert((4 * ai * (ni * ni) + li < sq * (ni * ni)) == (li < ni * ni)) by (nonlinear_arith)
            requires
                sq == 4 * ai + 1,
        ;
        lhs < nn
    } else if w + 1 == a {
        assert((4 * ai * (ni * ni) + li < sq * (ni * ni)) == (li < -3 * (ni * ni))) by (nonlinear_arith)
            requires
                sq == 4 * ai - 3,
        ;
        lhs < -3 * nn
    } else {
        assert(!(4 * ai * (ni * ni) + li < sq * (ni * ni))) by (nonlinear_arith)
            requires
                sq == 4 * w + 1,
                w + 2 <= ai,
                li > -4 * (ni * ni),
                ni >= 1,
        ;
        false
    }
}

/// Mean and population standard deviation of the samples, each rounded
/// to the nearest integer. Returns `None` exactly when there are no samples.
pub fn variable_stats(data: &Vec<i64>) -> (r: Option<(i128, u64)>)
    requires
        data@.len() <= MAX_SAMPLES,
    ensures
        r.is_some() == (data@.len() > 0),
        r matches Some((mean, dev)) ==> {
            &&& mean == mean_nearest(data@)
            &&& is_nearest_deviation(data@, dev as int)
        },
{
    let len = data.len();
    if len == 0 {
        return None;
    }
    let n: i128 = len as i128;
    let mut sum: i128 = 0;
    let mut i: usize = 0;
    while i < len
        invariant
            len == data@.len(),
            i <= len <= MAX_SAMPLES,
            sum == total(data@.subrange(0, i as int)),
            i * i64::MIN <= sum <= i * i64::MAX,
        decreases len - i,
    {
        assert(data@.subrange(0, i + 1).drop_last() =~= data@.subrange(0, i as int));
        assert((i + 1) * i64::MIN == i * i64::MIN + i64::MIN) by (nonlinear_arith);
        assert((i + 1) * i64::MAX == i * i64::MAX + i64::MAX) by (nonlinear_arith);
        sum = sum + data[i] as i128;
        i = i + 1;
    }
    assert(data@.subrange(0, len as int) =~= data@);
    let ghost t = sum as int;
    let ghost ni = n as int;
    // The total as n * q + r with 0 <= r < n; q lies between the samples'
    // extremes, so it is an i64.
    let q: i128 = if sum >= 0 {
        sum / n
    } else {
        let c: i128 = ((-sum) + n - 1) / n;
        proof {
            let a: int = -t;
            assert(-(c as int) == (-a) / ni) by (nonlinear_arith)
                requires
                    a > 0,
                    ni > 0,
                    c == (a + ni - 1) / ni,
            ;
        }
        -c
    };
    assert(q == t / ni);
    assert(i64::MIN <= q <= i64::MAX) by (nonlinear_arith)
        requires
            ni >= 1,
            ni * i64::MIN <= t <= ni * i64::MAX,
            q == t / ni,
    ;
    proof {
        vstd::arithmetic::div_mod::lemma_fundamental_div_mod(t, ni);
        vstd::arithmetic::div_mod::lemma_mod_bound(t, ni);
    }
    assert(-0x8000_0000_0000_0000_0000_0000_0000_0000 < n * q < 0x7fff_ffff_ffff_ffff_ffff_ffff_ffff_ffff)
        by (nonlinear_arith)
        requires
            1 <= n <= 0x0fff_ffff_ffff_ffff,
            i64::MIN <= q <= i64::MAX,
    ;
    let rem: i128 = sum - n * q;
    assert(0 <= rem < n);
    let nu: u128 = len as u128;
    // The squares about q as whole multiples of n plus a remainder.
    let mut whole: u128 = 0;
    let mut part: u128 = 0;
    let mut j: usize = 0;
    while j < len
        invariant
            len == data@.len(),
            1 <= len <= MAX_SAMPLES,
            nu == len,
            i64::MIN <= q <= i64::MAX,
            j <= len,
            part < nu,
            whole * nu + part == squares_about(data@.subrange(0, j as int), q as int),
            squares_about(data@.subrange(0, j as int), q as int) <= j * max_square(),
        decreases len - j,
    {
        assert(data@.subrange(0, j + 1).drop_last() =~= data@.subrange(0, j as int));
        let y: i128 = data[j] as i128 - q;
        let m: u128 = if y < 0 { (-y) as u128 } else { y as u128 };
        assert(m * m == y * y && m * m <= max_square()) by (nonlinear_arith)
            requires
                m == (if y < 0 { -y } else { y as int }),
                m <= 0xffff_ffff_ffff_ffff,
        ;
        let sq: u128 = m * m;
        let ghost before = whole * nu + part;
        assert((j + 1) * max_square() == j * max_square() + max_square()) by (nonlinear_arith);
        assert(whole * nu + part + sq <= nu * max_square()) by (nonlinear_arith)
            requires
                whole * nu + part + sq <= (j + 1) * max_square(),
                j + 1 <= nu,
        ;
        let ghost w0 = whole as int;
        let ghost p0 = part as int;
        let qs: u128 = sq / nu;
        let rs: u128 = sq % nu;
        assert(sq == qs * nu + rs && rs < nu) by (nonlinear_arith)
            requires
                qs == sq / nu,
                rs == sq % nu,
                nu >= 1,
        ;
        assert(whole + qs <= max_square()) by (nonlinear_arith)
            requires
                whole * nu + part + sq <= nu * max_square(),
                nu >= 1,
                part >= 0,
                sq == qs * nu + rs,
                rs >= 0,
        ;
        whole = whole + qs;
        part = part + rs;
        if part >= nu {
            part = part - nu;
            whole = whole + 1;
        }
        assert(whole * nu + part == w0 * nu + p0 + qs * nu + rs) by (nonlinear_arith)
            requires
                (whole == w0 + qs && part == p0 + rs) || (whole == w0 + qs + 1 && part == p0 + rs - nu),
        ;
        j = j + 1;
    }
    assert(data@.subrange(0, len as int) =~= data@);
    // The nearest deviation is the least d with 4 * variance < (2d + 1)^2.
    let b: u128 = part;
    let a: u128 = whole;
    let ru: u128 = rem as u128;
    let ghost y_sum = squares_about(data@, q as int);
    let ghost g: int = a * ni * ni + b * ni - ru * ru;
    let ghost f4 = four_scaled_square_deviations(data@);
    proof {
        assert((2 * 0xffff_ffff_ffff_ffffint + 1) * (2 * 0xffff_ffff_ffff_ffffint + 1) == 0x3_ffff_ffff_ffff_fffc_0000_0000_0000_0001) by (nonlinear_arith);
        lemma_scaled_about(data@, ni, q as int, rem as int);
        assert(t == ni * q + rem);
        assert(f4 == 4 * (ni * ni * y_sum - 2 * ni * rem * (t - ni * q) + ni * rem * rem));
        assert(f4 == 4 * ni * g) by (nonlinear_arith)
            requires
                f4 == 4 * (ni * ni * y_sum - 2 * ni * rem * (t - ni * q) + ni * rem * rem),
                t - ni * q == rem,
                y_sum == a * ni + b,
                g == a * ni * ni + b * ni - ru * ru,
                ru == rem,
        ;
        assert(4 * g < 0x3_ffff_ffff_ffff_fffc_0000_0000_0000_0001 * (ni * ni)) by (nonlinear_arith)
            requires
                y_sum == a * ni + b,
                y_sum <= ni * 0xffff_ffff_ffff_fffe_0000_0000_0000_0001,
                g == a * ni * ni + b * ni - ru * ru,
                ni >= 1,
        ;
    }
    let mut lo: u128 = 0;
    let mut hi: u128 = 0xffff_ffff_ffff_ffff;
    assert((2 * hi + 1) * (2 * hi + 1) * ni * ni == 0x3_ffff_ffff_ffff_fffc_0000_0000_0000_0001 * (ni * ni))
        by (nonlinear_arith)
        requires
            hi == 0xffff_ffff_ffff_ffff,
    ;
    while lo < hi
        invariant
            lo <= hi <= 0xffff_ffff_ffff_ffff,
            1 <= nu <= MAX_SAMPLES,
            nu == ni,
            b < nu,
            ru < nu,
            g == a * ni * ni + b * ni - ru * ru,
            4 * g < (2 * hi + 1) * (2 * hi + 1) * ni * ni,
            lo > 0 ==> !(4 * g < (2 * (lo - 1) + 1) * (2 * (lo - 1) + 1) * ni * ni),
        decreases hi - lo,
    {
        let mid: u128 = lo + (hi - lo) / 2;
        if below_square(mid, a, b, ru, nu) {
            hi = mid;
        } else {
            lo = mid + 1;
        }
    }
    proof {
        let d = lo as int;
        assert(f4 < (2 * d + 1) * (2 * d + 1) * (ni * ni * ni)) by (nonlinear_arith)
            requires
                f4 == 4 * ni * g,
                4 * g < (2 * d + 1) * (2 * d + 1) * ni * ni,
                ni >= 1,
        ;
        if d > 0 {
            assert((2 * d - 1) * (2 * d - 1) * (ni * ni * ni) <= f4) by (nonlinear_arith)
                requires
                    f4 == 4 * ni * g,
                    !(4 * g < (2 * (d - 1) + 1) * (2 * (d - 1) + 1) * ni * ni),
                    ni >= 1,
            ;
        }
    }
    let dev: u64 = lo as u64;
    let num: i128 = 2 * sum + n;
    let den: i128 = 2 * n;
    let mean: i128 = if num >= 0 {
        num / den
    } else {
        let c: i128 = ((-num) + den - 1) / den;
        proof {
            let a: int = -(num as int);
            let bb: int = den as int;
            assert(-(c as int) == (-a) / bb) by (nonlinear_arith)
                requires
                    a > 0,
                    bb > 0,
                    c == (a + bb - 1) / bb,
            ;
        }
        -c
    };
    Some((mean, dev))
}

} // verus!
