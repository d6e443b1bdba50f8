use vstd::prelude::*;

verus! {

/// Fixed-point scale: a real coordinate v is represented by the integer
/// round(v * SCALE). Sines and cosines are scaled the same way, so they
/// range over [0, SCALE].
pub const SCALE: i64 = 65536;

/// Largest magnitude accepted for a scaled coordinate or length. At
/// SCALE = 2^16 this admits real values up to 2^12 = 4096, and keeps
/// every intermediate product of the exact hit test inside i128.
pub const COORD_LIMIT: i64 = 268435456;

/// `u = a / b` (with `b > 0`) is a forward ray parameter at which the ray
/// through the transverse offset `(x, y)` lies inside the rotated
/// cylinder: the point sits within the height window of the axis and
/// strictly closer than the radius to the axis line.
///
/// All quantities carry the factor SCALE; the two conditions below are
/// the real conditions `|y*sin + u*cos| <= H/2` and
/// `x^2 + (y*cos - u*sin)^2 < R^2` with denominators cleared (the height
/// condition is multiplied by `2*SCALE^2*b`, the distance condition by
/// `SCALE^4*b^2`).
pub open spec fn hit_at(x: int, y: int, r: int, h: int, s: int, c: int, a: int, b: int) -> bool {
    let k = SCALE as int;
    &&& b > 0
    &&& a >= 0
    &&& -(h * k * b) <= 2 * y * s * b + 2 * a * c
    &&& 2 * y * s * b + 2 * a * c <= h * k * b
    &&& x * x * k * k * b * b + (y * c * b - a * s) * (y * c * b - a * s)
        < r * r * k * k * b * b
}

/// The ray through `(x, y)` hits the rotated cylinder: some forward
/// rational ray parameter satisfies both the height window and the
/// strict radial-distance bound.
pub open spec fn spec_hit(x: int, y: int, r: int, h: int, s: int, c: int) -> bool {
    exists|a: int, b: int| hit_at(x, y, r, h, s, c, a, b)
}

/// The clamped-minimum decision: the branch structure of the exact
/// hit test. `spec_hit` is the meaning; this is the computation.
spec fn algo_hit(x: int, y: int, r: int, h: int, s: int, c: int) -> bool {
    let k = SCALE as int;
    if c == 0 {
        // Axis perpendicular to the beam: the height window does not
        // depend on the ray parameter, and the closest approach is at
        // the source plane.
        &&& -(h * k) <= 2 * y * s
        &&& 2 * y * s <= h * k
        &&& x * x < r * r
    } else {
        // Window of ray parameters allowed by the height bound, as
        // fractions n1/d <= u <= n2/d with d = 2c > 0.
        let n1 = -(h * k) - 2 * y * s;
        let n2 = h * k - 2 * y * s;
        let d = 2 * c;
        if n2 < 0 {
            false
        } else {
            let m = if n1 > 0 { n1 } else { 0 };
            if s == 0 {
                // Distance is independent of the ray parameter.
                x * x * k * k + y * y * (c * c) < r * r * k * k
            } else if y * c * d <= m * s {
                // Unconstrained minimizer y*c/s lies left of the window:
                // evaluate at u = m/d.
                x * x * k * k * d * d + (y * c * d - m * s) * (y * c * d - m * s)
                    < r * r * k * k * d * d
            } else if y * c * d >= n2 * s {
                // Minimizer lies right of the window: evaluate at u = n2/d.
                x * x * k * k * d * d + (y * c * d - n2 * s) * (y * c * d - n2 * s)
                    < r * r * k * k * d * d
            } else {
                // Minimizer is interior: the radial term vanishes there.
                x * x < r * r
            }
        }
    }
}

/// Product bound used to keep the exact arithmetic inside i128.
proof fn lemma_abs_mul(a: int, amax: int, b: int, bmax: int) by (nonlinear_arith)
    requires
        -amax <= a <= amax,
        -bmax <= b <= bmax,
        0 <= amax,
        0 <= bmax,
    ensures
        -(amax * bmax) <= a * b <= amax * bmax,
{
}

/// A square is nonnegative and bounded by the square of the bound.
proof fn lemma_sq_bound(a: int, amax: int) by (nonlinear_arith)
    requires
        -amax <= a <= amax,
        0 <= amax,
    ensures
        0 <= a * a <= amax * amax,
{
}

proof fn lemma_sq_nonneg(t: int) by (nonlinear_arith)
    ensures
        0 <= t * t,
{
}

/// Convexity of the radial term, lower window edge: if the ray
/// parameter `a/b` lies at or beyond the edge `q/d`, and the
/// unconstrained minimizer `p/s` lies at or before it, then the radial
/// bound failing at the edge fails at `a/b` as well.
proof fn lemma_edge_left(
    xx: int,
    rr: int,
    kk: int,
    p: int,
    s: int,
    q: int,
    a: int,
    b: int,
    d: int,
) by (nonlinear_arith)
    requires
        s > 0,
        b > 0,
        d > 0,
        xx >= 0,
        kk >= 0,
        a * d >= q * b,
        p * d <= q * s,
        xx * kk * d * d + (p * d - q * s) * (p * d - q * s) >= rr * kk * d * d,
    ensures
        xx * kk * b * b + (p * b - a * s) * (p * b - a * s) >= rr * kk * b * b,
{
}

/// Convexity of the radial term, upper window edge: mirror image of
/// `lemma_edge_left`.
proof fn lemma_edge_right(
    xx: int,
    rr: int,
    kk: int,
    p: int,
    s: int,
    q: int,
    a: int,
    b: int,
    d: int,
)
    requires
        s > 0,
        b > 0,
        d > 0,
        xx >= 0,
        kk >= 0,
        a * d <= q * b,
        p * d >= q * s,
        xx * kk * d * d + (p * d - q * s) * (p * d - q * s) >= rr * kk * d * d,
    ensures
        xx * kk * b * b + (p * b - a * s) * (p * b - a * s) >= rr * kk * b * b,
{
    let e0 = p * d - q * s;
    let e1 = p * b - a * s;
    assert(a * d * s <= q * b * s) by (nonlinear_arith)
        requires
            a * d <= q * b,
            s > 0,
    ;
    assert(p * d * b >= q * s * b) by (nonlinear_arith)
        requires
            p * d >= q * s,
            b > 0,
    ;
    assert(e1 * d >= e0 * b) by (nonlinear_arith)
        requires
            e1 == p * b - a * s,
            e0 == p * d - q * s,
            a * d * s <= q * b * s,
            p * d * b >= q * s * b,
    ;
    assert(e0 * b >= 0) by (nonlinear_arith)
        requires
            e0 >= 0,
            b > 0,
    ;
    assert(e1 * d * (e1 * d) >= e0 * b * (e0 * b)) by (nonlinear_arith)
        requires
            e1 * d >= e0 * b,
            e0 * b >= 0,
    ;
    assert(e1 * e1 * (d * d) >= e0 * e0 * (b * b)) by (nonlinear_arith)
        requires
            e1 * d * (e1 * d) >= e0 * b * (e0 * b),
    ;
    assert(xx * kk * d * d * (b * b) + e0 * e0 * (b * b) >= rr * kk * d * d * (b * b))
        by (nonlinear_arith)
        requires
            xx * kk * d * d + e0 * e0 >= rr * kk * d * d,
            b > 0,
    ;
    assert(xx * kk * b * b * (d * d) + e1 * e1 * (d * d) >= rr * kk * b * b * (d * d))
        by (nonlinear_arith)
        requires
            xx * kk * d * d * (b * b) + e0 * e0 * (b * b) >= rr * kk * d * d * (b * b),
            e1 * e1 * (d * d) >= e0 * e0 * (b * b),
    ;
    assert(xx * kk * b * b + e1 * e1 >= rr * kk * b * b) by (nonlinear_arith)
        requires
            xx * kk * b * b * (d * d) + e1 * e1 * (d * d) >= rr * kk * b * b * (d * d),
            d > 0,
    ;
}

/// If the clamped-minimum decision accepts, some forward rational ray
/// parameter witnesses the hit.
proof fn lemma_algo_implies_hit(x: int, y: int, r: int, h: int, s: int, c: int)
    requires
        h > 0,
        s >= 0,
        c >= 0,
        s > 0 || c > 0,
        algo_hit(x, y, r, h, s, c),
    ensures
        spec_hit(x, y, r, h, s, c),
{
    let k = SCALE as int;
    assert(k > 0);
    if c == 0 {
        assert(x * x * k * k * 1 * 1 + (y * c * 1 - 0 * s) * (y * c * 1 - 0 * s)
            < r * r * k * k * 1 * 1) by (nonlinear_arith)
            requires
                c == 0,
                k > 0,
                x * x < r * r,
        ;
        assert(hit_at(x, y, r, h, s, c, 0, 1));
    } else {
        let n1 = -(h * k) - 2 * y * s;
        let n2 = h * k - 2 * y * s;
        let d = 2 * c;
        let m = if n1 > 0 { n1 } else { 0 };
        assert(h * k > 0) by (nonlinear_arith)
            requires
                h > 0,
                k > 0,
        ;
        if s == 0 {
            assert(2 * y * s == 0) by (nonlinear_arith)
                requires
                    s == 0,
            ;
            assert((y * c * 1 - 0 * s) * (y * c * 1 - 0 * s) == y * y * (c * c))
                by (nonlinear_arith);
            assert(x * x * k * k * 1 * 1 + (y * c * 1 - 0 * s) * (y * c * 1 - 0 * s)
                < r * r * k * k * 1 * 1) by (nonlinear_arith)
                requires
                    x * x * k * k + y * y * (c * c) < r * r * k * k,
            ;
            assert(hit_at(x, y, r, h, s, c, 0, 1));
        } else if y * c * d <= m * s {
            assert(-(h * k * d) <= 2 * y * s * d + 2 * m * c && 2 * y * s * d + 2 * m * c
                <= h * k * d) by (nonlinear_arith)
                requires
                    d == 2 * c,
                    c > 0,
                    -(h * k) - 2 * y * s <= m,
                    m <= h * k - 2 * y * s,
            ;
            assert(hit_at(x, y, r, h, s, c, m, d));
        } else if y * c * d >= n2 * s {
            assert(-(h * k * d) <= 2 * y * s * d + 2 * n2 * c && 2 * y * s * d + 2 * n2 * c
                <= h * k * d) by (nonlinear_arith)
                requires
                    d == 2 * c,
                    c > 0,
                    -(h * k) - 2 * y * s <= n2,
                    n2 <= h * k - 2 * y * s,
            ;
            assert(hit_at(x, y, r, h, s, c, n2, d));
        } else {
            assert(y * c >= 0) by (nonlinear_arith)
                requires
                    y * c * (2 * c) > m * s,
                    m >= 0,
                    s > 0,
                    c > 0,
            ;
            assert(-(h * k * s) <= 2 * y * s * s + 2 * (y * c) * c && 2 * y * s * s + 2 * (y * c)
                * c <= h * k * s) by (nonlinear_arith)
                requires
                    s > 0,
                    c > 0,
                    y * c * (2 * c) > m * s,
                    y * c * (2 * c) < n2 * s,
                    m >= -(h * k) - 2 * y * s,
                    m >= 0,
                    n2 == h * k - 2 * y * s,
            ;
            assert(x * x * k * k * s * s + (y * c * s - (y * c) * s) * (y * c * s - (y * c) * s)
                < r * r * k * k * s * s) by (nonlinear_arith)
                requires
                    x * x < r * r,
                    k > 0,
                    s > 0,
            ;
            assert(hit_at(x, y, r, h, s, c, y * c, s));
        }
    }
}

/// If the clamped-minimum decision rejects, no forward rational ray
/// parameter witnesses a hit.
proof fn lemma_miss_implies_no_hit(x: int, y: int, r: int, h: int, s: int, c: int)
    requires
        h > 0,
        s >= 0,
        c >= 0,
        s > 0 || c > 0,
        !algo_hit(x, y, r, h, s, c),
    ensures
        !spec_hit(x, y, r, h, s, c),
{
    let k = SCALE as int;
    assert(k > 0);
    let n1 = -(h * k) - 2 * y * s;
    let n2 = h * k - 2 * y * s;
    let d = 2 * c;
    let m = if n1 > 0 { n1 } else { 0 };
    assert forall|a: int, b: int| !hit_at(x, y, r, h, s, c, a, b) by {
        if hit_at(x, y, r, h, s, c, a, b) {
            if c == 0 {
                if 2 * y * s > h * k {
                    assert(false) by (nonlinear_arith)
                        requires
                            b > 0,
                            c == 0,
                            2 * y * s > h * k,
                            2 * y * s * b + 2 * a * c <= h * k * b,
                    ;
                } else if 2 * y * s < -(h * k) {
                    assert(false) by (nonlinear_arith)
                        requires
                            b > 0,
                            c == 0,
                            2 * y * s < -(h * k),
                            -(h * k * b) <= 2 * y * s * b + 2 * a * c,
                    ;
                } else {
                    assert(false) by (nonlinear_arith)
                        requires
                            b > 0,
                            x * x >= r * r,
                            x * x * k * k * b * b + (y * c * b - a * s) * (y * c * b - a * s)
                                < r * r * k * k * b * b,
                    ;
                }
            } else {
                if n2 < 0 {
                    assert(false) by (nonlinear_arith)
                        requires
                            a >= 0,
                            b > 0,
                            c > 0,
                            h * k - 2 * y * s < 0,
                            2 * y * s * b + 2 * a * c <= h * k * b,
                    ;
                } else if s == 0 {
                    assert(false) by (nonlinear_arith)
                        requires
                            b > 0,
                            s == 0,
                            x * x * k * k + y * y * (c * c) >= r * r * k * k,
                            x * x * k * k * b * b + (y * c * b - a * s) * (y * c * b - a * s)
                                < r * r * k * k * b * b,
                    ;
                } else if y * c * d <= m * s {
                    lemma_sq_nonneg(x);
                    lemma_sq_nonneg(k);
                    assert(a * d >= m * b) by (nonlinear_arith)
                        requires
                            a >= 0,
                            b > 0,
                            c > 0,
                            d == 2 * c,
                            m == -(h * k) - 2 * y * s || m == 0,
                            -(h * k * b) <= 2 * y * s * b + 2 * a * c,
                    ;
                    assert((x * x) * (k * k) * d * d + ((y * c) * d - m * s) * ((y * c) * d - m
                        * s) >= (r * r) * (k * k) * d * d) by (nonlinear_arith)
                        requires
                            x * x * k * k * d * d + (y * c * d - m * s) * (y * c * d - m * s)
                                >= r * r * k * k * d * d,
                    ;
                    lemma_edge_left(x * x, r * r, k * k, y * c, s, m, a, b, d);
                    assert(x * x * k * k * b * b + (y * c * b - a * s) * (y * c * b - a * s)
                        >= r * r * k * k * b * b) by (nonlinear_arith)
                        requires
                            (x * x) * (k * k) * b * b + ((y * c) * b - a * s) * ((y * c) * b - a
                                * s) >= (r * r) * (k * k) * b * b,
                    ;
                    assert(false);
                } else if y * c * d >= n2 * s {
                    lemma_sq_nonneg(x);
                    lemma_sq_nonneg(k);
                    assert(a * d <= n2 * b) by (nonlinear_arith)
                        requires
                            b > 0,
                            c > 0,
                            d == 2 * c,
                            n2 == h * k - 2 * y * s,
                            2 * y * s * b + 2 * a * c <= h * k * b,
                    ;
                    assert((x * x) * (k * k) * d * d + ((y * c) * d - n2 * s) * ((y * c) * d - n2
                        * s) >= (r * r) * (k * k) * d * d) by (nonlinear_arith)
                        requires
                            x * x * k * k * d * d + (y * c * d - n2 * s) * (y * c * d - n2 * s)
                                >= r * r * k * k * d * d,
                    ;
                    lemma_edge_right(x * x, r * r, k * k, y * c, s, n2, a, b, d);
                    assert(x * x * k * k * b * b + (y * c * b - a * s) * (y * c * b - a * s)
                        >= r * r * k * k * b * b) by (nonlinear_arith)
                        requires
                            (x * x) * (k * k) * b * b + ((y * c) * b - a * s) * ((y * c) * b - a
                                * s) >= (r * r) * (k * k) * b * b,
                    ;
                    assert(false);
                } else {
                    assert(false) by (nonlinear_arith)
                        requires
                            b > 0,
                            x * x >= r * r,
                            x * x * k * k * b * b + (y * c * b - a * s) * (y * c * b - a * s)
                                < r * r * k * k * b * b,
                    ;
                }
            }
        }
    }
    assert(!spec_hit(x, y, r, h, s, c));
}

/// The clamped-minimum decision agrees with the existential hit
/// predicate everywhere on the sampler's domain.
proof fn lemma_hit_iff(x: int, y: int, r: int, h: int, s: int, c: int)
    requires
        h > 0,
        s >= 0,
        c >= 0,
        s > 0 || c > 0,
    ensures
        spec_hit(x, y, r, h, s, c) == algo_hit(x, y, r, h, s, c),
{
    if algo_hit(x, y, r, h, s, c) {
        lemma_algo_implies_hit(x, y, r, h, s, c);
    } else {
        lemma_miss_implies_no_hit(x, y, r, h, s, c);
    }
}

/// For the untilted cylinder (theta = 0, axis along the beam), the hit
/// region is exactly the open disk of the cylinder's radius: the height
/// of the cylinder plays no role.
pub proof fn lemma_axis_aligned_disk(x: int, y: int, r: int, h: int)
    requires
        h > 0,
    ensures
        spec_hit(x, y, r, h, 0, SCALE as int) == (x * x + y * y < r * r),
{
    let k = SCALE as int;
    if x * x + y * y < r * r {
        assert(h * k > 0) by (nonlinear_arith)
            requires
                h > 0,
                k > 0,
        ;
        assert(x * x * k * k * 1 * 1 + (y * k * 1 - 0 * 0) * (y * k * 1 - 0 * 0)
            < r * r * k * k * 1 * 1) by (nonlinear_arith)
            requires
                x * x + y * y < r * r,
                k > 0,
        ;
        assert(hit_at(x, y, r, h, 0, k, 0, 1));
    } else {
        assert forall|a: int, b: int| !hit_at(x, y, r, h, 0, k, a, b) by {
            if hit_at(x, y, r, h, 0, k, a, b) {
                assert(false) by (nonlinear_arith)
                    requires
                        b > 0,
                        x * x + y * y >= r * r,
                        x * x * k * k * b * b + (y * k * b - a * 0) * (y * k * b - a * 0)
                            < r * r * k * k * b * b,
                ;
            }
        }
    }
}

/// A ray whose offset lies exactly on the cylinder's surface circle is
/// a miss: the radial comparison is strict.
pub proof fn lemma_boundary_miss(x: int, y: int, r: int, h: int)
    requires
        h > 0,
        x * x + y * y == r * r,
    ensures
        !spec_hit(x, y, r, h, 0, SCALE as int),
{
    lemma_axis_aligned_disk(x, y, r, h);
}

/// Growing the cylinder's height never turns a hit into a miss: the
/// height window only widens, so the same ray parameter still works.
pub proof fn lemma_hit_monotone_in_height(
    x: int,
    y: int,
    r: int,
    h1: int,
    h2: int,
    s: int,
    c: int,
)
    requires
        0 < h1 <= h2,
        spec_hit(x, y, r, h1, s, c),
    ensures
        spec_hit(x, y, r, h2, s, c),
{
    let k = SCALE as int;
    let (a, b) = choose|a: int, b: int| hit_at(x, y, r, h1, s, c, a, b);
    assert(hit_at(x, y, r, h1, s, c, a, b));
    assert(h1 * k * b <= h2 * k * b && -(h2 * k * b) <= -(h1 * k * b)) by (nonlinear_arith)
        requires
            h1 <= h2,
            k > 0,
            b > 0,
    ;
    assert(hit_at(x, y, r, h2, s, c, a, b));
}

/// Soundness of the sampling rectangle: when the scaled sine and cosine
/// are close enough to the unit circle (within the slack that rounding
/// to SCALE can introduce), every hit lies strictly inside
/// `|x| < 1.5 * r` and `|y| <= 1.5 * (r + h/2)`, the half-extents the
/// estimator samples over (here in the form `4|y| <= 3(h + 2r)`).
pub proof fn lemma_hit_inside_sampling_rect(x: int, y: int, r: int, h: int, s: int, c: int)
    requires
        h > 0,
        r > 0,
        0 <= s <= SCALE as int,
        0 <= c <= SCALE as int,
        3 * (s * s + c * c) >= 2 * (SCALE as int) * (SCALE as int),
        spec_hit(x, y, r, h, s, c),
    ensures
        x * x < r * r,
        -(3 * (h + 2 * r)) <= 4 * y <= 3 * (h + 2 * r),
{
    let k = SCALE as int;
    let (a, b) = choose|a: int, b: int| hit_at(x, y, r, h, s, c, a, b);
    assert(hit_at(x, y, r, h, s, c, a, b));
    // The radial bound at the witness splits into its two components.
    assert(x * x < r * r && (y * c * b - a * s) * (y * c * b - a * s) < r * r * k * k * b * b)
        by (nonlinear_arith)
        requires
            b > 0,
            x * x * k * k * b * b + (y * c * b - a * s) * (y * c * b - a * s)
                < r * r * k * k * b * b,
            k > 0,
    ;
    assert(-(r * k * b) < y * c * b - a * s < r * k * b) by (nonlinear_arith)
        requires
            (y * c * b - a * s) * (y * c * b - a * s) < r * r * k * k * b * b,
            r > 0,
            k > 0,
            b > 0,
    ;
    // 2*y*(s*s + c*c)*b = s*(2*y*s*b + 2*a*c) + 2*c*(y*c*b - a*s), so the
    // height window and the radial bound together confine y.
    assert(s * (2 * y * s * b + 2 * a * c) == 2 * y * s * b * s + 2 * a * c * s)
        by (nonlinear_arith);
    assert(2 * c * (y * c * b - a * s) == 2 * y * c * b * c - 2 * a * c * s)
        by (nonlinear_arith);
    assert(2 * y * (s * s + c * c) * b == 2 * y * s * b * s + 2 * y * c * b * c)
        by (nonlinear_arith);
    assert(2 * y * (s * s + c * c) * b == s * (2 * y * s * b + 2 * a * c) + 2 * c * (y * c * b - a
        * s));
    assert(-(h * (k * k) * b) <= s * (2 * y * s * b + 2 * a * c) <= h * (k * k) * b)
        by (nonlinear_arith)
        requires
            0 <= s <= k,
            h > 0,
            k > 0,
            b > 0,
            -(h * k * b) <= 2 * y * s * b + 2 * a * c <= h * k * b,
    ;
    assert(-(2 * (r * (k * k) * b)) <= 2 * c * (y * c * b - a * s) <= 2 * (r * (k * k) * b))
        by (nonlinear_arith)
        requires
            0 <= c <= k,
            r > 0,
            k > 0,
            b > 0,
            -(r * k * b) < y * c * b - a * s < r * k * b,
    ;
    assert(-((h + 2 * r) * (k * k) * b) <= 2 * y * (s * s + c * c) * b <= (h + 2 * r) * (k * k)
        * b) by (nonlinear_arith)
        requires
            2 * y * (s * s + c * c) * b == s * (2 * y * s * b + 2 * a * c) + 2 * c * (y * c * b
                - a * s),
            -(h * (k * k) * b) <= s * (2 * y * s * b + 2 * a * c) <= h * (k * k) * b,
            -(2 * (r * (k * k) * b)) <= 2 * c * (y * c * b - a * s) <= 2 * (r * (k * k) * b),
    ;
    assert(-(3 * (h + 2 * r)) <= 4 * y <= 3 * (h + 2 * r)) by (nonlinear_arith)
        requires
            b > 0,
            k > 0,
            3 * (s * s + c * c) >= 2 * k * k,
            -((h + 2 * r) * (k * k) * b) <= 2 * y * (s * s + c * c) * b <= (h + 2 * r) * (k * k)
                * b,
            h + 2 * r > 0,
    ;
}

/// Exact hit test on scaled-integer inputs.
///
/// `x`, `y` are the transverse ray offset, `radius` and `height` the
/// cylinder dimensions, and `sin_t`, `cos_t` the scaled sine and cosine
/// of the tilt angle theta in [0, pi/2]; every argument carries the
/// factor SCALE. The decision is exact: the result states precisely
/// whether some forward ray parameter meets both the height window and
/// the strict radial bound.
pub fn ray_intersects_rotated_cylinder(
    x: i64,
    y: i64,
    radius: i64,
    height: i64,
    sin_t: i64,
    cos_t: i64,
) -> (res: bool)
    requires
        -COORD_LIMIT <= x <= COORD_LIMIT,
        -COORD_LIMIT <= y <= COORD_LIMIT,
        0 < radius <= COORD_LIMIT,
        0 < height <= COORD_LIMIT,
        0 <= sin_t <= SCALE,
        0 <= cos_t <= SCALE,
        sin_t > 0 || cos_t > 0,
    ensures
        res == spec_hit(x as int, y as int, radius as int, height as int, sin_t as int,
            cos_t as int),
{
    proof {
        lemma_hit_iff(x as int, y as int, radius as int, height as int, sin_t as int,
            cos_t as int);
    }
    let xi: i128 = x as i128;
    let yi: i128 = y as i128;
    let ri: i128 = radius as i128;
    let hi: i128 = height as i128;
    let si: i128 = sin_t as i128;
    let ci: i128 = cos_t as i128;

    proof {
        assert(SCALE == 65536);
        assert(COORD_LIMIT == 0x1000_0000);
        lemma_abs_mul(2 * (y as int), 0x2000_0000, sin_t as int, 0x1_0000);
        lemma_abs_mul(height as int, 0x1000_0000, SCALE as int, 0x1_0000);
        lemma_sq_bound(x as int, 0x1000_0000);
        lemma_sq_bound(radius as int, 0x1000_0000);
    }
    let ys2: i128 = 2 * yi * si;
    let hk: i128 = hi * (SCALE as i128);
    let xx: i128 = xi * xi;
    let rr: i128 = ri * ri;

    if cos_t == 0 {
        -hk <= ys2 && ys2 <= hk && xx < rr
    } else {
        let n2: i128 = hk - ys2;
        if n2 < 0 {
            false
        } else {
            let n1: i128 = -hk - ys2;
            let m: i128 = if n1 > 0 {
                n1
            } else {
                0
            };
            let d: i128 = 2 * ci;
            if sin_t == 0 {
                proof {
                    lemma_sq_bound(y as int, 0x1000_0000);
                    lemma_sq_bound(cos_t as int, 0x1_0000);
                    lemma_abs_mul(
                        (y as int) * (y as int),
                        0x100_0000_0000_0000,
                        (cos_t as int) * (cos_t as int),
                        0x1_0000_0000,
                    );
                    lemma_abs_mul((xx as int), 0x100_0000_0000_0000, SCALE as int, 0x1_0000);
                    lemma_abs_mul(
                        (xx as int) * (SCALE as int),
                        0x1_0000_0000_0000_0000_00,
                        SCALE as int,
                        0x1_0000,
                    );
                    lemma_abs_mul((rr as int), 0x100_0000_0000_0000, SCALE as int, 0x1_0000);
                    lemma_abs_mul(
                        (rr as int) * (SCALE as int),
                        0x1_0000_0000_0000_0000_00,
                        SCALE as int,
                        0x1_0000,
                    );
                }
                let yycc: i128 = yi * yi * (ci * ci);
                xx * (SCALE as i128) * (SCALE as i128) + yycc
                    < rr * (SCALE as i128) * (SCALE as i128)
            } else {
                proof {
                    lemma_abs_mul(y as int, 0x1000_0000, cos_t as int, 0x1_0000);
                    lemma_abs_mul(
                        (y as int) * (cos_t as int),
                        0x1000_0000_0000,
                        2 * (cos_t as int),
                        0x2_0000,
                    );
                    lemma_abs_mul(m as int, 0x3000_0000_0000, sin_t as int, 0x1_0000);
                    lemma_abs_mul(n2 as int, 0x3000_0000_0000, sin_t as int, 0x1_0000);
                }
                let w: i128 = yi * ci * d;
                if w <= m * si {
                    radial_bound_at_edge(xx, rr, w - m * si, d)
                } else if w >= n2 * si {
                    radial_bound_at_edge(xx, rr, w - n2 * si, d)
                } else {
                    xx < rr
                }
            }
        }
    }
}

/// Evaluates the cleared-denominator radial bound
/// `xx*SCALE^2*d^2 + e^2 < rr*SCALE^2*d^2` at a window edge, where `e`
/// is the scaled radial term `y*cos*d - u*sin*d` at that edge.
fn radial_bound_at_edge(xx: i128, rr: i128, e: i128, d: i128) -> (res: bool)
    requires
        0 <= xx as int <= 0x100_0000_0000_0000,
        0 <= rr as int <= 0x100_0000_0000_0000,
        -0x8000_0000_0000_0000 <= e as int <= 0x8000_0000_0000_0000,
        0 < d as int <= 0x2_0000,
    ensures
        res == ((xx as int) * (SCALE as int) * (SCALE as int) * (d as int) * (d as int)
            + (e as int) * (e as int)
            < (rr as int) * (SCALE as int) * (SCALE as int) * (d as int) * (d as int)),
{
    proof {
        assert(SCALE == 65536);
        lemma_sq_bound(e as int, 0x8000_0000_0000_0000);
        lemma_abs_mul(xx as int, 0x100_0000_0000_0000, SCALE as int, 0x1_0000);
        lemma_abs_mul(
            (xx as int) * (SCALE as int),
            0x1_0000_0000_0000_0000_00,
            SCALE as int,
            0x1_0000,
        );
        lemma_abs_mul(
            (xx as int) * (SCALE as int) * (SCALE as int),
            0x1_0000_0000_0000_0000_0000_00,
            d as int,
            0x2_0000,
        );
        lemma_abs_mul(
            (xx as int) * (SCALE as int) * (SCALE as int) * (d as int),
            0x2_0000_0000_0000_0000_0000_0000_00,
            d as int,
            0x2_0000,
        );
        lemma_abs_mul(rr as int, 0x100_0000_0000_0000, SCALE as int, 0x1_0000);
        lemma_abs_mul(
            (rr as int) * (SCALE as int),
            0x1_0000_0000_0000_0000_00,
            SCALE as int,
            0x1_0000,
        );
        lemma_abs_mul(
            (rr as int) * (SCALE as int) * (SCALE as int),
            0x1_0000_0000_0000_0000_0000_00,
            d as int,
            0x2_0000,
        );
        lemma_abs_mul(
            (rr as int) * (SCALE as int) * (SCALE as int) * (d as int),
            0x2_0000_0000_0000_0000_0000_0000_00,
            d as int,
            0x2_0000,
        );
    }
    let lhs: i128 = xx * (SCALE as i128) * (SCALE as i128) * d * d + e * e;
    let rhs: i128 = rr * (SCALE as i128) * (SCALE as i128) * d * d;
    lhs < rhs
}

} // verus!
