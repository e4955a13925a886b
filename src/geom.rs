use vstd::prelude::*;

verus! {

/// Largest magnitude of a world coordinate. Keeping coordinates inside this
/// bound keeps every product made by the intersection tests inside `i64` or
/// `i128`.
pub const COORD_LIMIT: i64 = 1048576;

/// A point (or a direction) in integer world coordinates.
#[derive(Clone, Copy, Debug, PartialEq, Eq, Structural)]
pub struct Point3 {
    pub x: i64,
    pub y: i64,
    pub z: i64,
}

pub open spec fn coord_ok(v: int) -> bool {
    -COORD_LIMIT <= v <= COORD_LIMIT
}

pub open spec fn min_int(a: int, b: int) -> int {
    if a <= b { a } else { b }
}

pub open spec fn max_int(a: int, b: int) -> int {
    if a <= b { b } else { a }
}

impl Point3 {
    /// All three coordinates lie within `COORD_LIMIT`.
    pub open spec fn in_range(self) -> bool {
        coord_ok(self.x as int) && coord_ok(self.y as int) && coord_ok(self.z as int)
    }

    pub fn new(x: i64, y: i64, z: i64) -> (r: Point3)
        ensures
            r.x == x && r.y == y && r.z == z,
    {
        Point3 { x, y, z }
    }
}

/// An axis-aligned bounding box given by its two extreme corners.
#[derive(Clone, Copy, Debug, PartialEq, Eq, Structural)]
pub struct Aabb {
    pub min: Point3,
    pub max: Point3,
}

impl Aabb {
    /// Corners in range and ordered on every axis.
    pub open spec fn wf(self) -> bool {
        &&& self.min.in_range()
        &&& self.max.in_range()
        &&& self.min.x <= self.max.x
        &&& self.min.y <= self.max.y
        &&& self.min.z <= self.max.z
    }

    pub open spec fn contains(self, p: Point3) -> bool {
        &&& self.min.x <= p.x <= self.max.x
        &&& self.min.y <= p.y <= self.max.y
        &&& self.min.z <= p.z <= self.max.z
    }

    /// The box spanned by two arbitrary corners, each axis put in order.
    pub open spec fn spanned(a: Point3, b: Point3) -> Aabb {
        Aabb {
            min: Point3 {
                x: min_int(a.x as int, b.x as int) as i64,
                y: min_int(a.y as int, b.y as int) as i64,
                z: min_int(a.z as int, b.z as int) as i64,
            },
            max: Point3 {
                x: max_int(a.x as int, b.x as int) as i64,
                y: max_int(a.y as int, b.y as int) as i64,
                z: max_int(a.z as int, b.z as int) as i64,
            },
        }
    }

    /// Builds a box from two corners given in any order: a negative extent on
    /// an axis is turned around by swapping the two coordinates.
    pub fn from_corners(a: Point3, b: Point3) -> (r: Aabb)
        requires
            a.in_range(),
            b.in_range(),
        ensures
            r == Aabb::spanned(a, b),
            r.wf(),
    {
        let (x0, x1) = if a.x <= b.x { (a.x, b.x) } else { (b.x, a.x) };
        let (y0, y1) = if a.y <= b.y { (a.y, b.y) } else { (b.y, a.y) };
        let (z0, z1) = if a.z <= b.z { (a.z, b.z) } else { (b.z, a.z) };
        Aabb { min: Point3 { x: x0, y: y0, z: z0 }, max: Point3 { x: x1, y: y1, z: z1 } }
    }
}


/// A half-line starting at `origin` and running along `dir`. The direction
/// need not be normalised: any positive multiple describes the same ray.
#[derive(Clone, Copy, Debug, PartialEq, Eq, Structural)]
pub struct Ray3 {
    pub origin: Point3,
    pub dir: Point3,
}

pub open spec fn dir_ok(v: int) -> bool {
    -2 * COORD_LIMIT <= v <= 2 * COORD_LIMIT
}

impl Ray3 {
    /// Origin in range; direction no longer than the span of two points in range.
    pub open spec fn wf(self) -> bool {
        &&& self.origin.in_range()
        &&& dir_ok(self.dir.x as int)
        &&& dir_ok(self.dir.y as int)
        &&& dir_ok(self.dir.z as int)
    }

    /// The ray from `from` through `to`.
    pub fn through(from: Point3, to: Point3) -> (r: Ray3)
        requires
            from.in_range(),
            to.in_range(),
        ensures
            r.wf(),
            r.origin == from,
            r.dir.x == to.x - from.x,
            r.dir.y == to.y - from.y,
            r.dir.z == to.z - from.z,
    {
        Ray3 {
            origin: from,
            dir: Point3 { x: to.x - from.x, y: to.y - from.y, z: to.z - from.z },
        }
    }
}

/// On one axis, the coordinate `o + (n / m) * d` lies in `[lo, hi]`
/// (written without division, for `m > 0`).
pub open spec fn axis_within(lo: int, hi: int, o: int, d: int, n: int, m: int) -> bool {
    m * lo <= m * o + n * d && m * o + n * d <= m * hi
}

/// The point of the ray at parameter `n / m` (with `n >= 0`, `m > 0`) lies in the box.
pub open spec fn ray_meets_at(r: Ray3, b: Aabb, n: int, m: int) -> bool {
    &&& m > 0
    &&& n >= 0
    &&& axis_within(b.min.x as int, b.max.x as int, r.origin.x as int, r.dir.x as int, n, m)
    &&& axis_within(b.min.y as int, b.max.y as int, r.origin.y as int, r.dir.y as int, n, m)
    &&& axis_within(b.min.z as int, b.max.z as int, r.origin.z as int, r.dir.z as int, n, m)
}

/// Some point of the ray, at a rational parameter, lies in the box.
pub open spec fn ray_hits(r: Ray3, b: Aabb) -> bool {
    exists|n: int, m: int| #[trigger] ray_meets_at(r, b, n, m)
}

const SPAN_BOUND: i64 = 4194304;

/// The parameters `t` of the ray still admitted: `lo_n / lo_d <= t`, and
/// `t <= hi_n / hi_d` when `bounded`.
#[derive(Clone, Copy)]
struct Span {
    lo_n: i64,
    lo_d: i64,
    bounded: bool,
    hi_n: i64,
    hi_d: i64,
}

spec fn span_ok(s: Span) -> bool {
    &&& 0 < s.lo_d <= SPAN_BOUND
    &&& -SPAN_BOUND <= s.lo_n <= SPAN_BOUND
    &&& 0 < s.hi_d <= SPAN_BOUND
    &&& -SPAN_BOUND <= s.hi_n <= SPAN_BOUND
}

spec fn in_span(s: Span, n: int, m: int) -> bool {
    &&& n * s.lo_d >= s.lo_n * m
    &&& s.bounded ==> n * s.hi_d <= s.hi_n * m
}

/// `a / b <= c / d <= e / f` gives `a / b <= e / f`.
proof fn lemma_frac_trans(a: int, b: int, c: int, d: int, e: int, f: int)
    requires
        b > 0,
        d > 0,
        f > 0,
        a * d <= c * b,
        c * f <= e * d,
    ensures
        a * f <= e * b,
{
    assert(a * d * f <= c * b * f) by (nonlinear_arith)
        requires a * d <= c * b, f > 0;
    assert(c * f * b <= e * d * b) by (nonlinear_arith)
        requires c * f <= e * d, b > 0;
    assert(a * f * d <= e * b * d) by (nonlinear_arith)
        requires a * d * f <= c * b * f, c * f * b <= e * d * b;
    assert(a * f <= e * b) by (nonlinear_arith)
        requires a * f * d <= e * b * d, d > 0;
}

pub proof fn lemma_product_bound(a: int, b: int, k: int, l: int)
    requires
        -k <= a <= k,
        -l <= b <= l,
    ensures
        -(k * l) <= a * b <= k * l,
{
    assert(-(k * l) <= a * b <= k * l) by (nonlinear_arith)
        requires -k <= a <= k, -l <= b <= l;
}

/// Admits only parameters `t >= cn / cd`.
fn raise_lower(s: Span, cn: i64, cd: i64) -> (r: Span)
    requires
        span_ok(s),
        0 < cd <= SPAN_BOUND,
        -SPAN_BOUND <= cn <= SPAN_BOUND,
    ensures
        span_ok(r),
        forall|n: int, m: int|
            m > 0 ==> (#[trigger] in_span(r, n, m) <==> (in_span(s, n, m) && cn * m <= n * cd)),
{
    proof {
        lemma_product_bound(cn as int, s.lo_d as int, SPAN_BOUND as int, SPAN_BOUND as int);
        lemma_product_bound(s.lo_n as int, cd as int, SPAN_BOUND as int, SPAN_BOUND as int);
    }
    if cn * s.lo_d > s.lo_n * cd {
        let r = Span { lo_n: cn, lo_d: cd, ..s };
        assert forall|n: int, m: int| m > 0 implies (#[trigger] in_span(r, n, m) <==> (in_span(s, n, m) && cn * m <= n * cd)) by {
            if cn * m <= n * cd {
                lemma_frac_trans(s.lo_n as int, s.lo_d as int, cn as int, cd as int, n, m);
            }
        }
        r
    } else {
        assert forall|n: int, m: int| m > 0 implies (#[trigger] in_span(s, n, m) <==> (in_span(s, n, m) && cn * m <= n * cd)) by {
            if n * s.lo_d >= s.lo_n * m {
                lemma_frac_trans(cn as int, cd as int, s.lo_n as int, s.lo_d as int, n, m);
            }
        }
        s
    }
}

/// Admits only parameters `t <= cn / cd`.
fn lower_upper(s: Span, cn: i64, cd: i64) -> (r: Span)
    requires
        span_ok(s),
        0 < cd <= SPAN_BOUND,
        -SPAN_BOUND <= cn <= SPAN_BOUND,
    ensures
        span_ok(r),
        forall|n: int, m: int|
            m > 0 ==> (#[trigger] in_span(r, n, m) <==> (in_span(s, n, m) && n * cd <= cn * m)),
{
    proof {
        lemma_product_bound(cn as int, s.hi_d as int, SPAN_BOUND as int, SPAN_BOUND as int);
        lemma_product_bound(s.hi_n as int, cd as int, SPAN_BOUND as int, SPAN_BOUND as int);
    }
    if !s.bounded || cn * s.hi_d < s.hi_n * cd {
        let r = Span { bounded: true, hi_n: cn, hi_d: cd, ..s };
        assert forall|n: int, m: int| m > 0 implies (#[trigger] in_span(r, n, m) <==> (in_span(s, n, m) && n * cd <= cn * m)) by {
            if s.bounded && n * cd <= cn * m {
                lemma_frac_trans(n, m, cn as int, cd as int, s.hi_n as int, s.hi_d as int);
            }
        }
        r
    } else {
        assert forall|n: int, m: int| m > 0 implies (#[trigger] in_span(s, n, m) <==> (in_span(s, n, m) && n * cd <= cn * m)) by {
            if n * s.hi_d <= s.hi_n * m {
                lemma_frac_trans(n, m, s.hi_n as int, s.hi_d as int, cn as int, cd as int);
            }
        }
        s
    }
}

/// Restricts the span to the parameters whose point lies in `[lo, hi]` on one
/// axis; `None` when no parameter at all does.
fn clip(s: Span, lo: i64, hi: i64, o: i64, d: i64) -> (r: Option<Span>)
    requires
        span_ok(s),
        coord_ok(lo as int),
        coord_ok(hi as int),
        coord_ok(o as int),
        dir_ok(d as int),
    ensures
        match r {
            Some(s2) => span_ok(s2) && forall|n: int, m: int|
                m > 0 ==> (#[trigger] in_span(s2, n, m) <==> (in_span(s, n, m) && axis_within(lo as int, hi as int, o as int, d as int, n, m))),
            None => forall|n: int, m: int|
                m > 0 ==> !#[trigger] axis_within(lo as int, hi as int, o as int, d as int, n, m),
        },
{
    let a = lo - o;
    let b = hi - o;
    assert forall|n: int, m: int|
        m > 0 implies (#[trigger] axis_within(lo as int, hi as int, o as int, d as int, n, m) <==> (
        a * m <= n * d && n * d <= b * m)) by {
        assert(m * lo <= m * o + n * d <==> a * m <= n * d) by (nonlinear_arith)
            requires a == lo - o;
        assert(m * o + n * d <= m * hi <==> n * d <= b * m) by (nonlinear_arith)
            requires b == hi - o;
    }
    if d == 0 {
        if a <= 0 && 0 <= b {
            assert forall|n: int, m: int| m > 0 implies (#[trigger] in_span(s, n, m) <==> (in_span(s, n, m) && axis_within(lo as int, hi as int, o as int, d as int, n, m))) by {
                assert(a * m <= 0 && 0 <= b * m) by (nonlinear_arith)
                    requires a <= 0, 0 <= b, m > 0;
                assert(n * d == 0);
            }
            Some(s)
        } else {
            assert forall|n: int, m: int|
                m > 0 implies !#[trigger] axis_within(lo as int, hi as int, o as int, d as int, n, m) by {
                assert(n * d == 0);
                assert(!(a * m <= 0 && 0 <= b * m)) by (nonlinear_arith)
                    requires !(a <= 0 && 0 <= b), m > 0;
            }
            None
        }
    } else if d > 0 {
        let s1 = raise_lower(s, a, d);
        let s2 = lower_upper(s1, b, d);
        Some(s2)
    } else {
        let s1 = raise_lower(s, -b, -d);
        let s2 = lower_upper(s1, -a, -d);
        assert forall|n: int, m: int| m > 0 implies (#[trigger] in_span(s2, n, m) <==> (in_span(s, n, m)
            && axis_within(lo as int, hi as int, o as int, d as int, n, m))) by {
            assert((-b) * m <= n * (-d) <==> n * d <= b * m) by (nonlinear_arith);
            assert(n * (-d) <= (-a) * m <==> a * m <= n * d) by (nonlinear_arith);
            assert(in_span(s1, n, m) <==> (in_span(s, n, m) && (-b) * m <= n * (-d)));
        }
        Some(s2)
    }
}

/// Whether some parameter lies in the span.
fn span_nonempty(s: Span) -> (r: bool)
    requires
        span_ok(s),
    ensures
        r == exists|n: int, m: int| m > 0 && #[trigger] in_span(s, n, m),
{
    proof {
        lemma_product_bound(s.lo_n as int, s.hi_d as int, SPAN_BOUND as int, SPAN_BOUND as int);
        lemma_product_bound(s.hi_n as int, s.lo_d as int, SPAN_BOUND as int, SPAN_BOUND as int);
    }
    let r = !s.bounded || s.lo_n * s.hi_d <= s.hi_n * s.lo_d;
    if r {
        assert(s.lo_d > 0 && in_span(s, s.lo_n as int, s.lo_d as int)) by (nonlinear_arith)
            requires
                s.lo_d > 0,
                s.bounded ==> s.lo_n * s.hi_d <= s.hi_n * s.lo_d,
        ;
    } else {
        assert forall|n: int, m: int| m > 0 implies !#[trigger] in_span(s, n, m) by {
            if in_span(s, n, m) {
                lemma_frac_trans(s.lo_n as int, s.lo_d as int, n, m, s.hi_n as int, s.hi_d as int);
            }
        }
    }
    r
}

/// Exact test of a ray against a box.
pub fn ray_hits_box(r: &Ray3, b: &Aabb) -> (hit: bool)
    requires
        r.wf(),
        b.wf(),
    ensures
        hit == ray_hits(*r, *b),
{
    let s0 = Span { lo_n: 0, lo_d: 1, bounded: false, hi_n: 0, hi_d: 1 };
    assert forall|n: int, m: int| m > 0 implies (#[trigger] in_span(s0, n, m) <==> n >= 0) by {}
    let o = r.origin;
    let d = r.dir;
    match clip(s0, b.min.x, b.max.x, o.x, d.x) {
        None => {
            assert(!ray_hits(*r, *b));
            false
        },
        Some(s1) => match clip(s1, b.min.y, b.max.y, o.y, d.y) {
            None => {
                assert(!ray_hits(*r, *b));
                false
            },
            Some(s2) => match clip(s2, b.min.z, b.max.z, o.z, d.z) {
                None => {
                    assert(!ray_hits(*r, *b));
                    false
                },
                Some(s3) => {
                    assert forall|n: int, m: int| m > 0 implies (#[trigger] in_span(s3, n, m)
                        <==> ray_meets_at(*r, *b, n, m)) by {}
                    let hit = span_nonempty(s3);
                    proof {
                        if hit {
                            let (n, m) = choose|n: int, m: int|
                                m > 0 && #[trigger] in_span(s3, n, m);
                            assert(ray_meets_at(*r, *b, n, m));
                        }
                        if ray_hits(*r, *b) {
                            let (n, m) = choose|n: int, m: int| #[trigger] ray_meets_at(*r, *b, n, m);
                            assert(in_span(s3, n, m));
                        }
                    }
                    hit
                },
            },
        },
    }
}


/// The plane `nx*x + ny*y + nz*z + d = 0`; its inside half-space is where the
/// left-hand side is non-negative.
#[derive(Clone, Copy, Debug, PartialEq, Eq, Structural)]
pub struct Plane {
    pub nx: i128,
    pub ny: i128,
    pub nz: i128,
    pub d: i128,
}

pub open spec fn plane_eval(p: Plane, q: Point3) -> int {
    p.nx * q.x + p.ny * q.y + p.nz * q.z + p.d
}

pub open spec fn normal_x(a: Point3, b: Point3, c: Point3) -> int {
    (b.y - a.y) * (c.z - a.z) - (b.z - a.z) * (c.y - a.y)
}

pub open spec fn normal_y(a: Point3, b: Point3, c: Point3) -> int {
    (b.z - a.z) * (c.x - a.x) - (b.x - a.x) * (c.z - a.z)
}

pub open spec fn normal_z(a: Point3, b: Point3, c: Point3) -> int {
    (b.x - a.x) * (c.y - a.y) - (b.y - a.y) * (c.x - a.x)
}

/// The plane through three points, normal `(b - a) x (c - a)`; its normal is
/// zero when the points are collinear.
pub open spec fn plane_through(a: Point3, b: Point3, c: Point3) -> Plane {
    let nx = normal_x(a, b, c);
    let ny = normal_y(a, b, c);
    let nz = normal_z(a, b, c);
    Plane {
        nx: nx as i128,
        ny: ny as i128,
        nz: nz as i128,
        d: (-(nx * a.x + ny * a.y + nz * a.z)) as i128,
    }
}

pub open spec fn negated(p: Plane) -> Plane {
    Plane { nx: (-p.nx) as i128, ny: (-p.ny) as i128, nz: (-p.nz) as i128, d: (-p.d) as i128 }
}

/// The plane turned so that the point `(sx, sy, sz) / 8` lies strictly inside;
/// `None` when that point lies on the plane (which it always does when the
/// plane's normal is zero).
pub open spec fn oriented(p: Plane, sx: int, sy: int, sz: int) -> Option<Plane> {
    let v = p.nx * sx + p.ny * sy + p.nz * sz + 8 * p.d;
    if v > 0 {
        Some(p)
    } else if v < 0 {
        Some(negated(p))
    } else {
        None
    }
}

/// The corner of the box that takes `max` on each axis flagged `true`.
pub open spec fn corner(b: Aabb, hx: bool, hy: bool, hz: bool) -> Point3 {
    Point3 {
        x: if hx { b.max.x } else { b.min.x },
        y: if hy { b.max.y } else { b.min.y },
        z: if hz { b.max.z } else { b.min.z },
    }
}

/// The box is not entirely outside the plane: one of its corners is inside.
pub open spec fn box_touches(p: Plane, b: Aabb) -> bool {
    exists|hx: bool, hy: bool, hz: bool| plane_eval(p, #[trigger] corner(b, hx, hy, hz)) >= 0
}

pub const NORMAL_LIMIT: i128 = 8796093022208;

pub const OFFSET_LIMIT: i128 = 36893488147419103232;

impl Plane {
    /// Normal and offset of the size that three points in range produce.
    pub open spec fn wf(self) -> bool {
        &&& -NORMAL_LIMIT <= self.nx <= NORMAL_LIMIT
        &&& -NORMAL_LIMIT <= self.ny <= NORMAL_LIMIT
        &&& -NORMAL_LIMIT <= self.nz <= NORMAL_LIMIT
        &&& -OFFSET_LIMIT <= self.d <= OFFSET_LIMIT
    }

    /// The plane through three points (see `plane_through`).
    pub fn through(a: Point3, b: Point3, c: Point3) -> (r: Plane)
        requires
            a.in_range(),
            b.in_range(),
            c.in_range(),
        ensures
            r == plane_through(a, b, c),
            r.wf(),
    {
        let ux = b.x as i128 - a.x as i128;
        let uy = b.y as i128 - a.y as i128;
        let uz = b.z as i128 - a.z as i128;
        let vx = c.x as i128 - a.x as i128;
        let vy = c.y as i128 - a.y as i128;
        let vz = c.z as i128 - a.z as i128;
        proof {
            let k = 2 * COORD_LIMIT as int;
            lemma_product_bound(uy as int, vz as int, k, k);
            lemma_product_bound(uz as int, vy as int, k, k);
            lemma_product_bound(uz as int, vx as int, k, k);
            lemma_product_bound(ux as int, vz as int, k, k);
            lemma_product_bound(ux as int, vy as int, k, k);
            lemma_product_bound(uy as int, vx as int, k, k);
        }
        let nx = uy * vz - uz * vy;
        let ny = uz * vx - ux * vz;
        let nz = ux * vy - uy * vx;
        proof {
            let l = NORMAL_LIMIT as int;
            let c = COORD_LIMIT as int;
            lemma_product_bound(nx as int, a.x as int, l, c);
            lemma_product_bound(ny as int, a.y as int, l, c);
            lemma_product_bound(nz as int, a.z as int, l, c);
        }
        let d = -(nx * a.x as i128 + ny * a.y as i128 + nz * a.z as i128);
        Plane { nx, ny, nz, d }
    }

    /// Whether the box has a corner on the inside of the plane. The corner
    /// farthest along the normal decides.
    pub fn touches(&self, b: &Aabb) -> (r: bool)
        requires
            self.wf(),
            b.wf(),
        ensures
            r == box_touches(*self, *b),
    {
        let px = if self.nx >= 0 { b.max.x } else { b.min.x };
        let py = if self.ny >= 0 { b.max.y } else { b.min.y };
        let pz = if self.nz >= 0 { b.max.z } else { b.min.z };
        proof {
            let l = NORMAL_LIMIT as int;
            let c = COORD_LIMIT as int;
            lemma_product_bound(self.nx as int, px as int, l, c);
            lemma_product_bound(self.ny as int, py as int, l, c);
            lemma_product_bound(self.nz as int, pz as int, l, c);
        }
        let v = self.nx * px as i128 + self.ny * py as i128 + self.nz * pz as i128 + self.d;
        let pv = Point3 { x: px, y: py, z: pz };
        proof {
            assert(pv == corner(*b, self.nx >= 0, self.ny >= 0, self.nz >= 0));
            assert(v == plane_eval(*self, pv));
            if v < 0 {
                assert forall|hx: bool, hy: bool, hz: bool|
                    plane_eval(*self, #[trigger] corner(*b, hx, hy, hz)) < 0 by {
                    let q = corner(*b, hx, hy, hz);
                    lemma_weight_le(self.nx as int, q.x as int, b.min.x as int, b.max.x as int);
                    lemma_weight_le(self.ny as int, q.y as int, b.min.y as int, b.max.y as int);
                    lemma_weight_le(self.nz as int, q.z as int, b.min.z as int, b.max.z as int);
                }
            }
        }
        v >= 0
    }
}

/// Weighting a value from `[lo, hi]` never beats the bound picked by the sign
/// of the weight.
pub proof fn lemma_weight_le(w: int, q: int, lo: int, hi: int)
    requires
        lo <= q <= hi,
    ensures
        w * q <= w * (if w >= 0 { hi } else { lo }),
{
    if w >= 0 {
        assert(w * q <= w * hi) by (nonlinear_arith)
            requires w >= 0, q <= hi;
    } else {
        assert(w * q <= w * lo) by (nonlinear_arith)
            requires w < 0, lo <= q;
    }
}

} // verus!
