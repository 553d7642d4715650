//! The nx75 raster laws and the run emitter.
//!
//! Coordinates are doubled so that pixel centres and anchor centres are
//! integers: pixel `(i, j)` has its centre at `(2i + 1, 2j + 1)`, the anchor
//! in grid cell `(r, c)` at scale `k` at `((2c + 1)k, (2r + 1)k)`, and a
//! kernel's half width `k/2` becomes `k`.
//!
//! - v1, KERNEL-PULL (even scales): every active edge sweeps each
//!   endpoint's kernel (the L1 diamond plus the quadrant squares its mask
//!   names) from the anchor centre to the edge midpoint; an anchor without
//!   edges rests its kernel in place; ink is clipped to the anchor cells
//!   and the two bridge cells of every diagonal edge.
//! - v2, CONNECTION-KERNEL (odd scales): orthogonal connections are
//!   rectangles one cell wide from one anchor centre to the other, diagonal
//!   connections an anti-diagonal band (perpendicular distance at most
//!   `(k − 1)/√2`, between the two centres), every anchor stamps the
//!   quadrants its mask names, and an anchor without edges its L1
//!   diamond; no clipping.

use vstd::prelude::*;

use crate::glyph_font::{font_v1, font_v2, glyph_v1, glyph_v2, Anchor, Edge, Glyph};
use crate::glyphs::ALPHABET;
use crate::text::{char_debug, debug_char, dec, push_dec, push_str};
use crate::CodecError;

verus! {

/// Largest glyph scale the raster accepts.
pub const MAX_SCALE: u32 = 0x100_0000;

// ---------- the swept-kernel test: is some t in [0, 1] admissible ----------

/// One linear constraint `n·(d − t·v) ≤ c` folded into the interval of
/// admissible `t`: `(feasible, lower ln/ld, upper hn/hd)`, denominators
/// positive.
pub open spec fn upd(st: (bool, int, int, int, int), base: int, nv: int) -> (bool, int, int, int, int) {
    if nv == 0 {
        (st.0 && base <= 0, st.1, st.2, st.3, st.4)
    } else if nv > 0 {
        if base * st.2 > st.1 * nv { (st.0, base, nv, st.3, st.4) } else { st }
    } else {
        if (-base) * st.4 < st.3 * (-nv) { (st.0, st.1, st.2, -base, -nv) } else { st }
    }
}

/// Constraint `(nx, ny, c)` applied at offset `d` and sweep `v`.
pub open spec fn step(st: (bool, int, int, int, int), cn: (int, int, int), d: (int, int), v: (int, int)) -> (bool, int, int, int, int) {
    upd(st, cn.0 * d.0 + cn.1 * d.1 - cn.2, cn.0 * v.0 + cn.1 * v.1)
}

/// Some `t ∈ [0, 1]` puts `d − t·v` inside the four-sided piece.
pub open spec fn piece_hit(c0: (int, int, int), c1: (int, int, int), c2: (int, int, int), c3: (int, int, int), d: (int, int), v: (int, int)) -> bool {
    let s = step(step(step(step((true, 0, 1, 1, 1), c0, d, v), c1, d, v), c2, d, v), c3, d, v);
    s.0 && s.1 * s.4 <= s.3 * s.2
}

/// Bit `b` of a kernel mask.
pub open spec fn mask_bit(mask: u8, b: int) -> bool {
    if b == 0 {
        mask % 2 == 1
    } else if b == 1 {
        (mask / 2) % 2 == 1
    } else if b == 2 {
        (mask / 4) % 2 == 1
    } else {
        (mask / 8) % 2 == 1
    }
}

/// The kernel of half width `h` with `mask`'s quadrants, swept along `v`
/// from offset `d`, covers the point.
pub open spec fn kernel_hit(mask: u8, h: int, d: (int, int), v: (int, int)) -> bool {
    ||| piece_hit((1, 1, h), (1, -1, h), (-1, 1, h), (-1, -1, h), d, v)
    ||| mask_bit(mask, 0) && piece_hit((-1, 0, h), (1, 0, 0), (0, -1, h), (0, 1, 0), d, v)
    ||| mask_bit(mask, 1) && piece_hit((1, 0, h), (-1, 0, 0), (0, -1, h), (0, 1, 0), d, v)
    ||| mask_bit(mask, 2) && piece_hit((-1, 0, h), (1, 0, 0), (0, 1, h), (0, -1, 0), d, v)
    ||| mask_bit(mask, 3) && piece_hit((1, 0, h), (-1, 0, 0), (0, 1, h), (0, -1, 0), d, v)
}

/// Doubled centre of grid index `x` at scale `k`.
pub open spec fn ctr(x: u8, k: int) -> int {
    (2 * x + 1) * k
}

/// Both endpoints of an edge index anchors.
pub open spec fn edge_ok(an: Seq<Anchor>, e: Edge) -> bool {
    e.a < an.len() && e.b < an.len()
}

/// An anchor is in no edge.
pub open spec fn isolated(ed: Seq<Edge>, x: int) -> bool {
    forall|y: int| 0 <= y < ed.len() ==> ed[y].a != x && ed[y].b != x
}

// ---------- v1 ----------

/// `me`'s kernel swept towards the midpoint with `ot` covers doubled
/// point `(px, py)`.
pub open spec fn half_sweep(me: Anchor, ot: Anchor, k: int, px: int, py: int) -> bool {
    kernel_hit(me.quad_mask, k, (px - ctr(me.c, k), py - ctr(me.r, k)),
        ((ot.c - me.c) * k, (ot.r - me.r) * k))
}

/// Edge `y` of the glyph inks the point under v1.
pub open spec fn edge_hits_v1(an: Seq<Anchor>, ed: Seq<Edge>, y: int, k: int, px: int, py: int) -> bool {
    let e = ed[y];
    edge_ok(an, e) && (half_sweep(an[e.a as int], an[e.b as int], k, px, py) || half_sweep(an[e.b as int], an[e.a as int], k, px, py))
}

/// Anchor `x`, resting because it has no edge, inks the point under v1.
pub open spec fn rest_hits_v1(an: Seq<Anchor>, ed: Seq<Edge>, x: int, k: int, px: int, py: int) -> bool {
    isolated(ed, x) && kernel_hit(an[x].quad_mask, k, (px - ctr(an[x].c, k), py - ctr(an[x].r, k)), (0, 0))
}

/// Anchor `x` sits in cell `(cr, cc)`.
pub open spec fn anchor_in(an: Seq<Anchor>, x: int, cr: int, cc: int) -> bool {
    an[x].r == cr && an[x].c == cc
}

/// Edge `y` is diagonal and `(cr, cc)` is one of its bridge cells.
pub open spec fn bridge_in(an: Seq<Anchor>, ed: Seq<Edge>, y: int, cr: int, cc: int) -> bool {
    let e = ed[y];
    edge_ok(an, e) && e.diag && (
        (an[e.a as int].r == cr && an[e.b as int].c == cc) || (an[e.b as int].r == cr && an[e.a as int].c == cc))
}

/// Cell `(cr, cc)` may carry v1 ink.
pub open spec fn cell_allowed(an: Seq<Anchor>, ed: Seq<Edge>, cr: int, cc: int) -> bool {
    (exists|x: int| 0 <= x < an.len() && #[trigger] anchor_in(an, x, cr, cc))
        || (exists|y: int| 0 <= y < ed.len() && #[trigger] bridge_in(an, ed, y, cr, cc))
}

/// Pixel `(i, j)` is inked under v1 at scale `k`.
pub open spec fn ink_v1(an: Seq<Anchor>, ed: Seq<Edge>, k: int, i: int, j: int) -> bool {
    let px = 2 * i + 1;
    let py = 2 * j + 1;
    &&& cell_allowed(an, ed, j / k, i / k)
    &&& {
        ||| exists|y: int| 0 <= y < ed.len() && #[trigger] edge_hits_v1(an, ed, y, k, px, py)
        ||| exists|x: int| 0 <= x < an.len() && #[trigger] rest_hits_v1(an, ed, x, k, px, py)
    }
}

// ---------- v2 ----------

/// Edge `y` of the glyph inks the point under v2.
pub open spec fn edge_hits_v2(an: Seq<Anchor>, ed: Seq<Edge>, y: int, k: int, px: int, py: int) -> bool {
    let e = ed[y];
    edge_ok(an, e) && {
        let ax = ctr(an[e.a as int].c, k);
        let ay = ctr(an[e.a as int].r, k);
        let bx = ctr(an[e.b as int].c, k);
        let by = ctr(an[e.b as int].r, k);
        if !e.diag {
            if ay == by {
                &&& (if ax <= bx { ax } else { bx }) <= px <= (if ax <= bx { bx } else { ax })
                &&& ay - k <= py <= ay + k
            } else {
                &&& (if ay <= by { ay } else { by }) <= py <= (if ay <= by { by } else { ay })
                &&& ax - k <= px <= ax + k
            }
        } else {
            let vx = bx - ax;
            let vy = by - ay;
            let cross = (px - ax) * vy - (py - ay) * vx;
            let dot = (px - ax) * vx + (py - ay) * vy;
            let avx = if vx >= 0 { vx } else { -vx };
            &&& -(2 * (k - 1) * avx) <= cross <= 2 * (k - 1) * avx
            &&& 0 <= dot <= 2 * vx * vx
        }
    }
}

/// The quadrant of offset `(dx, dy)`: 0 top-left, 1 top-right, 2
/// bottom-left, 3 bottom-right (a zero offset counts as right / bottom).
pub open spec fn quadrant(dx: int, dy: int) -> int {
    (if dy < 0 { 0int } else { 2 }) + (if dx < 0 { 0int } else { 1 })
}

/// Anchor `x` inks the point under v2: its named quadrants, and its L1
/// diamond when it has no edge.
pub open spec fn node_hits_v2(an: Seq<Anchor>, ed: Seq<Edge>, x: int, k: int, px: int, py: int) -> bool {
    let dx = px - ctr(an[x].c, k);
    let dy = py - ctr(an[x].r, k);
    ||| -k <= dx <= k && -k <= dy <= k && mask_bit(an[x].quad_mask, quadrant(dx, dy))
    ||| isolated(ed, x) && (if dx >= 0 { dx } else { -dx }) + (if dy >= 0 { dy } else { -dy }) <= k
}

/// Pixel `(i, j)` is inked under v2 at scale `k`.
pub open spec fn ink_v2(an: Seq<Anchor>, ed: Seq<Edge>, k: int, i: int, j: int) -> bool {
    let px = 2 * i + 1;
    let py = 2 * j + 1;
    ||| exists|y: int| 0 <= y < ed.len() && #[trigger] edge_hits_v2(an, ed, y, k, px, py)
    ||| exists|x: int| 0 <= x < an.len() && #[trigger] node_hits_v2(an, ed, x, k, px, py)
}

/// The pixel under the master a scale draws: v2 at odd, v1 at even scales.
pub open spec fn ink(an: Seq<Anchor>, ed: Seq<Edge>, k: int, i: int, j: int) -> bool {
    if k % 2 == 1 { ink_v2(an, ed, k, i, j) } else { ink_v1(an, ed, k, i, j) }
}

/// The `5k × 7k` bitmap, row-major rows.
pub open spec fn bitmap(an: Seq<Anchor>, ed: Seq<Edge>, k: int) -> Seq<Seq<bool>> {
    Seq::new((7 * k) as nat, |j: int| Seq::new((5 * k) as nat, |i: int| ink(an, ed, k, i, j)))
}

/// The glyph data of `c` in the master scale `k` draws.
pub open spec fn font_at(c: char, k: int) -> Option<(Seq<Anchor>, Seq<Edge>)> {
    if k % 2 == 1 { font_v2(c) } else { font_v1(c) }
}

// ---------- exec: the interval test ----------

/// Bound on every doubled coordinate, offset and sweep the raster feeds
/// the interval test.
pub open spec fn small(x: int) -> bool {
    -0x4_0000_0000 <= x <= 0x4_0000_0000
}

pub open spec fn st_ok(st: (bool, int, int, int, int)) -> bool {
    &&& st.2 > 0 && st.4 > 0
    &&& -0x10_0000_0000 <= st.1 <= 0x10_0000_0000 && st.2 <= 0x10_0000_0000
    &&& -0x10_0000_0000 <= st.3 <= 0x10_0000_0000 && st.4 <= 0x10_0000_0000
}

fn upd_exec(st: (bool, i128, i128, i128, i128), base: i128, nv: i128) -> (r: (bool, i128, i128, i128, i128))
    requires
        st_ok((st.0, st.1 as int, st.2 as int, st.3 as int, st.4 as int)),
        -0x10_0000_0000 <= base <= 0x10_0000_0000,
        -0x10_0000_0000 <= nv <= 0x10_0000_0000,
    ensures
        st_ok((r.0, r.1 as int, r.2 as int, r.3 as int, r.4 as int)),
        (r.0, r.1 as int, r.2 as int, r.3 as int, r.4 as int)
            == upd((st.0, st.1 as int, st.2 as int, st.3 as int, st.4 as int), base as int, nv as int),
{
    proof {
        let b = 0x10_0000_0000int;
        assert(-(b * b) <= base * st.2 <= b * b) by (nonlinear_arith)
            requires -b <= base <= b, 0 < st.2 <= b;
        assert(-(b * b) <= st.1 * nv <= b * b) by (nonlinear_arith)
            requires -b <= st.1 <= b, -b <= nv <= b;
        assert(-(b * b) <= base * st.4 <= b * b) by (nonlinear_arith)
            requires -b <= base <= b, 0 < st.4 <= b;
        assert(-(b * b) <= st.3 * nv <= b * b) by (nonlinear_arith)
            requires -b <= st.3 <= b, -b <= nv <= b;
        assert(-(b * b) <= (-base) * st.4 <= b * b) by (nonlinear_arith)
            requires -b <= base <= b, 0 < st.4 <= b;
        assert(-(b * b) <= st.3 * (-nv) <= b * b) by (nonlinear_arith)
            requires -b <= st.3 <= b, -b <= nv <= b;
    }
    if nv == 0 {
        (st.0 && base <= 0, st.1, st.2, st.3, st.4)
    } else if nv > 0 {
        if base * st.2 > st.1 * nv { (st.0, base, nv, st.3, st.4) } else { st }
    } else {
        if (-base) * st.4 < st.3 * (-nv) { (st.0, st.1, st.2, -base, -nv) } else { st }
    }
}

fn step_exec(st: (bool, i128, i128, i128, i128), cn: (i128, i128, i128), dx: i128, dy: i128, vx: i128, vy: i128) -> (r: (bool, i128, i128, i128, i128))
    requires
        st_ok((st.0, st.1 as int, st.2 as int, st.3 as int, st.4 as int)),
        -1 <= cn.0 <= 1,
        -1 <= cn.1 <= 1,
        small(cn.2 as int),
        small(dx as int),
        small(dy as int),
        small(vx as int),
        small(vy as int),
    ensures
        st_ok((r.0, r.1 as int, r.2 as int, r.3 as int, r.4 as int)),
        (r.0, r.1 as int, r.2 as int, r.3 as int, r.4 as int)
            == step((st.0, st.1 as int, st.2 as int, st.3 as int, st.4 as int), (cn.0 as int, cn.1 as int, cn.2 as int),
                (dx as int, dy as int), (vx as int, vy as int)),
{
    proof {
        let b = 0x4_0000_0000int;
        assert(-b <= cn.0 * dx <= b) by (nonlinear_arith) requires -1 <= cn.0 <= 1, -b <= dx <= b;
        assert(-b <= cn.1 * dy <= b) by (nonlinear_arith) requires -1 <= cn.1 <= 1, -b <= dy <= b;
        assert(-b <= cn.0 * vx <= b) by (nonlinear_arith) requires -1 <= cn.0 <= 1, -b <= vx <= b;
        assert(-b <= cn.1 * vy <= b) by (nonlinear_arith) requires -1 <= cn.1 <= 1, -b <= vy <= b;
    }
    let base = cn.0 * dx + cn.1 * dy - cn.2;
    let nv = cn.0 * vx + cn.1 * vy;
    upd_exec(st, base, nv)
}

fn piece_exec(c0: (i128, i128, i128), c1: (i128, i128, i128), c2: (i128, i128, i128), c3: (i128, i128, i128),
    dx: i128, dy: i128, vx: i128, vy: i128) -> (r: bool)
    requires
        -1 <= c0.0 <= 1 && -1 <= c0.1 <= 1 && small(c0.2 as int),
        -1 <= c1.0 <= 1 && -1 <= c1.1 <= 1 && small(c1.2 as int),
        -1 <= c2.0 <= 1 && -1 <= c2.1 <= 1 && small(c2.2 as int),
        -1 <= c3.0 <= 1 && -1 <= c3.1 <= 1 && small(c3.2 as int),
        small(dx as int),
        small(dy as int),
        small(vx as int),
        small(vy as int),
    ensures
        r == piece_hit((c0.0 as int, c0.1 as int, c0.2 as int), (c1.0 as int, c1.1 as int, c1.2 as int),
            (c2.0 as int, c2.1 as int, c2.2 as int), (c3.0 as int, c3.1 as int, c3.2 as int),
            (dx as int, dy as int), (vx as int, vy as int)),
{
    let s0: (bool, i128, i128, i128, i128) = (true, 0, 1, 1, 1);
    let s1 = step_exec(s0, c0, dx, dy, vx, vy);
    let s2 = step_exec(s1, c1, dx, dy, vx, vy);
    let s3 = step_exec(s2, c2, dx, dy, vx, vy);
    let s4 = step_exec(s3, c3, dx, dy, vx, vy);
    proof {
        let b = 0x10_0000_0000int;
        assert(-(b * b) <= s4.1 * s4.4 <= b * b) by (nonlinear_arith)
            requires -b <= s4.1 <= b, 0 < s4.4 <= b;
        assert(-(b * b) <= s4.3 * s4.2 <= b * b) by (nonlinear_arith)
            requires -b <= s4.3 <= b, 0 < s4.2 <= b;
    }
    s4.0 && s4.1 * s4.4 <= s4.3 * s4.2
}

fn mask_bit_exec(mask: u8, b: u8) -> (r: bool)
    requires
        b < 4,
    ensures
        r == mask_bit(mask, b as int),
{
    if b == 0 {
        mask % 2 == 1
    } else if b == 1 {
        (mask / 2) % 2 == 1
    } else if b == 2 {
        (mask / 4) % 2 == 1
    } else {
        (mask / 8) % 2 == 1
    }
}

fn kernel_exec(mask: u8, h: i128, dx: i128, dy: i128, vx: i128, vy: i128) -> (r: bool)
    requires
        0 <= h <= 0x100_0000,
        small(dx as int),
        small(dy as int),
        small(vx as int),
        small(vy as int),
    ensures
        r == kernel_hit(mask, h as int, (dx as int, dy as int), (vx as int, vy as int)),
{
    if piece_exec((1, 1, h), (1, -1, h), (-1, 1, h), (-1, -1, h), dx, dy, vx, vy) {
        return true;
    }
    if mask_bit_exec(mask, 0) && piece_exec((-1, 0, h), (1, 0, 0), (0, -1, h), (0, 1, 0), dx, dy, vx, vy) {
        return true;
    }
    if mask_bit_exec(mask, 1) && piece_exec((1, 0, h), (-1, 0, 0), (0, -1, h), (0, 1, 0), dx, dy, vx, vy) {
        return true;
    }
    if mask_bit_exec(mask, 2) && piece_exec((-1, 0, h), (1, 0, 0), (0, 1, h), (0, -1, 0), dx, dy, vx, vy) {
        return true;
    }
    mask_bit_exec(mask, 3) && piece_exec((1, 0, h), (-1, 0, 0), (0, 1, h), (0, -1, 0), dx, dy, vx, vy)
}


// ---------- exec: one pixel ----------

fn ctr_exec(x: u8, k: i128) -> (r: i128)
    requires
        1 <= k <= MAX_SCALE,
    ensures
        r == ctr(x, k as int),
        0 <= r <= 0x2_0000_0000,
{
    proof {
        assert((2 * x + 1) * k <= 511 * 0x100_0000) by (nonlinear_arith)
            requires x <= 255, 1 <= k <= 0x100_0000;
        assert((2 * x + 1) * k >= 0) by (nonlinear_arith)
            requires x <= 255, 1 <= k;
    }
    (2 * x as i128 + 1) * k
}

fn step_of(a: u8, b: u8, k: i128) -> (r: i128)
    requires
        1 <= k <= MAX_SCALE,
    ensures
        r == (b - a) * k,
        -0x1_0000_0000 <= r <= 0x1_0000_0000,
{
    proof {
        assert(-256 * 0x100_0000 <= (b - a) * k <= 256 * 0x100_0000) by (nonlinear_arith)
            requires a <= 255, b <= 255, 1 <= k <= 0x100_0000;
    }
    (b as i128 - a as i128) * k
}

fn half_sweep_exec(me: Anchor, ot: Anchor, k: i128, px: i128, py: i128) -> (r: bool)
    requires
        1 <= k <= MAX_SCALE,
        0 <= px <= 0x1000_0000,
        0 <= py <= 0x1000_0000,
    ensures
        r == half_sweep(me, ot, k as int, px as int, py as int),
{
    let dx = px - ctr_exec(me.c, k);
    let dy = py - ctr_exec(me.r, k);
    let vx = step_of(me.c, ot.c, k);
    let vy = step_of(me.r, ot.r, k);
    kernel_exec(me.quad_mask, k, dx, dy, vx, vy)
}

fn isolated_exec(ed: &Vec<Edge>, x: usize) -> (r: bool)
    ensures
        r == isolated(ed@, x as int),
{
    let mut iso = true;
    let mut y: usize = 0;
    while y < ed.len()
        invariant
            y <= ed@.len(),
            iso == (forall|z: int| 0 <= z < y ==> ed@[z].a != x && ed@[z].b != x),
        decreases ed@.len() - y,
    {
        if ed[y].a as usize == x || ed[y].b as usize == x {
            iso = false;
        }
        y = y + 1;
    }
    iso
}

fn ink_v1_exec(an: &Vec<Anchor>, ed: &Vec<Edge>, k: i128, i: i128, j: i128) -> (r: bool)
    requires
        1 <= k <= MAX_SCALE,
        0 <= i < 5 * k,
        0 <= j < 7 * k,
    ensures
        r == ink_v1(an@, ed@, k as int, i as int, j as int),
{
    let cr = j / k;
    let cc = i / k;
    let px = 2 * i + 1;
    let py = 2 * j + 1;
    let mut in_anchor = false;
    let mut x: usize = 0;
    while x < an.len()
        invariant
            x <= an@.len(),
            in_anchor == (exists|z: int| 0 <= z < x && #[trigger] anchor_in(an@, z, cr as int, cc as int)),
        decreases an@.len() - x,
    {
        if an[x].r as i128 == cr && an[x].c as i128 == cc {
            in_anchor = true;
        }
        proof {
            if !in_anchor {
                assert forall|z: int| 0 <= z < x + 1 implies !anchor_in(an@, z, cr as int, cc as int) by {
                    if z < x {
                        assert(!anchor_in(an@, z, cr as int, cc as int));
                    }
                }
            } else {
                if an@[x as int].r as int == cr && an@[x as int].c as int == cc {
                    assert(anchor_in(an@, x as int, cr as int, cc as int));
                }
            }
        }
        x = x + 1;
    }
    let mut in_bridge = false;
    let mut y: usize = 0;
    while y < ed.len()
        invariant
            y <= ed@.len(),
            in_bridge == (exists|z: int| 0 <= z < y && #[trigger] bridge_in(an@, ed@, z, cr as int, cc as int)),
        decreases ed@.len() - y,
    {
        let e = ed[y];
        let mut hit = false;
        if (e.a as usize) < an.len() && (e.b as usize) < an.len() && e.diag {
            let ea = an[e.a as usize];
            let eb = an[e.b as usize];
            hit = (ea.r as i128 == cr && eb.c as i128 == cc) || (eb.r as i128 == cr && ea.c as i128 == cc);
        }
        assert(hit == bridge_in(an@, ed@, y as int, cr as int, cc as int));
        if hit {
            in_bridge = true;
        }
        proof {
            if !in_bridge {
                assert forall|z: int| 0 <= z < y + 1 implies !bridge_in(an@, ed@, z, cr as int, cc as int) by {
                    if z < y {
                        assert(!bridge_in(an@, ed@, z, cr as int, cc as int));
                    }
                }
            }
        }
        y = y + 1;
    }
    if !(in_anchor || in_bridge) {
        return false;
    }
    proof {
        assert(0 <= px <= 0x1000_0000) by (nonlinear_arith) requires px == 2 * i + 1, 0 <= i < 5 * k, k <= 0x100_0000;
        assert(0 <= py <= 0x1000_0000) by (nonlinear_arith) requires py == 2 * j + 1, 0 <= j < 7 * k, k <= 0x100_0000;
    }
    let mut found = false;
    let mut y: usize = 0;
    while y < ed.len()
        invariant
            y <= ed@.len(),
            1 <= k <= MAX_SCALE,
            0 <= px <= 0x1000_0000,
            0 <= py <= 0x1000_0000,
            found == (exists|z: int| 0 <= z < y && #[trigger] edge_hits_v1(an@, ed@, z, k as int, px as int, py as int)),
        decreases ed@.len() - y,
    {
        let e = ed[y];
        let mut hit = false;
        if (e.a as usize) < an.len() && (e.b as usize) < an.len() {
            let ea = an[e.a as usize];
            let eb = an[e.b as usize];
            hit = half_sweep_exec(ea, eb, k, px, py) || half_sweep_exec(eb, ea, k, px, py);
        }
        assert(hit == edge_hits_v1(an@, ed@, y as int, k as int, px as int, py as int));
        if hit {
            found = true;
        }
        proof {
            if !found {
                assert forall|z: int| 0 <= z < y + 1 implies !edge_hits_v1(an@, ed@, z, k as int, px as int, py as int) by {
                    if z < y {
                        assert(!edge_hits_v1(an@, ed@, z, k as int, px as int, py as int));
                    }
                }
            }
        }
        y = y + 1;
    }
    let mut rest = false;
    let mut x: usize = 0;
    while x < an.len()
        invariant
            x <= an@.len(),
            1 <= k <= MAX_SCALE,
            0 <= px <= 0x1000_0000,
            0 <= py <= 0x1000_0000,
            rest == (exists|z: int| 0 <= z < x && #[trigger] rest_hits_v1(an@, ed@, z, k as int, px as int, py as int)),
        decreases an@.len() - x,
    {
        let a = an[x];
        let hit = isolated_exec(ed, x) && kernel_exec(a.quad_mask, k, px - ctr_exec(a.c, k), py - ctr_exec(a.r, k), 0, 0);
        assert(hit == rest_hits_v1(an@, ed@, x as int, k as int, px as int, py as int));
        if hit {
            rest = true;
        }
        proof {
            if !rest {
                assert forall|z: int| 0 <= z < x + 1 implies !rest_hits_v1(an@, ed@, z, k as int, px as int, py as int) by {
                    if z < x {
                        assert(!rest_hits_v1(an@, ed@, z, k as int, px as int, py as int));
                    }
                }
            }
        }
        x = x + 1;
    }
    found || rest
}

fn abs_i(x: i128) -> (r: i128)
    requires
        x > i128::MIN,
    ensures
        r == (if x >= 0 { x as int } else { -x }),
{
    if x >= 0 { x } else { -x }
}

fn edge_v2_exec(an: &Vec<Anchor>, e: Edge, k: i128, px: i128, py: i128) -> (r: bool)
    requires
        1 <= k <= MAX_SCALE,
        0 <= px <= 0x1000_0000,
        0 <= py <= 0x1000_0000,
        e.a < an@.len(),
        e.b < an@.len(),
    ensures
        r == ({
            let ax = ctr(an@[e.a as int].c, k as int);
            let ay = ctr(an@[e.a as int].r, k as int);
            let bx = ctr(an@[e.b as int].c, k as int);
            let by = ctr(an@[e.b as int].r, k as int);
            if !e.diag {
                if ay == by {
                    &&& (if ax <= bx { ax } else { bx }) <= px <= (if ax <= bx { bx } else { ax })
                    &&& ay - k <= py <= ay + k
                } else {
                    &&& (if ay <= by { ay } else { by }) <= py <= (if ay <= by { by } else { ay })
                    &&& ax - k <= px <= ax + k
                }
            } else {
                let vx = bx - ax;
                let vy = by - ay;
                let cross = (px - ax) * vy - (py - ay) * vx;
                let dot = (px - ax) * vx + (py - ay) * vy;
                let avx = if vx >= 0 { vx } else { -vx };
                &&& -(2 * (k - 1) * avx) <= cross <= 2 * (k - 1) * avx
                &&& 0 <= dot <= 2 * vx * vx
            }
        }),
{
    let ax = ctr_exec(an[e.a as usize].c, k);
    let ay = ctr_exec(an[e.a as usize].r, k);
    let bx = ctr_exec(an[e.b as usize].c, k);
    let by = ctr_exec(an[e.b as usize].r, k);
    if !e.diag {
        let lx = if ax <= bx { ax } else { bx };
        let hx = if ax <= bx { bx } else { ax };
        let ly = if ay <= by { ay } else { by };
        let hy = if ay <= by { by } else { ay };
        if ay == by {
            lx <= px && px <= hx && ay - k <= py && py <= ay + k
        } else {
            ly <= py && py <= hy && ax - k <= px && px <= ax + k
        }
    } else {
        let vx = bx - ax;
        let vy = by - ay;
        let b = 0x4_0000_0000i128;
        proof {
            let bb = 0x4_0000_0000int;
            assert(-(bb * bb) <= (px - ax) * vy <= bb * bb) by (nonlinear_arith)
                requires -bb <= px - ax <= bb, -bb <= vy <= bb;
            assert(-(bb * bb) <= (py - ay) * vx <= bb * bb) by (nonlinear_arith)
                requires -bb <= py - ay <= bb, -bb <= vx <= bb;
            assert(-(bb * bb) <= (px - ax) * vx <= bb * bb) by (nonlinear_arith)
                requires -bb <= px - ax <= bb, -bb <= vx <= bb;
            assert(-(bb * bb) <= (py - ay) * vy <= bb * bb) by (nonlinear_arith)
                requires -bb <= py - ay <= bb, -bb <= vy <= bb;
            assert(0 <= 2 * (k - 1) <= 0x200_0000);
            assert(0 <= vx * vx <= bb * bb) by (nonlinear_arith)
                requires -bb <= vx <= bb;
        }
        let cross = (px - ax) * vy - (py - ay) * vx;
        let dot = (px - ax) * vx + (py - ay) * vy;
        let avx = abs_i(vx);
        proof {
            let bb = 0x4_0000_0000int;
            assert(0 <= 2 * (k - 1) * avx <= 0x200_0000 * bb) by (nonlinear_arith)
                requires 0 <= 2 * (k - 1) <= 0x200_0000, 0 <= avx <= bb;
        }
        let w = 2 * (k - 1) * avx;
        let vv = vx * vx;
        proof {
            assert(2 * vx * vx == 2 * (vx * vx)) by (nonlinear_arith);
        }
        -w <= cross && cross <= w && 0 <= dot && dot <= 2 * vv
    }
}

fn node_v2_exec(an: &Vec<Anchor>, ed: &Vec<Edge>, x: usize, k: i128, px: i128, py: i128) -> (r: bool)
    requires
        1 <= k <= MAX_SCALE,
        0 <= px <= 0x1000_0000,
        0 <= py <= 0x1000_0000,
        x < an@.len(),
    ensures
        r == node_hits_v2(an@, ed@, x as int, k as int, px as int, py as int),
{
    let a = an[x];
    let dx = px - ctr_exec(a.c, k);
    let dy = py - ctr_exec(a.r, k);
    let q: u8 = (if dy < 0 { 0u8 } else { 2u8 }) + (if dx < 0 { 0u8 } else { 1u8 });
    if -k <= dx && dx <= k && -k <= dy && dy <= k && mask_bit_exec(a.quad_mask, q) {
        return true;
    }
    isolated_exec(ed, x) && abs_i(dx) + abs_i(dy) <= k
}

fn ink_v2_exec(an: &Vec<Anchor>, ed: &Vec<Edge>, k: i128, i: i128, j: i128) -> (r: bool)
    requires
        1 <= k <= MAX_SCALE,
        0 <= i < 5 * k,
        0 <= j < 7 * k,
    ensures
        r == ink_v2(an@, ed@, k as int, i as int, j as int),
{
    let px = 2 * i + 1;
    let py = 2 * j + 1;
    proof {
        assert(0 <= px <= 0x1000_0000) by (nonlinear_arith) requires px == 2 * i + 1, 0 <= i < 5 * k, k <= 0x100_0000;
        assert(0 <= py <= 0x1000_0000) by (nonlinear_arith) requires py == 2 * j + 1, 0 <= j < 7 * k, k <= 0x100_0000;
    }
    let mut found = false;
    let mut y: usize = 0;
    while y < ed.len()
        invariant
            y <= ed@.len(),
            1 <= k <= MAX_SCALE,
            0 <= px <= 0x1000_0000,
            0 <= py <= 0x1000_0000,
            found == (exists|z: int| 0 <= z < y && #[trigger] edge_hits_v2(an@, ed@, z, k as int, px as int, py as int)),
        decreases ed@.len() - y,
    {
        let e = ed[y];
        let mut hit = false;
        if (e.a as usize) < an.len() && (e.b as usize) < an.len() {
            hit = edge_v2_exec(an, e, k, px, py);
        }
        assert(hit == edge_hits_v2(an@, ed@, y as int, k as int, px as int, py as int));
        if hit {
            found = true;
        }
        proof {
            if !found {
                assert forall|z: int| 0 <= z < y + 1 implies !edge_hits_v2(an@, ed@, z, k as int, px as int, py as int) by {
                    if z < y {
                        assert(!edge_hits_v2(an@, ed@, z, k as int, px as int, py as int));
                    }
                }
            }
        }
        y = y + 1;
    }
    let mut node = false;
    let mut x: usize = 0;
    while x < an.len()
        invariant
            x <= an@.len(),
            1 <= k <= MAX_SCALE,
            0 <= px <= 0x1000_0000,
            0 <= py <= 0x1000_0000,
            node == (exists|z: int| 0 <= z < x && #[trigger] node_hits_v2(an@, ed@, z, k as int, px as int, py as int)),
        decreases an@.len() - x,
    {
        let hit = node_v2_exec(an, ed, x, k, px, py);
        if hit {
            node = true;
        }
        proof {
            if !node {
                assert forall|z: int| 0 <= z < x + 1 implies !node_hits_v2(an@, ed@, z, k as int, px as int, py as int) by {
                    if z < x {
                        assert(!node_hits_v2(an@, ed@, z, k as int, px as int, py as int));
                    }
                }
            }
        }
        x = x + 1;
    }
    found || node
}


fn ink_exec(an: &Vec<Anchor>, ed: &Vec<Edge>, k: i128, i: i128, j: i128) -> (r: bool)
    requires
        1 <= k <= MAX_SCALE,
        0 <= i < 5 * k,
        0 <= j < 7 * k,
    ensures
        r == ink(an@, ed@, k as int, i as int, j as int),
{
    if k % 2 == 1 {
        ink_v2_exec(an, ed, k, i, j)
    } else {
        ink_v1_exec(an, ed, k, i, j)
    }
}

/// The plain rows of a bitmap.
pub open spec fn plain(rows: Seq<Vec<bool>>) -> Seq<Seq<bool>> {
    rows.map_values(|r: Vec<bool>| r@)
}

/// Rasterise a glyph's anchors and edges at scale `k`: `7k` rows of `5k`
/// pixels, under the master law of `k`'s parity.
pub fn raster(g: &Glyph, k: u32) -> (rows: Vec<Vec<bool>>)
    requires
        1 <= k <= MAX_SCALE,
    ensures
        plain(rows@) == bitmap(g.anchors@, g.edges@, k as int),
{
    let kk = k as i128;
    let h: u32 = 7 * k;
    let w: u32 = 5 * k;
    let mut rows: Vec<Vec<bool>> = Vec::new();
    let mut j: u32 = 0;
    while j < h
        invariant
            1 <= k <= MAX_SCALE,
            kk == k,
            h == 7 * k,
            w == 5 * k,
            j <= h,
            rows@.len() == j,
            forall|jj: int| 0 <= jj < j ==> #[trigger] rows@[jj]@ == bitmap(g.anchors@, g.edges@, k as int)[jj],
        decreases h - j,
    {
        let mut row: Vec<bool> = Vec::new();
        let mut i: u32 = 0;
        while i < w
            invariant
                1 <= k <= MAX_SCALE,
                kk == k,
                w == 5 * k,
                j < h,
                h == 7 * k,
                i <= w,
                row@.len() == i,
                forall|ii: int| 0 <= ii < i ==> #[trigger] row@[ii] == ink(g.anchors@, g.edges@, k as int, ii, j as int),
            decreases w - i,
        {
            let p = ink_exec(&g.anchors, &g.edges, kk, i as i128, j as i128);
            row.push(p);
            i = i + 1;
        }
        proof {
            assert(row@ =~= bitmap(g.anchors@, g.edges@, k as int)[j as int]);
        }
        rows.push(row);
        j = j + 1;
    }
    proof {
        assert(plain(rows@) =~= bitmap(g.anchors@, g.edges@, k as int));
    }
    rows
}

/// The glyph data of `c` in the master a scale draws, as a record.
fn glyph_at(c: char, k: u32) -> (r: Option<Glyph>)
    ensures
        match font_at(c, k as int) {
            Some(d) => r matches Some(g) && g.ch == c && (g.anchors@, g.edges@) == d,
            None => r is None,
        },
{
    if k % 2 == 1 { glyph_v2(c) } else { glyph_v1(c) }
}

/// `c`'s bitmap at scale `k` (`None` outside the nano14 alphabet): v1 at
/// even scales, v2 at odd ones.
pub fn glyph_bitmap(c: char, k: u32) -> (r: Option<Vec<Vec<bool>>>)
    requires
        1 <= k <= MAX_SCALE,
    ensures
        match font_at(c, k as int) {
            Some((an, ed)) => r matches Some(rows) && plain(rows@) == bitmap(an, ed, k as int),
            None => r is None,
        },
{
    match glyph_at(c, k) {
        Some(g) => Some(raster(&g, k)),
        None => None,
    }
}

// ---------- the run emitter ----------

/// End of the ink run starting at `i` (the first blank pixel or the end).
pub open spec fn run_end(row: Seq<bool>, i: int) -> int
    decreases row.len() - i,
{
    if i < 0 || i >= row.len() || !row[i] {
        i
    } else {
        run_end(row, i + 1)
    }
}

pub proof fn lemma_run_end(row: Seq<bool>, i: int)
    requires
        0 <= i <= row.len(),
    ensures
        i <= run_end(row, i) <= row.len(),
        i < row.len() && row[i] ==> i < run_end(row, i),
    decreases row.len() - i,
{
    if i < row.len() && row[i] {
        lemma_run_end(row, i + 1);
    }
}

/// One run rect, one pixel tall.
pub open spec fn run_rect(x: int, y: int, w: int) -> Seq<char> {
    "<rect x=\""@ + dec(x as nat) + "\" y=\""@ + dec(y as nat) + "\" width=\""@ + dec(w as nat)
        + "\" height=\"1\"/>"@
}

/// The run rects of `row` from pixel `i` on, left to right, the row at
/// height `y` and its first pixel at `x0`.
pub open spec fn runs_text(row: Seq<bool>, i: int, x0: int, y: int) -> Seq<char>
    decreases row.len() - i,
{
    if i < 0 || i >= row.len() {
        Seq::empty()
    } else if !row[i] {
        runs_text(row, i + 1, x0, y)
    } else {
        let e = run_end(row, i);
        proof { lemma_run_end(row, i); }
        run_rect(x0 + i, y, e - i) + runs_text(row, e, x0, y)
    }
}

/// The run rects of the first `j` rows, row `r` at height `y0 + r`.
pub open spec fn rows_text(rows: Seq<Seq<bool>>, j: int, x0: int, y0: int) -> Seq<char>
    decreases j,
{
    if j <= 0 {
        Seq::empty()
    } else {
        rows_text(rows, j - 1, x0, y0) + runs_text(rows[j - 1], 0, x0, y0 + j - 1)
    }
}

/// What drawing `c` at scale `k`, box top-left at `(x0, y0)`, appends.
pub open spec fn glyph_text(c: char, k: int, x0: int, y0: int) -> Option<Seq<char>> {
    match font_at(c, k) {
        Some((an, ed)) => Some(rows_text(bitmap(an, ed, k), 7 * k, x0, y0)),
        None => None,
    }
}

/// The refusal of a char the font does not cover.
pub open spec fn no_glyph_message(c: char) -> Seq<char> {
    "no nx75 glyph for "@ + char_debug(c) + ": the baked anchor font covers the nano14 alphabet "@ + ALPHABET@
}

fn write_runs(out: &mut String, row: &Vec<bool>, x0: u32, y: u32)
    requires
        x0 + row@.len() <= u32::MAX,
    ensures
        final(out)@ == old(out)@ + runs_text(row@, 0, x0 as int, y as int),
{
    let ghost start = old(out)@;
    let n = row.len();
    let mut i: usize = 0;
    while i < n
        invariant
            n == row@.len(),
            x0 + n <= u32::MAX,
            i <= n,
            start + runs_text(row@, 0, x0 as int, y as int) == out@ + runs_text(row@, i as int, x0 as int, y as int),
        decreases n - i,
    {
        if !row[i] {
            i = i + 1;
        } else {
            let s = i;
            proof { lemma_run_end(row@, s as int); }
            while i < n && row[i]
                invariant
                    n == row@.len(),
                    s < n,
                    row@[s as int],
                    s <= i <= n,
                    run_end(row@, s as int) == run_end(row@, i as int),
                decreases n - i,
            {
                i = i + 1;
            }
            let ghost before = out@;
            push_str(out, "<rect x=\"");
            push_dec(out, (x0 as usize + s) as u128);
            push_str(out, "\" y=\"");
            push_dec(out, y as u128);
            push_str(out, "\" width=\"");
            push_dec(out, (i - s) as u128);
            push_str(out, "\" height=\"1\"/>");
            proof {
                reveal_strlit("<rect x=\"");
                reveal_strlit("\" y=\"");
                reveal_strlit("\" width=\"");
                reveal_strlit("\" height=\"1\"/>");
                assert(out@ =~= before + run_rect(x0 + s, y as int, i - s));
                assert(runs_text(row@, s as int, x0 as int, y as int)
                    == run_rect(x0 + s, y as int, i - s) + runs_text(row@, i as int, x0 as int, y as int));
                assert(before + runs_text(row@, s as int, x0 as int, y as int)
                    =~= out@ + runs_text(row@, i as int, x0 as int, y as int));
            }
        }
    }
    proof {
        assert(out@ =~= start + runs_text(row@, 0, x0 as int, y as int));
    }
}

/// Append `c`'s nx75 ink to `out`, glyph box top-left at `(x0, y0)`,
/// rasterised at scale `k` and emitted as horizontal one-pixel-tall runs.
/// Errors for a char outside the nano14 alphabet, leaving `out` as it was.
pub fn write_glyph_runs(out: &mut String, c: char, x0: u32, y0: u32, k: u32) -> (r: Result<(), CodecError>)
    requires
        1 <= k <= MAX_SCALE,
        x0 + 5 * k <= u32::MAX,
        y0 + 7 * k <= u32::MAX,
    ensures
        match glyph_text(c, k as int, x0 as int, y0 as int) {
            Some(t) => r is Ok && final(out)@ == old(out)@ + t,
            None => final(out)@ == old(out)@ && (r matches Err(CodecError::Render(m)) && m@ == no_glyph_message(c)),
        },
{
    let rows = match glyph_bitmap(c, k) {
        Some(rows) => rows,
        None => {
            let mut m = "no nx75 glyph for ".to_owned();
            let d = debug_char(c);
            push_str(&mut m, d.as_str());
            push_str(&mut m, ": the baked anchor font covers the nano14 alphabet ");
            push_str(&mut m, ALPHABET);
            proof { reveal_strlit("no nx75 glyph for "); }
            return Err(CodecError::Render(m));
        },
    };
    let ghost bm = plain(rows@);
    let ghost start = old(out)@;
    let h: usize = rows.len();
    proof {
        let d = font_at(c, k as int)->0;
        assert(font_at(c, k as int) is Some);
        assert(bm == bitmap(d.0, d.1, k as int));
        assert(bm.len() == h);
        assert forall|jj: int| 0 <= jj < h implies (#[trigger] bm[jj]).len() == 5 * k by {
            assert(bm[jj] == bitmap(d.0, d.1, k as int)[jj]);
        }
    }
    let mut j: usize = 0;
    while j < h
        invariant
            h == rows@.len(),
            bm == plain(rows@),
            h == 7 * k,
            1 <= k <= MAX_SCALE,
            x0 + 5 * k <= u32::MAX,
            y0 + 7 * k <= u32::MAX,
            forall|jj: int| 0 <= jj < h ==> (#[trigger] bm[jj]).len() == 5 * k,
            j <= h,
            out@ == start + rows_text(bm, j as int, x0 as int, y0 as int),
        decreases h - j,
    {
        assert(rows@[j as int]@ == bm[j as int]);
        write_runs(out, &rows[j], x0, y0 + j as u32);
        j = j + 1;
        proof {
            assert(out@ =~= start + rows_text(bm, j as int, x0 as int, y0 as int));
        }
    }
    Ok(())
}

} // verus!
