//! Canvas group geometry in device px: every child must sit inside the
//! canvas (an error names the child and the overflow), and overlapping
//! children are reported — a warning, except two QR symbols overlapping,
//! which is an error.
//!
//! Children without an explicit size carry size 0: only their origin is
//! checked, and they never overlap.

use vstd::prelude::*;

use crate::payload::{Element, ElementV};
use crate::text::{dec, push_dec, push_str};

verus! {

/// A canvas child with its position and size already in device px
/// (size 0: no explicit size).
#[derive(Clone, Debug, PartialEq, Eq)]
pub struct CanvasChildPx {
    pub element: Element,
    pub x_px: u32,
    pub y_px: u32,
    pub size_px: u32,
}

/// One resolved canvas child, coordinates and size in device px.
#[derive(Clone, Debug, PartialEq, Eq)]
pub struct ResolvedChild {
    pub element: Element,
    pub x_px: u32,
    pub y_px: u32,
    /// Width in device px (0: content-derived, deferred).
    pub w_px: u32,
    pub h_px: u32,
}

/// A validated canvas.
#[derive(Clone, Debug, PartialEq, Eq)]
pub struct CanvasResolved {
    pub width_px: u32,
    pub height_px: u32,
    pub children: Vec<ResolvedChild>,
    /// Overlap warnings (an overlap of two QR symbols is an error).
    pub overlaps: Vec<String>,
}

/// Name of an element kind.
pub open spec fn element_kind(e: ElementV) -> Seq<char> {
    match e {
        ElementV::Qr(_) => "qr"@,
        ElementV::Id(_, _) => "id"@,
        ElementV::Space(_) => "space"@,
    }
}

/// The element kind's name.
pub fn element_name(e: &Element) -> (r: &'static str)
    ensures
        r@ == element_kind(e@),
{
    match e {
        Element::Qr { .. } => "qr",
        Element::Id { .. } => "id",
        Element::Space { .. } => "space",
    }
}

/// Whether an element is a QR symbol.
pub fn is_qr(e: &Element) -> (r: bool)
    ensures
        r == (e@ is Qr),
{
    match e {
        Element::Qr { .. } => true,
        _ => false,
    }
}

/// Two resolved children's rects overlap: both sized, and neither lies
/// wholly left, right, above or below the other.
pub open spec fn overlap(a: ResolvedChild, b: ResolvedChild) -> bool {
    &&& a.w_px != 0 && a.h_px != 0 && b.w_px != 0 && b.h_px != 0
    &&& !(a.x_px + a.w_px <= b.x_px || b.x_px + b.w_px <= a.x_px || a.y_px + a.h_px <= b.y_px
        || b.y_px + b.h_px <= a.y_px)
}

/// Whether two resolved children's rects overlap.
pub fn rects_overlap(a: &ResolvedChild, b: &ResolvedChild) -> (r: bool)
    ensures
        r == overlap(*a, *b),
{
    if a.w_px == 0 || a.h_px == 0 || b.w_px == 0 || b.h_px == 0 {
        return false;
    }
    let a_x2 = a.x_px as u64 + a.w_px as u64;
    let a_y2 = a.y_px as u64 + a.h_px as u64;
    let b_x2 = b.x_px as u64 + b.w_px as u64;
    let b_y2 = b.y_px as u64 + b.h_px as u64;
    !(a_x2 <= b.x_px as u64 || b_x2 <= a.x_px as u64 || a_y2 <= b.y_px as u64 || b_y2 <= a.y_px as u64)
}

/// The bounds error of child `i`, if any.
pub open spec fn bound_error(i: int, c: CanvasChildPx, w: u32, h: u32) -> Option<Seq<char>> {
    let name = element_kind(c.element@);
    let head = "canvas: child #"@ + dec(i as nat) + " ("@ + name + ")"@;
    if c.x_px > w {
        Some(head + " x="@ + dec(c.x_px as nat) + "px is outside canvas width "@ + dec(w as nat) + "px (overflow "@
            + dec((c.x_px - w) as nat) + "px)"@)
    } else if c.y_px > h {
        Some(head + " y="@ + dec(c.y_px as nat) + "px is outside canvas height "@ + dec(h as nat) + "px (overflow "@
            + dec((c.y_px - h) as nat) + "px)"@)
    } else if c.size_px > 0 && c.x_px + c.size_px > w {
        Some(head + " at x="@ + dec(c.x_px as nat) + " size "@ + dec(c.size_px as nat) + "px overflows canvas width "@
            + dec(w as nat) + "px (overflow "@ + dec((c.x_px + c.size_px - w) as nat) + "px)"@)
    } else if c.size_px > 0 && c.y_px + c.size_px > h {
        Some(head + " at y="@ + dec(c.y_px as nat) + " size "@ + dec(c.size_px as nat) + "px overflows canvas height "@
            + dec(h as nat) + "px (overflow "@ + dec((c.y_px + c.size_px - h) as nat) + "px)"@)
    } else {
        None
    }
}

/// The first bounds error among the first `k` children.
pub open spec fn first_bound_error(cs: Seq<CanvasChildPx>, w: u32, h: u32, k: int) -> Option<Seq<char>>
    decreases k,
{
    if k <= 0 {
        None
    } else {
        match first_bound_error(cs, w, h, k - 1) {
            Some(m) => Some(m),
            None => bound_error(k - 1, cs[k - 1], w, h),
        }
    }
}

/// Every child's arithmetic stays inside `u32` where it is reached.
pub open spec fn canvas_arith_ok(cs: Seq<CanvasChildPx>, w: u32, h: u32) -> bool {
    forall|i: int| 0 <= i < cs.len() ==> (#[trigger] cs[i]).x_px <= w && cs[i].y_px <= h
        ==> cs[i].x_px + cs[i].size_px <= u32::MAX && cs[i].y_px + cs[i].size_px <= u32::MAX
}

/// The message of an overlap of two QR symbols.
pub open spec fn qr_overlap_error(i: int, j: int) -> Seq<char> {
    "canvas: qr-over-qr overlap — children #"@ + dec(i as nat) + " and #"@ + dec(j as nat)
        + " both place a QR symbol at overlapping rects"@
}

/// The warning of an overlap.
pub open spec fn overlap_warning(i: int, a: CanvasChildPx, j: int, b: CanvasChildPx) -> Seq<char> {
    "canvas: child #"@ + dec(i as nat) + " ("@ + element_kind(a.element@) + ") overlaps child #"@ + dec(j as nat)
        + " ("@ + element_kind(b.element@) + ")"@
}

/// Two children's square boxes overlap: both sized, and neither lies
/// wholly left, right, above or below the other.
pub open spec fn boxes_overlap(a: CanvasChildPx, b: CanvasChildPx) -> bool {
    &&& a.size_px != 0 && b.size_px != 0
    &&& !(a.x_px + a.size_px <= b.x_px || b.x_px + b.size_px <= a.x_px || a.y_px + a.size_px <= b.y_px
        || b.y_px + b.size_px <= a.y_px)
}

/// Overlap outcomes of child `i` against children `j..`, in order.
pub open spec fn row_scan(cs: Seq<CanvasChildPx>, i: int, j: int) -> Result<Seq<Seq<char>>, Seq<char>>
    decreases cs.len() - j,
{
    if j < 0 || j >= cs.len() {
        Ok(Seq::empty())
    } else if boxes_overlap(cs[i], cs[j]) {
        if cs[i].element@ is Qr && cs[j].element@ is Qr {
            Err(qr_overlap_error(i, j))
        } else {
            match row_scan(cs, i, j + 1) {
                Err(m) => Err(m),
                Ok(ws) => Ok(seq![overlap_warning(i, cs[i], j, cs[j])] + ws),
            }
        }
    } else {
        row_scan(cs, i, j + 1)
    }
}

/// Overlap outcomes of every pair `(i, j)`, `i < j`, rows from `i` on.
pub open spec fn all_scan(cs: Seq<CanvasChildPx>, i: int) -> Result<Seq<Seq<char>>, Seq<char>>
    decreases cs.len() - i,
{
    if i < 0 || i >= cs.len() {
        Ok(Seq::empty())
    } else {
        match row_scan(cs, i, i + 1) {
            Err(m) => Err(m),
            Ok(ws) => match all_scan(cs, i + 1) {
                Err(m) => Err(m),
                Ok(ws2) => Ok(ws + ws2),
            },
        }
    }
}

/// Child `c` resolved: its size becomes a square box.
pub open spec fn resolved_as(r: ResolvedChild, c: CanvasChildPx) -> bool {
    r.element@ == c.element@ && r.x_px == c.x_px && r.y_px == c.y_px && r.w_px == c.size_px && r.h_px == c.size_px
}

fn copy_element(e: &Element) -> (r: Element)
    ensures
        r@ == e@,
{
    match e {
        Element::Qr { symbology } => Element::Qr { symbology: match symbology { Some(s) => Some(s.clone()), None => None } },
        Element::Id { grouping, id_chars } => Element::Id {
            grouping: match grouping { Some(s) => Some(s.clone()), None => None },
            id_chars: *id_chars,
        },
        Element::Space { size } => Element::Space { size: *size },
    }
}

fn bound_message(i: usize, c: &CanvasChildPx, w: u32, h: u32) -> (r: Option<String>)
    requires
        c.x_px <= w && c.y_px <= h ==> c.x_px + c.size_px <= u32::MAX && c.y_px + c.size_px <= u32::MAX,
    ensures
        match bound_error(i as int, *c, w, h) {
            Some(m) => r matches Some(s) && s@ == m,
            None => r is None,
        },
{
    let x = c.x_px;
    let y = c.y_px;
    let size = c.size_px;
    let which: u8 = if x > w { 1 } else if y > h { 2 } else if size > 0 && x + size > w { 3 } else if size > 0 && y + size > h { 4 } else { 0 };
    if which == 0 {
        return None;
    }
    let mut m = "canvas: child #".to_owned();
    push_dec(&mut m, i as u128);
    push_str(&mut m, " (");
    push_str(&mut m, element_name(&c.element));
    push_str(&mut m, ")");
    if which == 1 {
        push_str(&mut m, " x=");
        push_dec(&mut m, x as u128);
        push_str(&mut m, "px is outside canvas width ");
        push_dec(&mut m, w as u128);
        push_str(&mut m, "px (overflow ");
        push_dec(&mut m, (x - w) as u128);
    } else if which == 2 {
        push_str(&mut m, " y=");
        push_dec(&mut m, y as u128);
        push_str(&mut m, "px is outside canvas height ");
        push_dec(&mut m, h as u128);
        push_str(&mut m, "px (overflow ");
        push_dec(&mut m, (y - h) as u128);
    } else if which == 3 {
        push_str(&mut m, " at x=");
        push_dec(&mut m, x as u128);
        push_str(&mut m, " size ");
        push_dec(&mut m, size as u128);
        push_str(&mut m, "px overflows canvas width ");
        push_dec(&mut m, w as u128);
        push_str(&mut m, "px (overflow ");
        push_dec(&mut m, (x + size - w) as u128);
    } else {
        push_str(&mut m, " at y=");
        push_dec(&mut m, y as u128);
        push_str(&mut m, " size ");
        push_dec(&mut m, size as u128);
        push_str(&mut m, "px overflows canvas height ");
        push_dec(&mut m, h as u128);
        push_str(&mut m, "px (overflow ");
        push_dec(&mut m, (y + size - h) as u128);
    }
    push_str(&mut m, "px)");
    Some(m)
}

proof fn lemma_first_bound_some(cs: Seq<CanvasChildPx>, w: u32, h: u32, k: int, j: int)
    requires
        0 <= k <= j,
        first_bound_error(cs, w, h, k) is Some,
    ensures
        first_bound_error(cs, w, h, j) == first_bound_error(cs, w, h, k),
    decreases j - k,
{
    if k < j {
        lemma_first_bound_some(cs, w, h, k, j - 1);
    }
}

/// Validate a canvas in device px: every child inside the canvas (the
/// first offender errors, naming the child and the overflow), then every
/// pair checked for overlap in order — two QR symbols overlapping is an
/// error, any other overlap a warning.
#[verifier::rlimit(30)]
pub fn resolve_canvas_px(width_px: u32, height_px: u32, children: &Vec<CanvasChildPx>) -> (r: Result<CanvasResolved, String>)
    requires
        canvas_arith_ok(children@, width_px, height_px),
    ensures
        match first_bound_error(children@, width_px, height_px, children@.len() as int) {
            Some(m) => r matches Err(s) && s@ == m,
            None => match all_scan(children@, 0) {
                Err(m) => r matches Err(s) && s@ == m,
                Ok(ws) => r matches Ok(c) && c.width_px == width_px && c.height_px == height_px
                    && c.children@.len() == children@.len()
                    && (forall|i: int| 0 <= i < children@.len() ==> resolved_as(#[trigger] c.children@[i], children@[i]))
                    && c.overlaps@.map_values(|s: String| s@) == ws,
            },
        },
{
    let w = width_px;
    let h = height_px;
    let mut resolved: Vec<ResolvedChild> = Vec::new();
    let mut i: usize = 0;
    while i < children.len()
        invariant
            i <= children@.len(),
            w == width_px,
            h == height_px,
            canvas_arith_ok(children@, w, h),
            first_bound_error(children@, w, h, i as int) is None,
            resolved@.len() == i,
            forall|k: int| 0 <= k < i ==> resolved_as(#[trigger] resolved@[k], children@[k]),
        decreases children@.len() - i,
    {
        let c = &children[i];
        proof {
            assert(children@[i as int] == *c);
        }
        match bound_message(i, c, w, h) {
            Some(m) => {
                proof {
                    assert(bound_error(i as int, children@[i as int], w, h) == Some(m@));
                    assert(first_bound_error(children@, w, h, i + 1) == Some(m@));
                    lemma_first_bound_some(children@, w, h, i + 1, children@.len() as int);
                }
                return Err(m);
            },
            None => {},
        }
        resolved.push(ResolvedChild { element: copy_element(&c.element), x_px: c.x_px, y_px: c.y_px, w_px: c.size_px, h_px: c.size_px });
        i = i + 1;
    }
    let mut overlaps: Vec<String> = Vec::new();
    let ghost rs = children@;
    let mut a: usize = 0;
    while a < resolved.len()
        invariant
            rs == children@,
            w == width_px,
            h == height_px,
            first_bound_error(children@, w, h, children@.len() as int) is None,
            resolved@.len() == rs.len(),
            forall|k: int| 0 <= k < rs.len() ==> resolved_as(#[trigger] resolved@[k], rs[k]),
            a <= rs.len(),
            all_scan(rs, 0) == match all_scan(rs, a as int) {
                Ok(rest) => Ok::<Seq<Seq<char>>, Seq<char>>(overlaps@.map_values(|s: String| s@) + rest),
                Err(m) => Err::<Seq<Seq<char>>, Seq<char>>(m),
            },
        decreases rs.len() - a,
    {
        let mut b: usize = a + 1;
        let ghost row_start = overlaps@.map_values(|s: String| s@);
        while b < resolved.len()
            invariant
                rs == children@,
                w == width_px,
                h == height_px,
                first_bound_error(children@, w, h, children@.len() as int) is None,
                resolved@.len() == rs.len(),
                forall|k: int| 0 <= k < rs.len() ==> resolved_as(#[trigger] resolved@[k], rs[k]),
                a < rs.len(),
                a + 1 <= b <= rs.len(),
                row_scan(rs, a as int, a + 1) == match row_scan(rs, a as int, b as int) {
                    Ok(rest) => Ok::<Seq<Seq<char>>, Seq<char>>(overlaps@.map_values(|s: String| s@).skip(row_start.len() as int) + rest),
                    Err(m) => Err::<Seq<Seq<char>>, Seq<char>>(m),
                },
                overlaps@.map_values(|s: String| s@).take(row_start.len() as int) == row_start,
                all_scan(rs, 0) == match all_scan(rs, a as int) {
                    Ok(rest) => Ok::<Seq<Seq<char>>, Seq<char>>(row_start + rest),
                    Err(m) => Err::<Seq<Seq<char>>, Seq<char>>(m),
                },
                overlaps@.len() >= row_start.len(),
            decreases rs.len() - b,
        {
            proof {
                assert(resolved_as(resolved@[a as int], rs[a as int]));
                assert(resolved_as(resolved@[b as int], rs[b as int]));
            }
            if rects_overlap(&resolved[a], &resolved[b]) {
                if is_qr(&resolved[a].element) && is_qr(&resolved[b].element) {
                    let mut m = "canvas: qr-over-qr overlap — children #".to_owned();
                    push_dec(&mut m, a as u128);
                    push_str(&mut m, " and #");
                    push_dec(&mut m, b as u128);
                    push_str(&mut m, " both place a QR symbol at overlapping rects");
                    proof {
                        assert(row_scan(rs, a as int, b as int) == Err::<Seq<Seq<char>>, Seq<char>>(m@));
                        assert(all_scan(rs, a as int) == Err::<Seq<Seq<char>>, Seq<char>>(m@));
                        assert(all_scan(children@, 0) == Err::<Seq<Seq<char>>, Seq<char>>(m@));
                    }
                    return Err(m);
                }
                let mut m = "canvas: child #".to_owned();
                push_dec(&mut m, a as u128);
                push_str(&mut m, " (");
                push_str(&mut m, element_name(&resolved[a].element));
                push_str(&mut m, ") overlaps child #");
                push_dec(&mut m, b as u128);
                push_str(&mut m, " (");
                push_str(&mut m, element_name(&resolved[b].element));
                push_str(&mut m, ")");
                let ghost before = overlaps@.map_values(|s: String| s@);
                let ghost mv = m@;
                overlaps.push(m);
                proof {
                    assert(overlaps@.map_values(|s: String| s@) =~= before.push(mv));
                    assert(before.push(mv).skip(row_start.len() as int) =~= before.skip(row_start.len() as int).push(mv));
                    assert(before.push(mv).take(row_start.len() as int) =~= before.take(row_start.len() as int));
                    match row_scan(rs, a as int, b + 1) {
                        Ok(rest) => {
                            assert(before.skip(row_start.len() as int) + (seq![mv] + rest)
                                =~= before.skip(row_start.len() as int).push(mv) + rest);
                        },
                        Err(_) => {},
                    }
                }
            }
            b = b + 1;
        }
        proof {
            let ov = overlaps@.map_values(|s: String| s@);
            assert(ov =~= row_start + ov.skip(row_start.len() as int));
            assert(row_scan(rs, a as int, b as int) == Ok::<Seq<Seq<char>>, Seq<char>>(Seq::empty()));
            assert(ov.skip(row_start.len() as int) + Seq::<Seq<char>>::empty() =~= ov.skip(row_start.len() as int));
            match all_scan(rs, a + 1) {
                Ok(rest) => {
                    assert(row_start + (ov.skip(row_start.len() as int) + rest) =~= ov + rest);
                },
                Err(_) => {},
            }
        }
        a = a + 1;
    }
    proof {
        assert(overlaps@.map_values(|s: String| s@) + Seq::<Seq<char>>::empty() =~= overlaps@.map_values(|s: String| s@));
    }
    Ok(CanvasResolved { width_px: w, height_px: h, children: resolved, overlaps })
}

} // verus!
