//! Repeat composition: a rendered label, optionally rotated by a right
//! angle, laid out as `n` copies along an axis into one strip.
//!
//! `linear` spacing has `n-1` gaps, `cyclic` has `n` (closed loops).
//! `fill` fits as many copies as `length` allows at the gap floor; a
//! missing gap is derived from `length`. A blank excess zone sits at the
//! start or the end of the strip. Infeasible requests quote feasible
//! alternatives.

use vstd::prelude::*;

use crate::px::PxLabel;
use crate::text::{
    dec, eq_lit, find_from, find_pat, lemma_find_bounds, lemma_rfind_bounds, push_dec, push_str,
    rfind, rfind_pat, string_of, strip_bounds, strip_char, to_chars,
};
use crate::CodecError;

verus! {

/// Axis of the repeat: `along` the canvas's flow, or `across` it.
#[derive(Clone, Copy, Debug, Default, PartialEq, Eq, Structural)]
pub enum RepeatAxis {
    #[default]
    Along,
    Across,
}

/// Inter-copy spacing: `linear` has `n-1` gaps, `cyclic` has `n`.
#[derive(Clone, Copy, Debug, Default, PartialEq, Eq, Structural)]
pub enum Spacing {
    #[default]
    Linear,
    Cyclic,
}

/// Per-copy orientation: `alternate` turns every second copy 180°.
#[derive(Clone, Copy, Debug, Default, PartialEq, Eq, Structural)]
pub enum Orient {
    #[default]
    Same,
    Alternate,
}

/// Whole-label rotation by a right angle, applied before repeating.
#[derive(Clone, Copy, Debug, Default, PartialEq, Eq, Structural)]
pub enum Rotate {
    #[default]
    R0,
    R90,
    R180,
    R270,
}

/// How many copies: an explicit count, or as many as fit.
#[derive(Clone, Copy, Debug, PartialEq, Eq, Structural)]
pub enum RepeatCount {
    N(u32),
    Fill,
}

/// Where the blank excess zone sits.
#[derive(Clone, Copy, Debug, PartialEq, Eq, Structural)]
pub enum ExcessAt {
    Start,
    End,
}

/// Repeat options.
#[derive(Clone, Debug, PartialEq, Eq, Structural)]
pub struct RepeatOpts {
    pub count: RepeatCount,
    pub axis: RepeatAxis,
    pub spacing: Spacing,
    pub orient: Orient,
    pub rotate: Rotate,
    /// Strip length; required for `fill` and for derived gaps.
    pub length_px: Option<u32>,
    /// Explicit inter-copy gap (the floor under `fill`).
    pub gap_px: Option<u32>,
    /// Blank excess zone.
    pub excess_px: u32,
    pub excess_at: ExcessAt,
}

/// The resolved repeat geometry a receipt records.
#[derive(Clone, Debug, PartialEq, Eq)]
pub struct RepeatResolved {
    pub n: u32,
    pub gap_px: u32,
    pub axis: String,
    pub orient: String,
    pub rotate: u32,
    pub spacing: String,
    pub excess_px: u32,
    pub excess_at: String,
    /// Length the strip occupies along the axis, excess included.
    pub length_px: u32,
}

/// A composed strip.
#[derive(Clone, Debug)]
pub struct RepeatComposed {
    pub svg: String,
    pub width_px: u32,
    pub height_px: u32,
    pub resolved: RepeatResolved,
}

/// Gap floor of `fill` when no gap is given.
pub const FILL_GAP_FLOOR_PX: u32 = 1;

pub open spec fn axis_name(a: RepeatAxis) -> Seq<char> {
    match a {
        RepeatAxis::Along => "along"@,
        RepeatAxis::Across => "across"@,
    }
}

pub open spec fn spacing_name(s: Spacing) -> Seq<char> {
    match s {
        Spacing::Linear => "linear"@,
        Spacing::Cyclic => "cyclic"@,
    }
}

pub open spec fn orient_name(o: Orient) -> Seq<char> {
    match o {
        Orient::Same => "same"@,
        Orient::Alternate => "alternate"@,
    }
}

pub open spec fn excess_name(e: ExcessAt) -> Seq<char> {
    match e {
        ExcessAt::Start => "start"@,
        ExcessAt::End => "end"@,
    }
}

/// Degrees of a rotation.
pub open spec fn deg_of(r: Rotate) -> u32 {
    match r {
        Rotate::R0 => 0,
        Rotate::R90 => 90,
        Rotate::R180 => 180,
        Rotate::R270 => 270,
    }
}

/// Message of a rejected rotation.
pub open spec fn rotate_error(d: u32) -> Seq<char> {
    "rotate "@ + dec(d as nat) + ": only 0, 90, 180, 270 supported (right angles)"@
}

impl RepeatAxis {
    pub fn name(self) -> (r: &'static str)
        ensures
            r@ == axis_name(self),
    {
        match self {
            RepeatAxis::Along => "along",
            RepeatAxis::Across => "across",
        }
    }
}

impl Spacing {
    pub fn name(self) -> (r: &'static str)
        ensures
            r@ == spacing_name(self),
    {
        match self {
            Spacing::Linear => "linear",
            Spacing::Cyclic => "cyclic",
        }
    }
}

impl Orient {
    pub fn name(self) -> (r: &'static str)
        ensures
            r@ == orient_name(self),
    {
        match self {
            Orient::Same => "same",
            Orient::Alternate => "alternate",
        }
    }
}

impl ExcessAt {
    pub fn name(self) -> (r: &'static str)
        ensures
            r@ == excess_name(self),
    {
        match self {
            ExcessAt::Start => "start",
            ExcessAt::End => "end",
        }
    }
}

impl Rotate {
    /// From degrees; only 0/90/180/270 are valid.
    pub fn from_deg(d: u32) -> (r: Result<Self, String>)
        ensures
            (d == 0 || d == 90 || d == 180 || d == 270) <==> r is Ok,
            r matches Ok(rot) ==> deg_of(rot) == d,
            r matches Err(m) ==> m@ == rotate_error(d),
    {
        if d == 0 {
            Ok(Rotate::R0)
        } else if d == 90 {
            Ok(Rotate::R90)
        } else if d == 180 {
            Ok(Rotate::R180)
        } else if d == 270 {
            Ok(Rotate::R270)
        } else {
            let mut m = "rotate ".to_owned();
            push_dec(&mut m, d as u128);
            push_str(&mut m, ": only 0, 90, 180, 270 supported (right angles)");
            Err(m)
        }
    }

    /// Degrees (0/90/180/270).
    pub fn deg(self) -> (r: u32)
        ensures
            r == deg_of(self),
    {
        match self {
            Rotate::R0 => 0,
            Rotate::R90 => 90,
            Rotate::R180 => 180,
            Rotate::R270 => 270,
        }
    }
}

impl Default for RepeatOpts {
    /// One copy, along, linear, same, unrotated, no length or gap, no
    /// excess (at the end).
    fn default() -> (o: Self)
        ensures
            o == (RepeatOpts {
                count: RepeatCount::N(1),
                axis: RepeatAxis::Along,
                spacing: Spacing::Linear,
                orient: Orient::Same,
                rotate: Rotate::R0,
                length_px: None,
                gap_px: None,
                excess_px: 0,
                excess_at: ExcessAt::End,
            }),
    {
        RepeatOpts {
            count: RepeatCount::N(1),
            axis: RepeatAxis::Along,
            spacing: Spacing::Linear,
            orient: Orient::Same,
            rotate: Rotate::R0,
            length_px: None,
            gap_px: None,
            excess_px: 0,
            excess_at: ExcessAt::End,
        }
    }
}

// ---------- the arithmetic ----------

/// Length of `n` copies of `cm` px with their gaps.
pub open spec fn content_len(n: int, cm: int, gap: int, spacing: Spacing) -> int {
    match spacing {
        Spacing::Linear => n * cm + (if n > 0 { n - 1 } else { 0 }) * gap,
        Spacing::Cyclic => n * cm + n * gap,
    }
}

/// `len − excess`, saturating at zero.
pub open spec fn room_of(len: int, ex: int) -> int {
    if len >= ex { len - ex } else { 0 }
}

/// Most copies fitting `room` at gap floor `gap`.
pub open spec fn max_fit_spec(room: int, cm: int, gap: int, spacing: Spacing) -> int {
    if cm + gap == 0 {
        0
    } else {
        match spacing {
            Spacing::Linear => (room + gap) / (cm + gap),
            Spacing::Cyclic => room / (cm + gap),
        }
    }
}

/// The gap that spreads `n` copies over `room`.
pub open spec fn derived_gap_spec(room: int, cm: int, n: int, spacing: Spacing) -> int {
    if n * cm >= room {
        0
    } else {
        let slack = room - n * cm;
        match spacing {
            Spacing::Linear => if n <= 1 { 0 } else { slack / (n - 1) },
            Spacing::Cyclic => slack / n,
        }
    }
}

fn max_fit(content_room: u32, copy_main: u32, gap: u32, spacing: Spacing) -> (r: u32)
    requires
        content_room + gap <= u32::MAX,
        copy_main + gap <= u32::MAX,
    ensures
        r == max_fit_spec(content_room as int, copy_main as int, gap as int, spacing),
{
    if copy_main + gap == 0 {
        return 0;
    }
    match spacing {
        Spacing::Linear => (content_room + gap) / (copy_main + gap),
        Spacing::Cyclic => content_room / (copy_main + gap),
    }
}

fn derived_gap(content_room: u32, copy_main: u32, n: u32, spacing: Spacing) -> (r: u32)
    requires
        n >= 1,
        n * copy_main <= u32::MAX,
    ensures
        r == derived_gap_spec(content_room as int, copy_main as int, n as int, spacing),
{
    let total_copies = n * copy_main;
    if total_copies >= content_room {
        return 0;
    }
    let slack = content_room - total_copies;
    match spacing {
        Spacing::Linear => if n <= 1 { 0 } else { slack / (n - 1) },
        Spacing::Cyclic => slack / n,
    }
}

// ---------- resolution of n and the gap ----------

pub open spec fn msg_zero_size() -> Seq<char> {
    "repeat: source label has zero size on the repeat axis"@
}

pub open spec fn msg_zero_n() -> Seq<char> {
    "repeat: n must be >= 1"@
}

pub open spec fn msg_gap_infeasible(
    n: int, cm: int, gap: int, spacing: Spacing, need: int, room: int, len: int, ex: int,
    fit: int, dgap: int,
) -> Seq<char> {
    "repeat: "@ + dec(n as nat) + " copies @ "@ + dec(cm as nat) + "px with gap "@ + dec(gap as nat)
        + "px ("@ + spacing_name(spacing) + ") needs "@ + dec(need as nat) + "px; have "@
        + dec(room as nat) + "px (length "@ + dec(len as nat) + "px − excess "@ + dec(ex as nat)
        + "px). Feasible: fit "@ + dec(fit as nat) + " copies at this gap, or use gap "@
        + dec(dgap as nat) + "px for "@ + dec(n as nat) + " copies"@
}

pub open spec fn msg_need_gap_or_length(n: int) -> Seq<char> {
    "repeat: "@ + dec(n as nat)
        + " copies needs either an explicit --repeat-gap or a --length to derive the gap from"@
}

pub open spec fn msg_copies_exceed(n: int, cm: int, copies: int, room: int, len: int, ex: int, fit: int) -> Seq<char> {
    "repeat: "@ + dec(n as nat) + " copies @ "@ + dec(cm as nat) + "px need "@ + dec(copies as nat)
        + "px just for the copies; content room is "@ + dec(room as nat) + "px (length "@
        + dec(len as nat) + "px − excess "@ + dec(ex as nat) + "px). Feasible: at most "@
        + dec(fit as nat) + " copies fit at zero gap"@
}

pub open spec fn msg_fill_needs_length() -> Seq<char> {
    "repeat: fill requires --length to know how many copies fit"@
}

pub open spec fn msg_fill_room(room: int, len: int, ex: int, cm: int) -> Seq<char> {
    "repeat: fill: content room "@ + dec(room as nat) + "px (length "@ + dec(len as nat)
        + " − excess "@ + dec(ex as nat) + ") cannot hold one "@ + dec(cm as nat) + "px copy"@
}

/// `(n, gap, length used)` for a copy of `cm` px along the axis, or the
/// message of the refusal.
/// A single copy fits the requested length, if any: with a gap, the copy
/// and its spacing; without one, the copy alone.
pub open spec fn one_copy_fits(opts: RepeatOpts, cm: int) -> bool {
    match opts.length_px {
        None => true,
        Some(len) => {
            let room = room_of(len as int, opts.excess_px as int);
            match opts.gap_px {
                Some(g) => content_len(1, cm, g as int, opts.spacing) <= room,
                None => cm <= room,
            }
        },
    }
}

pub open spec fn resolve_spec(opts: RepeatOpts, cm: int) -> Result<(int, int, int), Seq<char>> {
    let ex = opts.excess_px as int;
    let sp = opts.spacing;
    if cm == 0 {
        Err(msg_zero_size())
    } else {
        match opts.count {
            RepeatCount::N(n) => {
                let n = n as int;
                if n == 0 {
                    Err(msg_zero_n())
                } else if n == 1 && one_copy_fits(opts, cm) {
                    Ok((1, (match opts.gap_px { Some(g) => g as int, None => 0 }), cm + ex))
                } else {
                    match opts.gap_px {
                        Some(g) => {
                            let g = g as int;
                            let need = content_len(n, cm, g, sp);
                            match opts.length_px {
                                Some(len) => {
                                    let room = room_of(len as int, ex);
                                    if need > room {
                                        Err(msg_gap_infeasible(n, cm, g, sp, need, room, len as int, ex,
                                            max_fit_spec(room, cm, g, sp), derived_gap_spec(room, cm, n, sp)))
                                    } else {
                                        Ok((n, g, need + ex))
                                    }
                                },
                                None => Ok((n, g, need + ex)),
                            }
                        },
                        None => match opts.length_px {
                            None => Err(msg_need_gap_or_length(n)),
                            Some(len) => {
                                let room = room_of(len as int, ex);
                                if n * cm > room {
                                    Err(msg_copies_exceed(n, cm, n * cm, room, len as int, ex, room / cm))
                                } else {
                                    Ok((n, derived_gap_spec(room, cm, n, sp), room + ex))
                                }
                            },
                        },
                    }
                }
            },
            RepeatCount::Fill => match opts.length_px {
                None => Err(msg_fill_needs_length()),
                Some(len) => {
                    let g = match opts.gap_px { Some(g) => g as int, None => FILL_GAP_FLOOR_PX as int };
                    let room = room_of(len as int, ex);
                    if room < cm {
                        Err(msg_fill_room(room, len as int, ex, cm))
                    } else {
                        let fit = max_fit_spec(room, cm, g, sp);
                        Ok((if fit >= 1 { fit } else { 1 }, g, room + ex))
                    }
                },
            },
        }
    }
}

/// The arithmetic of the resolution stays inside `u32`.
pub open spec fn resolve_arith_ok(opts: RepeatOpts, cm: int) -> bool {
    let ex = opts.excess_px as int;
    let sp = opts.spacing;
    let max = u32::MAX as int;
    match opts.count {
        RepeatCount::N(n) => {
            let n = n as int;
            let general = match opts.gap_px {
                    Some(g) => {
                        let need = content_len(n, cm, g as int, sp);
                        &&& need <= max
                        &&& match opts.length_px {
                            Some(len) => need > room_of(len as int, ex) ==> room_of(len as int, ex) + g <= max
                                && cm + g <= max,
                            None => need + ex <= max,
                        }
                    },
                    None => match opts.length_px {
                        Some(len) => n * cm <= max,
                        None => true,
                    },
                };
            if cm == 0 || n == 0 {
                true
            } else if n == 1 {
                cm + ex <= max && (opts.length_px is Some ==> general)
            } else {
                general
            }
        },
        RepeatCount::Fill => match opts.length_px {
            Some(len) => {
                let g = match opts.gap_px { Some(g) => g as int, None => FILL_GAP_FLOOR_PX as int };
                room_of(len as int, ex) >= cm ==> room_of(len as int, ex) + g <= max && cm + g <= max
            },
            None => true,
        },
    }
}

proof fn lemma_content_mono(n: int, cm: int, gap: int, sp: Spacing)
    requires
        n >= 1,
        cm >= 1,
        gap >= 0,
    ensures
        content_len(n, cm, gap, sp) >= n * cm,
        n * cm >= n,
        n * cm >= cm,
{
    assert(n * cm >= n) by (nonlinear_arith)
        requires n >= 1, cm >= 1;
    assert(n * cm >= cm) by (nonlinear_arith)
        requires n >= 1, cm >= 1;
    assert((n - 1) * gap >= 0) by (nonlinear_arith)
        requires n >= 1, gap >= 0;
    assert(n * gap >= 0) by (nonlinear_arith)
        requires n >= 1, gap >= 0;
}

fn push_u32(s: &mut String, v: u32)
    ensures
        final(s)@ == old(s)@ + dec(v as nat),
{
    push_dec(s, v as u128);
}

/// Resolve `(n, gap, length used)` from the options for a copy of
/// `copy_main` px along the axis.
pub fn resolve_n_and_gap(opts: &RepeatOpts, copy_main: u32) -> (r: Result<(u32, u32, u32), String>)
    requires
        resolve_arith_ok(*opts, copy_main as int),
    ensures
        match resolve_spec(*opts, copy_main as int) {
            Ok((n, g, l)) => r matches Ok(t) && t.0 == n && t.1 == g && t.2 == l,
            Err(m) => r matches Err(s) && s@ == m,
        },
{
    if copy_main == 0 {
        return Err("repeat: source label has zero size on the repeat axis".to_owned());
    }
    let ex = opts.excess_px;
    match opts.count {
        RepeatCount::N(n) => {
            if n == 0 {
                return Err("repeat: n must be >= 1".to_owned());
            }
            if n == 1 {
                let fits = match opts.length_px {
                    None => true,
                    Some(len) => {
                        let room = len.saturating_sub(ex);
                        match opts.gap_px {
                            Some(g) => match opts.spacing {
                                Spacing::Linear => copy_main <= room,
                                Spacing::Cyclic => (copy_main as u64) + (g as u64) <= room as u64,
                            },
                            None => copy_main <= room,
                        }
                    },
                };
                if fits {
                    let gap = match opts.gap_px {
                        Some(g) => g,
                        None => 0,
                    };
                    return Ok((1, gap, copy_main + ex));
                }
            }
            proof { lemma_content_mono(n as int, copy_main as int, 0, opts.spacing); }
            match opts.gap_px {
                Some(gap) => {
                    proof {
                        lemma_content_mono(n as int, copy_main as int, gap as int, opts.spacing);
                    }
                    let need_content: u32 = match opts.spacing {
                        Spacing::Linear => n * copy_main + (n - 1) * gap,
                        Spacing::Cyclic => n * copy_main + n * gap,
                    };
                    match opts.length_px {
                        Some(len) => {
                            let content_room = len.saturating_sub(ex);
                            if need_content > content_room {
                                let fit = max_fit(content_room, copy_main, gap, opts.spacing);
                                let dgap = derived_gap(content_room, copy_main, n, opts.spacing);
                                let mut m = "repeat: ".to_owned();
                                push_u32(&mut m, n);
                                push_str(&mut m, " copies @ ");
                                push_u32(&mut m, copy_main);
                                push_str(&mut m, "px with gap ");
                                push_u32(&mut m, gap);
                                push_str(&mut m, "px (");
                                push_str(&mut m, opts.spacing.name());
                                push_str(&mut m, ") needs ");
                                push_u32(&mut m, need_content);
                                push_str(&mut m, "px; have ");
                                push_u32(&mut m, content_room);
                                push_str(&mut m, "px (length ");
                                push_u32(&mut m, len);
                                push_str(&mut m, "px − excess ");
                                push_u32(&mut m, ex);
                                push_str(&mut m, "px). Feasible: fit ");
                                push_u32(&mut m, fit);
                                push_str(&mut m, " copies at this gap, or use gap ");
                                push_u32(&mut m, dgap);
                                push_str(&mut m, "px for ");
                                push_u32(&mut m, n);
                                push_str(&mut m, " copies");
                                return Err(m);
                            }
                            proof {
                                if len < ex {
                                    assert(false);
                                }
                            }
                            Ok((n, gap, need_content + ex))
                        },
                        None => Ok((n, gap, need_content + ex)),
                    }
                },
                None => {
                    let len = match opts.length_px {
                        Some(l) => l,
                        None => {
                            let mut m = "repeat: ".to_owned();
                            push_u32(&mut m, n);
                            push_str(&mut m, " copies needs either an explicit --repeat-gap or a --length to derive the gap from");
                            return Err(m);
                        },
                    };
                    let content_room = len.saturating_sub(ex);
                    let copies_main = n * copy_main;
                    if copies_main > content_room {
                        let mut m = "repeat: ".to_owned();
                        push_u32(&mut m, n);
                        push_str(&mut m, " copies @ ");
                        push_u32(&mut m, copy_main);
                        push_str(&mut m, "px need ");
                        push_u32(&mut m, copies_main);
                        push_str(&mut m, "px just for the copies; content room is ");
                        push_u32(&mut m, content_room);
                        push_str(&mut m, "px (length ");
                        push_u32(&mut m, len);
                        push_str(&mut m, "px − excess ");
                        push_u32(&mut m, ex);
                        push_str(&mut m, "px). Feasible: at most ");
                        push_u32(&mut m, content_room / copy_main);
                        push_str(&mut m, " copies fit at zero gap");
                        return Err(m);
                    }
                    let gap = derived_gap(content_room, copy_main, n, opts.spacing);
                    proof {
                        if len < ex {
                            assert(false);
                        }
                    }
                    Ok((n, gap, content_room + ex))
                },
            }
        },
        RepeatCount::Fill => {
            let len = match opts.length_px {
                Some(l) => l,
                None => {
                    return Err("repeat: fill requires --length to know how many copies fit".to_owned());
                },
            };
            let gap_floor = match opts.gap_px {
                Some(g) => g,
                None => FILL_GAP_FLOOR_PX,
            };
            let content_room = len.saturating_sub(ex);
            if content_room < copy_main {
                let mut m = "repeat: fill: content room ".to_owned();
                push_u32(&mut m, content_room);
                push_str(&mut m, "px (length ");
                push_u32(&mut m, len);
                push_str(&mut m, " − excess ");
                push_u32(&mut m, ex);
                push_str(&mut m, ") cannot hold one ");
                push_u32(&mut m, copy_main);
                push_str(&mut m, "px copy");
                return Err(m);
            }
            let fit = max_fit(content_room, copy_main, gap_floor, opts.spacing);
            let n = if fit >= 1 { fit } else { 1 };
            proof {
                if len < ex {
                    assert(false);
                }
            }
            Ok((n, gap_floor, content_room + ex))
        },
    }
}

// ---------- rotation ----------

/// End of an SVG document's body: its last `</svg>`, else its length.
pub open spec fn inner_end(svg: Seq<char>) -> int {
    match rfind(svg, "</svg>"@) {
        Some(e) => e,
        None => svg.len() as int,
    }
}

/// The document's first `>` comes before its body's end.
pub open spec fn svg_inner_ok(svg: Seq<char>) -> bool {
    match find_from(svg, ">"@, 0) {
        Some(i) => i + 1 <= inner_end(svg),
        None => true,
    }
}

/// What lies between an SVG root's open tag and its last `</svg>`,
/// newlines trimmed from both ends.
pub open spec fn svg_inner_text(svg: Seq<char>) -> Seq<char> {
    match find_from(svg, ">"@, 0) {
        None => Seq::empty(),
        Some(i) => strip_char(svg.subrange(i + 1, inner_end(svg)), '\n'),
    }
}

/// The body of an SVG document (between the root's open tag and the last
/// `</svg>`, newlines trimmed).
pub fn svg_inner(svg: &str) -> (r: String)
    requires
        svg_inner_ok(svg@),
    ensures
        r@ == svg_inner_text(svg@),
{
    let cs = to_chars(svg);
    let gt = to_chars(">");
    match find_pat(&cs, &gt, 0) {
        None => String::new(),
        Some(i) => {
            proof {
                reveal_strlit(">");
                assert(gt@ == ">"@);
                assert(cs@ == svg@);
                lemma_find_bounds(cs@, ">"@, 0);
                assert(">"@.len() == 1);
            }
            let close = to_chars("</svg>");
            let end = match rfind_pat(&cs, &close) {
                Some(e) => e,
                None => cs.len(),
            };
            proof {
                assert(close@ == "</svg>"@);
                assert(end <= cs@.len());
            }
            let (a, b) = strip_bounds(&cs, i + 1, end, '\n');
            string_of(&cs, a, b)
        },
    }
}

/// Label dimensions after a rotation: 90/270 swap them.
pub open spec fn rotated_dims(w: u32, h: u32, r: Rotate) -> (u32, u32) {
    match r {
        Rotate::R90 | Rotate::R270 => (h, w),
        _ => (w, h),
    }
}

/// The label body wrapped in the transform of a rotation.
pub open spec fn rotated_body(body: Seq<char>, w: u32, h: u32, r: Rotate) -> Seq<char> {
    match r {
        Rotate::R0 => body,
        Rotate::R90 => "<g transform=\"rotate(90) translate(0,-"@ + dec(w as nat) + ")\">"@ + body + "</g>"@,
        Rotate::R180 => "<g transform=\"rotate(180) translate(-"@ + dec(w as nat) + ",-"@ + dec(h as nat)
            + ")\">"@ + body + "</g>"@,
        Rotate::R270 => "<g transform=\"rotate(270) translate(-"@ + dec(h as nat) + ",0)\">"@ + body + "</g>"@,
    }
}

fn rotate_label(label: &PxLabel, rotate: Rotate) -> (r: (String, u32, u32))
    requires
        svg_inner_ok(label.svg@),
    ensures
        r.0@ == rotated_body(svg_inner_text(label.svg@), label.width_px, label.height_px, rotate),
        (r.1, r.2) == rotated_dims(label.width_px, label.height_px, rotate),
{
    let body = svg_inner(label.svg.as_str());
    let w = label.width_px;
    let h = label.height_px;
    match rotate {
        Rotate::R0 => (body, w, h),
        Rotate::R90 => {
            let mut s = "<g transform=\"rotate(90) translate(0,-".to_owned();
            push_u32(&mut s, w);
            push_str(&mut s, ")\">");
            push_str(&mut s, body.as_str());
            push_str(&mut s, "</g>");
            (s, h, w)
        },
        Rotate::R180 => {
            let mut s = "<g transform=\"rotate(180) translate(-".to_owned();
            push_u32(&mut s, w);
            push_str(&mut s, ",-");
            push_u32(&mut s, h);
            push_str(&mut s, ")\">");
            push_str(&mut s, body.as_str());
            push_str(&mut s, "</g>");
            (s, w, h)
        },
        Rotate::R270 => {
            let mut s = "<g transform=\"rotate(270) translate(-".to_owned();
            push_u32(&mut s, h);
            push_str(&mut s, ",0)\">");
            push_str(&mut s, body.as_str());
            push_str(&mut s, "</g>");
            (s, h, w)
        },
    }
}

// ---------- composition ----------

/// Size of one (rotated) copy along the repeat axis.
pub open spec fn copy_main_of(label: PxLabel, opts: RepeatOpts) -> int {
    let (w, h) = rotated_dims(label.width_px, label.height_px, opts.rotate);
    match opts.axis {
        RepeatAxis::Along => w as int,
        RepeatAxis::Across => h as int,
    }
}

/// Size of one (rotated) copy across the repeat axis.
pub open spec fn copy_cross_of(label: PxLabel, opts: RepeatOpts) -> int {
    let (w, h) = rotated_dims(label.width_px, label.height_px, opts.rotate);
    match opts.axis {
        RepeatAxis::Along => h as int,
        RepeatAxis::Across => w as int,
    }
}

/// Strip length along the axis: copies, gaps and excess, or the given
/// length when that is longer.
pub open spec fn total_main_spec(opts: RepeatOpts, n: int, gap: int, cm: int) -> int {
    let t = content_len(n, cm, gap, opts.spacing) + opts.excess_px;
    match opts.length_px {
        Some(l) => if l >= t { l as int } else { t },
        None => t,
    }
}

/// Canvas `(width, height)` of the strip.
pub open spec fn canvas_dims(opts: RepeatOpts, total: int, cross: int) -> (int, int) {
    match opts.axis {
        RepeatAxis::Along => (total, cross),
        RepeatAxis::Across => (cross, total),
    }
}

/// Offset of the first copy: the excess when it sits at the start.
pub open spec fn lead0_of(opts: RepeatOpts) -> int {
    match opts.excess_at {
        ExcessAt::Start => opts.excess_px as int,
        ExcessAt::End => 0,
    }
}

/// The group of copy `i`, translated to its offset; under `alternate`
/// odd copies turn 180° inside their own box.
pub open spec fn copy_text(opts: RepeatOpts, i: int, lead: int, w: int, h: int, rb: Seq<char>) -> Seq<char> {
    let (dx, dy) = match opts.axis {
        RepeatAxis::Along => (lead, 0int),
        RepeatAxis::Across => (0int, lead),
    };
    if opts.orient == Orient::Alternate && i % 2 == 1 {
        "<g transform=\"translate("@ + dec(dx as nat) + ","@ + dec(dy as nat)
            + ")\"><g transform=\"rotate(180) translate(-"@ + dec(w as nat) + ",-"@ + dec(h as nat) + ")\">"@
            + rb + "</g></g>"@
    } else {
        "<g transform=\"translate("@ + dec(dx as nat) + ","@ + dec(dy as nat) + ")\">"@ + rb + "</g>"@
    }
}

/// The first `k` copies, copy `i` at `lead0 + i·step`.
pub open spec fn copies_text(opts: RepeatOpts, k: int, lead0: int, step: int, w: int, h: int, rb: Seq<char>) -> Seq<char>
    decreases k,
{
    if k <= 0 {
        Seq::empty()
    } else {
        copies_text(opts, k - 1, lead0, step, w, h, rb) + copy_text(opts, k - 1, lead0 + (k - 1) * step, w, h, rb)
    }
}

/// The strip's background rect (none when the label's background is
/// `none`).
pub open spec fn bg_rect_text(bg: Seq<char>, cw: int, ch: int) -> Seq<char> {
    if bg == "none"@ {
        Seq::empty()
    } else {
        "<rect width=\""@ + dec(cw as nat) + "\" height=\""@ + dec(ch as nat) + "\" fill=\""@ + bg + "\"/>"@
    }
}

/// The strip document: root, background, one crisp group of copies.
pub open spec fn strip_doc(cw: int, ch: int, bg_rect: Seq<char>, copies: Seq<char>) -> Seq<char> {
    "<svg xmlns=\"http://www.w3.org/2000/svg\" width=\""@ + dec(cw as nat) + "\" height=\""@ + dec(ch as nat)
        + "\" viewBox=\"0 0 "@ + dec(cw as nat) + " "@ + dec(ch as nat) + "\">"@ + bg_rect
        + "<g shape-rendering=\"crispEdges\">"@ + copies + "</g>"@ + "</svg>\n"@
}

/// The composed strip for `n` copies at `gap`.
pub open spec fn strip_svg(label: PxLabel, opts: RepeatOpts, n: int, gap: int) -> Seq<char> {
    let (w, h) = rotated_dims(label.width_px, label.height_px, opts.rotate);
    let rb = rotated_body(svg_inner_text(label.svg@), label.width_px, label.height_px, opts.rotate);
    let cm = copy_main_of(label, opts);
    let (cw, ch) = canvas_dims(opts, total_main_spec(opts, n, gap, cm), copy_cross_of(label, opts));
    strip_doc(cw, ch, bg_rect_text(label.receipt.bg@, cw, ch),
        copies_text(opts, n, lead0_of(opts), cm + gap, w as int, h as int, rb))
}

/// The composition's arithmetic stays inside `u32` and the label's
/// document has a body.
pub open spec fn compose_ok(label: PxLabel, opts: RepeatOpts) -> bool {
    let cm = copy_main_of(label, opts);
    &&& svg_inner_ok(label.svg@)
    &&& resolve_arith_ok(opts, cm)
    &&& match resolve_spec(opts, cm) {
        Ok((n, gap, _)) => content_len(n, cm, gap, opts.spacing) + opts.excess_px <= u32::MAX
            && cm + gap <= u32::MAX,
        Err(_) => true,
    }
}

/// What a successful composition holds.
pub open spec fn composed(c: RepeatComposed, label: PxLabel, opts: RepeatOpts, n: int, gap: int) -> bool {
    let cm = copy_main_of(label, opts);
    let total = total_main_spec(opts, n, gap, cm);
    let (cw, ch) = canvas_dims(opts, total, copy_cross_of(label, opts));
    &&& c.width_px == cw
    &&& c.height_px == ch
    &&& c.svg@ == strip_svg(label, opts, n, gap)
    &&& c.resolved.n == n
    &&& c.resolved.gap_px == gap
    &&& c.resolved.axis@ == axis_name(opts.axis)
    &&& c.resolved.orient@ == orient_name(opts.orient)
    &&& c.resolved.rotate == deg_of(opts.rotate)
    &&& c.resolved.spacing@ == spacing_name(opts.spacing)
    &&& c.resolved.excess_px == opts.excess_px
    &&& c.resolved.excess_at@ == excess_name(opts.excess_at)
    &&& c.resolved.length_px == total
}

proof fn lemma_lead_bound(i: int, n: int, cm: int, g: int, sp: Spacing)
    requires
        0 <= i < n,
        cm >= 0,
        g >= 0,
    ensures
        i * (cm + g) <= content_len(n, cm, g, sp),
        0 <= i * (cm + g),
{
    assert(i * (cm + g) <= n * cm + (n - 1) * g) by (nonlinear_arith)
        requires 0 <= i < n, cm >= 0, g >= 0;
    assert(n * cm + (n - 1) * g <= n * cm + n * g) by (nonlinear_arith)
        requires n >= 1, g >= 0;
    assert(0 <= i * (cm + g)) by (nonlinear_arith)
        requires 0 <= i, cm >= 0, g >= 0;
}

#[verifier::spinoff_prover]
fn lay_copies(opts: &RepeatOpts, n: u32, lead_offset: u32, step: u32, w: u32, h: u32, rotated_body: &String) -> (groups: String)
    requires
        n >= 1 ==> lead_offset + (n - 1) * step <= u32::MAX,
    ensures
        groups@ == copies_text(*opts, n as int, lead_offset as int, step as int, w as int, h as int, rotated_body@),
{
    let mut groups = String::new();
    let mut i: u32 = 0;
    while i < n
        invariant
            i <= n,
            n >= 1 ==> lead_offset + (n - 1) * step <= u32::MAX,
            groups@ == copies_text(*opts, i as int, lead_offset as int, step as int, w as int, h as int, rotated_body@),
        decreases n - i,
    {
        proof {
            assert(i * step <= (n - 1) * step) by (nonlinear_arith) requires i <= n - 1, step >= 0;
            assert(0 <= i * step) by (nonlinear_arith) requires i >= 0, step >= 0;
        }
        let lead = lead_offset + i * step;
        let (dx, dy) = match opts.axis {
            RepeatAxis::Along => (lead, 0u32),
            RepeatAxis::Across => (0u32, lead),
        };
        let ghost before = groups@;
        push_str(&mut groups, "<g transform=\"translate(");
        push_u32(&mut groups, dx);
        push_str(&mut groups, ",");
        push_u32(&mut groups, dy);
        if opts.orient == Orient::Alternate && i % 2 == 1 {
            push_str(&mut groups, ")\"><g transform=\"rotate(180) translate(-");
            push_u32(&mut groups, w);
            push_str(&mut groups, ",-");
            push_u32(&mut groups, h);
            push_str(&mut groups, ")\">");
            push_str(&mut groups, rotated_body.as_str());
            push_str(&mut groups, "</g></g>");
        } else {
            push_str(&mut groups, ")\">");
            push_str(&mut groups, rotated_body.as_str());
            push_str(&mut groups, "</g>");
        }
        proof {
            let k = i as int;
            assert(groups@ =~= before + copy_text(*opts, k, lead_offset + k * step, w as int, h as int, rotated_body@));
        }
        i = i + 1;
    }
    groups
}

fn strip_document(canvas_w: u32, canvas_h: u32, bg: &String, groups: &String) -> (svg: String)
    ensures
        svg@ == strip_doc(canvas_w as int, canvas_h as int, bg_rect_text(bg@, canvas_w as int, canvas_h as int), groups@),
{
    let bgc = to_chars(bg.as_str());
    let mut svg = "<svg xmlns=\"http://www.w3.org/2000/svg\" width=\"".to_owned();
    push_u32(&mut svg, canvas_w);
    push_str(&mut svg, "\" height=\"");
    push_u32(&mut svg, canvas_h);
    push_str(&mut svg, "\" viewBox=\"0 0 ");
    push_u32(&mut svg, canvas_w);
    push_str(&mut svg, " ");
    push_u32(&mut svg, canvas_h);
    push_str(&mut svg, "\">");
    let ghost before_bg = svg@;
    if !eq_lit(&bgc, "none") {
        push_str(&mut svg, "<rect width=\"");
        push_u32(&mut svg, canvas_w);
        push_str(&mut svg, "\" height=\"");
        push_u32(&mut svg, canvas_h);
        push_str(&mut svg, "\" fill=\"");
        push_str(&mut svg, bg.as_str());
        push_str(&mut svg, "\"/>");
    }
    proof {
        let bgr = bg_rect_text(bg@, canvas_w as int, canvas_h as int);
        assert(svg@ =~= before_bg + bgr);
    }
    push_str(&mut svg, "<g shape-rendering=\"crispEdges\">");
    push_str(&mut svg, groups.as_str());
    push_str(&mut svg, "</g>");
    push_str(&mut svg, "</svg>\n");
    svg
}

/// Compose `label` into a strip per `opts`: rotate, resolve `n` and the
/// gap, lay the copies out along the axis (excess at the start or end),
/// and record the resolved geometry.
#[verifier::rlimit(30)]
pub fn compose(label: &PxLabel, opts: &RepeatOpts) -> (r: Result<RepeatComposed, CodecError>)
    requires
        compose_ok(*label, *opts),
    ensures
        match resolve_spec(*opts, copy_main_of(*label, *opts)) {
            Err(m) => r matches Err(CodecError::Render(s)) && s@ == m,
            Ok((n, gap, _)) => r matches Ok(c) && composed(c, *label, *opts, n, gap),
        },
{
    let (rotated_body, w, h) = rotate_label(label, opts.rotate);
    let (copy_main, copy_cross) = match opts.axis {
        RepeatAxis::Along => (w, h),
        RepeatAxis::Across => (h, w),
    };
    let (n, gap_px, _length_used) = match resolve_n_and_gap(opts, copy_main) {
        Ok(t) => t,
        Err(m) => return Err(CodecError::Render(m)),
    };
    let ghost cm = copy_main as int;
    proof {
        assert(n as int * cm >= 0) by (nonlinear_arith) requires n >= 0, cm >= 0;
        assert(n == 0 || (n as int - 1) * gap_px >= 0) by (nonlinear_arith) requires n >= 0, gap_px >= 0;
        assert(n as int * gap_px >= 0) by (nonlinear_arith) requires n >= 0, gap_px >= 0;
        if n >= 1 {
            lemma_lead_bound(n - 1, n as int, cm, gap_px as int, opts.spacing);
        }
    }
    let content: u32 = match opts.spacing {
        Spacing::Linear => n * copy_main + n.saturating_sub(1) * gap_px,
        Spacing::Cyclic => n * copy_main + n * gap_px,
    };
    let t = content + opts.excess_px;
    let total_main = match opts.length_px {
        Some(l) => if l >= t { l } else { t },
        None => t,
    };
    let (canvas_w, canvas_h) = match opts.axis {
        RepeatAxis::Along => (total_main, copy_cross),
        RepeatAxis::Across => (copy_cross, total_main),
    };
    let lead_offset = match opts.excess_at {
        ExcessAt::Start => opts.excess_px,
        ExcessAt::End => 0,
    };
    let step = copy_main + gap_px;
    let groups = lay_copies(opts, n, lead_offset, step, w, h, &rotated_body);
    let svg = strip_document(canvas_w, canvas_h, &label.receipt.bg, &groups);
    let resolved = RepeatResolved {
        n,
        gap_px,
        axis: opts.axis.name().to_owned(),
        orient: opts.orient.name().to_owned(),
        rotate: opts.rotate.deg(),
        spacing: opts.spacing.name().to_owned(),
        excess_px: opts.excess_px,
        excess_at: opts.excess_at.name().to_owned(),
        length_px: total_main,
    };
    let c = RepeatComposed { svg, width_px: canvas_w, height_px: canvas_h, resolved };
    proof {
        assert(c.svg@ =~= strip_svg(*label, *opts, n as int, gap_px as int));
    }
    Ok(c)
}

// ---------- laws ----------

/// Law: degrees name a rotation uniquely, and every rotation's degrees
/// are accepted back by `Rotate::from_deg`.
pub proof fn law_rotation_degrees_roundtrip(r: Rotate, s: Rotate)
    ensures
        deg_of(r) == deg_of(s) ==> r == s,
        deg_of(r) == 0 || deg_of(r) == 90 || deg_of(r) == 180 || deg_of(r) == 270,
{
}

/// Law: `fill` resolves the largest count that fits — `n` copies fit the
/// content room at the gap floor and `n + 1` do not (whenever at least
/// one copy with its gaps fits).
pub proof fn law_fill_is_maximal(room: int, cm: int, g: int, sp: Spacing)
    requires
        cm >= 1,
        g >= 0,
        room >= 0,
        max_fit_spec(room, cm, g, sp) >= 1,
    ensures
        content_len(max_fit_spec(room, cm, g, sp), cm, g, sp) <= room,
        content_len(max_fit_spec(room, cm, g, sp) + 1, cm, g, sp) > room,
{
    let n = max_fit_spec(room, cm, g, sp);
    let d = cm + g;
    match sp {
        Spacing::Linear => {
            assert(n * d <= room + g && (n + 1) * d > room + g) by (nonlinear_arith)
                requires n == (room + g) / d, d >= 1, room + g >= 0;
            assert(n * cm + (n - 1) * g == n * d - g) by (nonlinear_arith) requires d == cm + g;
            assert((n + 1) * cm + n * g == (n + 1) * d - g) by (nonlinear_arith) requires d == cm + g;
        },
        Spacing::Cyclic => {
            assert(n * d <= room && (n + 1) * d > room) by (nonlinear_arith)
                requires n == room / d, d >= 1, room >= 0;
            assert(n * cm + n * g == n * d) by (nonlinear_arith) requires d == cm + g;
            assert((n + 1) * cm + (n + 1) * g == (n + 1) * d) by (nonlinear_arith) requires d == cm + g;
        },
    }
}

/// Law: `fill` honours the requested length under the requested spacing.
/// Whenever one copy with its gap fits the content room (`length −
/// excess`), the resolved `n` copies with their gaps fit it too, `n + 1`
/// would not, the gap is the requested one (else the floor), and the strip
/// comes out exactly the requested length.
pub proof fn law_fill_honours_length(opts: RepeatOpts, cm: int)
    requires
        opts.count == RepeatCount::Fill,
        cm >= 1,
        resolve_spec(opts, cm) is Ok,
        opts.length_px is Some,
        opts.length_px->0 >= opts.excess_px,
        content_len(1, cm, resolve_spec(opts, cm)->Ok_0.1, opts.spacing)
            <= opts.length_px->0 - opts.excess_px,
    ensures
        ({
            let (n, g, used) = resolve_spec(opts, cm)->Ok_0;
            let len = opts.length_px->0 as int;
            let room = len - opts.excess_px;
            &&& g == (match opts.gap_px { Some(x) => x as int, None => FILL_GAP_FLOOR_PX as int })
            &&& n >= 1
            &&& content_len(n, cm, g, opts.spacing) <= room
            &&& content_len(n + 1, cm, g, opts.spacing) > room
            &&& used == len
            &&& total_main_spec(opts, n, g, cm) == len
        }),
{
    let len = opts.length_px->0 as int;
    let room = room_of(len, opts.excess_px as int);
    let g = match opts.gap_px { Some(x) => x as int, None => FILL_GAP_FLOOR_PX as int };
    let sp = opts.spacing;
    let d = cm + g;
    assert(max_fit_spec(room, cm, g, sp) >= 1) by {
        match sp {
            Spacing::Linear => {
                assert((room + g) / d >= 1) by (nonlinear_arith)
                    requires room + g >= d, d >= 1;
            },
            Spacing::Cyclic => {
                assert(room / d >= 1) by (nonlinear_arith)
                    requires room >= d, d >= 1;
            },
        }
    }
    law_fill_is_maximal(room, cm, g, sp);
}

/// Law: a derived gap spreads `n` copies over the content room without
/// overflowing it, leaving less than one px per gap unused.
pub proof fn law_derived_gap_fits(room: int, cm: int, n: int, sp: Spacing)
    requires
        cm >= 1,
        n >= 2,
        n * cm <= room,
    ensures
        content_len(n, cm, derived_gap_spec(room, cm, n, sp), sp) <= room,
        room - content_len(n, cm, derived_gap_spec(room, cm, n, sp), sp) < (match sp {
            Spacing::Linear => n - 1,
            Spacing::Cyclic => n,
        }),
{
    let g = derived_gap_spec(room, cm, n, sp);
    let slack = room - n * cm;
    match sp {
        Spacing::Linear => {
            if n * cm < room {
                assert(g * (n - 1) <= slack && slack - g * (n - 1) < n - 1) by (nonlinear_arith)
                    requires g == slack / (n - 1), n >= 2, slack >= 0;
            }
            assert((n - 1) * g == g * (n - 1)) by (nonlinear_arith);
        },
        Spacing::Cyclic => {
            if n * cm < room {
                assert(g * n <= slack && slack - g * n < n) by (nonlinear_arith)
                    requires g == slack / n, n >= 2, slack >= 0;
            }
            assert(n * g == g * n) by (nonlinear_arith);
        },
    }
}

} // verus!
