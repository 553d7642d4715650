//! Device-pixel label geometry: exact canvas, per-side padding floors,
//! module size deduced per padding mode, the id text in the nx75 anchor font
//! rasterised on the same integer lattice, and the job-uniformity pass.

use vstd::prelude::*;

use crate::format::{row_counts, row_of, row_start, prefix_sum, TextFormat};
use crate::glyphs::dot_rect;
use crate::nx75::{glyph_text, no_glyph_message, write_glyph_runs};
use crate::qr::{is_micro, quiet_of, symbol_width, version_ok, QrMatrix};
use crate::receipt::{generator, Receipt, CODEC_VERSION};
use crate::symbology::{auto_fit, compact_text, infeasible_text, ResolvedSymbology, Symbology};
use crate::text::{dec, find_from, find_pat, lemma_find_bounds, push_dec, push_str, rfind, rfind_pat, string_of, strip_bounds, strip_char, to_chars};
use crate::CodecError;

verus! {

/// Per-side padding floor in device px, CSS clockwise.
#[derive(Clone, Copy, Debug, Default, PartialEq, Eq, Structural)]
pub struct Padding {
    pub top: u32,
    pub right: u32,
    pub bottom: u32,
    pub left: u32,
}

impl Padding {
    /// The same floor on all four sides.
    pub fn uniform(all: u32) -> (p: Self)
        ensures
            p == (Padding { top: all, right: all, bottom: all, left: all }),
    {
        Self::sides(all, all, all, all)
    }

    /// Vertical (top/bottom) and horizontal (right/left) floors.
    pub fn axes(vertical: u32, horizontal: u32) -> (p: Self)
        ensures
            p == (Padding { top: vertical, right: horizontal, bottom: vertical, left: horizontal }),
    {
        Self::sides(vertical, horizontal, vertical, horizontal)
    }

    /// Top, right, bottom, left.
    pub fn sides(top: u32, right: u32, bottom: u32, left: u32) -> (p: Self)
        ensures
            p == (Padding { top, right, bottom, left }),
    {
        Padding { top, right, bottom, left }
    }
}

/// How the quiet zone counts toward the outside padding floor.
#[derive(Clone, Copy, Debug, Default, PartialEq, Eq, Structural)]
pub enum PaddingMode {
    /// Each side's white floor is `max(pad, quiet·m)`.
    #[default]
    Overlap,
    /// Each side's white floor is `quiet·m + pad`.
    Additive,
    /// Each side's white floor is `pad` alone: no quiet zone reserved.
    Clip,
}

/// Wire name of a padding mode.
pub open spec fn mode_name(mode: PaddingMode) -> Seq<char> {
    match mode {
        PaddingMode::Overlap => "overlap"@,
        PaddingMode::Additive => "additive"@,
        PaddingMode::Clip => "clip"@,
    }
}

/// `a · b`, saturating at `u32::MAX`.
pub open spec fn sat_mul(a: int, b: int) -> int {
    if a * b > u32::MAX { u32::MAX as int } else { a * b }
}

/// `a + b`, saturating at `u32::MAX`.
pub open spec fn sat_add(a: int, b: int) -> int {
    if a + b > u32::MAX { u32::MAX as int } else { a + b }
}

/// One side's white floor for `m` px/module under a `quiet`-module
/// quiet zone.
pub open spec fn floor_spec(mode: PaddingMode, pad: int, quiet: int, m: int) -> int {
    let quiet_px = sat_mul(quiet, m);
    match mode {
        PaddingMode::Overlap => if pad >= quiet_px { pad } else { quiet_px },
        PaddingMode::Additive => sat_add(quiet_px, pad),
        PaddingMode::Clip => pad,
    }
}

/// Minimum controlling dimension for `m` px/module.
pub open spec fn min_size_spec(mode: PaddingMode, data: int, quiet: int, pad_a: int, pad_b: int, m: int) -> int {
    data * m + floor_spec(mode, pad_a, quiet, m) + floor_spec(mode, pad_b, quiet, m)
}

impl PaddingMode {
    /// Wire name (`overlap`, `additive`, `clip`).
    pub fn name(self) -> (r: &'static str)
        ensures
            r@ == mode_name(self),
    {
        match self {
            PaddingMode::Overlap => "overlap",
            PaddingMode::Additive => "additive",
            PaddingMode::Clip => "clip",
        }
    }

    /// One side's white floor in px.
    pub fn floor_px(self, pad_side: u32, quiet: u32, m: u32) -> (r: u32)
        ensures
            r == floor_spec(self, pad_side as int, quiet as int, m as int),
    {
        proof {
            assert((quiet as int) * (m as int) <= (u32::MAX as int) * (u32::MAX as int)) by (nonlinear_arith);
        }
        let prod: u64 = (quiet as u64) * (m as u64);
        let quiet_px: u32 = if prod > (u32::MAX as u64) { u32::MAX } else { prod as u32 };
        match self {
            PaddingMode::Overlap => if pad_side >= quiet_px { pad_side } else { quiet_px },
            PaddingMode::Additive => quiet_px.saturating_add(pad_side),
            PaddingMode::Clip => pad_side,
        }
    }

    /// Minimum canvas (controlling dimension) for `m` px/module.
    pub fn min_size(self, data: u32, quiet: u32, pad_a: u32, pad_b: u32, m: u32) -> (r: u64)
        ensures
            r == min_size_spec(self, data as int, quiet as int, pad_a as int, pad_b as int, m as int),
    {
        proof {
            assert((data as int) * (m as int) <= (u32::MAX as int) * (u32::MAX as int)) by (nonlinear_arith);
        }
        (data as u64) * (m as u64) + (self.floor_px(pad_a, quiet, m) as u64) + (self.floor_px(pad_b, quiet, m) as u64)
    }
}

/// One rendered label.
#[derive(Clone, Debug, PartialEq, Eq)]
pub struct PxLabel {
    /// The SVG document; width/height/viewBox in device px.
    pub svg: String,
    pub width_px: u32,
    pub height_px: u32,
    /// Symbol footprint incl. quiet zone (`modules · module_px`).
    pub qr_px: u32,
    /// Pixels per QR module.
    pub module_px: u32,
    /// Symbol modules per edge, quiet zone included.
    pub modules: u32,
    /// The module part (data modules only) in device px.
    pub data_px: u32,
    /// Device px per glyph dot.
    pub glyph_px: u32,
    /// Glyph cell height in dots (always 7).
    pub glyph_cell: u32,
    /// Actual per-side white, canvas edge to module part.
    pub white: Padding,
    pub padding_mode: PaddingMode,
    /// Resolved symbology, compact form.
    pub symbology: String,
    /// What the render resolved.
    pub receipt: Receipt,
}

/// Label layout: QR left of the text (`horz`), QR above it (`vert`), or
/// the cable flag, which has no device-pixel geometry.
#[derive(Clone, Copy, Debug, PartialEq, Eq, Structural)]
pub enum Layout {
    Vert,
    Horz,
    Flag,
}

// ---------- the module-size deduction ----------

/// `m` px/module is the deduced size: every size up to `m` fits the
/// controlling axis and `m + 1` does not (`m == 0`: not even 1 px fits).
pub open spec fn deduced(m: int, size: int, pad_a: int, pad_b: int, data: int, quiet: int, mode: PaddingMode) -> bool {
    &&& m >= 0
    &&& forall|k: int| 1 <= k <= m ==> #[trigger] min_size_spec(mode, data, quiet, pad_a, pad_b, k) <= size
    &&& min_size_spec(mode, data, quiet, pad_a, pad_b, m + 1) > size
}

/// The deduced module size.
pub open spec fn module_px_spec(size: int, pad_a: int, pad_b: int, data: int, quiet: int, mode: PaddingMode) -> int {
    choose|m: int| deduced(m, size, pad_a, pad_b, data, quiet, mode)
}

/// Deduced sizes are unique.
pub proof fn lemma_deduced_unique(a: int, b: int, size: int, pad_a: int, pad_b: int, data: int, quiet: int, mode: PaddingMode)
    requires
        deduced(a, size, pad_a, pad_b, data, quiet, mode),
        deduced(b, size, pad_a, pad_b, data, quiet, mode),
    ensures
        a == b,
{
    if a < b {
        assert(min_size_spec(mode, data, quiet, pad_a, pad_b, a + 1) <= size);
    } else if b < a {
        assert(min_size_spec(mode, data, quiet, pad_a, pad_b, b + 1) <= size);
    }
}

/// Largest `m` (px/module) fitting the controlling axis, or 0 when even
/// 1 px/module does not fit.
pub fn deduce_module_px(size_px: u32, pad_a: u32, pad_b: u32, data: u32, quiet: u32, mode: PaddingMode) -> (r: u32)
    requires
        data >= 2,
    ensures
        deduced(r as int, size_px as int, pad_a as int, pad_b as int, data as int, quiet as int, mode),
        r as int == module_px_spec(size_px as int, pad_a as int, pad_b as int, data as int, quiet as int, mode),
        r <= size_px,
{
    let mut module_px: u32 = 0;
    let mut m: u32 = 1;
    while mode.min_size(data, quiet, pad_a, pad_b, m) <= size_px as u64
        invariant
            m == module_px + 1,
            data >= 2,
            module_px <= size_px,
            forall|k: int| 1 <= k <= module_px ==> #[trigger] min_size_spec(mode, data as int, quiet as int, pad_a as int, pad_b as int, k) <= size_px,
        decreases size_px - module_px,
    {
        proof {
            let ms = min_size_spec(mode, data as int, quiet as int, pad_a as int, pad_b as int, m as int);
            assert(floor_spec(mode, pad_a as int, quiet as int, m as int) >= 0);
            assert(floor_spec(mode, pad_b as int, quiet as int, m as int) >= 0);
            assert(data as int * m as int <= size_px);
            assert(data as int * m as int >= 2 * m as int) by (nonlinear_arith) requires data >= 2, m >= 1;
        }
        module_px = m;
        m = m + 1;
    }
    proof {
        assert(deduced(module_px as int, size_px as int, pad_a as int, pad_b as int, data as int, quiet as int, mode));
        let c = module_px_spec(size_px as int, pad_a as int, pad_b as int, data as int, quiet as int, mode);
        lemma_deduced_unique(c, module_px as int, size_px as int, pad_a as int, pad_b as int, data as int, quiet as int, mode);
    }
    module_px
}

/// QR-to-text gap over the white on the text side: `max(round(1.5·white),
/// quiet·m)`, half rounding up.
pub open spec fn gap_spec(white_side: int, quiet: int, m: int) -> int {
    let a = white_side + (white_side + 1) / 2;
    if a >= quiet * m { a } else { quiet * m }
}

/// The QR-to-text gap: the safe-space clamp keeps typography out of the
/// quiet zone even where the white floor is 0.
pub fn qr_text_gap(white_side: u32, quiet: u32, module_px: u32) -> (r: u32)
    requires
        white_side <= 0x4000_0000,
        quiet as int * module_px as int <= u32::MAX,
    ensures
        r == gap_spec(white_side as int, quiet as int, module_px as int),
{
    let a = white_side + (white_side + 1) / 2;
    let b = quiet * module_px;
    if a >= b { a } else { b }
}

// ---------- the text block ----------

/// The id-text block: glyph scale, block height, advance, row pitch and
/// widest-row width, all in device px.
#[derive(Clone, Copy, Debug, PartialEq, Eq, Structural)]
pub struct TextBlock {
    pub glyph_px: u32,
    pub block_h: u32,
    pub advance: u32,
    pub row_pitch: u32,
    pub max_row_w: u32,
}

/// Block height in glyph units: 8 per row minus the last gap.
pub open spec fn block_units(n_rows: int) -> int {
    8 * n_rows - 1
}

/// Widest-row width in glyph units: 6 per char minus the trailing
/// spacing, at least 1.
pub open spec fn row_units(max_chars: int) -> int {
    if 6 * max_chars - 1 >= 1 { 6 * max_chars - 1 } else { 1 }
}

/// The glyph scale: the largest `g` keeping the block inside the module
/// part, capped at `module_px`; `vert` rows must also fit its width.
pub open spec fn glyph_scale(layout: Layout, data_px: int, module_px: int, n_rows: int, max_chars: int) -> int {
    let a = data_px / block_units(n_rows);
    let g = if a <= module_px { a } else { module_px };
    if layout == Layout::Vert {
        let b = data_px / row_units(max_chars);
        if g <= b { g } else { b }
    } else {
        g
    }
}

/// Message when the module part cannot hold the block at 1 px per dot.
pub open spec fn text_block_error(data_px: int, n_rows: int, max_chars: int) -> Seq<char> {
    "module part "@ + dec(data_px as nat) + "px cannot fit "@
        + (if data_px / block_units(n_rows) < 1 {
            "a "@ + dec(n_rows as nat) + "-row id-text block (7px glyph rows + 1px row gaps)"@
        } else {
            "a "@ + dec(max_chars as nat) + "-char id-text row (5px glyphs + 1px spacing)"@
        })
        + ": it needs at least "@
        + dec((if data_px / block_units(n_rows) < 1 { block_units(n_rows) } else { row_units(max_chars) }) as nat)
        + "px at 1px per glyph dot; use fewer rows via --chars or a larger size"@
}

/// Deduce the id-text block (the g-law): `n_rows` rows of `7g` glyph
/// boxes with `g` gaps inside `data_px`, `g ≤ module_px`.
pub fn text_block(layout: Layout, data_px: u32, module_px: u32, n_rows: u32, max_chars: u32) -> (r: Result<TextBlock, CodecError>)
    requires
        1 <= n_rows <= 8,
        max_chars <= 8,
        module_px <= 0x100_0000,
    ensures
        ({
            let g = glyph_scale(layout, data_px as int, module_px as int, n_rows as int, max_chars as int);
            if g >= 1 {
                r matches Ok(b) && b.glyph_px == g && b.block_h == block_units(n_rows as int) * g
                    && b.advance == 6 * g && b.row_pitch == 8 * g
                    && b.max_row_w == (if max_chars * 6 * g >= g { max_chars * 6 * g - g } else { 0 })
            } else {
                r matches Err(CodecError::Render(m)) && m@ == text_block_error(data_px as int, n_rows as int, max_chars as int)
            }
        }),
{
    let block_units: u32 = 8 * n_rows - 1;
    let row_units: u32 = if 6 * max_chars >= 2 { 6 * max_chars - 1 } else { 1 };
    let a = data_px / block_units;
    let mut glyph_px = if a <= module_px { a } else { module_px };
    if layout == Layout::Vert {
        let b = data_px / row_units;
        if b < glyph_px {
            glyph_px = b;
        }
    }
    if glyph_px < 1 {
        let mut m = "module part ".to_owned();
        push_dec(&mut m, data_px as u128);
        push_str(&mut m, "px cannot fit ");
        let need: u32 = if a < 1 {
            push_str(&mut m, "a ");
            push_dec(&mut m, n_rows as u128);
            push_str(&mut m, "-row id-text block (7px glyph rows + 1px row gaps)");
            block_units
        } else {
            push_str(&mut m, "a ");
            push_dec(&mut m, max_chars as u128);
            push_str(&mut m, "-char id-text row (5px glyphs + 1px spacing)");
            row_units
        };
        push_str(&mut m, ": it needs at least ");
        push_dec(&mut m, need as u128);
        push_str(&mut m, "px at 1px per glyph dot; use fewer rows via --chars or a larger size");
        proof {
            assert(m@ =~= text_block_error(data_px as int, n_rows as int, max_chars as int));
        }
        return Err(CodecError::Render(m));
    }
    proof {
        assert(glyph_px <= module_px);
        assert(max_chars as int * 6 * glyph_px <= 48 * 0x100_0000) by (nonlinear_arith)
            requires max_chars <= 8, glyph_px <= 0x100_0000;
        assert(block_units as int * glyph_px <= 63 * 0x100_0000) by (nonlinear_arith)
            requires block_units <= 63, glyph_px <= 0x100_0000;
    }
    let w = max_chars * 6 * glyph_px;
    Ok(TextBlock {
        glyph_px,
        block_h: block_units * glyph_px,
        advance: 6 * glyph_px,
        row_pitch: 8 * glyph_px,
        max_row_w: if w >= glyph_px { w - glyph_px } else { 0 },
    })
}

// ---------- module rects ----------

/// Rects of row `r`'s first `c` modules.
pub open spec fn module_row_text(bits: Seq<bool>, size: int, r: int, c: int, left: int, top: int, m: int) -> Seq<char>
    decreases c,
{
    if c <= 0 {
        Seq::empty()
    } else {
        module_row_text(bits, size, r, c - 1, left, top, m)
            + if bits[r * size + c - 1] { dot_rect(left + (c - 1) * m, top + r * m, m) } else { Seq::empty() }
    }
}

/// Rects of the dark modules of the first `r` rows, each `m` px at its
/// canvas offset.
pub open spec fn module_rects_text(bits: Seq<bool>, size: int, r: int, left: int, top: int, m: int) -> Seq<char>
    decreases r,
{
    if r <= 0 {
        Seq::empty()
    } else {
        module_rects_text(bits, size, r - 1, left, top, m) + module_row_text(bits, size, r - 1, size, left, top, m)
    }
}

fn write_module_rects(out: &mut String, matrix: &QrMatrix, left: u32, top: u32, m: u32)
    requires
        matrix.wf(),
        matrix.size <= 0x1_0000,
        left as int + matrix.size * m <= u32::MAX,
        top as int + matrix.size * m <= u32::MAX,
    ensures
        final(out)@ == old(out)@ + module_rects_text(matrix.modules@, matrix.size as int, matrix.size as int, left as int, top as int, m as int),
{
    let n = matrix.size;
    let ghost start = out@;
    let mut r: usize = 0;
    while r < n
        invariant
            matrix.wf(),
            n == matrix.size,
            n <= 0x1_0000,
            r <= n,
            left as int + n * m <= u32::MAX,
            top as int + n * m <= u32::MAX,
            out@ == start + module_rects_text(matrix.modules@, n as int, r as int, left as int, top as int, m as int),
        decreases n - r,
    {
        let ghost row_start_text = out@;
        let mut c: usize = 0;
        while c < n
            invariant
                matrix.wf(),
                n == matrix.size,
                n <= 0x1_0000,
                r < n,
                c <= n,
                left as int + n * m <= u32::MAX,
                top as int + n * m <= u32::MAX,
                out@ == row_start_text + module_row_text(matrix.modules@, n as int, r as int, c as int, left as int, top as int, m as int),
            decreases n - c,
        {
            proof {
                assert(c as int * m <= n as int * m) by (nonlinear_arith) requires c < n;
                assert(r as int * m <= n as int * m) by (nonlinear_arith) requires r < n;
                assert(r * n + c < n * n) by (nonlinear_arith) requires r < n, c < n;
            }
            if matrix.get(r, c) {
                let x = left + (c as u32) * m;
                let y = top + (r as u32) * m;
                push_str(out, "<rect x=\"");
                push_dec(out, x as u128);
                push_str(out, "\" y=\"");
                push_dec(out, y as u128);
                push_str(out, "\" width=\"");
                push_dec(out, m as u128);
                push_str(out, "\" height=\"");
                push_dec(out, m as u128);
                push_str(out, "\"/>");
            }
            c = c + 1;
            proof {
                assert(out@ =~= row_start_text + module_row_text(matrix.modules@, n as int, r as int, c as int, left as int, top as int, m as int));
            }
        }
        r = r + 1;
        proof {
            assert(out@ =~= start + module_rects_text(matrix.modules@, n as int, r as int, left as int, top as int, m as int));
        }
    }
}

// ---------- the text rows ----------

/// The id-text rows of `canonical` under a format.
pub open spec fn text_rows(fmt: TextFormat, canonical: Seq<char>) -> Seq<Seq<char>> {
    Seq::new(row_counts(fmt).len(), |i: int| row_of(row_counts(fmt), canonical, i))
}

/// Length of the longest of the first `k` rows.
pub open spec fn max_len(rows: Seq<Seq<char>>, k: int) -> int
    decreases k,
{
    if k <= 0 {
        0
    } else {
        let a = max_len(rows, k - 1);
        if rows[k - 1].len() > a { rows[k - 1].len() as int } else { a }
    }
}

/// Where a text row starts: at the block's left edge in `horz`, centred
/// in the module part in `vert`.
pub open spec fn row_x(layout: Layout, len: int, tx: int, left: int, data_px: int, adv: int, g: int) -> int {
    if layout == Layout::Vert {
        let w = if len * adv >= g { len * adv - g } else { 0 };
        left + (data_px - w) / 2
    } else {
        tx
    }
}

/// Glyph rects of a row's first `k` chars, or the first char without a
/// glyph.
pub open spec fn row_ink(row: Seq<char>, k: int, x0: int, y0: int, adv: int, g: int) -> Result<Seq<char>, char>
    decreases k,
{
    if k <= 0 {
        Ok(Seq::empty())
    } else {
        match row_ink(row, k - 1, x0, y0, adv, g) {
            Err(c) => Err(c),
            Ok(t) => match glyph_text(row[k - 1], g, x0 + (k - 1) * adv, y0) {
                None => Err(row[k - 1]),
                Some(ink) => Ok(t + ink),
            },
        }
    }
}

/// Glyph rects of the first `k` rows (row `i` at `ty0 + i·pitch`), or
/// the first char without a glyph.
pub open spec fn block_ink(
    rows: Seq<Seq<char>>, k: int, layout: Layout, tx: int, left: int, data_px: int, ty0: int,
    adv: int, pitch: int, g: int,
) -> Result<Seq<char>, char>
    decreases k,
{
    if k <= 0 {
        Ok(Seq::empty())
    } else {
        match block_ink(rows, k - 1, layout, tx, left, data_px, ty0, adv, pitch, g) {
            Err(c) => Err(c),
            Ok(t) => {
                let row = rows[k - 1];
                match row_ink(row, row.len() as int, row_x(layout, row.len() as int, tx, left, data_px, adv, g),
                    ty0 + (k - 1) * pitch, adv, g) {
                    Err(c) => Err(c),
                    Ok(u) => Ok(t + u),
                }
            },
        }
    }
}

proof fn lemma_row_ink_err(row: Seq<char>, k: int, j: int, x0: int, y0: int, adv: int, g: int)
    requires
        0 <= k <= j,
        row_ink(row, k, x0, y0, adv, g) is Err,
    ensures
        row_ink(row, j, x0, y0, adv, g) == row_ink(row, k, x0, y0, adv, g),
    decreases j - k,
{
    if k < j {
        lemma_row_ink_err(row, k, j - 1, x0, y0, adv, g);
    }
}

proof fn lemma_block_ink_err(
    rows: Seq<Seq<char>>, k: int, j: int, layout: Layout, tx: int, left: int, data_px: int, ty0: int,
    adv: int, pitch: int, g: int,
)
    requires
        0 <= k <= j,
        block_ink(rows, k, layout, tx, left, data_px, ty0, adv, pitch, g) is Err,
    ensures
        block_ink(rows, j, layout, tx, left, data_px, ty0, adv, pitch, g) == block_ink(rows, k, layout, tx, left, data_px, ty0, adv, pitch, g),
    decreases j - k,
{
    if k < j {
        lemma_block_ink_err(rows, k, j - 1, layout, tx, left, data_px, ty0, adv, pitch, g);
    }
}

/// Rows of at most 5 chars, at most 3 of them: the formats' shapes.
pub open spec fn rows_small(rows: Seq<Seq<char>>) -> bool {
    rows.len() <= 3 && forall|i: int| 0 <= i < rows.len() ==> #[trigger] rows[i].len() <= 5
}

fn write_text_block(
    out: &mut String, rows: &Vec<Vec<char>>, layout: Layout, tx: u32, left: u32, data_px: u32, ty0: u32,
    adv: u32, pitch: u32, g: u32,
) -> (r: Result<(), CodecError>)
    requires
        rows_small(rows@.map_values(|v: Vec<char>| v@)),
        tx <= 0x2000_0000,
        left <= 0x2000_0000,
        data_px <= 0x2000_0000,
        ty0 <= 0x2000_0000,
        1 <= g <= 0x100_0000,
        adv == 6 * g,
        pitch == 8 * g,
        layout == Layout::Vert ==> forall|i: int| 0 <= i < rows@.len() ==> #[trigger] rows@[i]@.len() * adv <= data_px + g,
    ensures
        match block_ink(rows@.map_values(|v: Vec<char>| v@), rows@.len() as int, layout, tx as int, left as int,
            data_px as int, ty0 as int, adv as int, pitch as int, g as int) {
            Ok(t) => r is Ok && final(out)@ == old(out)@ + t,
            Err(c) => r matches Err(CodecError::Render(m)) && m@ == no_glyph_message(c),
        },
{
    let ghost views = rows@.map_values(|v: Vec<char>| v@);
    let ghost start = out@;
    let mut ri: usize = 0;
    proof {
        assert(out@.skip(start.len() as int) =~= Seq::<char>::empty());
        assert(out@.take(start.len() as int) =~= start);
    }
    while ri < rows.len()
        invariant
            views == rows@.map_values(|v: Vec<char>| v@),
            rows_small(views),
            ri <= rows@.len(),
            tx <= 0x2000_0000,
            left <= 0x2000_0000,
            data_px <= 0x2000_0000,
            ty0 <= 0x2000_0000,
            1 <= g <= 0x100_0000,
            adv == 6 * g,
            pitch == 8 * g,
            layout == Layout::Vert ==> forall|i: int| 0 <= i < rows@.len() ==> #[trigger] rows@[i]@.len() * adv <= data_px + g,
            block_ink(views, ri as int, layout, tx as int, left as int, data_px as int, ty0 as int, adv as int, pitch as int, g as int)
                == Ok::<Seq<char>, char>(out@.skip(start.len() as int)),
            out@.len() >= start.len(),
            out@.take(start.len() as int) == start,
        decreases rows@.len() - ri,
    {
        let row = &rows[ri];
        let chars = row.len() as u32;
        proof {
            assert(views[ri as int] == row@);
            assert(row@.len() <= 5);
            assert(ri < 3);
        }
        proof {
            assert(chars as int * adv <= 5 * adv) by (nonlinear_arith) requires chars <= 5, adv >= 0;
            if layout == Layout::Vert {
                assert(rows@[ri as int]@.len() * adv <= data_px + g);
            }
        }
        let x_row: u32 = if layout == Layout::Vert {
            let cw = chars * adv;
            let w = if cw >= g { cw - g } else { 0 };
            left + (data_px - w) / 2
        } else {
            tx
        };
        proof {
            assert(ri as int * pitch <= 2 * pitch) by (nonlinear_arith) requires ri <= 2, pitch >= 0;
        }
        let y0 = ty0 + (ri as u32) * pitch;
        proof {
            assert(x_row as int == row_x(layout, row@.len() as int, tx as int, left as int, data_px as int, adv as int, g as int));
            assert(out@.skip(out@.len() as int) =~= Seq::<char>::empty());
            assert(out@.take(out@.len() as int) =~= out@);
        }
        let ghost before_row = out@;
        let mut ci: usize = 0;
        while ci < row.len()
            invariant
                views == rows@.map_values(|v: Vec<char>| v@),
                rows_small(views),
                ri < rows@.len(),
                row@ == views[ri as int],
                row@.len() <= 5,
                ci <= row@.len(),
                x_row <= 0x4000_0000,
                y0 <= 0x4000_0000,
                1 <= g <= 0x100_0000,
                adv == 6 * g,
                pitch == 8 * g,
                y0 == ty0 + ri * pitch,
                x_row as int == row_x(layout, row@.len() as int, tx as int, left as int, data_px as int, adv as int, g as int),
                block_ink(views, ri as int, layout, tx as int, left as int, data_px as int, ty0 as int, adv as int, pitch as int, g as int)
                    == Ok::<Seq<char>, char>(before_row.skip(start.len() as int)),
                before_row.len() >= start.len(),
                before_row.take(start.len() as int) == start,
                row_ink(row@, ci as int, x_row as int, y0 as int, adv as int, g as int) == Ok::<Seq<char>, char>(out@.skip(before_row.len() as int)),
                out@.len() >= before_row.len(),
                out@.take(before_row.len() as int) == before_row,
            decreases row@.len() - ci,
        {
            proof {
                assert(ci as int * adv <= 4 * adv) by (nonlinear_arith) requires ci <= 4, adv >= 0;
            }
            let x0 = x_row + (ci as u32) * adv;
            let ghost before_c = out@;
            match write_glyph_runs(out, row[ci], x0, y0, g) {
                Ok(()) => {},
                Err(e) => {
                    proof {
                        let c = row@[ci as int];
                        assert(row_ink(row@, ci + 1, x_row as int, y0 as int, adv as int, g as int) == Err::<Seq<char>, char>(c));
                        lemma_row_ink_err(row@, ci + 1, row@.len() as int, x_row as int, y0 as int, adv as int, g as int);
                        let vr = views[ri as int];
                        assert(vr == row@);
                        assert(y0 as int == ty0 as int + ((ri + 1) as int - 1) * (pitch as int));
                        assert(row_ink(vr, vr.len() as int, row_x(layout, vr.len() as int, tx as int, left as int, data_px as int, adv as int, g as int),
                            ty0 as int + ((ri + 1) as int - 1) * (pitch as int), adv as int, g as int) == Err::<Seq<char>, char>(c));
                        assert(block_ink(views, ri + 1, layout, tx as int, left as int, data_px as int, ty0 as int, adv as int, pitch as int, g as int)
                            == Err::<Seq<char>, char>(c));
                        lemma_block_ink_err(views, ri + 1, rows@.len() as int, layout, tx as int, left as int, data_px as int, ty0 as int, adv as int, pitch as int, g as int);
                    }
                    return Err(e);
                },
            }
            ci = ci + 1;
            proof {
                assert(out@.skip(before_row.len() as int) =~= before_c.skip(before_row.len() as int)
                    + glyph_text(row@[ci - 1], g as int, x0 as int, y0 as int)->0);
                assert(out@.take(before_row.len() as int) =~= before_row);
            }
        }
        ri = ri + 1;
        proof {
            assert(out@.skip(start.len() as int) =~= before_row.skip(start.len() as int) + out@.skip(before_row.len() as int));
            assert(out@.take(start.len() as int) =~= start);
        }
    }
    proof {
        assert(out@ =~= start + out@.skip(start.len() as int));
    }
    Ok(())
}

// ---------- the label ----------

/// The padding floors of the controlling axis: vertical for `horz`,
/// horizontal for `vert`.
pub open spec fn px_pads(layout: Layout, p: Padding) -> (int, int) {
    if layout == Layout::Horz { (p.top as int, p.bottom as int) } else { (p.left as int, p.right as int) }
}

/// Actual per-side white: the controlling axis takes its floors plus the
/// remainder (the odd px on the bottom/right); the other sides sit at
/// their floors.
pub open spec fn px_white(layout: Layout, p: Padding, mode: PaddingMode, size: int, data: int, quiet: int, m: int) -> Padding {
    let (pa, pb) = px_pads(layout, p);
    let fa = floor_spec(mode, pa, quiet, m);
    let fb = floor_spec(mode, pb, quiet, m);
    let rem = size - data * m - fa - fb;
    let wa = fa + rem / 2;
    let wb = fb + rem / 2 + rem % 2;
    if layout == Layout::Horz {
        Padding {
            top: wa as u32,
            right: floor_spec(mode, p.right as int, quiet, m) as u32,
            bottom: wb as u32,
            left: floor_spec(mode, p.left as int, quiet, m) as u32,
        }
    } else {
        Padding {
            top: floor_spec(mode, p.top as int, quiet, m) as u32,
            right: wb as u32,
            bottom: floor_spec(mode, p.bottom as int, quiet, m) as u32,
            left: wa as u32,
        }
    }
}

/// The label document: white background, one crisp black group.
pub open spec fn px_doc(w: int, h: int, rects: Seq<char>) -> Seq<char> {
    "<svg xmlns=\"http://www.w3.org/2000/svg\" width=\""@ + dec(w as nat) + "\" height=\""@ + dec(h as nat)
        + "\" viewBox=\"0 0 "@ + dec(w as nat) + " "@ + dec(h as nat) + "\"><rect width=\""@ + dec(w as nat)
        + "\" height=\""@ + dec(h as nat) + "\" fill=\"white\"/><g fill=\"black\" shape-rendering=\"crispEdges\">"@
        + rects + "</g></svg>\n"@
}

pub open spec fn msg_flag() -> Seq<char> {
    "flag layout has no px-true geometry yet; use horz or vert, or unit=mm for flag"@
}

/// Message when not even 1 px/module fits: the minimum sizes for 1, 2
/// and 3 px modules under the active mode.
pub open spec fn msg_no_fit(size: int, pa: int, pb: int, mode: PaddingMode, data: int, quiet: int, rs: ResolvedSymbology) -> Seq<char> {
    "size "@ + dec(size as nat) + "px with padding "@
        + (if pa == pb { dec(pa as nat) + "px"@ } else { dec(pa as nat) + "px/"@ + dec(pb as nat) + "px"@ })
        + " ("@ + mode_name(mode) + " mode) cannot fit 1px per module for a "@ + dec(data as nat) + "-module "@
        + compact_text(rs.family, rs.version, rs.ec) + " symbol with a "@ + dec(quiet as nat)
        + "-module quiet zone; minimum size is "@ + dec(min_size_spec(mode, data, quiet, pa, pb, 1) as nat)
        + "px (1px modules), "@ + dec(min_size_spec(mode, data, quiet, pa, pb, 2) as nat) + "px reaches 2px, "@
        + dec(min_size_spec(mode, data, quiet, pa, pb, 3) as nat) + "px reaches 3px"@
}

/// The receipt of a single label.
pub open spec fn label_receipt(rc: Receipt, canonical: Seq<char>, rs: ResolvedSymbology, size_px: u32, p: Padding,
    mode: PaddingMode, qr_px: int, m: int, g: int) -> bool {
    &&& rc.id@ == canonical
    &&& rc.payload@ == "qr id"@
    &&& rc.symbology@ == compact_text(rs.family, rs.version, rs.ec)
    &&& rc.size_px == size_px
    &&& rc.padding@ == seq![p.top, p.right, p.bottom, p.left]
    &&& rc.padding_mode@ == mode_name(mode)
    &&& rc.size_mode@ == "exact"@
    &&& rc.qr_px == qr_px
    &&& rc.module_px == m
    &&& rc.glyph_px == g
    &&& rc.fg@ == "black"@
    &&& rc.bg@ == "white"@
    &&& rc.font@ == "nx75"@
    &&& rc.generator@ == "qx "@ + CODEC_VERSION@
    &&& rc.repeat is None
}

/// The refusal of a size or padding beyond [`px_bounds`].
pub open spec fn msg_too_large() -> Seq<char> {
    "size and padding are limited to 16777216px each, so that every coordinate stays inside u32"@
}

/// Inputs small enough that every coordinate stays inside `u32`.
pub open spec fn px_bounds(size_px: u32, p: Padding) -> bool {
    &&& size_px <= 0x100_0000
    &&& p.top <= 0x100_0000
    &&& p.right <= 0x100_0000
    &&& p.bottom <= 0x100_0000
    &&& p.left <= 0x100_0000
}

/// What rendering `canonical` gives for a resolved symbol whose module
/// bits are `bits`.
pub open spec fn px_outcome(r: Result<PxLabel, CodecError>, canonical: Seq<char>, layout: Layout, size_px: u32,
    fmt: TextFormat, rs: ResolvedSymbology, bits: Seq<bool>, padding: Padding, mode: PaddingMode) -> bool {
    let data = symbol_width(is_micro(rs.family), rs.version) as int;
    let quiet = quiet_of(is_micro(rs.family)) as int;
    let (pa, pb) = px_pads(layout, padding);
    let m = module_px_spec(size_px as int, pa, pb, data, quiet, mode);
    if layout == Layout::Flag {
        r matches Err(CodecError::Unsupported(s)) && s@ == msg_flag()
    } else if m < 1 {
        r matches Err(CodecError::Render(s)) && s@ == msg_no_fit(size_px as int, pa, pb, mode, data, quiet, rs)
    } else {
        let white = px_white(layout, padding, mode, size_px as int, data, quiet, m);
        let data_px = data * m;
        let gap = gap_spec((if layout == Layout::Horz { white.right } else { white.bottom }) as int, quiet, m);
        let rows = text_rows(fmt, canonical);
        let n_rows = rows.len() as int;
        let mc = max_len(rows, n_rows);
        let g = glyph_scale(layout, data_px, m, n_rows, mc);
        if g < 1 {
            r matches Err(CodecError::Render(s)) && s@ == text_block_error(data_px, n_rows, mc)
        } else {
            px_assembled(r, canonical, layout, size_px, rs, bits, data, quiet, padding, mode, m, white, gap, rows, g, mc)
        }
    }
}

/// A label assembled from its frame (module size, white, gap) and its
/// text block at scale `g`: the module rects, then the glyphs row by row,
/// or the first char without a glyph.
pub open spec fn px_assembled(r: Result<PxLabel, CodecError>, canonical: Seq<char>, layout: Layout, size_px: u32,
    rs: ResolvedSymbology, bits: Seq<bool>, data: int, quiet: int, padding: Padding, mode: PaddingMode, m: int,
    white: Padding, gap: int, rows: Seq<Seq<char>>, g: int, mc: int) -> bool {
    let data_px = data * m;
    let n_rows = rows.len() as int;
    let block_h = block_units(n_rows) * g;
    let max_row_w = if mc * 6 * g >= g { mc * 6 * g - g } else { 0 };
    let tx = white.left + data_px + gap;
    let ty0 = if layout == Layout::Horz { white.top + (data_px - block_h) / 2 } else { white.top + data_px + gap };
    let w = if layout == Layout::Horz { tx + max_row_w + white.right } else { size_px as int };
    let h = if layout == Layout::Horz { size_px as int } else { ty0 + block_h + white.bottom };
    let modules = module_rects_text(bits, data, data, white.left as int, white.top as int, m);
    match block_ink(rows, n_rows, layout, tx, white.left as int, data_px, ty0, 6 * g, 8 * g, g) {
        Err(c) => r matches Err(CodecError::Render(s)) && s@ == no_glyph_message(c),
        Ok(ink) => r matches Ok(l) && {
            &&& l.width_px == w
            &&& l.height_px == h
            &&& l.svg@ == px_doc(w, h, modules + ink)
            &&& l.qr_px == (data + 2 * quiet) * m
            &&& l.module_px == m
            &&& l.modules == data + 2 * quiet
            &&& l.data_px == data_px
            &&& l.glyph_px == g
            &&& l.glyph_cell == 7
            &&& l.white == white
            &&& l.padding_mode == mode
            &&& l.symbology@ == compact_text(rs.family, rs.version, rs.ec)
            &&& label_receipt(l.receipt, canonical, rs, size_px, padding, mode, (data + 2 * quiet) * m, m, g)
        },
    }
}

proof fn lemma_rows_small(fmt: TextFormat, canonical: Seq<char>)
    ensures
        rows_small(text_rows(fmt, canonical)),
        text_rows(fmt, canonical).len() >= 2,
{
    let counts = row_counts(fmt);
    let rows = text_rows(fmt, canonical);
    assert forall|i: int| 0 <= i < rows.len() implies #[trigger] rows[i].len() <= 5 by {
        assert(prefix_sum(counts, i + 1) == prefix_sum(counts, i) + counts[i]);
        assert(counts[i] <= 5);
        let len = canonical.len() as int;
        assert(prefix_sum(counts, i) >= 0) by {
            lemma_prefix_nonneg(counts, i);
        }
        assert(row_start(counts, i, len) <= row_start(counts, i + 1, len));
    }
}

proof fn lemma_prefix_nonneg(counts: Seq<usize>, i: int)
    ensures
        prefix_sum(counts, i) >= 0,
    decreases i,
{
    if i > 0 {
        lemma_prefix_nonneg(counts, i - 1);
    }
}

proof fn lemma_max_len(rows: Seq<Seq<char>>, k: int)
    requires
        0 <= k <= rows.len(),
        rows_small(rows),
    ensures
        0 <= max_len(rows, k) <= 5,
        forall|i: int| 0 <= i < k ==> #[trigger] rows[i].len() <= max_len(rows, k),
    decreases k,
{
    if k > 0 {
        lemma_max_len(rows, k - 1);
    }
}

fn rows_chars(rows: &Vec<String>) -> (r: Vec<Vec<char>>)
    ensures
        r@.map_values(|v: Vec<char>| v@) == rows@.map_values(|s: String| s@),
{
    let mut out: Vec<Vec<char>> = Vec::new();
    let mut i: usize = 0;
    while i < rows.len()
        invariant
            i <= rows@.len(),
            out@.len() == i,
            forall|j: int| 0 <= j < i ==> #[trigger] out@[j]@ == rows@[j]@,
        decreases rows@.len() - i,
    {
        out.push(to_chars(rows[i].as_str()));
        i = i + 1;
    }
    assert(out@.map_values(|v: Vec<char>| v@) =~= rows@.map_values(|s: String| s@));
    out
}

fn max_row_len(rows: &Vec<Vec<char>>) -> (r: u32)
    requires
        rows_small(rows@.map_values(|v: Vec<char>| v@)),
    ensures
        r == max_len(rows@.map_values(|v: Vec<char>| v@), rows@.len() as int),
{
    let ghost views = rows@.map_values(|v: Vec<char>| v@);
    let mut best: u32 = 0;
    let mut i: usize = 0;
    while i < rows.len()
        invariant
            views == rows@.map_values(|v: Vec<char>| v@),
            rows_small(views),
            i <= rows@.len(),
            best == max_len(views, i as int),
            best <= 5,
        decreases rows@.len() - i,
    {
        proof {
            assert(views[i as int] == rows@[i as int]@);
            assert(rows@[i as int]@.len() <= 5);
        }
        let n = rows[i].len() as u32;
        if n > best {
            best = n;
        }
        i = i + 1;
    }
    best
}

fn no_fit_message(size_px: u32, pad_a: u32, pad_b: u32, mode: PaddingMode, data: u32, quiet: u32, rs: &ResolvedSymbology) -> (m: String)
    ensures
        m@ == msg_no_fit(size_px as int, pad_a as int, pad_b as int, mode, data as int, quiet as int, *rs),
{
    let mut m = "size ".to_owned();
    push_dec(&mut m, size_px as u128);
    push_str(&mut m, "px with padding ");
    let ghost before = m@;
    push_dec(&mut m, pad_a as u128);
    if pad_a == pad_b {
        push_str(&mut m, "px");
    } else {
        push_str(&mut m, "px/");
        push_dec(&mut m, pad_b as u128);
        push_str(&mut m, "px");
    }
    proof {
        let d = if pad_a == pad_b { dec(pad_a as nat) + "px"@ } else { dec(pad_a as nat) + "px/"@ + dec(pad_b as nat) + "px"@ };
        assert(m@ =~= before + d);
    }
    push_str(&mut m, " (");
    push_str(&mut m, mode.name());
    push_str(&mut m, " mode) cannot fit 1px per module for a ");
    push_dec(&mut m, data as u128);
    push_str(&mut m, "-module ");
    let sym = rs.compact();
    push_str(&mut m, sym.as_str());
    push_str(&mut m, " symbol with a ");
    push_dec(&mut m, quiet as u128);
    push_str(&mut m, "-module quiet zone; minimum size is ");
    push_dec(&mut m, mode.min_size(data, quiet, pad_a, pad_b, 1) as u128);
    push_str(&mut m, "px (1px modules), ");
    push_dec(&mut m, mode.min_size(data, quiet, pad_a, pad_b, 2) as u128);
    push_str(&mut m, "px reaches 2px, ");
    push_dec(&mut m, mode.min_size(data, quiet, pad_a, pad_b, 3) as u128);
    push_str(&mut m, "px reaches 3px");
    m
}

fn px_document(w: u32, h: u32, rects: &String) -> (svg: String)
    ensures
        svg@ == px_doc(w as int, h as int, rects@),
{
    let mut svg = "<svg xmlns=\"http://www.w3.org/2000/svg\" width=\"".to_owned();
    push_dec(&mut svg, w as u128);
    push_str(&mut svg, "\" height=\"");
    push_dec(&mut svg, h as u128);
    push_str(&mut svg, "\" viewBox=\"0 0 ");
    push_dec(&mut svg, w as u128);
    push_str(&mut svg, " ");
    push_dec(&mut svg, h as u128);
    push_str(&mut svg, "\"><rect width=\"");
    push_dec(&mut svg, w as u128);
    push_str(&mut svg, "\" height=\"");
    push_dec(&mut svg, h as u128);
    push_str(&mut svg, "\" fill=\"white\"/><g fill=\"black\" shape-rendering=\"crispEdges\">");
    push_str(&mut svg, rects.as_str());
    push_str(&mut svg, "</g></svg>\n");
    svg
}

fn single_receipt(canonical: &str, rs: &ResolvedSymbology, size_px: u32, p: Padding, mode: PaddingMode,
    qr_px: u32, module_px: u32, glyph_px: u32) -> (rc: Receipt)
    ensures
        label_receipt(rc, canonical@, *rs, size_px, p, mode, qr_px as int, module_px as int, glyph_px as int),
{
    let rc = Receipt {
        id: canonical.to_owned(),
        payload: "qr id".to_owned(),
        symbology: rs.compact(),
        size_px,
        padding: [p.top, p.right, p.bottom, p.left],
        padding_mode: mode.name().to_owned(),
        size_mode: "exact".to_owned(),
        qr_px,
        module_px,
        glyph_px,
        fg: "black".to_owned(),
        bg: "white".to_owned(),
        font: "nx75".to_owned(),
        generator: generator(),
        repeat: None,
    };
    proof {
        assert(rc.padding@ =~= seq![p.top, p.right, p.bottom, p.left]);
    }
    rc
}

proof fn lemma_vert_rows_fit(rows: Seq<Vec<char>>, mc: int, g: int, data_px: int)
    requires
        forall|i: int| 0 <= i < rows.len() ==> #[trigger] rows[i]@.len() <= mc,
        g >= 0,
        mc >= 0,
        g * row_units(mc) <= data_px,
    ensures
        forall|i: int| 0 <= i < rows.len() ==> #[trigger] rows[i]@.len() * (6 * g) <= data_px + g,
{
    assert forall|i: int| 0 <= i < rows.len() implies #[trigger] rows[i]@.len() * (6 * g) <= data_px + g by {
        let len = rows[i]@.len() as int;
        assert(len * (6 * g) <= mc * (6 * g)) by (nonlinear_arith) requires len <= mc, g >= 0;
        if mc >= 1 {
            assert(g * row_units(mc) == mc * (6 * g) - g) by (nonlinear_arith) requires row_units(mc) == 6 * mc - 1;
        } else {
            assert(mc * (6 * g) == 0) by (nonlinear_arith) requires mc == 0;
        }
    }
}

/// The controlling-axis frame: module size, white and text gap.
fn px_frame(layout: Layout, size_px: u32, data: u32, quiet: u32, padding: Padding, mode: PaddingMode) -> (r: (u32, Padding, u32))
    requires
        layout != Layout::Flag,
        2 <= data <= 177,
        quiet <= 4,
        px_bounds(size_px, padding),
    ensures
        ({
            let (pa, pb) = px_pads(layout, padding);
            let m = module_px_spec(size_px as int, pa, pb, data as int, quiet as int, mode);
            &&& r.0 == m
            &&& r.0 <= size_px
            &&& r.0 >= 1 ==> {
                &&& r.1 == px_white(layout, padding, mode, size_px as int, data as int, quiet as int, m)
                &&& r.2 == gap_spec((if layout == Layout::Horz { r.1.right } else { r.1.bottom }) as int, quiet as int, m)
                &&& data as int * m <= size_px
                &&& r.1.left <= 0x800_0000 && r.1.right <= 0x800_0000 && r.1.top <= 0x800_0000 && r.1.bottom <= 0x800_0000
                &&& r.2 <= 0x1000_0000
            }
        }),
{
    let (pad_a, pad_b) = if layout == Layout::Horz { (padding.top, padding.bottom) } else { (padding.left, padding.right) };
    let module_px = deduce_module_px(size_px, pad_a, pad_b, data, quiet, mode);
    if module_px < 1 {
        return (module_px, padding, 0);
    }
    let ghost m = module_px as int;
    proof {
        assert(min_size_spec(mode, data as int, quiet as int, pad_a as int, pad_b as int, m) <= size_px);
        assert(quiet as int * m <= 4 * m) by (nonlinear_arith) requires quiet <= 4, m >= 0;
    }
    let data_px = data * module_px;
    let floor_a = mode.floor_px(pad_a, quiet, module_px);
    let floor_b = mode.floor_px(pad_b, quiet, module_px);
    let rem = size_px - data_px - floor_a - floor_b;
    let white_a = floor_a + rem / 2;
    let white_b = floor_b + rem / 2 + rem % 2;
    let white = if layout == Layout::Horz {
        Padding {
            top: white_a,
            bottom: white_b,
            left: mode.floor_px(padding.left, quiet, module_px),
            right: mode.floor_px(padding.right, quiet, module_px),
        }
    } else {
        Padding {
            left: white_a,
            right: white_b,
            top: mode.floor_px(padding.top, quiet, module_px),
            bottom: mode.floor_px(padding.bottom, quiet, module_px),
        }
    };
    let gap = if layout == Layout::Horz {
        qr_text_gap(white.right, quiet, module_px)
    } else {
        qr_text_gap(white.bottom, quiet, module_px)
    };
    (module_px, white, gap)
}

/// Lay out one label for a resolved symbol: deduce the module size on
/// the controlling axis, distribute the white, place the module rects and
/// the id-text block (the g-law), and assemble the document.
#[verifier::rlimit(100)]
#[verifier::spinoff_prover]
pub fn layout_label_px(canonical: &str, layout: Layout, size_px: u32, text_format: TextFormat,
    resolved: ResolvedSymbology, matrix: &QrMatrix, padding: Padding, padding_mode: PaddingMode) -> (r: Result<PxLabel, CodecError>)
    requires
        matrix.wf(),
        version_ok(resolved.family, resolved.version),
        matrix.size == symbol_width(is_micro(resolved.family), resolved.version),
    ensures
        layout != Layout::Flag && !px_bounds(size_px, padding)
            ==> (r matches Err(CodecError::Render(s)) && s@ == msg_too_large()),
        layout == Layout::Flag || px_bounds(size_px, padding)
            ==> px_outcome(r, canonical@, layout, size_px, text_format, resolved, matrix.modules@, padding, padding_mode),
{
    if layout == Layout::Flag {
        return Err(CodecError::Unsupported("flag layout has no px-true geometry yet; use horz or vert, or unit=mm for flag".to_owned()));
    }
    let limit: u32 = 0x100_0000;
    if size_px > limit || padding.top > limit || padding.right > limit || padding.bottom > limit || padding.left > limit {
        proof { reveal_strlit("size and padding are limited to 16777216px each, so that every coordinate stays inside u32"); }
        return Err(CodecError::Render("size and padding are limited to 16777216px each, so that every coordinate stays inside u32".to_owned()));
    }
    let data = matrix.size as u32;
    let quiet = resolved.quiet_modules();
    let (module_px, white, gap) = px_frame(layout, size_px, data, quiet, padding, padding_mode);
    if module_px < 1 {
        let (pad_a, pad_b) = if layout == Layout::Horz { (padding.top, padding.bottom) } else { (padding.left, padding.right) };
        return Err(CodecError::Render(no_fit_message(size_px, pad_a, pad_b, padding_mode, data, quiet, &resolved)));
    }
    let data_px = data * module_px;
    let rows_s = text_format.split(canonical);
    let rows = rows_chars(&rows_s);
    let ghost views = rows@.map_values(|v: Vec<char>| v@);
    proof {
        assert(views =~= text_rows(text_format, canonical@));
        lemma_rows_small(text_format, canonical@);
        lemma_max_len(views, views.len() as int);
    }
    let n_rows = rows.len() as u32;
    let max_chars = max_row_len(&rows);
    let block = match text_block(layout, data_px, module_px, n_rows, max_chars) {
        Ok(b) => b,
        Err(e) => return Err(e),
    };
    let g = block.glyph_px;
    proof {
        if layout == Layout::Vert {
            assert forall|i: int| 0 <= i < rows@.len() implies #[trigger] rows@[i]@.len() <= max_chars by {
                assert(views[i] == rows@[i]@);
            }
            assert(g as int * row_units(max_chars as int) <= data_px) by (nonlinear_arith)
                requires g as int <= (data_px as int) / row_units(max_chars as int), row_units(max_chars as int) >= 1;
            lemma_vert_rows_fit(rows@, max_chars as int, g as int, data_px as int);
        }
        assert(g as int * block_units(n_rows as int) <= data_px) by (nonlinear_arith)
            requires g as int <= (data_px as int) / block_units(n_rows as int), block_units(n_rows as int) >= 1;
    }
    proof {
        assert(max_chars as int * 6 * g <= 30 * g) by (nonlinear_arith) requires max_chars <= 5, g >= 0;
        assert(block_units(n_rows as int) * g == g * block_units(n_rows as int)) by (nonlinear_arith);
    }
    assemble_label(canonical, layout, size_px, &resolved, matrix, padding, padding_mode, module_px, white, gap,
        &rows, block, max_chars)
}

#[verifier::rlimit(40)]
fn assemble_label(canonical: &str, layout: Layout, size_px: u32, resolved: &ResolvedSymbology, matrix: &QrMatrix,
    padding: Padding, mode: PaddingMode, module_px: u32, white: Padding, gap: u32, rows: &Vec<Vec<char>>,
    block: TextBlock, max_chars: u32) -> (r: Result<PxLabel, CodecError>)
    requires
        matrix.wf(),
        matrix.size == symbol_width(is_micro(resolved.family), resolved.version),
        2 <= matrix.size <= 177,
        layout != Layout::Flag,
        1 <= module_px <= 0x100_0000,
        matrix.size * module_px <= 0x100_0000,
        white.left <= 0x800_0000 && white.right <= 0x800_0000 && white.top <= 0x800_0000 && white.bottom <= 0x800_0000,
        gap <= 0x1000_0000,
        size_px <= 0x100_0000,
        rows_small(rows@.map_values(|v: Vec<char>| v@)),
        max_chars <= 5,
        1 <= block.glyph_px <= module_px,
        block.advance == 6 * block.glyph_px,
        block.row_pitch == 8 * block.glyph_px,
        block.block_h == block_units(rows@.len() as int) * block.glyph_px,
        block.block_h <= matrix.size * module_px,
        block.max_row_w == (if max_chars * 6 * block.glyph_px >= block.glyph_px { max_chars * 6 * block.glyph_px - block.glyph_px } else { 0 }),
        layout == Layout::Vert ==> forall|i: int| 0 <= i < rows@.len() ==> #[trigger] rows@[i]@.len() * block.advance <= matrix.size * module_px + block.glyph_px,
    ensures
        px_assembled(r, canonical@, layout, size_px, *resolved, matrix.modules@, matrix.size as int,
            quiet_of(is_micro(resolved.family)) as int, padding, mode, module_px as int, white, gap as int,
            rows@.map_values(|v: Vec<char>| v@), block.glyph_px as int, max_chars as int),
{
    let data = matrix.size as u32;
    let quiet = resolved.quiet_modules();
    let g = block.glyph_px;
    let data_px = data * module_px;
    proof {
        assert((data as int + 2 * quiet as int) * module_px == data as int * module_px + 2 * (quiet as int * module_px)) by (nonlinear_arith);
        assert(quiet as int * module_px <= 4 * module_px) by (nonlinear_arith) requires quiet <= 4;
        assert(max_chars as int * 6 * g <= 30 * g) by (nonlinear_arith) requires max_chars <= 5, g >= 0;
    }
    let modules = data + 2 * quiet;
    let qr_px = modules * module_px;
    let mut rects = String::new();
    write_module_rects(&mut rects, matrix, white.left, white.top, module_px);
    let tx = white.left + data_px + gap;
    let ty0 = if layout == Layout::Horz {
        white.top + (data_px - block.block_h) / 2
    } else {
        white.top + data_px + gap
    };
    match write_text_block(&mut rects, rows, layout, tx, white.left, data_px, ty0, block.advance, block.row_pitch, g) {
        Ok(()) => {},
        Err(e) => return Err(e),
    }
    let (width_px, height_px) = if layout == Layout::Horz {
        (tx + block.max_row_w + white.right, size_px)
    } else {
        (size_px, ty0 + block.block_h + white.bottom)
    };
    let svg = px_document(width_px, height_px, &rects);
    let receipt = single_receipt(canonical, resolved, size_px, padding, mode, qr_px, module_px, g);
    Ok(PxLabel {
        svg,
        width_px,
        height_px,
        qr_px,
        module_px,
        modules,
        data_px,
        glyph_px: g,
        glyph_cell: 7,
        white,
        padding_mode: mode,
        symbology: resolved.compact(),
        receipt,
    })
}

/// Render one label: resolve the symbology against the payload, then lay
/// the label out (`layout_label_px`). The controlling dimension (height
/// for `horz`, width for `vert`) comes out exactly `size_px`.
pub fn render_label_px(canonical: &str, layout: Layout, size_px: u32, text_format: TextFormat,
    symbology: &Symbology, padding: Padding, padding_mode: PaddingMode) -> (r: Result<PxLabel, CodecError>)
    ensures
        match auto_fit(*symbology, canonical@) {
            None => r matches Err(CodecError::Encode(m)) && m@ == infeasible_text(*symbology, canonical@),
            Some((v, e)) => match crate::qr::pinned_encoding(canonical@, is_micro(symbology.family), v, e) {
                Ok(bits) => if layout != Layout::Flag && !px_bounds(size_px, padding) {
                    r matches Err(CodecError::Render(m)) && m@ == msg_too_large()
                } else {
                    px_outcome(r, canonical@, layout, size_px, text_format,
                        ResolvedSymbology { family: symbology.family, version: v, ec: e }, bits, padding, padding_mode)
                },
                Err(_) => false,
            },
        },
{
    let (resolved, matrix) = match symbology.resolve(canonical) {
        Ok(t) => t,
        Err(e) => return Err(e),
    };
    layout_label_px(canonical, layout, size_px, text_format, resolved, &matrix, padding, padding_mode)
}

// ---------- job uniformity ----------

/// Start of an SVG document's body: after the first `>`, else 0.
pub open spec fn body_start(svg: Seq<char>) -> int {
    match find_from(svg, ">"@, 0) {
        Some(i) => i + 1,
        None => 0,
    }
}

/// End of an SVG document's body: its last `</svg>`, else its length.
pub open spec fn body_end(svg: Seq<char>) -> int {
    match rfind(svg, "</svg>"@) {
        Some(e) => e,
        None => svg.len() as int,
    }
}

/// The body comes before the closing tag.
pub open spec fn body_ok(svg: Seq<char>) -> bool {
    body_start(svg) <= body_end(svg)
}

/// Body of a document (between the root's open tag and the last
/// `</svg>`), newlines trimmed from both ends.
pub open spec fn inner_body_text(svg: Seq<char>) -> Seq<char> {
    strip_char(svg.subrange(body_start(svg), body_end(svg)), '\n')
}

/// Body of an `<svg>…</svg>` document.
pub fn inner_body(svg: &str) -> (r: String)
    requires
        body_ok(svg@),
    ensures
        r@ == inner_body_text(svg@),
{
    let cs = to_chars(svg);
    let n = cs.len();
    let gt = to_chars(">");
    let start = match find_pat(&cs, &gt, 0) {
        Some(i) => {
            proof {
                reveal_strlit(">");
                assert(gt@ == ">"@);
                assert(">"@.len() == 1);
                lemma_find_bounds(cs@, ">"@, 0);
                assert(find_from(cs@, gt@, 0) == Some(i as int));
                assert(i + 1 <= n);
            }
            i + 1
        },
        None => 0,
    };
    let close = to_chars("</svg>");
    let end = match rfind_pat(&cs, &close) {
        Some(e) => e,
        None => cs.len(),
    };
    let (a, b) = strip_bounds(&cs, start, end, '\n');
    string_of(&cs, a, b)
}

/// Largest `data_px` over the first `k` labels.
pub open spec fn max_data(ls: Seq<PxLabel>, k: int) -> int
    decreases k,
{
    if k <= 0 { 0 } else { let a = max_data(ls, k - 1); if ls[k - 1].data_px > a { ls[k - 1].data_px as int } else { a } }
}

/// Largest width over the first `k` labels.
pub open spec fn max_width(ls: Seq<PxLabel>, k: int) -> int
    decreases k,
{
    if k <= 0 { 0 } else { let a = max_width(ls, k - 1); if ls[k - 1].width_px > a { ls[k - 1].width_px as int } else { a } }
}

/// Largest height over the first `k` labels.
pub open spec fn max_height(ls: Seq<PxLabel>, k: int) -> int
    decreases k,
{
    if k <= 0 { 0 } else { let a = max_height(ls, k - 1); if ls[k - 1].height_px > a { ls[k - 1].height_px as int } else { a } }
}

/// The uniform width: the widest label, and at least the largest module
/// part plus the left and right floors.
pub open spec fn target_width(ls: Seq<PxLabel>, p: Padding) -> int {
    let f = max_data(ls, ls.len() as int) + p.left + p.right;
    let w = max_width(ls, ls.len() as int);
    if w >= f { w } else { f }
}

/// The uniform height: the tallest label, and at least the largest module
/// part plus the top and bottom floors.
pub open spec fn target_height(ls: Seq<PxLabel>, p: Padding) -> int {
    let f = max_data(ls, ls.len() as int) + p.top + p.bottom;
    let h = max_height(ls, ls.len() as int);
    if h >= f { h } else { f }
}

/// A label re-wrapped onto a `tw × th` canvas, its old body centred by an
/// integer translate.
pub open spec fn fill_doc(tw: int, th: int, dx: int, dy: int, inner: Seq<char>) -> Seq<char> {
    "<svg xmlns=\"http://www.w3.org/2000/svg\" width=\""@ + dec(tw as nat) + "\" height=\""@ + dec(th as nat)
        + "\" viewBox=\"0 0 "@ + dec(tw as nat) + " "@ + dec(th as nat) + "\"><rect width=\""@ + dec(tw as nat)
        + "\" height=\""@ + dec(th as nat) + "\" fill=\"white\"/><g transform=\"translate("@ + dec(dx as nat) + ","@
        + dec(dy as nat) + ")\">"@ + inner + "</g></svg>\n"@
}

/// `n` is `o` grown to `tw × th`: unchanged when already that size,
/// otherwise re-wrapped and centred, every other field kept.
pub open spec fn grown(o: PxLabel, n: PxLabel, tw: int, th: int) -> bool {
    if o.width_px == tw && o.height_px == th {
        n == o
    } else {
        &&& n.svg@ == fill_doc(tw, th, (tw - o.width_px) / 2, (th - o.height_px) / 2, inner_body_text(o.svg@))
        &&& n.width_px == tw
        &&& n.height_px == th
        &&& n.qr_px == o.qr_px
        &&& n.module_px == o.module_px
        &&& n.modules == o.modules
        &&& n.data_px == o.data_px
        &&& n.glyph_px == o.glyph_px
        &&& n.glyph_cell == o.glyph_cell
        &&& n.white == o.white
        &&& n.padding_mode == o.padding_mode
        &&& n.symbology == o.symbology
        &&& n.receipt == o.receipt
    }
}

proof fn lemma_maxima(ls: Seq<PxLabel>, k: int)
    requires
        0 <= k <= ls.len(),
    ensures
        forall|i: int| 0 <= i < k ==> #[trigger] ls[i].data_px <= max_data(ls, k),
        forall|i: int| 0 <= i < k ==> #[trigger] ls[i].width_px <= max_width(ls, k),
        forall|i: int| 0 <= i < k ==> #[trigger] ls[i].height_px <= max_height(ls, k),
        0 <= max_data(ls, k) <= u32::MAX,
        0 <= max_width(ls, k) <= u32::MAX,
        0 <= max_height(ls, k) <= u32::MAX,
    decreases k,
{
    if k > 0 {
        lemma_maxima(ls, k - 1);
    }
}

fn fill_maxima(labels: &Vec<PxLabel>) -> (r: (u32, u32, u32))
    ensures
        r.0 == max_data(labels@, labels@.len() as int),
        r.1 == max_width(labels@, labels@.len() as int),
        r.2 == max_height(labels@, labels@.len() as int),
{
    let mut d: u32 = 0;
    let mut w: u32 = 0;
    let mut h: u32 = 0;
    let mut i: usize = 0;
    while i < labels.len()
        invariant
            i <= labels@.len(),
            d == max_data(labels@, i as int),
            w == max_width(labels@, i as int),
            h == max_height(labels@, i as int),
        decreases labels@.len() - i,
    {
        if labels[i].data_px > d { d = labels[i].data_px; }
        if labels[i].width_px > w { w = labels[i].width_px; }
        if labels[i].height_px > h { h = labels[i].height_px; }
        i = i + 1;
    }
    (d, w, h)
}

/// Pad every label of a job to the job's largest footprint: at least the
/// largest label, and at least the largest module part plus the opposing
/// padding floors per dimension. Smaller labels are centred on integer
/// offsets; labels already that size are left alone.
pub fn fill_to_max(labels: &mut Vec<PxLabel>, padding: Padding)
    requires
        max_data(old(labels)@, old(labels)@.len() as int) + padding.left + padding.right <= u32::MAX,
        max_data(old(labels)@, old(labels)@.len() as int) + padding.top + padding.bottom <= u32::MAX,
        forall|i: int| 0 <= i < old(labels)@.len() ==> body_ok(#[trigger] old(labels)@[i].svg@),
    ensures
        final(labels)@.len() == old(labels)@.len(),
        forall|i: int| 0 <= i < old(labels)@.len() ==> grown(#[trigger] old(labels)@[i], final(labels)@[i],
            target_width(old(labels)@, padding), target_height(old(labels)@, padding)),
        forall|i: int| 0 <= i < old(labels)@.len() ==> #[trigger] final(labels)@[i].width_px == target_width(old(labels)@, padding)
            && final(labels)@[i].height_px == target_height(old(labels)@, padding),
{
    let ghost orig = labels@;
    if labels.len() == 0 {
        return;
    }
    let (max_d, max_w, max_h) = fill_maxima(labels);
    proof { lemma_maxima(orig, orig.len() as int); }
    let floor_w = max_d + padding.left + padding.right;
    let floor_h = max_d + padding.top + padding.bottom;
    let target_w = if max_w >= floor_w { max_w } else { floor_w };
    let target_h = if max_h >= floor_h { max_h } else { floor_h };
    let mut i: usize = 0;
    while i < labels.len()
        invariant
            labels@.len() == orig.len(),
            i <= orig.len(),
            target_w == target_width(orig, padding),
            target_h == target_height(orig, padding),
            forall|j: int| 0 <= j < orig.len() ==> #[trigger] orig[j].width_px <= target_w,
            forall|j: int| 0 <= j < orig.len() ==> #[trigger] orig[j].height_px <= target_h,
            forall|j: int| 0 <= j < orig.len() ==> body_ok(#[trigger] orig[j].svg@),
            forall|j: int| 0 <= j < i ==> grown(#[trigger] orig[j], labels@[j], target_w as int, target_h as int),
            forall|j: int| i <= j < orig.len() ==> #[trigger] labels@[j] == orig[j],
        decreases orig.len() - i,
    {
        if labels[i].width_px != target_w || labels[i].height_px != target_h {
            let dx = (target_w - labels[i].width_px) / 2;
            let dy = (target_h - labels[i].height_px) / 2;
            let inner = inner_body(labels[i].svg.as_str());
            let mut svg = "<svg xmlns=\"http://www.w3.org/2000/svg\" width=\"".to_owned();
            push_dec(&mut svg, target_w as u128);
            push_str(&mut svg, "\" height=\"");
            push_dec(&mut svg, target_h as u128);
            push_str(&mut svg, "\" viewBox=\"0 0 ");
            push_dec(&mut svg, target_w as u128);
            push_str(&mut svg, " ");
            push_dec(&mut svg, target_h as u128);
            push_str(&mut svg, "\"><rect width=\"");
            push_dec(&mut svg, target_w as u128);
            push_str(&mut svg, "\" height=\"");
            push_dec(&mut svg, target_h as u128);
            push_str(&mut svg, "\" fill=\"white\"/><g transform=\"translate(");
            push_dec(&mut svg, dx as u128);
            push_str(&mut svg, ",");
            push_dec(&mut svg, dy as u128);
            push_str(&mut svg, ")\">");
            push_str(&mut svg, inner.as_str());
            push_str(&mut svg, "</g></svg>\n");
            labels[i].svg = svg;
            labels[i].width_px = target_w;
            labels[i].height_px = target_h;
        }
        i = i + 1;
    }
    proof {
        assert forall|j: int| 0 <= j < orig.len() implies #[trigger] labels@[j].width_px == target_w
            && labels@[j].height_px == target_h by {
            assert(grown(orig[j], labels@[j], target_w as int, target_h as int));
        }
    }
}

// ---------- laws ----------

proof fn lemma_min_size_mono(mode: PaddingMode, data: int, quiet: int, pa: int, pb: int, a: int, b: int)
    requires
        data >= 0,
        quiet >= 0,
        pa >= 0,
        pb >= 0,
        0 <= a <= b,
    ensures
        min_size_spec(mode, data, quiet, pa, pb, a) <= min_size_spec(mode, data, quiet, pa, pb, b),
{
    assert(data * a <= data * b) by (nonlinear_arith) requires data >= 0, a <= b;
    assert(quiet * a <= quiet * b) by (nonlinear_arith) requires quiet >= 0, a <= b;
}

/// Law: the deduced module size is the largest that fits — every larger
/// size overflows the controlling axis.
pub proof fn law_module_px_is_maximal(m: int, k: int, size: u32, pad_a: u32, pad_b: u32, data: u32, quiet: u32, mode: PaddingMode)
    requires
        deduced(m, size as int, pad_a as int, pad_b as int, data as int, quiet as int, mode),
        k > m,
    ensures
        min_size_spec(mode, data as int, quiet as int, pad_a as int, pad_b as int, k) > size,
{
    lemma_min_size_mono(mode, data as int, quiet as int, pad_a as int, pad_b as int, m + 1, k);
}

/// Law: a rendered label's controlling dimension is exactly the requested
/// size — height for `horz`, width for `vert` — and the white of the
/// controlling axis plus the module part fills it, each side at least its
/// floor.
#[verifier::rlimit(60)]
pub proof fn law_controlling_dimension_exact(r: Result<PxLabel, CodecError>, canonical: Seq<char>, layout: Layout,
    size_px: u32, fmt: TextFormat, rs: ResolvedSymbology, bits: Seq<bool>, padding: Padding, mode: PaddingMode)
    requires
        px_outcome(r, canonical, layout, size_px, fmt, rs, bits, padding, mode),
        r is Ok,
    ensures
        layout == Layout::Horz ==> r->Ok_0.height_px == size_px
            && r->Ok_0.white.top + r->Ok_0.data_px + r->Ok_0.white.bottom == size_px
            && r->Ok_0.white.top >= floor_spec(mode, padding.top as int, quiet_of(is_micro(rs.family)) as int, r->Ok_0.module_px as int)
            && r->Ok_0.white.bottom >= floor_spec(mode, padding.bottom as int, quiet_of(is_micro(rs.family)) as int, r->Ok_0.module_px as int),
        layout == Layout::Vert ==> r->Ok_0.width_px == size_px
            && r->Ok_0.white.left + r->Ok_0.data_px + r->Ok_0.white.right == size_px
            && r->Ok_0.white.left >= floor_spec(mode, padding.left as int, quiet_of(is_micro(rs.family)) as int, r->Ok_0.module_px as int)
            && r->Ok_0.white.right >= floor_spec(mode, padding.right as int, quiet_of(is_micro(rs.family)) as int, r->Ok_0.module_px as int),
{
    let data = symbol_width(is_micro(rs.family), rs.version) as int;
    let quiet = quiet_of(is_micro(rs.family)) as int;
    let (pa, pb) = px_pads(layout, padding);
    let m = module_px_spec(size_px as int, pa, pb, data, quiet, mode);
    if layout != Layout::Flag && m >= 1 {
        lemma_deduced_exists(0, size_px as int, pa, pb, data, quiet, mode);
        assert(min_size_spec(mode, data, quiet, pa, pb, m) <= size_px);
        let white = px_white(layout, padding, mode, size_px as int, data, quiet, m);
        let l = r->Ok_0;
        assert(l.white == white && l.data_px == data * m && l.module_px == m);
        if layout == Layout::Vert {
            assert(l.width_px == size_px);
        } else {
            assert(l.height_px == size_px);
        }
    }
}

/// A deduced size exists: scan upward from `k`.
proof fn lemma_deduced_exists(k: int, size: int, pa: int, pb: int, data: int, quiet: int, mode: PaddingMode)
    requires
        0 <= k <= size,
        data >= 1,
        quiet >= 0,
        pa >= 0,
        pb >= 0,
        forall|j: int| 1 <= j <= k ==> #[trigger] min_size_spec(mode, data, quiet, pa, pb, j) <= size,
    ensures
        deduced(module_px_spec(size, pa, pb, data, quiet, mode), size, pa, pb, data, quiet, mode),
    decreases size - k,
{
    if min_size_spec(mode, data, quiet, pa, pb, k + 1) > size {
        assert(deduced(k, size, pa, pb, data, quiet, mode));
    } else {
        assert(data * (k + 1) >= k + 1) by (nonlinear_arith) requires data >= 1, k >= 0;
        assert(floor_spec(mode, pa, quiet, k + 1) >= 0);
        assert(floor_spec(mode, pb, quiet, k + 1) >= 0);
        lemma_deduced_exists(k + 1, size, pa, pb, data, quiet, mode);
    }
}


/// Law: padding a job to one footprint centres every label that was
/// smaller: its old body sits inside the new `tw × th` document at an
/// integer offset `(dx, dy)` that splits the extra width and height evenly
/// (the odd pixel, if any, goes to the right and bottom); a label already
/// of that size is left as it was.
pub proof fn law_fill_centres(ls: Seq<PxLabel>, p: Padding, i: int, n: PxLabel)
    requires
        0 <= i < ls.len(),
        grown(ls[i], n, target_width(ls, p), target_height(ls, p)),
    ensures
        ({
            let (tw, th) = (target_width(ls, p), target_height(ls, p));
            let (w, h) = (ls[i].width_px as int, ls[i].height_px as int);
            &&& w <= tw && h <= th
            &&& w == tw && h == th ==> n == ls[i]
            &&& !(w == tw && h == th) ==> exists|dx: int, dy: int|
                #![trigger fill_doc(tw, th, dx, dy, inner_body_text(ls[i].svg@))]
                n.svg@ == fill_doc(tw, th, dx, dy, inner_body_text(ls[i].svg@))
                && 0 <= 2 * dx <= tw - w <= 2 * dx + 1
                && 0 <= 2 * dy <= th - h <= 2 * dy + 1
        }),
{
    lemma_maxima(ls, ls.len() as int);
    let tw = target_width(ls, p);
    let th = target_height(ls, p);
    let w = ls[i].width_px as int;
    let h = ls[i].height_px as int;
    assert(ls[i].width_px <= max_width(ls, ls.len() as int));
    assert(ls[i].height_px <= max_height(ls, ls.len() as int));
    if !(w == tw && h == th) {
        let dx = (tw - w) / 2;
        let dy = (th - h) / 2;
        assert(n.svg@ == fill_doc(tw, th, dx, dy, inner_body_text(ls[i].svg@)));
    }
}

} // verus!
