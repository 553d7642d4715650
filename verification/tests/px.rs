use part_registry::format::TextFormat;
use part_registry::glyph_font::{glyph_v1, glyph_v2, CHECKSUM_KS_V1, CHECKSUM_KS_V2};
use part_registry::glyphs::ALPHABET;
use part_registry::nx75::{glyph_bitmap, raster, write_glyph_runs};
use part_registry::px::{fill_to_max, render_label_px, Layout, Padding, PaddingMode, PxLabel};
use part_registry::symbology::{Ec, Family, Symbology};
use part_registry::CodecError;

/// The fixed id every label case renders.
const FIXED_ID: &str = "K7M3PQ9RT5VAXY";

/// Micro QR M4: 17 data modules, 2-module quiet zone.
const MICRO_DATA: u32 = 17;
const MICRO_QUIET: u32 = 2;
const MICRO_TOTAL: u32 = 21;
/// Standard QR V1: 21 data modules, 4-module quiet zone.
const STANDARD_DATA: u32 = 21;
const STANDARD_QUIET: u32 = 4;
const STANDARD_TOTAL: u32 = 29;

fn sym(spec: &str) -> Symbology {
    spec.parse().expect("symbology parses")
}

fn render_spec(
    spec: &str,
    layout: Layout,
    size: u32,
    padding: Padding,
    mode: PaddingMode,
) -> PxLabel {
    render_label_px(
        FIXED_ID,
        layout,
        size,
        TextFormat::FourFour,
        &sym(spec),
        padding,
        mode,
    )
    .expect("px render succeeds")
}

fn render_mode(size: u32, pad_min: u32, micro: bool, mode: PaddingMode) -> PxLabel {
    let spec = if micro { "micro" } else { "qr" };
    render_spec(spec, Layout::Horz, size, Padding::uniform(pad_min), mode)
}

fn render_pad(size: u32, pad_min: u32, micro: bool) -> PxLabel {
    render_mode(size, pad_min, micro, PaddingMode::Overlap)
}

fn render(size: u32, micro: bool) -> PxLabel {
    render_pad(size, 2, micro)
}

// ---------- the §8 law: size = exact canvas, padding references
// the module part, module DEDUCED per padding_mode ----------

#[test]
fn overlap_micro_boundary_table() {
    // max m with 17·m + 2·max(pad, 2·m) <= size — the ADR-031 §8
    // worked examples (2026-06-11).
    let cases = [
        // (size, pad_min, m, data_px)
        (64, 2, 3, 51), // 51 + 2·max(2,6) = 63 <= 64
        (64, 0, 3, 51), // quiet zone alone bounds: 51 + 12 = 63
        (64, 7, 2, 34), // m=3 needs 51 + 14 = 65 > 64; m=2: 48
        (21, 0, 1, 17), // 17 + 2·2 = 21 — minimum workable
        (67, 2, 3, 51), // 63 <= 67, m=4 needs 84
    ];
    for (size, pad_min, m, data_px) in cases {
        let l = render_pad(size, pad_min, true);
        assert_eq!(l.modules, MICRO_TOTAL, "size {size}/pad {pad_min}");
        assert_eq!(l.module_px, m, "size {size}/pad {pad_min}");
        assert_eq!(l.data_px, data_px, "size {size}/pad {pad_min}");
        assert_eq!(l.data_px, MICRO_DATA * m, "module part");
        assert_eq!(l.qr_px, MICRO_TOTAL * m, "incl-quiet footprint");
        assert_eq!(l.padding_mode, PaddingMode::Overlap);
        assert_eq!(l.symbology, "micro-m4-m", "auto-fit resolves M4-M");
        // The controlling dimension is EXACTLY the requested size.
        assert_eq!(l.height_px, size, "horz height == size exactly");
        // The controlling axis absorbed the remainder on top of the
        // floors; the structural quiet-zone minimum held.
        let floor = pad_min.max(MICRO_QUIET * m);
        assert_eq!(l.white.top, (size - data_px) / 2, "size {size}");
        assert_eq!(l.white.top + l.white.bottom, size - data_px, "size {size}");
        assert!(l.white.bottom >= l.white.top, "extra px goes bottom");
        // Non-controlling sides sit at their floors exactly.
        assert_eq!((l.white.left, l.white.right), (floor, floor));
        assert!(
            l.white.top >= floor,
            "white {} >= max(pad {pad_min}, quiet·m {})",
            l.white.top,
            MICRO_QUIET * m,
        );
    }
}

#[test]
fn additive_micro_boundary_table() {
    // max m with (17 + 4)·m + 2·pad <= size.
    let cases = [
        // (size, pad_min, m, data_px)
        (64, 2, 2, 34), // 21·2 + 4 = 46 <= 64; m=3 needs 67
        (63, 0, 3, 51), // 21·3 = 63 exactly
        (25, 2, 1, 17), // 21 + 4 = 25 — minimum workable
    ];
    for (size, pad_min, m, data_px) in cases {
        let l = render_mode(size, pad_min, true, PaddingMode::Additive);
        assert_eq!(l.module_px, m, "size {size}/pad {pad_min}");
        assert_eq!(l.data_px, data_px, "size {size}/pad {pad_min}");
        assert_eq!(l.padding_mode, PaddingMode::Additive);
        assert_eq!(l.height_px, size, "exact canvas");
        assert_eq!(l.white.top, (size - data_px) / 2);
        // Additive: the quiet zone sits inside white but does NOT
        // satisfy the padding floor — on every side.
        let floor = MICRO_QUIET * m + pad_min;
        assert!(
            l.white.top >= floor,
            "white {} >= quiet·m + pad",
            l.white.top
        );
        assert_eq!((l.white.left, l.white.right), (floor, floor));
    }
}

#[test]
fn clip_mode_maximizes_modules() {
    // No embedded quiet zone: max m with 17·m + 2·pad <= size —
    // the printer's intrinsic margins supply the safe space.
    let cases = [
        // (size, pad_min, m, data_px)
        (64, 0, 3, 51), // floor(64/17) = 3 (white 6 = remainder only)
        (68, 0, 4, 68), // exact fit, ZERO white — vs overlap m=3
        (35, 0, 2, 34), // overlap at 35 would only reach m=1
        (64, 2, 3, 51), // 17·3 + 4 = 55 <= 64
    ];
    for (size, pad_min, m, data_px) in cases {
        let l = render_mode(size, pad_min, true, PaddingMode::Clip);
        assert_eq!(l.module_px, m, "size {size}/pad {pad_min}");
        assert_eq!(l.data_px, data_px, "size {size}/pad {pad_min}");
        assert_eq!(l.padding_mode, PaddingMode::Clip);
        assert_eq!(l.height_px, size, "exact canvas");
        // Non-controlling floors are the bare pads under clip.
        assert_eq!((l.white.left, l.white.right), (pad_min, pad_min));
        // Clip beats or matches overlap at every size.
        let o = render_mode(size, pad_min, true, PaddingMode::Overlap);
        assert!(l.module_px >= o.module_px, "clip >= overlap at {size}");
    }
}

#[test]
fn overlap_standard_boundary_table() {
    // Standard V1: max m with 21·m + 2·max(pad, 4·m) <= size.
    let cases = [
        // (size, pad_min, m, data_px)
        (64, 2, 2, 42),    // 42 + 2·max(2,8) = 58 <= 64
        (29, 0, 1, 21),    // 21 + 8 = 29 — minimum workable
        (100, 2, 3, 63),   // 63 + 24 = 87; m=4 needs 116
        (300, 4, 10, 210), // 210 + 80 = 290; m=11 needs 319
    ];
    for (size, pad_min, m, data_px) in cases {
        let l = render_pad(size, pad_min, false);
        assert_eq!(l.modules, STANDARD_TOTAL);
        assert_eq!(l.module_px, m, "size {size}/pad {pad_min}");
        assert_eq!(l.data_px, data_px);
        assert_eq!(l.data_px, STANDARD_DATA * m);
        assert_eq!(l.symbology, "qr-v1-m", "auto-fit resolves V1-M");
        assert_eq!(l.height_px, size, "exact canvas");
        assert!(l.white.top >= pad_min.max(STANDARD_QUIET * m));
    }
}

// ---------- symbology pins flow into the one deduction ----------

#[test]
fn m3_l_pin_yields_bigger_dots_clip_at_64_is_4px() {
    // The ADR-031 §8 A/B: M3 contributes 15 data modules to the
    // SAME deduction engine, so clip@64 yields floor(64/15) = 4px
    // modules where M4 reaches only 3px.
    let l = render_spec(
        "micro-m3-l",
        Layout::Horz,
        64,
        Padding::uniform(0),
        PaddingMode::Clip,
    );
    assert_eq!(l.symbology, "micro-m3-l");
    assert_eq!(l.module_px, 4, "clip@64 on 15 modules → 4px");
    assert_eq!(l.data_px, 60);
    assert_eq!(l.modules, 15 + 2 * MICRO_QUIET);
    assert_eq!(l.height_px, 64, "exact canvas");
    // Remainder 4 splits 2/2 on the controlling axis.
    assert_eq!((l.white.top, l.white.bottom), (2, 2));
    // The g-law follows the module part: a 2-row block needs 15g
    // ≤ data 60 → g=4 (the module_px cap also allows 4), so the
    // bigger dots carry into the typography too.
    assert_eq!((l.glyph_cell, l.glyph_px), (7, 4));
    // The block centers in the module part: 15·4 = 60 fills it
    // exactly, so the top ink row sits at white.top + bearing of
    // the rows' topmost ink.
    let (_, glyph_dots) = split_rects(&l, Layout::Horz);
    assert_eq!(
        glyph_area(&glyph_dots),
        expected_ink(TextFormat::FourFour, 4),
        "ink-area ledger at k=4"
    );
    let m4 = render_mode(64, 0, true, PaddingMode::Clip);
    assert_eq!(m4.module_px, 3, "M4 (17 modules) reaches only 3px");
    assert_eq!(
        (m4.glyph_cell, m4.glyph_px),
        (7, 3),
        "data 51 → 15g ≤ 51 caps g at 3 alongside m"
    );
}

#[test]
fn m3_l_overlap_at_64() {
    // Overlap: 15·m + 2·max(2, 2m) ≤ 64 → m=3 (45 + 12 = 57).
    let l = render_spec(
        "micro-m3-l",
        Layout::Horz,
        64,
        Padding::uniform(2),
        PaddingMode::Overlap,
    );
    assert_eq!((l.module_px, l.data_px), (3, 45));
    assert_eq!(l.symbology, "micro-m3-l");
}

#[test]
fn infeasible_symbology_pin_surfaces_the_feasibility_hint() {
    // M4-Q caps at 13 alnum chars — the §8 feasibility error rides
    // through the px renderer untouched.
    let err = render_label_px(
        FIXED_ID,
        Layout::Horz,
        64,
        TextFormat::FourFour,
        &sym("micro-m4-q"),
        Padding::uniform(2),
        PaddingMode::Overlap,
    )
    .expect_err("M4-Q cannot hold 14 alnum chars");
    let msg = err.to_string();
    assert!(matches!(err, CodecError::Encode(_)), "got {err:?}");
    assert!(msg.contains("M4-Q caps at 13 alnum chars"), "got: {msg}");
    assert!(msg.contains("micro-m3-l"), "feasible space, got: {msg}");
}

#[test]
fn pinned_version_outside_the_family_is_an_encode_error() {
    let pinned = Symbology { family: Family::Qr, version: Some(41), ec: Some(Ec::M) };
    let err = render_label_px(
        FIXED_ID,
        Layout::Horz,
        64,
        TextFormat::FourFour,
        &pinned,
        Padding::uniform(2),
        PaddingMode::Overlap,
    )
    .expect_err("QR has no version 41");
    match err {
        CodecError::Encode(msg) => assert_eq!(
            msg,
            "qr-v41-m cannot encode this payload (encode failed: InvalidVersion); \
             feasible for this payload: qr-v2-l, qr-v2-m, qr-v1-l, qr-v1-m"
        ),
        other => panic!("got {other:?}"),
    }
}

#[test]
fn size_beyond_the_coordinate_limit_is_refused() {
    let err = render_label_px(
        FIXED_ID,
        Layout::Horz,
        0x100_0001,
        TextFormat::FourFour,
        &sym("micro"),
        Padding::uniform(2),
        PaddingMode::Overlap,
    )
    .expect_err("beyond 2^24 px");
    assert!(matches!(err, CodecError::Render(ref m) if m.contains("16777216px")), "got {err:?}");
}

// ---------- per-side padding: floors per axis, CSS clockwise ----------

#[test]
fn per_side_padding_floors_each_side_independently() {
    // horz, overlap, top 2 / right 10 / bottom 6 / left 4:
    // controlling (vertical) floors max(2,2m) + max(6,2m):
    // m=3 → 51 + 6 + 6 = 63 ≤ 64; m=4 → 68 + 8 + 8 = 84. rem 1.
    let l = render_spec(
        "micro",
        Layout::Horz,
        64,
        Padding::sides(2, 10, 6, 4),
        PaddingMode::Overlap,
    );
    assert_eq!((l.module_px, l.data_px), (3, 51));
    assert_eq!((l.white.top, l.white.bottom), (6, 7), "floors + rem→bottom");
    // Non-controlling: left max(4,6) = 6, right max(10,6) = 10.
    assert_eq!((l.white.left, l.white.right), (6, 10));
    assert_eq!(l.height_px, 64, "exact canvas");
    // Gap follows the RIGHT side's white: max(round(1.5·10), 6) =
    // 15 → tx = 6 + 51 + 15 = 72; the first ink rect sits the
    // rows' left bearing inside that.
    assert_eq!((l.glyph_cell, l.glyph_px), (7, 3));
    let (_, glyph_dots) = split_rects(&l, Layout::Horz);
    assert_eq!(
        glyph_dots.iter().map(|r| r.0).min(),
        Some(72 + left_bearing(TextFormat::FourFour, 3)),
        "tx + left bearing"
    );
}

#[test]
fn per_side_additive_floors_add_quiet_to_each_pad() {
    // additive, top 1 / right 2 / bottom 3 / left 4, size 64:
    // controlling: 17m + (2m+1) + (2m+3) ≤ 64 → 21m + 4 ≤ 64 → m=2.
    let l = render_spec(
        "micro",
        Layout::Horz,
        64,
        Padding::sides(1, 2, 3, 4),
        PaddingMode::Additive,
    );
    assert_eq!(l.module_px, 2);
    // floors: top 4+1=5, bottom 4+3=7; rem = 64−34−12 = 18 → 9/9.
    assert_eq!((l.white.top, l.white.bottom), (14, 16));
    assert_eq!((l.white.left, l.white.right), (8, 6));
}

#[test]
fn vert_controlling_axis_is_horizontal() {
    // vert, overlap, left 0 / right 9, size 64: 17m + max(0,2m) +
    // max(9,2m) ≤ 64 → m=3: 51 + 6 + 9 = 66 > 64 → m=2: 34+4+9=47.
    let l = render_spec(
        "micro",
        Layout::Vert,
        64,
        Padding::sides(0, 9, 0, 0),
        PaddingMode::Overlap,
    );
    assert_eq!(l.module_px, 2);
    assert_eq!(l.width_px, 64, "vert width == size exactly");
    // rem = 64 − 34 − 4 − 9 = 17 → left 4+8=12, right 9+8+1=18.
    assert_eq!((l.white.left, l.white.right), (12, 18));
    // Vertical sides at their floors (quiet·m = 4).
    assert_eq!((l.white.top, l.white.bottom), (4, 4));
}

// ---------- uniform white, gap law, module placement ----------

type Rect = (u32, u32, u32, u32);

/// The value of attribute `k` inside one tag's text.
fn attr(tag: &str, k: &str) -> Option<String> {
    let pat = format!(" {k}=\"");
    let i = tag.find(&pat)? + pat.len();
    let j = tag[i..].find('"')? + i;
    Some(tag[i..j].to_string())
}

/// All non-background `<rect>` x/y/width/height values (the
/// background rect carries `fill`, content rects do not).
fn content_rects(svg: &str) -> Vec<Rect> {
    let mut out = Vec::new();
    let mut rest = svg;
    while let Some(i) = rest.find("<rect") {
        let tail = &rest[i..];
        let end = tail.find('>').expect("rect tag closes");
        let tag = &tail[..end];
        if attr(tag, "fill").is_none() {
            let a = |k: &str| -> u32 {
                let v = attr(tag, k).expect("rect attr present");
                v.parse()
                    .unwrap_or_else(|_| panic!("{k}={v:?} is not an integer px coordinate"))
            };
            out.push((a("x"), a("y"), a("width"), a("height")));
        }
        rest = &tail[end..];
    }
    out
}

/// Partition content rects into (QR modules, glyph dots): the
/// bitmap id-text lives strictly right of the module part in
/// `horz` and strictly below it in `vert`.
fn split_rects(l: &PxLabel, layout: Layout) -> (Vec<Rect>, Vec<Rect>) {
    content_rects(&l.svg)
        .into_iter()
        .partition(|r| match layout {
            Layout::Horz => r.0 < l.white.left + l.data_px,
            Layout::Vert => r.1 < l.white.top + l.data_px,
            Layout::Flag => unreachable!("px mode rejects flag"),
        })
}

/// Dark-module count of FIXED_ID's symbol under `spec` — the QR
/// side of the rect-count ledger.
fn dark_modules(spec: &str) -> usize {
    let (_, matrix) = sym(spec).resolve(FIXED_ID).expect("resolves");
    (0..matrix.size)
        .map(|r| (0..matrix.size).filter(|&c| matrix.get(r, c)).count())
        .sum()
}

/// Ink pixels of `c`'s nx75 raster at scale `k`.
fn glyph_ink(c: char, k: u32) -> usize {
    glyph_bitmap(c, k).expect("nano14 alphabet").iter().flatten().filter(|&&p| p).count()
}

/// Total ink pixels of FIXED_ID's text rows under `fmt` at scale
/// `k` — the glyph side of the ink-area ledger.
fn expected_ink(fmt: TextFormat, k: u32) -> usize {
    fmt.split(FIXED_ID)
        .iter()
        .flat_map(|r| r.chars())
        .map(|c| glyph_ink(c, k))
        .sum()
}

/// Total glyph ink area in px² from the emitted run rects.
fn glyph_area(rects: &[Rect]) -> usize {
    rects.iter().map(|r| (r.2 * r.3) as usize).sum()
}

/// Leftmost ink column, in device px, across the first chars of
/// FIXED_ID's rows under `fmt` at scale `k`: the first ink rect sits
/// at `tx + bearing`.
fn left_bearing(fmt: TextFormat, k: u32) -> u32 {
    fmt.split(FIXED_ID)
        .iter()
        .filter_map(|r| r.chars().next())
        .map(|c| {
            let img = glyph_bitmap(c, k).expect("nano14 alphabet");
            (0..(5 * k) as usize)
                .find(|&i| img.iter().any(|row| row[i]))
                .expect("glyph has ink") as u32
        })
        .min()
        .expect("rows present")
}

#[test]
fn white_floors_hold_and_quiet_zone_is_not_drawn() {
    // 64/2 overlap micro: m=3, data 51, white top/left 6
    // (remainder px on the bottom edge of the controlling
    // dimension).
    let l = render(64, true);
    assert_eq!((l.module_px, l.data_px), (3, 51));
    assert_eq!(l.white, Padding::sides(6, 6, 7, 6));
    let (rects, glyph_dots) = split_rects(&l, Layout::Horz);
    assert!(!rects.is_empty() && !glyph_dots.is_empty());
    let min_x = rects.iter().map(|r| r.0).min().expect("rects");
    let min_y = rects.iter().map(|r| r.1).min().expect("rects");
    let max_y = rects.iter().map(|r| r.1 + r.3).max().expect("rects");
    // Module part offset by the left/top white; every module inside
    // the module part — nothing rendered in the quiet zone.
    assert_eq!(min_x, l.white.left, "left offset == white.left");
    assert_eq!(min_y, l.white.top, "top offset == white.top");
    assert_eq!(max_y, l.white.top + l.data_px, "module part bottom");
    for (x, y, w, h) in &rects {
        assert_eq!((*w, *h), (l.module_px, l.module_px));
        assert!(x + w <= l.white.left + l.data_px, "inside module part");
        assert!(y + h <= l.white.top + l.data_px, "inside module part");
        // On the module grid.
        assert_eq!((x - l.white.left) % l.module_px, 0);
        assert_eq!((y - l.white.top) % l.module_px, 0);
    }
    // Bottom edge absorbs the odd remainder: 64 − (6 + 51) = 7.
    assert_eq!(l.height_px - (l.white.top + l.data_px), 7);
}

#[test]
fn horz_gap_is_clamped_one_and_a_half_right_white() {
    for (size, pad) in [(64_u32, 2_u32), (67, 2), (100, 0), (212, 5)] {
        let l = render_pad(size, pad, true);
        // gap = max(round(1.5·white.right), quiet·m), half up.
        let gap = (l.white.right + l.white.right.div_ceil(2)).max(MICRO_QUIET * l.module_px);
        let expected_tx = l.white.left + l.data_px + gap;
        // nx75 glyphs may rest their leftmost ink off column 0,
        // so the first ink rect sits the bearing after tx.
        let bearing = left_bearing(TextFormat::FourFour, l.glyph_px);
        let (_, glyph_dots) = split_rects(&l, Layout::Horz);
        let min_x = glyph_dots.iter().map(|r| r.0).min().expect("glyph dots");
        assert_eq!(
            min_x,
            expected_tx + bearing,
            "size {size}/pad {pad}: text starts at white.left + data + gap (+ bearing)"
        );
    }
}

#[test]
fn clip_gap_clamps_to_the_quiet_zone() {
    // Clip with pad 0: white.right = 0, so 1.5·white would be 0 —
    // the §8 safe-space clamp keeps the text quiet·m away.
    let l = render_mode(64, 0, true, PaddingMode::Clip);
    assert_eq!((l.module_px, l.white.right), (3, 0));
    let gap = MICRO_QUIET * l.module_px;
    let tx = l.white.left + l.data_px + gap;
    let bearing = left_bearing(TextFormat::FourFour, l.glyph_px);
    let (_, glyph_dots) = split_rects(&l, Layout::Horz);
    assert_eq!(
        glyph_dots.iter().map(|r| r.0).min(),
        Some(tx + bearing),
        "text clamped {gap}px off the symbol (+ glyph left bearing)"
    );
}

#[test]
fn vert_layout_width_is_exactly_the_requested_size() {
    let l = render_spec(
        "micro",
        Layout::Vert,
        64,
        Padding::uniform(0),
        PaddingMode::Overlap,
    );
    assert_eq!(l.width_px, 64, "vert width == size exactly");
    assert_eq!((l.module_px, l.data_px), (3, 51));
    assert_eq!((l.white.left, l.white.top), (6, 6));
    let (rects, _) = split_rects(&l, Layout::Vert);
    let min_x = rects.iter().map(|r| r.0).min().expect("rects");
    let min_y = rects.iter().map(|r| r.1).min().expect("rects");
    assert_eq!((min_x, min_y), (6, 6), "left white == top white");
}

// ---------- bitmap typography on the module lattice (§8) ----------

#[test]
fn px_svg_carries_no_text_elements_or_fonts() {
    // The whole label is one binary raster: glyphs share the QR's
    // crispEdges fill group and nothing references a font.
    for layout in [Layout::Horz, Layout::Vert] {
        for fmt in [
            TextFormat::FourFour,
            TextFormat::FourFourFour,
            TextFormat::FiveFiveFour,
        ] {
            let l = render_label_px(
                FIXED_ID,
                layout,
                100,
                fmt,
                &sym("micro"),
                Padding::uniform(2),
                PaddingMode::Overlap,
            )
            .expect("renders");
            assert!(!l.svg.contains("<text"), "no <text> ({layout:?}, {fmt:?})");
            assert!(!l.svg.contains("font-family"), "no font ({layout:?})");
            assert!(!l.svg.contains("font-size"), "no font size ({layout:?})");
            assert_eq!(l.svg.matches("<g ").count(), 1, "one fill group");
        }
    }
}

#[test]
fn g_law_rides_the_rendered_label() {
    // The g-law through the public API (clip/pad 0 micro so every
    // size renders): g = min(data/15, m) for the 2-row block.
    for (size, m, g) in [(64_u32, 3_u32, 3_u32), (60, 3, 3), (128, 7, 7), (20, 1, 1)] {
        let l = render_mode(size, 0, true, PaddingMode::Clip);
        assert_eq!(l.module_px, m, "size {size}");
        assert_eq!((l.glyph_cell, l.glyph_px), (7, g), "size {size}");
        assert_eq!(l.height_px, size, "exact canvas");
        let (_, glyph_dots) = split_rects(&l, Layout::Horz);
        assert_eq!(
            glyph_area(&glyph_dots),
            expected_ink(TextFormat::FourFour, g),
            "ink-area ledger at size {size}"
        );
    }
}

#[test]
fn glyph_px_is_maximal_inside_the_module_part() {
    // The g-law. horz, 3 rows: clip@35 → m=2, data 34; the block
    // needs 23g ≤ 34 → g=1 (the m cap not binding).
    let l = render_label_px(
        FIXED_ID,
        Layout::Horz,
        35,
        TextFormat::FiveFiveFour,
        &sym("micro"),
        Padding::uniform(0),
        PaddingMode::Clip,
    )
    .expect("renders");
    assert_eq!((l.glyph_cell, l.glyph_px), (7, 1));
    // vert adds the row-width cap:
    // g = min(data/block_units, data/row_units, module_px).
    let formats = [
        (TextFormat::FourFour, 2_u32, 4_u32),
        (TextFormat::FourFourFour, 3, 4),
        (TextFormat::FiveFiveFour, 3, 5),
    ];
    for size in [64_u32, 100, 300] {
        for (fmt, rows, chars) in formats {
            let l = render_label_px(
                FIXED_ID,
                Layout::Vert,
                size,
                fmt,
                &sym("micro"),
                Padding::uniform(2),
                PaddingMode::Overlap,
            )
            .expect("renders");
            assert_eq!(l.glyph_cell, 7, "the nx75 cell is 7 rows");
            let want = (l.data_px / (8 * rows - 1))
                .min(l.data_px / (6 * chars - 1))
                .min(l.module_px);
            assert_eq!(l.glyph_px, want, "{fmt:?} size {size}");
            assert!(l.glyph_px >= 1);
        }
    }
}

#[test]
fn horz_block_centers_in_the_module_part() {
    // 64/2 micro 44: m=3, data 51, white (6,6,7,6), tx = 6 + 51 +
    // max(round(1.5·6), 6) = 66. g = min(51/15, 3) = 3, block
    // 15·3 = 45 centers at ty0 = 6 + (51 − 45)/2 = 9; both rows
    // of FIXED_ID ink their full 7g box, so the ink spans
    // [9, 9 + 45) exactly.
    let l = render(64, true);
    assert_eq!((l.glyph_cell, l.glyph_px), (7, 3));
    let (_, glyph_dots) = split_rects(&l, Layout::Horz);
    assert_eq!(
        glyph_area(&glyph_dots),
        expected_ink(TextFormat::FourFour, 3)
    );
    assert_eq!(glyph_dots.iter().map(|r| r.1).min(), Some(9), "block top");
    assert_eq!(
        glyph_dots.iter().map(|r| r.1 + r.3).max(),
        Some(54),
        "block bottom 9 + 45"
    );
    // FIXED_ID's first chars (K, P) ink column 0, so the first
    // ink rect sits exactly at tx.
    assert_eq!(left_bearing(TextFormat::FourFour, 3), 0);
    assert_eq!(glyph_dots.iter().map(|r| r.0).min(), Some(66));
    // Exact width: the widest row is 4 advances of 6g minus the
    // trailing g gap (69), so the canvas is 66 + 69 + 6 = 141.
    assert_eq!(l.width_px, 66 + 69 + l.white.right);
    assert!(
        glyph_dots.iter().map(|r| r.0 + r.2).max() <= Some(l.width_px - l.white.right),
        "ink never crosses the right white floor"
    );
}

#[test]
fn glyph_block_that_cannot_fit_errors_with_a_chars_hint() {
    // micro at 25/2 overlap → m=1, module part 17px; a 3-row block
    // needs 7+1+7+1+7 = 23px at 1px per glyph dot.
    let err = render_label_px(
        FIXED_ID,
        Layout::Horz,
        25,
        TextFormat::FiveFiveFour,
        &sym("micro"),
        Padding::uniform(2),
        PaddingMode::Overlap,
    )
    .expect_err("17px module part cannot hold a 3-row block");
    let msg = err.to_string();
    assert!(matches!(err, CodecError::Render(_)), "got {err:?}");
    assert!(msg.contains("3-row"), "rows named: {msg}");
    assert!(msg.contains("23px"), "minimum named: {msg}");
    assert!(msg.contains("--chars"), "fewer-rows hint: {msg}");

    // vert: the width cap binds — a 4-char row is 23px wide at
    // g=1 but the module part is 17px.
    let err = render_label_px(
        FIXED_ID,
        Layout::Vert,
        21,
        TextFormat::FourFour,
        &sym("micro"),
        Padding::uniform(0),
        PaddingMode::Overlap,
    )
    .expect_err("17px module part cannot hold a 4-char row");
    let msg = err.to_string();
    assert!(matches!(err, CodecError::Render(_)), "got {err:?}");
    assert!(msg.contains("4-char"), "row width named: {msg}");
    assert!(msg.contains("23px"), "minimum named: {msg}");
}

// ---------- impossible fit errors with mode-aware hints ----------

#[test]
fn impossible_fit_errors_with_boundary_hints_per_mode() {
    // Overlap micro, size 20 / pad 0: m=1 needs 17 + 2·2 = 21.
    let err = render_label_px(
        FIXED_ID,
        Layout::Horz,
        20,
        TextFormat::FourFour,
        &sym("micro"),
        Padding::uniform(0),
        PaddingMode::Overlap,
    )
    .expect_err("cannot fit");
    let msg = err.to_string();
    assert!(matches!(err, CodecError::Render(_)));
    assert!(msg.contains("overlap"), "active mode named, got: {msg}");
    // Mins under overlap: m=1 → 21; m=2 → 34+8=42; m=3 → 51+12=63.
    assert!(msg.contains("21px"), "1px-module hint, got: {msg}");
    assert!(msg.contains("42px"), "2px-module hint, got: {msg}");
    assert!(msg.contains("63px"), "3px-module hint, got: {msg}");

    // Additive micro, size 24 / pad 2: m=1 needs 21 + 4 = 25.
    let err = render_label_px(
        FIXED_ID,
        Layout::Horz,
        24,
        TextFormat::FourFour,
        &sym("micro"),
        Padding::uniform(2),
        PaddingMode::Additive,
    )
    .expect_err("cannot fit");
    let msg = err.to_string();
    assert!(msg.contains("additive"), "active mode named, got: {msg}");
    // Mins under additive: 21m + 4 → 25 / 46 / 67.
    assert!(msg.contains("25px"), "1px-module hint, got: {msg}");
    assert!(msg.contains("46px"), "2px-module hint, got: {msg}");
    assert!(msg.contains("67px"), "3px-module hint, got: {msg}");

    // Standard overlap, 28px < 21 + 2·4 = 29.
    let err = render_label_px(
        FIXED_ID,
        Layout::Vert,
        28,
        TextFormat::FourFour,
        &sym("qr"),
        Padding::uniform(0),
        PaddingMode::Overlap,
    )
    .expect_err("28px cannot fit standard V1");
    assert!(err.to_string().contains("29px"), "got: {:?}", err);
}

#[test]
fn asymmetric_impossible_fit_names_both_pads() {
    // Overlap micro, size 22, top 0 / bottom 9: m=1 needs
    // 17 + max(0,2) + max(9,2) = 28.
    let err = render_label_px(
        FIXED_ID,
        Layout::Horz,
        22,
        TextFormat::FourFour,
        &sym("micro"),
        Padding::sides(0, 0, 9, 0),
        PaddingMode::Overlap,
    )
    .expect_err("cannot fit");
    let msg = err.to_string();
    assert!(msg.contains("0px/9px"), "both pads named, got: {msg}");
    assert!(msg.contains("28px"), "1px-module hint, got: {msg}");
}

// ---------- flag is a documented Unsupported ----------

#[test]
fn flag_layout_is_unsupported_in_px_mode() {
    let err = render_label_px(
        FIXED_ID,
        Layout::Flag,
        64,
        TextFormat::FourFour,
        &sym("micro"),
        Padding::uniform(2),
        PaddingMode::Overlap,
    )
    .expect_err("flag has no px geometry yet");
    assert!(matches!(err, CodecError::Unsupported(_)), "got: {err:?}");
}

// ---------- integer-px grid ----------

// ---------- vert: glyph block below the QR, centered ----------

#[test]
fn vert_glyph_block_sits_below_the_qr_centered() {
    let l = render_spec(
        "micro",
        Layout::Vert,
        64,
        Padding::uniform(2),
        PaddingMode::Overlap,
    );
    // Controlling axis is horizontal: m=3, data 51, white left 6 /
    // right 7 (remainder px right), top/bottom at their floors 6.
    // gap = max(round(1.5·6), 6) = 9. The row-width cap binds: a
    // 4-char row is 23g wide, 23·3 > 51, so g=2 (block cap is 3).
    assert_eq!((l.module_px, l.data_px, l.glyph_px), (3, 51, 2));
    assert_eq!(l.glyph_cell, 7, "the nx75 cell is 7 rows");
    let ty0 = l.white.top + l.data_px + 9;
    let block_h = 15 * l.glyph_px;
    let (_, glyph_dots) = split_rects(&l, Layout::Vert);
    assert_eq!(
        glyph_area(&glyph_dots),
        expected_ink(TextFormat::FourFour, 2)
    );
    assert_eq!(
        glyph_dots.iter().map(|r| r.1).min(),
        Some(ty0),
        "block top = qr bottom + gap"
    );
    // Exact height: block bottom + the bottom white floor, no
    // trailing white.
    assert_eq!(l.height_px, ty0 + block_h + l.white.bottom);
    assert_eq!(
        glyph_dots.iter().map(|r| r.1 + r.3).max(),
        Some(ty0 + block_h),
        "last ink row touches the bottom white floor"
    );
    // Rows center in the module part span: 4·12 − 2 = 46 wide →
    // x starts at 6 + (51 − 46)/2 = 8.
    assert_eq!(glyph_dots.iter().map(|r| r.0).min(), Some(8));
}

// ---------- the ADR-031 §8 worked example, full geometry ----------

#[test]
fn horz_67px_worked_example_geometry() {
    // size 67 / pad 2, overlap micro: m=3 (51 + 2·max(2,6) = 63),
    // data 51, controlling floors 6/6, remainder 4 lands as top 8
    // and bottom 8, non-controlling sides at their floors (6/6).
    // gap = max(round(1.5·6), 6) = 9 → text at x = 6+51+9 = 66.
    // Typography: g = min(51/15, 3) = 3, block 45 centers at
    // ty0 = 8 + (51 − 45)/2 = 11; widest row 4·18 − 3 = 69 →
    // width 66 + 69 + 6 = 141.
    let l = render_pad(67, 2, true);
    assert_eq!((l.width_px, l.height_px), (141, 67));
    assert_eq!((l.data_px, l.module_px), (51, 3));
    assert_eq!((l.glyph_cell, l.glyph_px), (7, 3));
    assert_eq!(l.white, Padding::sides(8, 6, 8, 6));
    assert_eq!((l.qr_px, l.modules), (63, 21));
    let (qr, glyph_dots) = split_rects(&l, Layout::Horz);
    assert_eq!(qr.len(), dark_modules("micro"), "QR side of the ledger");
    assert_eq!(
        glyph_area(&glyph_dots),
        expected_ink(TextFormat::FourFour, 3)
    );
    assert_eq!(
        glyph_dots.iter().map(|r| r.0).min(),
        Some(66 + left_bearing(TextFormat::FourFour, 3)),
        "tx + left bearing"
    );
    assert_eq!(glyph_dots.iter().map(|r| r.1).min(), Some(11), "block top");
    // Both rows ink their full 7g boxes, so the last ink row is
    // the block bottom: 11 + 45 = 56.
    assert_eq!(
        glyph_dots.iter().map(|r| r.1 + r.3).max(),
        Some(56),
        "block bottom"
    );
    assert!(
        glyph_dots.iter().map(|r| r.0 + r.2).max() <= Some(l.width_px - l.white.right),
        "ink never crosses the right white floor"
    );
}

// ---------- fill_to_max: batch uniformity, padding floor ----------

#[test]
fn fill_to_max_makes_a_mixed_batch_uniform() {
    let mut labels = vec![
        render_pad(64, 0, true), // 51px micro module part
        render(100, false),      // 63px standard module part
        render(64, false),       // 42px standard module part
    ];
    let dims_before: Vec<(u32, u32)> = labels.iter().map(|l| (l.width_px, l.height_px)).collect();
    assert!(dims_before.windows(2).any(|w| w[0] != w[1]), "fixture must start non-uniform");

    fill_to_max(&mut labels, Padding::uniform(2));

    let (w, h) = (labels[0].width_px, labels[0].height_px);
    for l in &labels {
        assert_eq!((l.width_px, l.height_px), (w, h), "uniform footprint");
        assert!(l.width_px >= l.data_px + 4, "white floor kept");
        assert!(l.height_px >= l.data_px + 4, "white floor kept");
        roxmltree::Document::parse(&l.svg).expect("padded SVG well-formed");
        assert_eq!(l.svg.matches("<svg").count(), 1, "re-wrap must not nest <svg> roots");
    }
    let max_data = labels.iter().map(|l| l.data_px).max().expect("non-empty");
    assert!(w >= max_data + 4 && h >= max_data + 4, "floor vs largest module part");
}

#[test]
fn fill_to_max_centers_on_integer_offsets() {
    let small = render(25, true); // 17px module part — minimum at pad 2
    let big = render(212, true); // 21·10 = 210 <= 212 → 170px module part
    assert_eq!((small.module_px, big.module_px), (1, 10));
    let big_svg = big.svg.clone();
    let mut labels = vec![small, big];
    fill_to_max(&mut labels, Padding::uniform(2));
    // The big label already had the max dims; unchanged.
    assert_eq!(labels[1].svg, big_svg);
    // The small one was re-wrapped with an integer translate.
    let doc = roxmltree::Document::parse(&labels[0].svg).expect("well-formed");
    let g = doc
        .descendants()
        .find(|n| n.tag_name().name() == "g" && n.attribute("transform").is_some())
        .expect("translate group present");
    let t = g.attribute("transform").expect("transform");
    assert!(t.starts_with("translate("), "got {t:?}");
    let nums: Vec<u32> = t
        .trim_start_matches("translate(")
        .trim_end_matches(')')
        .split(',')
        .map(|s| s.trim().parse().expect("integer offset"))
        .collect();
    assert_eq!(nums.len(), 2);
}

#[test]
fn fill_to_max_respects_asymmetric_padding_floors() {
    let mut labels = vec![render(64, true)];
    // Floors: width ≥ data + left + right = 51 + 30; height ≥
    // data + top + bottom = 51 + 3.
    fill_to_max(&mut labels, Padding::sides(1, 10, 2, 20));
    assert!(
        labels[0].width_px >= 81,
        "width floor: {}",
        labels[0].width_px
    );
    assert!(
        labels[0].height_px >= 54,
        "height floor: {}",
        labels[0].height_px
    );
}

#[test]
fn fill_to_max_on_empty_slice_is_a_no_op() {
    let mut labels: Vec<PxLabel> = Vec::new();
    fill_to_max(&mut labels, Padding::uniform(2));
    assert!(labels.is_empty());
}

// ---------- the nx75 anchor font ----------

#[test]
fn nx75_checksums_lock_the_renderer_to_the_bake() {
    // 31 glyphs of the even-scale master × k ∈ {2, 4, 6}: the raster must
    // reproduce the bake-time ink counts exactly.
    for c in ALPHABET.chars() {
        let g = glyph_v1(c).expect("glyph in alphabet");
        for (i, &k) in CHECKSUM_KS_V1.iter().enumerate() {
            let got = raster(&g, k).iter().flatten().filter(|&&p| p).count() as u32;
            assert_eq!(got, g.ink_bits[i], "glyph {} at k={k}", g.ch);
        }
    }
}

#[test]
fn nx75_odd_master_checksums() {
    // The odd-scale master at k ∈ {3, 5}: its raster reproduces every
    // bake-time ink count.
    for c in ALPHABET.chars() {
        let g = glyph_v2(c).expect("glyph in alphabet");
        for (i, &k) in CHECKSUM_KS_V2.iter().enumerate() {
            let got = raster(&g, k).iter().flatten().filter(|&&p| p).count() as u32;
            assert_eq!(got, g.ink_bits[i], "glyph {} at k={k}", g.ch);
        }
    }
}

#[test]
fn nx75_covers_exactly_the_nano14_alphabet() {
    assert_eq!(ALPHABET.chars().count(), 31);
    for c in ALPHABET.chars() {
        for g in [glyph_v1(c).expect("v1 glyph in alphabet"), glyph_v2(c).expect("v2 glyph in alphabet")] {
            assert_eq!(g.ch, c);
            assert!(!g.anchors.is_empty(), "{c} has anchors");
        }
    }
    for c in ['0', 'O', '1', 'I', 'L', ' ', '-', 'a'] {
        assert!(glyph_v1(c).is_none(), "{c} outside the alphabet");
        assert!(glyph_v2(c).is_none(), "{c} outside the alphabet");
    }
}

#[test]
fn nx75_unknown_char_names_the_char_and_the_alphabet() {
    let mut out = String::new();
    let err = write_glyph_runs(&mut out, 'O', 0, 0, 2).expect_err("O has no glyph");
    let msg = err.to_string();
    assert!(matches!(err, CodecError::Render(_)));
    assert!(msg.contains("'O'"), "char named: {msg}");
    assert!(msg.contains(ALPHABET), "alphabet listed: {msg}");
    assert!(out.is_empty(), "nothing emitted on error");
}

#[test]
fn nx75_runs_emit_inside_the_glyph_box() {
    // The run emitter reproduces the raster exactly: per-row x-sorted
    // runs, height 1, never crossing the 5k box.
    for (c, k) in [('K', 2_u32), ('Q', 3), ('W', 4), ('2', 6)] {
        let mut out = String::new();
        write_glyph_runs(&mut out, c, 10, 20, k).expect("renders");
        let svg = format!("<svg xmlns=\"http://www.w3.org/2000/svg\"><g>{out}</g></svg>");
        let rects = content_rects(&svg);
        assert_eq!(
            rects.iter().map(|r| (r.2 * r.3) as usize).sum::<usize>(),
            glyph_ink(c, k),
            "{c} at k={k}: run area == raster ink"
        );
        for (x, y, w, h) in rects {
            assert_eq!(h, 1, "runs are 1px tall");
            assert!(x >= 10 && x + w <= 10 + 5 * k, "{c} inside 5k width");
            assert!(y >= 20 && y < 20 + 7 * k, "{c} inside 7k height");
        }
    }
}

#[test]
fn rect_count_is_dark_modules_plus_glyph_ink() {
    for (spec, fmt) in [
        ("micro", TextFormat::FourFour),
        ("micro", TextFormat::FourFourFour),
        ("micro", TextFormat::FiveFiveFour),
        ("qr", TextFormat::FourFour),
    ] {
        for layout in [Layout::Horz, Layout::Vert] {
            let l = render_label_px(FIXED_ID, layout, 100, fmt, &sym(spec), Padding::uniform(2), PaddingMode::Overlap)
                .expect("renders");
            assert_eq!(l.glyph_cell, 7, "{spec} {fmt:?}");
            let (qr, glyph_dots) = split_rects(&l, layout);
            assert_eq!(qr.len(), dark_modules(spec), "{spec} {layout:?}");
            assert_eq!(glyph_area(&glyph_dots), expected_ink(fmt, l.glyph_px), "{spec} {fmt:?} {layout:?}");
            for (_, _, _, h) in &glyph_dots {
                assert_eq!(*h, 1, "glyph runs are 1px tall");
            }
        }
    }
}

#[test]
fn every_rect_sits_on_the_integer_px_grid() {
    for (layout, spec) in [(Layout::Horz, "micro"), (Layout::Horz, "qr"), (Layout::Vert, "micro"), (Layout::Vert, "qr")] {
        let l = render_label_px(FIXED_ID, layout, 100, TextFormat::FiveFiveFour, &sym(spec), Padding::uniform(3), PaddingMode::Overlap)
            .expect("renders");
        let (qr, glyph_dots) = split_rects(&l, layout);
        assert!(!qr.is_empty(), "QR rects present for {layout:?}");
        assert!(!glyph_dots.is_empty(), "glyph dots present for {layout:?}");
        for (_, _, w, h) in qr {
            assert_eq!((w, h), (l.module_px, l.module_px), "rect == module_px");
        }
        let ink: usize = glyph_dots.iter().map(|r| (r.2 * r.3) as usize).sum();
        assert_eq!(ink, expected_ink(TextFormat::FiveFiveFour, l.glyph_px), "glyph ink area for {layout:?}");
        for (_, _, w, h) in glyph_dots {
            assert_eq!(h, 1, "glyph runs are 1px tall");
            assert!(w >= 1 && w <= 5 * l.glyph_px, "run inside the glyph box");
        }
        assert!(l.svg.contains("shape-rendering=\"crispEdges\""));
    }
}
