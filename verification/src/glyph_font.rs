//! nx75, the anchor font for the nano14 id alphabet, in two masters of
//! one design: v1, drawn at even glyph scales, and v2, drawn at odd
//! ones. A glyph is a set of anchors on the 7x5 grid and the active
//! connections between them; `ink_bits` are each glyph's ink-pixel
//! counts at its master's checksum scales (v1: 2, 4, 6; v2: 3, 5).

use vstd::prelude::*;

verus! {

/// Glyph cell height in anchor cells.
pub const GRID_ROWS: u32 = 7;
/// Glyph cell width in anchor cells.
pub const GRID_COLS: u32 = 5;
/// Scales with baked v1 ink checksums, in `Glyph::ink_bits` order.
pub const CHECKSUM_KS_V1: [u32; 3] = [2, 4, 6];
/// Scales with baked v2 ink checksums, in `Glyph::ink_bits` order.
pub const CHECKSUM_KS_V2: [u32; 2] = [3, 5];

/// One anchor node of a glyph on the 7x5 grid.
#[derive(Clone, Copy, Debug, PartialEq, Eq, Structural)]
pub struct Anchor {
    /// Grid row, 0 at the top.
    pub r: u8,
    /// Grid column, 0 at the left.
    pub c: u8,
    /// Kernel quadrants: bit 0 top-left, bit 1 top-right, bit 2
    /// bottom-left, bit 3 bottom-right.
    pub quad_mask: u8,
}

/// One active connection between two anchors of a glyph.
#[derive(Clone, Copy, Debug, PartialEq, Eq, Structural)]
pub struct Edge {
    /// First endpoint, an index into the glyph's anchors.
    pub a: u8,
    /// Second endpoint index (an 8-neighbour of the first).
    pub b: u8,
    /// Diagonal connection (both row and column step).
    pub diag: bool,
}

/// One nx75 glyph: anchors, active edges and baked ink checksums.
#[derive(Clone, Debug)]
pub struct Glyph {
    /// The nano14 character this glyph renders.
    pub ch: char,
    /// Anchors in grid-scan order (row-major).
    pub anchors: Vec<Anchor>,
    /// Active connections, endpoints as indices into `anchors`.
    pub edges: Vec<Edge>,
    /// Ink-pixel counts of the rasterised glyph at its master's checksum
    /// scales, in order.
    pub ink_bits: Vec<u32>,
}

/// An anchor.
pub open spec fn sa(r: u8, c: u8, quad_mask: u8) -> Anchor {
    Anchor { r, c, quad_mask }
}

/// An edge.
pub open spec fn se(a: u8, b: u8, diag: bool) -> Edge {
    Edge { a, b, diag }
}

fn a(r: u8, c: u8, quad_mask: u8) -> (x: Anchor)
    ensures
        x == sa(r, c, quad_mask),
{
    Anchor { r, c, quad_mask }
}

fn e(a: u8, b: u8, diag: bool) -> (x: Edge)
    ensures
        x == se(a, b, diag),
{
    Edge { a, b, diag }
}

/// The v1 master's `2`: its anchors and edges.
pub open spec fn v1_2_spec() -> (Seq<Anchor>, Seq<Edge>) {
    (seq![sa(0, 1, 0), sa(0, 2, 15), sa(0, 3, 0), sa(1, 0, 4), sa(1, 4, 0), sa(2, 4, 0), sa(3, 2, 0), sa(3, 3, 0), sa(4, 1, 0), sa(5, 0, 0), sa(6, 0, 15), sa(6, 1, 15), sa(6, 2, 15), sa(6, 3, 15), sa(6, 4, 15)],
     seq![se(0, 1, false), se(0, 3, true), se(1, 2, false), se(2, 4, true), se(4, 5, false), se(5, 7, true), se(6, 7, false), se(6, 8, true), se(8, 9, true), se(9, 10, false), se(10, 11, false), se(11, 12, false), se(12, 13, false), se(13, 14, false)])
}

fn v1_2() -> (g: Glyph)
    ensures
        g.ch == '2' && (g.anchors@, g.edges@) == v1_2_spec(),
{
    Glyph {
        ch: '2',
        anchors: vec![a(0, 1, 0), a(0, 2, 15), a(0, 3, 0), a(1, 0, 4), a(1, 4, 0), a(2, 4, 0), a(3, 2, 0), a(3, 3, 0), a(4, 1, 0), a(5, 0, 0), a(6, 0, 15), a(6, 1, 15), a(6, 2, 15), a(6, 3, 15), a(6, 4, 15)],
        edges: vec![e(0, 1, false), e(0, 3, true), e(1, 2, false), e(2, 4, true), e(4, 5, false), e(5, 7, true), e(6, 7, false), e(6, 8, true), e(8, 9, true), e(9, 10, false), e(10, 11, false), e(11, 12, false), e(12, 13, false), e(13, 14, false)],
        ink_bits: vec![70, 259, 567],
    }
}

/// The v1 master's `3`: its anchors and edges.
pub open spec fn v1_3_spec() -> (Seq<Anchor>, Seq<Edge>) {
    (seq![sa(0, 0, 15), sa(0, 1, 15), sa(0, 2, 15), sa(0, 3, 15), sa(0, 4, 2), sa(1, 3, 0), sa(2, 2, 0), sa(3, 3, 0), sa(4, 4, 0), sa(5, 0, 1), sa(5, 4, 0), sa(6, 1, 0), sa(6, 2, 15), sa(6, 3, 0)],
     seq![se(0, 1, false), se(1, 2, false), se(2, 3, false), se(3, 4, false), se(4, 5, true), se(5, 6, true), se(6, 7, true), se(7, 8, true), se(8, 10, false), se(9, 11, true), se(10, 13, true), se(11, 12, false), se(12, 13, false)])
}

fn v1_3() -> (g: Glyph)
    ensures
        g.ch == '3' && (g.anchors@, g.edges@) == v1_3_spec(),
{
    Glyph {
        ch: '3',
        anchors: vec![a(0, 0, 15), a(0, 1, 15), a(0, 2, 15), a(0, 3, 15), a(0, 4, 2), a(1, 3, 0), a(2, 2, 0), a(3, 3, 0), a(4, 4, 0), a(5, 0, 1), a(5, 4, 0), a(6, 1, 0), a(6, 2, 15), a(6, 3, 0)],
        edges: vec![e(0, 1, false), e(1, 2, false), e(2, 3, false), e(3, 4, false), e(4, 5, true), e(5, 6, true), e(6, 7, true), e(7, 8, true), e(8, 10, false), e(9, 11, true), e(10, 13, true), e(11, 12, false), e(12, 13, false)],
        ink_bits: vec![67, 244, 531],
    }
}

/// The v1 master's `4`: its anchors and edges.
pub open spec fn v1_4_spec() -> (Seq<Anchor>, Seq<Edge>) {
    (seq![sa(0, 3, 2), sa(1, 2, 0), sa(1, 3, 15), sa(2, 1, 0), sa(2, 3, 15), sa(3, 0, 0), sa(3, 3, 15), sa(4, 0, 15), sa(4, 1, 15), sa(4, 2, 15), sa(4, 3, 15), sa(4, 4, 15), sa(5, 3, 15), sa(6, 3, 15)],
     seq![se(0, 2, false), se(0, 1, true), se(1, 3, true), se(2, 4, false), se(3, 5, true), se(4, 6, false), se(5, 7, false), se(6, 10, false), se(7, 8, false), se(8, 9, false), se(9, 10, false), se(10, 11, false), se(10, 12, false), se(12, 13, false)])
}

fn v1_4() -> (g: Glyph)
    ensures
        g.ch == '4' && (g.anchors@, g.edges@) == v1_4_spec(),
{
    Glyph {
        ch: '4',
        anchors: vec![a(0, 3, 2), a(1, 2, 0), a(1, 3, 15), a(2, 1, 0), a(2, 3, 15), a(3, 0, 0), a(3, 3, 15), a(4, 0, 15), a(4, 1, 15), a(4, 2, 15), a(4, 3, 15), a(4, 4, 15), a(5, 3, 15), a(6, 3, 15)],
        edges: vec![e(0, 2, false), e(0, 1, true), e(1, 3, true), e(2, 4, false), e(3, 5, true), e(4, 6, false), e(5, 7, false), e(6, 10, false), e(7, 8, false), e(8, 9, false), e(9, 10, false), e(10, 11, false), e(10, 12, false), e(12, 13, false)],
        ink_bits: vec![61, 233, 516],
    }
}

/// The v1 master's `5`: its anchors and edges.
pub open spec fn v1_5_spec() -> (Seq<Anchor>, Seq<Edge>) {
    (seq![sa(0, 0, 15), sa(0, 1, 15), sa(0, 2, 15), sa(0, 3, 15), sa(0, 4, 15), sa(1, 0, 15), sa(2, 0, 15), sa(2, 1, 15), sa(2, 2, 15), sa(2, 3, 0), sa(3, 4, 0), sa(4, 4, 15), sa(5, 0, 0), sa(5, 4, 0), sa(6, 1, 0), sa(6, 2, 15), sa(6, 3, 0)],
     seq![se(0, 1, false), se(0, 5, false), se(1, 2, false), se(2, 3, false), se(3, 4, false), se(5, 6, false), se(6, 7, false), se(7, 8, false), se(8, 9, false), se(9, 10, true), se(10, 11, false), se(11, 13, false), se(12, 14, true), se(13, 16, true), se(14, 15, false), se(15, 16, false)])
}

fn v1_5() -> (g: Glyph)
    ensures
        g.ch == '5' && (g.anchors@, g.edges@) == v1_5_spec(),
{
    Glyph {
        ch: '5',
        anchors: vec![a(0, 0, 15), a(0, 1, 15), a(0, 2, 15), a(0, 3, 15), a(0, 4, 15), a(1, 0, 15), a(2, 0, 15), a(2, 1, 15), a(2, 2, 15), a(2, 3, 0), a(3, 4, 0), a(4, 4, 15), a(5, 0, 0), a(5, 4, 0), a(6, 1, 0), a(6, 2, 15), a(6, 3, 0)],
        edges: vec![e(0, 1, false), e(0, 5, false), e(1, 2, false), e(2, 3, false), e(3, 4, false), e(5, 6, false), e(6, 7, false), e(7, 8, false), e(8, 9, false), e(9, 10, true), e(10, 11, false), e(11, 13, false), e(12, 14, true), e(13, 16, true), e(14, 15, false), e(15, 16, false)],
        ink_bits: vec![74, 282, 624],
    }
}

/// The v1 master's `6`: its anchors and edges.
pub open spec fn v1_6_spec() -> (Seq<Anchor>, Seq<Edge>) {
    (seq![sa(0, 2, 0), sa(0, 3, 15), sa(1, 1, 0), sa(2, 0, 0), sa(3, 0, 15), sa(3, 1, 15), sa(3, 2, 15), sa(3, 3, 0), sa(4, 0, 15), sa(4, 4, 0), sa(5, 0, 0), sa(5, 4, 0), sa(6, 1, 0), sa(6, 2, 15), sa(6, 3, 0)],
     seq![se(0, 1, false), se(0, 2, true), se(2, 3, true), se(3, 4, false), se(4, 5, false), se(4, 8, false), se(5, 6, false), se(6, 7, false), se(7, 9, true), se(8, 10, false), se(9, 11, false), se(10, 12, true), se(11, 14, true), se(12, 13, false), se(13, 14, false)])
}

fn v1_6() -> (g: Glyph)
    ensures
        g.ch == '6' && (g.anchors@, g.edges@) == v1_6_spec(),
{
    Glyph {
        ch: '6',
        anchors: vec![a(0, 2, 0), a(0, 3, 15), a(1, 1, 0), a(2, 0, 0), a(3, 0, 15), a(3, 1, 15), a(3, 2, 15), a(3, 3, 0), a(4, 0, 15), a(4, 4, 0), a(5, 0, 0), a(5, 4, 0), a(6, 1, 0), a(6, 2, 15), a(6, 3, 0)],
        edges: vec![e(0, 1, false), e(0, 2, true), e(2, 3, true), e(3, 4, false), e(4, 5, false), e(4, 8, false), e(5, 6, false), e(6, 7, false), e(7, 9, true), e(8, 10, false), e(9, 11, false), e(10, 12, true), e(11, 14, true), e(12, 13, false), e(13, 14, false)],
        ink_bits: vec![70, 260, 570],
    }
}

/// The v1 master's `7`: its anchors and edges.
pub open spec fn v1_7_spec() -> (Seq<Anchor>, Seq<Edge>) {
    (seq![sa(0, 0, 15), sa(0, 1, 15), sa(0, 2, 15), sa(0, 3, 15), sa(0, 4, 15), sa(1, 4, 0), sa(2, 3, 0), sa(3, 2, 0), sa(4, 1, 0), sa(5, 1, 15), sa(6, 1, 15)],
     seq![se(0, 1, false), se(1, 2, false), se(2, 3, false), se(3, 4, false), se(4, 5, false), se(5, 6, true), se(6, 7, true), se(7, 8, true), se(8, 9, false), se(9, 10, false)])
}

fn v1_7() -> (g: Glyph)
    ensures
        g.ch == '7' && (g.anchors@, g.edges@) == v1_7_spec(),
{
    Glyph {
        ch: '7',
        anchors: vec![a(0, 0, 15), a(0, 1, 15), a(0, 2, 15), a(0, 3, 15), a(0, 4, 15), a(1, 4, 0), a(2, 3, 0), a(3, 2, 0), a(4, 1, 0), a(5, 1, 15), a(6, 1, 15)],
        edges: vec![e(0, 1, false), e(1, 2, false), e(2, 3, false), e(3, 4, false), e(4, 5, false), e(5, 6, true), e(6, 7, true), e(7, 8, true), e(8, 9, false), e(9, 10, false)],
        ink_bits: vec![50, 188, 414],
    }
}

/// The v1 master's `8`: its anchors and edges.
pub open spec fn v1_8_spec() -> (Seq<Anchor>, Seq<Edge>) {
    (seq![sa(0, 1, 0), sa(0, 2, 15), sa(0, 3, 0), sa(1, 0, 0), sa(1, 4, 0), sa(2, 0, 0), sa(2, 4, 0), sa(3, 1, 0), sa(3, 2, 15), sa(3, 3, 0), sa(4, 0, 0), sa(4, 4, 0), sa(5, 0, 0), sa(5, 4, 0), sa(6, 1, 0), sa(6, 2, 15), sa(6, 3, 0)],
     seq![se(0, 1, false), se(0, 3, true), se(1, 2, false), se(2, 4, true), se(3, 5, false), se(4, 6, false), se(5, 7, true), se(6, 9, true), se(7, 8, false), se(7, 10, true), se(8, 9, false), se(9, 11, true), se(10, 12, false), se(11, 13, false), se(12, 14, true), se(13, 16, true), se(14, 15, false), se(15, 16, false)])
}

fn v1_8() -> (g: Glyph)
    ensures
        g.ch == '8' && (g.anchors@, g.edges@) == v1_8_spec(),
{
    Glyph {
        ch: '8',
        anchors: vec![a(0, 1, 0), a(0, 2, 15), a(0, 3, 0), a(1, 0, 0), a(1, 4, 0), a(2, 0, 0), a(2, 4, 0), a(3, 1, 0), a(3, 2, 15), a(3, 3, 0), a(4, 0, 0), a(4, 4, 0), a(5, 0, 0), a(5, 4, 0), a(6, 1, 0), a(6, 2, 15), a(6, 3, 0)],
        edges: vec![e(0, 1, false), e(0, 3, true), e(1, 2, false), e(2, 4, true), e(3, 5, false), e(4, 6, false), e(5, 7, true), e(6, 9, true), e(7, 8, false), e(7, 10, true), e(8, 9, false), e(9, 11, true), e(10, 12, false), e(11, 13, false), e(12, 14, true), e(13, 16, true), e(14, 15, false), e(15, 16, false)],
        ink_bits: vec![84, 308, 672],
    }
}

/// The v1 master's `9`: its anchors and edges.
pub open spec fn v1_9_spec() -> (Seq<Anchor>, Seq<Edge>) {
    (seq![sa(0, 1, 0), sa(0, 2, 15), sa(0, 3, 0), sa(1, 0, 0), sa(1, 4, 0), sa(2, 0, 0), sa(2, 4, 15), sa(3, 1, 0), sa(3, 2, 15), sa(3, 3, 15), sa(3, 4, 15), sa(4, 4, 0), sa(5, 3, 0), sa(6, 1, 15), sa(6, 2, 0)],
     seq![se(0, 1, false), se(0, 3, true), se(1, 2, false), se(2, 4, true), se(3, 5, false), se(4, 6, false), se(5, 7, true), se(6, 10, false), se(7, 8, false), se(8, 9, false), se(9, 10, false), se(10, 11, false), se(11, 12, true), se(12, 14, true), se(13, 14, false)])
}

fn v1_9() -> (g: Glyph)
    ensures
        g.ch == '9' && (g.anchors@, g.edges@) == v1_9_spec(),
{
    Glyph {
        ch: '9',
        anchors: vec![a(0, 1, 0), a(0, 2, 15), a(0, 3, 0), a(1, 0, 0), a(1, 4, 0), a(2, 0, 0), a(2, 4, 15), a(3, 1, 0), a(3, 2, 15), a(3, 3, 15), a(3, 4, 15), a(4, 4, 0), a(5, 3, 0), a(6, 1, 15), a(6, 2, 0)],
        edges: vec![e(0, 1, false), e(0, 3, true), e(1, 2, false), e(2, 4, true), e(3, 5, false), e(4, 6, false), e(5, 7, true), e(6, 10, false), e(7, 8, false), e(8, 9, false), e(9, 10, false), e(10, 11, false), e(11, 12, true), e(12, 14, true), e(13, 14, false)],
        ink_bits: vec![70, 260, 570],
    }
}

/// The v1 master's `A`: its anchors and edges.
pub open spec fn v1_a_spec() -> (Seq<Anchor>, Seq<Edge>) {
    (seq![sa(0, 1, 0), sa(0, 2, 15), sa(0, 3, 0), sa(1, 0, 0), sa(1, 4, 0), sa(2, 0, 15), sa(2, 4, 15), sa(3, 0, 15), sa(3, 4, 15), sa(4, 0, 15), sa(4, 1, 15), sa(4, 2, 15), sa(4, 3, 15), sa(4, 4, 15), sa(5, 0, 15), sa(5, 4, 15), sa(6, 0, 15), sa(6, 4, 15)],
     seq![se(0, 1, false), se(0, 3, true), se(1, 2, false), se(2, 4, true), se(3, 5, false), se(4, 6, false), se(5, 7, false), se(6, 8, false), se(7, 9, false), se(8, 13, false), se(9, 10, false), se(9, 14, false), se(10, 11, false), se(11, 12, false), se(12, 13, false), se(13, 15, false), se(14, 16, false), se(15, 17, false)])
}

fn v1_a() -> (g: Glyph)
    ensures
        g.ch == 'A' && (g.anchors@, g.edges@) == v1_a_spec(),
{
    Glyph {
        ch: 'A',
        anchors: vec![a(0, 1, 0), a(0, 2, 15), a(0, 3, 0), a(1, 0, 0), a(1, 4, 0), a(2, 0, 15), a(2, 4, 15), a(3, 0, 15), a(3, 4, 15), a(4, 0, 15), a(4, 1, 15), a(4, 2, 15), a(4, 3, 15), a(4, 4, 15), a(5, 0, 15), a(5, 4, 15), a(6, 0, 15), a(6, 4, 15)],
        edges: vec![e(0, 1, false), e(0, 3, true), e(1, 2, false), e(2, 4, true), e(3, 5, false), e(4, 6, false), e(5, 7, false), e(6, 8, false), e(7, 9, false), e(8, 13, false), e(9, 10, false), e(9, 14, false), e(10, 11, false), e(11, 12, false), e(12, 13, false), e(13, 15, false), e(14, 16, false), e(15, 17, false)],
        ink_bits: vec![76, 296, 660],
    }
}

/// The v1 master's `B`: its anchors and edges.
pub open spec fn v1_b_spec() -> (Seq<Anchor>, Seq<Edge>) {
    (seq![sa(0, 0, 15), sa(0, 1, 15), sa(0, 2, 15), sa(0, 3, 0), sa(1, 0, 15), sa(1, 4, 0), sa(2, 0, 15), sa(2, 4, 0), sa(3, 0, 15), sa(3, 1, 15), sa(3, 2, 15), sa(3, 3, 0), sa(4, 0, 15), sa(4, 4, 0), sa(5, 0, 15), sa(5, 4, 0), sa(6, 0, 15), sa(6, 1, 15), sa(6, 2, 15), sa(6, 3, 0)],
     seq![se(0, 1, false), se(0, 4, false), se(1, 2, false), se(2, 3, false), se(3, 5, true), se(4, 6, false), se(5, 7, false), se(6, 8, false), se(7, 11, true), se(8, 9, false), se(8, 12, false), se(9, 10, false), se(10, 11, false), se(11, 13, true), se(12, 14, false), se(13, 15, false), se(14, 16, false), se(15, 19, true), se(16, 17, false), se(17, 18, false), se(18, 19, false)])
}

fn v1_b() -> (g: Glyph)
    ensures
        g.ch == 'B' && (g.anchors@, g.edges@) == v1_b_spec(),
{
    Glyph {
        ch: 'B',
        anchors: vec![a(0, 0, 15), a(0, 1, 15), a(0, 2, 15), a(0, 3, 0), a(1, 0, 15), a(1, 4, 0), a(2, 0, 15), a(2, 4, 0), a(3, 0, 15), a(3, 1, 15), a(3, 2, 15), a(3, 3, 0), a(4, 0, 15), a(4, 4, 0), a(5, 0, 15), a(5, 4, 0), a(6, 0, 15), a(6, 1, 15), a(6, 2, 15), a(6, 3, 0)],
        edges: vec![e(0, 1, false), e(0, 4, false), e(1, 2, false), e(2, 3, false), e(3, 5, true), e(4, 6, false), e(5, 7, false), e(6, 8, false), e(7, 11, true), e(8, 9, false), e(8, 12, false), e(9, 10, false), e(10, 11, false), e(11, 13, true), e(12, 14, false), e(13, 15, false), e(14, 16, false), e(15, 19, true), e(16, 17, false), e(17, 18, false), e(18, 19, false)],
        ink_bits: vec![88, 338, 750],
    }
}

/// The v1 master's `C`: its anchors and edges.
pub open spec fn v1_c_spec() -> (Seq<Anchor>, Seq<Edge>) {
    (seq![sa(0, 1, 0), sa(0, 2, 15), sa(0, 3, 0), sa(1, 0, 0), sa(1, 4, 8), sa(2, 0, 15), sa(3, 0, 15), sa(4, 0, 15), sa(5, 0, 0), sa(5, 4, 2), sa(6, 1, 0), sa(6, 2, 15), sa(6, 3, 0)],
     seq![se(0, 1, false), se(0, 3, true), se(1, 2, false), se(2, 4, true), se(3, 5, false), se(5, 6, false), se(6, 7, false), se(7, 8, false), se(8, 10, true), se(9, 12, true), se(10, 11, false), se(11, 12, false)])
}

fn v1_c() -> (g: Glyph)
    ensures
        g.ch == 'C' && (g.anchors@, g.edges@) == v1_c_spec(),
{
    Glyph {
        ch: 'C',
        anchors: vec![a(0, 1, 0), a(0, 2, 15), a(0, 3, 0), a(1, 0, 0), a(1, 4, 8), a(2, 0, 15), a(3, 0, 15), a(4, 0, 15), a(5, 0, 0), a(5, 4, 2), a(6, 1, 0), a(6, 2, 15), a(6, 3, 0)],
        edges: vec![e(0, 1, false), e(0, 3, true), e(1, 2, false), e(2, 4, true), e(3, 5, false), e(5, 6, false), e(6, 7, false), e(7, 8, false), e(8, 10, true), e(9, 12, true), e(10, 11, false), e(11, 12, false)],
        ink_bits: vec![60, 222, 486],
    }
}

/// The v1 master's `D`: its anchors and edges.
pub open spec fn v1_d_spec() -> (Seq<Anchor>, Seq<Edge>) {
    (seq![sa(0, 0, 15), sa(0, 1, 15), sa(0, 2, 0), sa(1, 0, 15), sa(1, 3, 0), sa(2, 0, 15), sa(2, 4, 0), sa(3, 0, 15), sa(3, 4, 15), sa(4, 0, 15), sa(4, 4, 0), sa(5, 0, 15), sa(5, 3, 0), sa(6, 0, 15), sa(6, 1, 15), sa(6, 2, 0)],
     seq![se(0, 1, false), se(0, 3, false), se(1, 2, false), se(2, 4, true), se(3, 5, false), se(4, 6, true), se(5, 7, false), se(6, 8, false), se(7, 9, false), se(8, 10, false), se(9, 11, false), se(10, 12, true), se(11, 13, false), se(12, 15, true), se(13, 14, false), se(14, 15, false)])
}

fn v1_d() -> (g: Glyph)
    ensures
        g.ch == 'D' && (g.anchors@, g.edges@) == v1_d_spec(),
{
    Glyph {
        ch: 'D',
        anchors: vec![a(0, 0, 15), a(0, 1, 15), a(0, 2, 0), a(1, 0, 15), a(1, 3, 0), a(2, 0, 15), a(2, 4, 0), a(3, 0, 15), a(3, 4, 15), a(4, 0, 15), a(4, 4, 0), a(5, 0, 15), a(5, 3, 0), a(6, 0, 15), a(6, 1, 15), a(6, 2, 0)],
        edges: vec![e(0, 1, false), e(0, 3, false), e(1, 2, false), e(2, 4, true), e(3, 5, false), e(4, 6, true), e(5, 7, false), e(6, 8, false), e(7, 9, false), e(8, 10, false), e(9, 11, false), e(10, 12, true), e(11, 13, false), e(12, 15, true), e(13, 14, false), e(14, 15, false)],
        ink_bits: vec![72, 272, 600],
    }
}

/// The v1 master's `E`: its anchors and edges.
pub open spec fn v1_e_spec() -> (Seq<Anchor>, Seq<Edge>) {
    (seq![sa(0, 0, 15), sa(0, 1, 15), sa(0, 2, 15), sa(0, 3, 15), sa(0, 4, 15), sa(1, 0, 15), sa(2, 0, 15), sa(3, 0, 15), sa(3, 1, 15), sa(3, 2, 15), sa(3, 3, 15), sa(4, 0, 15), sa(5, 0, 15), sa(6, 0, 15), sa(6, 1, 15), sa(6, 2, 15), sa(6, 3, 15), sa(6, 4, 15)],
     seq![se(0, 1, false), se(0, 5, false), se(1, 2, false), se(2, 3, false), se(3, 4, false), se(5, 6, false), se(6, 7, false), se(7, 8, false), se(7, 11, false), se(8, 9, false), se(9, 10, false), se(11, 12, false), se(12, 13, false), se(13, 14, false), se(14, 15, false), se(15, 16, false), se(16, 17, false)])
}

fn v1_e() -> (g: Glyph)
    ensures
        g.ch == 'E' && (g.anchors@, g.edges@) == v1_e_spec(),
{
    Glyph {
        ch: 'E',
        anchors: vec![a(0, 0, 15), a(0, 1, 15), a(0, 2, 15), a(0, 3, 15), a(0, 4, 15), a(1, 0, 15), a(2, 0, 15), a(3, 0, 15), a(3, 1, 15), a(3, 2, 15), a(3, 3, 15), a(4, 0, 15), a(5, 0, 15), a(6, 0, 15), a(6, 1, 15), a(6, 2, 15), a(6, 3, 15), a(6, 4, 15)],
        edges: vec![e(0, 1, false), e(0, 5, false), e(1, 2, false), e(2, 3, false), e(3, 4, false), e(5, 6, false), e(6, 7, false), e(7, 8, false), e(7, 11, false), e(8, 9, false), e(9, 10, false), e(11, 12, false), e(12, 13, false), e(13, 14, false), e(14, 15, false), e(15, 16, false), e(16, 17, false)],
        ink_bits: vec![72, 288, 648],
    }
}

/// The v1 master's `F`: its anchors and edges.
pub open spec fn v1_f_spec() -> (Seq<Anchor>, Seq<Edge>) {
    (seq![sa(0, 0, 15), sa(0, 1, 15), sa(0, 2, 15), sa(0, 3, 15), sa(0, 4, 15), sa(1, 0, 15), sa(2, 0, 15), sa(3, 0, 15), sa(3, 1, 15), sa(3, 2, 15), sa(3, 3, 15), sa(4, 0, 15), sa(5, 0, 15), sa(6, 0, 15)],
     seq![se(0, 1, false), se(0, 5, false), se(1, 2, false), se(2, 3, false), se(3, 4, false), se(5, 6, false), se(6, 7, false), se(7, 8, false), se(7, 11, false), se(8, 9, false), se(9, 10, false), se(11, 12, false), se(12, 13, false)])
}

fn v1_f() -> (g: Glyph)
    ensures
        g.ch == 'F' && (g.anchors@, g.edges@) == v1_f_spec(),
{
    Glyph {
        ch: 'F',
        anchors: vec![a(0, 0, 15), a(0, 1, 15), a(0, 2, 15), a(0, 3, 15), a(0, 4, 15), a(1, 0, 15), a(2, 0, 15), a(3, 0, 15), a(3, 1, 15), a(3, 2, 15), a(3, 3, 15), a(4, 0, 15), a(5, 0, 15), a(6, 0, 15)],
        edges: vec![e(0, 1, false), e(0, 5, false), e(1, 2, false), e(2, 3, false), e(3, 4, false), e(5, 6, false), e(6, 7, false), e(7, 8, false), e(7, 11, false), e(8, 9, false), e(9, 10, false), e(11, 12, false), e(12, 13, false)],
        ink_bits: vec![56, 224, 504],
    }
}

/// The v1 master's `G`: its anchors and edges.
pub open spec fn v1_g_spec() -> (Seq<Anchor>, Seq<Edge>) {
    (seq![sa(0, 1, 0), sa(0, 2, 15), sa(0, 3, 0), sa(1, 0, 0), sa(1, 4, 8), sa(2, 0, 15), sa(3, 0, 15), sa(3, 2, 15), sa(3, 3, 15), sa(3, 4, 0), sa(4, 0, 15), sa(4, 4, 15), sa(5, 0, 0), sa(5, 4, 15), sa(6, 1, 0), sa(6, 2, 15), sa(6, 3, 15), sa(6, 4, 7)],
     seq![se(0, 1, false), se(0, 3, true), se(1, 2, false), se(2, 4, true), se(3, 5, false), se(5, 6, false), se(6, 10, false), se(7, 8, false), se(8, 9, false), se(9, 11, false), se(10, 12, false), se(11, 13, false), se(12, 14, true), se(13, 17, false), se(14, 15, false), se(15, 16, false), se(16, 17, false)])
}

fn v1_g() -> (g: Glyph)
    ensures
        g.ch == 'G' && (g.anchors@, g.edges@) == v1_g_spec(),
{
    Glyph {
        ch: 'G',
        anchors: vec![a(0, 1, 0), a(0, 2, 15), a(0, 3, 0), a(1, 0, 0), a(1, 4, 8), a(2, 0, 15), a(3, 0, 15), a(3, 2, 15), a(3, 3, 15), a(3, 4, 0), a(4, 0, 15), a(4, 4, 15), a(5, 0, 0), a(5, 4, 15), a(6, 1, 0), a(6, 2, 15), a(6, 3, 15), a(6, 4, 7)],
        edges: vec![e(0, 1, false), e(0, 3, true), e(1, 2, false), e(2, 4, true), e(3, 5, false), e(5, 6, false), e(6, 10, false), e(7, 8, false), e(8, 9, false), e(9, 11, false), e(10, 12, false), e(11, 13, false), e(12, 14, true), e(13, 17, false), e(14, 15, false), e(15, 16, false), e(16, 17, false)],
        ink_bits: vec![78, 297, 657],
    }
}

/// The v1 master's `H`: its anchors and edges.
pub open spec fn v1_h_spec() -> (Seq<Anchor>, Seq<Edge>) {
    (seq![sa(0, 0, 15), sa(0, 4, 15), sa(1, 0, 15), sa(1, 4, 15), sa(2, 0, 15), sa(2, 4, 15), sa(3, 0, 15), sa(3, 1, 15), sa(3, 2, 15), sa(3, 3, 15), sa(3, 4, 15), sa(4, 0, 15), sa(4, 4, 15), sa(5, 0, 15), sa(5, 4, 15), sa(6, 0, 15), sa(6, 4, 15)],
     seq![se(0, 2, false), se(1, 3, false), se(2, 4, false), se(3, 5, false), se(4, 6, false), se(5, 10, false), se(6, 7, false), se(6, 11, false), se(7, 8, false), se(8, 9, false), se(9, 10, false), se(10, 12, false), se(11, 13, false), se(12, 14, false), se(13, 15, false), se(14, 16, false)])
}

fn v1_h() -> (g: Glyph)
    ensures
        g.ch == 'H' && (g.anchors@, g.edges@) == v1_h_spec(),
{
    Glyph {
        ch: 'H',
        anchors: vec![a(0, 0, 15), a(0, 4, 15), a(1, 0, 15), a(1, 4, 15), a(2, 0, 15), a(2, 4, 15), a(3, 0, 15), a(3, 1, 15), a(3, 2, 15), a(3, 3, 15), a(3, 4, 15), a(4, 0, 15), a(4, 4, 15), a(5, 0, 15), a(5, 4, 15), a(6, 0, 15), a(6, 4, 15)],
        edges: vec![e(0, 2, false), e(1, 3, false), e(2, 4, false), e(3, 5, false), e(4, 6, false), e(5, 10, false), e(6, 7, false), e(6, 11, false), e(7, 8, false), e(8, 9, false), e(9, 10, false), e(10, 12, false), e(11, 13, false), e(12, 14, false), e(13, 15, false), e(14, 16, false)],
        ink_bits: vec![68, 272, 612],
    }
}

/// The v1 master's `J`: its anchors and edges.
pub open spec fn v1_j_spec() -> (Seq<Anchor>, Seq<Edge>) {
    (seq![sa(0, 2, 15), sa(0, 3, 15), sa(0, 4, 15), sa(1, 3, 15), sa(2, 3, 15), sa(3, 3, 15), sa(4, 3, 15), sa(5, 0, 1), sa(5, 3, 0), sa(6, 1, 0), sa(6, 2, 0)],
     seq![se(0, 1, false), se(1, 2, false), se(1, 3, false), se(3, 4, false), se(4, 5, false), se(5, 6, false), se(6, 8, false), se(7, 9, true), se(8, 10, true), se(9, 10, false)])
}

fn v1_j() -> (g: Glyph)
    ensures
        g.ch == 'J' && (g.anchors@, g.edges@) == v1_j_spec(),
{
    Glyph {
        ch: 'J',
        anchors: vec![a(0, 2, 15), a(0, 3, 15), a(0, 4, 15), a(1, 3, 15), a(2, 3, 15), a(3, 3, 15), a(4, 3, 15), a(5, 0, 1), a(5, 3, 0), a(6, 1, 0), a(6, 2, 0)],
        edges: vec![e(0, 1, false), e(1, 2, false), e(1, 3, false), e(3, 4, false), e(4, 5, false), e(5, 6, false), e(6, 8, false), e(7, 9, true), e(8, 10, true), e(9, 10, false)],
        ink_bits: vec![48, 183, 405],
    }
}

/// The v1 master's `K`: its anchors and edges.
pub open spec fn v1_k_spec() -> (Seq<Anchor>, Seq<Edge>) {
    (seq![sa(0, 0, 15), sa(0, 4, 2), sa(1, 0, 15), sa(1, 3, 0), sa(2, 0, 15), sa(2, 2, 0), sa(3, 0, 15), sa(3, 1, 0), sa(4, 0, 15), sa(4, 2, 0), sa(5, 0, 15), sa(5, 3, 0), sa(6, 0, 15), sa(6, 4, 8)],
     seq![se(0, 2, false), se(1, 3, true), se(2, 4, false), se(3, 5, true), se(4, 6, false), se(5, 7, true), se(6, 7, false), se(6, 8, false), se(7, 9, true), se(8, 10, false), se(9, 11, true), se(10, 12, false), se(11, 13, true)])
}

fn v1_k() -> (g: Glyph)
    ensures
        g.ch == 'K' && (g.anchors@, g.edges@) == v1_k_spec(),
{
    Glyph {
        ch: 'K',
        anchors: vec![a(0, 0, 15), a(0, 4, 2), a(1, 0, 15), a(1, 3, 0), a(2, 0, 15), a(2, 2, 0), a(3, 0, 15), a(3, 1, 0), a(4, 0, 15), a(4, 2, 0), a(5, 0, 15), a(5, 3, 0), a(6, 0, 15), a(6, 4, 8)],
        edges: vec![e(0, 2, false), e(1, 3, true), e(2, 4, false), e(3, 5, true), e(4, 6, false), e(5, 7, true), e(6, 7, false), e(6, 8, false), e(7, 9, true), e(8, 10, false), e(9, 11, true), e(10, 12, false), e(11, 13, true)],
        ink_bits: vec![68, 248, 540],
    }
}

/// The v1 master's `M`: its anchors and edges.
pub open spec fn v1_m_spec() -> (Seq<Anchor>, Seq<Edge>) {
    (seq![sa(0, 0, 13), sa(0, 4, 2), sa(1, 0, 15), sa(1, 1, 0), sa(1, 3, 0), sa(1, 4, 15), sa(2, 0, 15), sa(2, 2, 0), sa(2, 4, 15), sa(3, 0, 15), sa(3, 2, 15), sa(3, 4, 15), sa(4, 0, 15), sa(4, 4, 15), sa(5, 0, 15), sa(5, 4, 15), sa(6, 0, 15), sa(6, 4, 15)],
     seq![se(0, 2, false), se(0, 3, true), se(1, 5, false), se(1, 4, true), se(2, 6, false), se(3, 7, true), se(4, 7, true), se(5, 8, false), se(6, 9, false), se(7, 10, false), se(8, 11, false), se(9, 12, false), se(11, 13, false), se(12, 14, false), se(13, 15, false), se(14, 16, false), se(15, 17, false)])
}

fn v1_m() -> (g: Glyph)
    ensures
        g.ch == 'M' && (g.anchors@, g.edges@) == v1_m_spec(),
{
    Glyph {
        ch: 'M',
        anchors: vec![a(0, 0, 13), a(0, 4, 2), a(1, 0, 15), a(1, 1, 0), a(1, 3, 0), a(1, 4, 15), a(2, 0, 15), a(2, 2, 0), a(2, 4, 15), a(3, 0, 15), a(3, 2, 15), a(3, 4, 15), a(4, 0, 15), a(4, 4, 15), a(5, 0, 15), a(5, 4, 15), a(6, 0, 15), a(6, 4, 15)],
        edges: vec![e(0, 2, false), e(0, 3, true), e(1, 5, false), e(1, 4, true), e(2, 6, false), e(3, 7, true), e(4, 7, true), e(5, 8, false), e(6, 9, false), e(7, 10, false), e(8, 11, false), e(9, 12, false), e(11, 13, false), e(12, 14, false), e(13, 15, false), e(14, 16, false), e(15, 17, false)],
        ink_bits: vec![78, 300, 666],
    }
}

/// The v1 master's `N`: its anchors and edges.
pub open spec fn v1_n_spec() -> (Seq<Anchor>, Seq<Edge>) {
    (seq![sa(0, 0, 15), sa(0, 4, 15), sa(1, 0, 0), sa(1, 4, 15), sa(2, 0, 15), sa(2, 1, 0), sa(2, 4, 15), sa(3, 0, 15), sa(3, 2, 0), sa(3, 4, 15), sa(4, 0, 15), sa(4, 3, 0), sa(4, 4, 15), sa(5, 0, 15), sa(5, 4, 0), sa(6, 0, 15), sa(6, 4, 15)],
     seq![se(0, 2, false), se(1, 3, false), se(2, 4, false), se(2, 5, true), se(3, 6, false), se(4, 7, false), se(5, 8, true), se(6, 9, false), se(7, 10, false), se(8, 11, true), se(9, 12, false), se(10, 13, false), se(11, 14, true), se(12, 14, false), se(13, 15, false), se(14, 16, false)])
}

fn v1_n() -> (g: Glyph)
    ensures
        g.ch == 'N' && (g.anchors@, g.edges@) == v1_n_spec(),
{
    Glyph {
        ch: 'N',
        anchors: vec![a(0, 0, 15), a(0, 4, 15), a(1, 0, 0), a(1, 4, 15), a(2, 0, 15), a(2, 1, 0), a(2, 4, 15), a(3, 0, 15), a(3, 2, 0), a(3, 4, 15), a(4, 0, 15), a(4, 3, 0), a(4, 4, 15), a(5, 0, 15), a(5, 4, 0), a(6, 0, 15), a(6, 4, 15)],
        edges: vec![e(0, 2, false), e(1, 3, false), e(2, 4, false), e(2, 5, true), e(3, 6, false), e(4, 7, false), e(5, 8, true), e(6, 9, false), e(7, 10, false), e(8, 11, true), e(9, 12, false), e(10, 13, false), e(11, 14, true), e(12, 14, false), e(13, 15, false), e(14, 16, false)],
        ink_bits: vec![74, 284, 630],
    }
}

/// The v1 master's `P`: its anchors and edges.
pub open spec fn v1_p_spec() -> (Seq<Anchor>, Seq<Edge>) {
    (seq![sa(0, 0, 15), sa(0, 1, 15), sa(0, 2, 15), sa(0, 3, 0), sa(1, 0, 15), sa(1, 4, 0), sa(2, 0, 15), sa(2, 4, 0), sa(3, 0, 15), sa(3, 1, 15), sa(3, 2, 15), sa(3, 3, 0), sa(4, 0, 15), sa(5, 0, 15), sa(6, 0, 15)],
     seq![se(0, 1, false), se(0, 4, false), se(1, 2, false), se(2, 3, false), se(3, 5, true), se(4, 6, false), se(5, 7, false), se(6, 8, false), se(7, 11, true), se(8, 9, false), se(8, 12, false), se(9, 10, false), se(10, 11, false), se(12, 13, false), se(13, 14, false)])
}

fn v1_p() -> (g: Glyph)
    ensures
        g.ch == 'P' && (g.anchors@, g.edges@) == v1_p_spec(),
{
    Glyph {
        ch: 'P',
        anchors: vec![a(0, 0, 15), a(0, 1, 15), a(0, 2, 15), a(0, 3, 0), a(1, 0, 15), a(1, 4, 0), a(2, 0, 15), a(2, 4, 0), a(3, 0, 15), a(3, 1, 15), a(3, 2, 15), a(3, 3, 0), a(4, 0, 15), a(5, 0, 15), a(6, 0, 15)],
        edges: vec![e(0, 1, false), e(0, 4, false), e(1, 2, false), e(2, 3, false), e(3, 5, true), e(4, 6, false), e(5, 7, false), e(6, 8, false), e(7, 11, true), e(8, 9, false), e(8, 12, false), e(9, 10, false), e(10, 11, false), e(12, 13, false), e(13, 14, false)],
        ink_bits: vec![64, 248, 552],
    }
}

/// The v1 master's `Q`: its anchors and edges.
pub open spec fn v1_q_spec() -> (Seq<Anchor>, Seq<Edge>) {
    (seq![sa(0, 1, 0), sa(0, 2, 15), sa(0, 3, 0), sa(1, 0, 0), sa(1, 4, 0), sa(2, 0, 15), sa(2, 4, 15), sa(3, 0, 15), sa(3, 4, 15), sa(4, 0, 15), sa(4, 2, 1), sa(4, 4, 0), sa(5, 0, 0), sa(5, 3, 0), sa(6, 1, 0), sa(6, 2, 0), sa(6, 4, 8)],
     seq![se(0, 1, false), se(0, 3, true), se(1, 2, false), se(2, 4, true), se(3, 5, false), se(4, 6, false), se(5, 7, false), se(6, 8, false), se(7, 9, false), se(8, 11, false), se(9, 12, false), se(10, 13, true), se(11, 13, true), se(12, 14, true), se(13, 16, true), se(13, 15, true), se(14, 15, false)])
}

fn v1_q() -> (g: Glyph)
    ensures
        g.ch == 'Q' && (g.anchors@, g.edges@) == v1_q_spec(),
{
    Glyph {
        ch: 'Q',
        anchors: vec![a(0, 1, 0), a(0, 2, 15), a(0, 3, 0), a(1, 0, 0), a(1, 4, 0), a(2, 0, 15), a(2, 4, 15), a(3, 0, 15), a(3, 4, 15), a(4, 0, 15), a(4, 2, 1), a(4, 4, 0), a(5, 0, 0), a(5, 3, 0), a(6, 1, 0), a(6, 2, 0), a(6, 4, 8)],
        edges: vec![e(0, 1, false), e(0, 3, true), e(1, 2, false), e(2, 4, true), e(3, 5, false), e(4, 6, false), e(5, 7, false), e(6, 8, false), e(7, 9, false), e(8, 11, false), e(9, 12, false), e(10, 13, true), e(11, 13, true), e(12, 14, true), e(13, 16, true), e(13, 15, true), e(14, 15, false)],
        ink_bits: vec![82, 302, 660],
    }
}

/// The v1 master's `R`: its anchors and edges.
pub open spec fn v1_r_spec() -> (Seq<Anchor>, Seq<Edge>) {
    (seq![sa(0, 0, 15), sa(0, 1, 15), sa(0, 2, 15), sa(0, 3, 0), sa(1, 0, 15), sa(1, 4, 0), sa(2, 0, 15), sa(2, 4, 0), sa(3, 0, 15), sa(3, 1, 0), sa(3, 2, 15), sa(3, 3, 0), sa(4, 0, 15), sa(4, 2, 0), sa(5, 0, 15), sa(5, 3, 0), sa(6, 0, 15), sa(6, 4, 8)],
     seq![se(0, 1, false), se(0, 4, false), se(1, 2, false), se(2, 3, false), se(3, 5, true), se(4, 6, false), se(5, 7, false), se(6, 8, false), se(7, 11, true), se(8, 9, false), se(8, 12, false), se(9, 10, false), se(9, 13, true), se(10, 11, false), se(12, 14, false), se(13, 15, true), se(14, 16, false), se(15, 17, true)])
}

fn v1_r() -> (g: Glyph)
    ensures
        g.ch == 'R' && (g.anchors@, g.edges@) == v1_r_spec(),
{
    Glyph {
        ch: 'R',
        anchors: vec![a(0, 0, 15), a(0, 1, 15), a(0, 2, 15), a(0, 3, 0), a(1, 0, 15), a(1, 4, 0), a(2, 0, 15), a(2, 4, 0), a(3, 0, 15), a(3, 1, 0), a(3, 2, 15), a(3, 3, 0), a(4, 0, 15), a(4, 2, 0), a(5, 0, 15), a(5, 3, 0), a(6, 0, 15), a(6, 4, 8)],
        edges: vec![e(0, 1, false), e(0, 4, false), e(1, 2, false), e(2, 3, false), e(3, 5, true), e(4, 6, false), e(5, 7, false), e(6, 8, false), e(7, 11, true), e(8, 9, false), e(8, 12, false), e(9, 10, false), e(9, 13, true), e(10, 11, false), e(12, 14, false), e(13, 15, true), e(14, 16, false), e(15, 17, true)],
        ink_bits: vec![81, 305, 672],
    }
}

/// The v1 master's `S`: its anchors and edges.
pub open spec fn v1_s_spec() -> (Seq<Anchor>, Seq<Edge>) {
    (seq![sa(0, 1, 0), sa(0, 2, 15), sa(0, 3, 15), sa(0, 4, 15), sa(1, 0, 0), sa(2, 0, 0), sa(3, 1, 0), sa(3, 2, 15), sa(3, 3, 0), sa(4, 4, 0), sa(5, 4, 0), sa(6, 0, 15), sa(6, 1, 15), sa(6, 2, 15), sa(6, 3, 0)],
     seq![se(0, 1, false), se(0, 4, true), se(1, 2, false), se(2, 3, false), se(4, 5, false), se(5, 6, true), se(6, 7, false), se(7, 8, false), se(8, 9, true), se(9, 10, false), se(10, 14, true), se(11, 12, false), se(12, 13, false), se(13, 14, false)])
}

fn v1_s() -> (g: Glyph)
    ensures
        g.ch == 'S' && (g.anchors@, g.edges@) == v1_s_spec(),
{
    Glyph {
        ch: 'S',
        anchors: vec![a(0, 1, 0), a(0, 2, 15), a(0, 3, 15), a(0, 4, 15), a(1, 0, 0), a(2, 0, 0), a(3, 1, 0), a(3, 2, 15), a(3, 3, 0), a(4, 4, 0), a(5, 4, 0), a(6, 0, 15), a(6, 1, 15), a(6, 2, 15), a(6, 3, 0)],
        edges: vec![e(0, 1, false), e(0, 4, true), e(1, 2, false), e(2, 3, false), e(4, 5, false), e(5, 6, true), e(6, 7, false), e(7, 8, false), e(8, 9, true), e(9, 10, false), e(10, 14, true), e(11, 12, false), e(12, 13, false), e(13, 14, false)],
        ink_bits: vec![68, 256, 564],
    }
}

/// The v1 master's `T`: its anchors and edges.
pub open spec fn v1_t_spec() -> (Seq<Anchor>, Seq<Edge>) {
    (seq![sa(0, 0, 15), sa(0, 1, 15), sa(0, 2, 15), sa(0, 3, 15), sa(0, 4, 15), sa(1, 2, 15), sa(2, 2, 15), sa(3, 2, 15), sa(4, 2, 15), sa(5, 2, 15), sa(6, 2, 15)],
     seq![se(0, 1, false), se(1, 2, false), se(2, 3, false), se(2, 5, false), se(3, 4, false), se(5, 6, false), se(6, 7, false), se(7, 8, false), se(8, 9, false), se(9, 10, false)])
}

fn v1_t() -> (g: Glyph)
    ensures
        g.ch == 'T' && (g.anchors@, g.edges@) == v1_t_spec(),
{
    Glyph {
        ch: 'T',
        anchors: vec![a(0, 0, 15), a(0, 1, 15), a(0, 2, 15), a(0, 3, 15), a(0, 4, 15), a(1, 2, 15), a(2, 2, 15), a(3, 2, 15), a(4, 2, 15), a(5, 2, 15), a(6, 2, 15)],
        edges: vec![e(0, 1, false), e(1, 2, false), e(2, 3, false), e(2, 5, false), e(3, 4, false), e(5, 6, false), e(6, 7, false), e(7, 8, false), e(8, 9, false), e(9, 10, false)],
        ink_bits: vec![44, 176, 396],
    }
}

/// The v1 master's `U`: its anchors and edges.
pub open spec fn v1_u_spec() -> (Seq<Anchor>, Seq<Edge>) {
    (seq![sa(0, 0, 15), sa(0, 4, 15), sa(1, 0, 15), sa(1, 4, 15), sa(2, 0, 15), sa(2, 4, 15), sa(3, 0, 15), sa(3, 4, 15), sa(4, 0, 15), sa(4, 4, 15), sa(5, 0, 0), sa(5, 4, 0), sa(6, 1, 0), sa(6, 2, 15), sa(6, 3, 0)],
     seq![se(0, 2, false), se(1, 3, false), se(2, 4, false), se(3, 5, false), se(4, 6, false), se(5, 7, false), se(6, 8, false), se(7, 9, false), se(8, 10, false), se(9, 11, false), se(10, 12, true), se(11, 14, true), se(12, 13, false), se(13, 14, false)])
}

fn v1_u() -> (g: Glyph)
    ensures
        g.ch == 'U' && (g.anchors@, g.edges@) == v1_u_spec(),
{
    Glyph {
        ch: 'U',
        anchors: vec![a(0, 0, 15), a(0, 4, 15), a(1, 0, 15), a(1, 4, 15), a(2, 0, 15), a(2, 4, 15), a(3, 0, 15), a(3, 4, 15), a(4, 0, 15), a(4, 4, 15), a(5, 0, 0), a(5, 4, 0), a(6, 1, 0), a(6, 2, 15), a(6, 3, 0)],
        edges: vec![e(0, 2, false), e(1, 3, false), e(2, 4, false), e(3, 5, false), e(4, 6, false), e(5, 7, false), e(6, 8, false), e(7, 9, false), e(8, 10, false), e(9, 11, false), e(10, 12, true), e(11, 14, true), e(12, 13, false), e(13, 14, false)],
        ink_bits: vec![64, 248, 552],
    }
}

/// The v1 master's `V`: its anchors and edges.
pub open spec fn v1_v_spec() -> (Seq<Anchor>, Seq<Edge>) {
    (seq![sa(0, 0, 15), sa(0, 4, 15), sa(1, 0, 15), sa(1, 4, 15), sa(2, 0, 15), sa(2, 4, 15), sa(3, 0, 15), sa(3, 4, 15), sa(4, 0, 0), sa(4, 4, 0), sa(5, 1, 0), sa(5, 3, 0), sa(6, 2, 0)],
     seq![se(0, 2, false), se(1, 3, false), se(2, 4, false), se(3, 5, false), se(4, 6, false), se(5, 7, false), se(6, 8, false), se(7, 9, false), se(8, 10, true), se(9, 11, true), se(10, 12, true), se(11, 12, true)])
}

fn v1_v() -> (g: Glyph)
    ensures
        g.ch == 'V' && (g.anchors@, g.edges@) == v1_v_spec(),
{
    Glyph {
        ch: 'V',
        anchors: vec![a(0, 0, 15), a(0, 4, 15), a(1, 0, 15), a(1, 4, 15), a(2, 0, 15), a(2, 4, 15), a(3, 0, 15), a(3, 4, 15), a(4, 0, 0), a(4, 4, 0), a(5, 1, 0), a(5, 3, 0), a(6, 2, 0)],
        edges: vec![e(0, 2, false), e(1, 3, false), e(2, 4, false), e(3, 5, false), e(4, 6, false), e(5, 7, false), e(6, 8, false), e(7, 9, false), e(8, 10, true), e(9, 11, true), e(10, 12, true), e(11, 12, true)],
        ink_bits: vec![60, 224, 492],
    }
}

/// The v1 master's `W`: its anchors and edges.
pub open spec fn v1_w_spec() -> (Seq<Anchor>, Seq<Edge>) {
    (seq![sa(0, 0, 15), sa(0, 4, 15), sa(1, 0, 15), sa(1, 4, 15), sa(2, 0, 15), sa(2, 4, 15), sa(3, 0, 15), sa(3, 2, 15), sa(3, 4, 15), sa(4, 0, 15), sa(4, 2, 15), sa(4, 4, 15), sa(5, 0, 0), sa(5, 2, 0), sa(5, 4, 0), sa(6, 1, 0), sa(6, 3, 0)],
     seq![se(0, 2, false), se(1, 3, false), se(2, 4, false), se(3, 5, false), se(4, 6, false), se(5, 8, false), se(6, 9, false), se(7, 10, false), se(8, 11, false), se(9, 12, false), se(10, 13, false), se(11, 14, false), se(12, 15, true), se(13, 16, true), se(13, 15, true), se(14, 16, true)])
}

fn v1_w() -> (g: Glyph)
    ensures
        g.ch == 'W' && (g.anchors@, g.edges@) == v1_w_spec(),
{
    Glyph {
        ch: 'W',
        anchors: vec![a(0, 0, 15), a(0, 4, 15), a(1, 0, 15), a(1, 4, 15), a(2, 0, 15), a(2, 4, 15), a(3, 0, 15), a(3, 2, 15), a(3, 4, 15), a(4, 0, 15), a(4, 2, 15), a(4, 4, 15), a(5, 0, 0), a(5, 2, 0), a(5, 4, 0), a(6, 1, 0), a(6, 3, 0)],
        edges: vec![e(0, 2, false), e(1, 3, false), e(2, 4, false), e(3, 5, false), e(4, 6, false), e(5, 8, false), e(6, 9, false), e(7, 10, false), e(8, 11, false), e(9, 12, false), e(10, 13, false), e(11, 14, false), e(12, 15, true), e(13, 16, true), e(13, 15, true), e(14, 16, true)],
        ink_bits: vec![76, 290, 642],
    }
}

/// The v1 master's `X`: its anchors and edges.
pub open spec fn v1_x_spec() -> (Seq<Anchor>, Seq<Edge>) {
    (seq![sa(0, 0, 15), sa(0, 4, 15), sa(1, 0, 0), sa(1, 4, 0), sa(2, 1, 0), sa(2, 3, 0), sa(3, 2, 0), sa(4, 1, 0), sa(4, 3, 0), sa(5, 0, 0), sa(5, 4, 0), sa(6, 0, 15), sa(6, 4, 15)],
     seq![se(0, 2, false), se(1, 3, false), se(2, 4, true), se(3, 5, true), se(4, 6, true), se(5, 6, true), se(6, 8, true), se(6, 7, true), se(7, 9, true), se(8, 10, true), se(9, 11, false), se(10, 12, false)])
}

fn v1_x() -> (g: Glyph)
    ensures
        g.ch == 'X' && (g.anchors@, g.edges@) == v1_x_spec(),
{
    Glyph {
        ch: 'X',
        anchors: vec![a(0, 0, 15), a(0, 4, 15), a(1, 0, 0), a(1, 4, 0), a(2, 1, 0), a(2, 3, 0), a(3, 2, 0), a(4, 1, 0), a(4, 3, 0), a(5, 0, 0), a(5, 4, 0), a(6, 0, 15), a(6, 4, 15)],
        edges: vec![e(0, 2, false), e(1, 3, false), e(2, 4, true), e(3, 5, true), e(4, 6, true), e(5, 6, true), e(6, 8, true), e(6, 7, true), e(7, 9, true), e(8, 10, true), e(9, 11, false), e(10, 12, false)],
        ink_bits: vec![68, 244, 528],
    }
}

/// The v1 master's `Y`: its anchors and edges.
pub open spec fn v1_y_spec() -> (Seq<Anchor>, Seq<Edge>) {
    (seq![sa(0, 0, 15), sa(0, 4, 15), sa(1, 0, 15), sa(1, 4, 15), sa(2, 0, 0), sa(2, 4, 0), sa(3, 1, 0), sa(3, 3, 0), sa(4, 2, 0), sa(5, 2, 15), sa(6, 2, 15)],
     seq![se(0, 2, false), se(1, 3, false), se(2, 4, false), se(3, 5, false), se(4, 6, true), se(5, 7, true), se(6, 8, true), se(7, 8, true), se(8, 9, false), se(9, 10, false)])
}

fn v1_y() -> (g: Glyph)
    ensures
        g.ch == 'Y' && (g.anchors@, g.edges@) == v1_y_spec(),
{
    Glyph {
        ch: 'Y',
        anchors: vec![a(0, 0, 15), a(0, 4, 15), a(1, 0, 15), a(1, 4, 15), a(2, 0, 0), a(2, 4, 0), a(3, 1, 0), a(3, 3, 0), a(4, 2, 0), a(5, 2, 15), a(6, 2, 15)],
        edges: vec![e(0, 2, false), e(1, 3, false), e(2, 4, false), e(3, 5, false), e(4, 6, true), e(5, 7, true), e(6, 8, true), e(7, 8, true), e(8, 9, false), e(9, 10, false)],
        ink_bits: vec![52, 194, 426],
    }
}

/// The v1 master's `Z`: its anchors and edges.
pub open spec fn v1_z_spec() -> (Seq<Anchor>, Seq<Edge>) {
    (seq![sa(0, 0, 15), sa(0, 1, 15), sa(0, 2, 15), sa(0, 3, 15), sa(0, 4, 15), sa(1, 4, 0), sa(2, 3, 0), sa(3, 2, 0), sa(4, 1, 0), sa(5, 0, 0), sa(6, 0, 15), sa(6, 1, 15), sa(6, 2, 15), sa(6, 3, 15), sa(6, 4, 15)],
     seq![se(0, 1, false), se(1, 2, false), se(2, 3, false), se(3, 4, false), se(4, 5, false), se(5, 6, true), se(6, 7, true), se(7, 8, true), se(8, 9, true), se(9, 10, false), se(10, 11, false), se(11, 12, false), se(12, 13, false), se(13, 14, false)])
}

fn v1_z() -> (g: Glyph)
    ensures
        g.ch == 'Z' && (g.anchors@, g.edges@) == v1_z_spec(),
{
    Glyph {
        ch: 'Z',
        anchors: vec![a(0, 0, 15), a(0, 1, 15), a(0, 2, 15), a(0, 3, 15), a(0, 4, 15), a(1, 4, 0), a(2, 3, 0), a(3, 2, 0), a(4, 1, 0), a(5, 0, 0), a(6, 0, 15), a(6, 1, 15), a(6, 2, 15), a(6, 3, 15), a(6, 4, 15)],
        edges: vec![e(0, 1, false), e(1, 2, false), e(2, 3, false), e(3, 4, false), e(4, 5, false), e(5, 6, true), e(6, 7, true), e(7, 8, true), e(8, 9, true), e(9, 10, false), e(10, 11, false), e(11, 12, false), e(12, 13, false), e(13, 14, false)],
        ink_bits: vec![68, 256, 564],
    }
}

/// The v1 master's glyph for `c`, if the font covers it.
pub open spec fn font_v1(c: char) -> Option<(Seq<Anchor>, Seq<Edge>)> {
    if c == '2' {
        Some(v1_2_spec())
    } else if c == '3' {
        Some(v1_3_spec())
    } else if c == '4' {
        Some(v1_4_spec())
    } else if c == '5' {
        Some(v1_5_spec())
    } else if c == '6' {
        Some(v1_6_spec())
    } else if c == '7' {
        Some(v1_7_spec())
    } else if c == '8' {
        Some(v1_8_spec())
    } else if c == '9' {
        Some(v1_9_spec())
    } else if c == 'A' {
        Some(v1_a_spec())
    } else if c == 'B' {
        Some(v1_b_spec())
    } else if c == 'C' {
        Some(v1_c_spec())
    } else if c == 'D' {
        Some(v1_d_spec())
    } else if c == 'E' {
        Some(v1_e_spec())
    } else if c == 'F' {
        Some(v1_f_spec())
    } else if c == 'G' {
        Some(v1_g_spec())
    } else if c == 'H' {
        Some(v1_h_spec())
    } else if c == 'J' {
        Some(v1_j_spec())
    } else if c == 'K' {
        Some(v1_k_spec())
    } else if c == 'M' {
        Some(v1_m_spec())
    } else if c == 'N' {
        Some(v1_n_spec())
    } else if c == 'P' {
        Some(v1_p_spec())
    } else if c == 'Q' {
        Some(v1_q_spec())
    } else if c == 'R' {
        Some(v1_r_spec())
    } else if c == 'S' {
        Some(v1_s_spec())
    } else if c == 'T' {
        Some(v1_t_spec())
    } else if c == 'U' {
        Some(v1_u_spec())
    } else if c == 'V' {
        Some(v1_v_spec())
    } else if c == 'W' {
        Some(v1_w_spec())
    } else if c == 'X' {
        Some(v1_x_spec())
    } else if c == 'Y' {
        Some(v1_y_spec())
    } else if c == 'Z' {
        Some(v1_z_spec())
    } else {
        None
    }
}

/// The v1 master's record for `c`, or `None` outside the nano14 alphabet.
pub fn glyph_v1(c: char) -> (r: Option<Glyph>)
    ensures
        match font_v1(c) {
            Some(d) => r matches Some(g) && g.ch == c && (g.anchors@, g.edges@) == d,
            None => r is None,
        },
{
    if c == '2' {
        Some(v1_2())
    } else if c == '3' {
        Some(v1_3())
    } else if c == '4' {
        Some(v1_4())
    } else if c == '5' {
        Some(v1_5())
    } else if c == '6' {
        Some(v1_6())
    } else if c == '7' {
        Some(v1_7())
    } else if c == '8' {
        Some(v1_8())
    } else if c == '9' {
        Some(v1_9())
    } else if c == 'A' {
        Some(v1_a())
    } else if c == 'B' {
        Some(v1_b())
    } else if c == 'C' {
        Some(v1_c())
    } else if c == 'D' {
        Some(v1_d())
    } else if c == 'E' {
        Some(v1_e())
    } else if c == 'F' {
        Some(v1_f())
    } else if c == 'G' {
        Some(v1_g())
    } else if c == 'H' {
        Some(v1_h())
    } else if c == 'J' {
        Some(v1_j())
    } else if c == 'K' {
        Some(v1_k())
    } else if c == 'M' {
        Some(v1_m())
    } else if c == 'N' {
        Some(v1_n())
    } else if c == 'P' {
        Some(v1_p())
    } else if c == 'Q' {
        Some(v1_q())
    } else if c == 'R' {
        Some(v1_r())
    } else if c == 'S' {
        Some(v1_s())
    } else if c == 'T' {
        Some(v1_t())
    } else if c == 'U' {
        Some(v1_u())
    } else if c == 'V' {
        Some(v1_v())
    } else if c == 'W' {
        Some(v1_w())
    } else if c == 'X' {
        Some(v1_x())
    } else if c == 'Y' {
        Some(v1_y())
    } else if c == 'Z' {
        Some(v1_z())
    } else {
        None
    }
}

/// The v2 master's `2`: its anchors and edges.
pub open spec fn v2_2_spec() -> (Seq<Anchor>, Seq<Edge>) {
    (seq![sa(0, 1, 15), sa(0, 2, 15), sa(0, 3, 15), sa(1, 0, 15), sa(1, 4, 15), sa(2, 4, 15), sa(3, 2, 15), sa(3, 3, 15), sa(4, 1, 0), sa(5, 0, 1), sa(6, 0, 15), sa(6, 1, 15), sa(6, 2, 15), sa(6, 3, 15), sa(6, 4, 15)],
     seq![se(0, 1, false), se(0, 3, true), se(1, 2, false), se(2, 4, true), se(4, 5, false), se(5, 7, true), se(6, 7, false), se(6, 8, true), se(8, 9, true), se(9, 10, false), se(10, 11, false), se(11, 12, false), se(12, 13, false), se(13, 14, false)])
}

fn v2_2() -> (g: Glyph)
    ensures
        g.ch == '2' && (g.anchors@, g.edges@) == v2_2_spec(),
{
    Glyph {
        ch: '2',
        anchors: vec![a(0, 1, 15), a(0, 2, 15), a(0, 3, 15), a(1, 0, 15), a(1, 4, 15), a(2, 4, 15), a(3, 2, 15), a(3, 3, 15), a(4, 1, 0), a(5, 0, 1), a(6, 0, 15), a(6, 1, 15), a(6, 2, 15), a(6, 3, 15), a(6, 4, 15)],
        edges: vec![e(0, 1, false), e(0, 3, true), e(1, 2, false), e(2, 4, true), e(4, 5, false), e(5, 7, true), e(6, 7, false), e(6, 8, true), e(8, 9, true), e(9, 10, false), e(10, 11, false), e(11, 12, false), e(12, 13, false), e(13, 14, false)],
        ink_bits: vec![165, 475],
    }
}

/// The v2 master's `3`: its anchors and edges.
pub open spec fn v2_3_spec() -> (Seq<Anchor>, Seq<Edge>) {
    (seq![sa(0, 0, 15), sa(0, 1, 15), sa(0, 2, 15), sa(0, 3, 15), sa(0, 4, 15), sa(1, 3, 0), sa(2, 2, 15), sa(3, 3, 0), sa(4, 4, 15), sa(5, 0, 15), sa(5, 4, 15), sa(6, 1, 15), sa(6, 2, 15), sa(6, 3, 15)],
     seq![se(0, 1, false), se(1, 2, false), se(2, 3, false), se(3, 4, false), se(4, 5, true), se(5, 6, true), se(6, 7, true), se(7, 8, true), se(8, 10, false), se(9, 11, true), se(10, 13, true), se(11, 12, false), se(12, 13, false)])
}

fn v2_3() -> (g: Glyph)
    ensures
        g.ch == '3' && (g.anchors@, g.edges@) == v2_3_spec(),
{
    Glyph {
        ch: '3',
        anchors: vec![a(0, 0, 15), a(0, 1, 15), a(0, 2, 15), a(0, 3, 15), a(0, 4, 15), a(1, 3, 0), a(2, 2, 15), a(3, 3, 0), a(4, 4, 15), a(5, 0, 15), a(5, 4, 15), a(6, 1, 15), a(6, 2, 15), a(6, 3, 15)],
        edges: vec![e(0, 1, false), e(1, 2, false), e(2, 3, false), e(3, 4, false), e(4, 5, true), e(5, 6, true), e(6, 7, true), e(7, 8, true), e(8, 10, false), e(9, 11, true), e(10, 13, true), e(11, 12, false), e(12, 13, false)],
        ink_bits: vec![158, 456],
    }
}

/// The v2 master's `4`: its anchors and edges.
pub open spec fn v2_4_spec() -> (Seq<Anchor>, Seq<Edge>) {
    (seq![sa(0, 3, 15), sa(1, 2, 0), sa(1, 3, 15), sa(2, 1, 0), sa(2, 3, 15), sa(3, 0, 15), sa(3, 3, 15), sa(4, 0, 15), sa(4, 1, 15), sa(4, 2, 15), sa(4, 3, 15), sa(4, 4, 15), sa(5, 3, 15), sa(6, 3, 15)],
     seq![se(0, 2, false), se(0, 1, true), se(1, 3, true), se(2, 4, false), se(3, 5, true), se(4, 6, false), se(5, 7, false), se(6, 10, false), se(7, 8, false), se(8, 9, false), se(9, 10, false), se(10, 11, false), se(10, 12, false), se(12, 13, false)])
}

fn v2_4() -> (g: Glyph)
    ensures
        g.ch == '4' && (g.anchors@, g.edges@) == v2_4_spec(),
{
    Glyph {
        ch: '4',
        anchors: vec![a(0, 3, 15), a(1, 2, 0), a(1, 3, 15), a(2, 1, 0), a(2, 3, 15), a(3, 0, 15), a(3, 3, 15), a(4, 0, 15), a(4, 1, 15), a(4, 2, 15), a(4, 3, 15), a(4, 4, 15), a(5, 3, 15), a(6, 3, 15)],
        edges: vec![e(0, 2, false), e(0, 1, true), e(1, 3, true), e(2, 4, false), e(3, 5, true), e(4, 6, false), e(5, 7, false), e(6, 10, false), e(7, 8, false), e(8, 9, false), e(9, 10, false), e(10, 11, false), e(10, 12, false), e(12, 13, false)],
        ink_bits: vec![141, 400],
    }
}

/// The v2 master's `5`: its anchors and edges.
pub open spec fn v2_5_spec() -> (Seq<Anchor>, Seq<Edge>) {
    (seq![sa(0, 0, 15), sa(0, 1, 15), sa(0, 2, 15), sa(0, 3, 15), sa(0, 4, 15), sa(1, 0, 15), sa(2, 0, 15), sa(2, 1, 15), sa(2, 2, 15), sa(2, 3, 15), sa(3, 4, 15), sa(4, 4, 15), sa(5, 0, 0), sa(5, 4, 15), sa(6, 1, 15), sa(6, 2, 15), sa(6, 3, 15)],
     seq![se(0, 1, false), se(0, 5, false), se(1, 2, false), se(2, 3, false), se(3, 4, false), se(5, 6, false), se(6, 7, false), se(7, 8, false), se(8, 9, false), se(9, 10, true), se(10, 11, false), se(11, 13, false), se(12, 14, true), se(13, 16, true), se(14, 15, false), se(15, 16, false)])
}

fn v2_5() -> (g: Glyph)
    ensures
        g.ch == '5' && (g.anchors@, g.edges@) == v2_5_spec(),
{
    Glyph {
        ch: '5',
        anchors: vec![a(0, 0, 15), a(0, 1, 15), a(0, 2, 15), a(0, 3, 15), a(0, 4, 15), a(1, 0, 15), a(2, 0, 15), a(2, 1, 15), a(2, 2, 15), a(2, 3, 15), a(3, 4, 15), a(4, 4, 15), a(5, 0, 0), a(5, 4, 15), a(6, 1, 15), a(6, 2, 15), a(6, 3, 15)],
        edges: vec![e(0, 1, false), e(0, 5, false), e(1, 2, false), e(2, 3, false), e(3, 4, false), e(5, 6, false), e(6, 7, false), e(7, 8, false), e(8, 9, false), e(9, 10, true), e(10, 11, false), e(11, 13, false), e(12, 14, true), e(13, 16, true), e(14, 15, false), e(15, 16, false)],
        ink_bits: vec![168, 475],
    }
}

/// The v2 master's `6`: its anchors and edges.
pub open spec fn v2_6_spec() -> (Seq<Anchor>, Seq<Edge>) {
    (seq![sa(0, 2, 15), sa(0, 3, 15), sa(1, 1, 0), sa(2, 0, 15), sa(3, 0, 15), sa(3, 1, 15), sa(3, 2, 15), sa(3, 3, 15), sa(4, 0, 15), sa(4, 4, 15), sa(5, 0, 15), sa(5, 4, 15), sa(6, 1, 15), sa(6, 2, 15), sa(6, 3, 15)],
     seq![se(0, 1, false), se(0, 2, true), se(2, 3, true), se(3, 4, false), se(4, 5, false), se(4, 8, false), se(5, 6, false), se(6, 7, false), se(7, 9, true), se(8, 10, false), se(9, 11, false), se(10, 12, true), se(11, 14, true), se(12, 13, false), se(13, 14, false)])
}

fn v2_6() -> (g: Glyph)
    ensures
        g.ch == '6' && (g.anchors@, g.edges@) == v2_6_spec(),
{
    Glyph {
        ch: '6',
        anchors: vec![a(0, 2, 15), a(0, 3, 15), a(1, 1, 0), a(2, 0, 15), a(3, 0, 15), a(3, 1, 15), a(3, 2, 15), a(3, 3, 15), a(4, 0, 15), a(4, 4, 15), a(5, 0, 15), a(5, 4, 15), a(6, 1, 15), a(6, 2, 15), a(6, 3, 15)],
        edges: vec![e(0, 1, false), e(0, 2, true), e(2, 3, true), e(3, 4, false), e(4, 5, false), e(4, 8, false), e(5, 6, false), e(6, 7, false), e(7, 9, true), e(8, 10, false), e(9, 11, false), e(10, 12, true), e(11, 14, true), e(12, 13, false), e(13, 14, false)],
        ink_bits: vec![165, 475],
    }
}

/// The v2 master's `7`: its anchors and edges.
pub open spec fn v2_7_spec() -> (Seq<Anchor>, Seq<Edge>) {
    (seq![sa(0, 0, 15), sa(0, 1, 15), sa(0, 2, 15), sa(0, 3, 15), sa(0, 4, 15), sa(1, 4, 15), sa(2, 3, 0), sa(3, 2, 0), sa(4, 1, 15), sa(5, 1, 15), sa(6, 1, 15)],
     seq![se(0, 1, false), se(1, 2, false), se(2, 3, false), se(3, 4, false), se(4, 5, false), se(5, 6, true), se(6, 7, true), se(7, 8, true), se(8, 9, false), se(9, 10, false)])
}

fn v2_7() -> (g: Glyph)
    ensures
        g.ch == '7' && (g.anchors@, g.edges@) == v2_7_spec(),
{
    Glyph {
        ch: '7',
        anchors: vec![a(0, 0, 15), a(0, 1, 15), a(0, 2, 15), a(0, 3, 15), a(0, 4, 15), a(1, 4, 15), a(2, 3, 0), a(3, 2, 0), a(4, 1, 15), a(5, 1, 15), a(6, 1, 15)],
        edges: vec![e(0, 1, false), e(1, 2, false), e(2, 3, false), e(3, 4, false), e(4, 5, false), e(5, 6, true), e(6, 7, true), e(7, 8, true), e(8, 9, false), e(9, 10, false)],
        ink_bits: vec![117, 335],
    }
}

/// The v2 master's `8`: its anchors and edges.
pub open spec fn v2_8_spec() -> (Seq<Anchor>, Seq<Edge>) {
    (seq![sa(0, 1, 15), sa(0, 2, 15), sa(0, 3, 15), sa(1, 0, 15), sa(1, 4, 15), sa(2, 0, 15), sa(2, 4, 15), sa(3, 1, 0), sa(3, 2, 15), sa(3, 3, 0), sa(4, 0, 15), sa(4, 4, 15), sa(5, 0, 15), sa(5, 4, 15), sa(6, 1, 15), sa(6, 2, 15), sa(6, 3, 15)],
     seq![se(0, 1, false), se(0, 3, true), se(1, 2, false), se(2, 4, true), se(3, 5, false), se(4, 6, false), se(5, 7, true), se(6, 9, true), se(7, 8, false), se(7, 10, true), se(8, 9, false), se(9, 11, true), se(10, 12, false), se(11, 13, false), se(12, 14, true), se(13, 16, true), se(14, 15, false), se(15, 16, false)])
}

fn v2_8() -> (g: Glyph)
    ensures
        g.ch == '8' && (g.anchors@, g.edges@) == v2_8_spec(),
{
    Glyph {
        ch: '8',
        anchors: vec![a(0, 1, 15), a(0, 2, 15), a(0, 3, 15), a(1, 0, 15), a(1, 4, 15), a(2, 0, 15), a(2, 4, 15), a(3, 1, 0), a(3, 2, 15), a(3, 3, 0), a(4, 0, 15), a(4, 4, 15), a(5, 0, 15), a(5, 4, 15), a(6, 1, 15), a(6, 2, 15), a(6, 3, 15)],
        edges: vec![e(0, 1, false), e(0, 3, true), e(1, 2, false), e(2, 4, true), e(3, 5, false), e(4, 6, false), e(5, 7, true), e(6, 9, true), e(7, 8, false), e(7, 10, true), e(8, 9, false), e(9, 11, true), e(10, 12, false), e(11, 13, false), e(12, 14, true), e(13, 16, true), e(14, 15, false), e(15, 16, false)],
        ink_bits: vec![199, 577],
    }
}

/// The v2 master's `9`: its anchors and edges.
pub open spec fn v2_9_spec() -> (Seq<Anchor>, Seq<Edge>) {
    (seq![sa(0, 1, 15), sa(0, 2, 15), sa(0, 3, 15), sa(1, 0, 15), sa(1, 4, 15), sa(2, 0, 15), sa(2, 4, 15), sa(3, 1, 15), sa(3, 2, 15), sa(3, 3, 15), sa(3, 4, 15), sa(4, 4, 15), sa(5, 3, 0), sa(6, 1, 15), sa(6, 2, 15)],
     seq![se(0, 1, false), se(0, 3, true), se(1, 2, false), se(2, 4, true), se(3, 5, false), se(4, 6, false), se(5, 7, true), se(6, 10, false), se(7, 8, false), se(8, 9, false), se(9, 10, false), se(10, 11, false), se(11, 12, true), se(12, 14, true), se(13, 14, false)])
}

fn v2_9() -> (g: Glyph)
    ensures
        g.ch == '9' && (g.anchors@, g.edges@) == v2_9_spec(),
{
    Glyph {
        ch: '9',
        anchors: vec![a(0, 1, 15), a(0, 2, 15), a(0, 3, 15), a(1, 0, 15), a(1, 4, 15), a(2, 0, 15), a(2, 4, 15), a(3, 1, 15), a(3, 2, 15), a(3, 3, 15), a(3, 4, 15), a(4, 4, 15), a(5, 3, 0), a(6, 1, 15), a(6, 2, 15)],
        edges: vec![e(0, 1, false), e(0, 3, true), e(1, 2, false), e(2, 4, true), e(3, 5, false), e(4, 6, false), e(5, 7, true), e(6, 10, false), e(7, 8, false), e(8, 9, false), e(9, 10, false), e(10, 11, false), e(11, 12, true), e(12, 14, true), e(13, 14, false)],
        ink_bits: vec![165, 475],
    }
}

/// The v2 master's `A`: its anchors and edges.
pub open spec fn v2_a_spec() -> (Seq<Anchor>, Seq<Edge>) {
    (seq![sa(0, 1, 15), sa(0, 2, 15), sa(0, 3, 15), sa(1, 0, 15), sa(1, 4, 15), sa(2, 0, 15), sa(2, 4, 15), sa(3, 0, 15), sa(3, 4, 15), sa(4, 0, 15), sa(4, 1, 15), sa(4, 2, 15), sa(4, 3, 15), sa(4, 4, 15), sa(5, 0, 15), sa(5, 4, 15), sa(6, 0, 15), sa(6, 4, 15)],
     seq![se(0, 1, false), se(0, 3, true), se(1, 2, false), se(2, 4, true), se(3, 5, false), se(4, 6, false), se(5, 7, false), se(6, 8, false), se(7, 9, false), se(8, 13, false), se(9, 10, false), se(9, 14, false), se(10, 11, false), se(11, 12, false), se(12, 13, false), se(13, 15, false), se(14, 16, false), se(15, 17, false)])
}

fn v2_a() -> (g: Glyph)
    ensures
        g.ch == 'A' && (g.anchors@, g.edges@) == v2_a_spec(),
{
    Glyph {
        ch: 'A',
        anchors: vec![a(0, 1, 15), a(0, 2, 15), a(0, 3, 15), a(1, 0, 15), a(1, 4, 15), a(2, 0, 15), a(2, 4, 15), a(3, 0, 15), a(3, 4, 15), a(4, 0, 15), a(4, 1, 15), a(4, 2, 15), a(4, 3, 15), a(4, 4, 15), a(5, 0, 15), a(5, 4, 15), a(6, 0, 15), a(6, 4, 15)],
        edges: vec![e(0, 1, false), e(0, 3, true), e(1, 2, false), e(2, 4, true), e(3, 5, false), e(4, 6, false), e(5, 7, false), e(6, 8, false), e(7, 9, false), e(8, 13, false), e(9, 10, false), e(9, 14, false), e(10, 11, false), e(11, 12, false), e(12, 13, false), e(13, 15, false), e(14, 16, false), e(15, 17, false)],
        ink_bits: vec![174, 490],
    }
}

/// The v2 master's `B`: its anchors and edges.
pub open spec fn v2_b_spec() -> (Seq<Anchor>, Seq<Edge>) {
    (seq![sa(0, 0, 15), sa(0, 1, 15), sa(0, 2, 15), sa(0, 3, 15), sa(1, 0, 15), sa(1, 4, 15), sa(2, 0, 15), sa(2, 4, 15), sa(3, 0, 15), sa(3, 1, 15), sa(3, 2, 15), sa(3, 3, 0), sa(4, 0, 15), sa(4, 4, 15), sa(5, 0, 15), sa(5, 4, 15), sa(6, 0, 15), sa(6, 1, 15), sa(6, 2, 15), sa(6, 3, 15)],
     seq![se(0, 1, false), se(0, 4, false), se(1, 2, false), se(2, 3, false), se(3, 5, true), se(4, 6, false), se(5, 7, false), se(6, 8, false), se(7, 11, true), se(8, 9, false), se(8, 12, false), se(9, 10, false), se(10, 11, false), se(11, 13, true), se(12, 14, false), se(13, 15, false), se(14, 16, false), se(15, 19, true), se(16, 17, false), se(17, 18, false), se(18, 19, false)])
}

fn v2_b() -> (g: Glyph)
    ensures
        g.ch == 'B' && (g.anchors@, g.edges@) == v2_b_spec(),
{
    Glyph {
        ch: 'B',
        anchors: vec![a(0, 0, 15), a(0, 1, 15), a(0, 2, 15), a(0, 3, 15), a(1, 0, 15), a(1, 4, 15), a(2, 0, 15), a(2, 4, 15), a(3, 0, 15), a(3, 1, 15), a(3, 2, 15), a(3, 3, 0), a(4, 0, 15), a(4, 4, 15), a(5, 0, 15), a(5, 4, 15), a(6, 0, 15), a(6, 1, 15), a(6, 2, 15), a(6, 3, 15)],
        edges: vec![e(0, 1, false), e(0, 4, false), e(1, 2, false), e(2, 3, false), e(3, 5, true), e(4, 6, false), e(5, 7, false), e(6, 8, false), e(7, 11, true), e(8, 9, false), e(8, 12, false), e(9, 10, false), e(10, 11, false), e(11, 13, true), e(12, 14, false), e(13, 15, false), e(14, 16, false), e(15, 19, true), e(16, 17, false), e(17, 18, false), e(18, 19, false)],
        ink_bits: vec![203, 576],
    }
}

/// The v2 master's `C`: its anchors and edges.
pub open spec fn v2_c_spec() -> (Seq<Anchor>, Seq<Edge>) {
    (seq![sa(0, 1, 15), sa(0, 2, 15), sa(0, 3, 15), sa(1, 0, 15), sa(1, 4, 15), sa(2, 0, 15), sa(3, 0, 15), sa(4, 0, 15), sa(5, 0, 15), sa(5, 4, 15), sa(6, 1, 15), sa(6, 2, 15), sa(6, 3, 15)],
     seq![se(0, 1, false), se(0, 3, true), se(1, 2, false), se(2, 4, true), se(3, 5, false), se(5, 6, false), se(6, 7, false), se(7, 8, false), se(8, 10, true), se(9, 12, true), se(10, 11, false), se(11, 12, false)])
}

fn v2_c() -> (g: Glyph)
    ensures
        g.ch == 'C' && (g.anchors@, g.edges@) == v2_c_spec(),
{
    Glyph {
        ch: 'C',
        anchors: vec![a(0, 1, 15), a(0, 2, 15), a(0, 3, 15), a(1, 0, 15), a(1, 4, 15), a(2, 0, 15), a(3, 0, 15), a(4, 0, 15), a(5, 0, 15), a(5, 4, 15), a(6, 1, 15), a(6, 2, 15), a(6, 3, 15)],
        edges: vec![e(0, 1, false), e(0, 3, true), e(1, 2, false), e(2, 4, true), e(3, 5, false), e(5, 6, false), e(6, 7, false), e(7, 8, false), e(8, 10, true), e(9, 12, true), e(10, 11, false), e(11, 12, false)],
        ink_bits: vec![141, 405],
    }
}

/// The v2 master's `D`: its anchors and edges.
pub open spec fn v2_d_spec() -> (Seq<Anchor>, Seq<Edge>) {
    (seq![sa(0, 0, 15), sa(0, 1, 15), sa(0, 2, 15), sa(1, 0, 15), sa(1, 3, 0), sa(2, 0, 15), sa(2, 4, 15), sa(3, 0, 15), sa(3, 4, 15), sa(4, 0, 15), sa(4, 4, 15), sa(5, 0, 15), sa(5, 3, 0), sa(6, 0, 15), sa(6, 1, 15), sa(6, 2, 15)],
     seq![se(0, 1, false), se(0, 3, false), se(1, 2, false), se(2, 4, true), se(3, 5, false), se(4, 6, true), se(5, 7, false), se(6, 8, false), se(7, 9, false), se(8, 10, false), se(9, 11, false), se(10, 12, true), se(11, 13, false), se(12, 15, true), se(13, 14, false), se(14, 15, false)])
}

fn v2_d() -> (g: Glyph)
    ensures
        g.ch == 'D' && (g.anchors@, g.edges@) == v2_d_spec(),
{
    Glyph {
        ch: 'D',
        anchors: vec![a(0, 0, 15), a(0, 1, 15), a(0, 2, 15), a(1, 0, 15), a(1, 3, 0), a(2, 0, 15), a(2, 4, 15), a(3, 0, 15), a(3, 4, 15), a(4, 0, 15), a(4, 4, 15), a(5, 0, 15), a(5, 3, 0), a(6, 0, 15), a(6, 1, 15), a(6, 2, 15)],
        edges: vec![e(0, 1, false), e(0, 3, false), e(1, 2, false), e(2, 4, true), e(3, 5, false), e(4, 6, true), e(5, 7, false), e(6, 8, false), e(7, 9, false), e(8, 10, false), e(9, 11, false), e(10, 12, true), e(11, 13, false), e(12, 15, true), e(13, 14, false), e(14, 15, false)],
        ink_bits: vec![168, 480],
    }
}

/// The v2 master's `E`: its anchors and edges.
pub open spec fn v2_e_spec() -> (Seq<Anchor>, Seq<Edge>) {
    (seq![sa(0, 0, 15), sa(0, 1, 15), sa(0, 2, 15), sa(0, 3, 15), sa(0, 4, 15), sa(1, 0, 15), sa(2, 0, 15), sa(3, 0, 15), sa(3, 1, 15), sa(3, 2, 15), sa(3, 3, 15), sa(4, 0, 15), sa(5, 0, 15), sa(6, 0, 15), sa(6, 1, 15), sa(6, 2, 15), sa(6, 3, 15), sa(6, 4, 15)],
     seq![se(0, 1, false), se(0, 5, false), se(1, 2, false), se(2, 3, false), se(3, 4, false), se(5, 6, false), se(6, 7, false), se(7, 8, false), se(7, 11, false), se(8, 9, false), se(9, 10, false), se(11, 12, false), se(12, 13, false), se(13, 14, false), se(14, 15, false), se(15, 16, false), se(16, 17, false)])
}

fn v2_e() -> (g: Glyph)
    ensures
        g.ch == 'E' && (g.anchors@, g.edges@) == v2_e_spec(),
{
    Glyph {
        ch: 'E',
        anchors: vec![a(0, 0, 15), a(0, 1, 15), a(0, 2, 15), a(0, 3, 15), a(0, 4, 15), a(1, 0, 15), a(2, 0, 15), a(3, 0, 15), a(3, 1, 15), a(3, 2, 15), a(3, 3, 15), a(4, 0, 15), a(5, 0, 15), a(6, 0, 15), a(6, 1, 15), a(6, 2, 15), a(6, 3, 15), a(6, 4, 15)],
        edges: vec![e(0, 1, false), e(0, 5, false), e(1, 2, false), e(2, 3, false), e(3, 4, false), e(5, 6, false), e(6, 7, false), e(7, 8, false), e(7, 11, false), e(8, 9, false), e(9, 10, false), e(11, 12, false), e(12, 13, false), e(13, 14, false), e(14, 15, false), e(15, 16, false), e(16, 17, false)],
        ink_bits: vec![162, 450],
    }
}

/// The v2 master's `F`: its anchors and edges.
pub open spec fn v2_f_spec() -> (Seq<Anchor>, Seq<Edge>) {
    (seq![sa(0, 0, 15), sa(0, 1, 15), sa(0, 2, 15), sa(0, 3, 15), sa(0, 4, 15), sa(1, 0, 15), sa(2, 0, 15), sa(3, 0, 15), sa(3, 1, 15), sa(3, 2, 15), sa(3, 3, 15), sa(4, 0, 15), sa(5, 0, 15), sa(6, 0, 15)],
     seq![se(0, 1, false), se(0, 5, false), se(1, 2, false), se(2, 3, false), se(3, 4, false), se(5, 6, false), se(6, 7, false), se(7, 8, false), se(7, 11, false), se(8, 9, false), se(9, 10, false), se(11, 12, false), se(12, 13, false)])
}

fn v2_f() -> (g: Glyph)
    ensures
        g.ch == 'F' && (g.anchors@, g.edges@) == v2_f_spec(),
{
    Glyph {
        ch: 'F',
        anchors: vec![a(0, 0, 15), a(0, 1, 15), a(0, 2, 15), a(0, 3, 15), a(0, 4, 15), a(1, 0, 15), a(2, 0, 15), a(3, 0, 15), a(3, 1, 15), a(3, 2, 15), a(3, 3, 15), a(4, 0, 15), a(5, 0, 15), a(6, 0, 15)],
        edges: vec![e(0, 1, false), e(0, 5, false), e(1, 2, false), e(2, 3, false), e(3, 4, false), e(5, 6, false), e(6, 7, false), e(7, 8, false), e(7, 11, false), e(8, 9, false), e(9, 10, false), e(11, 12, false), e(12, 13, false)],
        ink_bits: vec![126, 350],
    }
}

/// The v2 master's `G`: its anchors and edges.
pub open spec fn v2_g_spec() -> (Seq<Anchor>, Seq<Edge>) {
    (seq![sa(0, 1, 15), sa(0, 2, 15), sa(0, 3, 15), sa(1, 0, 15), sa(1, 4, 15), sa(2, 0, 15), sa(3, 0, 15), sa(3, 2, 15), sa(3, 3, 15), sa(3, 4, 15), sa(4, 0, 15), sa(4, 4, 15), sa(5, 0, 15), sa(5, 4, 15), sa(6, 1, 15), sa(6, 2, 15), sa(6, 3, 15), sa(6, 4, 15)],
     seq![se(0, 1, false), se(0, 3, true), se(1, 2, false), se(2, 4, true), se(3, 5, false), se(5, 6, false), se(6, 10, false), se(7, 8, false), se(8, 9, false), se(9, 11, false), se(10, 12, false), se(11, 13, false), se(12, 14, true), se(13, 17, false), se(14, 15, false), se(15, 16, false), se(16, 17, false)])
}

fn v2_g() -> (g: Glyph)
    ensures
        g.ch == 'G' && (g.anchors@, g.edges@) == v2_g_spec(),
{
    Glyph {
        ch: 'G',
        anchors: vec![a(0, 1, 15), a(0, 2, 15), a(0, 3, 15), a(1, 0, 15), a(1, 4, 15), a(2, 0, 15), a(3, 0, 15), a(3, 2, 15), a(3, 3, 15), a(3, 4, 15), a(4, 0, 15), a(4, 4, 15), a(5, 0, 15), a(5, 4, 15), a(6, 1, 15), a(6, 2, 15), a(6, 3, 15), a(6, 4, 15)],
        edges: vec![e(0, 1, false), e(0, 3, true), e(1, 2, false), e(2, 4, true), e(3, 5, false), e(5, 6, false), e(6, 10, false), e(7, 8, false), e(8, 9, false), e(9, 11, false), e(10, 12, false), e(11, 13, false), e(12, 14, true), e(13, 17, false), e(14, 15, false), e(15, 16, false), e(16, 17, false)],
        ink_bits: vec![180, 510],
    }
}

/// The v2 master's `H`: its anchors and edges.
pub open spec fn v2_h_spec() -> (Seq<Anchor>, Seq<Edge>) {
    (seq![sa(0, 0, 15), sa(0, 4, 15), sa(1, 0, 15), sa(1, 4, 15), sa(2, 0, 15), sa(2, 4, 15), sa(3, 0, 15), sa(3, 1, 15), sa(3, 2, 15), sa(3, 3, 15), sa(3, 4, 15), sa(4, 0, 15), sa(4, 4, 15), sa(5, 0, 15), sa(5, 4, 15), sa(6, 0, 15), sa(6, 4, 15)],
     seq![se(0, 2, false), se(1, 3, false), se(2, 4, false), se(3, 5, false), se(4, 6, false), se(5, 10, false), se(6, 7, false), se(6, 11, false), se(7, 8, false), se(8, 9, false), se(9, 10, false), se(10, 12, false), se(11, 13, false), se(12, 14, false), se(13, 15, false), se(14, 16, false)])
}

fn v2_h() -> (g: Glyph)
    ensures
        g.ch == 'H' && (g.anchors@, g.edges@) == v2_h_spec(),
{
    Glyph {
        ch: 'H',
        anchors: vec![a(0, 0, 15), a(0, 4, 15), a(1, 0, 15), a(1, 4, 15), a(2, 0, 15), a(2, 4, 15), a(3, 0, 15), a(3, 1, 15), a(3, 2, 15), a(3, 3, 15), a(3, 4, 15), a(4, 0, 15), a(4, 4, 15), a(5, 0, 15), a(5, 4, 15), a(6, 0, 15), a(6, 4, 15)],
        edges: vec![e(0, 2, false), e(1, 3, false), e(2, 4, false), e(3, 5, false), e(4, 6, false), e(5, 10, false), e(6, 7, false), e(6, 11, false), e(7, 8, false), e(8, 9, false), e(9, 10, false), e(10, 12, false), e(11, 13, false), e(12, 14, false), e(13, 15, false), e(14, 16, false)],
        ink_bits: vec![153, 425],
    }
}

/// The v2 master's `J`: its anchors and edges.
pub open spec fn v2_j_spec() -> (Seq<Anchor>, Seq<Edge>) {
    (seq![sa(0, 2, 15), sa(0, 3, 15), sa(0, 4, 15), sa(1, 3, 15), sa(2, 3, 15), sa(3, 3, 15), sa(4, 3, 15), sa(5, 0, 15), sa(5, 3, 15), sa(6, 1, 15), sa(6, 2, 15)],
     seq![se(0, 1, false), se(1, 2, false), se(1, 3, false), se(3, 4, false), se(4, 5, false), se(5, 6, false), se(6, 8, false), se(7, 9, true), se(8, 10, true), se(9, 10, false)])
}

fn v2_j() -> (g: Glyph)
    ensures
        g.ch == 'J' && (g.anchors@, g.edges@) == v2_j_spec(),
{
    Glyph {
        ch: 'J',
        anchors: vec![a(0, 2, 15), a(0, 3, 15), a(0, 4, 15), a(1, 3, 15), a(2, 3, 15), a(3, 3, 15), a(4, 3, 15), a(5, 0, 15), a(5, 3, 15), a(6, 1, 15), a(6, 2, 15)],
        edges: vec![e(0, 1, false), e(1, 2, false), e(1, 3, false), e(3, 4, false), e(4, 5, false), e(5, 6, false), e(6, 8, false), e(7, 9, true), e(8, 10, true), e(9, 10, false)],
        ink_bits: vec![111, 315],
    }
}

/// The v2 master's `K`: its anchors and edges.
pub open spec fn v2_k_spec() -> (Seq<Anchor>, Seq<Edge>) {
    (seq![sa(0, 0, 15), sa(0, 4, 15), sa(1, 0, 15), sa(1, 3, 0), sa(2, 0, 15), sa(2, 2, 0), sa(3, 0, 15), sa(3, 1, 0), sa(4, 0, 15), sa(4, 2, 0), sa(5, 0, 15), sa(5, 3, 0), sa(6, 0, 15), sa(6, 4, 15)],
     seq![se(0, 2, false), se(1, 3, true), se(2, 4, false), se(3, 5, true), se(4, 6, false), se(5, 7, true), se(6, 7, false), se(6, 8, false), se(7, 9, true), se(8, 10, false), se(9, 11, true), se(10, 12, false), se(11, 13, true)])
}

fn v2_k() -> (g: Glyph)
    ensures
        g.ch == 'K' && (g.anchors@, g.edges@) == v2_k_spec(),
{
    Glyph {
        ch: 'K',
        anchors: vec![a(0, 0, 15), a(0, 4, 15), a(1, 0, 15), a(1, 3, 0), a(2, 0, 15), a(2, 2, 0), a(3, 0, 15), a(3, 1, 0), a(4, 0, 15), a(4, 2, 0), a(5, 0, 15), a(5, 3, 0), a(6, 0, 15), a(6, 4, 15)],
        edges: vec![e(0, 2, false), e(1, 3, true), e(2, 4, false), e(3, 5, true), e(4, 6, false), e(5, 7, true), e(6, 7, false), e(6, 8, false), e(7, 9, true), e(8, 10, false), e(9, 11, true), e(10, 12, false), e(11, 13, true)],
        ink_bits: vec![161, 466],
    }
}

/// The v2 master's `M`: its anchors and edges.
pub open spec fn v2_m_spec() -> (Seq<Anchor>, Seq<Edge>) {
    (seq![sa(0, 0, 15), sa(0, 4, 15), sa(1, 0, 15), sa(1, 1, 0), sa(1, 3, 0), sa(1, 4, 15), sa(2, 0, 15), sa(2, 2, 15), sa(2, 4, 15), sa(3, 0, 15), sa(3, 2, 0), sa(3, 4, 15), sa(4, 0, 15), sa(4, 4, 15), sa(5, 0, 15), sa(5, 4, 15), sa(6, 0, 15), sa(6, 4, 15)],
     seq![se(0, 2, false), se(0, 3, true), se(1, 5, false), se(1, 4, true), se(2, 6, false), se(3, 7, true), se(4, 7, true), se(5, 8, false), se(6, 9, false), se(7, 10, false), se(8, 11, false), se(9, 12, false), se(11, 13, false), se(12, 14, false), se(13, 15, false), se(14, 16, false), se(15, 17, false)])
}

fn v2_m() -> (g: Glyph)
    ensures
        g.ch == 'M' && (g.anchors@, g.edges@) == v2_m_spec(),
{
    Glyph {
        ch: 'M',
        anchors: vec![a(0, 0, 15), a(0, 4, 15), a(1, 0, 15), a(1, 1, 0), a(1, 3, 0), a(1, 4, 15), a(2, 0, 15), a(2, 2, 15), a(2, 4, 15), a(3, 0, 15), a(3, 2, 0), a(3, 4, 15), a(4, 0, 15), a(4, 4, 15), a(5, 0, 15), a(5, 4, 15), a(6, 0, 15), a(6, 4, 15)],
        edges: vec![e(0, 2, false), e(0, 3, true), e(1, 5, false), e(1, 4, true), e(2, 6, false), e(3, 7, true), e(4, 7, true), e(5, 8, false), e(6, 9, false), e(7, 10, false), e(8, 11, false), e(9, 12, false), e(11, 13, false), e(12, 14, false), e(13, 15, false), e(14, 16, false), e(15, 17, false)],
        ink_bits: vec![176, 496],
    }
}

/// The v2 master's `N`: its anchors and edges.
pub open spec fn v2_n_spec() -> (Seq<Anchor>, Seq<Edge>) {
    (seq![sa(0, 0, 15), sa(0, 4, 15), sa(1, 0, 0), sa(1, 4, 15), sa(2, 0, 15), sa(2, 1, 0), sa(2, 4, 15), sa(3, 0, 15), sa(3, 2, 0), sa(3, 4, 15), sa(4, 0, 15), sa(4, 3, 0), sa(4, 4, 15), sa(5, 0, 15), sa(5, 4, 0), sa(6, 0, 15), sa(6, 4, 15)],
     seq![se(0, 2, false), se(1, 3, false), se(2, 4, false), se(2, 5, true), se(3, 6, false), se(4, 7, false), se(5, 8, true), se(6, 9, false), se(7, 10, false), se(8, 11, true), se(9, 12, false), se(10, 13, false), se(11, 14, true), se(12, 14, false), se(13, 15, false), se(14, 16, false)])
}

fn v2_n() -> (g: Glyph)
    ensures
        g.ch == 'N' && (g.anchors@, g.edges@) == v2_n_spec(),
{
    Glyph {
        ch: 'N',
        anchors: vec![a(0, 0, 15), a(0, 4, 15), a(1, 0, 0), a(1, 4, 15), a(2, 0, 15), a(2, 1, 0), a(2, 4, 15), a(3, 0, 15), a(3, 2, 0), a(3, 4, 15), a(4, 0, 15), a(4, 3, 0), a(4, 4, 15), a(5, 0, 15), a(5, 4, 0), a(6, 0, 15), a(6, 4, 15)],
        edges: vec![e(0, 2, false), e(1, 3, false), e(2, 4, false), e(2, 5, true), e(3, 6, false), e(4, 7, false), e(5, 8, true), e(6, 9, false), e(7, 10, false), e(8, 11, true), e(9, 12, false), e(10, 13, false), e(11, 14, true), e(12, 14, false), e(13, 15, false), e(14, 16, false)],
        ink_bits: vec![171, 485],
    }
}

/// The v2 master's `P`: its anchors and edges.
pub open spec fn v2_p_spec() -> (Seq<Anchor>, Seq<Edge>) {
    (seq![sa(0, 0, 15), sa(0, 1, 15), sa(0, 2, 15), sa(0, 3, 15), sa(1, 0, 15), sa(1, 4, 15), sa(2, 0, 15), sa(2, 4, 15), sa(3, 0, 15), sa(3, 1, 15), sa(3, 2, 15), sa(3, 3, 15), sa(4, 0, 15), sa(5, 0, 15), sa(6, 0, 15)],
     seq![se(0, 1, false), se(0, 4, false), se(1, 2, false), se(2, 3, false), se(3, 5, true), se(4, 6, false), se(5, 7, false), se(6, 8, false), se(7, 11, true), se(8, 9, false), se(8, 12, false), se(9, 10, false), se(10, 11, false), se(12, 13, false), se(13, 14, false)])
}

fn v2_p() -> (g: Glyph)
    ensures
        g.ch == 'P' && (g.anchors@, g.edges@) == v2_p_spec(),
{
    Glyph {
        ch: 'P',
        anchors: vec![a(0, 0, 15), a(0, 1, 15), a(0, 2, 15), a(0, 3, 15), a(1, 0, 15), a(1, 4, 15), a(2, 0, 15), a(2, 4, 15), a(3, 0, 15), a(3, 1, 15), a(3, 2, 15), a(3, 3, 15), a(4, 0, 15), a(5, 0, 15), a(6, 0, 15)],
        edges: vec![e(0, 1, false), e(0, 4, false), e(1, 2, false), e(2, 3, false), e(3, 5, true), e(4, 6, false), e(5, 7, false), e(6, 8, false), e(7, 11, true), e(8, 9, false), e(8, 12, false), e(9, 10, false), e(10, 11, false), e(12, 13, false), e(13, 14, false)],
        ink_bits: vec![147, 415],
    }
}

/// The v2 master's `Q`: its anchors and edges.
pub open spec fn v2_q_spec() -> (Seq<Anchor>, Seq<Edge>) {
    (seq![sa(0, 1, 15), sa(0, 2, 15), sa(0, 3, 15), sa(1, 0, 15), sa(1, 4, 15), sa(2, 0, 15), sa(2, 4, 15), sa(3, 0, 15), sa(3, 4, 15), sa(4, 0, 15), sa(4, 2, 15), sa(4, 4, 15), sa(5, 0, 15), sa(5, 3, 0), sa(6, 1, 15), sa(6, 2, 15), sa(6, 4, 15)],
     seq![se(0, 1, false), se(0, 3, true), se(1, 2, false), se(2, 4, true), se(3, 5, false), se(4, 6, false), se(5, 7, false), se(6, 8, false), se(7, 9, false), se(8, 11, false), se(9, 12, false), se(10, 13, true), se(11, 13, true), se(12, 14, true), se(13, 16, true), se(13, 15, true), se(14, 15, false)])
}

fn v2_q() -> (g: Glyph)
    ensures
        g.ch == 'Q' && (g.anchors@, g.edges@) == v2_q_spec(),
{
    Glyph {
        ch: 'Q',
        anchors: vec![a(0, 1, 15), a(0, 2, 15), a(0, 3, 15), a(1, 0, 15), a(1, 4, 15), a(2, 0, 15), a(2, 4, 15), a(3, 0, 15), a(3, 4, 15), a(4, 0, 15), a(4, 2, 15), a(4, 4, 15), a(5, 0, 15), a(5, 3, 0), a(6, 1, 15), a(6, 2, 15), a(6, 4, 15)],
        edges: vec![e(0, 1, false), e(0, 3, true), e(1, 2, false), e(2, 4, true), e(3, 5, false), e(4, 6, false), e(5, 7, false), e(6, 8, false), e(7, 9, false), e(8, 11, false), e(9, 12, false), e(10, 13, true), e(11, 13, true), e(12, 14, true), e(13, 16, true), e(13, 15, true), e(14, 15, false)],
        ink_bits: vec![191, 549],
    }
}

/// The v2 master's `R`: its anchors and edges.
pub open spec fn v2_r_spec() -> (Seq<Anchor>, Seq<Edge>) {
    (seq![sa(0, 0, 15), sa(0, 1, 15), sa(0, 2, 15), sa(0, 3, 15), sa(1, 0, 15), sa(1, 4, 15), sa(2, 0, 15), sa(2, 4, 15), sa(3, 0, 15), sa(3, 1, 0), sa(3, 2, 15), sa(3, 3, 15), sa(4, 0, 15), sa(4, 2, 0), sa(5, 0, 15), sa(5, 3, 0), sa(6, 0, 15), sa(6, 4, 15)],
     seq![se(0, 1, false), se(0, 4, false), se(1, 2, false), se(2, 3, false), se(3, 5, true), se(4, 6, false), se(5, 7, false), se(6, 8, false), se(7, 11, true), se(8, 9, false), se(8, 12, false), se(9, 10, false), se(9, 13, true), se(10, 11, false), se(12, 14, false), se(13, 15, true), se(14, 16, false), se(15, 17, true)])
}

fn v2_r() -> (g: Glyph)
    ensures
        g.ch == 'R' && (g.anchors@, g.edges@) == v2_r_spec(),
{
    Glyph {
        ch: 'R',
        anchors: vec![a(0, 0, 15), a(0, 1, 15), a(0, 2, 15), a(0, 3, 15), a(1, 0, 15), a(1, 4, 15), a(2, 0, 15), a(2, 4, 15), a(3, 0, 15), a(3, 1, 0), a(3, 2, 15), a(3, 3, 15), a(4, 0, 15), a(4, 2, 0), a(5, 0, 15), a(5, 3, 0), a(6, 0, 15), a(6, 4, 15)],
        edges: vec![e(0, 1, false), e(0, 4, false), e(1, 2, false), e(2, 3, false), e(3, 5, true), e(4, 6, false), e(5, 7, false), e(6, 8, false), e(7, 11, true), e(8, 9, false), e(8, 12, false), e(9, 10, false), e(9, 13, true), e(10, 11, false), e(12, 14, false), e(13, 15, true), e(14, 16, false), e(15, 17, true)],
        ink_bits: vec![189, 540],
    }
}

/// The v2 master's `S`: its anchors and edges.
pub open spec fn v2_s_spec() -> (Seq<Anchor>, Seq<Edge>) {
    (seq![sa(0, 1, 15), sa(0, 2, 15), sa(0, 3, 15), sa(0, 4, 15), sa(1, 0, 15), sa(2, 0, 15), sa(3, 1, 15), sa(3, 2, 15), sa(3, 3, 15), sa(4, 4, 15), sa(5, 4, 15), sa(6, 0, 15), sa(6, 1, 15), sa(6, 2, 15), sa(6, 3, 15)],
     seq![se(0, 1, false), se(0, 4, true), se(1, 2, false), se(2, 3, false), se(4, 5, false), se(5, 6, true), se(6, 7, false), se(7, 8, false), se(8, 9, true), se(9, 10, false), se(10, 14, true), se(11, 12, false), se(12, 13, false), se(13, 14, false)])
}

fn v2_s() -> (g: Glyph)
    ensures
        g.ch == 'S' && (g.anchors@, g.edges@) == v2_s_spec(),
{
    Glyph {
        ch: 'S',
        anchors: vec![a(0, 1, 15), a(0, 2, 15), a(0, 3, 15), a(0, 4, 15), a(1, 0, 15), a(2, 0, 15), a(3, 1, 15), a(3, 2, 15), a(3, 3, 15), a(4, 4, 15), a(5, 4, 15), a(6, 0, 15), a(6, 1, 15), a(6, 2, 15), a(6, 3, 15)],
        edges: vec![e(0, 1, false), e(0, 4, true), e(1, 2, false), e(2, 3, false), e(4, 5, false), e(5, 6, true), e(6, 7, false), e(7, 8, false), e(8, 9, true), e(9, 10, false), e(10, 14, true), e(11, 12, false), e(12, 13, false), e(13, 14, false)],
        ink_bits: vec![159, 455],
    }
}

/// The v2 master's `T`: its anchors and edges.
pub open spec fn v2_t_spec() -> (Seq<Anchor>, Seq<Edge>) {
    (seq![sa(0, 0, 15), sa(0, 1, 15), sa(0, 2, 15), sa(0, 3, 15), sa(0, 4, 15), sa(1, 2, 15), sa(2, 2, 15), sa(3, 2, 15), sa(4, 2, 15), sa(5, 2, 15), sa(6, 2, 15)],
     seq![se(0, 1, false), se(1, 2, false), se(2, 3, false), se(2, 5, false), se(3, 4, false), se(5, 6, false), se(6, 7, false), se(7, 8, false), se(8, 9, false), se(9, 10, false)])
}

fn v2_t() -> (g: Glyph)
    ensures
        g.ch == 'T' && (g.anchors@, g.edges@) == v2_t_spec(),
{
    Glyph {
        ch: 'T',
        anchors: vec![a(0, 0, 15), a(0, 1, 15), a(0, 2, 15), a(0, 3, 15), a(0, 4, 15), a(1, 2, 15), a(2, 2, 15), a(3, 2, 15), a(4, 2, 15), a(5, 2, 15), a(6, 2, 15)],
        edges: vec![e(0, 1, false), e(1, 2, false), e(2, 3, false), e(2, 5, false), e(3, 4, false), e(5, 6, false), e(6, 7, false), e(7, 8, false), e(8, 9, false), e(9, 10, false)],
        ink_bits: vec![99, 275],
    }
}

/// The v2 master's `U`: its anchors and edges.
pub open spec fn v2_u_spec() -> (Seq<Anchor>, Seq<Edge>) {
    (seq![sa(0, 0, 15), sa(0, 4, 15), sa(1, 0, 15), sa(1, 4, 15), sa(2, 0, 15), sa(2, 4, 15), sa(3, 0, 15), sa(3, 4, 15), sa(4, 0, 15), sa(4, 4, 15), sa(5, 0, 15), sa(5, 4, 15), sa(6, 1, 15), sa(6, 2, 15), sa(6, 3, 15)],
     seq![se(0, 2, false), se(1, 3, false), se(2, 4, false), se(3, 5, false), se(4, 6, false), se(5, 7, false), se(6, 8, false), se(7, 9, false), se(8, 10, false), se(9, 11, false), se(10, 12, true), se(11, 14, true), se(12, 13, false), se(13, 14, false)])
}

fn v2_u() -> (g: Glyph)
    ensures
        g.ch == 'U' && (g.anchors@, g.edges@) == v2_u_spec(),
{
    Glyph {
        ch: 'U',
        anchors: vec![a(0, 0, 15), a(0, 4, 15), a(1, 0, 15), a(1, 4, 15), a(2, 0, 15), a(2, 4, 15), a(3, 0, 15), a(3, 4, 15), a(4, 0, 15), a(4, 4, 15), a(5, 0, 15), a(5, 4, 15), a(6, 1, 15), a(6, 2, 15), a(6, 3, 15)],
        edges: vec![e(0, 2, false), e(1, 3, false), e(2, 4, false), e(3, 5, false), e(4, 6, false), e(5, 7, false), e(6, 8, false), e(7, 9, false), e(8, 10, false), e(9, 11, false), e(10, 12, true), e(11, 14, true), e(12, 13, false), e(13, 14, false)],
        ink_bits: vec![147, 415],
    }
}

/// The v2 master's `V`: its anchors and edges.
pub open spec fn v2_v_spec() -> (Seq<Anchor>, Seq<Edge>) {
    (seq![sa(0, 0, 15), sa(0, 4, 15), sa(1, 0, 15), sa(1, 4, 15), sa(2, 0, 15), sa(2, 4, 15), sa(3, 0, 15), sa(3, 4, 15), sa(4, 0, 15), sa(4, 4, 15), sa(5, 1, 0), sa(5, 3, 0), sa(6, 2, 15)],
     seq![se(0, 2, false), se(1, 3, false), se(2, 4, false), se(3, 5, false), se(4, 6, false), se(5, 7, false), se(6, 8, false), se(7, 9, false), se(8, 10, true), se(9, 11, true), se(10, 12, true), se(11, 12, true)])
}

fn v2_v() -> (g: Glyph)
    ensures
        g.ch == 'V' && (g.anchors@, g.edges@) == v2_v_spec(),
{
    Glyph {
        ch: 'V',
        anchors: vec![a(0, 0, 15), a(0, 4, 15), a(1, 0, 15), a(1, 4, 15), a(2, 0, 15), a(2, 4, 15), a(3, 0, 15), a(3, 4, 15), a(4, 0, 15), a(4, 4, 15), a(5, 1, 0), a(5, 3, 0), a(6, 2, 15)],
        edges: vec![e(0, 2, false), e(1, 3, false), e(2, 4, false), e(3, 5, false), e(4, 6, false), e(5, 7, false), e(6, 8, false), e(7, 9, false), e(8, 10, true), e(9, 11, true), e(10, 12, true), e(11, 12, true)],
        ink_bits: vec![140, 401],
    }
}

/// The v2 master's `W`: its anchors and edges.
pub open spec fn v2_w_spec() -> (Seq<Anchor>, Seq<Edge>) {
    (seq![sa(0, 0, 15), sa(0, 4, 15), sa(1, 0, 15), sa(1, 4, 15), sa(2, 0, 15), sa(2, 4, 15), sa(3, 0, 15), sa(3, 2, 15), sa(3, 4, 15), sa(4, 0, 15), sa(4, 2, 15), sa(4, 4, 15), sa(5, 0, 15), sa(5, 2, 0), sa(5, 4, 15), sa(6, 1, 15), sa(6, 3, 15)],
     seq![se(0, 2, false), se(1, 3, false), se(2, 4, false), se(3, 5, false), se(4, 6, false), se(5, 8, false), se(6, 9, false), se(7, 10, false), se(8, 11, false), se(9, 12, false), se(10, 13, false), se(11, 14, false), se(12, 15, true), se(13, 16, true), se(13, 15, true), se(14, 16, true)])
}

fn v2_w() -> (g: Glyph)
    ensures
        g.ch == 'W' && (g.anchors@, g.edges@) == v2_w_spec(),
{
    Glyph {
        ch: 'W',
        anchors: vec![a(0, 0, 15), a(0, 4, 15), a(1, 0, 15), a(1, 4, 15), a(2, 0, 15), a(2, 4, 15), a(3, 0, 15), a(3, 2, 15), a(3, 4, 15), a(4, 0, 15), a(4, 2, 15), a(4, 4, 15), a(5, 0, 15), a(5, 2, 0), a(5, 4, 15), a(6, 1, 15), a(6, 3, 15)],
        edges: vec![e(0, 2, false), e(1, 3, false), e(2, 4, false), e(3, 5, false), e(4, 6, false), e(5, 8, false), e(6, 9, false), e(7, 10, false), e(8, 11, false), e(9, 12, false), e(10, 13, false), e(11, 14, false), e(12, 15, true), e(13, 16, true), e(13, 15, true), e(14, 16, true)],
        ink_bits: vec![174, 493],
    }
}

/// The v2 master's `X`: its anchors and edges.
pub open spec fn v2_x_spec() -> (Seq<Anchor>, Seq<Edge>) {
    (seq![sa(0, 0, 15), sa(0, 4, 15), sa(1, 0, 15), sa(1, 4, 15), sa(2, 1, 0), sa(2, 3, 0), sa(3, 2, 0), sa(4, 1, 0), sa(4, 3, 0), sa(5, 0, 15), sa(5, 4, 15), sa(6, 0, 15), sa(6, 4, 15)],
     seq![se(0, 2, false), se(1, 3, false), se(2, 4, true), se(3, 5, true), se(4, 6, true), se(5, 6, true), se(6, 8, true), se(6, 7, true), se(7, 9, true), se(8, 10, true), se(9, 11, false), se(10, 12, false)])
}

fn v2_x() -> (g: Glyph)
    ensures
        g.ch == 'X' && (g.anchors@, g.edges@) == v2_x_spec(),
{
    Glyph {
        ch: 'X',
        anchors: vec![a(0, 0, 15), a(0, 4, 15), a(1, 0, 15), a(1, 4, 15), a(2, 1, 0), a(2, 3, 0), a(3, 2, 0), a(4, 1, 0), a(4, 3, 0), a(5, 0, 15), a(5, 4, 15), a(6, 0, 15), a(6, 4, 15)],
        edges: vec![e(0, 2, false), e(1, 3, false), e(2, 4, true), e(3, 5, true), e(4, 6, true), e(5, 6, true), e(6, 8, true), e(6, 7, true), e(7, 9, true), e(8, 10, true), e(9, 11, false), e(10, 12, false)],
        ink_bits: vec![161, 469],
    }
}

/// The v2 master's `Y`: its anchors and edges.
pub open spec fn v2_y_spec() -> (Seq<Anchor>, Seq<Edge>) {
    (seq![sa(0, 0, 15), sa(0, 4, 15), sa(1, 0, 15), sa(1, 4, 15), sa(2, 0, 15), sa(2, 4, 15), sa(3, 1, 0), sa(3, 3, 0), sa(4, 2, 0), sa(5, 2, 15), sa(6, 2, 15)],
     seq![se(0, 2, false), se(1, 3, false), se(2, 4, false), se(3, 5, false), se(4, 6, true), se(5, 7, true), se(6, 8, true), se(7, 8, true), se(8, 9, false), se(9, 10, false)])
}

fn v2_y() -> (g: Glyph)
    ensures
        g.ch == 'Y' && (g.anchors@, g.edges@) == v2_y_spec(),
{
    Glyph {
        ch: 'Y',
        anchors: vec![a(0, 0, 15), a(0, 4, 15), a(1, 0, 15), a(1, 4, 15), a(2, 0, 15), a(2, 4, 15), a(3, 1, 0), a(3, 3, 0), a(4, 2, 0), a(5, 2, 15), a(6, 2, 15)],
        edges: vec![e(0, 2, false), e(1, 3, false), e(2, 4, false), e(3, 5, false), e(4, 6, true), e(5, 7, true), e(6, 8, true), e(7, 8, true), e(8, 9, false), e(9, 10, false)],
        ink_bits: vec![122, 351],
    }
}

/// The v2 master's `Z`: its anchors and edges.
pub open spec fn v2_z_spec() -> (Seq<Anchor>, Seq<Edge>) {
    (seq![sa(0, 0, 15), sa(0, 1, 15), sa(0, 2, 15), sa(0, 3, 15), sa(0, 4, 15), sa(1, 4, 15), sa(2, 3, 0), sa(3, 2, 0), sa(4, 1, 0), sa(5, 0, 15), sa(6, 0, 15), sa(6, 1, 15), sa(6, 2, 15), sa(6, 3, 15), sa(6, 4, 15)],
     seq![se(0, 1, false), se(1, 2, false), se(2, 3, false), se(3, 4, false), se(4, 5, false), se(5, 6, true), se(6, 7, true), se(7, 8, true), se(8, 9, true), se(9, 10, false), se(10, 11, false), se(11, 12, false), se(12, 13, false), se(13, 14, false)])
}

fn v2_z() -> (g: Glyph)
    ensures
        g.ch == 'Z' && (g.anchors@, g.edges@) == v2_z_spec(),
{
    Glyph {
        ch: 'Z',
        anchors: vec![a(0, 0, 15), a(0, 1, 15), a(0, 2, 15), a(0, 3, 15), a(0, 4, 15), a(1, 4, 15), a(2, 3, 0), a(3, 2, 0), a(4, 1, 0), a(5, 0, 15), a(6, 0, 15), a(6, 1, 15), a(6, 2, 15), a(6, 3, 15), a(6, 4, 15)],
        edges: vec![e(0, 1, false), e(1, 2, false), e(2, 3, false), e(3, 4, false), e(4, 5, false), e(5, 6, true), e(6, 7, true), e(7, 8, true), e(8, 9, true), e(9, 10, false), e(10, 11, false), e(11, 12, false), e(12, 13, false), e(13, 14, false)],
        ink_bits: vec![159, 455],
    }
}

/// The v2 master's glyph for `c`, if the font covers it.
pub open spec fn font_v2(c: char) -> Option<(Seq<Anchor>, Seq<Edge>)> {
    if c == '2' {
        Some(v2_2_spec())
    } else if c == '3' {
        Some(v2_3_spec())
    } else if c == '4' {
        Some(v2_4_spec())
    } else if c == '5' {
        Some(v2_5_spec())
    } else if c == '6' {
        Some(v2_6_spec())
    } else if c == '7' {
        Some(v2_7_spec())
    } else if c == '8' {
        Some(v2_8_spec())
    } else if c == '9' {
        Some(v2_9_spec())
    } else if c == 'A' {
        Some(v2_a_spec())
    } else if c == 'B' {
        Some(v2_b_spec())
    } else if c == 'C' {
        Some(v2_c_spec())
    } else if c == 'D' {
        Some(v2_d_spec())
    } else if c == 'E' {
        Some(v2_e_spec())
    } else if c == 'F' {
        Some(v2_f_spec())
    } else if c == 'G' {
        Some(v2_g_spec())
    } else if c == 'H' {
        Some(v2_h_spec())
    } else if c == 'J' {
        Some(v2_j_spec())
    } else if c == 'K' {
        Some(v2_k_spec())
    } else if c == 'M' {
        Some(v2_m_spec())
    } else if c == 'N' {
        Some(v2_n_spec())
    } else if c == 'P' {
        Some(v2_p_spec())
    } else if c == 'Q' {
        Some(v2_q_spec())
    } else if c == 'R' {
        Some(v2_r_spec())
    } else if c == 'S' {
        Some(v2_s_spec())
    } else if c == 'T' {
        Some(v2_t_spec())
    } else if c == 'U' {
        Some(v2_u_spec())
    } else if c == 'V' {
        Some(v2_v_spec())
    } else if c == 'W' {
        Some(v2_w_spec())
    } else if c == 'X' {
        Some(v2_x_spec())
    } else if c == 'Y' {
        Some(v2_y_spec())
    } else if c == 'Z' {
        Some(v2_z_spec())
    } else {
        None
    }
}

/// The v2 master's record for `c`, or `None` outside the nano14 alphabet.
pub fn glyph_v2(c: char) -> (r: Option<Glyph>)
    ensures
        match font_v2(c) {
            Some(d) => r matches Some(g) && g.ch == c && (g.anchors@, g.edges@) == d,
            None => r is None,
        },
{
    if c == '2' {
        Some(v2_2())
    } else if c == '3' {
        Some(v2_3())
    } else if c == '4' {
        Some(v2_4())
    } else if c == '5' {
        Some(v2_5())
    } else if c == '6' {
        Some(v2_6())
    } else if c == '7' {
        Some(v2_7())
    } else if c == '8' {
        Some(v2_8())
    } else if c == '9' {
        Some(v2_9())
    } else if c == 'A' {
        Some(v2_a())
    } else if c == 'B' {
        Some(v2_b())
    } else if c == 'C' {
        Some(v2_c())
    } else if c == 'D' {
        Some(v2_d())
    } else if c == 'E' {
        Some(v2_e())
    } else if c == 'F' {
        Some(v2_f())
    } else if c == 'G' {
        Some(v2_g())
    } else if c == 'H' {
        Some(v2_h())
    } else if c == 'J' {
        Some(v2_j())
    } else if c == 'K' {
        Some(v2_k())
    } else if c == 'M' {
        Some(v2_m())
    } else if c == 'N' {
        Some(v2_n())
    } else if c == 'P' {
        Some(v2_p())
    } else if c == 'Q' {
        Some(v2_q())
    } else if c == 'R' {
        Some(v2_r())
    } else if c == 'S' {
        Some(v2_s())
    } else if c == 'T' {
        Some(v2_t())
    } else if c == 'U' {
        Some(v2_u())
    } else if c == 'V' {
        Some(v2_v())
    } else if c == 'W' {
        Some(v2_w())
    } else if c == 'X' {
        Some(v2_x())
    } else if c == 'Y' {
        Some(v2_y())
    } else if c == 'Z' {
        Some(v2_z())
    } else {
        None
    }
}
} // verus!
