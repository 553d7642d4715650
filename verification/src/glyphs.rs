//! Embedded 5×7 bitmap glyphs for the nano14 id alphabet: typography on
//! the module lattice, emitted through the same `<rect>` shape as the QR
//! modules.

use vstd::prelude::*;

use crate::text::{char_debug, debug_char, dec, push_dec, push_str};
use crate::CodecError;

verus! {

/// Glyph cell height in dots.
pub const GLYPH_ROWS: u32 = 7;
/// Glyph cell width in dots.
pub const GLYPH_COLS: u32 = 5;
/// The nano14 id alphabet the table covers (no `0/O/1/I/L`).
pub const ALPHABET: &'static str = "23456789ABCDEFGHJKMNPQRSTUVWXYZ";

/// The seven rows of `c`'s bitmap, top to bottom; bit 4 is the leftmost
/// column. `None` outside the alphabet.
pub open spec fn glyph_bits(c: char) -> Option<Seq<u8>> {
    match c {
        '2' => Some(seq![0b01110u8, 0b10001u8, 0b00001u8, 0b00110u8, 0b01000u8, 0b10000u8, 0b11111u8]),
        '3' => Some(seq![0b11111u8, 0b00010u8, 0b00100u8, 0b00010u8, 0b00001u8, 0b10001u8, 0b01110u8]),
        '4' => Some(seq![0b00010u8, 0b00110u8, 0b01010u8, 0b10010u8, 0b11111u8, 0b00010u8, 0b00010u8]),
        '5' => Some(seq![0b11111u8, 0b10000u8, 0b11110u8, 0b00001u8, 0b00001u8, 0b10001u8, 0b01110u8]),
        '6' => Some(seq![0b00110u8, 0b01000u8, 0b10000u8, 0b11110u8, 0b10001u8, 0b10001u8, 0b01110u8]),
        '7' => Some(seq![0b11111u8, 0b00001u8, 0b00010u8, 0b00100u8, 0b01000u8, 0b01000u8, 0b01000u8]),
        '8' => Some(seq![0b01110u8, 0b10001u8, 0b10001u8, 0b01110u8, 0b10001u8, 0b10001u8, 0b01110u8]),
        '9' => Some(seq![0b01110u8, 0b10001u8, 0b10001u8, 0b01111u8, 0b00001u8, 0b00010u8, 0b01100u8]),
        'A' => Some(seq![0b01110u8, 0b10001u8, 0b10001u8, 0b10001u8, 0b11111u8, 0b10001u8, 0b10001u8]),
        'B' => Some(seq![0b11110u8, 0b10001u8, 0b10001u8, 0b11110u8, 0b10001u8, 0b10001u8, 0b11110u8]),
        'C' => Some(seq![0b01110u8, 0b10001u8, 0b10000u8, 0b10000u8, 0b10000u8, 0b10001u8, 0b01110u8]),
        'D' => Some(seq![0b11100u8, 0b10010u8, 0b10001u8, 0b10001u8, 0b10001u8, 0b10010u8, 0b11100u8]),
        'E' => Some(seq![0b11111u8, 0b10000u8, 0b10000u8, 0b11110u8, 0b10000u8, 0b10000u8, 0b11111u8]),
        'F' => Some(seq![0b11111u8, 0b10000u8, 0b10000u8, 0b11110u8, 0b10000u8, 0b10000u8, 0b10000u8]),
        'G' => Some(seq![0b01110u8, 0b10001u8, 0b10000u8, 0b10111u8, 0b10001u8, 0b10001u8, 0b01111u8]),
        'H' => Some(seq![0b10001u8, 0b10001u8, 0b10001u8, 0b11111u8, 0b10001u8, 0b10001u8, 0b10001u8]),
        'J' => Some(seq![0b00111u8, 0b00010u8, 0b00010u8, 0b00010u8, 0b00010u8, 0b10010u8, 0b01100u8]),
        'K' => Some(seq![0b10001u8, 0b10010u8, 0b10100u8, 0b11000u8, 0b10100u8, 0b10010u8, 0b10001u8]),
        'M' => Some(seq![0b10001u8, 0b11011u8, 0b10101u8, 0b10101u8, 0b10001u8, 0b10001u8, 0b10001u8]),
        'N' => Some(seq![0b10001u8, 0b10001u8, 0b11001u8, 0b10101u8, 0b10011u8, 0b10001u8, 0b10001u8]),
        'P' => Some(seq![0b11110u8, 0b10001u8, 0b10001u8, 0b11110u8, 0b10000u8, 0b10000u8, 0b10000u8]),
        'Q' => Some(seq![0b01110u8, 0b10001u8, 0b10001u8, 0b10001u8, 0b10101u8, 0b10010u8, 0b01101u8]),
        'R' => Some(seq![0b11110u8, 0b10001u8, 0b10001u8, 0b11110u8, 0b10100u8, 0b10010u8, 0b10001u8]),
        'S' => Some(seq![0b01111u8, 0b10000u8, 0b10000u8, 0b01110u8, 0b00001u8, 0b00001u8, 0b11110u8]),
        'T' => Some(seq![0b11111u8, 0b00100u8, 0b00100u8, 0b00100u8, 0b00100u8, 0b00100u8, 0b00100u8]),
        'U' => Some(seq![0b10001u8, 0b10001u8, 0b10001u8, 0b10001u8, 0b10001u8, 0b10001u8, 0b01110u8]),
        'V' => Some(seq![0b10001u8, 0b10001u8, 0b10001u8, 0b10001u8, 0b10001u8, 0b01010u8, 0b00100u8]),
        'W' => Some(seq![0b10001u8, 0b10001u8, 0b10001u8, 0b10101u8, 0b10101u8, 0b10101u8, 0b01010u8]),
        'X' => Some(seq![0b10001u8, 0b10001u8, 0b01010u8, 0b00100u8, 0b01010u8, 0b10001u8, 0b10001u8]),
        'Y' => Some(seq![0b10001u8, 0b10001u8, 0b10001u8, 0b01010u8, 0b00100u8, 0b00100u8, 0b00100u8]),
        'Z' => Some(seq![0b11111u8, 0b00001u8, 0b00010u8, 0b00100u8, 0b01000u8, 0b10000u8, 0b11111u8]),
        _ => None,
    }
}

/// The rows of `c`'s 5×7 bitmap; `None` for a char outside
/// [`ALPHABET`].
pub fn glyph(c: char) -> (r: Option<[u8; 7]>)
    ensures
        match glyph_bits(c) {
            Some(rows) => r matches Some(a) && a@ == rows,
            None => r is None,
        },
{
    let rows: [u8; 7] = match c {
        '2' => [0b01110, 0b10001, 0b00001, 0b00110, 0b01000, 0b10000, 0b11111],
        '3' => [0b11111, 0b00010, 0b00100, 0b00010, 0b00001, 0b10001, 0b01110],
        '4' => [0b00010, 0b00110, 0b01010, 0b10010, 0b11111, 0b00010, 0b00010],
        '5' => [0b11111, 0b10000, 0b11110, 0b00001, 0b00001, 0b10001, 0b01110],
        '6' => [0b00110, 0b01000, 0b10000, 0b11110, 0b10001, 0b10001, 0b01110],
        '7' => [0b11111, 0b00001, 0b00010, 0b00100, 0b01000, 0b01000, 0b01000],
        '8' => [0b01110, 0b10001, 0b10001, 0b01110, 0b10001, 0b10001, 0b01110],
        '9' => [0b01110, 0b10001, 0b10001, 0b01111, 0b00001, 0b00010, 0b01100],
        'A' => [0b01110, 0b10001, 0b10001, 0b10001, 0b11111, 0b10001, 0b10001],
        'B' => [0b11110, 0b10001, 0b10001, 0b11110, 0b10001, 0b10001, 0b11110],
        'C' => [0b01110, 0b10001, 0b10000, 0b10000, 0b10000, 0b10001, 0b01110],
        'D' => [0b11100, 0b10010, 0b10001, 0b10001, 0b10001, 0b10010, 0b11100],
        'E' => [0b11111, 0b10000, 0b10000, 0b11110, 0b10000, 0b10000, 0b11111],
        'F' => [0b11111, 0b10000, 0b10000, 0b11110, 0b10000, 0b10000, 0b10000],
        'G' => [0b01110, 0b10001, 0b10000, 0b10111, 0b10001, 0b10001, 0b01111],
        'H' => [0b10001, 0b10001, 0b10001, 0b11111, 0b10001, 0b10001, 0b10001],
        'J' => [0b00111, 0b00010, 0b00010, 0b00010, 0b00010, 0b10010, 0b01100],
        'K' => [0b10001, 0b10010, 0b10100, 0b11000, 0b10100, 0b10010, 0b10001],
        'M' => [0b10001, 0b11011, 0b10101, 0b10101, 0b10001, 0b10001, 0b10001],
        'N' => [0b10001, 0b10001, 0b11001, 0b10101, 0b10011, 0b10001, 0b10001],
        'P' => [0b11110, 0b10001, 0b10001, 0b11110, 0b10000, 0b10000, 0b10000],
        'Q' => [0b01110, 0b10001, 0b10001, 0b10001, 0b10101, 0b10010, 0b01101],
        'R' => [0b11110, 0b10001, 0b10001, 0b11110, 0b10100, 0b10010, 0b10001],
        'S' => [0b01111, 0b10000, 0b10000, 0b01110, 0b00001, 0b00001, 0b11110],
        'T' => [0b11111, 0b00100, 0b00100, 0b00100, 0b00100, 0b00100, 0b00100],
        'U' => [0b10001, 0b10001, 0b10001, 0b10001, 0b10001, 0b10001, 0b01110],
        'V' => [0b10001, 0b10001, 0b10001, 0b10001, 0b10001, 0b01010, 0b00100],
        'W' => [0b10001, 0b10001, 0b10001, 0b10101, 0b10101, 0b10101, 0b01010],
        'X' => [0b10001, 0b10001, 0b01010, 0b00100, 0b01010, 0b10001, 0b10001],
        'Y' => [0b10001, 0b10001, 0b10001, 0b01010, 0b00100, 0b00100, 0b00100],
        'Z' => [0b11111, 0b00001, 0b00010, 0b00100, 0b01000, 0b10000, 0b11111],
        _ => return None,
    };
    proof {
        assert(rows@ =~= glyph_bits(c)->0);
    }
    Some(rows)
}

/// Number of set bits.
pub open spec fn popcount(v: nat) -> nat
    decreases v,
{
    if v == 0 { 0 } else { v % 2 + popcount(v / 2) }
}

/// Set bits over the first `k` rows.
pub open spec fn ink_rows(rows: Seq<u8>, k: int) -> nat
    decreases k,
{
    if k <= 0 { 0 } else { ink_rows(rows, k - 1) + popcount(rows[k - 1] as nat) }
}

fn count_ones(v: u8) -> (r: u32)
    ensures
        r == popcount(v as nat),
        r <= 8,
{
    proof { lemma_popcount_byte(v as nat); }
    let mut x: u8 = v;
    let mut n: u32 = 0;
    while x > 0
        invariant
            n + popcount(x as nat) == popcount(v as nat),
            popcount(v as nat) <= 8,
        decreases x,
    {
        n = n + (x % 2) as u32;
        x = x / 2;
    }
    n
}

proof fn lemma_popcount_le(v: nat, k: nat)
    requires
        v < pow2k(k),
    ensures
        popcount(v) <= k,
    decreases k,
{
    if v > 0 && k > 0 {
        lemma_popcount_le(v / 2, (k - 1) as nat);
    }
}

proof fn lemma_popcount_byte(v: nat)
    requires
        v < 256,
    ensures
        popcount(v) <= 8,
{
    reveal_with_fuel(pow2k, 9);
    lemma_popcount_le(v, 8);
}

/// `2^k`.
pub open spec fn pow2k(k: nat) -> nat
    decreases k,
{
    if k == 0 { 1 } else { 2 * pow2k((k - 1) as nat) }
}

/// Ink dots of `c`'s glyph; `None` outside the alphabet.
pub open spec fn ink_spec(c: char) -> Option<nat> {
    match glyph_bits(c) {
        Some(rows) => Some(ink_rows(rows, 7)),
        None => None,
    }
}

/// Number of ink dots in `c`'s glyph; `None` outside [`ALPHABET`].
pub fn ink_bits(c: char) -> (r: Option<u32>)
    ensures
        match ink_spec(c) {
            Some(n) => r == Some(n as u32) && n <= 56,
            None => r is None,
        },
{
    let rows = match glyph(c) {
        Some(rows) => rows,
        None => return None,
    };
    let mut total: u32 = 0;
    let mut i: usize = 0;
    while i < 7
        invariant
            i <= 7,
            rows@.len() == 7,
            total == ink_rows(rows@, i as int),
            total <= 8 * i,
        decreases 7 - i,
    {
        total = total + count_ones(rows[i]);
        i = i + 1;
    }
    Some(total)
}

/// Whether dot `rx` (0 = leftmost) of a row is inked.
pub open spec fn dot(row: u8, rx: u32) -> bool {
    ((row >> ((4 - rx) as u32)) & 1u8) == 1u8
}

/// One square dot rect.
pub open spec fn dot_rect(x: int, y: int, g: int) -> Seq<char> {
    "<rect x=\""@ + dec(x as nat) + "\" y=\""@ + dec(y as nat) + "\" width=\""@ + dec(g as nat)
        + "\" height=\""@ + dec(g as nat) + "\"/>"@
}

/// The rects of the first `k` cells (row-major, 5 per row) of a
/// glyph, cell top-left at `(x0, y0)`, `g` px per dot.
pub open spec fn glyph_cells_text(rows: Seq<u8>, k: int, x0: int, y0: int, g: int) -> Seq<char>
    decreases k,
{
    if k <= 0 {
        Seq::empty()
    } else {
        let j = k - 1;
        let ry = j / 5;
        let rx = j % 5;
        glyph_cells_text(rows, j, x0, y0, g) + if dot(rows[ry], rx as u32) {
            dot_rect(x0 + rx * g, y0 + ry * g, g)
        } else {
            Seq::empty()
        }
    }
}

/// Message for a char the table does not cover.
pub open spec fn no_glyph_message(c: char) -> Seq<char> {
    "no bitmap glyph for "@ + char_debug(c) + ": the embedded 5x7 table covers the nano14 alphabet "@
        + ALPHABET@
}

/// Append the ink rects of `c` to `out`, cell top-left at `(x0, y0)`,
/// `g` px per dot (row-major, one `g×g` rect per inked dot). Errors for a
/// char outside [`ALPHABET`], leaving `out` unchanged.
pub fn write_glyph_rects(out: &mut String, c: char, x0: u32, y0: u32, g: u32) -> (r: Result<(), CodecError>)
    requires
        x0 + 4 * g <= u32::MAX,
        y0 + 6 * g <= u32::MAX,
    ensures
        match glyph_bits(c) {
            Some(rows) => r is Ok && final(out)@ == old(out)@ + glyph_cells_text(rows, 35, x0 as int, y0 as int, g as int),
            None => final(out)@ == old(out)@ && (r matches Err(CodecError::Render(m)) && m@ == no_glyph_message(c)),
        },
{
    let rows = match glyph(c) {
        Some(rows) => rows,
        None => {
            let mut m = "no bitmap glyph for ".to_owned();
            let d = debug_char(c);
            push_str(&mut m, d.as_str());
            push_str(&mut m, ": the embedded 5x7 table covers the nano14 alphabet ");
            push_str(&mut m, ALPHABET);
            return Err(CodecError::Render(m));
        },
    };
    let ghost start = out@;
    let mut j: u32 = 0;
    while j < 35
        invariant
            j <= 35,
            rows@.len() == 7,
            x0 + 4 * g <= u32::MAX,
            y0 + 6 * g <= u32::MAX,
            out@ == start + glyph_cells_text(rows@, j as int, x0 as int, y0 as int, g as int),
        decreases 35 - j,
    {
        let ry = j / 5;
        let rx = j % 5;
        proof {
            assert(rx * g <= 4 * g) by (nonlinear_arith) requires rx <= 4;
            assert(ry * g <= 6 * g) by (nonlinear_arith) requires ry <= 6;
        }
        let row = rows[ry as usize];
        if ((row >> (4 - rx)) & 1u8) == 1u8 {
            let x = x0 + rx * g;
            let y = y0 + ry * g;
            push_str(out, "<rect x=\"");
            push_dec(out, x as u128);
            push_str(out, "\" y=\"");
            push_dec(out, y as u128);
            push_str(out, "\" width=\"");
            push_dec(out, g as u128);
            push_str(out, "\" height=\"");
            push_dec(out, g as u128);
            push_str(out, "\"/>");
        }
        j = j + 1;
        proof {
            assert(out@ =~= start + glyph_cells_text(rows@, j as int, x0 as int, y0 as int, g as int));
        }
    }
    Ok(())
}

} // verus!
