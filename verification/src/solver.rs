//! Id-set solver: fix two of {chars, rows, glyph scale}, derive the third,
//! inside a per-layout text budget `(8·rows − 1)·g`.

use vstd::prelude::*;

use crate::text::{dec, push_dec, push_str, push_string};

verus! {

/// The resolved id-text block.
#[derive(Clone, Copy, Debug, PartialEq, Eq, Structural)]
pub struct IdBlock {
    /// How many id characters render.
    pub chars: u32,
    /// How many rows the chars split across (balanced).
    pub rows: u32,
    /// Glyph scale `g` in device px.
    pub glyph_px: u32,
}

/// Block extent in g-units for `rows` rows: 7 per row plus 1 between rows.
pub open spec fn units(rows: int) -> int {
    8 * rows - 1
}

/// Balanced split of `chars` over `rows`: the first `chars % rows` rows
/// carry one extra char.
pub open spec fn balanced(chars: u32, rows: u32) -> Seq<u32> {
    if rows == 0 {
        Seq::empty()
    } else {
        Seq::new(rows as nat, |i: int| if i < chars % rows { (chars / rows + 1) as u32 } else { (chars / rows) as u32 })
    }
}

/// Decimal texts of a sequence, concatenated.
pub open spec fn concat_dec(s: Seq<u32>) -> Seq<char>
    decreases s.len(),
{
    if s.len() == 0 { Seq::empty() } else { concat_dec(s.drop_last()) + dec(s.last() as nat) }
}

impl IdBlock {
    /// Budget consumption `(8·rows − 1)·g` along the layout axis.
    pub fn budget_px(&self) -> (b: u32)
        requires
            self.rows >= 1,
            8 * self.rows <= u32::MAX,
            units(self.rows as int) * self.glyph_px <= u32::MAX,
        ensures
            b == units(self.rows as int) * self.glyph_px,
    {
        proof {
            assert(0 <= units(self.rows as int) * self.glyph_px) by (nonlinear_arith)
                requires self.rows >= 1;
        }
        (8 * self.rows - 1) * self.glyph_px
    }

    /// Balanced grouping along the rows: 14 chars / 3 rows → `[5, 5, 4]`.
    pub fn grouping(&self) -> (g: Vec<u32>)
        ensures
            g@ == balanced(self.chars, self.rows),
    {
        if self.rows == 0 {
            return Vec::new();
        }
        let base = self.chars / self.rows;
        let extra = self.chars % self.rows;
        let mut out: Vec<u32> = Vec::new();
        let mut i: u32 = 0;
        while i < self.rows
            invariant
                self.rows > 0,
                base == self.chars / self.rows,
                extra == self.chars % self.rows,
                i <= self.rows,
                out@ == balanced(self.chars, self.rows).take(i as int),
            decreases self.rows - i,
        {
            if i < extra {
                proof {
                    assert(self.rows >= 2);
                    assert(base * self.rows <= self.chars) by (nonlinear_arith)
                        requires base == self.chars / self.rows, self.rows > 0;
                    assert(base + 1 <= u32::MAX) by (nonlinear_arith)
                        requires base * self.rows <= self.chars, self.rows >= 2, self.chars <= u32::MAX;
                }
                out.push(base + 1);
            } else {
                out.push(base);
            }
            i = i + 1;
            assert(out@ =~= balanced(self.chars, self.rows).take(i as int));
        }
        assert(out@ =~= balanced(self.chars, self.rows));
        out
    }

    /// The balanced grouping as digits (e.g. `"554"`).
    pub fn grouping_str(&self) -> (s: String)
        ensures
            s@ == concat_dec(balanced(self.chars, self.rows)),
    {
        let g = self.grouping();
        let mut s = String::new();
        let mut i: usize = 0;
        while i < g.len()
            invariant
                i <= g@.len(),
                s@ == concat_dec(g@.take(i as int)),
            decreases g.len() - i,
        {
            push_dec(&mut s, g[i] as u128);
            i = i + 1;
            assert(g@.take(i as int).drop_last() =~= g@.take(i as int - 1));
        }
        assert(g@.take(g@.len() as int) =~= g@);
        s
    }
}

/// Solver inputs (`None` = derive me).
#[derive(Clone, Copy, Debug, PartialEq, Eq, Structural)]
pub struct Inputs {
    pub chars: Option<u32>,
    pub rows: Option<u32>,
    pub glyph_px: Option<u32>,
    /// Cap on `g` (the g-law cap); `None` = no cap.
    pub glyph_px_cap: Option<u32>,
    /// Chars the underlying id supplies.
    pub chars_max: u32,
}

impl Inputs {
    /// All knobs free, no cap, no chars.
    pub fn default() -> (r: Inputs)
        ensures
            r == (Inputs { chars: None, rows: None, glyph_px: None, glyph_px_cap: None, chars_max: 0 }),
    {
        Inputs { chars: None, rows: None, glyph_px: None, glyph_px_cap: None, chars_max: 0 }
    }
}

/// Solver error with the nearest-feasible hint.
#[derive(Clone, Debug, PartialEq, Eq)]
pub struct SolverError {
    pub message: String,
}

impl SolverError {
    /// The error's message.
    pub fn to_string(&self) -> (r: String)
        ensures
            r@ == self.message@,
    {
        self.message.clone()
    }
}

/// `g` under the optional cap.
pub open spec fn capped(g: int, cap: Option<u32>) -> int {
    match cap {
        Some(c) => if g <= c { g } else { c as int },
        None => g,
    }
}

/// `g` respects the cap.
pub open spec fn under_cap(g: int, cap: Option<u32>) -> bool {
    match cap {
        Some(c) => g <= c,
        None => true,
    }
}

/// What the solver resolves (`None` = infeasible). Three given: validate.
/// Two given: derive the third (chars fill to `chars_max`; rows are the
/// smallest that fit; `g` the largest that fits, capped). Otherwise auto:
/// maximize `g`, then minimize rows — one row at `g = ⌊budget/7⌋`, capped.
pub open spec fn solve_spec(inp: Inputs, b: u32) -> Option<IdBlock> {
    let cmax = inp.chars_max;
    if cmax == 0 {
        None
    } else {
        match (inp.chars, inp.rows, inp.glyph_px) {
            (Some(c), Some(r), Some(g)) =>
                if c >= 1 && r >= 1 && g >= 1 && c <= cmax && r <= c && under_cap(g as int, inp.glyph_px_cap)
                    && units(r as int) * g <= b {
                    Some(IdBlock { chars: c, rows: r, glyph_px: g })
                } else {
                    None
                },
            (None, Some(r), Some(g)) =>
                if r >= 1 && g >= 1 && units(r as int) * g <= b && under_cap(g as int, inp.glyph_px_cap) {
                    Some(IdBlock { chars: cmax, rows: r, glyph_px: g })
                } else {
                    None
                },
            (Some(c), None, Some(g)) =>
                if c >= 1 && g >= 1 && c <= cmax && under_cap(g as int, inp.glyph_px_cap) && 7 * g <= b {
                    Some(IdBlock { chars: c, rows: 1, glyph_px: g })
                } else {
                    None
                },
            (Some(c), Some(r), None) =>
                if c >= 1 && r >= 1 && c <= cmax && r <= c && capped((b as int) / units(r as int), inp.glyph_px_cap) >= 1 {
                    Some(IdBlock { chars: c, rows: r, glyph_px: capped((b as int) / units(r as int), inp.glyph_px_cap) as u32 })
                } else {
                    None
                },
            _ => {
                let c = auto_chars(inp);
                if c >= 1 && capped((b as int) / 7, inp.glyph_px_cap) >= 1 {
                    Some(IdBlock { chars: c, rows: 1, glyph_px: capped((b as int) / 7, inp.glyph_px_cap) as u32 })
                } else {
                    None
                }
            },
        }
    }
}

fn cap_g(g: u32, inputs: &Inputs) -> (r: u32)
    ensures
        r == capped(g as int, inputs.glyph_px_cap),
{
    match inputs.glyph_px_cap {
        Some(c) => if g <= c { g } else { c },
        None => g,
    }
}

/// `(8·rows − 1)·g`, exact.
fn need_px(rows: u32, g: u32) -> (n: u128)
    requires
        rows >= 1,
    ensures
        n == units(rows as int) * g,
{
    proof {
        assert(units(rows as int) * g <= 0x8_0000_0000u128 * 0x1_0000_0000u128) by (nonlinear_arith)
            requires rows >= 1, rows <= 0xffff_ffffu32, g <= 0xffff_ffffu32;
        assert(0 <= units(rows as int) * g) by (nonlinear_arith)
            requires rows >= 1;
    }
    (8 * rows as u128 - 1) * g as u128
}

/// `⌊b / (8·rows − 1)⌋`.
fn g_for(b: u32, rows: u32) -> (g: u32)
    requires
        rows >= 1,
    ensures
        g == (b as int) / units(rows as int),
{
    let u: u64 = 8 * rows as u64 - 1;
    proof {
        assert(b as int / u as int <= b) by (nonlinear_arith) requires u >= 1;
    }
    (b as u64 / u) as u32
}

proof fn lemma_div_mono(b: int, r1: int, r2: int)
    requires
        b >= 0,
        1 <= r1 <= r2,
    ensures
        b / units(r2) <= b / units(r1),
{
    vstd::arithmetic::div_mod::lemma_div_is_ordered_by_denominator(b, units(r1), units(r2));
}

proof fn lemma_need_mono(g: int, r1: int, r2: int)
    requires
        g >= 0,
        1 <= r1 <= r2,
    ensures
        units(r1) * g <= units(r2) * g,
{
    assert(units(r1) * g <= units(r2) * g) by (nonlinear_arith)
        requires g >= 0, 1 <= r1 <= r2;
}

/// The §10 hint: same rows at the biggest `g` that fits, or the same `g`
/// at the fewest rows that fit; else the size the triple needs.
pub open spec fn hint_text(rows: u32, g: u32, b: u32, inp: Inputs) -> Seq<char> {
    let r1 = if rows >= 1 { rows as int } else { 1 };
    let g1 = capped((b as int) / units(r1), inp.glyph_px_cap);
    let h1: Seq<Seq<char>> = if rows >= 1 && g1 >= 1 && g1 != g {
        seq!["rows "@ + dec(rows as nat) + " @ "@ + dec(g1 as nat) + "px"@]
    } else {
        Seq::empty()
    };
    let h2: Seq<Seq<char>> = if g >= 1 && 7 * g <= b && rows != 1 {
        seq!["rows "@ + dec(1) + " @ "@ + dec(g as nat) + "px"@]
    } else {
        Seq::empty()
    };
    let hints = h1 + h2;
    if hints.len() == 0 {
        let need = units(r1) * (if g >= 1 { g as int } else { 1 });
        "increase the size: rows "@ + dec(rows as nat) + " @ "@ + dec(g as nat) + "px needs "@ + dec(need as nat) + "px"@
    } else if hints.len() == 1 {
        "feasible: "@ + hints[0]
    } else {
        "feasible: "@ + hints[0] + " or "@ + hints[1]
    }
}

/// The whole message: `id solver: <why> — <hint>`.
pub open spec fn solver_message(why: Seq<char>, rows: u32, g: u32, b: u32, inp: Inputs) -> Seq<char> {
    "id solver: "@ + why + " — "@ + hint_text(rows, g, b, inp)
}

/// `id-chars <c> exceeds available id length <max>`.
pub open spec fn chars_exceed_text(c: u32, cmax: u32) -> Seq<char> {
    "id-chars "@ + dec(c as nat) + " exceeds available id length "@ + dec(cmax as nat)
}

/// `rows <r> exceeds chars <c>`.
pub open spec fn rows_exceed_text(r: u32, c: u32) -> Seq<char> {
    "rows "@ + dec(r as nat) + " exceeds chars "@ + dec(c as nat)
}

/// `g <g>px exceeds the g-law cap <cap>px`.
pub open spec fn cap_text(g: u32, cap: u32) -> Seq<char> {
    "g "@ + dec(g as nat) + "px exceeds the g-law cap "@ + dec(cap as nat) + "px"@
}

/// `rows <r> @ <g>px needs <need>px; have <budget>`.
pub open spec fn need_text(r: u32, g: u32, b: u32) -> Seq<char> {
    "rows "@ + dec(r as nat) + " @ "@ + dec(g as nat) + "px needs "@ + dec((units(r as int) * g) as nat)
        + "px; have "@ + dec(b as nat)
}

/// The refusal of a triple given whole: the first rule it breaks.
pub open spec fn validate_error(c: u32, r: u32, g: u32, b: u32, inp: Inputs) -> Seq<char> {
    let why = if c == 0 || r == 0 || g == 0 {
        "all three of chars/rows/g must be >= 1"@
    } else if c > inp.chars_max {
        chars_exceed_text(c, inp.chars_max)
    } else if r > c {
        rows_exceed_text(r, c)
    } else if inp.glyph_px_cap matches Some(cap) && g > cap {
        cap_text(g, inp.glyph_px_cap->0)
    } else {
        need_text(r, g, b)
    };
    solver_message(why, r, g, b, inp)
}

/// The refusal when chars are derived from rows and `g`.
pub open spec fn derive_chars_error(r: u32, g: u32, b: u32, inp: Inputs) -> Seq<char> {
    let why = if r == 0 || g == 0 {
        "rows and g must be >= 1"@
    } else if units(r as int) * g > b {
        need_text(r, g, b)
    } else {
        cap_text(g, inp.glyph_px_cap->0)
    };
    solver_message(why, r, g, b, inp)
}

/// The refusal when rows are derived from chars and `g`.
pub open spec fn derive_rows_error(c: u32, g: u32, b: u32, inp: Inputs) -> Seq<char> {
    let r0: u32 = match inp.rows { Some(r) => r, None => 0 };
    if c == 0 || g == 0 {
        solver_message("chars and g must be >= 1"@, r0, g, b, inp)
    } else if c > inp.chars_max {
        solver_message(chars_exceed_text(c, inp.chars_max), r0, g, b, inp)
    } else if inp.glyph_px_cap matches Some(cap) && g > cap {
        solver_message(cap_text(g, inp.glyph_px_cap->0), r0, g, b, inp)
    } else {
        solver_message("chars "@ + dec(c as nat) + " @ "@ + dec(g as nat) + "px does not fit budget "@
            + dec(b as nat) + "px in any row count"@, 1, g, b, inp)
    }
}

/// The refusal when `g` is derived from chars and rows.
pub open spec fn derive_glyph_error(c: u32, r: u32, b: u32, inp: Inputs) -> Seq<char> {
    let g0: u32 = match inp.glyph_px { Some(g) => g, None => 0 };
    if c == 0 || r == 0 {
        solver_message("chars and rows must be >= 1"@, r, g0, b, inp)
    } else if c > inp.chars_max {
        solver_message(chars_exceed_text(c, inp.chars_max), r, g0, b, inp)
    } else if r > c {
        solver_message(rows_exceed_text(r, c), r, g0, b, inp)
    } else {
        solver_message("rows "@ + dec(r as nat) + " needs at least "@ + dec(units(r as int) as nat)
            + "px @ 1px/glyph dot; budget is "@ + dec(b as nat) + "px"@, r, 1, b, inp)
    }
}

/// The chars auto mode renders: the requested count, clamped to what the
/// id supplies.
pub open spec fn auto_chars(inp: Inputs) -> u32 {
    match inp.chars {
        Some(c) => if c <= inp.chars_max { c } else { inp.chars_max },
        None => inp.chars_max,
    }
}

/// The refusal of auto mode.
pub open spec fn auto_error(inp: Inputs, b: u32) -> Seq<char> {
    let c = auto_chars(inp);
    if c == 0 {
        solver_message("no id characters to render"@, 1, 1, b, inp)
    } else {
        solver_message("chars "@ + dec(c as nat) + " cannot fit budget "@ + dec(b as nat)
            + "px even at 1 row, 1px/glyph dot"@, 1, 1, b, inp)
    }
}

/// The message of an infeasible request, by the knobs given.
pub open spec fn solve_error(inp: Inputs, b: u32) -> Seq<char> {
    if inp.chars_max == 0 {
        "id solver: chars_max must be >= 1"@
    } else {
        match (inp.chars, inp.rows, inp.glyph_px) {
            (Some(c), Some(r), Some(g)) => validate_error(c, r, g, b, inp),
            (None, Some(r), Some(g)) => derive_chars_error(r, g, b, inp),
            (Some(c), None, Some(g)) => derive_rows_error(c, g, b, inp),
            (Some(c), Some(r), None) => derive_glyph_error(c, r, b, inp),
            _ => auto_error(inp, b),
        }
    }
}

fn push_rows_at(s: &mut String, rows: u64, g: u64)
    ensures
        final(s)@ == old(s)@ + "rows "@ + dec(rows as nat) + " @ "@ + dec(g as nat) + "px"@,
{
    push_str(s, "rows ");
    push_dec(s, rows as u128);
    push_str(s, " @ ");
    push_dec(s, g as u128);
    push_str(s, "px");
}

/// Construct the nearest-feasible-triple message.
fn infeasible(why: String, chars: u32, rows: u32, glyph_px: u32, budget_px: u32, inputs: &Inputs) -> (e: SolverError)
    ensures
        e.message@ == solver_message(why@, rows, glyph_px, budget_px, *inputs),
{
    let r1: u32 = if rows >= 1 { rows } else { 1 };
    let g1 = cap_g(g_for(budget_px, r1), inputs);
    let mut h1 = String::new();
    let has1 = rows >= 1 && g1 >= 1 && g1 != glyph_px;
    if has1 {
        push_rows_at(&mut h1, rows as u64, g1 as u64);
    }
    // Same g, smallest rows that fit: the need grows with rows, so the
    // first row count that fits is 1 when any does.
    let mut r2: Option<u32> = None;
    if glyph_px >= 1 {
        let max_r: u32 = if inputs.chars_max >= chars { inputs.chars_max } else { chars };
        let max_r: u32 = if max_r >= 1 { max_r } else { 1 };
        let mut r: u32 = 1;
        loop
            invariant_except_break
                1 <= r <= max_r,
                r2 is None,
                forall|k: int| 1 <= k < r ==> units(k) * glyph_px > budget_px,
            invariant
                max_r >= 1,
                glyph_px >= 1,
            ensures
                r2 is None ==> units(1) * glyph_px > budget_px,
                r2 is Some ==> r2->0 >= 1 && units(r2->0 as int) * glyph_px <= budget_px
                    && (forall|k: int| 1 <= k < r2->0 ==> units(k) * glyph_px > budget_px),
            decreases max_r - r,
        {
            if need_px(r, glyph_px) <= budget_px as u128 {
                r2 = Some(r);
                break;
            }
            if r == max_r {
                break;
            }
            r = r + 1;
        }
        proof {
            match r2 {
                Some(x) => {
                    if x > 1 {
                        assert(units(1) * glyph_px > budget_px);
                        lemma_need_mono(glyph_px as int, 1, x as int);
                    }
                },
                None => {},
            }
        }
    }
    let mut h2 = String::new();
    let has2 = match r2 {
        Some(r) => r != rows,
        None => false,
    };
    if has2 {
        push_rows_at(&mut h2, 1, glyph_px as u64);
    }
    let mut hint = String::new();
    if !has1 && !has2 {
        let need = need_px(r1, if glyph_px >= 1 { glyph_px } else { 1 });
        push_str(&mut hint, "increase the size: rows ");
        push_dec(&mut hint, rows as u128);
        push_str(&mut hint, " @ ");
        push_dec(&mut hint, glyph_px as u128);
        push_str(&mut hint, "px needs ");
        proof {
            assert(need <= 0x8_0000_0000u128 * 0x1_0000_0000u128) by (nonlinear_arith)
                requires need == units(r1 as int) * (if glyph_px >= 1 { glyph_px as int } else { 1 }), r1 <= 0xffff_ffffu32, r1 >= 1, glyph_px <= 0xffff_ffffu32;
        }
        push_dec(&mut hint, need);
        push_str(&mut hint, "px");
    } else {
        push_str(&mut hint, "feasible: ");
        if has1 {
            push_string(&mut hint, &h1);
            if has2 {
                push_str(&mut hint, " or ");
                push_string(&mut hint, &h2);
            }
        } else {
            push_string(&mut hint, &h2);
        }
    }
    let mut message = String::new();
    push_str(&mut message, "id solver: ");
    push_string(&mut message, &why);
    push_str(&mut message, " — ");
    push_string(&mut message, &hint);
    proof {
        let ghost hs1: Seq<Seq<char>> = if has1 { seq![h1@] } else { Seq::empty() };
        let ghost hs2: Seq<Seq<char>> = if has2 { seq![h2@] } else { Seq::empty() };
        assert(hs1 + hs2 =~= (if has1 && has2 { seq![h1@, h2@] } else if has1 { seq![h1@] } else if has2 { seq![h2@] } else { Seq::empty() }));
        assert(message@ =~= solver_message(why@, rows, glyph_px, budget_px, *inputs));
    }
    SolverError { message }
}

} // verus!

verus! {

fn why_lit(s: &str) -> (r: String)
    ensures
        r@ == s@,
{
    let mut r = String::new();
    push_str(&mut r, s);
    r
}

fn why_chars_exceed(chars: u32, chars_max: u32) -> (m: String)
    ensures
        m@ == chars_exceed_text(chars, chars_max),
{
    let mut m = String::new();
    push_str(&mut m, "id-chars ");
    push_dec(&mut m, chars as u128);
    push_str(&mut m, " exceeds available id length ");
    push_dec(&mut m, chars_max as u128);
    m
}

fn why_rows_exceed(rows: u32, chars: u32) -> (m: String)
    ensures
        m@ == rows_exceed_text(rows, chars),
{
    let mut m = String::new();
    push_str(&mut m, "rows ");
    push_dec(&mut m, rows as u128);
    push_str(&mut m, " exceeds chars ");
    push_dec(&mut m, chars as u128);
    m
}

fn why_cap(g: u32, cap: u32) -> (m: String)
    ensures
        m@ == cap_text(g, cap),
{
    let mut m = String::new();
    push_str(&mut m, "g ");
    push_dec(&mut m, g as u128);
    push_str(&mut m, "px exceeds the g-law cap ");
    push_dec(&mut m, cap as u128);
    push_str(&mut m, "px");
    m
}

fn why_need(rows: u32, g: u32, need: u128, budget: u32) -> (m: String)
    requires
        rows >= 1,
        need == units(rows as int) * g,
    ensures
        m@ == need_text(rows, g, budget),
{
    let mut m = String::new();
    push_str(&mut m, "rows ");
    push_dec(&mut m, rows as u128);
    push_str(&mut m, " @ ");
    push_dec(&mut m, g as u128);
    push_str(&mut m, "px needs ");
    push_dec(&mut m, need);
    push_str(&mut m, "px; have ");
    push_dec(&mut m, budget as u128);
    m
}

fn validate_triple(chars: u32, rows: u32, glyph_px: u32, budget_px: u32, inputs: &Inputs) -> (r: Result<IdBlock, SolverError>)
    ensures
        match r {
            Ok(b) => chars >= 1 && rows >= 1 && glyph_px >= 1 && chars <= inputs.chars_max && rows <= chars
                && under_cap(glyph_px as int, inputs.glyph_px_cap) && units(rows as int) * glyph_px <= budget_px
                && b == (IdBlock { chars, rows, glyph_px }),
            Err(e) => !(chars >= 1 && rows >= 1 && glyph_px >= 1 && chars <= inputs.chars_max && rows <= chars
                && under_cap(glyph_px as int, inputs.glyph_px_cap) && units(rows as int) * glyph_px <= budget_px)
                && e.message@ == validate_error(chars, rows, glyph_px, budget_px, *inputs),
        },
{
    if chars == 0 || rows == 0 || glyph_px == 0 {
        return Err(infeasible(why_lit("all three of chars/rows/g must be >= 1"), chars, rows, glyph_px, budget_px, inputs));
    }
    if chars > inputs.chars_max {
        return Err(infeasible(why_chars_exceed(chars, inputs.chars_max), chars, rows, glyph_px, budget_px, inputs));
    }
    if rows > chars {
        return Err(infeasible(why_rows_exceed(rows, chars), chars, rows, glyph_px, budget_px, inputs));
    }
    if let Some(cap) = inputs.glyph_px_cap {
        if glyph_px > cap {
            return Err(infeasible(why_cap(glyph_px, cap), chars, rows, glyph_px, budget_px, inputs));
        }
    }
    let need = need_px(rows, glyph_px);
    if need > budget_px as u128 {
        return Err(infeasible(why_need(rows, glyph_px, need, budget_px), chars, rows, glyph_px, budget_px, inputs));
    }
    Ok(IdBlock { chars, rows, glyph_px })
}

fn derive_chars(rows: u32, glyph_px: u32, budget_px: u32, inputs: &Inputs) -> (r: Result<IdBlock, SolverError>)
    ensures
        match r {
            Ok(b) => rows >= 1 && glyph_px >= 1 && units(rows as int) * glyph_px <= budget_px
                && under_cap(glyph_px as int, inputs.glyph_px_cap)
                && b == (IdBlock { chars: inputs.chars_max, rows, glyph_px }),
            Err(e) => !(rows >= 1 && glyph_px >= 1 && units(rows as int) * glyph_px <= budget_px
                && under_cap(glyph_px as int, inputs.glyph_px_cap))
                && e.message@ == derive_chars_error(rows, glyph_px, budget_px, *inputs),
        },
{
    let quoted = match inputs.chars { Some(c) => c, None => inputs.chars_max };
    if rows == 0 || glyph_px == 0 {
        let c0 = match inputs.chars { Some(c) => c, None => 0 };
        return Err(infeasible(why_lit("rows and g must be >= 1"), c0, rows, glyph_px, budget_px, inputs));
    }
    let need = need_px(rows, glyph_px);
    if need > budget_px as u128 {
        return Err(infeasible(why_need(rows, glyph_px, need, budget_px), quoted, rows, glyph_px, budget_px, inputs));
    }
    if let Some(cap) = inputs.glyph_px_cap {
        if glyph_px > cap {
            return Err(infeasible(why_cap(glyph_px, cap), quoted, rows, glyph_px, budget_px, inputs));
        }
    }
    Ok(IdBlock { chars: inputs.chars_max, rows, glyph_px })
}

#[verifier::loop_isolation(false)]
fn derive_rows(chars: u32, glyph_px: u32, budget_px: u32, inputs: &Inputs) -> (r: Result<IdBlock, SolverError>)
    ensures
        match r {
            Ok(b) => chars >= 1 && glyph_px >= 1 && chars <= inputs.chars_max
                && under_cap(glyph_px as int, inputs.glyph_px_cap) && 7 * glyph_px <= budget_px
                && b == (IdBlock { chars, rows: 1, glyph_px }),
            Err(e) => !(chars >= 1 && glyph_px >= 1 && chars <= inputs.chars_max
                && under_cap(glyph_px as int, inputs.glyph_px_cap) && 7 * glyph_px <= budget_px)
                && e.message@ == derive_rows_error(chars, glyph_px, budget_px, *inputs),
        },
{
    let r0 = match inputs.rows { Some(r) => r, None => 0 };
    if chars == 0 || glyph_px == 0 {
        return Err(infeasible(why_lit("chars and g must be >= 1"), chars, r0, glyph_px, budget_px, inputs));
    }
    if chars > inputs.chars_max {
        return Err(infeasible(why_chars_exceed(chars, inputs.chars_max), chars, r0, glyph_px, budget_px, inputs));
    }
    if let Some(cap) = inputs.glyph_px_cap {
        if glyph_px > cap {
            return Err(infeasible(why_cap(glyph_px, cap), chars, r0, glyph_px, budget_px, inputs));
        }
    }
    // Smallest rows that fit: the need grows with rows.
    let mut r: u32 = 1;
    loop
        invariant
            1 <= r <= chars,
            glyph_px >= 1,
            forall|k: int| 1 <= k < r ==> units(k) * glyph_px > budget_px,
        decreases chars - r,
    {
        if need_px(r, glyph_px) <= budget_px as u128 {
            proof {
                if r > 1 {
                    lemma_need_mono(glyph_px as int, 1, r as int);
                }
            }
            return Ok(IdBlock { chars, rows: r, glyph_px });
        }
        if r == chars {
            break;
        }
        r = r + 1;
    }
    proof { lemma_need_mono(glyph_px as int, 1, r as int); }
    let mut why = String::new();
    push_str(&mut why, "chars ");
    push_dec(&mut why, chars as u128);
    push_str(&mut why, " @ ");
    push_dec(&mut why, glyph_px as u128);
    push_str(&mut why, "px does not fit budget ");
    push_dec(&mut why, budget_px as u128);
    push_str(&mut why, "px in any row count");
    Err(infeasible(why, chars, 1, glyph_px, budget_px, inputs))
}

fn derive_glyph(chars: u32, rows: u32, budget_px: u32, inputs: &Inputs) -> (r: Result<IdBlock, SolverError>)
    ensures
        match r {
            Ok(b) => chars >= 1 && rows >= 1 && chars <= inputs.chars_max && rows <= chars
                && capped((budget_px as int) / units(rows as int), inputs.glyph_px_cap) >= 1
                && b == (IdBlock { chars, rows, glyph_px: capped((budget_px as int) / units(rows as int), inputs.glyph_px_cap) as u32 }),
            Err(e) => !(chars >= 1 && rows >= 1 && chars <= inputs.chars_max && rows <= chars
                && capped((budget_px as int) / units(rows as int), inputs.glyph_px_cap) >= 1)
                && e.message@ == derive_glyph_error(chars, rows, budget_px, *inputs),
        },
{
    let g0 = match inputs.glyph_px { Some(g) => g, None => 0 };
    if chars == 0 || rows == 0 {
        return Err(infeasible(why_lit("chars and rows must be >= 1"), chars, rows, g0, budget_px, inputs));
    }
    if chars > inputs.chars_max {
        return Err(infeasible(why_chars_exceed(chars, inputs.chars_max), chars, rows, g0, budget_px, inputs));
    }
    if rows > chars {
        return Err(infeasible(why_rows_exceed(rows, chars), chars, rows, g0, budget_px, inputs));
    }
    let g = cap_g(g_for(budget_px, rows), inputs);
    if g < 1 {
        let mut why = String::new();
        push_str(&mut why, "rows ");
        push_dec(&mut why, rows as u128);
        push_str(&mut why, " needs at least ");
        push_dec(&mut why, 8 * rows as u128 - 1);
        push_str(&mut why, "px @ 1px/glyph dot; budget is ");
        push_dec(&mut why, budget_px as u128);
        push_str(&mut why, "px");
        return Err(infeasible(why, chars, rows, 1, budget_px, inputs));
    }
    Ok(IdBlock { chars, rows, glyph_px: g })
}

#[verifier::loop_isolation(false)]
fn auto(inputs: Inputs, budget_px: u32) -> (r: Result<IdBlock, SolverError>)
    ensures
        ({
            let c = auto_chars(inputs);
            match r {
                Ok(b) => c >= 1 && capped((budget_px as int) / 7, inputs.glyph_px_cap) >= 1
                    && b == (IdBlock { chars: c, rows: 1, glyph_px: capped((budget_px as int) / 7, inputs.glyph_px_cap) as u32 }),
                Err(e) => !(c >= 1 && capped((budget_px as int) / 7, inputs.glyph_px_cap) >= 1)
                    && e.message@ == auto_error(inputs, budget_px),
            }
        }),
{
    let chars = match inputs.chars {
        Some(c) => if c <= inputs.chars_max { c } else { inputs.chars_max },
        None => inputs.chars_max,
    };
    if chars == 0 {
        return Err(infeasible(why_lit("no id characters to render"), 0, 1, 1, budget_px, &inputs));
    }
    // Row counts smallest first; the first that yields g >= 1 anchors the
    // search, then a later row count only wins on a strictly larger g.
    let mut r: u32 = 1;
    loop
        invariant
            1 <= r <= chars,
            forall|k: int| 1 <= k < r ==> capped((budget_px as int) / units(k), inputs.glyph_px_cap) < 1,
        decreases chars - r,
    {
        let g = cap_g(g_for(budget_px, r), &inputs);
        if g >= 1 {
            let mut best_r = r;
            let mut best_g = g;
            proof {
                if r > 1 {
                    lemma_div_mono(budget_px as int, 1, r as int);
                    lemma_capped_mono((budget_px as int) / units(r as int), (budget_px as int) / units(1), inputs.glyph_px_cap);
                }
                assert(r == 1);
            }
            let mut r2 = r;
            while r2 < chars
                invariant
                    r == 1,
                    1 <= r2 <= chars,
                    best_r == 1,
                    best_g == capped((budget_px as int) / units(1), inputs.glyph_px_cap),
                decreases chars - r2,
            {
                r2 = r2 + 1;
                let g2 = cap_g(g_for(budget_px, r2), &inputs);
                proof {
                    lemma_div_mono(budget_px as int, 1, r2 as int);
                    lemma_capped_mono((budget_px as int) / units(r2 as int), (budget_px as int) / units(1), inputs.glyph_px_cap);
                }
                if g2 > best_g {
                    best_r = r2;
                    best_g = g2;
                }
            }
            return Ok(IdBlock { chars, rows: best_r, glyph_px: best_g });
        }
        if r == chars {
            break;
        }
        r = r + 1;
    }
    proof { assert(capped((budget_px as int) / units(1), inputs.glyph_px_cap) < 1); }
    let mut why = String::new();
    push_str(&mut why, "chars ");
    push_dec(&mut why, chars as u128);
    push_str(&mut why, " cannot fit budget ");
    push_dec(&mut why, budget_px as u128);
    push_str(&mut why, "px even at 1 row, 1px/glyph dot");
    Err(infeasible(why, chars, 1, 1, budget_px, &inputs))
}

proof fn lemma_capped_mono(a: int, b: int, cap: Option<u32>)
    requires
        a <= b,
    ensures
        capped(a, cap) <= capped(b, cap),
{
}

/// Solve the id block against a text budget (device px along the layout
/// axis). Returns exactly `solve_spec`; an infeasible request errors with
/// the nearest feasible triple.
pub fn solve(inputs: Inputs, budget_px: u32) -> (r: Result<IdBlock, SolverError>)
    ensures
        match solve_spec(inputs, budget_px) {
            Some(b) => r == Ok::<IdBlock, SolverError>(b),
            None => r matches Err(e) && e.message@ == solve_error(inputs, budget_px),
        },
        r matches Ok(b) ==> 1 <= b.chars <= inputs.chars_max,
{
    if inputs.chars_max == 0 {
        return Err(SolverError { message: why_lit("id solver: chars_max must be >= 1") });
    }
    match (inputs.chars, inputs.rows, inputs.glyph_px) {
        (Some(c), Some(r), Some(g)) => validate_triple(c, r, g, budget_px, &inputs),
        (None, Some(r), Some(g)) => derive_chars(r, g, budget_px, &inputs),
        (Some(c), None, Some(g)) => derive_rows(c, g, budget_px, &inputs),
        (Some(c), Some(r), None) => derive_glyph(c, r, budget_px, &inputs),
        _ => auto(inputs, budget_px),
    }
}

/// Law: a solved block always fits its budget — at least one row, a
/// positive glyph scale under the cap, and `(8·rows − 1)·g ≤ budget`.
#[verifier::spinoff_prover]
pub proof fn law_solved_block_fits(inputs: Inputs, budget_px: u32)
    requires
        solve_spec(inputs, budget_px) is Some,
    ensures
        ({
            let b = solve_spec(inputs, budget_px)->0;
            &&& b.rows >= 1
            &&& b.glyph_px >= 1
            &&& under_cap(b.glyph_px as int, inputs.glyph_px_cap)
            &&& units(b.rows as int) * b.glyph_px <= budget_px
        }),
{
    let b = solve_spec(inputs, budget_px)->0;
    match (inputs.chars, inputs.rows, inputs.glyph_px) {
        (Some(c), Some(r), None) => {
            let q = (budget_px as int) / units(r as int);
            assert(q * units(r as int) <= budget_px) by (nonlinear_arith)
                requires q == (budget_px as int) / units(r as int), units(r as int) >= 7, budget_px >= 0;
            assert(units(r as int) * capped(q, inputs.glyph_px_cap) <= units(r as int) * q) by (nonlinear_arith)
                requires capped(q, inputs.glyph_px_cap) <= q, units(r as int) >= 7;
            assert(q <= budget_px) by (nonlinear_arith)
                requires q * units(r as int) <= budget_px, units(r as int) >= 7, q >= 0 || q < 0;
            assert(b.glyph_px == capped(q, inputs.glyph_px_cap));
        },
        (Some(_), Some(_), Some(_)) => {},
        (None, Some(_), Some(_)) => {},
        (Some(_), None, Some(_)) => {},
        _ => {
            let q = (budget_px as int) / 7;
            assert(q * 7 <= budget_px);
            assert(q <= budget_px);
            let cq = capped(q, inputs.glyph_px_cap);
            assert(cq <= q);
            if cq >= 1 {
                assert(cq as u32 as int == cq);
                assert(b.glyph_px as int == cq);
                assert(b.rows == 1);
                assert(units(1) == 7);
                assert(7 * cq <= 7 * q);
                assert(units(1) * cq == 7 * cq);
            }
        },
    }
}

/// Law: auto mode maximizes the glyph scale, then minimizes rows — no row
/// count yields a larger capped `g` than the chosen single row.
pub proof fn law_auto_maximizes_glyph(budget_px: u32, cap: Option<u32>, rows: int)
    requires
        rows >= 1,
    ensures
        capped((budget_px as int) / units(rows), cap) <= capped((budget_px as int) / units(1), cap),
{
    lemma_div_mono(budget_px as int, 1, rows);
    lemma_capped_mono((budget_px as int) / units(rows), (budget_px as int) / units(1), cap);
}


/// Law: a requested id char count is honoured — whenever the solver
/// answers for a request that names `c` chars (`1 ≤ c ≤ chars_max`), the
/// block renders exactly `c` chars, in every mode, auto included; and a
/// request that names none renders the whole id (`chars_max`).
pub proof fn law_requested_chars_honoured(inputs: Inputs, budget_px: u32)
    requires
        solve_spec(inputs, budget_px) is Some,
    ensures
        inputs.chars matches Some(c) ==> (1 <= c <= inputs.chars_max
            ==> solve_spec(inputs, budget_px)->0.chars == c),
        inputs.chars is None ==> solve_spec(inputs, budget_px)->0.chars == inputs.chars_max,
{
}

} // verus!
