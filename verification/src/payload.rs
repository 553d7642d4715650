//! The payload composition grammar:
//!
//! ```text
//! payload  := node (WS+ node)*
//! node     := leaf | group | canvas
//! leaf     := element ('@' size)?
//! element  := qr[:TYPE] | id[:GROUPING|chars-N] | space[:SIZE]
//! group    := '[' ('h'|'v') ':' leaf (WS+ leaf)* ']'
//! canvas   := '[' 'c' <W>x<H>(px|mm) ':' (leaf '@(' x ',' y ')' ('@' size)? )+ ']'
//! size     := <N>(px|mm) | 'w'<N>
//! ```
//!
//! One nesting level of `h`/`v` groups; a canvas group only as the sole
//! root node. The order of elements is the order on the layout axis.
//! Error offsets are UTF-8 byte offsets into the input.

use vstd::prelude::*;

use crate::text::{
    char_debug, debug_char, debug_str, debug_text, dec, digits_value, eq_lit, find_from, find_pat,
    is_digit, occurs_at, parse_uint, parse_uint_range, push_dec, push_str, starts_at, string_of, to_chars,
};

verus! {

/// Sized spacer; the unit rides the value.
#[derive(Clone, Copy, Debug, PartialEq, Eq, Structural)]
pub enum SpaceSize {
    Px { px: u32 },
    Mm { mm: u32 },
}

/// One element on the payload axis.
#[derive(Clone, Debug, PartialEq, Eq)]
pub enum Element {
    /// `qr` or `qr:TYPE` — the symbology pin (`None`: the request default).
    Qr { symbology: Option<String> },
    /// `id`, `id:GROUPING`, or `id:chars-N` — the human-id text block.
    Id { grouping: Option<String>, id_chars: Option<u32> },
    /// `space`, `space:Npx`, `space:Nmm`, or `space:N` (bare = px).
    Space { size: Option<SpaceSize> },
}

/// A parsed flat payload with its canonical string.
#[derive(Clone, Debug, PartialEq, Eq)]
pub struct Payload {
    pub elements: Vec<Element>,
    pub canonical: String,
}

/// Group orientation.
#[derive(Clone, Copy, Debug, PartialEq, Eq, Structural)]
pub enum GroupAxis {
    H,
    V,
}

/// Per-node sizing: fixed main-axis size or flex weight.
#[derive(Clone, Copy, Debug, PartialEq, Eq, Structural)]
pub enum NodeSize {
    Px { px: u32 },
    Mm { mm: u32 },
    Flex { weight: u32 },
}

/// Canvas dimension: `<N>px` | `<N>mm`.
#[derive(Clone, Copy, Debug, PartialEq, Eq, Structural)]
pub enum CanvasDim {
    Px { px: u32 },
    Mm { mm: u32 },
}

/// One sized leaf.
#[derive(Clone, Debug, PartialEq, Eq)]
pub struct Leaf {
    pub element: Element,
    pub size: Option<NodeSize>,
}

/// One canvas child: a leaf with its position and optional size.
#[derive(Clone, Debug, PartialEq, Eq)]
pub struct CanvasChild {
    pub element: Element,
    pub x: CanvasDim,
    pub y: CanvasDim,
    pub size: Option<NodeSize>,
}

/// One node of the payload tree.
#[derive(Debug, PartialEq, Eq)]
pub enum Node {
    Leaf(Leaf),
    List(Vec<Node>),
    Group { axis: GroupAxis, children: Vec<Node> },
    Canvas { width: CanvasDim, height: CanvasDim, children: Vec<CanvasChild> },
}

// ---------- the model ----------

/// An element as plain values.
pub enum ElementV {
    Qr(Option<Seq<char>>),
    Id(Option<Seq<char>>, Option<u32>),
    Space(Option<SpaceSize>),
}

/// A leaf as plain values.
pub struct LeafV {
    pub element: ElementV,
    pub size: Option<NodeSize>,
}

/// A canvas child as plain values.
pub struct ChildV {
    pub element: ElementV,
    pub x: CanvasDim,
    pub y: CanvasDim,
    pub size: Option<NodeSize>,
}

/// A tree node as plain values.
pub enum NodeV {
    Leaf(LeafV),
    List(Seq<NodeV>),
    Group(GroupAxis, Seq<NodeV>),
    Canvas(CanvasDim, CanvasDim, Seq<ChildV>),
}

pub open spec fn opt_view(o: Option<String>) -> Option<Seq<char>> {
    match o {
        Some(s) => Some(s@),
        None => None,
    }
}

impl View for Element {
    type V = ElementV;

    open spec fn view(&self) -> ElementV {
        match self {
            Element::Qr { symbology } => ElementV::Qr(opt_view(*symbology)),
            Element::Id { grouping, id_chars } => ElementV::Id(opt_view(*grouping), *id_chars),
            Element::Space { size } => ElementV::Space(*size),
        }
    }
}

impl View for Leaf {
    type V = LeafV;

    open spec fn view(&self) -> LeafV {
        LeafV { element: self.element@, size: self.size }
    }
}

impl View for CanvasChild {
    type V = ChildV;

    open spec fn view(&self) -> ChildV {
        ChildV { element: self.element@, x: self.x, y: self.y, size: self.size }
    }
}

/// The elements of a list, as plain values.
pub open spec fn elements_view(v: Seq<Element>) -> Seq<ElementV> {
    v.map_values(|e: Element| e@)
}

/// A node as plain values.
pub open spec fn node_view(n: Node) -> NodeV
    decreases n, 0int,
{
    match n {
        Node::Leaf(l) => NodeV::Leaf(l@),
        Node::List(v) => NodeV::List(nodes_view(v@, v@.len() as int)),
        Node::Group { axis, children } => NodeV::Group(axis, nodes_view(children@, children@.len() as int)),
        Node::Canvas { width, height, children } => NodeV::Canvas(width, height, children@.map_values(|c: CanvasChild| c@)),
    }
}

/// The first `k` nodes of a list, as plain values.
pub open spec fn nodes_view(s: Seq<Node>, k: int) -> Seq<NodeV>
    decreases s, k,
{
    if k <= 0 || k > s.len() {
        Seq::empty()
    } else {
        nodes_view(s, k - 1).push(node_view(s[k - 1]))
    }
}

// ---------- scanning ----------

/// Whitespace the grammar skips.
pub open spec fn is_ws(c: char) -> bool {
    c == ' ' || c == '\t' || c == '\n' || c == '\r'
}

/// Characters that end a token.
pub open spec fn is_delim(c: char) -> bool {
    is_ws(c) || c == '@' || c == '[' || c == ']' || c == '(' || c == ')' || c == ','
}

/// Characters of a group tag.
pub open spec fn is_ident_char(c: char) -> bool {
    ('a' <= c && c <= 'z') || ('A' <= c && c <= 'Z') || ('0' <= c && c <= '9') || c == '_' || c == '-'
}

/// First position `≥ pos` that is not whitespace.
pub open spec fn skip_ws_s(src: Seq<char>, pos: int) -> int
    decreases src.len() - pos,
{
    if 0 <= pos < src.len() && is_ws(src[pos]) { skip_ws_s(src, pos + 1) } else { pos }
}

/// End of the token at `pos`.
pub open spec fn token_end(src: Seq<char>, pos: int) -> int
    decreases src.len() - pos,
{
    if 0 <= pos < src.len() && !is_delim(src[pos]) { token_end(src, pos + 1) } else { pos }
}

/// End of the group tag at `pos`.
pub open spec fn ident_end(src: Seq<char>, pos: int) -> int
    decreases src.len() - pos,
{
    if 0 <= pos < src.len() && is_ident_char(src[pos]) { ident_end(src, pos + 1) } else { pos }
}

/// End of the digit run at `pos`.
pub open spec fn digits_end(src: Seq<char>, pos: int) -> int
    decreases src.len() - pos,
{
    if 0 <= pos < src.len() && is_digit(src[pos]) { digits_end(src, pos + 1) } else { pos }
}

/// UTF-8 width of a char.
pub open spec fn utf8_width(c: char) -> nat {
    if (c as u32) < 0x80 { 1 } else if (c as u32) < 0x800 { 2 } else if (c as u32) < 0x10000 { 3 } else { 4 }
}

/// UTF-8 length of a text.
pub open spec fn utf8_len(s: Seq<char>) -> nat
    decreases s.len(),
{
    if s.len() == 0 { 0 } else { utf8_len(s.drop_last()) + utf8_width(s.last()) }
}

/// Byte offset of char position `pos`.
pub open spec fn byte_at(src: Seq<char>, pos: int) -> nat {
    utf8_len(src.take(pos))
}

/// The first UTF-8 byte of a char, read as a char (what a byte-wise
/// reader sees there).
pub open spec fn lead_char(c: char) -> char {
    let v = c as u32;
    if v < 0x80 { c } else if v < 0x800 { (0xC0 + v / 64) as char } else if v < 0x10000 {
        (0xE0 + v / 4096) as char
    } else {
        (0xF0 + v / 262144) as char
    }
}

/// `Debug` of an optional char.
pub open spec fn opt_char_debug(o: Option<char>) -> Seq<char> {
    match o {
        Some(c) => "Some("@ + char_debug(c) + ")"@,
        None => "None"@,
    }
}

fn skip_ws(src: &Vec<char>, pos: usize) -> (r: usize)
    requires
        pos <= src@.len(),
    ensures
        r == skip_ws_s(src@, pos as int),
        pos <= r <= src@.len(),
{
    let mut p = pos;
    while p < src.len() && (src[p] == ' ' || src[p] == '\t' || src[p] == '\n' || src[p] == '\r')
        invariant
            pos <= p <= src@.len(),
            skip_ws_s(src@, pos as int) == skip_ws_s(src@, p as int),
        decreases src@.len() - p,
    {
        p = p + 1;
    }
    p
}

fn scan_token(src: &Vec<char>, pos: usize) -> (r: usize)
    requires
        pos <= src@.len(),
    ensures
        r == token_end(src@, pos as int),
        pos <= r <= src@.len(),
{
    let mut p = pos;
    while p < src.len() && !(src[p] == ' ' || src[p] == '\t' || src[p] == '\n' || src[p] == '\r' || src[p] == '@'
        || src[p] == '[' || src[p] == ']' || src[p] == '(' || src[p] == ')' || src[p] == ',')
        invariant
            pos <= p <= src@.len(),
            token_end(src@, pos as int) == token_end(src@, p as int),
        decreases src@.len() - p,
    {
        p = p + 1;
    }
    p
}

fn scan_ident(src: &Vec<char>, pos: usize) -> (r: usize)
    requires
        pos <= src@.len(),
    ensures
        r == ident_end(src@, pos as int),
        pos <= r <= src@.len(),
{
    let mut p = pos;
    while p < src.len() && (('a' <= src[p] && src[p] <= 'z') || ('A' <= src[p] && src[p] <= 'Z')
        || ('0' <= src[p] && src[p] <= '9') || src[p] == '_' || src[p] == '-')
        invariant
            pos <= p <= src@.len(),
            ident_end(src@, pos as int) == ident_end(src@, p as int),
        decreases src@.len() - p,
    {
        p = p + 1;
    }
    p
}

fn scan_digits(src: &Vec<char>, pos: usize) -> (r: usize)
    requires
        pos <= src@.len(),
    ensures
        r == digits_end(src@, pos as int),
        pos <= r <= src@.len(),
{
    let mut p = pos;
    while p < src.len() && '0' <= src[p] && src[p] <= '9'
        invariant
            pos <= p <= src@.len(),
            digits_end(src@, pos as int) == digits_end(src@, p as int),
        decreases src@.len() - p,
    {
        p = p + 1;
    }
    p
}

proof fn lemma_utf8_len_bound(s: Seq<char>)
    ensures
        utf8_len(s) <= 4 * s.len(),
    decreases s.len(),
{
    if s.len() > 0 {
        lemma_utf8_len_bound(s.drop_last());
    }
}

/// UTF-8 byte offset of char position `pos`.
fn byte_offset(src: &Vec<char>, pos: usize) -> (r: u128)
    requires
        pos <= src@.len(),
    ensures
        r == byte_at(src@, pos as int),
{
    let mut b: u128 = 0;
    let mut i: usize = 0;
    while i < pos
        invariant
            i <= pos <= src@.len(),
            b == utf8_len(src@.take(i as int)),
        decreases pos - i,
    {
        proof {
            lemma_utf8_len_bound(src@.take(i as int));
            assert(src@.take(i + 1).drop_last() =~= src@.take(i as int));
        }
        let c = src[i] as u32;
        let w: u128 = if c < 0x80 { 1 } else if c < 0x800 { 2 } else if c < 0x10000 { 3 } else { 4 };
        b = b + w;
        i = i + 1;
    }
    b
}

fn lead_char_of(c: char) -> (r: char)
    ensures
        r == lead_char(c),
{
    let v = c as u32;
    if v < 0x80 {
        c
    } else if v < 0x800 {
        char_from(0xC0 + v / 64)
    } else if v < 0x10000 {
        char_from(0xE0 + v / 4096)
    } else {
        char_from(0xF0 + v / 262144)
    }
}

fn char_from(v: u32) -> (c: char)
    requires
        v < 0x100,
    ensures
        c == v as char,
{
    let b = v as u8;
    b as char
}

fn push_opt_char_debug(s: &mut String, o: Option<char>)
    ensures
        final(s)@ == old(s)@ + opt_char_debug(o),
{
    match o {
        Some(c) => {
            push_str(s, "Some(");
            let d = debug_char(c);
            push_str(s, d.as_str());
            push_str(s, ")");
        },
        None => push_str(s, "None"),
    }
}

// ---------- elements ----------

/// A token split at its first `:` into head and parameter.
pub open spec fn split_colon(tok: Seq<char>) -> (Seq<char>, Option<Seq<char>>) {
    match find_from(tok, ":"@, 0) {
        Some(k) => (tok.take(k), Some(tok.skip(k + 1))),
        None => (tok, None),
    }
}

/// `p` ends with `suf`.
pub open spec fn ends_with(p: Seq<char>, suf: Seq<char>) -> bool {
    p.len() >= suf.len() && occurs_at(p, suf, p.len() - suf.len())
}

/// The `id` element for a parameter.
pub open spec fn id_s(param: Option<Seq<char>>) -> Result<ElementV, Seq<char>> {
    match param {
        None => Ok(ElementV::Id(None, None)),
        Some(p) => if occurs_at(p, "chars-"@, 0) {
            let n = p.skip("chars-"@.len() as int);
            match parse_uint(n, u32::MAX as nat) {
                Some(v) => Ok(ElementV::Id(None, Some(v as u32))),
                None => Err("payload: id:chars-"@ + debug_text(n) + ": expected a whole number"@),
            }
        } else {
            Ok(ElementV::Id(Some(p), None))
        },
    }
}

/// The `space` element for a parameter.
pub open spec fn space_s(param: Option<Seq<char>>) -> Result<ElementV, Seq<char>> {
    match param {
        None => Ok(ElementV::Space(None)),
        Some(p) => if ends_with(p, "px"@) {
            match parse_uint(p.take(p.len() - "px"@.len()), u32::MAX as nat) {
                Some(v) => Ok(ElementV::Space(Some(SpaceSize::Px { px: v as u32 }))),
                None => Err("payload: space:"@ + debug_text(p) + ": px sizes are whole device px"@),
            }
        } else if ends_with(p, "mm"@) {
            match parse_uint(p.take(p.len() - "mm"@.len()), u32::MAX as nat) {
                Some(v) => Ok(ElementV::Space(Some(SpaceSize::Mm { mm: v as u32 }))),
                None => Err("payload: space:"@ + debug_text(p) + ": mm sizes are whole mm in stage 1"@),
            }
        } else {
            match parse_uint(p, u32::MAX as nat) {
                Some(v) => Ok(ElementV::Space(Some(SpaceSize::Px { px: v as u32 }))),
                None => Err("payload: space:"@ + debug_text(p) + ": expected <N>[px|mm]"@),
            }
        },
    }
}

/// The element a token names.
pub open spec fn element_s(tok: Seq<char>) -> Result<ElementV, Seq<char>> {
    let (head, param) = split_colon(tok);
    if head == "qr"@ {
        Ok(ElementV::Qr(param))
    } else if head == "id"@ {
        id_s(param)
    } else if head == "space"@ {
        space_s(param)
    } else {
        Err("payload: unknown element "@ + debug_text(head) + " (stage 1 supports: qr, id, space)"@)
    }
}

fn sub_chars(src: &Vec<char>, lo: usize, hi: usize) -> (r: Vec<char>)
    requires
        lo <= hi <= src@.len(),
    ensures
        r@ == src@.subrange(lo as int, hi as int),
{
    let mut out: Vec<char> = Vec::new();
    let mut i = lo;
    while i < hi
        invariant
            lo <= i <= hi <= src@.len(),
            out@ == src@.subrange(lo as int, i as int),
        decreases hi - i,
    {
        out.push(src[i]);
        i = i + 1;
        assert(out@ =~= src@.subrange(lo as int, i as int));
    }
    out
}

fn text_of(cs: &Vec<char>) -> (r: String)
    ensures
        r@ == cs@,
{
    let r = string_of(cs, 0, cs.len());
    assert(cs@.subrange(0, cs@.len() as int) =~= cs@);
    r
}

fn parse_id(param: Option<Vec<char>>) -> (r: Result<Element, String>)
    ensures
        match id_s(match param { Some(p) => Some(p@), None => None }) {
            Ok(ev) => r matches Ok(e) && e@ == ev,
            Err(m) => r matches Err(s) && s@ == m,
        },
{
    let p = match param {
        None => return Ok(Element::Id { grouping: None, id_chars: None }),
        Some(p) => p,
    };
    let prefix = to_chars("chars-");
    if starts_at(&p, 0, &prefix) {
        proof { reveal_strlit("chars-"); }
        let k = prefix.len();
        match parse_uint_range(&p, k, p.len(), u32::MAX as u64) {
            Some(v) => {
                proof { assert(p@.subrange(k as int, p@.len() as int) =~= p@.skip("chars-"@.len() as int)); }
                Ok(Element::Id { grouping: None, id_chars: Some(v as u32) })
            },
            None => {
                proof { assert(p@.subrange(k as int, p@.len() as int) =~= p@.skip("chars-"@.len() as int)); }
                let n = string_of(&p, k, p.len());
                let mut m = "payload: id:chars-".to_owned();
                let d = debug_str(n.as_str());
                push_str(&mut m, d.as_str());
                push_str(&mut m, ": expected a whole number");
                Err(m)
            },
        }
    } else {
        Ok(Element::Id { grouping: Some(text_of(&p)), id_chars: None })
    }
}

fn parse_space(param: Option<Vec<char>>) -> (r: Result<Element, String>)
    ensures
        match space_s(match param { Some(p) => Some(p@), None => None }) {
            Ok(ev) => r matches Ok(e) && e@ == ev,
            Err(m) => r matches Err(s) && s@ == m,
        },
{
    let p = match param {
        None => return Ok(Element::Space { size: None }),
        Some(p) => p,
    };
    let px = to_chars("px");
    let mm = to_chars("mm");
    proof {
        reveal_strlit("px");
        reveal_strlit("mm");
    }
    let n = p.len();
    if n >= 2 && starts_at(&p, n - 2, &px) {
        match parse_uint_range(&p, 0, n - 2, u32::MAX as u64) {
            Some(v) => {
                proof { assert(p@.subrange(0, n - 2) =~= p@.take(p@.len() - "px"@.len())); }
                return Ok(Element::Space { size: Some(SpaceSize::Px { px: v as u32 }) });
            },
            None => {
                proof { assert(p@.subrange(0, n - 2) =~= p@.take(p@.len() - "px"@.len())); }
                let mut m = "payload: space:".to_owned();
                let d = debug_str(text_of(&p).as_str());
                push_str(&mut m, d.as_str());
                push_str(&mut m, ": px sizes are whole device px");
                return Err(m);
            },
        }
    }
    if n >= 2 && starts_at(&p, n - 2, &mm) {
        match parse_uint_range(&p, 0, n - 2, u32::MAX as u64) {
            Some(v) => {
                proof { assert(p@.subrange(0, n - 2) =~= p@.take(p@.len() - "mm"@.len())); }
                return Ok(Element::Space { size: Some(SpaceSize::Mm { mm: v as u32 }) });
            },
            None => {
                proof { assert(p@.subrange(0, n - 2) =~= p@.take(p@.len() - "mm"@.len())); }
                let mut m = "payload: space:".to_owned();
                let d = debug_str(text_of(&p).as_str());
                push_str(&mut m, d.as_str());
                push_str(&mut m, ": mm sizes are whole mm in stage 1");
                return Err(m);
            },
        }
    }
    match parse_uint_range(&p, 0, n, u32::MAX as u64) {
        Some(v) => {
            proof { assert(p@.subrange(0, n as int) =~= p@); }
            Ok(Element::Space { size: Some(SpaceSize::Px { px: v as u32 }) })
        },
        None => {
            proof { assert(p@.subrange(0, n as int) =~= p@); }
            let mut m = "payload: space:".to_owned();
            let d = debug_str(text_of(&p).as_str());
            push_str(&mut m, d.as_str());
            push_str(&mut m, ": expected <N>[px|mm]");
            Err(m)
        },
    }
}

/// Parse one element token (`qr`, `id:554`, `space:8px`, …).
fn parse_element(src: &Vec<char>, lo: usize, hi: usize) -> (r: Result<Element, String>)
    requires
        lo <= hi <= src@.len(),
    ensures
        match element_s(src@.subrange(lo as int, hi as int)) {
            Ok(ev) => r matches Ok(e) && e@ == ev,
            Err(m) => r matches Err(s) && s@ == m,
        },
{
    let tok = sub_chars(src, lo, hi);
    let colon = to_chars(":");
    let (head, param): (Vec<char>, Option<Vec<char>>) = match find_pat(&tok, &colon, 0) {
        Some(k) => {
            proof { reveal_strlit(":"); }
            (sub_chars(&tok, 0, k), Some(sub_chars(&tok, k + 1, tok.len())))
        },
        None => (tok, None),
    };
    proof {
        let (h, pm) = split_colon(src@.subrange(lo as int, hi as int));
        assert(head@ =~= h);
        assert(match param { Some(p) => Some(p@), None => None::<Seq<char>> } =~= pm);
    }
    if eq_lit(&head, "qr") {
        Ok(Element::Qr { symbology: match param { Some(p) => Some(text_of(&p)), None => None } })
    } else if eq_lit(&head, "id") {
        parse_id(param)
    } else if eq_lit(&head, "space") {
        parse_space(param)
    } else {
        let mut m = "payload: unknown element ".to_owned();
        let d = debug_str(text_of(&head).as_str());
        push_str(&mut m, d.as_str());
        push_str(&mut m, " (stage 1 supports: qr, id, space)");
        Err(m)
    }
}

/// Canonical text of an element.
pub open spec fn element_text(e: ElementV) -> Seq<char> {
    match e {
        ElementV::Qr(None) => "qr"@,
        ElementV::Qr(Some(s)) => "qr:"@ + s,
        ElementV::Id(Some(g), _) => "id:"@ + g,
        ElementV::Id(None, Some(n)) => "id:chars-"@ + dec(n as nat),
        ElementV::Id(None, None) => "id"@,
        ElementV::Space(None) => "space"@,
        ElementV::Space(Some(SpaceSize::Px { px })) => "space:"@ + dec(px as nat) + "px"@,
        ElementV::Space(Some(SpaceSize::Mm { mm })) => "space:"@ + dec(mm as nat) + "mm"@,
    }
}

/// Render an element back into its canonical string form.
pub fn element_canonical(e: &Element) -> (r: String)
    ensures
        r@ == element_text(e@),
{
    match e {
        Element::Qr { symbology: None } => "qr".to_owned(),
        Element::Qr { symbology: Some(s) } => {
            let mut r = "qr:".to_owned();
            push_str(&mut r, s.as_str());
            r
        },
        Element::Id { grouping: Some(g), .. } => {
            let mut r = "id:".to_owned();
            push_str(&mut r, g.as_str());
            r
        },
        Element::Id { grouping: None, id_chars: Some(n) } => {
            let mut r = "id:chars-".to_owned();
            push_dec(&mut r, *n as u128);
            r
        },
        Element::Id { grouping: None, id_chars: None } => "id".to_owned(),
        Element::Space { size: None } => "space".to_owned(),
        Element::Space { size: Some(SpaceSize::Px { px }) } => {
            let mut r = "space:".to_owned();
            push_dec(&mut r, *px as u128);
            push_str(&mut r, "px");
            r
        },
        Element::Space { size: Some(SpaceSize::Mm { mm }) } => {
            let mut r = "space:".to_owned();
            push_dec(&mut r, *mm as u128);
            push_str(&mut r, "mm");
            r
        },
    }
}

/// The canonical texts of the first `k` elements, space-joined.
pub open spec fn canonical_text(es: Seq<ElementV>, k: int) -> Seq<char>
    decreases k,
{
    if k <= 0 {
        Seq::empty()
    } else if k == 1 {
        element_text(es[0])
    } else {
        canonical_text(es, k - 1) + " "@ + element_text(es[k - 1])
    }
}

/// Canonical string of a whole element list: the elements' canonical
/// forms joined by single spaces.
pub fn canonicalize(elements: &[Element]) -> (r: String)
    ensures
        r@ == canonical_text(elements@.map_values(|e: Element| e@), elements@.len() as int),
{
    let ghost es = elements@.map_values(|e: Element| e@);
    let mut out = String::new();
    let mut i: usize = 0;
    while i < elements.len()
        invariant
            es == elements@.map_values(|e: Element| e@),
            i <= elements@.len(),
            out@ == canonical_text(es, i as int),
        decreases elements@.len() - i,
    {
        if i > 0 {
            push_str(&mut out, " ");
        }
        let t = element_canonical(&elements[i]);
        push_str(&mut out, t.as_str());
        i = i + 1;
        proof {
            if i == 1 {
                assert(out@ =~= canonical_text(es, 1));
            }
        }
    }
    out
}

// ---------- the tree grammar ----------

pub open spec fn msg_num_expected(b: nat) -> Seq<char> {
    "payload: expected a whole number at offset "@ + dec(b)
}

pub open spec fn msg_num_bad(b: nat) -> Seq<char> {
    "payload: bad number at offset "@ + dec(b)
}

pub open spec fn msg_expect(c: char, b: nat, got: Option<char>) -> Seq<char> {
    "payload: expected "@ + char_debug(c) + " at offset "@ + dec(b) + ", got "@ + opt_char_debug(got)
}

pub open spec fn msg_size_unit(n: u32) -> Seq<char> {
    "payload: size "@ + dec(n as nat) + " missing unit — use "@ + dec(n as nat) + "px or "@ + dec(n as nat) + "mm or wN"@
}

pub open spec fn msg_cdim_unit(n: u32) -> Seq<char> {
    "payload: canvas dim "@ + dec(n as nat) + " missing unit — use px or mm"@
}

pub open spec fn msg_no_element(b: nat) -> Seq<char> {
    "payload: expected an element at offset "@ + dec(b)
}

pub open spec fn msg_no_child(b: nat) -> Seq<char> {
    "payload: expected a canvas child at offset "@ + dec(b)
}

pub open spec fn msg_nested() -> Seq<char> {
    "payload: staged: groups inside groups not yet enabled — one nesting level only"@
}

pub open spec fn msg_empty_tag() -> Seq<char> {
    "payload: empty group tag — expected one of h, v, c"@
}

pub open spec fn msg_dims_unit(w: u32, h: u32) -> Seq<char> {
    "payload: canvas dims "@ + dec(w as nat) + "x"@ + dec(h as nat) + " missing unit — use px or mm"@
}

pub open spec fn msg_unknown_tag(tag: Seq<char>) -> Seq<char> {
    "payload: unknown group tag "@ + debug_text(tag) + " — expected h, v, or c"@
}

pub open spec fn msg_canvas_root() -> Seq<char> {
    "payload: canvas group [c …] is root-only — staged: canvas inside flow"@
}

/// A whole number at `pos`.
pub open spec fn uint_s(src: Seq<char>, pos: int) -> Result<(u32, int), Seq<char>> {
    let e = digits_end(src, pos);
    if e == pos {
        Err(msg_num_expected(byte_at(src, pos)))
    } else if digits_value(src.subrange(pos, e)) <= u32::MAX {
        Ok((digits_value(src.subrange(pos, e)) as u32, e))
    } else {
        Err(msg_num_bad(byte_at(src, pos)))
    }
}

/// The unit at `pos`: 1 for `px`, 2 for `mm`, 0 for none.
pub open spec fn unit_s(src: Seq<char>, pos: int) -> int {
    if 0 <= pos && pos + 2 <= src.len() && src[pos] == 'p' && src[pos + 1] == 'x' {
        1
    } else if 0 <= pos && pos + 2 <= src.len() && src[pos] == 'm' && src[pos + 1] == 'm' {
        2
    } else {
        0
    }
}

/// `c` after optional whitespace; the position after it.
pub open spec fn expect_s(src: Seq<char>, pos: int, c: char) -> Result<int, Seq<char>> {
    let p = skip_ws_s(src, pos);
    if p < src.len() && src[p] == c {
        Ok(p + 1)
    } else {
        Err(msg_expect(c, byte_at(src, p), if p < src.len() { Some(lead_char(src[p])) } else { None }))
    }
}

/// An optional `@size` at `pos`.
pub open spec fn osize_s(src: Seq<char>, pos: int) -> Result<(Option<NodeSize>, int), Seq<char>> {
    if 0 <= pos < src.len() && src[pos] == '@' {
        if pos + 1 < src.len() && src[pos + 1] == 'w' {
            match uint_s(src, pos + 2) {
                Err(m) => Err(m),
                Ok((n, q)) => Ok((Some(NodeSize::Flex { weight: n }), q)),
            }
        } else {
            match uint_s(src, pos + 1) {
                Err(m) => Err(m),
                Ok((n, q)) => if unit_s(src, q) == 1 {
                    Ok((Some(NodeSize::Px { px: n }), q + 2))
                } else if unit_s(src, q) == 2 {
                    Ok((Some(NodeSize::Mm { mm: n }), q + 2))
                } else {
                    Err(msg_size_unit(n))
                },
            }
        }
    } else {
        Ok((None, pos))
    }
}

/// A canvas coordinate at `pos`.
pub open spec fn cdim_s(src: Seq<char>, pos: int) -> Result<(CanvasDim, int), Seq<char>> {
    match uint_s(src, pos) {
        Err(m) => Err(m),
        Ok((n, q)) => if unit_s(src, q) == 1 {
            Ok((CanvasDim::Px { px: n }, q + 2))
        } else if unit_s(src, q) == 2 {
            Ok((CanvasDim::Mm { mm: n }, q + 2))
        } else {
            Err(msg_cdim_unit(n))
        },
    }
}

/// A leaf at `pos` (a non-whitespace position).
pub open spec fn leaf_s(src: Seq<char>, pos: int) -> Result<(LeafV, int), Seq<char>> {
    let e = token_end(src, pos);
    if e == pos {
        Err(msg_no_element(byte_at(src, pos)))
    } else {
        match element_s(src.subrange(pos, e)) {
            Err(m) => Err(m),
            Ok(el) => match osize_s(src, e) {
                Err(m) => Err(m),
                Ok((sz, q)) => Ok((LeafV { element: el, size: sz }, q)),
            },
        }
    }
}

/// One canvas child `leaf@(x,y)[@size]` at `pos`.
pub open spec fn child_s(src: Seq<char>, pos: int) -> Result<(ChildV, int), Seq<char>> {
    let e = token_end(src, pos);
    if e == pos {
        Err(msg_no_child(byte_at(src, pos)))
    } else {
        match element_s(src.subrange(pos, e)) {
            Err(m) => Err(m),
            Ok(el) => match expect_s(src, e, '@') {
                Err(m) => Err(m),
                Ok(q1) => match expect_s(src, q1, '(') {
                    Err(m) => Err(m),
                    Ok(q2) => match cdim_s(src, q2) {
                        Err(m) => Err(m),
                        Ok((x, q3)) => match expect_s(src, q3, ',') {
                            Err(m) => Err(m),
                            Ok(q4) => match cdim_s(src, skip_ws_s(src, q4)) {
                                Err(m) => Err(m),
                                Ok((y, q5)) => match expect_s(src, q5, ')') {
                                    Err(m) => Err(m),
                                    Ok(q6) => match osize_s(src, q6) {
                                        Err(m) => Err(m),
                                        Ok((sz, q7)) => Ok((ChildV { element: el, x, y, size: sz }, q7)),
                                    },
                                },
                            },
                        },
                    },
                },
            },
        }
    }
}

/// Canvas children from `pos` up to `]` or the end.
pub open spec fn children_s(src: Seq<char>, pos: int) -> Result<(Seq<ChildV>, int), Seq<char>>
    decreases src.len() - pos,
{
    let p = skip_ws_s(src, pos);
    if !(0 <= pos <= p < src.len()) || src[p] == ']' {
        Ok((Seq::empty(), p))
    } else {
        match child_s(src, p) {
            Err(m) => Err(m),
            Ok((c, q)) => if p < q <= src.len() {
                match children_s(src, q) {
                    Err(m) => Err(m),
                    Ok((rest, r)) => Ok((seq![c] + rest, r)),
                }
            } else {
                Ok((seq![c], q))
            },
        }
    }
}

/// Leaves inside a group, from `pos` up to `]` or the end; a nested
/// group is refused.
pub open spec fn inside_s(src: Seq<char>, pos: int) -> Result<(Seq<NodeV>, int), Seq<char>>
    decreases src.len() - pos,
{
    let p = skip_ws_s(src, pos);
    if !(0 <= pos <= p < src.len()) || src[p] == ']' {
        Ok((Seq::empty(), p))
    } else if src[p] == '[' {
        Err(msg_nested())
    } else {
        match leaf_s(src, p) {
            Err(m) => Err(m),
            Ok((l, q)) => if p < q <= src.len() {
                match inside_s(src, q) {
                    Err(m) => Err(m),
                    Ok((rest, r)) => Ok((seq![NodeV::Leaf(l)] + rest, r)),
                }
            } else {
                Ok((seq![NodeV::Leaf(l)], q))
            },
        }
    }
}

/// A group at `pos` (a `[`): `[h: …]`, `[v: …]` or `[c WxH: …]`.
pub open spec fn group_s(src: Seq<char>, pos: int) -> Result<(NodeV, int), Seq<char>> {
    let p = skip_ws_s(src, pos + 1);
    let e = ident_end(src, p);
    let tag = src.subrange(p, e);
    if e == p {
        Err(msg_empty_tag())
    } else if tag == "h"@ || tag == "v"@ {
        match expect_s(src, e, ':') {
            Err(m) => Err(m),
            Ok(q1) => match inside_s(src, q1) {
                Err(m) => Err(m),
                Ok((children, q2)) => match expect_s(src, q2, ']') {
                    Err(m) => Err(m),
                    Ok(q3) => Ok((NodeV::Group(if tag == "h"@ { GroupAxis::H } else { GroupAxis::V }, children), q3)),
                },
            },
        }
    } else if tag == "c"@ {
        match uint_s(src, skip_ws_s(src, e)) {
            Err(m) => Err(m),
            Ok((w, q1)) => match expect_s(src, q1, 'x') {
                Err(m) => Err(m),
                Ok(q2) => match uint_s(src, q2) {
                    Err(m) => Err(m),
                    Ok((h, q3)) => {
                        let u = unit_s(src, q3);
                        if u == 0 {
                            Err(msg_dims_unit(w, h))
                        } else {
                            let (wd, hd) = if u == 1 {
                                (CanvasDim::Px { px: w }, CanvasDim::Px { px: h })
                            } else {
                                (CanvasDim::Mm { mm: w }, CanvasDim::Mm { mm: h })
                            };
                            match expect_s(src, q3 + 2, ':') {
                                Err(m) => Err(m),
                                Ok(q4) => match children_s(src, q4) {
                                    Err(m) => Err(m),
                                    Ok((cs, q5)) => match expect_s(src, q5, ']') {
                                        Err(m) => Err(m),
                                        Ok(q6) => Ok((NodeV::Canvas(wd, hd, cs), q6)),
                                    },
                                },
                            }
                        }
                    },
                },
            },
        }
    } else {
        Err(msg_unknown_tag(tag))
    }
}

/// Root nodes from `pos` to the end.
pub open spec fn root_s(src: Seq<char>, pos: int) -> Result<(Seq<NodeV>, int), Seq<char>>
    decreases src.len() - pos,
{
    let p = skip_ws_s(src, pos);
    if !(0 <= pos <= p < src.len()) {
        Ok((Seq::empty(), p))
    } else {
        let one = if src[p] == '[' {
            group_s(src, p)
        } else {
            match leaf_s(src, p) {
                Err(m) => Err(m),
                Ok((l, q)) => Ok((NodeV::Leaf(l), q)),
            }
        };
        match one {
            Err(m) => Err(m),
            Ok((n, q)) => if p < q <= src.len() {
                match root_s(src, q) {
                    Err(m) => Err(m),
                    Ok((rest, r)) => Ok((seq![n] + rest, r)),
                }
            } else {
                Ok((seq![n], q))
            },
        }
    }
}

/// The payload tree of a text: the root nodes, a single node standing
/// alone; a canvas only as the sole root node.
pub open spec fn tree_s(src: Seq<char>) -> Result<NodeV, Seq<char>> {
    match root_s(src, 0) {
        Err(m) => Err(m),
        Ok((nodes, _)) => if nodes.len() > 1 && exists|i: int| 0 <= i < nodes.len() && #[trigger] nodes[i] is Canvas {
            Err(msg_canvas_root())
        } else if nodes.len() == 1 {
            Ok(nodes[0])
        } else {
            Ok(NodeV::List(nodes))
        },
    }
}

// ---------- the parser ----------

proof fn lemma_digits_all(src: Seq<char>, pos: int)
    requires
        0 <= pos <= src.len(),
    ensures
        pos <= digits_end(src, pos) <= src.len(),
        crate::text::all_digits(src.subrange(pos, digits_end(src, pos))),
    decreases src.len() - pos,
{
    if pos < src.len() && is_digit(src[pos]) {
        lemma_digits_all(src, pos + 1);
        let e = digits_end(src, pos);
        assert forall|i: int| 0 <= i < src.subrange(pos, e).len() implies is_digit(#[trigger] src.subrange(pos, e)[i]) by {
            if i > 0 {
                assert(src.subrange(pos, e)[i] == src.subrange(pos + 1, e)[i - 1]);
            }
        }
    }
}

fn read_uint(src: &Vec<char>, pos: usize) -> (r: Result<(u32, usize), String>)
    requires
        pos <= src@.len(),
    ensures
        match uint_s(src@, pos as int) {
            Ok((n, q)) => r matches Ok(t) && t.0 == n && t.1 == q,
            Err(m) => r matches Err(s) && s@ == m,
        },
        r matches Ok(t) ==> pos < t.1 <= src@.len(),
{
    let e = scan_digits(src, pos);
    if e == pos {
        let mut m = "payload: expected a whole number at offset ".to_owned();
        push_dec(&mut m, byte_offset(src, pos));
        return Err(m);
    }
    proof {
        lemma_digits_all(src@, pos as int);
        let body = src@.subrange(pos as int, e as int);
        assert(body[0] == src@[pos as int]);
        assert(!(body.len() > 0 && body[0] == '+'));
    }
    match parse_uint_range(src, pos, e, u32::MAX as u64) {
        Some(v) => Ok((v as u32, e)),
        None => {
            let mut m = "payload: bad number at offset ".to_owned();
            push_dec(&mut m, byte_offset(src, pos));
            Err(m)
        },
    }
}

fn read_unit(src: &Vec<char>, pos: usize) -> (r: u8)
    requires
        pos <= src@.len(),
    ensures
        r as int == unit_s(src@, pos as int),
{
    if src.len() - pos >= 2 && src[pos] == 'p' && src[pos + 1] == 'x' {
        1
    } else if src.len() - pos >= 2 && src[pos] == 'm' && src[pos + 1] == 'm' {
        2
    } else {
        0
    }
}

fn expect(src: &Vec<char>, pos: usize, c: char) -> (r: Result<usize, String>)
    requires
        pos <= src@.len(),
    ensures
        match expect_s(src@, pos as int, c) {
            Ok(q) => r matches Ok(t) && t == q,
            Err(m) => r matches Err(s) && s@ == m,
        },
        r matches Ok(q) ==> pos < q <= src@.len(),
{
    let p = skip_ws(src, pos);
    if p < src.len() && src[p] == c {
        return Ok(p + 1);
    }
    let mut m = "payload: expected ".to_owned();
    let d = debug_char(c);
    push_str(&mut m, d.as_str());
    push_str(&mut m, " at offset ");
    push_dec(&mut m, byte_offset(src, p));
    push_str(&mut m, ", got ");
    let got = if p < src.len() { Some(lead_char_of(src[p])) } else { None };
    push_opt_char_debug(&mut m, got);
    Err(m)
}

fn read_optional_size(src: &Vec<char>, pos: usize) -> (r: Result<(Option<NodeSize>, usize), String>)
    requires
        pos <= src@.len(),
    ensures
        match osize_s(src@, pos as int) {
            Ok((sz, q)) => r matches Ok(t) && t.0 == sz && t.1 == q,
            Err(m) => r matches Err(s) && s@ == m,
        },
        r matches Ok(t) ==> pos <= t.1 <= src@.len(),
{
    if !(pos < src.len() && src[pos] == '@') {
        return Ok((None, pos));
    }
    if pos + 1 < src.len() && src[pos + 1] == 'w' {
        let (n, q) = match read_uint(src, pos + 2) {
            Ok(t) => t,
            Err(m) => return Err(m),
        };
        return Ok((Some(NodeSize::Flex { weight: n }), q));
    }
    let len = src.len();
    let (n, q) = match read_uint(src, pos + 1) {
        Ok(t) => t,
        Err(m) => return Err(m),
    };
    let u = read_unit(src, q);
    proof { assert(u != 0 ==> q + 2 <= len); }
    if u == 1 {
        Ok((Some(NodeSize::Px { px: n }), q + 2))
    } else if u == 2 {
        Ok((Some(NodeSize::Mm { mm: n }), q + 2))
    } else {
        let mut m = "payload: size ".to_owned();
        push_dec(&mut m, n as u128);
        push_str(&mut m, " missing unit — use ");
        push_dec(&mut m, n as u128);
        push_str(&mut m, "px or ");
        push_dec(&mut m, n as u128);
        push_str(&mut m, "mm or wN");
        Err(m)
    }
}

fn read_canvas_dim(src: &Vec<char>, pos: usize) -> (r: Result<(CanvasDim, usize), String>)
    requires
        pos <= src@.len(),
    ensures
        match cdim_s(src@, pos as int) {
            Ok((d, q)) => r matches Ok(t) && t.0 == d && t.1 == q,
            Err(m) => r matches Err(s) && s@ == m,
        },
        r matches Ok(t) ==> pos < t.1 <= src@.len(),
{
    let len = src.len();
    let (n, q) = match read_uint(src, pos) {
        Ok(t) => t,
        Err(m) => return Err(m),
    };
    let u = read_unit(src, q);
    proof { assert(u != 0 ==> q + 2 <= len); }
    if u == 1 {
        Ok((CanvasDim::Px { px: n }, q + 2))
    } else if u == 2 {
        Ok((CanvasDim::Mm { mm: n }, q + 2))
    } else {
        let mut m = "payload: canvas dim ".to_owned();
        push_dec(&mut m, n as u128);
        push_str(&mut m, " missing unit — use px or mm");
        Err(m)
    }
}

fn parse_leaf(src: &Vec<char>, pos: usize) -> (r: Result<(Leaf, usize), String>)
    requires
        pos <= src@.len(),
    ensures
        match leaf_s(src@, pos as int) {
            Ok((l, q)) => r matches Ok(t) && t.0@ == l && t.1 == q,
            Err(m) => r matches Err(s) && s@ == m,
        },
        r matches Ok(t) ==> pos < t.1 <= src@.len(),
{
    let e = scan_token(src, pos);
    if e == pos {
        let mut m = "payload: expected an element at offset ".to_owned();
        push_dec(&mut m, byte_offset(src, pos));
        return Err(m);
    }
    let element = match parse_element(src, pos, e) {
        Ok(el) => el,
        Err(m) => return Err(m),
    };
    let (size, q) = match read_optional_size(src, e) {
        Ok(t) => t,
        Err(m) => return Err(m),
    };
    Ok((Leaf { element, size }, q))
}

fn parse_canvas_child(src: &Vec<char>, pos: usize) -> (r: Result<(CanvasChild, usize), String>)
    requires
        pos <= src@.len(),
    ensures
        match child_s(src@, pos as int) {
            Ok((c, q)) => r matches Ok(t) && t.0@ == c && t.1 == q,
            Err(m) => r matches Err(s) && s@ == m,
        },
        r matches Ok(t) ==> pos < t.1 <= src@.len(),
{
    let e = scan_token(src, pos);
    if e == pos {
        let mut m = "payload: expected a canvas child at offset ".to_owned();
        push_dec(&mut m, byte_offset(src, pos));
        return Err(m);
    }
    let element = match parse_element(src, pos, e) {
        Ok(el) => el,
        Err(m) => return Err(m),
    };
    let q1 = match expect(src, e, '@') {
        Ok(q) => q,
        Err(m) => return Err(m),
    };
    let q2 = match expect(src, q1, '(') {
        Ok(q) => q,
        Err(m) => return Err(m),
    };
    let (x, q3) = match read_canvas_dim(src, q2) {
        Ok(t) => t,
        Err(m) => return Err(m),
    };
    let q4 = match expect(src, q3, ',') {
        Ok(q) => q,
        Err(m) => return Err(m),
    };
    let q4w = skip_ws(src, q4);
    let (y, q5) = match read_canvas_dim(src, q4w) {
        Ok(t) => t,
        Err(m) => return Err(m),
    };
    let q6 = match expect(src, q5, ')') {
        Ok(q) => q,
        Err(m) => return Err(m),
    };
    let (size, q7) = match read_optional_size(src, q6) {
        Ok(t) => t,
        Err(m) => return Err(m),
    };
    Ok((CanvasChild { element, x, y, size }, q7))
}

/// `prefix` joined in front of a parse result.
pub open spec fn prefixed<T>(prefix: Seq<T>, r: Result<(Seq<T>, int), Seq<char>>) -> Result<(Seq<T>, int), Seq<char>> {
    match r {
        Ok((rest, q)) => Ok((prefix + rest, q)),
        Err(m) => Err(m),
    }
}

fn parse_canvas_children(src: &Vec<char>, pos: usize) -> (r: Result<(Vec<CanvasChild>, usize), String>)
    requires
        pos <= src@.len(),
    ensures
        match children_s(src@, pos as int) {
            Ok((cs, q)) => r matches Ok(t) && t.0@.map_values(|c: CanvasChild| c@) == cs && t.1 == q,
            Err(m) => r matches Err(s) && s@ == m,
        },
        r matches Ok(t) ==> pos <= t.1 <= src@.len(),
{
    let mut out: Vec<CanvasChild> = Vec::new();
    let mut p0 = pos;
    loop
        invariant
            pos <= p0 <= src@.len(),
            children_s(src@, pos as int) == prefixed(out@.map_values(|c: CanvasChild| c@), children_s(src@, p0 as int)),
        decreases src@.len() - p0,
    {
        let p = skip_ws(src, p0);
        if p >= src.len() || src[p] == ']' {
            proof {
                assert(out@.map_values(|c: CanvasChild| c@) + Seq::<ChildV>::empty() =~= out@.map_values(|c: CanvasChild| c@));
            }
            return Ok((out, p));
        }
        let (c, q) = match parse_canvas_child(src, p) {
            Ok(t) => t,
            Err(m) => return Err(m),
        };
        let ghost old_views = out@.map_values(|c: CanvasChild| c@);
        let ghost cv = c@;
        out.push(c);
        proof {
            assert(out@.map_values(|c: CanvasChild| c@) =~= old_views.push(cv));
            match children_s(src@, q as int) {
                Ok((rest, r)) => {
                    assert(old_views + (seq![cv] + rest) =~= old_views.push(cv) + rest);
                },
                Err(_) => {},
            }
        }
        p0 = q;
    }
}

proof fn lemma_nodes_view_len(s: Seq<Node>, k: int)
    requires
        0 <= k <= s.len(),
    ensures
        nodes_view(s, k).len() == k,
        forall|i: int| 0 <= i < k ==> #[trigger] nodes_view(s, k)[i] == node_view(s[i]),
    decreases k,
{
    if k > 0 {
        lemma_nodes_view_len(s, k - 1);
    }
}

proof fn lemma_nodes_view_push(s: Seq<Node>, n: Node)
    ensures
        nodes_view(s.push(n), s.len() + 1int) == nodes_view(s, s.len() as int).push(node_view(n)),
{
    lemma_nodes_view_len(s, s.len() as int);
    lemma_nodes_view_len(s.push(n), s.len() + 1int);
    assert(nodes_view(s.push(n), s.len() as int) =~= nodes_view(s, s.len() as int)) by {
        lemma_nodes_view_len(s.push(n), s.len() as int);
        assert forall|i: int| 0 <= i < s.len() implies nodes_view(s.push(n), s.len() as int)[i] == nodes_view(s, s.len() as int)[i] by {
            assert(s.push(n)[i] == s[i]);
        }
    }
}

/// The nodes of a vector as plain values.
pub open spec fn vec_nodes_view(v: Seq<Node>) -> Seq<NodeV> {
    nodes_view(v, v.len() as int)
}

fn parse_group_leaves(src: &Vec<char>, pos: usize) -> (r: Result<(Vec<Node>, usize), String>)
    requires
        pos <= src@.len(),
    ensures
        match inside_s(src@, pos as int) {
            Ok((ns, q)) => r matches Ok(t) && vec_nodes_view(t.0@) == ns && t.1 == q,
            Err(m) => r matches Err(s) && s@ == m,
        },
        r matches Ok(t) ==> pos <= t.1 <= src@.len(),
{
    let mut out: Vec<Node> = Vec::new();
    let mut p0 = pos;
    loop
        invariant
            pos <= p0 <= src@.len(),
            inside_s(src@, pos as int) == prefixed(vec_nodes_view(out@), inside_s(src@, p0 as int)),
        decreases src@.len() - p0,
    {
        let p = skip_ws(src, p0);
        if p >= src.len() || src[p] == ']' {
            proof {
                assert(vec_nodes_view(out@) + Seq::<NodeV>::empty() =~= vec_nodes_view(out@));
            }
            return Ok((out, p));
        }
        if src[p] == '[' {
            return Err("payload: staged: groups inside groups not yet enabled — one nesting level only".to_owned());
        }
        let (leaf, q) = match parse_leaf(src, p) {
            Ok(t) => t,
            Err(m) => return Err(m),
        };
        let ghost old_views = vec_nodes_view(out@);
        let ghost old_out = out@;
        let node = Node::Leaf(leaf);
        let ghost nv = node_view(node);
        out.push(node);
        proof {
            lemma_nodes_view_push(old_out, node);
            assert(out@ == old_out.push(node));
            match inside_s(src@, q as int) {
                Ok((rest, r)) => {
                    assert(old_views + (seq![nv] + rest) =~= old_views.push(nv) + rest);
                },
                Err(_) => {},
            }
        }
        p0 = q;
    }
}

fn parse_group(src: &Vec<char>, pos: usize) -> (r: Result<(Node, usize), String>)
    requires
        pos < src@.len(),
    ensures
        match group_s(src@, pos as int) {
            Ok((n, q)) => r matches Ok(t) && node_view(t.0) == n && t.1 == q,
            Err(m) => r matches Err(s) && s@ == m,
        },
        r matches Ok(t) ==> pos < t.1 <= src@.len(),
{
    let len = src.len();
    let p = skip_ws(src, pos + 1);
    let e = scan_ident(src, p);
    let tag = sub_chars(src, p, e);
    if e == p {
        return Err("payload: empty group tag — expected one of h, v, c".to_owned());
    }
    if eq_lit(&tag, "h") || eq_lit(&tag, "v") {
        let q1 = match expect(src, e, ':') {
            Ok(q) => q,
            Err(m) => return Err(m),
        };
        let (children, q2) = match parse_group_leaves(src, q1) {
            Ok(t) => t,
            Err(m) => return Err(m),
        };
        let q3 = match expect(src, q2, ']') {
            Ok(q) => q,
            Err(m) => return Err(m),
        };
        let axis = if eq_lit(&tag, "h") { GroupAxis::H } else { GroupAxis::V };
        return Ok((Node::Group { axis, children }, q3));
    }
    if eq_lit(&tag, "c") {
        let pw = skip_ws(src, e);
        let (w, q1) = match read_uint(src, pw) {
            Ok(t) => t,
            Err(m) => return Err(m),
        };
        let q2 = match expect(src, q1, 'x') {
            Ok(q) => q,
            Err(m) => return Err(m),
        };
        let (h, q3) = match read_uint(src, q2) {
            Ok(t) => t,
            Err(m) => return Err(m),
        };
        let u = read_unit(src, q3);
        proof { assert(u != 0 ==> q3 + 2 <= len); }
        if u == 0 {
            let mut m = "payload: canvas dims ".to_owned();
            push_dec(&mut m, w as u128);
            push_str(&mut m, "x");
            push_dec(&mut m, h as u128);
            push_str(&mut m, " missing unit — use px or mm");
            return Err(m);
        }
        let (width, height) = if u == 1 {
            (CanvasDim::Px { px: w }, CanvasDim::Px { px: h })
        } else {
            (CanvasDim::Mm { mm: w }, CanvasDim::Mm { mm: h })
        };
        let q4 = match expect(src, q3 + 2, ':') {
            Ok(q) => q,
            Err(m) => return Err(m),
        };
        let (children, q5) = match parse_canvas_children(src, q4) {
            Ok(t) => t,
            Err(m) => return Err(m),
        };
        let q6 = match expect(src, q5, ']') {
            Ok(q) => q,
            Err(m) => return Err(m),
        };
        return Ok((Node::Canvas { width, height, children }, q6));
    }
    let mut m = "payload: unknown group tag ".to_owned();
    let d = debug_str(text_of(&tag).as_str());
    push_str(&mut m, d.as_str());
    push_str(&mut m, " — expected h, v, or c");
    Err(m)
}

fn parse_root_nodes(src: &Vec<char>) -> (r: Result<Vec<Node>, String>)
    ensures
        match root_s(src@, 0) {
            Ok((ns, _)) => r matches Ok(v) && vec_nodes_view(v@) == ns,
            Err(m) => r matches Err(s) && s@ == m,
        },
{
    let mut out: Vec<Node> = Vec::new();
    let mut p0: usize = 0;
    loop
        invariant
            p0 <= src@.len(),
            root_s(src@, 0) == prefixed(vec_nodes_view(out@), root_s(src@, p0 as int)),
        decreases src@.len() - p0,
    {
        let p = skip_ws(src, p0);
        if p >= src.len() {
            proof {
                assert(vec_nodes_view(out@) + Seq::<NodeV>::empty() =~= vec_nodes_view(out@));
            }
            return Ok(out);
        }
        let (node, q) = if src[p] == '[' {
            match parse_group(src, p) {
                Ok(t) => t,
                Err(m) => return Err(m),
            }
        } else {
            match parse_leaf(src, p) {
                Ok((l, q)) => (Node::Leaf(l), q),
                Err(m) => return Err(m),
            }
        };
        let ghost old_views = vec_nodes_view(out@);
        let ghost old_out = out@;
        let ghost nv = node_view(node);
        out.push(node);
        proof {
            lemma_nodes_view_push(old_out, node);
            match root_s(src@, q as int) {
                Ok((rest, r)) => {
                    assert(old_views + (seq![nv] + rest) =~= old_views.push(nv) + rest);
                },
                Err(_) => {},
            }
        }
        p0 = q;
    }
}

/// Parse a payload string into its tree: bare leaves (`qr id`), one
/// level of `h`/`v` groups (`[h: qr id]`), a canvas group as the sole
/// root node (`[c 64x32px: qr@(0px,0px)]`), per-leaf sizes (`qr@8px`,
/// `id@w2`). A single root node stands alone; several form a list.
pub fn parse_tree(input: &str) -> (r: Result<Node, String>)
    ensures
        match tree_s(input@) {
            Ok(n) => r matches Ok(t) && node_view(t) == n,
            Err(m) => r matches Err(s) && s@ == m,
        },
{
    let src = to_chars(input);
    let mut nodes = match parse_root_nodes(&src) {
        Ok(v) => v,
        Err(m) => return Err(m),
    };
    let ghost views = vec_nodes_view(nodes@);
    proof { lemma_nodes_view_len(nodes@, nodes@.len() as int); }
    let mut has_canvas = false;
    let mut i: usize = 0;
    while i < nodes.len()
        invariant
            i <= nodes@.len(),
            views == vec_nodes_view(nodes@),
            views.len() == nodes@.len(),
            forall|j: int| 0 <= j < nodes@.len() ==> #[trigger] views[j] == node_view(nodes@[j]),
            has_canvas <==> exists|j: int| 0 <= j < i && #[trigger] views[j] is Canvas,
        decreases nodes@.len() - i,
    {
        let c = match &nodes[i] {
            Node::Canvas { .. } => true,
            _ => false,
        };
        proof {
            assert(views[i as int] == node_view(nodes@[i as int]));
        }
        if c {
            has_canvas = true;
        }
        i = i + 1;
    }
    if has_canvas && nodes.len() > 1 {
        return Err("payload: canvas group [c …] is root-only — staged: canvas inside flow".to_owned());
    }
    if nodes.len() == 1 {
        let n = nodes.pop().unwrap();
        return Ok(n);
    }
    proof {
        assert(node_view(Node::List(nodes)) == NodeV::List(nodes_view(nodes@, nodes@.len() as int)));
    }
    Ok(Node::List(nodes))
}

// ---------- flattening ----------

pub open spec fn msg_flatten_canvas() -> Seq<char> {
    "payload: canvas group cannot be flattened — dispatch on the parsed tree (canvas is a root-only structure with explicit child positions)"@
}

/// The elements of a tree in order; a canvas cannot be flattened.
pub open spec fn flatten_s(n: NodeV) -> Result<Seq<ElementV>, Seq<char>>
    decreases n, 0int,
{
    match n {
        NodeV::Leaf(l) => Ok(seq![l.element]),
        NodeV::List(ns) => flatten_all(ns, ns.len() as int),
        NodeV::Group(_, ns) => flatten_all(ns, ns.len() as int),
        NodeV::Canvas(_, _, _) => Err(msg_flatten_canvas()),
    }
}

/// The elements of the first `k` nodes, in order.
pub open spec fn flatten_all(ns: Seq<NodeV>, k: int) -> Result<Seq<ElementV>, Seq<char>>
    decreases ns, k,
{
    if k <= 0 || k > ns.len() {
        Ok(Seq::empty())
    } else {
        match flatten_all(ns, k - 1) {
            Err(m) => Err(m),
            Ok(a) => match flatten_s(ns[k - 1]) {
                Err(m) => Err(m),
                Ok(b) => Ok(a + b),
            },
        }
    }
}

fn copy_element(e: &Element) -> (r: Element)
    ensures
        r@ == e@,
{
    match e {
        Element::Qr { symbology } => Element::Qr { symbology: match symbology { Some(s) => Some(s.clone()), None => None } },
        Element::Id { grouping, id_chars } => Element::Id {
            grouping: match grouping { Some(s) => Some(s.clone()), None => None },
            id_chars: *id_chars,
        },
        Element::Space { size } => Element::Space { size: *size },
    }
}

/// Flatten a tree into its element list (the flat engine's input);
/// errors on a canvas, which is dispatched on the tree instead.
pub fn flatten(tree: &Node) -> (r: Result<Vec<Element>, String>)
    ensures
        match flatten_s(node_view(*tree)) {
            Ok(es) => r matches Ok(v) && elements_view(v@) == es,
            Err(m) => r matches Err(s) && s@ == m,
        },
    decreases tree,
{
    match tree {
        Node::Leaf(l) => {
            let mut v: Vec<Element> = Vec::new();
            v.push(copy_element(&l.element));
            proof {
                assert(node_view(*tree) == NodeV::Leaf(l@));
                assert(flatten_s(NodeV::Leaf(l@)) == Ok::<Seq<ElementV>, Seq<char>>(seq![l@.element]));
                assert(elements_view(v@) =~= seq![l.element@]);
            }
            Ok(v)
        },
        Node::List(children) => {
            proof { lemma_nodes_view_len(children@, children@.len() as int); }
            flatten_children(children)
        },
        Node::Group { children, .. } => {
            proof { lemma_nodes_view_len(children@, children@.len() as int); }
            flatten_children(children)
        },
        Node::Canvas { .. } => Err("payload: canvas group cannot be flattened — dispatch on the parsed tree (canvas is a root-only structure with explicit child positions)".to_owned()),
    }
}

fn flatten_children(children: &Vec<Node>) -> (r: Result<Vec<Element>, String>)
    ensures
        match flatten_all(vec_nodes_view(children@), children@.len() as int) {
            Ok(es) => r matches Ok(v) && elements_view(v@) == es,
            Err(m) => r matches Err(s) && s@ == m,
        },
    decreases children,
{
    let ghost ns = vec_nodes_view(children@);
    proof { lemma_nodes_view_len(children@, children@.len() as int); }
    let mut out: Vec<Element> = Vec::new();
    let mut i: usize = 0;
    proof { assert(elements_view(out@) =~= Seq::<ElementV>::empty()); }
    while i < children.len()
        invariant
            ns == vec_nodes_view(children@),
            ns.len() == children@.len(),
            forall|j: int| 0 <= j < children@.len() ==> #[trigger] ns[j] == node_view(children@[j]),
            i <= children@.len(),
            flatten_all(ns, i as int) == Ok::<Seq<ElementV>, Seq<char>>(elements_view(out@)),
        decreases children@.len() - i,
    {
        proof { assert(ns[i as int] == node_view(children@[i as int])); }
        let mut part = match flatten(&children[i]) {
            Ok(v) => v,
            Err(m) => {
                proof { lemma_flatten_all_err(ns, i + 1, ns.len() as int); }
                return Err(m);
            },
        };
        let ghost before = elements_view(out@);
        let ghost pv = elements_view(part@);
        out.append(&mut part);
        i = i + 1;
        proof {
            assert(elements_view(out@) =~= before + pv);
        }
    }
    Ok(out)
}

proof fn lemma_flatten_all_err(ns: Seq<NodeV>, k: int, j: int)
    requires
        0 <= k <= j <= ns.len(),
        flatten_all(ns, k) is Err,
    ensures
        flatten_all(ns, j) == flatten_all(ns, k),
    decreases j - k,
{
    if k < j {
        lemma_flatten_all_err(ns, k, j - 1);
    }
}

/// The flat element list of a payload string: its tree, flattened.
pub open spec fn parse_s(src: Seq<char>) -> Result<Seq<ElementV>, Seq<char>> {
    match tree_s(src) {
        Err(m) => Err(m),
        Ok(n) => flatten_s(n),
    }
}

/// Parse a payload string into its flat element list: groups flatten to
/// their leaves; a canvas errors (it needs the tree).
pub fn parse(input: &str) -> (r: Result<Vec<Element>, String>)
    ensures
        match parse_s(input@) {
            Ok(es) => r matches Ok(v) && elements_view(v@) == es,
            Err(m) => r matches Err(s) && s@ == m,
        },
{
    let tree = match parse_tree(input) {
        Ok(t) => t,
        Err(m) => return Err(m),
    };
    flatten(&tree)
}

// ---------- the canonical round trip ----------

/// No char of `s` ends a token.
pub open spec fn no_delims(s: Seq<char>) -> bool {
    forall|i: int| 0 <= i < s.len() ==> !is_delim(#[trigger] s[i])
}

/// An element whose canonical text is one token that names it: its
/// parameters hold no token-ending char, and an `id` grouping does not
/// read as a `chars-N` budget.
pub open spec fn token_safe(e: ElementV) -> bool {
    match e {
        ElementV::Qr(Some(s)) => no_delims(s),
        ElementV::Id(Some(g), None) => no_delims(g) && !occurs_at(g, "chars-"@, 0),
        ElementV::Id(Some(_), Some(_)) => false,
        _ => true,
    }
}

proof fn lemma_digit_char(d: nat)
    requires
        d < 10,
    ensures
        is_digit(crate::text::digit_char(d)),
        (crate::text::digit_char(d) as u32) - ('0' as u32) == d,
{
}

pub proof fn lemma_dec_digits(n: nat)
    ensures
        crate::text::all_digits(dec(n)),
        digits_value(dec(n)) == n,
        dec(n).len() >= 1,
        no_delims(dec(n)),
    decreases n,
{
    if n < 10 {
        lemma_digit_char(n);
        assert(dec(n).drop_last() =~= Seq::<char>::empty());
        assert(dec(n).last() == crate::text::digit_char(n));
        assert(digits_value(Seq::<char>::empty()) == 0);
    } else {
        lemma_dec_digits(n / 10);
        lemma_digit_char(n % 10);
        let d = dec(n);
        assert(d.drop_last() =~= dec(n / 10));
        assert(d.last() == crate::text::digit_char(n % 10));
        assert(digits_value(d) == digits_value(dec(n / 10)) * 10 + (n % 10));
        assert((n / 10) * 10 + n % 10 == n);
        assert forall|i: int| 0 <= i < d.len() implies is_digit(#[trigger] d[i]) by {
            if i < d.len() - 1 {
                assert(d[i] == dec(n / 10)[i]);
            }
        }
    }
    let d = dec(n);
    assert forall|i: int| 0 <= i < d.len() implies !is_delim(#[trigger] d[i]) by {
        assert(is_digit(d[i]));
    }
}

proof fn lemma_parse_dec(n: u32)
    ensures
        parse_uint(dec(n as nat), u32::MAX as nat) == Some(n as nat),
{
    lemma_dec_digits(n as nat);
    assert(is_digit(dec(n as nat)[0]));
}

proof fn lemma_no_delims_concat(a: Seq<char>, b: Seq<char>)
    requires
        no_delims(a),
        no_delims(b),
    ensures
        no_delims(a + b),
{
    assert forall|i: int| 0 <= i < (a + b).len() implies !is_delim(#[trigger] (a + b)[i]) by {
        if i < a.len() {
            assert((a + b)[i] == a[i]);
        } else {
            assert((a + b)[i] == b[i - a.len()]);
        }
    }
}

/// Head `h` then `:` then `p` splits at the colon when `h` has none.
proof fn lemma_split_after(h: Seq<char>, p: Seq<char>)
    requires
        forall|i: int| 0 <= i < h.len() ==> #[trigger] h[i] != ':',
    ensures
        split_colon(h + ":"@ + p) == (h, Some(p)),
{
    reveal_strlit(":");
    let t = h + ":"@ + p;
    assert forall|k: int| 0 <= k < h.len() implies !occurs_at(t, ":"@, k) by {
        assert(t.subrange(k, k + 1)[0] == h[k]);
    }
    assert(occurs_at(t, ":"@, h.len() as int)) by {
        assert(t.subrange(h.len() as int, h.len() + 1int) =~= ":"@);
    }
    lemma_find_first(t, ":"@, 0, h.len() as int);
    assert(t.take(h.len() as int) =~= h);
    assert(t.skip(h.len() + 1int) =~= p);
}

proof fn lemma_find_first(s: Seq<char>, pat: Seq<char>, from: int, k: int)
    requires
        0 <= from <= k,
        occurs_at(s, pat, k),
        forall|j: int| from <= j < k ==> !occurs_at(s, pat, j),
    ensures
        find_from(s, pat, from) == Some(k),
    decreases k - from,
{
    if from < k {
        lemma_find_first(s, pat, from + 1, k);
    }
}

proof fn lemma_no_colon(h: Seq<char>)
    requires
        forall|i: int| 0 <= i < h.len() ==> #[trigger] h[i] != ':',
    ensures
        split_colon(h) == (h, None::<Seq<char>>),
{
    reveal_strlit(":");
    lemma_no_find(h, ":"@, 0);
}

proof fn lemma_no_find(s: Seq<char>, pat: Seq<char>, from: int)
    requires
        pat.len() == 1,
        0 <= from,
        forall|i: int| 0 <= i < s.len() ==> #[trigger] s[i] != pat[0],
    ensures
        find_from(s, pat, from) is None,
    decreases s.len() + 1 - from,
{
    if from + pat.len() <= s.len() {
        assert(s.subrange(from, from + 1)[0] == s[from]);
        lemma_no_find(s, pat, from + 1);
    }
}

proof fn lemma_text_qr(p: Option<Seq<char>>)
    requires
        p matches Some(s) ==> no_delims(s),
    ensures
        element_s(element_text(ElementV::Qr(p))) == Ok::<ElementV, Seq<char>>(ElementV::Qr(p)),
        no_delims(element_text(ElementV::Qr(p))),
        element_text(ElementV::Qr(p)).len() > 0,
{
    reveal_strlit("qr");
    reveal_strlit("qr:");
    reveal_strlit(":");
    assert(no_delims("qr"@) && no_delims(":"@));
    match p {
        None => {
            lemma_no_colon("qr"@);
        },
        Some(t) => {
            assert("qr:"@ =~= "qr"@ + ":"@);
            lemma_split_after("qr"@, t);
            lemma_no_delims_concat("qr"@, ":"@);
            lemma_no_delims_concat("qr"@ + ":"@, t);
        },
    }
}

proof fn lemma_text_id(g: Option<Seq<char>>, n: Option<u32>)
    requires
        token_safe(ElementV::Id(g, n)),
    ensures
        element_s(element_text(ElementV::Id(g, n))) == Ok::<ElementV, Seq<char>>(ElementV::Id(g, n)),
        no_delims(element_text(ElementV::Id(g, n))),
        element_text(ElementV::Id(g, n)).len() > 0,
{
    reveal_strlit("qr");
    reveal_strlit("id");
    reveal_strlit("space");
    reveal_strlit("id");
    reveal_strlit("id:");
    reveal_strlit("id:chars-");
    reveal_strlit("chars-");
    reveal_strlit(":");
    assert("id"@[0] != "qr"@[0]);
    assert("id"@ != "qr"@);
    assert(no_delims("id"@) && no_delims(":"@) && no_delims("chars-"@));
    match (g, n) {
        (None, None) => {
            lemma_no_colon("id"@);
            assert(element_text(ElementV::Id(g, n)) == "id"@);
            assert(split_colon("id"@) == ("id"@, None::<Seq<char>>));
        },
        (Some(t), _) => {
            assert("id:"@ =~= "id"@ + ":"@);
            lemma_split_after("id"@, t);
            lemma_no_delims_concat("id"@, ":"@);
            lemma_no_delims_concat("id"@ + ":"@, t);
        },
        (None, Some(v)) => {
            let p = "chars-"@ + dec(v as nat);
            assert("id:chars-"@ + dec(v as nat) =~= "id"@ + ":"@ + p);
            lemma_split_after("id"@, p);
            assert(p.subrange(0, 6) =~= "chars-"@);
            assert(p.skip(6) =~= dec(v as nat));
            lemma_parse_dec(v);
            lemma_dec_digits(v as nat);
            lemma_no_delims_concat("chars-"@, dec(v as nat));
            lemma_no_delims_concat("id"@, ":"@);
            lemma_no_delims_concat("id"@ + ":"@, p);
            assert(occurs_at(p, "chars-"@, 0));
            assert(p.skip("chars-"@.len() as int) == dec(v as nat));
            assert(id_s(Some(p)) == Ok::<ElementV, Seq<char>>(ElementV::Id(None, Some(v))));
            assert(element_text(ElementV::Id(g, n)) == "id:chars-"@ + dec(v as nat));
        },
    }
}

proof fn lemma_text_space_px(v: u32)
    ensures
        element_s(element_text(ElementV::Space(Some(SpaceSize::Px { px: v }))))
            == Ok::<ElementV, Seq<char>>(ElementV::Space(Some(SpaceSize::Px { px: v }))),
        no_delims(element_text(ElementV::Space(Some(SpaceSize::Px { px: v })))),
        element_text(ElementV::Space(Some(SpaceSize::Px { px: v }))).len() > 0,
{
    reveal_strlit("qr");
    reveal_strlit("id");
    reveal_strlit("space");
    reveal_strlit("space");
    reveal_strlit("space:");
    reveal_strlit("px");
    reveal_strlit(":");
    assert(no_delims("space"@) && no_delims(":"@) && no_delims("px"@));
    let d = dec(v as nat);
    let p = d + "px"@;
    assert("space:"@ + d + "px"@ =~= "space"@ + ":"@ + p);
    lemma_split_after("space"@, p);
    assert(p.subrange(p.len() - 2, p.len() as int) =~= "px"@);
    assert(p.take(p.len() - 2) =~= d);
    lemma_parse_dec(v);
    lemma_dec_digits(v as nat);
    lemma_no_delims_concat(d, "px"@);
    lemma_no_delims_concat("space"@, ":"@);
    lemma_no_delims_concat("space"@ + ":"@, p);
}

proof fn lemma_text_space_mm(v: u32)
    ensures
        element_s(element_text(ElementV::Space(Some(SpaceSize::Mm { mm: v }))))
            == Ok::<ElementV, Seq<char>>(ElementV::Space(Some(SpaceSize::Mm { mm: v }))),
        no_delims(element_text(ElementV::Space(Some(SpaceSize::Mm { mm: v })))),
        element_text(ElementV::Space(Some(SpaceSize::Mm { mm: v }))).len() > 0,
{
    reveal_strlit("qr");
    reveal_strlit("id");
    reveal_strlit("space");
    reveal_strlit("space");
    reveal_strlit("space:");
    reveal_strlit("px");
    reveal_strlit("mm");
    reveal_strlit(":");
    assert(no_delims("space"@) && no_delims(":"@) && no_delims("mm"@));
    let d = dec(v as nat);
    let p = d + "mm"@;
    assert("space:"@ + d + "mm"@ =~= "space"@ + ":"@ + p);
    lemma_split_after("space"@, p);
    assert(p.subrange(p.len() - 2, p.len() as int) =~= "mm"@);
    assert(!occurs_at(p, "px"@, p.len() - "px"@.len())) by {
        assert(p.subrange(p.len() - 2, p.len() as int)[0] == 'm');
    }
    assert(p.take(p.len() - 2) =~= d);
    lemma_parse_dec(v);
    lemma_dec_digits(v as nat);
    lemma_no_delims_concat(d, "mm"@);
    lemma_no_delims_concat("space"@, ":"@);
    lemma_no_delims_concat("space"@ + ":"@, p);
}

/// The canonical text of a token-safe element is one token that parses
/// back to it.
pub proof fn lemma_element_text(e: ElementV)
    requires
        token_safe(e),
    ensures
        element_s(element_text(e)) == Ok::<ElementV, Seq<char>>(e),
        no_delims(element_text(e)),
        element_text(e).len() > 0,
{
    match e {
        ElementV::Qr(p) => lemma_text_qr(p),
        ElementV::Id(g, n) => lemma_text_id(g, n),
        ElementV::Space(None) => {
            reveal_strlit("space");
            reveal_strlit("qr");
            reveal_strlit("id");
            assert(no_delims("space"@));
            lemma_no_colon("space"@);
        },
        ElementV::Space(Some(SpaceSize::Px { px })) => lemma_text_space_px(px),
        ElementV::Space(Some(SpaceSize::Mm { mm })) => lemma_text_space_mm(mm),
    }
}

/// Leaves, unsized, of a list of elements.
pub open spec fn leaves_of(es: Seq<ElementV>) -> Seq<NodeV> {
    es.map_values(|e: ElementV| NodeV::Leaf(LeafV { element: e, size: None }))
}

proof fn lemma_canonical_prefix(es: Seq<ElementV>, k: int, m: int)
    requires
        0 <= k <= m <= es.len(),
    ensures
        canonical_text(es, k).len() <= canonical_text(es, m).len(),
        canonical_text(es, m).take(canonical_text(es, k).len() as int) == canonical_text(es, k),
    decreases m - k,
{
    if k < m {
        lemma_canonical_prefix(es, k, m - 1);
        let a = canonical_text(es, k);
        let b = canonical_text(es, m - 1);
        let c = canonical_text(es, m);
        if m == 1 {
            assert(k == 0);
            assert(c.take(0) =~= a);
        } else {
            assert(c == b + " "@ + element_text(es[m - 1]));
            assert(c.take(a.len() as int) =~= b.take(a.len() as int));
        }
    } else {
        assert(canonical_text(es, m).take(canonical_text(es, m).len() as int) =~= canonical_text(es, m));
    }
}

proof fn lemma_token_end(src: Seq<char>, p: int, e: int)
    requires
        0 <= p <= e <= src.len(),
        forall|j: int| p <= j < e ==> !is_delim(#[trigger] src[j]),
        e == src.len() || is_delim(src[e]),
    ensures
        token_end(src, p) == e,
    decreases e - p,
{
    if p < e {
        lemma_token_end(src, p + 1, e);
    }
}

#[verifier::spinoff_prover]
#[verifier::rlimit(40)]
proof fn lemma_root_suffix(es: Seq<ElementV>, i: int)
    requires
        0 <= i <= es.len(),
        forall|j: int| 0 <= j < es.len() ==> token_safe(#[trigger] es[j]),
    ensures
        root_s(canonical_text(es, es.len() as int), canonical_text(es, i).len() as int)
            == Ok::<(Seq<NodeV>, int), Seq<char>>((leaves_of(es.skip(i)), canonical_text(es, es.len() as int).len() as int)),
    decreases es.len() - i,
{
    reveal_strlit(" ");
    let n = es.len() as int;
    let big = canonical_text(es, n);
    let ci = canonical_text(es, i).len() as int;
    lemma_canonical_prefix(es, i, n);
    if i == n {
        assert(leaves_of(es.skip(i)) =~= Seq::<NodeV>::empty());
    } else {
        lemma_root_suffix(es, i + 1);
        lemma_canonical_prefix(es, i + 1, n);
        let t = element_text(es[i]);
        lemma_element_text(es[i]);
        let cur = canonical_text(es, i);
        let next = canonical_text(es, i + 1);
        let st = if i == 0 { 0 } else { ci + 1 };
        if i == 0 {
            assert(next == t);
        } else {
            assert(next == cur + " "@ + t);
        }
        assert(next.len() == st + t.len());
        assert(next.take(ci) =~= cur);
        assert forall|j: int| st <= j < st + t.len() implies big[j] == t[j - st] by {
            assert(big[j] == big.take(next.len() as int)[j]);
            assert(next[j] == t[j - st]);
        }
        if i > 0 {
            assert(big[ci] == big.take(next.len() as int)[ci]);
            assert(next[ci] == ' ');
            assert(skip_ws_s(big, ci + 1) == ci + 1) by {
                assert(!is_delim(t[0]));
            }
        } else {
            assert(!is_delim(t[0]));
        }
        assert(skip_ws_s(big, ci) == st);
        let e = st + t.len();
        if i + 1 < n {
            let nn = canonical_text(es, i + 2);
            lemma_canonical_prefix(es, i + 2, n);
            assert(nn == next + " "@ + element_text(es[i + 1]));
            assert(big[e] == big.take(nn.len() as int)[e]);
            assert(nn[e] == ' ');
        }
        assert forall|j: int| st <= j < e implies !is_delim(#[trigger] big[j]) by {
            assert(big[j] == t[j - st]);
        }
        lemma_token_end(big, st, e);
        assert(big.subrange(st, e) =~= t);
        assert(es.skip(i).drop_first() =~= es.skip(i + 1));
        assert(leaves_of(es.skip(i)) =~= seq![NodeV::Leaf(LeafV { element: es[i], size: None })] + leaves_of(es.skip(i + 1)));
    }
}

proof fn lemma_flatten_leaves(es: Seq<ElementV>, k: int)
    requires
        0 <= k <= es.len(),
    ensures
        flatten_all(leaves_of(es), k) == Ok::<Seq<ElementV>, Seq<char>>(es.take(k)),
    decreases k,
{
    if k > 0 {
        lemma_flatten_leaves(es, k - 1);
        let l = leaves_of(es);
        assert(l.len() == es.len());
        assert(l[k - 1] == NodeV::Leaf(LeafV { element: es[k - 1], size: None }));
        assert(flatten_s(l[k - 1]) == Ok::<Seq<ElementV>, Seq<char>>(seq![es[k - 1]]));
        assert(es.take(k - 1) + seq![es[k - 1]] =~= es.take(k));
    } else {
        assert(es.take(0) =~= Seq::<ElementV>::empty());
    }
}

/// Law: the canonical string of a parsed element list parses back to the
/// same list — one parser serves both the request and the receipt. (The
/// elements must be token-safe, as every parsed element is: parameters
/// without token-ending chars, no grouping that reads as `chars-N`.)
pub proof fn law_canonical_roundtrip(es: Seq<ElementV>)
    requires
        forall|i: int| 0 <= i < es.len() ==> token_safe(#[trigger] es[i]),
    ensures
        parse_s(canonical_text(es, es.len() as int)) == Ok::<Seq<ElementV>, Seq<char>>(es),
{
    lemma_root_suffix(es, 0);
    assert(es.skip(0) =~= es);
    let nodes = leaves_of(es);
    assert forall|i: int| 0 <= i < nodes.len() implies !(#[trigger] nodes[i] is Canvas) by {}
    lemma_flatten_leaves(es, es.len() as int);
    assert(es.take(es.len() as int) =~= es);
    if es.len() == 1 {
        assert(flatten_s(nodes[0]) == Ok::<Seq<ElementV>, Seq<char>>(seq![es[0]]));
        assert(seq![es[0]] =~= es);
    }
}


// ---------- every parsed element is token-safe ----------

/// Every leaf of a tree holds a token-safe element.
pub open spec fn safe_node(n: NodeV) -> bool
    decreases n, 0int,
{
    match n {
        NodeV::Leaf(l) => token_safe(l.element),
        NodeV::List(ns) => safe_all(ns, ns.len() as int),
        NodeV::Group(_, ns) => safe_all(ns, ns.len() as int),
        NodeV::Canvas(_, _, _) => true,
    }
}

/// The first `k` nodes are safe.
pub open spec fn safe_all(ns: Seq<NodeV>, k: int) -> bool
    decreases ns, k,
{
    if k <= 0 || k > ns.len() {
        true
    } else {
        safe_all(ns, k - 1) && safe_node(ns[k - 1])
    }
}

proof fn lemma_safe_all_forall(ns: Seq<NodeV>, k: int)
    requires
        0 <= k <= ns.len(),
        forall|i: int| 0 <= i < k ==> safe_node(#[trigger] ns[i]),
    ensures
        safe_all(ns, k),
    decreases k,
{
    if k > 0 {
        lemma_safe_all_forall(ns, k - 1);
    }
}

proof fn lemma_token_no_delims(src: Seq<char>, pos: int)
    requires
        0 <= pos <= src.len(),
    ensures
        pos <= token_end(src, pos) <= src.len(),
        no_delims(src.subrange(pos, token_end(src, pos))),
    decreases src.len() - pos,
{
    if pos < src.len() && !is_delim(src[pos]) {
        lemma_token_no_delims(src, pos + 1);
        let e = token_end(src, pos);
        let t = src.subrange(pos, e);
        assert forall|i: int| 0 <= i < t.len() implies !is_delim(#[trigger] t[i]) by {
            if i > 0 {
                assert(t[i] == src.subrange(pos + 1, e)[i - 1]);
            }
        }
    } else {
        assert(src.subrange(pos, pos).len() == 0);
    }
}

proof fn lemma_element_safe(tok: Seq<char>)
    requires
        no_delims(tok),
        element_s(tok) is Ok,
    ensures
        token_safe(element_s(tok)->Ok_0),
{
    reveal_strlit(":");
    crate::text::lemma_find_bounds(tok, ":"@, 0);
    let (head, param) = split_colon(tok);
    match find_from(tok, ":"@, 0) {
        Some(k) => {
            let p = tok.skip(k + 1);
            assert(param == Some(p));
            assert forall|i: int| 0 <= i < p.len() implies !is_delim(#[trigger] p[i]) by {
                assert(p[i] == tok[i + k + 1]);
            }
        },
        None => {},
    }
}

proof fn lemma_leaf_safe(src: Seq<char>, pos: int)
    requires
        leaf_s(src, pos) is Ok,
    ensures
        token_safe(leaf_s(src, pos)->Ok_0.0.element),
{
    if 0 <= pos <= src.len() {
        lemma_token_no_delims(src, pos);
        lemma_element_safe(src.subrange(pos, token_end(src, pos)));
    }
}

proof fn lemma_inside_safe(src: Seq<char>, pos: int)
    requires
        inside_s(src, pos) is Ok,
    ensures
        forall|i: int| 0 <= i < inside_s(src, pos)->Ok_0.0.len()
            ==> safe_node(#[trigger] inside_s(src, pos)->Ok_0.0[i]),
    decreases src.len() - pos,
{
    let p = skip_ws_s(src, pos);
    if !(0 <= pos <= p < src.len()) || src[p] == ']' {
    } else if src[p] == '[' {
    } else {
        lemma_leaf_safe(src, p);
        let (l, q) = leaf_s(src, p)->Ok_0;
        if p < q <= src.len() {
            lemma_inside_safe(src, q);
            let rest = inside_s(src, q)->Ok_0.0;
            let all = seq![NodeV::Leaf(l)] + rest;
            assert forall|i: int| 0 <= i < all.len() implies safe_node(#[trigger] all[i]) by {
                if i > 0 {
                    assert(all[i] == rest[i - 1]);
                }
            }
        }
    }
}

proof fn lemma_group_safe(src: Seq<char>, pos: int)
    requires
        group_s(src, pos) is Ok,
    ensures
        safe_node(group_s(src, pos)->Ok_0.0),
{
    let p = skip_ws_s(src, pos + 1);
    let e = ident_end(src, p);
    let tag = src.subrange(p, e);
    if e != p && (tag == "h"@ || tag == "v"@) {
        let q1 = expect_s(src, e, ':')->Ok_0;
        lemma_inside_safe(src, q1);
        let ns = inside_s(src, q1)->Ok_0.0;
        lemma_safe_all_forall(ns, ns.len() as int);
    }
}

proof fn lemma_root_safe(src: Seq<char>, pos: int)
    requires
        root_s(src, pos) is Ok,
    ensures
        forall|i: int| 0 <= i < root_s(src, pos)->Ok_0.0.len()
            ==> safe_node(#[trigger] root_s(src, pos)->Ok_0.0[i]),
    decreases src.len() - pos,
{
    let p = skip_ws_s(src, pos);
    if 0 <= pos <= p < src.len() {
        if src[p] == '[' {
            lemma_group_safe(src, p);
        } else {
            lemma_leaf_safe(src, p);
        }
        let one = if src[p] == '[' {
            group_s(src, p)
        } else {
            match leaf_s(src, p) {
                Err(m) => Err(m),
                Ok((l, q)) => Ok((NodeV::Leaf(l), q)),
            }
        };
        let (n, q) = one->Ok_0;
        assert(safe_node(n));
        if p < q <= src.len() {
            lemma_root_safe(src, q);
            let rest = root_s(src, q)->Ok_0.0;
            let all = seq![n] + rest;
            assert forall|i: int| 0 <= i < all.len() implies safe_node(#[trigger] all[i]) by {
                if i > 0 {
                    assert(all[i] == rest[i - 1]);
                }
            }
        }
    }
}

proof fn lemma_flatten_safe(n: NodeV)
    requires
        safe_node(n),
        flatten_s(n) is Ok,
    ensures
        forall|i: int| 0 <= i < flatten_s(n)->Ok_0.len() ==> token_safe(#[trigger] flatten_s(n)->Ok_0[i]),
    decreases n, 0int,
{
    match n {
        NodeV::Leaf(l) => {},
        NodeV::List(ns) => { lemma_flatten_all_safe(ns, ns.len() as int); },
        NodeV::Group(_, ns) => { lemma_flatten_all_safe(ns, ns.len() as int); },
        NodeV::Canvas(_, _, _) => {},
    }
}

proof fn lemma_flatten_all_safe(ns: Seq<NodeV>, k: int)
    requires
        safe_all(ns, k),
        flatten_all(ns, k) is Ok,
    ensures
        forall|i: int| 0 <= i < flatten_all(ns, k)->Ok_0.len() ==> token_safe(#[trigger] flatten_all(ns, k)->Ok_0[i]),
    decreases ns, k,
{
    if 0 < k <= ns.len() {
        lemma_flatten_all_safe(ns, k - 1);
        lemma_flatten_safe(ns[k - 1]);
        let a = flatten_all(ns, k - 1)->Ok_0;
        let b = flatten_s(ns[k - 1])->Ok_0;
        assert forall|i: int| 0 <= i < (a + b).len() implies token_safe(#[trigger] (a + b)[i]) by {
            if i >= a.len() {
                assert((a + b)[i] == b[i - a.len()]);
            } else {
                assert((a + b)[i] == a[i]);
            }
        }
    }
}

/// Every element a payload parses to is token-safe: its parameters come
/// out of one token, and an `id` parameter reading as `chars-N` becomes a
/// budget, not a grouping.
pub proof fn lemma_parsed_elements_are_token_safe(src: Seq<char>)
    requires
        parse_s(src) is Ok,
    ensures
        forall|i: int| 0 <= i < parse_s(src)->Ok_0.len() ==> token_safe(#[trigger] parse_s(src)->Ok_0[i]),
{
    lemma_root_safe(src, 0);
    let nodes = root_s(src, 0)->Ok_0.0;
    let n = tree_s(src)->Ok_0;
    if nodes.len() == 1 {
        assert(n == nodes[0]);
    } else {
        assert(n == NodeV::List(nodes));
        lemma_safe_all_forall(nodes, nodes.len() as int);
    }
    lemma_flatten_safe(n);
}

/// Law: whatever a payload parses to, its canonical string parses back to
/// the same element list.
pub proof fn law_parsed_canonical_roundtrip(src: Seq<char>)
    requires
        parse_s(src) is Ok,
    ensures
        parse_s(canonical_text(parse_s(src)->Ok_0, parse_s(src)->Ok_0.len() as int)) == parse_s(src),
{
    lemma_parsed_elements_are_token_safe(src);
    law_canonical_roundtrip(parse_s(src)->Ok_0);
}


proof fn lemma_flatten_leaves_in_order(ns: Seq<NodeV>, k: int)
    requires
        0 <= k <= ns.len(),
        forall|i: int| 0 <= i < ns.len() ==> #[trigger] ns[i] is Leaf,
    ensures
        flatten_all(ns, k) == Ok::<Seq<ElementV>, Seq<char>>(Seq::new(k as nat, |i: int| ns[i]->Leaf_0.element)),
    decreases k,
{
    if k > 0 {
        lemma_flatten_leaves_in_order(ns, k - 1);
        assert(ns[k - 1] is Leaf);
        let l = ns[k - 1]->Leaf_0;
        assert(ns[k - 1] == NodeV::Leaf(l));
        assert(flatten_s(NodeV::Leaf(l)) == Ok::<Seq<ElementV>, Seq<char>>(seq![l.element]));
        assert(flatten_s(ns[k - 1]) == Ok::<Seq<ElementV>, Seq<char>>(seq![l.element]));
        assert(Seq::new((k - 1) as nat, |i: int| ns[i]->Leaf_0.element) + seq![ns[k - 1]->Leaf_0.element]
            =~= Seq::new(k as nat, |i: int| ns[i]->Leaf_0.element));
    } else {
        assert(Seq::new(0, |i: int| ns[i]->Leaf_0.element) =~= Seq::<ElementV>::empty());
    }
}

/// Law: flattening takes a leaf to its element, a list or a group of
/// leaves to their elements in order (leaf sizes and the group axis are
/// dropped), and refuses a canvas.
pub proof fn law_flatten_in_order(l: LeafV, ns: Seq<NodeV>, ax: GroupAxis, w: CanvasDim, h: CanvasDim, cs: Seq<ChildV>)
    requires
        forall|i: int| 0 <= i < ns.len() ==> #[trigger] ns[i] is Leaf,
    ensures
        flatten_s(NodeV::Leaf(l)) == Ok::<Seq<ElementV>, Seq<char>>(seq![l.element]),
        flatten_s(NodeV::List(ns)) == Ok::<Seq<ElementV>, Seq<char>>(Seq::new(ns.len(), |i: int| ns[i]->Leaf_0.element)),
        flatten_s(NodeV::Group(ax, ns)) == Ok::<Seq<ElementV>, Seq<char>>(Seq::new(ns.len(), |i: int| ns[i]->Leaf_0.element)),
        flatten_s(NodeV::Canvas(w, h, cs)) == Err::<Seq<ElementV>, Seq<char>>(msg_flatten_canvas()),
{
    lemma_flatten_leaves_in_order(ns, ns.len() as int);
}


// ---------- one-level groups flatten to their leaves ----------

/// `x` wrapped as a one-level group with tag char `t`: `[t: x]`.
pub open spec fn wrapped(t: char, x: Seq<char>) -> Seq<char> {
    seq!['[', t, ':', ' '] + x + seq![']']
}

/// `s` holds `x` from position 4 on, followed by `]`.
pub open spec fn embeds(s: Seq<char>, x: Seq<char>) -> bool {
    &&& s.len() == x.len() as int + 5
    &&& forall|i: int| 0 <= i < x.len() ==> #[trigger] s[i + 4] == x[i]
    &&& s[x.len() as int + 4] == ']'
}

proof fn lemma_wrapped_embeds(t: char, x: Seq<char>)
    ensures
        embeds(wrapped(t, x), x),
{
    let s = wrapped(t, x);
    assert forall|i: int| 0 <= i < x.len() implies #[trigger] s[i + 4] == x[i] by {}
}

proof fn lemma_shift_skip_ws(s: Seq<char>, x: Seq<char>, pos: int)
    requires
        embeds(s, x),
        0 <= pos <= x.len(),
    ensures
        skip_ws_s(s, pos + 4) == skip_ws_s(x, pos) + 4,
        pos <= skip_ws_s(x, pos) <= x.len(),
    decreases x.len() - pos,
{
    if pos < x.len() && is_ws(x[pos]) {
        assert(s[pos + 4] == x[pos]);
        lemma_shift_skip_ws(s, x, pos + 1);
    } else if pos < x.len() {
        assert(s[pos + 4] == x[pos]);
    }
}

proof fn lemma_shift_token_end(s: Seq<char>, x: Seq<char>, pos: int)
    requires
        embeds(s, x),
        0 <= pos <= x.len(),
    ensures
        token_end(s, pos + 4) == token_end(x, pos) + 4,
        pos <= token_end(x, pos) <= x.len(),
    decreases x.len() - pos,
{
    if pos < x.len() && !is_delim(x[pos]) {
        assert(s[pos + 4] == x[pos]);
        lemma_shift_token_end(s, x, pos + 1);
    } else if pos < x.len() {
        assert(s[pos + 4] == x[pos]);
    }
}

proof fn lemma_shift_digits_end(s: Seq<char>, x: Seq<char>, pos: int)
    requires
        embeds(s, x),
        0 <= pos <= x.len(),
    ensures
        digits_end(s, pos + 4) == digits_end(x, pos) + 4,
        pos <= digits_end(x, pos) <= x.len(),
    decreases x.len() - pos,
{
    if pos < x.len() && is_digit(x[pos]) {
        assert(s[pos + 4] == x[pos]);
        lemma_shift_digits_end(s, x, pos + 1);
    } else if pos < x.len() {
        assert(s[pos + 4] == x[pos]);
    }
}

proof fn lemma_shift_sub(s: Seq<char>, x: Seq<char>, a: int, b: int)
    requires
        embeds(s, x),
        0 <= a <= b <= x.len(),
    ensures
        s.subrange(a + 4, b + 4) == x.subrange(a, b),
{
    assert forall|i: int| 0 <= i < b - a implies #[trigger] s.subrange(a + 4, b + 4)[i] == x.subrange(a, b)[i] by {
        assert(s[a + i + 4] == x[a + i]);
    }
    assert(s.subrange(a + 4, b + 4) =~= x.subrange(a, b));
}

proof fn lemma_shift_uint(s: Seq<char>, x: Seq<char>, pos: int)
    requires
        embeds(s, x),
        0 <= pos <= x.len(),
        uint_s(x, pos) is Ok,
    ensures
        uint_s(s, pos + 4) == Ok::<(u32, int), Seq<char>>((uint_s(x, pos)->Ok_0.0, uint_s(x, pos)->Ok_0.1 + 4)),
        pos < uint_s(x, pos)->Ok_0.1 <= x.len(),
{
    lemma_shift_digits_end(s, x, pos);
    let e = digits_end(x, pos);
    lemma_shift_sub(s, x, pos, e);
}

proof fn lemma_shift_unit(s: Seq<char>, x: Seq<char>, q: int)
    requires
        embeds(s, x),
        0 <= q <= x.len(),
    ensures
        unit_s(s, q + 4) == unit_s(x, q),
        unit_s(x, q) != 0 ==> q + 2 <= x.len(),
{
    if q + 2 <= x.len() {
        assert(s[q + 4] == x[q]);
        let j = q + 1;
        assert(s[j + 4] == x[j]);
    } else if q + 1 == x.len() {
        assert(s[q + 4] == x[q]);
        assert(s[q + 5] == ']');
    } else {
        assert(s[q + 4] == ']');
    }
}

proof fn lemma_shift_osize(s: Seq<char>, x: Seq<char>, pos: int)
    requires
        embeds(s, x),
        0 <= pos <= x.len(),
        osize_s(x, pos) is Ok,
    ensures
        osize_s(s, pos + 4) == Ok::<(Option<NodeSize>, int), Seq<char>>((osize_s(x, pos)->Ok_0.0, osize_s(x, pos)->Ok_0.1 + 4)),
        pos <= osize_s(x, pos)->Ok_0.1 <= x.len(),
{
    if pos < x.len() && x[pos] == '@' {
        assert(s[pos + 4] == x[pos]);
        if pos + 1 < x.len() && x[pos + 1] == 'w' {
            let j = pos + 1;
            assert(s[j + 4] == x[j]);
            lemma_shift_uint(s, x, pos + 2);
        } else {
            if pos + 1 < x.len() {
                let j = pos + 1;
                assert(s[j + 4] == x[j]);
            } else {
                assert(s[pos + 5] == ']');
            }
            lemma_shift_uint(s, x, pos + 1);
            let q = uint_s(x, pos + 1)->Ok_0.1;
            lemma_shift_unit(s, x, q);
        }
    } else if pos < x.len() {
        assert(s[pos + 4] == x[pos]);
    } else {
        assert(s[pos + 4] == ']');
    }
}

proof fn lemma_shift_leaf(s: Seq<char>, x: Seq<char>, p: int)
    requires
        embeds(s, x),
        0 <= p <= x.len(),
        leaf_s(x, p) is Ok,
    ensures
        leaf_s(s, p + 4) == Ok::<(LeafV, int), Seq<char>>((leaf_s(x, p)->Ok_0.0, leaf_s(x, p)->Ok_0.1 + 4)),
        p < leaf_s(x, p)->Ok_0.1 <= x.len(),
{
    lemma_shift_token_end(s, x, p);
    let e = token_end(x, p);
    lemma_shift_sub(s, x, p, e);
    lemma_shift_osize(s, x, e);
}

/// The root of a text without `[` is a run of leaves, and the same run,
/// shifted into a one-level group, is the group's inside.
proof fn lemma_shift_root(s: Seq<char>, x: Seq<char>, pos: int)
    requires
        embeds(s, x),
        0 <= pos <= x.len(),
        forall|i: int| 0 <= i < x.len() ==> x[i] != '[',
        root_s(x, pos) is Ok,
    ensures
        inside_s(s, pos + 4) == Ok::<(Seq<NodeV>, int), Seq<char>>((root_s(x, pos)->Ok_0.0, x.len() as int + 4)),
        forall|i: int| 0 <= i < root_s(x, pos)->Ok_0.0.len() ==> #[trigger] root_s(x, pos)->Ok_0.0[i] is Leaf,
    decreases x.len() - pos,
{
    lemma_shift_skip_ws(s, x, pos);
    let p = skip_ws_s(x, pos);
    if p < x.len() {
        assert(s[p + 4] == x[p]);
        assert(x[p] != '[');
        if x[p] == ']' {
            assert(token_end(x, p) == p);
            assert(false);
        }
        lemma_shift_leaf(s, x, p);
        let (l, q) = leaf_s(x, p)->Ok_0;
        lemma_shift_root(s, x, q);
        let rest = root_s(x, q)->Ok_0.0;
        let all = seq![NodeV::Leaf(l)] + rest;
        assert forall|i: int| 0 <= i < all.len() implies #[trigger] all[i] is Leaf by {
            if i > 0 {
                assert(all[i] == rest[i - 1]);
            }
        }
    } else {
        assert(s[x.len() as int + 4] == ']');
    }
}

#[verifier::spinoff_prover]
#[verifier::rlimit(80)]
proof fn lemma_nested_group_refused(x: Seq<char>)
    ensures
        parse_s(wrapped('h', seq!['[', 'v', ':', ' '] + x + seq![']'])) == Err::<Seq<ElementV>, Seq<char>>(msg_nested()),
{
    reveal_strlit("h");
    let n = wrapped('h', seq!['[', 'v', ':', ' '] + x + seq![']']);
    assert(n[0] == '[' && n[1] == 'h' && n[2] == ':' && n[3] == ' ' && n[4] == '[');
    assert(skip_ws_s(n, 1) == 1);
    assert(ident_end(n, 2) == 2);
    assert(ident_end(n, 1) == 2);
    assert(n.subrange(1, 2) =~= seq!['h']);
    assert(skip_ws_s(n, 2) == 2);
    assert(expect_s(n, 2, ':') == Ok::<int, Seq<char>>(3));
    assert(skip_ws_s(n, 4) == 4);
    assert(skip_ws_s(n, 3) == 4);
    assert(inside_s(n, 3) == Err::<(Seq<NodeV>, int), Seq<char>>(msg_nested()));
    let tag = n.subrange(1, 2);
    assert(tag == "h"@);
    assert(group_s(n, 0) == Err::<(NodeV, int), Seq<char>>(msg_nested()));
    assert(skip_ws_s(n, 0) == 0);
    assert(root_s(n, 0) == Err::<(Seq<NodeV>, int), Seq<char>>(msg_nested()));
}

/// The group axis a tag char names.
pub open spec fn axis_of(t: char) -> GroupAxis {
    if t == 'h' { GroupAxis::H } else { GroupAxis::V }
}

proof fn lemma_group_hv(src: Seq<char>, pos: int, t: char, q1: int, ns: Seq<NodeV>, q2: int, q3: int)
    requires
        t == 'h' || t == 'v',
        skip_ws_s(src, pos + 1) == pos + 1,
        ident_end(src, pos + 1) == pos + 2,
        src.subrange(pos + 1, pos + 2) == seq![t],
        expect_s(src, pos + 2, ':') == Ok::<int, Seq<char>>(q1),
        inside_s(src, q1) == Ok::<(Seq<NodeV>, int), Seq<char>>((ns, q2)),
        expect_s(src, q2, ']') == Ok::<int, Seq<char>>(q3),
    ensures
        group_s(src, pos) == Ok::<(NodeV, int), Seq<char>>((NodeV::Group(axis_of(t), ns), q3)),
{
    reveal_strlit("h");
    reveal_strlit("v");
    let tag = src.subrange(pos + 1, pos + 2);
    assert(tag[0] == t);
    assert("h"@[0] == 'h');
    assert(tag == "h"@ || tag == "v"@);
    if t == 'v' {
        assert(tag != "h"@);
    }
}

proof fn lemma_wrapped_inside(x: Seq<char>, t: char)
    requires
        forall|i: int| 0 <= i < x.len() ==> x[i] != '[',
        root_s(x, 0) is Ok,
    ensures
        inside_s(wrapped(t, x), 3) == Ok::<(Seq<NodeV>, int), Seq<char>>((root_s(x, 0)->Ok_0.0, x.len() as int + 4)),
{
    let s = wrapped(t, x);
    lemma_wrapped_embeds(t, x);
    lemma_shift_root(s, x, 0);
    assert(s[3] == ' ');
    assert(skip_ws_s(s, 3) == skip_ws_s(s, 4));
    lemma_shift_skip_ws(s, x, 0);
}

#[verifier::spinoff_prover]
proof fn lemma_wrapped_group(x: Seq<char>, t: char)
    requires
        t == 'h' || t == 'v',
        forall|i: int| 0 <= i < x.len() ==> x[i] != '[',
        root_s(x, 0) is Ok,
    ensures
        group_s(wrapped(t, x), 0) == Ok::<(NodeV, int), Seq<char>>((NodeV::Group(axis_of(t), root_s(x, 0)->Ok_0.0), x.len() as int + 5)),
{
    let s = wrapped(t, x);
    lemma_wrapped_embeds(t, x);
    lemma_wrapped_inside(x, t);
    assert(s[1] == t && s[2] == ':');
    assert(skip_ws_s(s, 1) == 1);
    assert(ident_end(s, 2) == 2);
    assert(ident_end(s, 1) == 2);
    assert(s.subrange(1, 2) =~= seq![t]);
    assert(skip_ws_s(s, 2) == 2);
    assert(expect_s(s, 2, ':') == Ok::<int, Seq<char>>(3));
    lemma_shift_skip_ws(s, x, x.len() as int);
    assert(expect_s(s, x.len() as int + 4, ']') == Ok::<int, Seq<char>>(x.len() as int + 5));
    lemma_group_hv(s, 0, t, 3, root_s(x, 0)->Ok_0.0, x.len() as int + 4, x.len() as int + 5);
}

#[verifier::spinoff_prover]
proof fn lemma_wrapped_tree(x: Seq<char>, t: char)
    requires
        t == 'h' || t == 'v',
        forall|i: int| 0 <= i < x.len() ==> x[i] != '[',
        root_s(x, 0) is Ok,
    ensures
        tree_s(wrapped(t, x)) == Ok::<NodeV, Seq<char>>(NodeV::Group(axis_of(t), root_s(x, 0)->Ok_0.0)),
{
    let s = wrapped(t, x);
    lemma_wrapped_group(x, t);
    let g = NodeV::Group(axis_of(t), root_s(x, 0)->Ok_0.0);
    assert(s.len() == x.len() + 5);
    assert(skip_ws_s(s, x.len() as int + 5) == x.len() as int + 5);
    assert(root_s(s, x.len() as int + 5) == Ok::<(Seq<NodeV>, int), Seq<char>>((Seq::empty(), x.len() as int + 5)));
    assert(s[0] == '[');
    assert(skip_ws_s(s, 0) == 0);
    assert(seq![g] + Seq::<NodeV>::empty() =~= seq![g]);
    assert(root_s(s, 0) == Ok::<(Seq<NodeV>, int), Seq<char>>((seq![g], x.len() as int + 5)));
}

/// Law: a text without `[` that parses gives the same elements wrapped in
/// a one-level `h` or `v` group (a group flattens to its leaves), while a
/// group inside a group is refused.
pub proof fn law_one_level_groups_flatten(x: Seq<char>, t: char)
    requires
        t == 'h' || t == 'v',
        forall|i: int| 0 <= i < x.len() ==> x[i] != '[',
        parse_s(x) is Ok,
    ensures
        parse_s(wrapped(t, x)) == parse_s(x),
        parse_s(wrapped('h', seq!['[', 'v', ':', ' '] + x + seq![']'])) == Err::<Seq<ElementV>, Seq<char>>(msg_nested()),
{
    let s = wrapped(t, x);
    lemma_wrapped_embeds(t, x);
    lemma_shift_root(s, x, 0);
    lemma_wrapped_tree(x, t);
    let ns = root_s(x, 0)->Ok_0.0;
    if ns.len() == 1 {
        assert(tree_s(x) == Ok::<NodeV, Seq<char>>(ns[0]));
        let l = ns[0]->Leaf_0;
        assert(ns[0] == NodeV::Leaf(l));
        assert(flatten_all(ns, 0) == Ok::<Seq<ElementV>, Seq<char>>(Seq::empty()));
        assert(flatten_s(ns[0]) == Ok::<Seq<ElementV>, Seq<char>>(seq![l.element]));
        assert(Seq::<ElementV>::empty() + seq![l.element] =~= seq![l.element]);
    } else {
        assert(!(exists|i: int| 0 <= i < ns.len() && #[trigger] ns[i] is Canvas));
        assert(tree_s(x) == Ok::<NodeV, Seq<char>>(NodeV::List(ns)));
    }
    lemma_nested_group_refused(x);
}

} // verus!
