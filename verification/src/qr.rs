//! QR module matrices: encode at a pinned (family, version, EC) through
//! the `qrcode` encoder, decode PNG images through `rxing`.

use vstd::prelude::*;

use crate::symbology::{Ec, Family};
use crate::CodecError;

verus! {

/// Quiet-zone width in modules for Standard QR (ISO/IEC 18004 §6.3.8).
pub const QR_BORDER_STANDARD: usize = 4;
/// Quiet-zone width in modules for Micro QR.
pub const QR_BORDER_MICRO: usize = 2;

/// A square module matrix, row-major, quiet zone excluded.
#[derive(Clone, Debug)]
pub struct QrMatrix {
    /// Side length in modules.
    pub size: usize,
    /// Row-major module bits (`true` = dark).
    pub modules: Vec<bool>,
    /// Micro QR (quiet zone 2) vs Standard QR (quiet zone 4).
    pub micro: bool,
}

/// Quiet-zone modules of a family.
pub open spec fn quiet_of(micro: bool) -> nat {
    if micro { 2 } else { 4 }
}

impl QrMatrix {
    /// `modules` holds exactly `size²` bits.
    pub open spec fn wf(&self) -> bool {
        self.modules@.len() == self.size * self.size
    }

    /// Quiet-zone width in modules for this matrix.
    pub fn quiet_zone(&self) -> (q: usize)
        ensures
            q == quiet_of(self.micro),
    {
        if self.micro {
            QR_BORDER_MICRO
        } else {
            QR_BORDER_STANDARD
        }
    }

    /// Side length including the quiet zone.
    pub fn total_modules(&self) -> (t: usize)
        requires
            self.size + 8 <= usize::MAX,
        ensures
            t == self.size + 2 * quiet_of(self.micro),
    {
        self.size + 2 * self.quiet_zone()
    }

    /// The module at `(row, col)`.
    pub fn get(&self, row: usize, col: usize) -> (b: bool)
        requires
            row * self.size + col < self.modules@.len(),
        ensures
            b == self.modules@[row * self.size + col],
    {
        let n: usize = self.modules.len();
        proof {
            assert(0 <= row * self.size <= row * self.size + col < n) by (nonlinear_arith)
                requires row * self.size + col < n;
        }
        let base: usize = row * self.size;
        self.modules[base + col]
    }

    /// The matrix as rows.
    pub fn as_rows(&self) -> (rows: Vec<Vec<bool>>)
        requires
            self.modules@.len() >= self.size * self.size,
        ensures
            rows@.len() == self.size,
            forall|r: int| 0 <= r < self.size ==> #[trigger] rows@[r]@.len() == self.size,
            forall|r: int, c: int| 0 <= r < self.size && 0 <= c < self.size
                ==> #[trigger] rows@[r]@[c] == self.modules@[r * self.size + c],
    {
        let mut rows: Vec<Vec<bool>> = Vec::new();
        let mut r: usize = 0;
        while r < self.size
            invariant
                self.modules@.len() >= self.size * self.size,
                r <= self.size,
                rows@.len() == r,
                forall|i: int| 0 <= i < r ==> #[trigger] rows@[i]@.len() == self.size,
                forall|i: int, c: int| 0 <= i < r && 0 <= c < self.size
                    ==> #[trigger] rows@[i]@[c] == self.modules@[i * self.size + c],
            decreases self.size - r,
        {
            let mut row: Vec<bool> = Vec::new();
            let mut c: usize = 0;
            while c < self.size
                invariant
                    self.modules@.len() >= self.size * self.size,
                    r < self.size,
                    c <= self.size,
                    row@.len() == c,
                    forall|j: int| 0 <= j < c ==> #[trigger] row@[j] == self.modules@[r * self.size + j],
                decreases self.size - c,
            {
                proof {
                    assert(r * self.size + c < self.size * self.size) by (nonlinear_arith)
                        requires r < self.size, c < self.size;
                }
                row.push(self.get(r, c));
                c = c + 1;
            }
            rows.push(row);
            r = r + 1;
        }
        rows
    }
}

/// Highest version of a family.
pub open spec fn max_version(micro: bool) -> u8 {
    if micro { 4 } else { 40 }
}

/// Modules per side of a symbol (ISO/IEC 18004: `4v+17`, Micro `2v+9`).
pub open spec fn symbol_width(micro: bool, version: u8) -> nat {
    if micro { (2 * version + 9) as nat } else { (4 * version + 17) as nat }
}

/// What the `qrcode` encoder makes of `payload` at a pinned version and
/// EC level: the row-major module colors (`true` = dark), or the `Debug`
/// text of its refusal.
pub uninterp spec fn qr_encoding(payload: Seq<char>, micro: bool, version: u8, ec: Ec) -> Result<Seq<bool>, Seq<char>>;

/// How many bits the `qrcode` encoder's optimal segmentation of `payload`
/// takes at a version (mode indicators, character counts and data), or the
/// `Debug` text of its refusal.
pub uninterp spec fn qr_data_len(payload: Seq<char>, micro: bool, version: u8) -> Result<usize, Seq<char>>;

/// `qrcode::bits::Bits::push_optimal_data` on a fresh `Bits::new` of the
/// version, reporting `Bits::len` afterwards. Claims: the outcome is
/// `qr_data_len` of the arguments.
#[verifier::external_body]
fn qr_segment_bits(payload: &str, micro: bool, version: u8) -> (r: Result<usize, String>)
    requires
        1 <= version <= max_version(micro),
    ensures
        match r {
            Ok(n) => qr_data_len(payload@, micro, version) == Ok::<usize, Seq<char>>(n),
            Err(e) => qr_data_len(payload@, micro, version) == Err::<usize, Seq<char>>(e@),
        },
{
    let v = if micro { qrcode::Version::Micro(i16::from(version)) } else { qrcode::Version::Normal(i16::from(version)) };
    let mut bits = qrcode::bits::Bits::new(v);
    match bits.push_optimal_data(payload.as_bytes()) {
        Ok(()) => Ok(bits.len()),
        Err(e) => Err(format!("{e:?}")),
    }
}

/// The symbols whose data capacity is not a whole number of bytes (Micro
/// M1 at 20 bits, M3-L at 84 bits, M3-M at 68 bits), and the data lengths
/// at which the full terminator ends inside that last half byte: there the
/// `qrcode` encoder's byte padding computes a negative count and panics
/// (`Bits::push_terminator`).
pub open spec fn codeword_gap(micro: bool, version: u8, ec: Ec, n: usize) -> bool {
    &&& micro
    &&& {
        ||| version == 1 && ec == Ec::L && 14 <= n <= 16
        ||| version == 3 && ec == Ec::L && 74 <= n <= 76
        ||| version == 3 && ec == Ec::M && 58 <= n <= 60
    }
}

/// The encoder cannot be asked for `payload` at this symbol: its data would
/// end inside the symbol's last half byte.
pub open spec fn gap_case(payload: Seq<char>, micro: bool, version: u8, ec: Ec) -> bool {
    qr_data_len(payload, micro, version) matches Ok(n) && codeword_gap(micro, version, ec, n)
}

/// What encoding at a pinned symbol gives: Micro QR "version 0" is refused
/// with [`invalid_version_message`] (the encoder panics there), the gap case
/// with [`gap_message`], anything else is the encoder's outcome.
pub open spec fn pinned_encoding(payload: Seq<char>, micro: bool, version: u8, ec: Ec) -> Result<Seq<bool>, Seq<char>> {
    if micro && version == 0 {
        Err(invalid_version_message())
    } else if gap_case(payload, micro, version, ec) {
        Err(gap_message())
    } else {
        qr_encoding(payload, micro, version, ec)
    }
}

/// The refusal of the gap case.
pub open spec fn gap_message() -> Seq<char> {
    "DataTooLong (the data ends inside the symbol's last half codeword)"@
}

/// The refusal of Micro QR "version 0".
pub open spec fn invalid_version_message() -> Seq<char> {
    "InvalidVersion"@
}

/// `qrcode::QrCode::with_version` on the payload's UTF-8 bytes at a pinned
/// version and EC level, its colors read out as `dark` bits. Claims: the
/// outcome is `qr_encoding` of the arguments, and a success is a square of
/// `symbol_width` modules per side (`Version::width`, `Canvas::new`); a
/// version the family does not define is never encoded (`Version::fetch`
/// refuses it in `Bits::push_terminator`, if the data did not fail first).
/// The `requires` leaves out the inputs on which the encoder panics: Micro
/// "version 0" (its mode-indicator width `a - 1` goes negative) and the gap
/// case (see [`codeword_gap`]).
#[verifier::external_body]
fn qr_with_version(payload: &str, micro: bool, version: u8, ec: Ec) -> (r: Result<(usize, Vec<bool>), String>)
    requires
        !(micro && version == 0),
        !gap_case(payload@, micro, version, ec),
    ensures
        !(1 <= version <= max_version(micro)) ==> r is Err,
        match r {
            Ok((w, m)) => qr_encoding(payload@, micro, version, ec) == Ok::<Seq<bool>, Seq<char>>(m@)
                && w == symbol_width(micro, version) && m@.len() == w * w,
            Err(e) => qr_encoding(payload@, micro, version, ec) == Err::<Seq<bool>, Seq<char>>(e@),
        },
{
    let v = if micro { qrcode::Version::Micro(i16::from(version)) } else { qrcode::Version::Normal(i16::from(version)) };
    let level = match ec {
        Ec::L => qrcode::EcLevel::L,
        Ec::M => qrcode::EcLevel::M,
        Ec::Q => qrcode::EcLevel::Q,
        Ec::H => qrcode::EcLevel::H,
    };
    match qrcode::QrCode::with_version(payload.as_bytes(), v, level) {
        Ok(code) => Ok((code.width(), code.into_colors().into_iter().map(|c| c != qrcode::Color::Light).collect())),
        Err(e) => Err(format!("{e:?}")),
    }
}

/// Whether a family is Micro QR.
pub open spec fn is_micro(f: Family) -> bool {
    f == Family::Micro
}

/// A version the family defines.
pub open spec fn version_ok(f: Family, v: u8) -> bool {
    1 <= v <= max_version(is_micro(f))
}

/// Whether the data length falls in the gap case.
fn in_codeword_gap(micro: bool, version: u8, ec: Ec, n: usize) -> (b: bool)
    ensures
        b == codeword_gap(micro, version, ec, n),
{
    if !micro {
        return false;
    }
    match ec {
        Ec::L => (version == 1 && 14 <= n && n <= 16) || (version == 3 && 74 <= n && n <= 76),
        Ec::M => version == 3 && 58 <= n && n <= 60,
        _ => false,
    }
}

/// Encode at a pinned (family, version, EC). The encoder decides
/// feasibility; a refusal comes back as `CodecError::Encode` carrying the
/// encoder's `Debug` text. Micro QR "version 0" is refused as
/// `InvalidVersion` before encoding, and so is a payload whose data would
/// end inside the symbol's last half codeword: on both the encoder itself
/// would panic.
pub fn encode_pinned(payload: &str, family: Family, version: u8, ec: Ec) -> (r: Result<QrMatrix, CodecError>)
    ensures
        match pinned_encoding(payload@, is_micro(family), version, ec) {
            Ok(bits) => r matches Ok(m) && m.modules@ == bits && m.micro == is_micro(family)
                && m.size == symbol_width(is_micro(family), version) && m.wf() && version_ok(family, version),
            Err(t) => r matches Err(CodecError::Encode(s)) && s@ == t,
        },
{
    let micro = match family {
        Family::Micro => true,
        Family::Qr => false,
    };
    if micro && version == 0 {
        proof { reveal_strlit("InvalidVersion"); }
        return Err(CodecError::Encode("InvalidVersion".to_string()));
    }
    let max: u8 = if micro { 4 } else { 40 };
    if 1 <= version && version <= max {
        if let Ok(n) = qr_segment_bits(payload, micro, version) {
            if in_codeword_gap(micro, version, ec, n) {
                proof { reveal_strlit("DataTooLong (the data ends inside the symbol's last half codeword)"); }
                return Err(CodecError::Encode("DataTooLong (the data ends inside the symbol's last half codeword)".to_string()));
            }
        }
    }
    match qr_with_version(payload, micro, version, ec) {
        Ok((size, modules)) => Ok(QrMatrix { size, modules, micro }),
        Err(e) => Err(CodecError::Encode(e)),
    }
}

/// Encode at the pre-contract defaults: Micro QR M4 or Standard QR V1,
/// both at EC level M.
pub fn encode(payload: &str, micro: bool) -> (r: Result<QrMatrix, CodecError>)
    ensures
        match pinned_encoding(payload@, micro, if micro { 4u8 } else { 1u8 }, Ec::M) {
            Ok(bits) => r matches Ok(m) && m.modules@ == bits && m.micro == micro
                && m.size == (if micro { 17nat } else { 21nat }) && m.wf(),
            Err(t) => r matches Err(CodecError::Encode(s)) && s@ == t,
        },
{
    if micro {
        encode_pinned(payload, Family::Micro, 4, Ec::M)
    } else {
        encode_pinned(payload, Family::Qr, 1, Ec::M)
    }
}

/// What `rxing` reads out of an encoded image (Standard or Micro QR,
/// try-harder): the decoded text, or the `Debug` text of its refusal.
pub uninterp spec fn qr_decoding(image: Seq<u8>) -> Result<Seq<char>, Seq<char>>;

/// `rxing::helpers::detect_in_buffer_with_hints` restricted to QR and Micro
/// QR with `TryHarder`; claims the outcome is `qr_decoding` of the bytes.
/// The decode may not return (it may panic) on some malformed byte
/// strings: neither the `image` decoders nor the QR readers show that they
/// return on every input, and no `requires` can single those inputs out.
/// The contract speaks of normal returns only.
#[verifier::external_body]
fn rxing_detect(image: &[u8]) -> (r: Result<String, String>)
    ensures
        match r {
            Ok(s) => qr_decoding(image@) == Ok::<Seq<char>, Seq<char>>(s@),
            Err(e) => qr_decoding(image@) == Err::<Seq<char>, Seq<char>>(e@),
        },
{
    let mut hints = rxing::DecodeHints {
        PossibleFormats: Some([rxing::BarcodeFormat::QR_CODE, rxing::BarcodeFormat::MICRO_QR_CODE].into_iter().collect()),
        TryHarder: Some(true),
        ..rxing::DecodeHints::default()
    };
    match rxing::helpers::detect_in_buffer_with_hints(image, None, &mut hints) {
        Ok(result) => Ok(result.getText().to_string()),
        Err(e) => Err(format!("{e:?}")),
    }
}

/// The `rxing: ` prefix of decode failures.
pub open spec fn decode_failure(t: Seq<char>) -> Seq<char> {
    "rxing: "@ + t
}

/// Decode an encoded image (PNG, PNM or another format the decoder reads)
/// into the embedded QR payload. What it states holds when the decoder
/// returns (see `rxing_detect`).
pub fn decode_qr(image_png: &[u8]) -> (r: Result<String, CodecError>)
    ensures
        match qr_decoding(image_png@) {
            Ok(t) => r matches Ok(s) && s@ == t,
            Err(t) => r matches Err(CodecError::Decode(s)) && s@ == decode_failure(t),
        },
{
    match rxing_detect(image_png) {
        Ok(s) => Ok(s),
        Err(e) => {
            let mut m = String::new();
            crate::text::push_str(&mut m, "rxing: ");
            crate::text::push_str(&mut m, e.as_str());
            proof { reveal_strlit("rxing: "); }
            Err(CodecError::Decode(m))
        }
    }
}

} // verus!
