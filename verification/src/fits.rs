//! Aligned binary decoder for the header-prefixed wire format of numeric
//! rasters.
//!
//! The input is a textual, fixed-record header — 80-byte cards, terminated
//! by an `END` card, padded to 2880-byte blocks — followed by a big-endian
//! pixel payload.  Decoding extracts the image dimensions (`NAXIS1`,
//! `NAXIS2`), the sample kind (`BITPIX`) and the optional scaling keywords
//! (`BZERO`, `BSCALE`, `BLANK`, defaulting to zero, one and absent), then
//! converts the payload to native order as one typed, owned buffer; no
//! pixel value is read before that conversion.  Floating-point samples are
//! carried as raw bit patterns: interpreting them is the GPU collaborator's
//! business, and nothing in this crate computes with them.

use vstd::prelude::*;

verus! {

broadcast use vstd::arithmetic::power::lemma_pow0,
    vstd::arithmetic::power::lemma_pow1,
    vstd::arithmetic::power::lemma_pow_adds;

/// Why a buffer failed to decode.
#[derive(Clone, Copy, Debug, PartialEq, Eq, Structural)]
pub enum DecodeError {
    /// `NAXIS1` or `NAXIS2` is absent.
    MissingDimension,
    /// The header cannot be parsed, or the declared payload does not fit in
    /// the buffer.
    Malformed,
    /// `BITPIX` is absent or names a sample kind the pipeline cannot hold.
    UnsupportedKind,
}

/// A scaling value as written in the header: sign, decimal digits, and a
/// power of ten.  The value denoted is `(-1)^neg * mant * 10^exp`.
#[derive(Clone, Copy, Debug, PartialEq, Eq, Structural)]
pub struct Decimal {
    /// The value is negated.
    pub neg: bool,
    /// The digits, as an integer.
    pub mant: u64,
    /// Decimal exponent scaling `mant`.
    pub exp: i32,
}

/// The typed pixel payload, converted from the big-endian wire order.
pub enum TypedData {
    /// One byte per sample.
    U8(Vec<u8>),
    /// Signed 16-bit samples.
    I16(Vec<i16>),
    /// Signed 32-bit samples.
    I32(Vec<i32>),
    /// 32-bit float samples, as raw bit patterns.
    F32Bits(Vec<u32>),
    /// 64-bit float samples, as raw bit patterns.
    F64Bits(Vec<u64>),
}

/// A decoded image: header metadata and the typed view of the payload.
pub struct Fits {
    /// Image width (`NAXIS1`).
    pub width: u32,
    /// Image height (`NAXIS2`).
    pub height: u32,
    /// Scale factor; one when the header does not say.
    pub bscale: Decimal,
    /// Offset; zero when the header does not say.
    pub bzero: Decimal,
    /// The sample value marking a missing pixel; absent means
    /// not-a-number, and no sample is special.
    pub blank: Option<Decimal>,
    /// The payload, one sample per pixel in row-major order.
    pub data: TypedData,
}

/// ASCII digit.
pub open spec fn is_digit(b: u8) -> bool {
    48 <= b <= 57
}

/// First index at or after `i` that does not hold a digit.
pub open spec fn digits_end(s: Seq<u8>, i: int) -> int
    decreases s.len() - i,
{
    if i < 0 || i >= s.len() || !is_digit(s[i]) {
        i
    } else {
        digits_end(s, i + 1)
    }
}

/// Value of the digit run `s[i..j)`.
pub open spec fn digits_val(s: Seq<u8>, i: int, j: int) -> int
    decreases j - i,
{
    if i >= j {
        0
    } else {
        digits_val(s, i, j - 1) * 10 + (s[j - 1] - 48)
    }
}

/// The numeral grammar of a header value: an optional sign, digits, an
/// optional fraction, an optional decimal exponent of at most three digits;
/// at most 19 digits of mantissa.  Yields `(neg, mant, exp)`.
pub open spec fn spec_token(t: Seq<u8>) -> Option<(bool, int, int)> {
    if t.len() == 0 {
        None
    } else {
        let neg = t[0] == 45;
        let i0: int = if t[0] == 45 || t[0] == 43 { 1 } else { 0 };
        let i1 = digits_end(t, i0);
        if i1 == i0 {
            None
        } else {
            let f0: int = if i1 < t.len() && t[i1] == 46 { i1 + 1 } else { i1 };
            let f1 = if i1 < t.len() && t[i1] == 46 { digits_end(t, f0) } else { i1 };
            if i1 - i0 + (f1 - f0) > 19 {
                None
            } else {
                let mant = digits_val(t, i0, i1) * vstd::arithmetic::power::pow(10, (f1 - f0) as nat)
                    + digits_val(t, f0, f1);
                if f1 == t.len() {
                    Some((neg, mant, -(f1 - f0)))
                } else if t[f1] == 69 || t[f1] == 101 {
                    let eneg = f1 + 1 < t.len() && t[f1 + 1] == 45;
                    let e0: int = if f1 + 1 < t.len() && (t[f1 + 1] == 45 || t[f1 + 1] == 43) {
                        f1 + 2
                    } else {
                        f1 + 1
                    };
                    let e1 = digits_end(t, e0);
                    if e1 == e0 || e1 != t.len() || e1 - e0 > 3 {
                        None
                    } else {
                        let ev = digits_val(t, e0, e1);
                        Some((neg, mant, (if eneg { -ev } else { ev }) - (f1 - f0)))
                    }
                } else {
                    None
                }
            }
        }
    }
}

/// First index at or after `i` holding a solidus, or the end: header values
/// run up to an optional comment.
pub open spec fn slash_end(s: Seq<u8>, i: int) -> int
    decreases s.len() - i,
{
    if i < 0 || i >= s.len() || s[i] == 47 {
        i
    } else {
        slash_end(s, i + 1)
    }
}

/// First index at or after `i` that is not a space.
pub open spec fn space_end(s: Seq<u8>, i: int) -> int
    decreases s.len() - i,
{
    if i < 0 || i >= s.len() || s[i] != 32 {
        i
    } else {
        space_end(s, i + 1)
    }
}

/// Last non-space position strictly below `j`, plus one.
pub open spec fn rspace_start(s: Seq<u8>, j: int) -> int
    decreases j,
{
    if j <= 0 || s[j - 1] != 32 {
        j
    } else {
        rspace_start(s, j - 1)
    }
}

/// The card's 8-byte keyword field.
pub open spec fn card_kw(bytes: Seq<u8>, i: int) -> Seq<u8> {
    bytes.subrange(80 * i, 80 * i + 8)
}

/// The trimmed value token of card `i`: the bytes after the `= ` value
/// indicator, up to the comment, stripped of spaces.  `None` when the card
/// has no value indicator or the token is not a numeral of the grammar.
pub open spec fn card_value(bytes: Seq<u8>, i: int) -> Option<(bool, int, int)> {
    if bytes[80 * i + 8] == 61 && bytes[80 * i + 9] == 32 {
        let v = bytes.subrange(80 * i + 10, 80 * i + 80);
        let stop = slash_end(v, 0);
        let l = space_end(v, 0);
        if l >= stop {
            None
        } else {
            spec_token(v.subrange(l, rspace_start(v, stop)))
        }
    } else {
        None
    }
}

/// Index of the first `END` card, scanning from card `i`; `None` when the
/// buffer ends first.
pub open spec fn spec_end_card(bytes: Seq<u8>, i: int) -> Option<int>
    decreases bytes.len() - 80 * i,
{
    if i < 0 || 80 * i + 80 > bytes.len() {
        None
    } else if card_kw(bytes, i) =~= end_kw() {
        Some(i)
    } else {
        spec_end_card(bytes, i + 1)
    }
}

/// Index of the first card carrying keyword `kw` strictly before the `END`
/// card, scanning from card `i`.
pub open spec fn spec_find(bytes: Seq<u8>, kw: Seq<u8>, i: int) -> Option<int>
    decreases bytes.len() - 80 * i,
{
    if i < 0 || 80 * i + 80 > bytes.len() || card_kw(bytes, i) =~= end_kw() {
        None
    } else if card_kw(bytes, i) =~= kw {
        Some(i)
    } else {
        spec_find(bytes, kw, i + 1)
    }
}

/// The keyword fields, space-padded to eight bytes.
pub open spec fn end_kw() -> Seq<u8> {
    seq![69u8, 78u8, 68u8, 32u8, 32u8, 32u8, 32u8, 32u8]
}

pub open spec fn naxis1_kw() -> Seq<u8> {
    seq![78u8, 65u8, 88u8, 73u8, 83u8, 49u8, 32u8, 32u8]
}

pub open spec fn naxis2_kw() -> Seq<u8> {
    seq![78u8, 65u8, 88u8, 73u8, 83u8, 50u8, 32u8, 32u8]
}

pub open spec fn bitpix_kw() -> Seq<u8> {
    seq![66u8, 73u8, 84u8, 80u8, 73u8, 88u8, 32u8, 32u8]
}

pub open spec fn bzero_kw() -> Seq<u8> {
    seq![66u8, 90u8, 69u8, 82u8, 79u8, 32u8, 32u8, 32u8]
}

pub open spec fn bscale_kw() -> Seq<u8> {
    seq![66u8, 83u8, 67u8, 65u8, 76u8, 69u8, 32u8, 32u8]
}

pub open spec fn blank_kw() -> Seq<u8> {
    seq![66u8, 76u8, 65u8, 78u8, 75u8, 32u8, 32u8, 32u8]
}

/// The value of a recognized keyword: `None` when its card is absent,
/// `Some(None)` when present but not a numeral, `Some(Some(v))` otherwise.
pub open spec fn kw_value(bytes: Seq<u8>, kw: Seq<u8>) -> Option<Option<(bool, int, int)>> {
    match spec_find(bytes, kw, 0) {
        None => None,
        Some(i) => Some(card_value(bytes, i)),
    }
}

/// A value usable as an image dimension: a plain non-negative integer
/// within the pipeline's size limit.
pub open spec fn as_dim(v: (bool, int, int)) -> Option<int> {
    if v.2 == 0 && (!v.0 || v.1 == 0) && v.1 <= 16384 {
        Some(v.1)
    } else {
        None
    }
}

/// A value usable as a sample kind: one of the five supported `BITPIX`
/// codes.
pub open spec fn as_bitpix(v: (bool, int, int)) -> Option<int> {
    if v.2 != 0 {
        None
    } else {
        let n: int = if v.0 { -v.1 } else { v.1 };
        if n == 8 || n == 16 || n == 32 || n == -32 || n == -64 {
            Some(n)
        } else {
            None
        }
    }
}

/// Bytes per sample of a `BITPIX` code.
pub open spec fn item_size(bitpix: int) -> int {
    if bitpix == 8 { 1 } else if bitpix == 16 { 2 } else if bitpix == 32 { 4 }
    else if bitpix == -32 { 4 } else { 8 }
}

/// Offset of the payload: the header blocks, rounded up to 2880 bytes.
pub open spec fn data_start(end_card: int) -> int {
    ((end_card + 1) * 80 + 2879) / 2880 * 2880
}

/// A recognized keyword that is present but does not parse poisons the
/// header.
pub open spec fn some_bad_value(bytes: Seq<u8>) -> bool {
    |||  kw_value(bytes, naxis1_kw()) == Some(Option::<(bool, int, int)>::None)
    |||  kw_value(bytes, naxis2_kw()) == Some(Option::<(bool, int, int)>::None)
    |||  kw_value(bytes, bitpix_kw()) == Some(Option::<(bool, int, int)>::None)
    |||  kw_value(bytes, bzero_kw()) == Some(Option::<(bool, int, int)>::None)
    |||  kw_value(bytes, bscale_kw()) == Some(Option::<(bool, int, int)>::None)
    |||  kw_value(bytes, blank_kw()) == Some(Option::<(bool, int, int)>::None)
}

/// Exactly when and why decoding fails; `None` means it succeeds.
pub open spec fn spec_decode_error(bytes: Seq<u8>) -> Option<DecodeError> {
    match spec_end_card(bytes, 0) {
        None => Some(DecodeError::Malformed),
        Some(e) => if some_bad_value(bytes) {
            Some(DecodeError::Malformed)
        } else if kw_value(bytes, naxis1_kw()) is None
            || kw_value(bytes, naxis2_kw()) is None {
            Some(DecodeError::MissingDimension)
        } else if as_dim(kw_value(bytes, naxis1_kw())->0->0) is None
            || as_dim(kw_value(bytes, naxis2_kw())->0->0) is None {
            Some(DecodeError::Malformed)
        } else if kw_value(bytes, bitpix_kw()) is None
            || as_bitpix(kw_value(bytes, bitpix_kw())->0->0) is None {
            Some(DecodeError::UnsupportedKind)
        } else {
            let w = as_dim(kw_value(bytes, naxis1_kw())->0->0)->0;
            let h = as_dim(kw_value(bytes, naxis2_kw())->0->0)->0;
            let bp = as_bitpix(kw_value(bytes, bitpix_kw())->0->0)->0;
            if data_start(e) + w * h * item_size(bp) > bytes.len() {
                Some(DecodeError::Malformed)
            } else {
                None
            }
        },
    }
}

/// Big-endian 16-bit read.
pub open spec fn be16(b0: u8, b1: u8) -> int {
    (b0 as u16) * 256 + b1 as u16
}

/// Big-endian 32-bit read.
pub open spec fn be32(b0: u8, b1: u8, b2: u8, b3: u8) -> int {
    (b0 as u32) * 0x1000000 + (b1 as u32) * 0x10000 + (b2 as u32) * 0x100 + b3 as u32
}

/// Big-endian 64-bit read.
pub open spec fn be64(b0: u8, b1: u8, b2: u8, b3: u8, b4: u8, b5: u8, b6: u8, b7: u8) -> int {
    be32(b0, b1, b2, b3) * 0x1_0000_0000 + be32(b4, b5, b6, b7)
}

/// The Decimal a parsed value denotes.
pub open spec fn as_decimal(v: (bool, int, int)) -> Decimal {
    Decimal { neg: v.0, mant: v.1 as u64, exp: v.2 as i32 }
}

/// The scaling keywords always fit: at most 19 mantissa digits and a
/// three-digit exponent shifted by at most 70 fraction digits.
pub open spec fn value_fits(v: (bool, int, int)) -> bool {
    0 <= v.1 < 0x8AC7230489E80000 && -1100 <= v.2 <= 1100
}

/// Digit runs are bounded by powers of ten.
proof fn lemma_digits_val_bound(s: Seq<u8>, i: int, j: int)
    requires
        i <= j,
        0 <= i,
        j <= s.len(),
        forall|p: int| i <= p < j ==> is_digit(#[trigger] s[p]),
    ensures
        0 <= digits_val(s, i, j) < vstd::arithmetic::power::pow(10, (j - i) as nat),
    decreases j - i,
{
    if i == j {
        assert(vstd::arithmetic::power::pow(10, 0nat) == 1);
    } else {
        lemma_digits_val_bound(s, i, j - 1);
        assert(vstd::arithmetic::power::pow(10, (j - i) as nat)
            == 10 * vstd::arithmetic::power::pow(10, (j - 1 - i) as nat)) by {
            vstd::arithmetic::power::lemma_pow_adds(10, 1nat, (j - 1 - i) as nat);
        }
        assert(digits_val(s, i, j) == digits_val(s, i, j - 1) * 10 + (s[j - 1] - 48));
        assert(digits_val(s, i, j - 1) * 10 + (s[j - 1] - 48)
            < vstd::arithmetic::power::pow(10, (j - i) as nat)) by (nonlinear_arith)
            requires
                0 <= digits_val(s, i, j - 1)
                    < vstd::arithmetic::power::pow(10, (j - 1 - i) as nat),
                0 <= s[j - 1] - 48 < 10,
                vstd::arithmetic::power::pow(10, (j - i) as nat)
                    == 10 * vstd::arithmetic::power::pow(10, (j - 1 - i) as nat);
    }
}

/// Scans the digit run of `t` starting at `i`.
fn scan_digits(t: &Vec<u8>, i: usize) -> (r: usize)
    requires
        i <= t@.len(),
    ensures
        i <= r <= t@.len(),
        r == digits_end(t@, i as int),
        forall|p: int| i <= p < r ==> is_digit(#[trigger] t@[p]),
{
    let mut j = i;
    while j < t.len() && 48 <= t[j] && t[j] <= 57
        invariant
            i <= j <= t@.len(),
            digits_end(t@, i as int) == digits_end(t@, j as int),
            forall|p: int| i <= p < j ==> is_digit(#[trigger] t@[p]),
        decreases t@.len() - j,
    {
        proof {
            assert(digits_end(t@, j as int) == digits_end(t@, j + 1));
        }
        j = j + 1;
    }
    proof {
        assert(digits_end(t@, j as int) == j);
    }
    j
}

/// Accumulates the value of the digit run `t[i..j)` onto `acc`, which
/// already holds `digits // prior` digits.
fn accumulate_digits(t: &Vec<u8>, i: usize, j: usize, acc: u64, ghost_digits: Ghost<int>)
    -> (r: u64)
    requires
        i <= j <= t@.len(),
        forall|p: int| i <= p < j ==> is_digit(#[trigger] t@[p]),
        0 <= ghost_digits@,
        ghost_digits@ + (j - i) <= 19,
        acc < vstd::arithmetic::power::pow(10, ghost_digits@ as nat),
    ensures
        r as int == acc * vstd::arithmetic::power::pow(10, (j - i) as nat)
            + digits_val(t@, i as int, j as int),
        r < vstd::arithmetic::power::pow(10, (ghost_digits@ + j - i) as nat),
{
    let mut cur = i;
    let mut a = acc;
    proof {
        vstd::arithmetic::power::lemma_pow_adds(10, ghost_digits@ as nat, 0nat);
        assert(vstd::arithmetic::power::pow(10, 0nat) == 1);
        assert(a as int == acc * vstd::arithmetic::power::pow(10, 0nat)
            + digits_val(t@, i as int, i as int)) by (nonlinear_arith)
            requires a == acc, vstd::arithmetic::power::pow(10, 0nat) == 1,
                digits_val(t@, i as int, i as int) == 0;
    }
    while cur < j
        invariant
            i <= cur <= j <= t@.len(),
            forall|p: int| i <= p < j ==> is_digit(#[trigger] t@[p]),
            0 <= ghost_digits@,
            ghost_digits@ + (j - i) <= 19,
            acc < vstd::arithmetic::power::pow(10, ghost_digits@ as nat),
            a as int == acc * vstd::arithmetic::power::pow(10, (cur - i) as nat)
                + digits_val(t@, i as int, cur as int),
            a < vstd::arithmetic::power::pow(10, (ghost_digits@ + cur - i) as nat),
        decreases j - cur,
    {
        let d = t[cur];
        proof {
            lemma_pow10_19();
            vstd::arithmetic::power::lemma_pow_increases(10,
                (ghost_digits@ + cur - i) as nat, 18nat);
            assert(a <= vstd::arithmetic::power::pow(10, 18nat));
            assert(10 * vstd::arithmetic::power::pow(10, 18nat)
                == vstd::arithmetic::power::pow(10, 19nat)) by {
                vstd::arithmetic::power::lemma_pow_adds(10, 1nat, 18nat);
            }
            assert(a as int * 10 + (d - 48) < vstd::arithmetic::power::pow(10, 19nat))
                by (nonlinear_arith)
                requires
                    (a as int) < vstd::arithmetic::power::pow(10,
                        (ghost_digits@ + cur - i) as nat),
                    vstd::arithmetic::power::pow(10, (ghost_digits@ + cur - i) as nat)
                        <= vstd::arithmetic::power::pow(10, 18nat),
                    0 <= d - 48 < 10,
                    10 * vstd::arithmetic::power::pow(10, 18nat)
                        == vstd::arithmetic::power::pow(10, 19nat);
            assert(vstd::arithmetic::power::pow(10, (cur + 1 - i) as nat)
                == 10 * vstd::arithmetic::power::pow(10, (cur - i) as nat)) by {
                vstd::arithmetic::power::lemma_pow_adds(10, 1nat, (cur - i) as nat);
            }
            assert(vstd::arithmetic::power::pow(10, (ghost_digits@ + cur + 1 - i) as nat)
                == 10 * vstd::arithmetic::power::pow(10,
                    (ghost_digits@ + cur - i) as nat)) by {
                vstd::arithmetic::power::lemma_pow_adds(10, 1nat,
                    (ghost_digits@ + cur - i) as nat);
            }
            assert((acc * vstd::arithmetic::power::pow(10, (cur - i) as nat)
                + digits_val(t@, i as int, cur as int)) * 10 + (d - 48)
                == acc * (10 * vstd::arithmetic::power::pow(10, (cur - i) as nat))
                    + (digits_val(t@, i as int, cur as int) * 10 + (d - 48)))
                by (nonlinear_arith);
            assert(digits_val(t@, i as int, cur + 1)
                == digits_val(t@, i as int, cur as int) * 10 + (t@[cur as int] - 48));
            assert(a as int * 10 + (d - 48)
                < vstd::arithmetic::power::pow(10, (ghost_digits@ + cur + 1 - i) as nat))
                by (nonlinear_arith)
                requires
                    (a as int) < vstd::arithmetic::power::pow(10,
                        (ghost_digits@ + cur - i) as nat),
                    0 <= d - 48 < 10,
                    vstd::arithmetic::power::pow(10, (ghost_digits@ + cur + 1 - i) as nat)
                        == 10 * vstd::arithmetic::power::pow(10,
                            (ghost_digits@ + cur - i) as nat);
        }
        a = a * 10 + ((d - 48) as u64);
        cur = cur + 1;
    }
    a
}

/// `10^19` written out; the largest mantissa the grammar admits stays
/// below it, and it fits in 64 bits.
proof fn lemma_pow10_19()
    ensures
        vstd::arithmetic::power::pow(10, 19nat) == 10000000000000000000,
        vstd::arithmetic::power::pow(10, 18nat) == 1000000000000000000,
{
    reveal_with_fuel(vstd::arithmetic::power::pow, 20);
}

/// Parses one trimmed value token against the numeral grammar.
#[verifier::rlimit(80)]
fn parse_token(t: &Vec<u8>) -> (r: Option<Decimal>)
    ensures
        match spec_token(t@) {
            None => r is None,
            Some(v) => r == Some(as_decimal(v)) && value_fits(v),
        },
{
    let n = t.len();
    if n == 0 {
        return None;
    }
    let neg = t[0] == 45;
    let i0: usize = if t[0] == 45 || t[0] == 43 { 1 } else { 0 };
    let i1 = scan_digits(t, i0);
    if i1 == i0 {
        return None;
    }
    let (f0, f1): (usize, usize) = if i1 < n && t[i1] == 46 {
        let f1 = scan_digits(t, i1 + 1);
        (i1 + 1, f1)
    } else {
        (i1, i1)
    };
    if (i1 - i0) + (f1 - f0) > 19 {
        return None;
    }
    proof {
        lemma_pow10_19();
        assert(vstd::arithmetic::power::pow(10, 0nat) == 1);
    }
    let a0 = accumulate_digits(t, i0, i1, 0, Ghost(0int));
    let mant = accumulate_digits(t, f0, f1, a0, Ghost((i1 - i0) as int));
    proof {
        vstd::arithmetic::power::lemma_pow_increases(10,
            ((i1 - i0) + (f1 - f0)) as nat, 19nat);
        assert(mant < 10000000000000000000);
        assert(a0 as int == digits_val(t@, i0 as int, i1 as int)) by (nonlinear_arith)
            requires a0 as int == 0 * vstd::arithmetic::power::pow(10,
                (i1 - i0) as nat) + digits_val(t@, i0 as int, i1 as int);
    }
    if f1 == n {
        proof {
            assert(0 <= (f1 - f0) as int <= 70);
        }
        return Some(Decimal { neg, mant, exp: 0 - ((f1 - f0) as i32) });
    }
    let c = t[f1];
    if c == 69 || c == 101 {
        let eneg = f1 + 1 < n && t[f1 + 1] == 45;
        let e0: usize = if f1 + 1 < n && (t[f1 + 1] == 45 || t[f1 + 1] == 43) {
            f1 + 2
        } else {
            f1 + 1
        };
        if e0 > n {
            proof {
                assert(e0 == n + 1 && f1 + 1 == n);
                assert(digits_end(t@, e0 as int) == e0);
            }
            return None;
        }
        let e1 = scan_digits(t, e0);
        if e1 == e0 || e1 != n || e1 - e0 > 3 {
            return None;
        }
        let ev = accumulate_digits(t, e0, e1, 0, Ghost(0int));
        proof {
            lemma_digits_val_bound(t@, e0 as int, e1 as int);
            reveal_with_fuel(vstd::arithmetic::power::pow, 4);
            assert(ev < 1000);
            assert(ev as int == digits_val(t@, e0 as int, e1 as int)) by (nonlinear_arith)
                requires ev as int == 0 * vstd::arithmetic::power::pow(10,
                    (e1 - e0) as nat) + digits_val(t@, e0 as int, e1 as int);
        }
        let evi = ev as i32;
        let exp: i32 = if eneg { 0 - evi } else { evi } - ((f1 - f0) as i32);
        return Some(Decimal { neg, mant, exp });
    }
    None
}

/// Compares the keyword field of card `i` with an eight-byte keyword.
fn kw_is(raw: &Vec<u8>, i: usize, kw: Ghost<Seq<u8>>,
    k0: u8, k1: u8, k2: u8, k3: u8, k4: u8, k5: u8, k6: u8, k7: u8) -> (r: bool)
    requires
        80 * i + 80 <= raw@.len(),
        kw@ =~= seq![k0, k1, k2, k3, k4, k5, k6, k7],
    ensures
        r == (card_kw(raw@, i as int) =~= kw@),
{
    let rl = raw.len();
    let base = 80 * i;
    let r = raw[base] == k0 && raw[base + 1] == k1 && raw[base + 2] == k2
        && raw[base + 3] == k3 && raw[base + 4] == k4 && raw[base + 5] == k5
        && raw[base + 6] == k6 && raw[base + 7] == k7;
    proof {
        let ck = card_kw(raw@, i as int);
        assert(ck.len() == 8);
        if r {
            assert forall|p: int| 0 <= p < 8 implies ck[p] == kw@[p] by {
                assert(ck[p] == raw@[80 * i + p]);
            }
            assert(ck =~= kw@);
        } else {
            if ck =~= kw@ {
                assert(ck[0] == raw@[80 * i + 0] && ck[1] == raw@[80 * i + 1]
                    && ck[2] == raw@[80 * i + 2] && ck[3] == raw@[80 * i + 3]
                    && ck[4] == raw@[80 * i + 4] && ck[5] == raw@[80 * i + 5]
                    && ck[6] == raw@[80 * i + 6] && ck[7] == raw@[80 * i + 7]);
                assert(false);
            }
        }
    }
    r
}

/// Extracts and parses the value token of card `i`; agrees exactly with
/// [`card_value`].
fn parse_card_value(raw: &Vec<u8>, i: usize) -> (r: Option<Decimal>)
    requires
        80 * i + 80 <= raw@.len(),
    ensures
        match card_value(raw@, i as int) {
            None => r is None,
            Some(v) => r == Some(as_decimal(v)) && value_fits(v),
        },
{
    let rl = raw.len();
    let base = 80 * i;
    if !(raw[base + 8] == 61 && raw[base + 9] == 32) {
        return None;
    }
    let ghost v = raw@.subrange(80 * i + 10, 80 * i + 80);
    // Find the comment, then trim spaces.
    let mut stop: usize = 0;
    while stop < 70 && raw[base + 10 + stop] != 47
        invariant
            stop <= 70,
            base == 80 * i,
            base + 80 <= rl,
            rl == raw@.len(),
            v == raw@.subrange(80 * i + 10, 80 * i + 80),
            slash_end(v, 0) == slash_end(v, stop as int),
        decreases 70 - stop,
    {
        proof {
            assert(v[stop as int] == raw@[80 * i + 10 + stop]);
            assert(slash_end(v, stop as int) == slash_end(v, stop + 1));
        }
        stop = stop + 1;
    }
    proof {
        assert(v.len() == 70);
        assert(stop < 70 ==> v[stop as int] == raw@[80 * i + 10 + stop]);
        assert(slash_end(v, stop as int) == stop);
    }
    let mut l: usize = 0;
    while l < 70 && raw[base + 10 + l] == 32
        invariant
            l <= 70,
            base == 80 * i,
            base + 80 <= rl,
            rl == raw@.len(),
            v == raw@.subrange(80 * i + 10, 80 * i + 80),
            space_end(v, 0) == space_end(v, l as int),
        decreases 70 - l,
    {
        proof {
            assert(v[l as int] == raw@[80 * i + 10 + l]);
            assert(space_end(v, l as int) == space_end(v, l + 1));
        }
        l = l + 1;
    }
    proof {
        assert(l < 70 ==> v[l as int] == raw@[80 * i + 10 + l]);
        assert(space_end(v, l as int) == l);
    }
    if l >= stop {
        return None;
    }
    let mut rr: usize = stop;
    while rr > 0 && raw[base + 10 + rr - 1] == 32
        invariant
            rr <= stop <= 70,
            l < stop,
            l < rr || rr == l,
            rr >= l + 1 || rr == l,
            base == 80 * i,
            base + 80 <= rl,
            rl == raw@.len(),
            v == raw@.subrange(80 * i + 10, 80 * i + 80),
            v[l as int] != 32,
            rr > l,
            rspace_start(v, stop as int) == rspace_start(v, rr as int),
        decreases rr,
    {
        proof {
            assert(v[rr - 1] == raw@[80 * i + 10 + rr - 1]);
            assert(rspace_start(v, rr as int) == rspace_start(v, rr - 1));
        }
        rr = rr - 1;
    }
    proof {
        assert(rr > 0 ==> v[rr - 1] == raw@[80 * i + 10 + rr - 1]);
        assert(rspace_start(v, rr as int) == rr);
    }
    let mut tok: Vec<u8> = Vec::new();
    let mut p = l;
    while p < rr
        invariant
            l <= p <= rr <= 70,
            base == 80 * i,
            base + 80 <= rl,
            rl == raw@.len(),
            v == raw@.subrange(80 * i + 10, 80 * i + 80),
            tok@ =~= v.subrange(l as int, p as int),
        decreases rr - p,
    {
        let b = raw[base + 10 + p];
        proof {
            assert(v[p as int] == raw@[80 * i + 10 + p]);
            assert(v.subrange(l as int, p + 1)
                =~= v.subrange(l as int, p as int).push(v[p as int]));
        }
        tok.push(b);
        p = p + 1;
    }
    proof {
        assert(tok@ =~= v.subrange(l as int, rr as int));
    }
    parse_token(&tok)
}

/// Signed 16-bit sample read big-endian.
pub open spec fn i16_of(b0: u8, b1: u8) -> i16 {
    be16(b0, b1) as u16 as i16
}

/// Signed 32-bit sample read big-endian.
pub open spec fn i32_of(b0: u8, b1: u8, b2: u8, b3: u8) -> i32 {
    be32(b0, b1, b2, b3) as u32 as i32
}

/// Tracking state for one keyword during the header scan.
pub open spec fn kw_tracked(bytes: Seq<u8>, kw: Seq<u8>, upto: int,
    gidx: Option<int>, val: Option<Decimal>) -> bool {
    match gidx {
        Some(c) => spec_find(bytes, kw, 0) == Some(c) && match card_value(bytes, c) {
            Some(v) => val == Some(as_decimal(v)) && value_fits(v),
            None => false,
        },
        None => spec_find(bytes, kw, 0) == spec_find(bytes, kw, upto) && val is None,
    }
}

/// An exec dimension check mirroring [`as_dim`].
fn dim_of(d: Decimal, ghost_v: Ghost<(bool, int, int)>) -> (r: Option<u32>)
    requires
        d == as_decimal(ghost_v@),
        value_fits(ghost_v@),
    ensures
        match as_dim(ghost_v@) {
            Some(w) => r == Some(w as u32),
            None => r is None,
        },
{
    if d.exp == 0 && (!d.neg || d.mant == 0) && d.mant <= 16384 {
        Some(d.mant as u32)
    } else {
        None
    }
}

impl Fits {
    /// Decodes a header-prefixed big-endian raster.  Exactly when
    /// [`spec_decode_error`] says so, the matching error comes back;
    /// otherwise the header metadata and the typed native-order payload.
    #[verifier::rlimit(80)]
    pub fn new(raw: &Vec<u8>) -> (r: Result<Fits, DecodeError>)
        requires
            raw@.len() <= 0x1000_0000,
        ensures
            r is Err <==> spec_decode_error(raw@) is Some,
            r matches Err(err) ==> spec_decode_error(raw@) == Some(err),
            r matches Ok(f) ==> {
                let e = spec_end_card(raw@, 0)->0;
                let w = as_dim(kw_value(raw@, naxis1_kw())->0->0)->0;
                let h = as_dim(kw_value(raw@, naxis2_kw())->0->0)->0;
                let bp = as_bitpix(kw_value(raw@, bitpix_kw())->0->0)->0;
                let ds = data_start(e);
                &&& f.width == w
                &&& f.height == h
                &&& f.bscale == match kw_value(raw@, bscale_kw()) {
                    Some(v) => as_decimal(v->0),
                    None => Decimal { neg: false, mant: 1, exp: 0 },
                }
                &&& f.bzero == match kw_value(raw@, bzero_kw()) {
                    Some(v) => as_decimal(v->0),
                    None => Decimal { neg: false, mant: 0, exp: 0 },
                }
                &&& f.blank == match kw_value(raw@, blank_kw()) {
                    Some(v) => Some(as_decimal(v->0)),
                    None => Option::<Decimal>::None,
                }
                &&& bp == 8 ==> (f.data matches TypedData::U8(v) && v@.len() == w * h
                    && forall|j: int| 0 <= j < w * h
                        ==> #[trigger] v@[j] == raw@[ds + j])
                &&& bp == 16 ==> (f.data matches TypedData::I16(v) && v@.len() == w * h
                    && forall|j: int| 0 <= j < w * h
                        ==> #[trigger] v@[j] == i16_of(raw@[ds + 2 * j], raw@[ds + 2 * j + 1]))
                &&& bp == 32 ==> (f.data matches TypedData::I32(v) && v@.len() == w * h
                    && forall|j: int| 0 <= j < w * h
                        ==> #[trigger] v@[j] == i32_of(raw@[ds + 4 * j],
                            raw@[ds + 4 * j + 1], raw@[ds + 4 * j + 2], raw@[ds + 4 * j + 3]))
                &&& bp == -32 ==> (f.data matches TypedData::F32Bits(v) && v@.len() == w * h
                    && forall|j: int| 0 <= j < w * h
                        ==> #[trigger] v@[j] as int == be32(raw@[ds + 4 * j],
                            raw@[ds + 4 * j + 1], raw@[ds + 4 * j + 2], raw@[ds + 4 * j + 3]))
                &&& bp == -64 ==> (f.data matches TypedData::F64Bits(v) && v@.len() == w * h
                    && forall|j: int| 0 <= j < w * h
                        ==> #[trigger] v@[j] as int == be64(raw@[ds + 8 * j],
                            raw@[ds + 8 * j + 1], raw@[ds + 8 * j + 2], raw@[ds + 8 * j + 3],
                            raw@[ds + 8 * j + 4], raw@[ds + 8 * j + 5],
                            raw@[ds + 8 * j + 6], raw@[ds + 8 * j + 7]))
            },
    {
        let rl = raw.len();
        let mut i: usize = 0;
        let mut v_n1: Option<Decimal> = None;
        let mut v_n2: Option<Decimal> = None;
        let mut v_bp: Option<Decimal> = None;
        let mut v_bz: Option<Decimal> = None;
        let mut v_bs: Option<Decimal> = None;
        let mut v_bl: Option<Decimal> = None;
        let ghost mut g_n1: Option<int> = None;
        let ghost mut g_n2: Option<int> = None;
        let ghost mut g_bp: Option<int> = None;
        let ghost mut g_bz: Option<int> = None;
        let ghost mut g_bs: Option<int> = None;
        let ghost mut g_bl: Option<int> = None;
        let e: usize;
        loop
            invariant_except_break
                80 * i <= rl + 80,
                rl == raw@.len(),
                rl <= 0x1000_0000,
                spec_end_card(raw@, 0) == spec_end_card(raw@, i as int),
                kw_tracked(raw@, naxis1_kw(), i as int, g_n1, v_n1),
                kw_tracked(raw@, naxis2_kw(), i as int, g_n2, v_n2),
                kw_tracked(raw@, bitpix_kw(), i as int, g_bp, v_bp),
                kw_tracked(raw@, bzero_kw(), i as int, g_bz, v_bz),
                kw_tracked(raw@, bscale_kw(), i as int, g_bs, v_bs),
                kw_tracked(raw@, blank_kw(), i as int, g_bl, v_bl),
            ensures
                spec_end_card(raw@, 0) == Some(e as int),
                80 * e + 80 <= rl,
                kw_tracked(raw@, naxis1_kw(), e as int, g_n1, v_n1),
                kw_tracked(raw@, naxis2_kw(), e as int, g_n2, v_n2),
                kw_tracked(raw@, bitpix_kw(), e as int, g_bp, v_bp),
                kw_tracked(raw@, bzero_kw(), e as int, g_bz, v_bz),
                kw_tracked(raw@, bscale_kw(), e as int, g_bs, v_bs),
                kw_tracked(raw@, blank_kw(), e as int, g_bl, v_bl),
                spec_find(raw@, naxis1_kw(), e as int) is None,
                spec_find(raw@, naxis2_kw(), e as int) is None,
                spec_find(raw@, bitpix_kw(), e as int) is None,
                spec_find(raw@, bzero_kw(), e as int) is None,
                spec_find(raw@, bscale_kw(), e as int) is None,
                spec_find(raw@, blank_kw(), e as int) is None,
            decreases rl + 80 - 80 * i,
        {
            if 80 * i + 80 > rl {
                proof {
                    assert(spec_end_card(raw@, i as int) is None);
                    assert(spec_decode_error(raw@) == Some(DecodeError::Malformed));
                }
                return Err(DecodeError::Malformed);
            }
            if kw_is(raw, i, Ghost(end_kw()), 69, 78, 68, 32, 32, 32, 32, 32) {
                e = i;
                proof {
                    assert(spec_end_card(raw@, i as int) == Some(i as int));
                    assert(spec_find(raw@, naxis1_kw(), i as int) is None);
                    assert(spec_find(raw@, naxis2_kw(), i as int) is None);
                    assert(spec_find(raw@, bitpix_kw(), i as int) is None);
                    assert(spec_find(raw@, bzero_kw(), i as int) is None);
                    assert(spec_find(raw@, bscale_kw(), i as int) is None);
                    assert(spec_find(raw@, blank_kw(), i as int) is None);
                }
                break;
            }
            proof {
                assert(!(card_kw(raw@, i as int) =~= end_kw()));
                assert(spec_end_card(raw@, i as int) == spec_end_card(raw@, i + 1));
            }
            let m_n1 = kw_is(raw, i, Ghost(naxis1_kw()), 78, 65, 88, 73, 83, 49, 32, 32);
            let m_n2 = kw_is(raw, i, Ghost(naxis2_kw()), 78, 65, 88, 73, 83, 50, 32, 32);
            let m_bp = kw_is(raw, i, Ghost(bitpix_kw()), 66, 73, 84, 80, 73, 88, 32, 32);
            let m_bz = kw_is(raw, i, Ghost(bzero_kw()), 66, 90, 69, 82, 79, 32, 32, 32);
            let m_bs = kw_is(raw, i, Ghost(bscale_kw()), 66, 83, 67, 65, 76, 69, 32, 32);
            let m_bl = kw_is(raw, i, Ghost(blank_kw()), 66, 76, 65, 78, 75, 32, 32, 32);
            proof {
                assert(spec_find(raw@, naxis1_kw(), i as int) == if m_n1 {
                    Some(i as int)
                } else {
                    spec_find(raw@, naxis1_kw(), i + 1)
                });
                assert(spec_find(raw@, naxis2_kw(), i as int) == if m_n2 {
                    Some(i as int)
                } else {
                    spec_find(raw@, naxis2_kw(), i + 1)
                });
                assert(spec_find(raw@, bitpix_kw(), i as int) == if m_bp {
                    Some(i as int)
                } else {
                    spec_find(raw@, bitpix_kw(), i + 1)
                });
                assert(spec_find(raw@, bzero_kw(), i as int) == if m_bz {
                    Some(i as int)
                } else {
                    spec_find(raw@, bzero_kw(), i + 1)
                });
                assert(spec_find(raw@, bscale_kw(), i as int) == if m_bs {
                    Some(i as int)
                } else {
                    spec_find(raw@, bscale_kw(), i + 1)
                });
                assert(spec_find(raw@, blank_kw(), i as int) == if m_bl {
                    Some(i as int)
                } else {
                    spec_find(raw@, blank_kw(), i + 1)
                });
            }
            if m_n1 && v_n1.is_none() {
                let parsed = parse_card_value(raw, i);
                if parsed.is_none() {
                    proof {
                        assert(kw_value(raw@, naxis1_kw())
                            == Some(Option::<(bool, int, int)>::None));
                        assert(some_bad_value(raw@));
                        assert(spec_decode_error(raw@) == Some(DecodeError::Malformed));
                    }
                    return Err(DecodeError::Malformed);
                }
                v_n1 = parsed;
                proof {
                    g_n1 = Some(i as int);
                }
            }
            if m_n2 && v_n2.is_none() {
                let parsed = parse_card_value(raw, i);
                if parsed.is_none() {
                    proof {
                        assert(kw_value(raw@, naxis2_kw())
                            == Some(Option::<(bool, int, int)>::None));
                        assert(spec_decode_error(raw@) == Some(DecodeError::Malformed));
                    }
                    return Err(DecodeError::Malformed);
                }
                v_n2 = parsed;
                proof {
                    g_n2 = Some(i as int);
                }
            }
            if m_bp && v_bp.is_none() {
                let parsed = parse_card_value(raw, i);
                if parsed.is_none() {
                    proof {
                        assert(kw_value(raw@, bitpix_kw())
                            == Some(Option::<(bool, int, int)>::None));
                        assert(spec_decode_error(raw@) == Some(DecodeError::Malformed));
                    }
                    return Err(DecodeError::Malformed);
                }
                v_bp = parsed;
                proof {
                    g_bp = Some(i as int);
                }
            }
            if m_bz && v_bz.is_none() {
                let parsed = parse_card_value(raw, i);
                if parsed.is_none() {
                    proof {
                        assert(kw_value(raw@, bzero_kw())
                            == Some(Option::<(bool, int, int)>::None));
                        assert(spec_decode_error(raw@) == Some(DecodeError::Malformed));
                    }
                    return Err(DecodeError::Malformed);
                }
                v_bz = parsed;
                proof {
                    g_bz = Some(i as int);
                }
            }
            if m_bs && v_bs.is_none() {
                let parsed = parse_card_value(raw, i);
                if parsed.is_none() {
                    proof {
                        assert(kw_value(raw@, bscale_kw())
                            == Some(Option::<(bool, int, int)>::None));
                        assert(spec_decode_error(raw@) == Some(DecodeError::Malformed));
                    }
                    return Err(DecodeError::Malformed);
                }
                v_bs = parsed;
                proof {
                    g_bs = Some(i as int);
                }
            }
            if m_bl && v_bl.is_none() {
                let parsed = parse_card_value(raw, i);
                if parsed.is_none() {
                    proof {
                        assert(kw_value(raw@, blank_kw())
                            == Some(Option::<(bool, int, int)>::None));
                        assert(spec_decode_error(raw@) == Some(DecodeError::Malformed));
                    }
                    return Err(DecodeError::Malformed);
                }
                v_bl = parsed;
                proof {
                    g_bl = Some(i as int);
                }
            }
            i = i + 1;
        }
        proof {
            assert(!some_bad_value(raw@));
        }
        let w32: u32;
        let h32: u32;
        match (v_n1, v_n2) {
            (Some(d1), Some(d2)) => {
                let dw = dim_of(d1, Ghost(card_value(raw@, g_n1->0)->0));
                let dh = dim_of(d2, Ghost(card_value(raw@, g_n2->0)->0));
                match (dw, dh) {
                    (Some(w), Some(h)) => {
                        w32 = w;
                        h32 = h;
                    }
                    _ => {
                        proof {
                            assert(spec_decode_error(raw@)
                                == Some(DecodeError::Malformed));
                        }
                        return Err(DecodeError::Malformed);
                    }
                }
            }
            _ => {
                proof {
                    assert(kw_value(raw@, naxis1_kw()) is None
                        || kw_value(raw@, naxis2_kw()) is None);
                    assert(spec_decode_error(raw@)
                        == Some(DecodeError::MissingDimension));
                }
                return Err(DecodeError::MissingDimension);
            }
        }
        let bp: i32;
        match v_bp {
            Some(d) => {
                if d.exp == 0 && !d.neg && (d.mant == 8 || d.mant == 16 || d.mant == 32) {
                    bp = d.mant as i32;
                } else if d.exp == 0 && d.neg && (d.mant == 32 || d.mant == 64) {
                    bp = 0 - (d.mant as i32);
                } else {
                    proof {
                        assert(as_bitpix(card_value(raw@, g_bp->0)->0) is None);
                        assert(spec_decode_error(raw@)
                            == Some(DecodeError::UnsupportedKind));
                    }
                    return Err(DecodeError::UnsupportedKind);
                }
            }
            None => {
                proof {
                    assert(spec_decode_error(raw@)
                        == Some(DecodeError::UnsupportedKind));
                }
                return Err(DecodeError::UnsupportedKind);
            }
        }
        let isz: usize = if bp == 8 { 1 } else if bp == 16 { 2 }
            else if bp == 32 || bp == -32 { 4 } else { 8 };
        let ds = ((e + 1) * 80 + 2879) / 2880 * 2880;
        proof {
            assert(w32 as int * h32 as int <= 16384 * 16384) by (nonlinear_arith)
                requires w32 <= 16384, h32 <= 16384;
        }
        let count = (w32 as usize) * (h32 as usize);
        proof {
            assert(count * (isz as int) <= 16384 * 16384 * 8) by (nonlinear_arith)
                requires count <= 16384 * 16384, isz <= 8;
        }
        let need = count * isz;
        if ds > rl || need > rl - ds {
            proof {
                assert(data_start(e as int) + (w32 as int) * (h32 as int)
                    * item_size(bp as int) > raw@.len());
                assert(spec_decode_error(raw@) == Some(DecodeError::Malformed));
            }
            return Err(DecodeError::Malformed);
        }
        proof {
            assert(spec_decode_error(raw@) is None);
        }
        let bscale = match v_bs {
            Some(d) => d,
            None => Decimal { neg: false, mant: 1, exp: 0 },
        };
        let bzero = match v_bz {
            Some(d) => d,
            None => Decimal { neg: false, mant: 0, exp: 0 },
        };
        let blank = v_bl;
        let data: TypedData;
        if bp == 8 {
            let mut v: Vec<u8> = Vec::new();
            let mut j: usize = 0;
            while j < count
                invariant
                    j <= count,
                    ds + count * isz <= rl,
                    isz == 1,
                    rl == raw@.len(),
                    v@.len() == j,
                    forall|p: int| 0 <= p < j ==> #[trigger] v@[p] == raw@[ds + p],
                decreases count - j,
            {
                proof {
                    assert(ds + j < ds + count * 1) by (nonlinear_arith)
                        requires j < count, isz == 1;
                }
                v.push(raw[ds + j]);
                j = j + 1;
            }
            data = TypedData::U8(v);
        } else if bp == 16 {
            let mut v: Vec<i16> = Vec::new();
            let mut j: usize = 0;
            while j < count
                invariant
                    j <= count,
                    ds + count * isz <= rl,
                    isz == 2,
                    rl == raw@.len(),
                    v@.len() == j,
                    forall|p: int| 0 <= p < j ==> #[trigger] v@[p]
                        == i16_of(raw@[ds + 2 * p], raw@[ds + 2 * p + 1]),
                decreases count - j,
            {
                proof {
                    assert(ds + 2 * j + 1 < ds + count * 2) by (nonlinear_arith)
                        requires j < count;
                }
                let hi = raw[ds + 2 * j];
                let lo = raw[ds + 2 * j + 1];
                v.push((((hi as u16) * 256) + lo as u16) as i16);
                j = j + 1;
            }
            data = TypedData::I16(v);
        } else if bp == 32 {
            let mut v: Vec<i32> = Vec::new();
            let mut j: usize = 0;
            while j < count
                invariant
                    j <= count,
                    ds + count * isz <= rl,
                    isz == 4,
                    rl == raw@.len(),
                    v@.len() == j,
                    forall|p: int| 0 <= p < j ==> #[trigger] v@[p]
                        == i32_of(raw@[ds + 4 * p], raw@[ds + 4 * p + 1],
                            raw@[ds + 4 * p + 2], raw@[ds + 4 * p + 3]),
                decreases count - j,
            {
                proof {
                    assert(ds + 4 * j + 3 < ds + count * 4) by (nonlinear_arith)
                        requires j < count;
                }
                let b0 = raw[ds + 4 * j];
                let b1 = raw[ds + 4 * j + 1];
                let b2 = raw[ds + 4 * j + 2];
                let b3 = raw[ds + 4 * j + 3];
                let u = (b0 as u32) * 0x1000000 + (b1 as u32) * 0x10000
                    + (b2 as u32) * 0x100 + b3 as u32;
                v.push(u as i32);
                j = j + 1;
            }
            data = TypedData::I32(v);
        } else if bp == -32 {
            let mut v: Vec<u32> = Vec::new();
            let mut j: usize = 0;
            while j < count
                invariant
                    j <= count,
                    ds + count * isz <= rl,
                    isz == 4,
                    rl == raw@.len(),
                    v@.len() == j,
                    forall|p: int| 0 <= p < j ==> #[trigger] v@[p] as int
                        == be32(raw@[ds + 4 * p], raw@[ds + 4 * p + 1],
                            raw@[ds + 4 * p + 2], raw@[ds + 4 * p + 3]),
                decreases count - j,
            {
                proof {
                    assert(ds + 4 * j + 3 < ds + count * 4) by (nonlinear_arith)
                        requires j < count;
                }
                let b0 = raw[ds + 4 * j];
                let b1 = raw[ds + 4 * j + 1];
                let b2 = raw[ds + 4 * j + 2];
                let b3 = raw[ds + 4 * j + 3];
                v.push((b0 as u32) * 0x1000000 + (b1 as u32) * 0x10000
                    + (b2 as u32) * 0x100 + b3 as u32);
                j = j + 1;
            }
            data = TypedData::F32Bits(v);
        } else {
            let mut v: Vec<u64> = Vec::new();
            let mut j: usize = 0;
            while j < count
                invariant
                    j <= count,
                    ds + count * isz <= rl,
                    isz == 8,
                    rl == raw@.len(),
                    v@.len() == j,
                    forall|p: int| 0 <= p < j ==> #[trigger] v@[p] as int
                        == be64(raw@[ds + 8 * p], raw@[ds + 8 * p + 1],
                            raw@[ds + 8 * p + 2], raw@[ds + 8 * p + 3],
                            raw@[ds + 8 * p + 4], raw@[ds + 8 * p + 5],
                            raw@[ds + 8 * p + 6], raw@[ds + 8 * p + 7]),
                decreases count - j,
            {
                proof {
                    assert(ds + 8 * j + 7 < ds + count * 8) by (nonlinear_arith)
                        requires j < count;
                }
                let b0 = raw[ds + 8 * j];
                let b1 = raw[ds + 8 * j + 1];
                let b2 = raw[ds + 8 * j + 2];
                let b3 = raw[ds + 8 * j + 3];
                let b4 = raw[ds + 8 * j + 4];
                let b5 = raw[ds + 8 * j + 5];
                let b6 = raw[ds + 8 * j + 6];
                let b7 = raw[ds + 8 * j + 7];
                let hi = (b0 as u32) * 0x1000000 + (b1 as u32) * 0x10000
                    + (b2 as u32) * 0x100 + b3 as u32;
                let lo = (b4 as u32) * 0x1000000 + (b5 as u32) * 0x10000
                    + (b6 as u32) * 0x100 + b7 as u32;
                v.push((hi as u64) * 0x1_0000_0000 + lo as u64);
                j = j + 1;
            }
            data = TypedData::F64Bits(v);
        }
        Ok(Fits { width: w32, height: h32, bscale, bzero, blank, data })
    }
}

} // verus!
