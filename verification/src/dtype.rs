//! NumPy-style type strings (`"<f4"`, `"|u1"`, ...) for TIFF samples and
//! decoded tiles.
use vstd::prelude::*;
use vstd::string::*;

verus! {

/// The TIFF `SampleFormat` of a band.
#[derive(Clone, Copy, Debug, PartialEq, Eq, Structural)]
pub enum SampleKind {
    /// Unsigned integer data.
    Uint,
    /// Signed integer data.
    Int,
    /// Floating point data.
    Float,
    /// Undefined data.
    Void,
    /// A code that the TIFF specification does not define.
    Unknown(u16),
}

/// The element type of a decoded tile.
#[derive(Clone, Copy, Debug, PartialEq, Eq, Structural)]
pub enum PixelType {
    Bool,
    UInt8,
    UInt16,
    UInt32,
    UInt64,
    Int8,
    Int16,
    Int32,
    Int64,
    Float32,
    Float64,
}

/// The character of a decimal digit.
pub open spec fn digit_char(d: nat) -> char {
    if d == 0 { '0' }
    else if d == 1 { '1' }
    else if d == 2 { '2' }
    else if d == 3 { '3' }
    else if d == 4 { '4' }
    else if d == 5 { '5' }
    else if d == 6 { '6' }
    else if d == 7 { '7' }
    else if d == 8 { '8' }
    else { '9' }
}

/// The decimal text of `n`, without leading zeros.
pub open spec fn decimal_text(n: nat) -> Seq<char>
    decreases n,
{
    if n < 10 {
        seq![digit_char(n)]
    } else {
        decimal_text(n / 10).push(digit_char(n % 10))
    }
}

/// The text of one decimal digit.
fn digit_str(d: u16) -> (r: &'static str)
    requires
        d < 10,
    ensures
        r@ == seq![digit_char(d as nat)],
{
    proof {
        reveal_strlit("0");
        reveal_strlit("1");
        reveal_strlit("2");
        reveal_strlit("3");
        reveal_strlit("4");
        reveal_strlit("5");
        reveal_strlit("6");
        reveal_strlit("7");
        reveal_strlit("8");
        reveal_strlit("9");
    }
    let r = if d == 0 { "0" }
    else if d == 1 { "1" }
    else if d == 2 { "2" }
    else if d == 3 { "3" }
    else if d == 4 { "4" }
    else if d == 5 { "5" }
    else if d == 6 { "6" }
    else if d == 7 { "7" }
    else if d == 8 { "8" }
    else { "9" };
    assert(r@ =~= seq![digit_char(d as nat)]);
    r
}

/// The decimal text of `n`.
pub fn decimal_string(n: u16) -> (r: String)
    ensures
        r@ == decimal_text(n as nat),
    decreases n,
{
    if n < 10 {
        String::from_str(digit_str(n))
    } else {
        let mut r = decimal_string(n / 10);
        r.append(digit_str(n % 10));
        assert(r@ =~= decimal_text((n / 10) as nat).push(digit_char((n % 10) as nat)));
        r
    }
}

/// The bits of the widest sample that a dtype string is built for: the
/// number of bytes is rounded up in 16-bit arithmetic.
pub open spec fn bits_fit(bits: u16) -> bool {
    bits + 7 <= u16::MAX
}

/// The first sample format, `Uint` when none is given.
pub open spec fn first_sample_kind(sample_format: Seq<SampleKind>) -> SampleKind {
    if sample_format.len() > 0 { sample_format[0] } else { SampleKind::Uint }
}

/// The first bit depth, 8 when none is given.
pub open spec fn first_bits(bps: Seq<u16>) -> u16 {
    if bps.len() > 0 { bps[0] } else { 8 }
}

/// The NumPy type string for samples of the given format and bit depth: a
/// byte-order mark (`|` for one-byte samples, `<` otherwise), a kind letter
/// (`u`, `i`, or `f` for every other format) and the sample size in bytes.
pub open spec fn dtype_text(kind: SampleKind, bits: u16) -> Seq<char> {
    let bytes = (bits + 7) / 8;
    let prefix = if bytes == 1 { "|"@ } else { "<"@ };
    let code = match kind {
        SampleKind::Uint => "u"@,
        SampleKind::Int => "i"@,
        _ => "f"@,
    };
    prefix + code + decimal_text(bytes as nat)
}

/// The NumPy type string of an image directory's samples, from the first
/// band's sample format (unsigned when absent) and bit depth (8 when
/// absent).
pub fn format_dtype(sample_format: &[SampleKind], bps: &[u16]) -> (r: String)
    requires
        bits_fit(first_bits(bps@)),
    ensures
        r@ == dtype_text(first_sample_kind(sample_format@), first_bits(bps@)),
{
    let fmt = if sample_format.len() > 0 { sample_format[0] } else { SampleKind::Uint };
    let bits: u16 = if bps.len() > 0 { bps[0] } else { 8 };
    let bytes: u16 = (bits + 7) / 8;
    let mut r = if bytes == 1 { String::from_str("|") } else { String::from_str("<") };
    let code = match fmt {
        SampleKind::Uint => "u",
        SampleKind::Int => "i",
        _ => "f",
    };
    r.append(code);
    let digits = decimal_string(bytes);
    r.append(digits.as_str());
    r
}

/// The NumPy type string of a decoded tile's element type; tiles of
/// unknown or boolean type are reported as unsigned bytes.
pub open spec fn pixel_dtype_text(t: Option<PixelType>) -> Seq<char> {
    match t {
        Some(PixelType::UInt8) => "|u1"@,
        Some(PixelType::UInt16) => "<u2"@,
        Some(PixelType::UInt32) => "<u4"@,
        Some(PixelType::UInt64) => "<u8"@,
        Some(PixelType::Int8) => "|i1"@,
        Some(PixelType::Int16) => "<i2"@,
        Some(PixelType::Int32) => "<i4"@,
        Some(PixelType::Int64) => "<i8"@,
        Some(PixelType::Float32) => "<f4"@,
        Some(PixelType::Float64) => "<f8"@,
        _ => "|u1"@,
    }
}

/// The NumPy type string of a decoded tile's element type.
pub fn pixel_dtype(t: Option<PixelType>) -> (r: &'static str)
    ensures
        r@ == pixel_dtype_text(t),
{
    match t {
        Some(PixelType::UInt8) => "|u1",
        Some(PixelType::UInt16) => "<u2",
        Some(PixelType::UInt32) => "<u4",
        Some(PixelType::UInt64) => "<u8",
        Some(PixelType::Int8) => "|i1",
        Some(PixelType::Int16) => "<i2",
        Some(PixelType::Int32) => "<i4",
        Some(PixelType::Int64) => "<i8",
        Some(PixelType::Float32) => "<f4",
        Some(PixelType::Float64) => "<f8",
        _ => "|u1",
    }
}

/// The element type that a directory's tiles decode to (async-tiff's
/// `DataType::from_tags`, which the reader applies to every tile): none
/// unless there is a band and every band has the first band's format and
/// bit depth; then unsigned 1 bit is boolean, unsigned and signed 8, 16, 32
/// and 64 bits and floating 32 and 64 bits are the like-named types, and
/// any other pair is none.
pub open spec fn decoded_pixel_type(sample_format: Seq<SampleKind>, bps: Seq<u16>) -> Option<PixelType> {
    if sample_format.len() == 0 || bps.len() == 0 {
        None
    } else if exists|k: int| 0 <= k < sample_format.len() && #[trigger] sample_format[k] != sample_format[0] {
        None
    } else if exists|k: int| 0 <= k < bps.len() && #[trigger] bps[k] != bps[0] {
        None
    } else {
        match (sample_format[0], bps[0]) {
            (SampleKind::Uint, 1) => Some(PixelType::Bool),
            (SampleKind::Uint, 8) => Some(PixelType::UInt8),
            (SampleKind::Uint, 16) => Some(PixelType::UInt16),
            (SampleKind::Uint, 32) => Some(PixelType::UInt32),
            (SampleKind::Uint, 64) => Some(PixelType::UInt64),
            (SampleKind::Int, 8) => Some(PixelType::Int8),
            (SampleKind::Int, 16) => Some(PixelType::Int16),
            (SampleKind::Int, 32) => Some(PixelType::Int32),
            (SampleKind::Int, 64) => Some(PixelType::Int64),
            (SampleKind::Float, 32) => Some(PixelType::Float32),
            (SampleKind::Float, 64) => Some(PixelType::Float64),
            _ => None,
        }
    }
}

/// The type string that the directory summaries and references give a
/// directory (from its first band) is the one that its decoded tiles carry,
/// whenever its tiles decode to a known element type.
pub proof fn lemma_dtype_matches_decoded(sample_format: Seq<SampleKind>, bps: Seq<u16>)
    requires
        decoded_pixel_type(sample_format, bps) is Some,
    ensures
        dtype_text(first_sample_kind(sample_format), first_bits(bps)) == pixel_dtype_text(
            decoded_pixel_type(sample_format, bps),
        ),
{
    reveal_strlit("|");
    reveal_strlit("<");
    reveal_strlit("u");
    reveal_strlit("i");
    reveal_strlit("f");
    reveal_strlit("|u1");
    reveal_strlit("<u2");
    reveal_strlit("<u4");
    reveal_strlit("<u8");
    reveal_strlit("|i1");
    reveal_strlit("<i2");
    reveal_strlit("<i4");
    reveal_strlit("<i8");
    reveal_strlit("<f4");
    reveal_strlit("<f8");
    let kind = first_sample_kind(sample_format);
    let bits = first_bits(bps);
    assert(kind == sample_format[0] && bits == bps[0]);
    let bytes = (bits + 7) / 8;
    assert(decimal_text(1) == seq!['1']);
    assert(decimal_text(2) == seq!['2']);
    assert(decimal_text(4) == seq!['4']);
    assert(decimal_text(8) == seq!['8']);
    let prefix = if bytes == 1 { "|"@ } else { "<"@ };
    let code = match kind {
        SampleKind::Uint => "u"@,
        SampleKind::Int => "i"@,
        _ => "f"@,
    };
    assert(dtype_text(kind, bits) == prefix + code + decimal_text(bytes as nat));
    assert(prefix + code + decimal_text(bytes as nat) =~= pixel_dtype_text(decoded_pixel_type(sample_format, bps)));
}

/// The (height, width, bands) of a decoded tile whose shape is laid out
/// as (height, width, bands) for chunky storage and as (bands, height,
/// width) for planar storage.
pub open spec fn tile_extent(shape: [usize; 3], planar: bool) -> (usize, usize, usize) {
    if planar {
        (shape[1], shape[2], shape[0])
    } else {
        (shape[0], shape[1], shape[2])
    }
}

/// The R `dim` of a decoded tile: `c(height, width)` for a single band,
/// `c(height, width, bands)` otherwise (each extent cast to `i32`).
pub open spec fn tile_dims_of(shape: [usize; 3], planar: bool) -> Seq<i32> {
    let (h, w, b) = tile_extent(shape, planar);
    if b == 1 {
        seq![h as i32, w as i32]
    } else {
        seq![h as i32, w as i32, b as i32]
    }
}

/// The R `dim` of a decoded tile of the given shape; `planar` tells
/// whether the directory stores its bands in separate planes.
pub fn tile_dims(shape: [usize; 3], planar: bool) -> (r: Vec<i32>)
    ensures
        r@ == tile_dims_of(shape, planar),
{
    let (h, w, b) = if planar { (shape[1], shape[2], shape[0]) } else { (shape[0], shape[1], shape[2]) };
    let mut r: Vec<i32> = Vec::new();
    r.push(h as i32);
    r.push(w as i32);
    if b != 1 {
        r.push(b as i32);
    }
    assert(r@ =~= tile_dims_of(shape, planar));
    r
}

} // verus!

verus! {

/// The R `dim` of a decoded tile holds every extent of the tile: its height
/// and width first, then its band count whenever that is not 1, so that
/// (for extents that are R integers) the dims multiply to the number of
/// values in the tile.  A chunky tile's shape is (height, width, bands), a
/// planar tile's (bands, height, width).
pub proof fn lemma_tile_dims_hold_every_extent(shape: [usize; 3], planar: bool)
    ensures
        ({
            let h = if planar { shape[1] } else { shape[0] };
            let w = if planar { shape[2] } else { shape[1] };
            let b = if planar { shape[0] } else { shape[2] };
            let dims = tile_dims_of(shape, planar);
            &&& dims.len() == if b == 1 { 2int } else { 3int }
            &&& dims[0] == h as i32
            &&& dims[1] == w as i32
            &&& b != 1 ==> dims[2] == b as i32
            &&& (h <= i32::MAX && w <= i32::MAX && b <= i32::MAX) ==> dims[0] * dims[1] * (if dims.len()
                == 3 { dims[2] as int } else { 1int }) == h * w * b
        }),
{
    let h = if planar { shape[1] } else { shape[0] };
    let w = if planar { shape[2] } else { shape[1] };
    let b = if planar { shape[0] } else { shape[2] };
    let dims = tile_dims_of(shape, planar);
    if h <= i32::MAX && w <= i32::MAX && b <= i32::MAX {
        assert(dims[0] == h && dims[1] == w);
        if b == 1 {
            assert(dims[0] * dims[1] * 1int == h * w * b);
        } else {
            assert(dims[2] == b);
        }
    }
}

} // verus!

verus! {

/// The number that a string of decimal digits spells.
pub open spec fn digits_value(s: Seq<char>) -> int
    decreases s.len(),
{
    if s.len() == 0 {
        0
    } else {
        digits_value(s.drop_last()) * 10 + (s.last() as int - '0' as int)
    }
}

/// The decimal text of `n` is made of digits, spells `n`, and has no
/// leading zero (but for 0 itself).
pub proof fn lemma_decimal_text_spells(n: nat)
    ensures
        decimal_text(n).len() > 0,
        forall|i: int| 0 <= i < decimal_text(n).len() ==> '0' <= #[trigger] decimal_text(n)[i] <= '9',
        digits_value(decimal_text(n)) == n,
        n > 0 ==> decimal_text(n)[0] != '0',
    decreases n,
{
    if n >= 10 {
        lemma_decimal_text_spells(n / 10);
        let front = decimal_text(n / 10);
        let t = decimal_text(n);
        assert(t == front.push(digit_char(n % 10)));
        assert(t.drop_last() =~= front);
        assert(digit_char(n % 10) as int == '0' as int + n % 10);
        assert(forall|i: int| 0 <= i < front.len() ==> t[i] == front[i]);
        assert(t.last() == digit_char(n % 10));
        assert(digits_value(t) == digits_value(front) * 10 + (n % 10));
        assert((n / 10) * 10 + n % 10 == n);
    } else {
        assert(digit_char(n) as int == '0' as int + n);
        let t = decimal_text(n);
        assert(t.drop_last() =~= Seq::<char>::empty());
        assert(digits_value(t.drop_last()) == 0);
        assert(t.last() == digit_char(n));
        assert(digits_value(t) == n);
    }
}

/// A NumPy type string is a byte-order mark (`|` when each sample is one
/// byte, `<` otherwise), a kind letter (`u` unsigned, `i` signed, `f` for
/// every other format), and the number of bytes a sample takes (bits
/// rounded up to whole bytes) in decimal.
pub proof fn lemma_dtype_text_spells(kind: SampleKind, bits: u16)
    ensures
        ({
            let t = dtype_text(kind, bits);
            let bytes = (bits + 7) / 8;
            &&& t.len() >= 3
            &&& t[0] == if bytes == 1 { '|' } else { '<' }
            &&& t[1] == match kind {
                SampleKind::Uint => 'u',
                SampleKind::Int => 'i',
                _ => 'f',
            }
            &&& digits_value(t.subrange(2, t.len() as int)) == bytes
        }),
{
    reveal_strlit("|");
    reveal_strlit("<");
    reveal_strlit("u");
    reveal_strlit("i");
    reveal_strlit("f");
    let bytes = (bits + 7) / 8;
    lemma_decimal_text_spells(bytes as nat);
    let t = dtype_text(kind, bits);
    let prefix = if bytes == 1 { "|"@ } else { "<"@ };
    let code = match kind {
        SampleKind::Uint => "u"@,
        SampleKind::Int => "i"@,
        _ => "f"@,
    };
    assert(t == prefix + code + decimal_text(bytes as nat));
    assert(t.subrange(2, t.len() as int) =~= decimal_text(bytes as nat));
}

} // verus!
