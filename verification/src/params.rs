//! Transform parameters: the typed, range-checked value object built once at
//! the request boundary, and the parsing of raw query values into it.
//!
//! Absence of all four fields is the sentinel "pass-through" request: the
//! fetched source bytes are served unmodified.  Unparseable or out-of-range
//! `width`/`height`/`quality` values are silently treated as absent; `quality`
//! is clamped to `[1, 100]` after parsing.

use vstd::prelude::*;

verus! {

/// The output encodings a request can select.  `Jpeg` is the default, and
/// any present but unrecognized format name is treated as `Jpeg` as well.
#[derive(Clone, Copy, Debug, PartialEq, Eq, Structural)]
pub enum ImageFormat {
    Jpeg,
    Png,
    Webp,
}

/// Optional transform parameters of one request.  `width` and `height` are
/// positive target dimensions in pixels; `quality` is an encoder quality in
/// `[1, 100]`; `format` selects the output encoding.
#[derive(Clone, Copy, Debug, PartialEq, Eq)]
pub struct ProcessingParams {
    pub width: Option<i32>,
    pub height: Option<i32>,
    pub quality: Option<i32>,
    pub format: Option<ImageFormat>,
}

impl ProcessingParams {
    /// A request with no parameters at all asks for the source bytes as they
    /// are, skipping decode and re-encode entirely.
    pub open spec fn spec_is_pass_through(self) -> bool {
        self.width is None && self.height is None && self.quality is None
            && self.format is None
    }

    /// Returns whether this is the pass-through sentinel request.
    pub fn is_pass_through(&self) -> (r: bool)
        ensures
            r == self.spec_is_pass_through(),
    {
        self.width.is_none() && self.height.is_none() && self.quality.is_none()
            && self.format.is_none()
    }

    /// The MIME type the response will carry for these parameters: the
    /// selected format's type, `image/jpeg` when no format was requested.
    pub fn determine_content_type(&self) -> (r: &'static str)
        ensures
            r@ == spec_content_type_for(self.format),
    {
        content_type_for(&self.format)
    }
}

/// The MIME type matching an optional output format; `image/jpeg` when the
/// format is absent.
pub open spec fn spec_content_type_for(format: Option<ImageFormat>) -> Seq<char> {
    match format {
        Some(ImageFormat::Png) => "image/png"@,
        Some(ImageFormat::Webp) => "image/webp"@,
        _ => "image/jpeg"@,
    }
}

/// Returns the MIME type matching an optional output format.
pub fn content_type_for(format: &Option<ImageFormat>) -> (r: &'static str)
    ensures
        r@ == spec_content_type_for(*format),
{
    match format {
        Some(ImageFormat::Png) => "image/png",
        Some(ImageFormat::Webp) => "image/webp",
        _ => "image/jpeg",
    }
}

/// True when `c` is one of the ten decimal digit characters.
pub open spec fn is_dec_digit(c: char) -> bool {
    48 <= (c as u32) <= 57
}

/// True when `s` consists of decimal digits only.
pub open spec fn all_digits(s: Seq<char>) -> bool {
    forall|i: int| 0 <= i < s.len() ==> is_dec_digit(#[trigger] s[i])
}

/// The value of a digit string read as a base-ten number.
pub open spec fn dec_value(s: Seq<char>) -> int
    decreases s.len(),
{
    if s.len() == 0 {
        0
    } else {
        dec_value(s.drop_last()) * 10 + ((s.last() as u32) - 48)
    }
}

/// The number a query value denotes: defined exactly for the non-empty
/// all-digit strings, and absent otherwise.
pub open spec fn spec_parse_decimal(s: Seq<char>) -> Option<int> {
    if s.len() > 0 && all_digits(s) {
        Some(dec_value(s))
    } else {
        None
    }
}

proof fn lemma_dec_value_nonneg(s: Seq<char>)
    requires
        all_digits(s),
    ensures
        dec_value(s) >= 0,
    decreases s.len(),
{
    if s.len() > 0 {
        assert(all_digits(s.drop_last()));
        lemma_dec_value_nonneg(s.drop_last());
    }
}

proof fn lemma_dec_value_prefix_le(s: Seq<char>, i: int)
    requires
        all_digits(s),
        0 <= i <= s.len(),
    ensures
        dec_value(s.subrange(0, i)) <= dec_value(s),
    decreases s.len() - i,
{
    if i == s.len() {
        assert(s.subrange(0, i) =~= s);
    } else {
        lemma_dec_value_prefix_le(s, i + 1);
        let p = s.subrange(0, i + 1);
        assert(p.drop_last() =~= s.subrange(0, i));
        lemma_dec_value_nonneg(s.subrange(0, i));
    }
}

/// Reads a non-negative decimal number from a query value.  Returns the
/// value exactly when the string is non-empty, all digits, and the number
/// fits an `i32`; anything else is unparseable and yields `None`.
pub fn parse_i32(s: &str) -> (r: Option<i32>)
    ensures
        match spec_parse_decimal(s@) {
            Some(v) => if v <= i32::MAX as int {
                r == Some(v as i32)
            } else {
                r is None
            },
            None => r is None,
        },
{
    let n = s.unicode_len();
    if n == 0 {
        return None;
    }
    let mut acc: u64 = 0;
    let mut i: usize = 0;
    while i < n
        invariant
            0 < n == s@.len(),
            0 <= i <= n,
            all_digits(s@.subrange(0, i as int)),
            acc == dec_value(s@.subrange(0, i as int)),
            acc <= i32::MAX as u64,
        decreases n - i,
    {
        let c = s.get_char(i);
        let u = c as u32;
        if u < 48 || u > 57 {
            assert(!all_digits(s@)) by {
                assert(s@[i as int] == c);
            }
            return None;
        }
        let d = (u - 48) as u64;
        let next = acc * 10 + d;
        proof {
            let p = s@.subrange(0, i + 1);
            assert(p.drop_last() =~= s@.subrange(0, i as int));
            assert(p.last() == s@[i as int]);
            assert(dec_value(p) == next);
        }
        if next > i32::MAX as u64 {
            proof {
                if s@.len() > 0 && all_digits(s@) {
                    lemma_dec_value_prefix_le(s@, i + 1);
                }
            }
            return None;
        }
        acc = next;
        i = i + 1;
    }
    proof {
        assert(s@.subrange(0, n as int) =~= s@);
    }
    Some(acc as i32)
}

/// The target dimension a query value denotes: the parsed number when it is
/// positive and fits an `i32`, absent otherwise.
pub open spec fn spec_parse_dimension(s: Seq<char>) -> Option<i32> {
    match spec_parse_decimal(s) {
        Some(v) => if 1 <= v <= i32::MAX as int {
            Some(v as i32)
        } else {
            None
        },
        None => None,
    }
}

/// Reads a target dimension (width or height): a positive decimal number.
/// Zero, overflowing or malformed values are treated as absent.
pub fn parse_dimension(s: &str) -> (r: Option<i32>)
    ensures
        r == spec_parse_dimension(s@),
{
    proof {
        if s@.len() > 0 && all_digits(s@) {
            lemma_dec_value_nonneg(s@);
        }
    }
    match parse_i32(s) {
        Some(v) => if v >= 1 {
            Some(v)
        } else {
            None
        },
        None => None,
    }
}

/// `q` forced into the encoder's accepted range `[1, 100]`.
pub open spec fn spec_clamp_quality(q: int) -> int {
    if q < 1 {
        1
    } else if q > 100 {
        100
    } else {
        q
    }
}

/// Forces a quality value into `[1, 100]`.
pub fn clamp_quality(q: i32) -> (r: i32)
    ensures
        r as int == spec_clamp_quality(q as int),
{
    if q < 1 {
        1
    } else if q > 100 {
        100
    } else {
        q
    }
}

/// The quality a query value denotes: the parsed number clamped to
/// `[1, 100]`, absent when the value is malformed or overflows.
pub open spec fn spec_parse_quality(s: Seq<char>) -> Option<i32> {
    match spec_parse_decimal(s) {
        Some(v) => if v <= i32::MAX as int {
            Some(spec_clamp_quality(v) as i32)
        } else {
            None
        },
        None => None,
    }
}

/// Reads an encoder quality: a decimal number, clamped to `[1, 100]` after
/// parsing, so `150` becomes `100` and `0` becomes `1`.
pub fn parse_quality(s: &str) -> (r: Option<i32>)
    ensures
        r == spec_parse_quality(s@),
{
    proof {
        if s@.len() > 0 && all_digits(s@) {
            lemma_dec_value_nonneg(s@);
        }
    }
    match parse_i32(s) {
        Some(v) => Some(clamp_quality(v)),
        None => None,
    }
}

/// The format a query value selects.  `png` and `webp` choose those
/// encodings; any other present value falls back to `Jpeg`.
pub open spec fn spec_parse_format(s: Seq<char>) -> ImageFormat {
    if s == "png"@ {
        ImageFormat::Png
    } else if s == "webp"@ {
        ImageFormat::Webp
    } else {
        ImageFormat::Jpeg
    }
}

/// Compares two string slices character for character.
fn str_eq(a: &str, b: &str) -> (r: bool)
    ensures
        r == (a@ == b@),
{
    let na = a.unicode_len();
    let nb = b.unicode_len();
    if na != nb {
        return false;
    }
    let mut i: usize = 0;
    while i < na
        invariant
            na == a@.len(),
            na == b@.len(),
            0 <= i <= na,
            forall|j: int| 0 <= j < i ==> a@[j] == b@[j],
        decreases na - i,
    {
        if a.get_char(i) != b.get_char(i) {
            return false;
        }
        i = i + 1;
    }
    proof {
        assert(a@ =~= b@);
    }
    true
}

/// Reads an output format name; unknown names select `Jpeg`.
pub fn parse_format(s: &str) -> (r: ImageFormat)
    ensures
        r == spec_parse_format(s@),
{
    if str_eq(s, "png") {
        ImageFormat::Png
    } else if str_eq(s, "webp") {
        ImageFormat::Webp
    } else {
        ImageFormat::Jpeg
    }
}

/// Builds the typed parameter struct from the four raw query values, as the
/// request boundary hands them over.  Each absent or unparseable value
/// becomes an absent field; `quality` is clamped to `[1, 100]`.
pub fn parse_query_params(
    width: Option<&str>,
    height: Option<&str>,
    quality: Option<&str>,
    format: Option<&str>,
) -> (r: ProcessingParams)
    ensures
        r.width == match width {
            Some(s) => spec_parse_dimension(s@),
            None => None::<i32>,
        },
        r.height == match height {
            Some(s) => spec_parse_dimension(s@),
            None => None::<i32>,
        },
        r.quality == match quality {
            Some(s) => spec_parse_quality(s@),
            None => None::<i32>,
        },
        r.format == match format {
            Some(s) => Some(spec_parse_format(s@)),
            None => None::<ImageFormat>,
        },
{
    ProcessingParams {
        width: match width {
            Some(s) => parse_dimension(s),
            None => None,
        },
        height: match height {
            Some(s) => parse_dimension(s),
            None => None,
        },
        quality: match quality {
            Some(s) => parse_quality(s),
            None => None,
        },
        format: match format {
            Some(s) => Some(parse_format(s)),
            None => None,
        },
    }
}

} // verus!
