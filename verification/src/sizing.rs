//! How large the image of an image-backed colorizer is made: the choices
//! that can be asked for, as text, and the sizes they come to.
use crate::console::ansi_parsing::{all_digits, dec_value, is_digit};
use crate::presets::{eq_ignore_case, same_ignoring_case};
use crate::stream_colors::ColorizerConfig;
use vstd::prelude::*;
use vstd::string::StringSliceAdditionalSpecFns;

verus! {

/// Width of the image: that of the file, a fixed one, or that of the
/// terminal.
#[derive(Debug, Clone, Copy, PartialEq, Eq, Structural)]
pub enum ImageWidth {
    Original,
    Fixed(usize),
    Fit,
}

/// Height of the image: that of the file, a fixed one, or what keeps the
/// aspect ratio.
#[derive(Debug, Clone, Copy, PartialEq, Eq, Structural)]
pub enum ImageHeight {
    Original,
    Fixed(usize),
    Ratio,
}

/// A size that does not fit in 32 bits.
#[derive(Debug, Clone, Copy, PartialEq, Eq, Structural)]
pub enum SizeError {
    WidthTooLarge(usize),
    HeightTooLarge(usize),
}

/// The width that is assumed where the terminal's is not known.
pub const FALLBACK_WIDTH: usize = 80;

/// The bytes `f`, `i`, `t`.
pub open spec fn word_fit() -> Seq<u8> {
    seq![0x66u8, 0x69, 0x74]
}

/// The bytes of `original`.
pub open spec fn word_original() -> Seq<u8> {
    seq![0x6Fu8, 0x72, 0x69, 0x67, 0x69, 0x6E, 0x61, 0x6C]
}

/// The bytes of `ratio`.
pub open spec fn word_ratio() -> Seq<u8> {
    seq![0x72u8, 0x61, 0x74, 0x69, 0x6F]
}

/// `s` without a leading plus sign.
pub open spec fn after_plus(s: Seq<u8>) -> Seq<u8> {
    if s.len() > 0 && s[0] == 0x2B {
        s.subrange(1, s.len() as int)
    } else {
        s
    }
}

/// The unsigned number that `s` denotes: an optional plus sign and at least
/// one decimal digit, with a value that fits the machine word.
pub open spec fn parse_unsigned(s: Seq<u8>) -> Option<int> {
    let digits = after_plus(s);
    if digits.len() > 0 && all_digits(digits) && dec_value(digits) <= usize::MAX {
        Some(dec_value(digits))
    } else {
        None
    }
}

/// What a text asks for as a width: `fit` or `original` in any case, or a
/// number.
pub open spec fn parse_width(s: Seq<u8>) -> Option<ImageWidth> {
    if same_ignoring_case(s, word_fit()) {
        Some(ImageWidth::Fit)
    } else if same_ignoring_case(s, word_original()) {
        Some(ImageWidth::Original)
    } else {
        match parse_unsigned(s) {
            Some(n) => Some(ImageWidth::Fixed(n as usize)),
            None => None,
        }
    }
}

/// What a text asks for as a height: `ratio` or `original` in any case, or
/// a number.
pub open spec fn parse_height(s: Seq<u8>) -> Option<ImageHeight> {
    if same_ignoring_case(s, word_ratio()) {
        Some(ImageHeight::Ratio)
    } else if same_ignoring_case(s, word_original()) {
        Some(ImageHeight::Original)
    } else {
        match parse_unsigned(s) {
            Some(n) => Some(ImageHeight::Fixed(n as usize)),
            None => None,
        }
    }
}

/// Reads an unsigned decimal number.
pub fn read_unsigned(s: &[u8]) -> (r: Option<usize>)
    ensures
        match r {
            Some(v) => parse_unsigned(s@) == Some(v as int),
            None => parse_unsigned(s@).is_none(),
        },
{
    let n: usize = s.len();
    let start: usize = if n > 0 && s[0] == 0x2B { 1 } else { 0 };
    let ghost digits = after_plus(s@);
    proof {
        assert(digits =~= s@.subrange(start as int, n as int));
    }
    if start == n {
        return None;
    }
    let mut acc: u128 = 0;
    let mut overflow: bool = false;
    let mut i: usize = start;
    while i < n
        invariant
            start <= i <= n,
            n == s@.len(),
            digits == after_plus(s@),
            digits == s@.subrange(start as int, n as int),
            all_digits(digits.subrange(0, i - start)),
            !overflow ==> acc as int == dec_value(digits.subrange(0, i - start)) && acc
                <= usize::MAX,
            overflow ==> dec_value(digits.subrange(0, i - start)) > usize::MAX,
        decreases n - i,
    {
        let b: u8 = s[i];
        let ghost before = digits.subrange(0, i - start);
        let ghost after = digits.subrange(0, i + 1 - start);
        proof {
            assert(after.drop_last() =~= before);
            assert(after.last() == b);
        }
        if !(48 <= b && b <= 57) {
            proof {
                assert(digits[i - start] == b);
            }
            return None;
        }
        assert forall|k: int| 0 <= k < after.len() implies is_digit(#[trigger] after[k]) by {
            if k < before.len() {
                assert(before[k] == after[k]);
            }
        }
        if !overflow {
            let next: u128 = acc * 10 + (b - 48) as u128;
            if next > usize::MAX as u128 {
                overflow = true;
            } else {
                acc = next;
            }
        }
        i += 1;
    }
    proof {
        assert(digits.subrange(0, n - start) =~= digits);
    }
    if overflow {
        None
    } else {
        Some(acc as usize)
    }
}

fn fit_word() -> (w: Vec<u8>)
    ensures
        w@ == word_fit(),
{
    let w: Vec<u8> = vec![0x66u8, 0x69, 0x74];
    assert(w@ =~= word_fit());
    w
}

fn original_word() -> (w: Vec<u8>)
    ensures
        w@ == word_original(),
{
    let w: Vec<u8> = vec![0x6Fu8, 0x72, 0x69, 0x67, 0x69, 0x6E, 0x61, 0x6C];
    assert(w@ =~= word_original());
    w
}

fn ratio_word() -> (w: Vec<u8>)
    ensures
        w@ == word_ratio(),
{
    let w: Vec<u8> = vec![0x72u8, 0x61, 0x74, 0x69, 0x6F];
    assert(w@ =~= word_ratio());
    w
}

impl ImageWidth {
    /// Reads a width from the text that asks for it; `None` where the text
    /// is neither of the two words nor a number.
    pub fn parse(s: &str) -> (r: Option<Self>)
        ensures
            r == parse_width(s.spec_bytes()),
    {
        let bytes = s.as_bytes();
        if eq_ignore_case(bytes, fit_word().as_slice()) {
            Some(ImageWidth::Fit)
        } else if eq_ignore_case(bytes, original_word().as_slice()) {
            Some(ImageWidth::Original)
        } else {
            match read_unsigned(bytes) {
                Some(n) => Some(ImageWidth::Fixed(n)),
                None => None,
            }
        }
    }

    /// The number of columns asked for, before it is held against the
    /// limit: for an image `original` pixels wide, on a terminal as
    /// `config` describes it.
    pub open spec fn wanted(self, original: u32, config: ColorizerConfig) -> int {
        match self {
            ImageWidth::Original => original as int,
            ImageWidth::Fixed(x) => x as int,
            ImageWidth::Fit => match config.wraps_after {
                Some(w) => w as int,
                None => FALLBACK_WIDTH as int,
            },
        }
    }

    /// The width in pixels that the image is given; an error where it does
    /// not fit in 32 bits.
    pub fn resolve(self, original: u32, config: &ColorizerConfig) -> (r: Result<u32, SizeError>)
        ensures
            r == if self.wanted(original, *config) <= u32::MAX {
                Ok::<u32, SizeError>(self.wanted(original, *config) as u32)
            } else {
                Err::<u32, SizeError>(
                    SizeError::WidthTooLarge(self.wanted(original, *config) as usize),
                )
            },
    {
        let width: usize = match self {
            ImageWidth::Original => original as usize,
            ImageWidth::Fixed(x) => x,
            ImageWidth::Fit => match config.wraps_after {
                Some(w) => w,
                None => FALLBACK_WIDTH,
            },
        };
        if width <= 0xFFFF_FFFF {
            Ok(width as u32)
        } else {
            Err(SizeError::WidthTooLarge(width))
        }
    }
}

impl ImageHeight {
    /// Reads a height from the text that asks for it; `None` where the
    /// text is neither of the two words nor a number.
    pub fn parse(s: &str) -> (r: Option<Self>)
        ensures
            r == parse_height(s.spec_bytes()),
    {
        let bytes = s.as_bytes();
        if eq_ignore_case(bytes, ratio_word().as_slice()) {
            Some(ImageHeight::Ratio)
        } else if eq_ignore_case(bytes, original_word().as_slice()) {
            Some(ImageHeight::Original)
        } else {
            match read_unsigned(bytes) {
                Some(n) => Some(ImageHeight::Fixed(n)),
                None => None,
            }
        }
    }

    /// The number of rows asked for, before it is held against the limit:
    /// for an image `original` pixels high, of which `by_ratio` rows keep
    /// the aspect ratio at the chosen width.
    pub open spec fn wanted(self, original: u32, by_ratio: usize) -> int {
        match self {
            ImageHeight::Original => original as int,
            ImageHeight::Fixed(x) => x as int,
            ImageHeight::Ratio => by_ratio as int,
        }
    }

    /// The height in pixels that the image is given; an error where it
    /// does not fit in 32 bits.
    pub fn resolve(self, original: u32, by_ratio: usize) -> (r: Result<u32, SizeError>)
        ensures
            r == if self.wanted(original, by_ratio) <= u32::MAX {
                Ok::<u32, SizeError>(self.wanted(original, by_ratio) as u32)
            } else {
                Err::<u32, SizeError>(
                    SizeError::HeightTooLarge(self.wanted(original, by_ratio) as usize),
                )
            },
    {
        let height: usize = match self {
            ImageHeight::Original => original as usize,
            ImageHeight::Fixed(x) => x,
            ImageHeight::Ratio => by_ratio,
        };
        if height <= 0xFFFF_FFFF {
            Ok(height as u32)
        } else {
            Err(SizeError::HeightTooLarge(height))
        }
    }
}

} // verus!
