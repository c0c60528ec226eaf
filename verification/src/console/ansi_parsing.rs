//! Classification of escape sequences by what they do to style and cursor.
use vstd::prelude::*;
use vstd::slice::slice_subrange;
use vstd::string::StringSliceAdditionalSpecFns;

verus! {

/// What an escape sequence asks of the terminal, as far as the recolouring
/// pass cares.
#[non_exhaustive]
#[derive(Debug, Clone, PartialEq, Eq)]
pub enum AnsiCodeType {
    /// Resets every style attribute.
    ResetStyle,
    /// Selects a colour.
    SetColor,
    /// Moves the cursor relative to where it is: columns, then rows.
    MoveCursor(Option<isize>, Option<isize>),
    /// Puts the cursor at an absolute, zero-based place: column, then row.
    SetCursor(Option<usize>, Option<usize>),
    /// Anything else.
    Other,
}

/// `b` is an ASCII decimal digit.
pub open spec fn is_digit(b: u8) -> bool {
    48 <= b <= 57
}

/// Every byte of `s` is a decimal digit.
pub open spec fn all_digits(s: Seq<u8>) -> bool {
    forall|i: int| 0 <= i < s.len() ==> is_digit(#[trigger] s[i])
}

/// The number that the decimal digits `s` denote.
pub open spec fn dec_value(s: Seq<u8>) -> int
    decreases s.len(),
{
    if s.len() == 0 {
        0
    } else {
        dec_value(s.drop_last()) * 10 + (s.last() - 48)
    }
}

/// `s` without a leading sign.
pub open spec fn unsigned_part(s: Seq<u8>) -> Seq<u8> {
    if s.len() > 0 && (s[0] == 0x2D || s[0] == 0x2B) {
        s.subrange(1, s.len() as int)
    } else {
        s
    }
}

/// The integer that `s` denotes: an optional sign and at least one decimal
/// digit, with a value that fits the machine's signed word. `None` for any
/// other text.
pub open spec fn parse_int(s: Seq<u8>) -> Option<int> {
    let digits = unsigned_part(s);
    let value = if s.len() > 0 && s[0] == 0x2D {
        -dec_value(digits)
    } else {
        dec_value(digits)
    };
    if digits.len() > 0 && all_digits(digits) && isize::MIN <= value <= isize::MAX {
        Some(value)
    } else {
        None
    }
}

/// Length of the first semicolon-delimited field of `s`.
pub open spec fn field_len(s: Seq<u8>) -> int
    decreases s.len(),
{
    if s.len() == 0 || s[0] == 0x3B {
        0
    } else {
        1 + field_len(s.subrange(1, s.len() as int))
    }
}

/// What follows the first field of `s` and its semicolon.
pub open spec fn after_field(s: Seq<u8>) -> Seq<u8> {
    if field_len(s) < s.len() {
        s.subrange(field_len(s) + 1, s.len() as int)
    } else {
        Seq::empty()
    }
}

/// The first argument of `s`: its first field read as an integer, or
/// `default` where the field is missing or is no integer.
pub open spec fn argument(s: Seq<u8>, default: int) -> int {
    match parse_int(s.subrange(0, field_len(s))) {
        Some(v) => v,
        None => default,
    }
}

/// The opposite of `v`; of the least value, the greatest.
pub open spec fn negate(v: int) -> int {
    if v == isize::MIN {
        isize::MAX as int
    } else {
        -v
    }
}

/// The zero-based index for the one-based `v`. Values below one wrap around
/// the unsigned word, as `v - 1` does in two's complement.
pub open spec fn zero_based(v: int) -> int {
    if v >= 1 {
        v - 1
    } else {
        usize::MAX + v
    }
}

/// The column delta that stands for "back to the first column".
pub open spec fn to_first_column() -> isize {
    isize::MIN
}

/// What the escape sequence `ansi` (from ESC to its final byte) asks for.
pub open spec fn classify(ansi: Seq<u8>) -> AnsiCodeType {
    if ansi.len() <= 2 {
        AnsiCodeType::Other
    } else {
        let args = ansi.subrange(2, ansi.len() - 1);
        let last = ansi.last();
        let first = argument(args, 1);
        if last == 0x6D {
            if ansi[1] == 0x5B && ansi[2] == 0x33 {
                AnsiCodeType::SetColor
            } else if argument(args, 0) == 0 {
                AnsiCodeType::ResetStyle
            } else {
                AnsiCodeType::Other
            }
        } else if last == 0x41 {
            AnsiCodeType::MoveCursor(None, Some(negate(first) as isize))
        } else if last == 0x42 {
            AnsiCodeType::MoveCursor(None, Some(first as isize))
        } else if last == 0x43 {
            AnsiCodeType::MoveCursor(Some(first as isize), None)
        } else if last == 0x44 {
            AnsiCodeType::MoveCursor(Some(negate(first) as isize), None)
        } else if last == 0x45 {
            AnsiCodeType::MoveCursor(Some(to_first_column()), Some(first as isize))
        } else if last == 0x46 {
            AnsiCodeType::MoveCursor(Some(to_first_column()), Some(negate(first) as isize))
        } else if last == 0x47 {
            AnsiCodeType::SetCursor(Some(zero_based(first) as usize), None)
        } else if last == 0x48 {
            AnsiCodeType::SetCursor(
                Some(zero_based(argument(after_field(args), 1)) as usize),
                Some(zero_based(first) as usize),
            )
        } else {
            AnsiCodeType::Other
        }
    }
}

/// Reads a signed decimal integer.
fn parse_decimal(s: &[u8]) -> (r: Option<isize>)
    ensures
        match r {
            Some(v) => parse_int(s@) == Some(v as int),
            None => parse_int(s@).is_none(),
        },
{
    let n: usize = s.len();
    let negative: bool = n > 0 && s[0] == 0x2D;
    let start: usize = if n > 0 && (s[0] == 0x2D || s[0] == 0x2B) { 1 } else { 0 };
    let ghost digits = unsigned_part(s@);
    proof {
        assert(digits =~= s@.subrange(start as int, n as int));
    }
    if start == n {
        return None;
    }
    let limit: u128 = isize::MAX as u128 + 1;
    let mut acc: u128 = 0;
    let mut overflow: bool = false;
    let mut i: usize = start;
    while i < n
        invariant
            start <= i <= n,
            n == s@.len(),
            digits == unsigned_part(s@),
            digits == s@.subrange(start as int, n as int),
            negative == (s@.len() > 0 && s@[0] == 0x2D),
            limit == isize::MAX + 1,
            all_digits(digits.subrange(0, i - start)),
            !overflow ==> acc as int == dec_value(digits.subrange(0, i - start)) && acc <= limit,
            overflow ==> dec_value(digits.subrange(0, i - start)) > limit,
        decreases n - i,
    {
        let b: u8 = s[i];
        let ghost before = digits.subrange(0, i - start);
        let ghost after = digits.subrange(0, i + 1 - start);
        proof {
            assert(after.drop_last() =~= before);
            assert(after.last() == b);
        }
        if !(48 <= b && b <= 57) {
            proof {
                assert(digits[i - start] == b);
            }
            return None;
        }
        assert forall|k: int| 0 <= k < after.len() implies is_digit(#[trigger] after[k]) by {
            if k < before.len() {
                assert(before[k] == after[k]);
            }
        }
        if !overflow {
            let next: u128 = acc * 10 + (b - 48) as u128;
            if next > limit {
                overflow = true;
            } else {
                acc = next;
            }
        }
        i += 1;
    }
    proof {
        assert(digits.subrange(0, n - start) =~= digits);
    }
    if overflow {
        None
    } else if negative {
        if acc == limit {
            Some(isize::MIN)
        } else {
            Some(-(acc as isize))
        }
    } else if acc < limit {
        Some(acc as isize)
    } else {
        None
    }
}

/// Length of the first semicolon-delimited field of `s`.
fn first_field_len(s: &[u8]) -> (k: usize)
    ensures
        k as int == field_len(s@),
        k <= s@.len(),
{
    let mut k: usize = 0;
    proof {
        assert(s@.subrange(0, s@.len() as int) =~= s@);
    }
    while k < s.len() && s[k] != 0x3B
        invariant
            k <= s@.len(),
            field_len(s@) == k + field_len(s@.subrange(k as int, s@.len() as int)),
        decreases s@.len() - k,
    {
        proof {
            let tail = s@.subrange(k as int, s@.len() as int);
            assert(tail.subrange(1, tail.len() as int) =~= s@.subrange(k + 1, s@.len() as int));
        }
        k += 1;
    }
    proof {
        assert(s@.subrange(0, s@.len() as int) =~= s@);
    }
    k
}

/// Takes the first argument off a semicolon-delimited list: returns what
/// follows it and its value, `default` where it is missing or no integer.
pub fn take_one_argument(remaining: &[u8], default: isize) -> (r: (&[u8], isize))
    ensures
        r.0@ == after_field(remaining@),
        r.1 as int == argument(remaining@, default as int),
{
    let k: usize = first_field_len(remaining);
    let field = slice_subrange(remaining, 0, k);
    let value: isize = match parse_decimal(field) {
        Some(v) => v,
        None => default,
    };
    if k < remaining.len() {
        (slice_subrange(remaining, k + 1, remaining.len()), value)
    } else {
        let rest = slice_subrange(remaining, k, k);
        assert(rest@ =~= Seq::<u8>::empty());
        (rest, value)
    }
}

fn negated(v: isize) -> (r: isize)
    ensures
        r as int == negate(v as int),
{
    if v == isize::MIN {
        isize::MAX
    } else {
        -v
    }
}

fn to_zero_based(v: isize) -> (r: usize)
    ensures
        r as int == zero_based(v as int),
{
    if v >= 1 {
        (v - 1) as usize
    } else if v == 0 {
        usize::MAX
    } else {
        let m: usize = (-(v + 1)) as usize;
        usize::MAX - 1 - m
    }
}

/// Classifies the escape sequence `ansi`, given from its ESC to its final
/// byte.
pub fn parse_ansi_bytes(ansi: &[u8]) -> (code: AnsiCodeType)
    ensures
        code == classify(ansi@),
{
    let n: usize = ansi.len();
    if n <= 2 {
        return AnsiCodeType::Other;
    }
    let args = slice_subrange(ansi, 2, n - 1);
    let last: u8 = ansi[n - 1];
    if last == 0x6D {
        if ansi[1] == 0x5B && ansi[2] == 0x33 {
            AnsiCodeType::SetColor
        } else {
            let (_, mode) = take_one_argument(args, 0);
            if mode == 0 {
                AnsiCodeType::ResetStyle
            } else {
                AnsiCodeType::Other
            }
        }
    } else if last == 0x41 {
        let (_, count) = take_one_argument(args, 1);
        AnsiCodeType::MoveCursor(None, Some(negated(count)))
    } else if last == 0x42 {
        let (_, count) = take_one_argument(args, 1);
        AnsiCodeType::MoveCursor(None, Some(count))
    } else if last == 0x43 {
        let (_, count) = take_one_argument(args, 1);
        AnsiCodeType::MoveCursor(Some(count), None)
    } else if last == 0x44 {
        let (_, count) = take_one_argument(args, 1);
        AnsiCodeType::MoveCursor(Some(negated(count)), None)
    } else if last == 0x45 {
        let (_, rows) = take_one_argument(args, 1);
        AnsiCodeType::MoveCursor(Some(isize::MIN), Some(rows))
    } else if last == 0x46 {
        let (_, rows) = take_one_argument(args, 1);
        AnsiCodeType::MoveCursor(Some(isize::MIN), Some(negated(rows)))
    } else if last == 0x47 {
        let (_, col) = take_one_argument(args, 1);
        AnsiCodeType::SetCursor(Some(to_zero_based(col)), None)
    } else if last == 0x48 {
        let (rest, row) = take_one_argument(args, 1);
        let (_, col) = take_one_argument(rest, 1);
        AnsiCodeType::SetCursor(Some(to_zero_based(col)), Some(to_zero_based(row)))
    } else {
        AnsiCodeType::Other
    }
}

/// Classifies the escape sequence `ansi`, given from its ESC to its final
/// character. The same text always gives the same code: the result is a
/// function of the text's bytes.
pub fn parse_ansi_type(ansi: &str) -> (code: AnsiCodeType)
    ensures
        code == classify(ansi.spec_bytes()),
{
    parse_ansi_bytes(ansi.as_bytes())
}

} // verus!
