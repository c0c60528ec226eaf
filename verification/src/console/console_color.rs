//! Colours: three 8-bit channels, their hexadecimal notation, blending, and
//! the escape sequences that select them on a terminal.
use vstd::prelude::*;
use vstd::string::StringSliceAdditionalSpecFns;

verus! {

/// A single 24-bit RGB colour: red, green, blue.
#[derive(Debug, Clone, Copy, PartialEq, Eq, Structural)]
pub struct Color(pub u8, pub u8, pub u8);

/// Why a text is not the hexadecimal notation of a colour.
#[derive(Debug, Clone, Copy, PartialEq, Eq, Structural)]
pub enum ColorParseError {
    /// The text is not six bytes long.
    WrongLength,
    /// The text is six bytes long but is no hexadecimal number.
    InvalidHex,
}

/// Number of entries of the terminal palette.
pub const PALETTE_LEN: usize = 8;

/// The colour of the `i`-th palette entry.
pub open spec fn palette_color(i: int) -> Color {
    if i == 0 {
        Color(0, 0, 0)
    } else if i == 1 {
        Color(200, 0, 0)
    } else if i == 2 {
        Color(0, 200, 0)
    } else if i == 3 {
        Color(200, 200, 0)
    } else if i == 4 {
        Color(0, 0, 200)
    } else if i == 5 {
        Color(200, 0, 200)
    } else if i == 6 {
        Color(0, 200, 200)
    } else {
        Color(255, 255, 255)
    }
}

/// The pair of numbers that selects the `i`-th palette entry in an escape
/// sequence.
pub open spec fn palette_code(i: int) -> (u8, u8) {
    (0u8, (30 + i) as u8)
}

/// Squared Euclidean distance of two colours.
pub open spec fn dist2_spec(a: Color, b: Color) -> int {
    (a.0 - b.0) * (a.0 - b.0) + (a.1 - b.1) * (a.1 - b.1) + (a.2 - b.2) * (a.2 - b.2)
}

/// `i` is the palette entry nearest to `c`; among equally near entries, the
/// first.
pub open spec fn is_nearest(c: Color, i: int) -> bool {
    &&& 0 <= i < PALETTE_LEN
    &&& forall|j: int|
        0 <= j < PALETTE_LEN ==> dist2_spec(palette_color(i), c) <= #[trigger] dist2_spec(
            palette_color(j),
            c,
        )
    &&& forall|j: int|
        0 <= j < i ==> dist2_spec(palette_color(i), c) < #[trigger] dist2_spec(
            palette_color(j),
            c,
        )
}

/// The index of the palette entry nearest to `c`.
pub open spec fn nearest_index(c: Color) -> int {
    choose|i: int| is_nearest(c, i)
}

/// There is one nearest palette entry.
pub proof fn lemma_nearest_unique(c: Color, i: int)
    requires
        is_nearest(c, i),
    ensures
        nearest_index(c) == i,
{
    let k = nearest_index(c);
    assert(is_nearest(c, k));
    if k < i {
        assert(dist2_spec(palette_color(i), c) < dist2_spec(palette_color(k), c));
        assert(dist2_spec(palette_color(k), c) <= dist2_spec(palette_color(i), c));
    } else if i < k {
        assert(dist2_spec(palette_color(k), c) < dist2_spec(palette_color(i), c));
        assert(dist2_spec(palette_color(i), c) <= dist2_spec(palette_color(k), c));
    }
}

/// The escape sequence that selects the palette entry nearest to `c`.
pub open spec fn ansi_paletted(c: Color) -> Seq<u8> {
    ansi_palette_entry(nearest_index(c))
}

/// One channel of a blend: `t` weighted by `255 - beta`, `o` by `beta`, the
/// sum divided by 256 and rounded down.
pub open spec fn blend_channel(t: u8, o: u8, beta: u8) -> u8 {
    ((t * (255 - beta) + o * beta) / 256) as u8
}

/// The blend of two colours, channel by channel.
pub open spec fn blend(a: Color, b: Color, beta: u8) -> Color {
    Color(blend_channel(a.0, b.0, beta), blend_channel(a.1, b.1, beta), blend_channel(a.2, b.2, beta))
}

/// The decimal notation of `n`, without leading zeros, as ASCII bytes.
pub open spec fn decimal(n: u8) -> Seq<u8> {
    if n < 10 {
        seq![(48 + n) as u8]
    } else if n < 100 {
        seq![(48 + n / 10) as u8, (48 + n % 10) as u8]
    } else {
        seq![(48 + n / 100) as u8, (48 + (n / 10) % 10) as u8, (48 + n % 10) as u8]
    }
}

/// The escape sequence that selects `c` as a 24-bit foreground colour:
/// `ESC [ 3 8 ; 2 ; r ; g ; b m`.
pub open spec fn ansi_24bit(c: Color) -> Seq<u8> {
    seq![0x1Bu8, 0x5B, 0x33, 0x38, 0x3B, 0x32, 0x3B] + decimal(c.0) + seq![0x3Bu8] + decimal(c.1)
        + seq![0x3Bu8] + decimal(c.2) + seq![0x6Du8]
}

/// The escape sequence that selects the `i`-th palette entry:
/// `ESC [ a ; b m` with the entry's two numbers.
pub open spec fn ansi_palette_entry(i: int) -> Seq<u8> {
    seq![0x1Bu8, 0x5B] + decimal(palette_code(i).0) + seq![0x3Bu8] + decimal(palette_code(i).1)
        + seq![0x6Du8]
}

/// The upper-case hexadecimal digit of a value below 16.
pub open spec fn hex_digit(v: int) -> u8 {
    if v < 10 {
        (48 + v) as u8
    } else {
        (55 + v) as u8
    }
}

/// The six upper-case hexadecimal digits of a colour, red first.
pub open spec fn hex_digits_spec(c: Color) -> Seq<u8> {
    seq![
        hex_digit(c.0 as int / 16),
        hex_digit(c.0 as int % 16),
        hex_digit(c.1 as int / 16),
        hex_digit(c.1 as int % 16),
        hex_digit(c.2 as int / 16),
        hex_digit(c.2 as int % 16),
    ]
}

/// The value of a hexadecimal digit of either case, or -1.
pub open spec fn hex_value(b: u8) -> int {
    if 48 <= b <= 57 {
        b - 48
    } else if 65 <= b <= 70 {
        b - 55
    } else if 97 <= b <= 102 {
        b - 87
    } else {
        -1
    }
}

/// The number that the hexadecimal digits `s` denote, or -1 where one of
/// them is no digit.
pub open spec fn hex_number(s: Seq<u8>) -> int
    decreases s.len(),
{
    if s.len() == 0 {
        0
    } else if hex_value(s.last()) < 0 || hex_number(s.drop_last()) < 0 {
        -1
    } else {
        hex_number(s.drop_last()) * 16 + hex_value(s.last())
    }
}

/// The colour whose channels are the three bytes of `n`.
pub open spec fn color_of_number(n: int) -> Color {
    Color(((n / 256) / 256) as u8, ((n / 256) % 256) as u8, (n % 256) as u8)
}

/// What a text means as a colour: six bytes, which are six hexadecimal
/// digits, or a plus sign and five of them.
pub open spec fn parse_hex_spec(s: Seq<u8>) -> Result<Color, ColorParseError> {
    if s.len() != 6 {
        Err(ColorParseError::WrongLength)
    } else {
        let digits = if s[0] == 0x2B {
            s.subrange(1, 6)
        } else {
            s
        };
        if hex_number(digits) < 0 {
            Err(ColorParseError::InvalidHex)
        } else {
            Ok(color_of_number(hex_number(digits)))
        }
    }
}

fn palette_entry(i: usize) -> (c: Color)
    requires
        i < PALETTE_LEN,
    ensures
        c == palette_color(i as int),
{
    if i == 0 {
        Color(0, 0, 0)
    } else if i == 1 {
        Color(200, 0, 0)
    } else if i == 2 {
        Color(0, 200, 0)
    } else if i == 3 {
        Color(200, 200, 0)
    } else if i == 4 {
        Color(0, 0, 200)
    } else if i == 5 {
        Color(200, 0, 200)
    } else if i == 6 {
        Color(0, 200, 200)
    } else {
        Color(255, 255, 255)
    }
}

fn push_decimal(output: &mut Vec<u8>, n: u8)
    ensures
        final(output)@ == old(output)@ + decimal(n),
{
    if n >= 100 {
        output.push(48 + n / 100);
    }
    if n >= 10 {
        output.push(48 + (n / 10) % 10);
    }
    output.push(48 + n % 10);
    assert(final(output)@ =~= old(output)@ + decimal(n));
}

fn hex_digit_of(v: u8) -> (d: u8)
    requires
        v < 16,
    ensures
        d == hex_digit(v as int),
{
    if v < 10 {
        48 + v
    } else {
        55 + v
    }
}

fn hex_value_of(b: u8) -> (v: Option<u8>)
    ensures
        match v {
            Some(x) => x as int == hex_value(b) && x < 16,
            None => hex_value(b) < 0,
        },
{
    if 48 <= b && b <= 57 {
        Some(b - 48)
    } else if 65 <= b && b <= 70 {
        Some(b - 55)
    } else if 97 <= b && b <= 102 {
        Some(b - 87)
    } else {
        None
    }
}

impl ColorParseError {
    /// What went wrong, in words.
    pub fn message(self) -> (text: &'static str)
        ensures
            text@ == match self {
                ColorParseError::WrongLength => "Color must have length 6"@,
                ColorParseError::InvalidHex => "Invalid hexadecimal"@,
            },
    {
        match self {
            ColorParseError::WrongLength => "Color must have length 6",
            ColorParseError::InvalidHex => "Invalid hexadecimal",
        }
    }
}

impl Color {
    /// The colour with the given channels.
    pub fn from_rgb(r: u8, g: u8, b: u8) -> (c: Self)
        ensures
            c == Color(r, g, b),
    {
        Color(r, g, b)
    }

    /// The colour read as one 24-bit number, red in the highest byte.
    pub open spec fn index_spec(self) -> int {
        (self.0 * 256 + self.1) * 256 + self.2
    }

    /// The colour read as one 24-bit number, red in the highest byte.
    pub fn lookup_index(self) -> (i: usize)
        ensures
            i as int == self.index_spec(),
            i < 0x100_0000,
    {
        let r: u32 = self.0 as u32;
        let g: u32 = self.1 as u32;
        let b: u32 = self.2 as u32;
        ((r * 256 + g) * 256 + b) as usize
    }

    /// Squared Euclidean distance to `other`.
    pub fn dist2(self, other: Color) -> (d: u32)
        ensures
            d as int == dist2_spec(self, other),
    {
        let dr: u32 = if self.0 >= other.0 { (self.0 - other.0) as u32 } else { (other.0 - self.0) as u32 };
        let dg: u32 = if self.1 >= other.1 { (self.1 - other.1) as u32 } else { (other.1 - self.1) as u32 };
        let db: u32 = if self.2 >= other.2 { (self.2 - other.2) as u32 } else { (other.2 - self.2) as u32 };
        assert(dr * dr <= 255 * 255 && dr * dr == (self.0 - other.0) * (self.0 - other.0))
            by (nonlinear_arith)
            requires
                dr <= 255,
                dr == self.0 - other.0 || dr == other.0 - self.0,
        ;
        assert(dg * dg <= 255 * 255 && dg * dg == (self.1 - other.1) * (self.1 - other.1))
            by (nonlinear_arith)
            requires
                dg <= 255,
                dg == self.1 - other.1 || dg == other.1 - self.1,
        ;
        assert(db * db <= 255 * 255 && db * db == (self.2 - other.2) * (self.2 - other.2))
            by (nonlinear_arith)
            requires
                db <= 255,
                db == self.2 - other.2 || db == other.2 - self.2,
        ;
        dr * dr + dg * dg + db * db
    }

    /// Blends `self` with `other` in fixed-point arithmetic: `beta` of 0
    /// weighs `self` alone, `beta` of 255 weighs `other` alone.
    pub fn rgb_interpolate(self, other: Color, beta: u8) -> (c: Self)
        ensures
            c == blend(self, other, beta),
    {
        Color(
            Self::interpolate_channel(self.0, other.0, beta),
            Self::interpolate_channel(self.1, other.1, beta),
            Self::interpolate_channel(self.2, other.2, beta),
        )
    }

    fn interpolate_channel(t: u8, o: u8, beta: u8) -> (c: u8)
        ensures
            c == blend_channel(t, o, beta),
    {
        let b: u16 = beta as u16;
        let gamma: u16 = 255 - b;
        assert(t * gamma + o * b <= 255 * 255) by (nonlinear_arith)
            requires
                t <= 255,
                o <= 255,
                gamma + b == 255,
                0 <= b <= 255,
        ;
        assert(t * gamma >= 0 && o * b >= 0) by (nonlinear_arith)
            requires
                gamma >= 0,
                b >= 0,
                t >= 0,
                o >= 0,
        ;
        let sum: u16 = (t as u16) * gamma + (o as u16) * b;
        assert(sum >> 8 == sum / 256) by (bit_vector);
        (sum >> 8) as u8
    }

    /// The index of the nearest palette entry.
    pub fn nearest_palette_index(self) -> (best: usize)
        ensures
            is_nearest(self, best as int),
            best as int == nearest_index(self),
    {
        let mut best: usize = 0;
        let mut best_dist: u32 = palette_entry(0).dist2(self);
        let mut j: usize = 1;
        while j < PALETTE_LEN
            invariant
                1 <= j <= PALETTE_LEN,
                best < j,
                best_dist as int == dist2_spec(palette_color(best as int), self),
                forall|k: int|
                    0 <= k < j ==> best_dist as int <= #[trigger] dist2_spec(palette_color(k), self),
                forall|k: int|
                    0 <= k < best ==> (best_dist as int) < #[trigger] dist2_spec(
                        palette_color(k),
                        self,
                    ),
            decreases PALETTE_LEN - j,
        {
            let d: u32 = palette_entry(j).dist2(self);
            if d < best_dist {
                best = j;
                best_dist = d;
            }
            j += 1;
        }
        proof {
            lemma_nearest_unique(self, best as int);
        }
        best
    }

    /// Appends to `output` the escape sequence that selects this colour as a
    /// 24-bit foreground colour.
    pub fn write_as_24bit_ansi(self, output: &mut Vec<u8>)
        ensures
            final(output)@ == old(output)@ + ansi_24bit(self),
    {
        output.push(0x1B);
        output.push(0x5B);
        output.push(0x33);
        output.push(0x38);
        output.push(0x3B);
        output.push(0x32);
        output.push(0x3B);
        push_decimal(output, self.0);
        output.push(0x3B);
        push_decimal(output, self.1);
        output.push(0x3B);
        push_decimal(output, self.2);
        output.push(0x6D);
        assert(final(output)@ =~= old(output)@ + ansi_24bit(self));
    }

    /// Appends to `output` the escape sequence that selects the palette entry
    /// nearest to this colour.
    pub fn write_as_paletted_ansi(self, output: &mut Vec<u8>)
        ensures
            final(output)@ == old(output)@ + ansi_paletted(self),
    {
        let i = self.nearest_palette_index();
        output.push(0x1B);
        output.push(0x5B);
        push_decimal(output, 0);
        output.push(0x3B);
        push_decimal(output, 30 + i as u8);
        output.push(0x6D);
        assert(final(output)@ =~= old(output)@ + ansi_palette_entry(i as int));
    }

    /// The six upper-case hexadecimal digits of this colour.
    pub fn hex_digits(self) -> (s: Vec<u8>)
        ensures
            s@ == hex_digits_spec(self),
    {
        let mut s: Vec<u8> = Vec::new();
        s.push(hex_digit_of(self.0 / 16));
        s.push(hex_digit_of(self.0 % 16));
        s.push(hex_digit_of(self.1 / 16));
        s.push(hex_digit_of(self.1 % 16));
        s.push(hex_digit_of(self.2 / 16));
        s.push(hex_digit_of(self.2 % 16));
        assert(s@ =~= hex_digits_spec(self));
        s
    }

    /// Reads a colour from its hexadecimal notation.
    pub fn from_hex(value: &str) -> (r: Result<Self, ColorParseError>)
        ensures
            r == parse_hex_spec(value.spec_bytes()),
    {
        Self::from_hex_bytes(value.as_bytes())
    }

    /// Reads a colour from the bytes of its hexadecimal notation.
    pub fn from_hex_bytes(bytes: &[u8]) -> (r: Result<Self, ColorParseError>)
        ensures
            r == parse_hex_spec(bytes@),
    {
        if bytes.len() != 6 {
            return Err(ColorParseError::WrongLength);
        }
        let start: usize = if bytes[0] == 0x2B { 1 } else { 0 };
        let ghost digits = bytes@.subrange(start as int, 6);
        let mut n: u32 = 0;
        let mut i: usize = start;
        while i < 6
            invariant
                start <= i <= 6,
                bytes@.len() == 6,
                start == if bytes@[0] == 0x2B { 1usize } else { 0usize },
                digits == bytes@.subrange(start as int, 6),
                n as int == hex_number(digits.subrange(0, i - start)),
                0 <= n < pow16(i - start),
            decreases 6 - i,
        {
            let ghost before = digits.subrange(0, i - start);
            let ghost after = digits.subrange(0, i + 1 - start);
            proof {
                assert(after.drop_last() =~= before);
                assert(after.last() == bytes@[i as int]);
                reveal_with_fuel(pow16, 8);
            }
            match hex_value_of(bytes[i]) {
                Some(v) => {
                    n = n * 16 + v as u32;
                },
                None => {
                    proof {
                        assert(hex_number(after) < 0);
                        lemma_hex_number_prefix(digits, i + 1 - start);
                        assert(if bytes@[0] == 0x2B {
                            bytes@.subrange(1, 6)
                        } else {
                            bytes@
                        } =~= digits);
                    }
                    return Err(ColorParseError::InvalidHex);
                },
            }
            i += 1;
        }
        proof {
            assert(digits.subrange(0, 6 - start) =~= digits);
            assert(if bytes@[0] == 0x2B { bytes@.subrange(1, 6) } else { bytes@ } =~= digits);
            reveal_with_fuel(pow16, 8);
        }
        let b: u8 = (n % 256) as u8;
        let g: u8 = ((n / 256) % 256) as u8;
        let r: u8 = ((n / 256) / 256) as u8;
        Ok(Color(r, g, b))
    }
}

/// The nearest palette entry of every colour, worked out once and then
/// looked up by the colour's number.
#[derive(Debug)]
pub struct PaletteLookup {
    codes: Vec<(u8, u8)>,
}

/// Number of 24-bit colours.
pub const COLOR_COUNT: usize = 0x100_0000;

/// The whole table: at the number of each colour, the two numbers that
/// select the palette entry nearest to it.
pub open spec fn palette_table() -> Seq<(u8, u8)> {
    Seq::new(COLOR_COUNT as nat, |i: int| palette_code(nearest_index(color_of_number(i))))
}

impl PaletteLookup {
    /// There is an entry for every colour, and it is the nearest one's.
    #[verifier::type_invariant]
    pub closed spec fn wf(&self) -> bool {
        &&& self.codes@.len() == COLOR_COUNT
        &&& forall|i: int|
            0 <= i < COLOR_COUNT ==> #[trigger] self.codes@[i] == palette_code(
                nearest_index(color_of_number(i)),
            )
    }

    /// The entries of the table, by the colour's number.
    pub closed spec fn entries(&self) -> Seq<(u8, u8)> {
        self.codes@
    }

    /// Works out the nearest palette entry of each of the 16,777,216
    /// colours.
    pub fn build() -> (table: Self)
        ensures
            table.entries() == palette_table(),
    {
        let mut codes: Vec<(u8, u8)> = Vec::new();
        let mut i: usize = 0;
        while i < COLOR_COUNT
            invariant
                i <= COLOR_COUNT,
                codes@.len() == i,
                forall|k: int|
                    0 <= k < i ==> #[trigger] codes@[k] == palette_code(
                        nearest_index(color_of_number(k)),
                    ),
            decreases COLOR_COUNT - i,
        {
            let c = Color(((i / 256) / 256) as u8, ((i / 256) % 256) as u8, (i % 256) as u8);
            let nearest: usize = c.nearest_palette_index();
            codes.push((0, 30 + nearest as u8));
            i += 1;
        }
        proof {
            assert(codes@ =~= palette_table());
        }
        PaletteLookup { codes }
    }

    /// The two numbers that select the palette entry nearest to `c`: the
    /// table's entry at the colour's number.
    pub fn code(&self, c: Color) -> (code: (u8, u8))
        ensures
            code == palette_code(nearest_index(c)),
            code == self.entries()[c.index_spec()],
    {
        proof {
            use_type_invariant(self);
            assert(color_of_number(c.index_spec()) == c);
        }
        self.codes[c.lookup_index()]
    }
}

/// 16 to the power `k`.
pub open spec fn pow16(k: int) -> int
    decreases k,
{
    if k <= 0 {
        1
    } else {
        16 * pow16(k - 1)
    }
}

/// Digits with a faulty prefix denote no number.
pub proof fn lemma_hex_number_prefix(s: Seq<u8>, k: int)
    requires
        0 <= k <= s.len(),
        hex_number(s.subrange(0, k)) < 0,
    ensures
        hex_number(s) < 0,
    decreases s.len() - k,
{
    if k < s.len() {
        assert(s.subrange(0, k + 1).drop_last() =~= s.subrange(0, k));
        lemma_hex_number_prefix(s, k + 1);
    } else {
        assert(s.subrange(0, k) =~= s);
    }
}

/// `x` is `of`, or one below it.
pub open spec fn within_one_below(x: u8, of: u8) -> bool {
    x <= of && of - x <= 1
}

/// Each channel of `x` is that of `of`, or one below it.
pub open spec fn color_within_one_below(x: Color, of: Color) -> bool {
    &&& within_one_below(x.0, of.0)
    &&& within_one_below(x.1, of.1)
    &&& within_one_below(x.2, of.2)
}

/// A channel that is weighed with the whole weight loses at most one unit
/// to rounding: `t * 255 / 256` is `t` or one below it.
pub proof fn lemma_blend_channel_ends(t: u8, o: u8, beta: u8)
    ensures
        within_one_below(blend_channel(t, t, beta), t),
        within_one_below(blend_channel(t, o, 0), t),
        within_one_below(blend_channel(t, o, 255), o),
{
    assert(t * (255 - beta) + t * beta == t * 255) by (nonlinear_arith);
    assert(t * (255 - 0) + o * 0 == t * 255) by (nonlinear_arith);
    assert(t * (255 - 255) + o * 255 == o * 255) by (nonlinear_arith);
}

/// The blend of a colour with itself is that colour, whatever the weight;
/// the blend of two colours with weight 0 is the first, with weight 255
/// the second: each up to one unit per channel, lost to rounding down.
pub proof fn lemma_blend_ends(a: Color, b: Color, beta: u8)
    ensures
        color_within_one_below(blend(a, a, beta), a),
        color_within_one_below(blend(a, b, 0), a),
        color_within_one_below(blend(a, b, 255), b),
{
    lemma_blend_channel_ends(a.0, b.0, beta);
    lemma_blend_channel_ends(a.1, b.1, beta);
    lemma_blend_channel_ends(a.2, b.2, beta);
}

/// The number that the digits of one more place denote.
proof fn lemma_hex_number_step(s: Seq<u8>, k: int)
    requires
        0 <= k < s.len(),
        hex_number(s.subrange(0, k)) >= 0,
        hex_value(s[k]) >= 0,
    ensures
        hex_number(s.subrange(0, k + 1)) == hex_number(s.subrange(0, k)) * 16 + hex_value(s[k]),
{
    assert(s.subrange(0, k + 1).drop_last() =~= s.subrange(0, k));
}

/// Writing a colour in hexadecimal and reading the digits again gives the
/// colour back.
pub proof fn lemma_hex_round_trip(c: Color)
    ensures
        parse_hex_spec(hex_digits_spec(c)) == Ok::<Color, ColorParseError>(c),
{
    let s = hex_digits_spec(c);
    assert(s.subrange(0, 6) =~= s);
    assert(hex_number(s.subrange(0, 0)) == 0);
    lemma_hex_number_step(s, 0);
    lemma_hex_number_step(s, 1);
    lemma_hex_number_step(s, 2);
    lemma_hex_number_step(s, 3);
    lemma_hex_number_step(s, 4);
    lemma_hex_number_step(s, 5);
    let n = hex_number(s);
    assert(n == c.0 * 65536 + c.1 * 256 + c.2);
}

impl core::str::FromStr for Color {
    type Err = ColorParseError;

    /// Reads a colour from its hexadecimal notation: see
    /// [`Color::from_hex`].
    fn from_str(value: &str) -> (r: Result<Self, ColorParseError>)
        ensures
            r == parse_hex_spec(value.spec_bytes()),
    {
        Color::from_hex(value)
    }
}

impl Default for Color {
    /// Black.
    fn default() -> (c: Self)
        ensures
            c == Color(0, 0, 0),
    {
        Color(0, 0, 0)
    }
}

} // verus!
