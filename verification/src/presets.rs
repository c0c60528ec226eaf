//! The built-in striped flags.
use crate::console::console_color::{ansi_24bit, color_of_number, hex_digits_spec, Color};
use crate::console::console_elem::append_bytes;
use vstd::prelude::*;
use vstd::string::StringSliceAdditionalSpecFns;

verus! {

/// The details of a flag preset.
#[derive(Debug, Clone)]
pub struct FlagPreset {
    pub name: &'static str,
    pub aliases: Vec<&'static str>,
    pub stripes: Vec<Color>,
}

/// Number of built-in presets.
pub const PRESET_COUNT: usize = 6;

/// The name of the `i`-th preset.
pub open spec fn preset_name(i: int) -> &'static str {
    if i == 0 {
        "Pride"
    } else if i == 1 {
        "Progress"
    } else if i == 2 {
        "Lesbian"
    } else if i == 3 {
        "Gay"
    } else if i == 4 {
        "Bi"
    } else {
        "Trans"
    }
}

/// The other names of the `i`-th preset.
pub open spec fn preset_aliases(i: int) -> Seq<&'static str> {
    if i == 0 {
        seq!["Rainbow"]
    } else if i == 4 {
        seq!["Bisexual"]
    } else if i == 5 {
        seq!["Transgender"]
    } else {
        seq![]
    }
}

/// The stripes of the `i`-th preset, each as a 24-bit number.
pub open spec fn preset_hexes(i: int) -> Seq<u32> {
    if i == 0 {
        seq![0xE40303u32, 0xFF8C00u32, 0xFFED00u32, 0x008026u32, 0x24408Eu32, 0x732982u32]
    } else if i == 1 {
        seq![
            0xE40303u32,
            0xFF8C00u32,
            0xFFED00u32,
            0x008026u32,
            0x24408Eu32,
            0x732982u32,
            0x222222u32,
            0x7c3f00u32,
            0x5BCEFAu32,
            0xF5A9B8u32,
            0xFFFFFFu32,
        ]
    } else if i == 2 {
        seq![
            0xD52D00u32,
            0xEF7627u32,
            0xFF9A56u32,
            0xFFFFFFu32,
            0xD162A4u32,
            0xB55690u32,
            0xA30262u32,
        ]
    } else if i == 3 {
        seq![
            0x078D70u32,
            0x26CEAAu32,
            0x98E8C1u32,
            0xFFFFFFu32,
            0x7BADE2u32,
            0x5049CCu32,
            0x3D1A78u32,
        ]
    } else if i == 4 {
        seq![0xD60270u32, 0xD60270u32, 0x9B4F96u32, 0x0038A8u32, 0x0038A8u32]
    } else {
        seq![0x5BCEFAu32, 0xF5A9B8u32, 0xFFFFFFu32, 0xF5A9B8u32, 0x5BCEFAu32]
    }
}

/// The colours that the numbers `hexes` denote: of `0xABCDEF`, red `0xAB`,
/// green `0xCD`, blue `0xEF`.
pub open spec fn colors_of(hexes: Seq<u32>) -> Seq<Color> {
    Seq::new(hexes.len(), |i: int| color_of_number(hexes[i] as int))
}

/// `p` is the `i`-th preset.
pub open spec fn is_preset(p: FlagPreset, i: int) -> bool {
    &&& p.name@ == preset_name(i)@
    &&& p.aliases@.len() == preset_aliases(i).len()
    &&& forall|k: int| 0 <= k < p.aliases@.len() ==> (#[trigger] p.aliases@[k])@ == preset_aliases(i)[k]@
    &&& p.stripes@ == colors_of(preset_hexes(i))
}

/// The lower-case form of an ASCII letter; any other byte as it is.
pub open spec fn lower(b: u8) -> u8 {
    if 65 <= b <= 90 {
        (b + 32) as u8
    } else {
        b
    }
}

/// The two texts are the same but for the case of ASCII letters.
pub open spec fn same_ignoring_case(a: Seq<u8>, b: Seq<u8>) -> bool {
    &&& a.len() == b.len()
    &&& forall|i: int| 0 <= i < a.len() ==> lower(#[trigger] a[i]) == lower(b[i])
}

/// The `i`-th preset goes by `name`: that is its name or one of its
/// aliases, but for the case of letters.
pub open spec fn preset_matches(i: int, name: Seq<u8>) -> bool {
    ||| same_ignoring_case(preset_name(i).spec_bytes(), name)
    ||| exists|k: int|
        0 <= k < preset_aliases(i).len() && same_ignoring_case(
            (#[trigger] preset_aliases(i)[k]).spec_bytes(),
            name,
        )
}

/// Converts numbers to colours, such that `0xABCDEF` gives red `0xAB`, green
/// `0xCD`, blue `0xEF`.
pub fn hex_sequence(hexes: &[u32]) -> (out: Vec<Color>)
    requires
        forall|i: int| 0 <= i < hexes@.len() ==> #[trigger] hexes@[i] < 0x100_0000,
    ensures
        out@ == colors_of(hexes@),
{
    let mut out: Vec<Color> = Vec::new();
    let mut i: usize = 0;
    while i < hexes.len()
        invariant
            i <= hexes@.len(),
            out@.len() == i,
            forall|k: int| 0 <= k < hexes@.len() ==> #[trigger] hexes@[k] < 0x100_0000,
            forall|k: int| 0 <= k < i ==> #[trigger] out@[k] == color_of_number(hexes@[k] as int),
        decreases hexes@.len() - i,
    {
        let c: u32 = hexes[i];
        let b: u8 = (c % 256) as u8;
        let g: u8 = ((c / 256) % 256) as u8;
        let r: u8 = ((c / 256) / 256) as u8;
        out.push(Color::from_rgb(r, g, b));
        i += 1;
    }
    proof {
        assert(out@ =~= colors_of(hexes@));
    }
    out
}

fn lower_of(b: u8) -> (r: u8)
    ensures
        r == lower(b),
{
    if 65 <= b && b <= 90 {
        b + 32
    } else {
        b
    }
}

/// Whether two texts are the same but for the case of ASCII letters.
pub fn eq_ignore_case(a: &[u8], b: &[u8]) -> (same: bool)
    ensures
        same == same_ignoring_case(a@, b@),
{
    if a.len() != b.len() {
        return false;
    }
    let mut i: usize = 0;
    while i < a.len()
        invariant
            i <= a@.len(),
            a@.len() == b@.len(),
            forall|k: int| 0 <= k < i ==> lower(#[trigger] a@[k]) == lower(b@[k]),
        decreases a@.len() - i,
    {
        if lower_of(a[i]) != lower_of(b[i]) {
            return false;
        }
        i += 1;
    }
    true
}

fn preset_at(i: usize) -> (p: FlagPreset)
    requires
        i < PRESET_COUNT,
    ensures
        is_preset(p, i as int),
{
    if i == 0 {
        FlagPreset {
            name: "Pride",
            aliases: vec!["Rainbow"],
            stripes: hex_sequence(
                vec![0xE40303u32, 0xFF8C00u32, 0xFFED00u32, 0x008026u32, 0x24408Eu32, 0x732982u32].as_slice(),
            ),
        }
    } else if i == 1 {
        FlagPreset {
            name: "Progress",
            aliases: vec![],
            stripes: hex_sequence(
                vec![
                    0xE40303u32,
                    0xFF8C00u32,
                    0xFFED00u32,
                    0x008026u32,
                    0x24408Eu32,
                    0x732982u32,
                    0x222222u32,
                    0x7c3f00u32,
                    0x5BCEFAu32,
                    0xF5A9B8u32,
                    0xFFFFFFu32,
                ].as_slice(),
            ),
        }
    } else if i == 2 {
        FlagPreset {
            name: "Lesbian",
            aliases: vec![],
            stripes: hex_sequence(
                vec![
                    0xD52D00u32,
                    0xEF7627u32,
                    0xFF9A56u32,
                    0xFFFFFFu32,
                    0xD162A4u32,
                    0xB55690u32,
                    0xA30262u32,
                ].as_slice(),
            ),
        }
    } else if i == 3 {
        FlagPreset {
            name: "Gay",
            aliases: vec![],
            stripes: hex_sequence(
                vec![
                    0x078D70u32,
                    0x26CEAAu32,
                    0x98E8C1u32,
                    0xFFFFFFu32,
                    0x7BADE2u32,
                    0x5049CCu32,
                    0x3D1A78u32,
                ].as_slice(),
            ),
        }
    } else if i == 4 {
        FlagPreset {
            name: "Bi",
            aliases: vec!["Bisexual"],
            stripes: hex_sequence(
                vec![0xD60270u32, 0xD60270u32, 0x9B4F96u32, 0x0038A8u32, 0x0038A8u32].as_slice(),
            ),
        }
    } else {
        FlagPreset {
            name: "Trans",
            aliases: vec!["Transgender"],
            stripes: hex_sequence(
                vec![0x5BCEFAu32, 0xF5A9B8u32, 0xFFFFFFu32, 0xF5A9B8u32, 0x5BCEFAu32].as_slice(),
            ),
        }
    }
}

/// All flag presets, in their order.
pub fn iter_flag_presets() -> (presets: Vec<FlagPreset>)
    ensures
        presets@.len() == PRESET_COUNT,
        forall|i: int| 0 <= i < PRESET_COUNT ==> is_preset(#[trigger] presets@[i], i),
{
    let mut presets: Vec<FlagPreset> = Vec::new();
    let mut i: usize = 0;
    while i < PRESET_COUNT
        invariant
            i <= PRESET_COUNT,
            presets@.len() == i,
            forall|k: int| 0 <= k < i ==> is_preset(#[trigger] presets@[k], k),
        decreases PRESET_COUNT - i,
    {
        presets.push(preset_at(i));
        i += 1;
    }
    presets
}

/// Whether `preset` goes by `name`.
fn goes_by(preset: &FlagPreset, name: &[u8], Ghost(i): Ghost<int>) -> (yes: bool)
    requires
        is_preset(*preset, i),
    ensures
        yes == preset_matches(i, name@),
{
    if eq_ignore_case(preset.name.as_bytes(), name) {
        return true;
    }
    let mut k: usize = 0;
    while k < preset.aliases.len()
        invariant
            k <= preset.aliases@.len(),
            is_preset(*preset, i),
            !same_ignoring_case(preset_name(i).spec_bytes(), name@),
            forall|j: int|
                0 <= j < k ==> !same_ignoring_case(
                    (#[trigger] preset_aliases(i)[j]).spec_bytes(),
                    name@,
                ),
        decreases preset.aliases@.len() - k,
    {
        let alias: &str = preset.aliases[k];
        if eq_ignore_case(alias.as_bytes(), name) {
            return true;
        }
        k += 1;
    }
    false
}

/// Finds a flag preset by its name or any of its aliases, whatever the case
/// of the letters: the first preset that goes by `name`.
pub fn flag_by_name(name: &str) -> (r: Option<FlagPreset>)
    ensures
        match r {
            Some(p) => exists|i: int|
                0 <= i < PRESET_COUNT && is_preset(p, i) && #[trigger] preset_matches(
                    i,
                    name.spec_bytes(),
                ) && forall|j: int| 0 <= j < i ==> !preset_matches(j, name.spec_bytes()),
            None => forall|i: int| 0 <= i < PRESET_COUNT ==> !preset_matches(i, name.spec_bytes()),
        },
{
    let mut i: usize = 0;
    while i < PRESET_COUNT
        invariant
            i <= PRESET_COUNT,
            forall|j: int| 0 <= j < i ==> !preset_matches(j, name.spec_bytes()),
        decreases PRESET_COUNT - i,
    {
        let preset = preset_at(i);
        if goes_by(&preset, name.as_bytes(), Ghost(i as int)) {
            return Some(preset);
        }
        i += 1;
    }
    None
}

/// The preset that is used where none is asked for.
pub fn default_flag_preset() -> (p: FlagPreset)
    ensures
        is_preset(p, 2),
{
    preset_at(2)
}

/// `n` spaces; none where `n` is not positive.
pub open spec fn padding(n: int) -> Seq<u8> {
    Seq::new(
        if n > 0 {
            n as nat
        } else {
            0
        },
        |i: int| 0x20u8,
    )
}

/// One stripe of a listing: its hexadecimal digits, shown in its own
/// colour, and a reset of the style.
pub open spec fn stripe_text(c: Color) -> Seq<u8> {
    ansi_24bit(c) + hex_digits_spec(c) + seq![0x1Bu8, 0x5B, 0x30, 0x6D]
}

/// The stripes of a listing, with commas between them.
pub open spec fn stripes_text(stripes: Seq<Color>) -> Seq<u8>
    decreases stripes.len(),
{
    if stripes.len() == 0 {
        Seq::empty()
    } else if stripes.len() == 1 {
        stripe_text(stripes[0])
    } else {
        stripes_text(stripes.drop_last()) + seq![0x2Cu8] + stripe_text(stripes.last())
    }
}

/// One line of a listing: the name, filled with spaces to `width` bytes, a
/// bar, the stripes, and a line break.
pub open spec fn preset_line(name: Seq<u8>, width: int, stripes: Seq<Color>) -> Seq<u8> {
    name + padding(width - name.len()) + seq![0x20u8, 0x7C, 0x20] + stripes_text(stripes)
        + seq![0x0Au8]
}

/// The length of the longest name among the first `n` presets.
pub open spec fn longest_preset_name(n: int) -> int
    decreases n,
{
    if n <= 0 {
        0
    } else {
        let rest = longest_preset_name(n - 1);
        let len = preset_name(n - 1).spec_bytes().len() as int;
        if len > rest {
            len
        } else {
            rest
        }
    }
}

/// The lines of the first `n` presets, the names filled to `width` bytes.
pub open spec fn preset_listing(n: int, width: int) -> Seq<u8>
    decreases n,
{
    if n <= 0 {
        Seq::empty()
    } else {
        preset_listing(n - 1, width) + preset_line(
            preset_name(n - 1).spec_bytes(),
            width,
            colors_of(preset_hexes(n - 1)),
        )
    }
}

/// Adds to `output` the stripes of a listing.
fn write_stripes(stripes: &Vec<Color>, output: &mut Vec<u8>)
    ensures
        final(output)@ == old(output)@ + stripes_text(stripes@),
{
    let mut i: usize = 0;
    proof {
        assert(output@ =~= old(output)@ + stripes_text(stripes@.subrange(0, 0)));
    }
    while i < stripes.len()
        invariant
            i <= stripes@.len(),
            output@ == old(output)@ + stripes_text(stripes@.subrange(0, i as int)),
        decreases stripes@.len() - i,
    {
        let ghost before = output@;
        let ghost done = stripes@.subrange(0, i as int);
        let ghost next = stripes@.subrange(0, i + 1);
        if i > 0 {
            output.push(0x2C);
        }
        let stripe: Color = stripes[i];
        stripe.write_as_24bit_ansi(output);
        let digits = stripe.hex_digits();
        append_bytes(output, digits.as_slice());
        output.push(0x1B);
        output.push(0x5B);
        output.push(0x30);
        output.push(0x6D);
        proof {
            assert(next.drop_last() =~= done);
            assert(next.last() == stripe);
            if i == 0 {
                assert(next[0] == stripe);
                assert(output@ =~= before + stripe_text(stripe));
            } else {
                assert(output@ =~= before + seq![0x2Cu8] + stripe_text(stripe));
            }
            assert(output@ =~= old(output)@ + stripes_text(next));
        }
        i += 1;
    }
    proof {
        assert(stripes@.subrange(0, stripes@.len() as int) =~= stripes@);
    }
}

/// Adds to `output` the line of a listing for `flag`, its name filled with
/// spaces to `width` bytes.
pub fn write_preset_line(flag: &FlagPreset, width: usize, output: &mut Vec<u8>)
    ensures
        final(output)@ == old(output)@ + preset_line(
            flag.name.spec_bytes(),
            width as int,
            flag.stripes@,
        ),
{
    let name = flag.name.as_bytes();
    append_bytes(output, name);
    let ghost named = output@;
    let mut k: usize = name.len();
    while k < width
        invariant
            name@.len() <= k,
            k <= width || k == name@.len(),
            output@ == named + padding(k - name@.len()),
        decreases width - k,
    {
        output.push(0x20);
        proof {
            assert(output@ =~= named + padding(k + 1 - name@.len()));
        }
        k += 1;
    }
    proof {
        assert(padding(k - name@.len()) =~= padding(width - name@.len()));
    }
    output.push(0x20);
    output.push(0x7C);
    output.push(0x20);
    write_stripes(&flag.stripes, output);
    output.push(0x0A);
    proof {
        assert(output@ =~= old(output)@ + preset_line(name@, width as int, flag.stripes@));
    }
}

/// The length of the longest name among the presets.
pub fn longest_name() -> (width: usize)
    ensures
        width as int == longest_preset_name(PRESET_COUNT as int),
{
    let mut width: usize = 0;
    let mut i: usize = 0;
    while i < PRESET_COUNT
        invariant
            i <= PRESET_COUNT,
            width as int == longest_preset_name(i as int),
        decreases PRESET_COUNT - i,
    {
        let preset = preset_at(i);
        let len: usize = preset.name.as_bytes().len();
        if len > width {
            width = len;
        }
        i += 1;
    }
    width
}

/// Adds to `output` the listing of all presets: one line each, the names
/// filled to the length of the longest.
pub fn write_presets(output: &mut Vec<u8>)
    ensures
        final(output)@ == old(output)@ + preset_listing(
            PRESET_COUNT as int,
            longest_preset_name(PRESET_COUNT as int),
        ),
{
    let width: usize = longest_name();
    let mut i: usize = 0;
    proof {
        assert(output@ =~= old(output)@ + preset_listing(0, width as int));
    }
    while i < PRESET_COUNT
        invariant
            i <= PRESET_COUNT,
            output@ == old(output)@ + preset_listing(i as int, width as int),
        decreases PRESET_COUNT - i,
    {
        let preset = preset_at(i);
        write_preset_line(&preset, width, output);
        proof {
            assert(output@ =~= old(output)@ + preset_listing(i + 1, width as int));
        }
        i += 1;
    }
}

} // verus!
