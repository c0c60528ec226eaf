//! The recolouring pass: it follows the cursor through the elements of a
//! stream and overrides the colour of what is printed, by position.
use crate::console::ansi_parsing::{classify, parse_ansi_bytes, AnsiCodeType};
use crate::console::console_color::{ansi_24bit, ansi_paletted, Color};
use crate::console::console_elem::{
    append_bytes, decode_run, lemma_decode_run_first, ConsoleElem, ElemModel, IterElements,
};
use vstd::prelude::*;
use vstd::slice::slice_to_vec;

verus! {

/// Configuration of a colorizer.
#[derive(Debug, Clone, Copy)]
pub struct ColorizerConfig {
    /// Whether the terminal takes 24-bit colour codes; else the palette is
    /// used.
    pub supports_rgb24: bool,
    /// The column at which the tracked cursor wraps to the next row.
    pub wraps_after: Option<usize>,
    /// Distance of the tab stops.
    pub tab_size: usize,
    /// Whether the sink is flushed after every line break.
    pub flush_on_newline: bool,
}

impl ColorizerConfig {
    /// The tab stops are apart, and a wrap width has at least one column.
    pub open spec fn valid(&self) -> bool {
        self.tab_size > 0 && self.wraps_after != Some(0usize)
    }

    /// Whether this configuration can be used: see [`Self::valid`].
    pub fn is_valid(&self) -> (ok: bool)
        ensures
            ok == self.valid(),
    {
        self.tab_size > 0 && match self.wraps_after {
            Some(w) => w != 0,
            None => true,
        }
    }

    /// The column at which the cursor wraps; the greatest column where no
    /// width is set.
    pub open spec fn wrap_column(&self) -> int {
        match self.wraps_after {
            Some(w) => w as int,
            None => usize::MAX as int,
        }
    }
}

impl Default for ColorizerConfig {
    /// 24-bit colour, no wrapping, tab stops every 8 columns, a flush after
    /// every line break.
    fn default() -> (c: Self)
        ensures
            c.supports_rgb24,
            c.wraps_after.is_none(),
            c.tab_size == 8,
            c.flush_on_newline,
            c.valid(),
    {
        ColorizerConfig { supports_rgb24: true, wraps_after: None, tab_size: 8, flush_on_newline: true }
    }
}

/// Anything that can colorize a stream. What exactly this means depends on
/// the implementation; whatever it is, it only adds to the output.
pub trait StreamColorizer {
    fn copy_colorized(&mut self, input: &[u8], output: &mut Vec<u8>, config: &ColorizerConfig)
        requires
            config.valid(),
        ensures
            old(output)@.is_prefix_of(final(output)@),
    ;
}

/// A colorizer that goes by the (expected) place of each grapheme on the
/// terminal: column, then row.
pub trait PositionalRecolorizer {
    fn get_color(&mut self, position: (usize, usize)) -> Color;
}

/// The state of the recolouring pass: where the cursor is taken to be, and
/// the colour that was last applied.
#[derive(Debug, Clone, Copy, PartialEq, Eq, Structural)]
pub struct Recolorizer {
    pub column: usize,
    pub row: usize,
    pub color: Color,
}

/// What one element does to the pass: the state after it, the bytes sent
/// on, and whether the sink is to be flushed.
pub struct Step {
    pub next: Recolorizer,
    pub emitted: Seq<u8>,
    pub flush: bool,
}

/// The escape sequence that applies `c` under `cfg`.
pub open spec fn color_code(c: Color, cfg: ColorizerConfig) -> Seq<u8> {
    if cfg.supports_rgb24 {
        ansi_24bit(c)
    } else {
        ansi_paletted(c)
    }
}

/// `p + 1`, held at the greatest value.
pub open spec fn succ_sat(p: int) -> int {
    if p < usize::MAX {
        p + 1
    } else {
        p
    }
}

/// The coordinate `p` moved by `d`, held between zero and the greatest
/// value.
pub open spec fn moved(p: int, d: int) -> int {
    if p + d < 0 {
        0
    } else if p + d > usize::MAX {
        usize::MAX as int
    } else {
        p + d
    }
}

/// The column after a tab at `column`: the next multiple of `tab` (held at
/// the greatest value), or the last column before `wrap` where that lies
/// beyond it.
pub open spec fn tab_column(column: int, tab: int, wrap: int) -> int {
    let stop = (column / tab + 1) * tab;
    let held = if stop > usize::MAX {
        usize::MAX as int
    } else {
        stop
    };
    if held >= wrap {
        wrap - 1
    } else {
        held
    }
}

/// The only elements the pass does not take are control characters outside
/// ASCII, which no decoding yields.
pub open spec fn passable(e: ElemModel) -> bool {
    match e {
        ElemModel::OtherNonPrinting(c) => (c as u32) < 0x80,
        _ => true,
    }
}

/// The effect of the escape sequence `seq` with meaning `code`.
pub open spec fn ansi_step(
    s: Recolorizer,
    cfg: ColorizerConfig,
    seq: Seq<u8>,
    code: AnsiCodeType,
) -> Step {
    match code {
        AnsiCodeType::ResetStyle => Step {
            next: s,
            emitted: seq + color_code(s.color, cfg),
            flush: false,
        },
        AnsiCodeType::SetColor => Step { next: s, emitted: Seq::empty(), flush: false },
        AnsiCodeType::SetCursor(col, row) => Step {
            next: Recolorizer {
                column: match col {
                    Some(c) => c,
                    None => s.column,
                },
                row: match row {
                    Some(r) => r,
                    None => s.row,
                },
                color: s.color,
            },
            emitted: seq,
            flush: false,
        },
        AnsiCodeType::MoveCursor(col, row) => Step {
            next: Recolorizer {
                column: match col {
                    Some(d) => moved(s.column as int, d as int) as usize,
                    None => s.column,
                },
                row: match row {
                    Some(d) => moved(s.row as int, d as int) as usize,
                    None => s.row,
                },
                color: s.color,
            },
            emitted: seq,
            flush: false,
        },
        AnsiCodeType::Other => Step { next: s, emitted: seq, flush: false },
    }
}

/// The effect of the element `e` on the pass in state `s`, where `here` is
/// the colour that the policy gives for the cursor's place (asked only for
/// a grapheme).
pub open spec fn step_spec(s: Recolorizer, cfg: ColorizerConfig, e: ElemModel, here: Color) -> Step {
    match e {
        ElemModel::CarriageReturn => Step {
            next: Recolorizer { column: 0, row: s.row, color: s.color },
            emitted: e.bytes(),
            flush: false,
        },
        ElemModel::Newline => Step {
            next: Recolorizer { column: 0, row: succ_sat(s.row as int) as usize, color: s.color },
            emitted: e.bytes(),
            flush: cfg.flush_on_newline,
        },
        ElemModel::Tab => Step {
            next: Recolorizer {
                column: tab_column(s.column as int, cfg.tab_size as int, cfg.wrap_column()) as usize,
                row: s.row,
                color: s.color,
            },
            emitted: e.bytes(),
            flush: false,
        },
        ElemModel::Grapheme(text) => {
            let column = succ_sat(s.column as int);
            let wraps = column >= cfg.wrap_column();
            Step {
                next: Recolorizer {
                    column: if wraps {
                        (column - cfg.wrap_column()) as usize
                    } else {
                        column as usize
                    },
                    row: if wraps {
                        succ_sat(s.row as int) as usize
                    } else {
                        s.row
                    },
                    color: here,
                },
                emitted: if here != s.color {
                    color_code(here, cfg) + text
                } else {
                    text
                },
                flush: false,
            }
        },
        ElemModel::OtherNonPrinting(_) => Step { next: s, emitted: e.bytes(), flush: false },
        ElemModel::Ansi(seq) => ansi_step(s, cfg, seq, classify(seq)),
        ElemModel::NonUTF8Data(_) => Step { next: s, emitted: e.bytes(), flush: false },
    }
}

fn add_sat(p: usize) -> (r: usize)
    ensures
        r as int == succ_sat(p as int),
{
    if p < usize::MAX {
        p + 1
    } else {
        p
    }
}

fn move_by(p: usize, d: isize) -> (r: usize)
    ensures
        r as int == moved(p as int, d as int),
{
    if d > 0 {
        let m: usize = d as usize;
        if p <= usize::MAX - m {
            p + m
        } else {
            usize::MAX
        }
    } else if d == 0 {
        p
    } else {
        let m: usize = (-(d + 1)) as usize + 1;
        if p >= m {
            p - m
        } else {
            0
        }
    }
}

fn tab_stop(column: usize, config: &ColorizerConfig) -> (r: usize)
    requires
        config.valid(),
    ensures
        r as int == tab_column(column as int, config.tab_size as int, config.wrap_column()),
{
    let tab: usize = config.tab_size;
    let q: usize = column / tab;
    let held: usize = if q < usize::MAX / tab {
        assert((q + 1) * tab <= usize::MAX) by (nonlinear_arith)
            requires
                q + 1 <= usize::MAX as int / tab as int,
                tab > 0,
        ;
        (q + 1) * tab
    } else {
        assert((q + 1) * tab > usize::MAX) by (nonlinear_arith)
            requires
                q + 1 > usize::MAX as int / tab as int,
                tab > 0,
        ;
        usize::MAX
    };
    match config.wraps_after {
        Some(w) => if held >= w {
            w - 1
        } else {
            held
        },
        None => if held >= usize::MAX {
            usize::MAX - 1
        } else {
            held
        },
    }
}

fn push_color(color: Color, config: &ColorizerConfig, output: &mut Vec<u8>)
    ensures
        final(output)@ == old(output)@ + color_code(color, *config),
{
    if config.supports_rgb24 {
        color.write_as_24bit_ansi(output);
    } else {
        color.write_as_paletted_ansi(output);
    }
}

impl Recolorizer {
    /// Starts a pass at the top-left corner: applies `initial`, the colour
    /// of that place, and writes its code to `output`.
    pub fn start(initial: Color, config: &ColorizerConfig, output: &mut Vec<u8>) -> (s: Self)
        ensures
            s == (Recolorizer { column: 0, row: 0, color: initial }),
            final(output)@ == old(output)@ + color_code(initial, *config),
    {
        push_color(initial, config, output);
        Recolorizer { column: 0, row: 0, color: initial }
    }

    /// The place of the cursor: column, then row.
    pub fn position(&self) -> (p: (usize, usize))
        ensures
            p == (self.column, self.row),
    {
        (self.column, self.row)
    }

    /// Whether the pass asks the policy for a colour before it takes
    /// `elem`: it does so for graphemes only.
    pub fn needs_color(elem: &ConsoleElem) -> (b: bool)
        ensures
            b == (elem@ is Grapheme),
    {
        match elem {
            ConsoleElem::Grapheme(_) => true,
            _ => false,
        }
    }

    /// Takes the escape sequence `seq`, whose meaning is `code`.
    pub fn apply_ansi(
        &mut self,
        seq: &[u8],
        code: AnsiCodeType,
        config: &ColorizerConfig,
        output: &mut Vec<u8>,
    )
        ensures
            *final(self) == ansi_step(*old(self), *config, seq@, code).next,
            final(output)@ == old(output)@ + ansi_step(*old(self), *config, seq@, code).emitted,
    {
        match code {
            AnsiCodeType::ResetStyle => {
                append_bytes(output, seq);
                push_color(self.color, config, output);
                proof {
                    assert(final(output)@ =~= old(output)@ + (seq@ + color_code(
                        self.color,
                        *config,
                    )));
                }
            },
            AnsiCodeType::SetColor => {
                proof {
                    assert(final(output)@ =~= old(output)@ + Seq::<u8>::empty());
                }
            },
            AnsiCodeType::SetCursor(col, row) => {
                if let Some(c) = col {
                    self.column = c;
                }
                if let Some(r) = row {
                    self.row = r;
                }
                append_bytes(output, seq);
            },
            AnsiCodeType::MoveCursor(col, row) => {
                if let Some(d) = col {
                    self.column = move_by(self.column, d);
                }
                if let Some(d) = row {
                    self.row = move_by(self.row, d);
                }
                append_bytes(output, seq);
            },
            AnsiCodeType::Other => {
                append_bytes(output, seq);
            },
        }
    }

    /// Takes one element: moves the tracked cursor, writes to `output` what
    /// goes on to the terminal, and says whether the sink is to be flushed.
    /// `here` is the policy's colour for the cursor's place; it is read for
    /// a grapheme only.
    pub fn apply(
        &mut self,
        elem: &ConsoleElem,
        here: Color,
        config: &ColorizerConfig,
        output: &mut Vec<u8>,
    ) -> (flush: bool)
        requires
            config.valid(),
            passable(elem@),
        ensures
            *final(self) == step_spec(*old(self), *config, elem@, here).next,
            final(output)@ == old(output)@ + step_spec(*old(self), *config, elem@, here).emitted,
            flush == step_spec(*old(self), *config, elem@, here).flush,
    {
        match elem {
            ConsoleElem::CarriageReturn => {
                self.column = 0;
                output.push(0x0D);
                proof {
                    assert(final(output)@ =~= old(output)@ + elem@.bytes());
                }
                false
            },
            ConsoleElem::Newline => {
                self.row = add_sat(self.row);
                self.column = 0;
                output.push(0x0A);
                proof {
                    assert(final(output)@ =~= old(output)@ + elem@.bytes());
                }
                config.flush_on_newline
            },
            ConsoleElem::Tab => {
                self.column = tab_stop(self.column, config);
                output.push(0x09);
                proof {
                    assert(final(output)@ =~= old(output)@ + elem@.bytes());
                }
                false
            },
            ConsoleElem::Grapheme(text) => {
                if here != self.color {
                    self.color = here;
                    push_color(here, config, output);
                }
                append_bytes(output, text.as_slice());
                proof {
                    assert(final(output)@ =~= old(output)@ + step_spec(
                        *old(self),
                        *config,
                        elem@,
                        here,
                    ).emitted);
                }
                let column: usize = add_sat(self.column);
                let wrap: usize = match config.wraps_after {
                    Some(w) => w,
                    None => usize::MAX,
                };
                if column >= wrap {
                    self.column = column - wrap;
                    self.row = add_sat(self.row);
                } else {
                    self.column = column;
                }
                false
            },
            ConsoleElem::OtherNonPrinting(c) => {
                output.push(*c as u8);
                proof {
                    assert(final(output)@ =~= old(output)@ + elem@.bytes());
                }
                false
            },
            ConsoleElem::Ansi(seq) => {
                let code = parse_ansi_bytes(seq.as_slice());
                self.apply_ansi(seq.as_slice(), code, config, output);
                false
            },
            ConsoleElem::NonUTF8Data(b) => {
                output.push(*b);
                proof {
                    assert(final(output)@ =~= old(output)@ + elem@.bytes());
                }
                false
            },
        }
    }
}

/// The state of a pass that started in `s` and has taken `elems`, where
/// `colors[i]` is the policy's answer for the place of the `i`-th element.
pub open spec fn run_state(
    s: Recolorizer,
    cfg: ColorizerConfig,
    elems: Seq<ElemModel>,
    colors: Seq<Color>,
) -> Recolorizer
    decreases elems.len(),
{
    if elems.len() == 0 {
        s
    } else {
        step_spec(
            run_state(s, cfg, elems.drop_last(), colors.drop_last()),
            cfg,
            elems.last(),
            colors.last(),
        ).next
    }
}

/// What a pass that started in `s` has sent on after `elems`.
pub open spec fn run_output(
    s: Recolorizer,
    cfg: ColorizerConfig,
    elems: Seq<ElemModel>,
    colors: Seq<Color>,
) -> Seq<u8>
    decreases elems.len(),
{
    if elems.len() == 0 {
        Seq::empty()
    } else {
        run_output(s, cfg, elems.drop_last(), colors.drop_last()) + step_spec(
            run_state(s, cfg, elems.drop_last(), colors.drop_last()),
            cfg,
            elems.last(),
            colors.last(),
        ).emitted
    }
}

/// How often a pass that started in `s` has asked for a flush in `elems`.
pub open spec fn run_flushes(
    s: Recolorizer,
    cfg: ColorizerConfig,
    elems: Seq<ElemModel>,
    colors: Seq<Color>,
) -> int
    decreases elems.len(),
{
    if elems.len() == 0 {
        0
    } else {
        run_flushes(s, cfg, elems.drop_last(), colors.drop_last()) + if step_spec(
            run_state(s, cfg, elems.drop_last(), colors.drop_last()),
            cfg,
            elems.last(),
            colors.last(),
        ).flush {
            1int
        } else {
            0int
        }
    }
}

/// One more element adds one step to a pass.
pub proof fn lemma_run_extend(
    s: Recolorizer,
    cfg: ColorizerConfig,
    elems: Seq<ElemModel>,
    colors: Seq<Color>,
    e: ElemModel,
    here: Color,
)
    ensures
        run_state(s, cfg, elems.push(e), colors.push(here)) == step_spec(
            run_state(s, cfg, elems, colors),
            cfg,
            e,
            here,
        ).next,
        run_output(s, cfg, elems.push(e), colors.push(here)) == run_output(s, cfg, elems, colors)
            + step_spec(run_state(s, cfg, elems, colors), cfg, e, here).emitted,
        run_flushes(s, cfg, elems.push(e), colors.push(here)) == run_flushes(s, cfg, elems, colors)
            + if step_spec(run_state(s, cfg, elems, colors), cfg, e, here).flush {
            1int
        } else {
            0int
        },
{
    assert(elems.push(e).drop_last() =~= elems);
    assert(colors.push(here).drop_last() =~= colors);
}

/// Joining is associative, and what was joined behind a prefix is what is
/// left when the prefix is skipped.
proof fn lemma_join(a: Seq<u8>, b: Seq<u8>, c: Seq<u8>)
    ensures
        (a + b) + c == a + (b + c),
        (a + b).skip(a.len() as int) == b,
        a.is_prefix_of(a + b),
{
    assert((a + b) + c =~= a + (b + c));
    assert((a + b).skip(a.len() as int) =~= b);
}

/// A run grows at its end as its elements are taken from the front of
/// what is left.
proof fn lemma_seen_grows(seen: Seq<ElemModel>, e: ElemModel, later: Seq<ElemModel>)
    ensures
        seen.push(e) + later == seen + (seq![e] + later),
{
    assert(seen.push(e) + later =~= seen + (seq![e] + later));
}

/// `output` and `flushes` are what the pass over the elements of the whole
/// of `input` gives, where the policy answered `initial` for the top-left
/// corner and `colors[i]` before the `i`-th element: the code of `initial`,
/// then what each element sends on.
pub open spec fn recolored(
    input: Seq<u8>,
    cfg: ColorizerConfig,
    initial: Color,
    colors: Seq<Color>,
    output: Seq<u8>,
    flushes: int,
) -> bool {
    let elems = decode_run(input, true);
    let s = Recolorizer { column: 0, row: 0, color: initial };
    &&& colors.len() == elems.len()
    &&& output == color_code(initial, cfg) + run_output(s, cfg, elems, colors)
    &&& flushes == run_flushes(s, cfg, elems, colors)
}

/// Recolours the whole of `input` by the policy `policy`: the colour of
/// the top-left corner is applied first, then every element of the input
/// is taken in turn, and the policy is asked for a colour before each
/// grapheme. Returns how often a flush of the sink fell due.
///
/// Whatever the policy answers, the output is the one that
/// [`step_spec`] gives for those answers.
pub fn recolor<T: PositionalRecolorizer>(
    policy: &mut T,
    input: &[u8],
    output: &mut Vec<u8>,
    config: &ColorizerConfig,
) -> (flushes: usize)
    requires
        config.valid(),
    ensures
        old(output)@.is_prefix_of(final(output)@),
        exists|initial: Color, colors: Seq<Color>|
            recolored(
                input@,
                *config,
                initial,
                colors,
                final(output)@.skip(old(output)@.len() as int),
                flushes as int,
            ),
{
    let initial = policy.get_color((0, 0));
    let mut pass = Recolorizer::start(initial, config, output);
    let mut iter = IterElements::new(slice_to_vec(input), true);
    let mut flushes: usize = 0;
    let total: usize = input.len();
    let ghost s0 = pass;
    let ghost seen: Seq<ElemModel> = Seq::empty();
    let ghost colors: Seq<Color> = Seq::empty();
    let ghost base = old(output)@;
    let ghost code = color_code(initial, *config);
    proof {
        assert(seen + decode_run(iter.pending(), true) =~= decode_run(input@, true));
        lemma_join(base + code, run_output(s0, *config, seen, colors), Seq::empty());
        assert(output@ =~= (base + code) + run_output(s0, *config, seen, colors));
    }
    loop
        invariant
            iter.wf(),
            iter.at_true_end(),
            config.valid(),
            total == input@.len(),
            s0 == (Recolorizer { column: 0, row: 0, color: initial }),
            base == old(output)@,
            code == color_code(initial, *config),
            colors.len() == seen.len(),
            seen + decode_run(iter.pending(), true) == decode_run(input@, true),
            seen.len() + iter.pending().len() <= input@.len(),
            pass == run_state(s0, *config, seen, colors),
            output@ == (base + code) + run_output(s0, *config, seen, colors),
            flushes as int == run_flushes(s0, *config, seen, colors),
            flushes <= seen.len(),
        decreases iter.pending().len(),
    {
        let ghost before = iter.pending();
        let ghost sent = run_output(s0, *config, seen, colors);
        match iter.try_get_next_element() {
            Some(elem) => {
                let here = if Recolorizer::needs_color(&elem) {
                    policy.get_color(pass.position())
                } else {
                    pass.color
                };
                let ghost step = step_spec(pass, *config, elem@, here);
                let flush = pass.apply(&elem, here, config, output);
                proof {
                    lemma_decode_run_first(before, true, elem@, iter.pending());
                    lemma_run_extend(s0, *config, seen, colors, elem@, here);
                    lemma_seen_grows(seen, elem@, decode_run(iter.pending(), true));
                    lemma_join(base + code, sent, step.emitted);
                    seen = seen.push(elem@);
                    colors = colors.push(here);
                }
                if flush {
                    flushes += 1;
                }
            },
            None => {
                proof {
                    assert(seen + Seq::<ElemModel>::empty() =~= seen);
                    lemma_join(base, code, sent);
                    lemma_join(base, code + sent, Seq::empty());
                    assert(decode_run(iter.pending(), true) == Seq::<ElemModel>::empty());
                    assert(seen == decode_run(input@, true));
                    assert(output@.skip(base.len() as int) == code + sent);
                    assert(recolored(
                        input@,
                        *config,
                        initial,
                        colors,
                        output@.skip(base.len() as int),
                        flushes as int,
                    ));
                }
                return flushes;
            },
        }
    }
}

impl<T: PositionalRecolorizer> StreamColorizer for T {
    /// Recolours `input` by position: see [`recolor`].
    fn copy_colorized(&mut self, input: &[u8], output: &mut Vec<u8>, config: &ColorizerConfig)
        ensures
            exists|initial: Color, colors: Seq<Color>, flushes: int|
                recolored(
                    input@,
                    *config,
                    initial,
                    colors,
                    final(output)@.skip(old(output)@.len() as int),
                    flushes,
                ),
    {
        let _ = recolor(self, input, output, config);
    }
}

/// The colorizer that changes nothing.
#[derive(Debug, Clone, Copy)]
pub struct Noop;

impl StreamColorizer for Noop {
    /// Copies `input` to `output`.
    fn copy_colorized(&mut self, input: &[u8], output: &mut Vec<u8>, config: &ColorizerConfig)
        ensures
            final(output)@ == old(output)@ + input@,
    {
        append_bytes(output, input);
    }
}

/// A positional colorizer that takes its colours from the pixels of an
/// image, which repeats in both directions.
#[derive(Debug)]
pub struct Image {
    width: u32,
    height: u32,
    pixels: Vec<Color>,
}

/// The coordinate `p` as a 32-bit number, folded into `0 .. size`.
pub open spec fn folded(p: int, size: int) -> int {
    (p % 0x1_0000_0000) % size
}

impl Image {
    /// The image is not empty, and has one pixel for every place.
    #[verifier::type_invariant]
    pub closed spec fn wf(&self) -> bool {
        &&& self.width > 0
        &&& self.height > 0
        &&& self.pixels@.len() == self.width * self.height
    }

    /// The width in pixels.
    pub closed spec fn spec_width(&self) -> int {
        self.width as int
    }

    /// The height in pixels.
    pub closed spec fn spec_height(&self) -> int {
        self.height as int
    }

    /// The pixels, row by row.
    pub closed spec fn spec_pixels(&self) -> Seq<Color> {
        self.pixels@
    }

    /// The colour at `position` (column, then row), the image repeating in
    /// both directions.
    pub open spec fn color_at(&self, position: (usize, usize)) -> Color {
        self.spec_pixels()[folded(position.1 as int, self.spec_height()) * self.spec_width()
            + folded(position.0 as int, self.spec_width())]
    }

    /// An image of `width` by `height` pixels, given row by row.
    pub fn new(width: u32, height: u32, pixels: Vec<Color>) -> (img: Self)
        requires
            width > 0,
            height > 0,
            pixels@.len() == width * height,
        ensures
            img.spec_width() == width,
            img.spec_height() == height,
            img.spec_pixels() == pixels@,
    {
        Image { width, height, pixels }
    }

    /// The colour at `position`: see [`Self::color_at`].
    pub fn pixel(&self, position: (usize, usize)) -> (c: Color)
        ensures
            c == self.color_at(position),
    {
        proof {
            use_type_invariant(self);
        }
        let x: u64 = (position.0 as u64 % 0x1_0000_0000u64) % (self.width as u64);
        let y: u64 = (position.1 as u64 % 0x1_0000_0000u64) % (self.height as u64);
        let w: u64 = self.width as u64;
        let len: usize = self.pixels.len();
        assert(y * w + x < self.width * self.height) by (nonlinear_arith)
            requires
                0 <= x < w,
                0 <= y < self.height,
                w == self.width,
        ;
        assert(y * w >= 0) by (nonlinear_arith)
            requires
                y >= 0,
                w >= 0,
        ;
        let index: usize = (y * w + x) as usize;
        self.pixels[index]
    }
}

impl PositionalRecolorizer for Image {
    /// The colour of the pixel at `position`, the image repeating in both
    /// directions.
    fn get_color(&mut self, position: (usize, usize)) -> (c: Color)
        ensures
            c == old(self).color_at(position),
            *final(self) == *old(self),
    {
        self.pixel(position)
    }
}

/// The colour of a striped pattern at stripe `base_index` (counted round
/// the list of stripes), blended by `beta` towards the stripe that
/// follows.
pub open spec fn stripe_color(stripes: Seq<Color>, base_index: int, beta: u8) -> Color {
    let i = base_index % (stripes.len() as int);
    let j = if i + 1 == stripes.len() {
        0
    } else {
        i + 1
    };
    crate::console::console_color::blend(stripes[i], stripes[j], beta)
}

/// The colour of a striped pattern: see [`stripe_color`].
pub fn stripe_blend(stripes: &[Color], base_index: usize, beta: u8) -> (c: Color)
    requires
        stripes@.len() > 0,
    ensures
        c == stripe_color(stripes@, base_index as int, beta),
{
    let real_index: usize = base_index % stripes.len();
    let next_index: usize = if real_index + 1 == stripes.len() {
        0
    } else {
        real_index + 1
    };
    stripes[real_index].rgb_interpolate(stripes[next_index], beta)
}

} // verus!
