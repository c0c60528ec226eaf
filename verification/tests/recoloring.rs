use recolor::console::{for_each_console_element, Color, ConsoleElem};
use recolor::stream_colors::{
    recolor, stripe_blend, ColorizerConfig, Image, Noop, PositionalRecolorizer, Recolorizer,
    StreamColorizer,
};

struct Constant(Color);

impl PositionalRecolorizer for Constant {
    fn get_color(&mut self, _position: (usize, usize)) -> Color {
        self.0
    }
}

/// Red in even columns, blue in odd ones; records what it was asked.
struct Columns(Vec<(usize, usize)>);

impl PositionalRecolorizer for Columns {
    fn get_color(&mut self, position: (usize, usize)) -> Color {
        self.0.push(position);
        if position.0 % 2 == 0 {
            Color(255, 0, 0)
        } else {
            Color(0, 0, 255)
        }
    }
}

fn config() -> ColorizerConfig {
    ColorizerConfig::default()
}

fn run(input: &[u8], cfg: &ColorizerConfig) -> (Vec<u8>, Recolorizer, usize) {
    let mut out = Vec::new();
    let mut pass = Recolorizer::start(Color(1, 2, 3), cfg, &mut out);
    out.clear();
    let mut flushes = 0;
    for elem in for_each_console_element(&vec![input.to_vec()]) {
        if pass.apply(&elem, Color(1, 2, 3), cfg, &mut out) {
            flushes += 1;
        }
    }
    (out, pass, flushes)
}

#[test]
fn default_config() {
    let cfg = ColorizerConfig::default();
    assert!(cfg.supports_rgb24);
    assert_eq!(cfg.wraps_after, None);
    assert_eq!(cfg.tab_size, 8);
    assert!(cfg.flush_on_newline);
    assert!(cfg.is_valid());
    assert!(!ColorizerConfig { tab_size: 0, ..cfg }.is_valid());
    assert!(!ColorizerConfig { wraps_after: Some(0), ..cfg }.is_valid());
}

#[test]
fn end_to_end_constant_color() {
    let mut out = Vec::new();
    let mut policy = Constant(Color(10, 20, 30));
    let flushes = recolor(&mut policy, b"A\nB", &mut out, &config());
    assert_eq!(out, b"\x1b[38;2;10;20;30mA\nB".to_vec());
    assert_eq!(flushes, 1);
}

#[test]
fn end_to_end_without_flush() {
    let mut out = Vec::new();
    let mut policy = Constant(Color(10, 20, 30));
    let cfg = ColorizerConfig { flush_on_newline: false, ..config() };
    assert_eq!(recolor(&mut policy, b"A\nB", &mut out, &cfg), 0);
    assert_eq!(out, b"\x1b[38;2;10;20;30mA\nB".to_vec());
}

#[test]
fn trait_method_recolors() {
    let mut out = vec![b'>'];
    let mut policy = Constant(Color(0, 0, 0));
    let cfg = ColorizerConfig { supports_rgb24: false, ..config() };
    policy.copy_colorized(b"hi", &mut out, &cfg);
    assert_eq!(out, b">\x1b[0;30mhi".to_vec());
}

#[test]
fn color_changes_are_emitted_once() {
    let mut out = Vec::new();
    let mut policy = Columns(Vec::new());
    recolor(&mut policy, b"ab\rc", &mut out, &config());
    assert_eq!(
        out,
        b"\x1b[38;2;255;0;0ma\x1b[38;2;0;0;255mb\r\x1b[38;2;255;0;0mc".to_vec()
    );
    assert_eq!(policy.0, vec![(0, 0), (0, 0), (1, 0), (0, 0)]);
}

#[test]
fn tab_does_not_ask_for_a_color() {
    let mut out = Vec::new();
    let mut policy = Columns(Vec::new());
    recolor(&mut policy, b"\t\x07a", &mut out, &config());
    assert_eq!(policy.0, vec![(0, 0), (8, 0)]);
    assert_eq!(out, b"\x1b[38;2;255;0;0m\t\x07a".to_vec());
}

#[test]
fn reset_is_followed_by_the_override() {
    let (out, _, _) = run(b"\x1b[0m", &config());
    assert_eq!(out, b"\x1b[0m\x1b[38;2;1;2;3m".to_vec());
    let cfg = ColorizerConfig { supports_rgb24: false, ..config() };
    let (out, _, _) = run(b"\x1b[0m", &cfg);
    assert_eq!(out, b"\x1b[0m\x1b[0;30m".to_vec());
}

#[test]
fn source_colors_are_dropped() {
    let (out, pass, _) = run(b"a\x1b[31mb\x1b[38;2;9;9;9mc", &config());
    assert_eq!(out, b"abc".to_vec());
    assert_eq!(pass.position(), (3, 0));
}

#[test]
fn other_sequences_and_raw_bytes_pass() {
    let (out, pass, flushes) = run(b"\x1b[2J\xff\x07", &config());
    assert_eq!(out, b"\x1b[2J\xff\x07".to_vec());
    assert_eq!(pass.position(), (0, 0));
    assert_eq!(flushes, 0);
}

#[test]
fn newline_and_carriage_return_move_the_cursor() {
    let (out, pass, flushes) = run(b"ab\ncd\re\n", &config());
    assert_eq!(out, b"ab\ncd\re\n".to_vec());
    assert_eq!(pass.position(), (0, 2));
    assert_eq!(flushes, 2);
}

#[test]
fn tab_goes_to_the_next_stop() {
    assert_eq!(run(b"\t", &config()).1.position(), (8, 0));
    assert_eq!(run(b"abc\t", &config()).1.position(), (8, 0));
    assert_eq!(run(b"abcdefgh\t", &config()).1.position(), (16, 0));
    let cfg = ColorizerConfig { tab_size: 3, ..config() };
    assert_eq!(run(b"abcd\t", &cfg).1.position(), (6, 0));
}

#[test]
fn tab_is_held_inside_the_wrap_width() {
    let cfg = ColorizerConfig { wraps_after: Some(5), ..config() };
    assert_eq!(run(b"\t", &cfg).1.position(), (4, 0));
    let cfg = ColorizerConfig { wraps_after: Some(8), ..config() };
    assert_eq!(run(b"a\t", &cfg).1.position(), (7, 0));
    let cfg = ColorizerConfig { wraps_after: Some(9), ..config() };
    assert_eq!(run(b"a\t", &cfg).1.position(), (8, 0));
}

#[test]
fn graphemes_wrap_at_the_width() {
    let cfg = ColorizerConfig { wraps_after: Some(3), ..config() };
    assert_eq!(run(b"ab", &cfg).1.position(), (2, 0));
    assert_eq!(run(b"abc", &cfg).1.position(), (0, 1));
    assert_eq!(run(b"abcdefg", &cfg).1.position(), (1, 2));
}

#[test]
fn cursor_codes_are_tracked_and_forwarded() {
    let (out, pass, _) = run(b"\x1b[3;7H", &config());
    assert_eq!(out, b"\x1b[3;7H".to_vec());
    assert_eq!(pass.position(), (6, 2));
    assert_eq!(run(b"\x1b[3;7H\x1b[2A", &config()).1.position(), (6, 0));
    assert_eq!(run(b"\x1b[3;7H\x1b[5A", &config()).1.position(), (6, 0));
    assert_eq!(run(b"\x1b[3;7H\x1b[4B", &config()).1.position(), (6, 6));
    assert_eq!(run(b"\x1b[3;7H\x1b[4C", &config()).1.position(), (10, 2));
    assert_eq!(run(b"\x1b[3;7H\x1b[4D", &config()).1.position(), (2, 2));
    assert_eq!(run(b"\x1b[3;7H\x1b[9D", &config()).1.position(), (0, 2));
    assert_eq!(run(b"\x1b[3;7H\x1b[2E", &config()).1.position(), (0, 4));
    assert_eq!(run(b"\x1b[3;7H\x1b[2F", &config()).1.position(), (0, 0));
    assert_eq!(run(b"\x1b[3;7H\x1b[2G", &config()).1.position(), (1, 2));
}

#[test]
fn moves_saturate_at_the_greatest_value() {
    let text = format!("\u{1b}[0G\u{1b}[{}C", isize::MAX);
    assert_eq!(run(text.as_bytes(), &config()).1.position(), (usize::MAX, 0));
    assert_eq!(run(b"\x1b[0;1H\n", &config()).1.position(), (0, usize::MAX));
}

#[test]
fn needs_color_only_for_graphemes() {
    assert!(Recolorizer::needs_color(&ConsoleElem::Grapheme(b"a".to_vec())));
    assert!(!Recolorizer::needs_color(&ConsoleElem::Tab));
    assert!(!Recolorizer::needs_color(&ConsoleElem::Ansi(b"\x1b[0m".to_vec())));
}

#[test]
fn noop_copies() {
    let mut out = vec![1u8];
    Noop.copy_colorized(b"\x1b[31mred\xff", &mut out, &config());
    assert_eq!(out, b"\x01\x1b[31mred\xff".to_vec());
}

#[test]
fn image_repeats_in_both_directions() {
    let pixels: Vec<Color> = (0..6).map(|i| Color(i, 0, 0)).collect();
    let img = Image::new(3, 2, pixels);
    assert_eq!(img.pixel((0, 0)), Color(0, 0, 0));
    assert_eq!(img.pixel((2, 0)), Color(2, 0, 0));
    assert_eq!(img.pixel((0, 1)), Color(3, 0, 0));
    assert_eq!(img.pixel((2, 1)), Color(5, 0, 0));
    assert_eq!(img.pixel((3, 2)), Color(0, 0, 0));
    assert_eq!(img.pixel((4, 3)), Color(4, 0, 0));
}

#[test]
fn image_is_a_policy() {
    let mut img = Image::new(2, 1, vec![Color(255, 0, 0), Color(0, 0, 255)]);
    let mut out = Vec::new();
    recolor(&mut img, b"abc", &mut out, &config());
    assert_eq!(
        out,
        b"\x1b[38;2;255;0;0ma\x1b[38;2;0;0;255mb\x1b[38;2;255;0;0mc".to_vec()
    );
}

#[test]
fn stripes_blend_towards_the_next() {
    let stripes = [Color(255, 0, 0), Color(0, 255, 0), Color(0, 0, 255)];
    assert_eq!(stripe_blend(&stripes, 0, 0), Color(254, 0, 0));
    assert_eq!(stripe_blend(&stripes, 1, 255), Color(0, 0, 254));
    assert_eq!(stripe_blend(&stripes, 2, 255), Color(254, 0, 0));
    assert_eq!(stripe_blend(&stripes, 5, 0), Color(0, 0, 254));
    assert_eq!(stripe_blend(&stripes[..1], 7, 99), Color(254, 0, 0));
}
