use recolor::console::{parse_ansi_bytes, parse_ansi_type, take_one_argument, AnsiCodeType};

#[test]
fn reset_style() {
    assert_eq!(parse_ansi_type("\u{1b}[0m"), AnsiCodeType::ResetStyle);
    assert_eq!(parse_ansi_type("\u{1b}[m"), AnsiCodeType::ResetStyle);
    assert_eq!(parse_ansi_type("\u{1b}[00m"), AnsiCodeType::ResetStyle);
}

#[test]
fn other_styles() {
    assert_eq!(parse_ansi_type("\u{1b}[1m"), AnsiCodeType::Other);
    assert_eq!(parse_ansi_type("\u{1b}[4;1m"), AnsiCodeType::Other);
}

#[test]
fn set_color() {
    assert_eq!(parse_ansi_type("\u{1b}[38;2;10;20;30m"), AnsiCodeType::SetColor);
    assert_eq!(parse_ansi_type("\u{1b}[31m"), AnsiCodeType::SetColor);
}

#[test]
fn relative_moves() {
    assert_eq!(parse_ansi_type("\u{1b}[5A"), AnsiCodeType::MoveCursor(None, Some(-5)));
    assert_eq!(parse_ansi_type("\u{1b}[5B"), AnsiCodeType::MoveCursor(None, Some(5)));
    assert_eq!(parse_ansi_type("\u{1b}[12C"), AnsiCodeType::MoveCursor(Some(12), None));
    assert_eq!(parse_ansi_type("\u{1b}[12D"), AnsiCodeType::MoveCursor(Some(-12), None));
}

#[test]
fn relative_moves_default_to_one() {
    assert_eq!(parse_ansi_type("\u{1b}[A"), AnsiCodeType::MoveCursor(None, Some(-1)));
    assert_eq!(parse_ansi_type("\u{1b}[xB"), AnsiCodeType::MoveCursor(None, Some(1)));
    assert_eq!(parse_ansi_type("\u{1b}[C"), AnsiCodeType::MoveCursor(Some(1), None));
    assert_eq!(
        parse_ansi_type("\u{1b}[99999999999999999999999999D"),
        AnsiCodeType::MoveCursor(Some(-1), None)
    );
}

#[test]
fn line_moves_reset_the_column() {
    assert_eq!(
        parse_ansi_type("\u{1b}[3E"),
        AnsiCodeType::MoveCursor(Some(isize::MIN), Some(3))
    );
    assert_eq!(
        parse_ansi_type("\u{1b}[3F"),
        AnsiCodeType::MoveCursor(Some(isize::MIN), Some(-3))
    );
}

#[test]
fn absolute_moves() {
    assert_eq!(parse_ansi_type("\u{1b}[3;7H"), AnsiCodeType::SetCursor(Some(6), Some(2)));
    assert_eq!(parse_ansi_type("\u{1b}[H"), AnsiCodeType::SetCursor(Some(0), Some(0)));
    assert_eq!(parse_ansi_type("\u{1b}[;4H"), AnsiCodeType::SetCursor(Some(3), Some(0)));
    assert_eq!(parse_ansi_type("\u{1b}[4H"), AnsiCodeType::SetCursor(Some(0), Some(3)));
    assert_eq!(parse_ansi_type("\u{1b}[9G"), AnsiCodeType::SetCursor(Some(8), None));
    assert_eq!(parse_ansi_type("\u{1b}[G"), AnsiCodeType::SetCursor(Some(0), None));
}

#[test]
fn absolute_move_below_one_wraps() {
    assert_eq!(parse_ansi_type("\u{1b}[0G"), AnsiCodeType::SetCursor(Some(usize::MAX), None));
    assert_eq!(
        parse_ansi_type("\u{1b}[-1G"),
        AnsiCodeType::SetCursor(Some(usize::MAX - 1), None)
    );
}

#[test]
fn short_and_unknown_sequences() {
    assert_eq!(parse_ansi_type(""), AnsiCodeType::Other);
    assert_eq!(parse_ansi_type("\u{1b}"), AnsiCodeType::Other);
    assert_eq!(parse_ansi_type("\u{1b}A"), AnsiCodeType::Other);
    assert_eq!(parse_ansi_type("\u{1b}[2J"), AnsiCodeType::Other);
    assert_eq!(parse_ansi_type("\u{1b}[K"), AnsiCodeType::Other);
}

#[test]
fn classification_is_repeatable() {
    let seq = "\u{1b}[3;7H";
    assert_eq!(parse_ansi_type(seq), parse_ansi_type(seq));
    assert_eq!(parse_ansi_bytes(seq.as_bytes()), parse_ansi_type(seq));
}

#[test]
fn negation_of_least_value_saturates() {
    let text = format!("\u{1b}[{}A", isize::MIN);
    assert_eq!(parse_ansi_type(&text), AnsiCodeType::MoveCursor(None, Some(isize::MAX)));
    let text = format!("\u{1b}[{}B", isize::MAX);
    assert_eq!(parse_ansi_type(&text), AnsiCodeType::MoveCursor(None, Some(isize::MAX)));
}

#[test]
fn arguments_are_taken_left_to_right() {
    let (rest, first) = take_one_argument(b"3;7;x", 1);
    assert_eq!((rest, first), (&b"7;x"[..], 3));
    let (rest, second) = take_one_argument(rest, 1);
    assert_eq!((rest, second), (&b"x"[..], 7));
    let (rest, third) = take_one_argument(rest, 9);
    assert_eq!((rest, third), (&b""[..], 9));
    let (rest, none) = take_one_argument(rest, 4);
    assert_eq!((rest, none), (&b""[..], 4));
    assert_eq!(take_one_argument(b"+5", 1).1, 5);
    assert_eq!(take_one_argument(b"-5", 1).1, -5);
    assert_eq!(take_one_argument(b"-", 1).1, 1);
}
