use recolor::console::{
    decode_element, for_each_console_element, ConsoleElem, DecodeOutcome, IterElements,
};

fn grapheme(s: &str) -> ConsoleElem {
    ConsoleElem::Grapheme(s.as_bytes().to_vec())
}

fn ansi(s: &str) -> ConsoleElem {
    ConsoleElem::Ansi(s.as_bytes().to_vec())
}

fn bytes_of(elems: &[ConsoleElem]) -> Vec<u8> {
    let mut out = Vec::new();
    for e in elems {
        match e {
            ConsoleElem::Newline => out.push(b'\n'),
            ConsoleElem::CarriageReturn => out.push(b'\r'),
            ConsoleElem::Tab => out.push(b'\t'),
            ConsoleElem::OtherNonPrinting(c) => out.push(*c as u8),
            ConsoleElem::Ansi(s) => out.extend_from_slice(s),
            ConsoleElem::Grapheme(s) => out.extend_from_slice(s),
            ConsoleElem::NonUTF8Data(b) => out.push(*b),
        }
    }
    out
}

fn splits(input: &[u8], at: usize) -> Vec<Vec<u8>> {
    vec![input[..at].to_vec(), input[at..].to_vec()]
}

const SAMPLE: &[u8] =
    b"a\xcc\x81b\r\n\t\x07\x1b[38;2;1;2;3mx\x1b[0m\xff\xe2\x82\xac\xe2\x82z\x1b[5A\xf0\x9f\x87\xb7\xf0\x9f\x87\xba\x1b[";

#[test]
fn control_characters() {
    assert_eq!(decode_element(b"\nx", false), DecodeOutcome::Produced(ConsoleElem::Newline, 1));
    assert_eq!(
        decode_element(b"\rx", false),
        DecodeOutcome::Produced(ConsoleElem::CarriageReturn, 1)
    );
    assert_eq!(decode_element(b"\t", false), DecodeOutcome::Produced(ConsoleElem::Tab, 1));
    assert_eq!(
        decode_element(b"\x07", false),
        DecodeOutcome::Produced(ConsoleElem::OtherNonPrinting('\u{7}'), 1)
    );
    assert_eq!(
        decode_element(b"\x7f", true),
        DecodeOutcome::Produced(ConsoleElem::OtherNonPrinting('\u{7f}'), 1)
    );
}

#[test]
fn empty_buffer_needs_more() {
    assert_eq!(decode_element(b"", false), DecodeOutcome::NeedMoreData);
    assert_eq!(decode_element(b"", true), DecodeOutcome::NeedMoreData);
}

#[test]
fn escape_sequence_is_taken_whole() {
    assert_eq!(
        decode_element(b"\x1b[38;2;10;20;30mrest", false),
        DecodeOutcome::Produced(ansi("\u{1b}[38;2;10;20;30m"), 16)
    );
    assert_eq!(decode_element(b"\x1b[0m", false), DecodeOutcome::Produced(ansi("\u{1b}[0m"), 4));
    assert_eq!(decode_element(b"\x1bMx", false), DecodeOutcome::Produced(ansi("\u{1b}M"), 2));
    assert_eq!(decode_element(b"\x1b[[x", false), DecodeOutcome::Produced(ansi("\u{1b}[["), 3));
}

#[test]
fn escape_sequence_split_across_reads() {
    assert_eq!(decode_element(b"\x1b", false), DecodeOutcome::NeedMoreData);
    assert_eq!(decode_element(b"\x1b[", false), DecodeOutcome::NeedMoreData);
    assert_eq!(decode_element(b"\x1b[38;2", false), DecodeOutcome::NeedMoreData);
    assert_eq!(decode_element(b"\x1b[38;2", true), DecodeOutcome::Produced(ansi("\u{1b}[38;2"), 6));
    assert_eq!(decode_element(b"\x1b", true), DecodeOutcome::Produced(ansi("\u{1b}"), 1));
}

#[test]
fn escape_sequence_ended_by_wide_character() {
    assert_eq!(
        decode_element("\u{1b}[1\u{e9}x".as_bytes(), false),
        DecodeOutcome::Produced(ansi("\u{1b}[1\u{e9}"), 5)
    );
}

#[test]
fn grapheme_waits_for_its_end() {
    assert_eq!(decode_element(b"a", false), DecodeOutcome::NeedMoreData);
    assert_eq!(decode_element(b"a", true), DecodeOutcome::Produced(grapheme("a"), 1));
    assert_eq!(decode_element(b"ab", false), DecodeOutcome::Produced(grapheme("a"), 1));
}

#[test]
fn combining_mark_stays_with_its_base() {
    let text = "e\u{301}x";
    assert_eq!(
        decode_element(text.as_bytes(), false),
        DecodeOutcome::Produced(grapheme("e\u{301}"), 3)
    );
    let elems = for_each_console_element(&vec![b"e".to_vec(), "\u{301}".as_bytes().to_vec()]);
    assert_eq!(elems, vec![grapheme("e\u{301}")]);
}

#[test]
fn grapheme_is_more_than_its_first_byte() {
    assert_eq!(
        decode_element("\u{20ac}x".as_bytes(), false),
        DecodeOutcome::Produced(grapheme("\u{20ac}"), 3)
    );
    assert_eq!(
        decode_element("\r\n".as_bytes(), true),
        DecodeOutcome::Produced(ConsoleElem::CarriageReturn, 1)
    );
}

#[test]
fn invalid_bytes_pass_one_by_one() {
    assert_eq!(
        decode_element(b"\xffabc", false),
        DecodeOutcome::Produced(ConsoleElem::NonUTF8Data(0xff), 1)
    );
    assert_eq!(
        decode_element(b"\x80", false),
        DecodeOutcome::Produced(ConsoleElem::NonUTF8Data(0x80), 1)
    );
    assert_eq!(
        decode_element(b"\xe2\x82z", false),
        DecodeOutcome::Produced(ConsoleElem::NonUTF8Data(0xe2), 1)
    );
}

#[test]
fn incomplete_character_waits_unless_final() {
    assert_eq!(decode_element(b"\xe2\x82", false), DecodeOutcome::NeedMoreData);
    assert_eq!(
        decode_element(b"\xe2\x82", true),
        DecodeOutcome::Produced(ConsoleElem::NonUTF8Data(0xe2), 1)
    );
}

#[test]
fn valid_prefix_is_read_as_text() {
    assert_eq!(decode_element(b"ab\xff", false), DecodeOutcome::Produced(grapheme("a"), 1));
    assert_eq!(decode_element(b"a\xff", true), DecodeOutcome::Produced(grapheme("a"), 1));
}

#[test]
fn text_before_a_faulty_byte_is_complete() {
    assert_eq!(decode_element(b"a\xff", false), DecodeOutcome::Produced(grapheme("a"), 1));
    assert_eq!(decode_element(b"a\xe2\x82z", false), DecodeOutcome::Produced(grapheme("a"), 1));
}

#[test]
fn text_before_an_unfinished_character_waits() {
    assert_eq!(decode_element(b"e\xcc", false), DecodeOutcome::NeedMoreData);
    assert_eq!(decode_element(b"e\xcc", true), DecodeOutcome::Produced(grapheme("e"), 1));
    assert_eq!(
        decode_element(b"e\xcc\x81x", false),
        DecodeOutcome::Produced(grapheme("e\u{301}"), 3)
    );
}

#[test]
fn open_escape_sequence_waits_for_the_end_of_the_stream() {
    assert_eq!(decode_element(b"\x1b[\xff", false), DecodeOutcome::NeedMoreData);
    assert_eq!(decode_element(b"\x1b[\xff", true), DecodeOutcome::Produced(ansi("\u{1b}["), 2));
}

#[test]
fn final_chunk_always_yields() {
    let mut rest: &[u8] = SAMPLE;
    let mut count = 0;
    while !rest.is_empty() {
        match decode_element(rest, true) {
            DecodeOutcome::Produced(_, n) => {
                assert!(n > 0);
                rest = &rest[n..];
            }
            DecodeOutcome::NeedMoreData => panic!("a final chunk was left undecided"),
        }
        count += 1;
    }
    assert!(count > 10);
}

#[test]
fn whole_stream_elements() {
    let elems = for_each_console_element(&vec![b"A\nB\x1b[0m\xff".to_vec()]);
    assert_eq!(
        elems,
        vec![
            grapheme("A"),
            ConsoleElem::Newline,
            grapheme("B"),
            ansi("\u{1b}[0m"),
            ConsoleElem::NonUTF8Data(0xff),
        ]
    );
}

#[test]
fn no_chunks_no_elements() {
    assert_eq!(for_each_console_element(&vec![]), vec![]);
    assert_eq!(for_each_console_element(&vec![vec![], vec![]]), vec![]);
}

#[test]
fn round_trip_at_every_split() {
    for at in 0..=SAMPLE.len() {
        let elems = for_each_console_element(&splits(SAMPLE, at));
        assert_eq!(bytes_of(&elems), SAMPLE.to_vec());
    }
}

#[test]
fn chunking_does_not_change_elements() {
    let whole = for_each_console_element(&vec![SAMPLE.to_vec()]);
    for at in 0..=SAMPLE.len() {
        assert_eq!(for_each_console_element(&splits(SAMPLE, at)), whole);
    }
    let single: Vec<Vec<u8>> = SAMPLE.iter().map(|b| vec![*b]).collect();
    assert_eq!(for_each_console_element(&single), whole);
}

#[test]
fn iterator_keeps_slop_for_the_next_read() {
    let mut iter = IterElements::new(b"ab\x1b[3".to_vec(), false);
    assert_eq!(iter.slop_bytes(), 5);
    assert_eq!(iter.try_get_next_element(), Some(grapheme("a")));
    assert_eq!(iter.try_get_next_element(), Some(grapheme("b")));
    assert_eq!(iter.try_get_next_element(), None);
    assert_eq!(iter.slop_bytes(), 3);
    iter.refill(b"1mz", false);
    assert_eq!(iter.slop_bytes(), 6);
    assert_eq!(iter.try_get_next_element(), Some(ansi("\u{1b}[31m")));
    assert_eq!(iter.try_get_next_element(), None);
    assert_eq!(iter.slop_bytes(), 1);
    iter.refill(b"", true);
    assert_eq!(iter.try_get_next_element(), Some(grapheme("z")));
    assert_eq!(iter.try_get_next_element(), None);
    assert_eq!(iter.slop_bytes(), 0);
}
