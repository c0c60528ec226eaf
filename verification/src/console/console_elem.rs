//! The elements of a console stream and the decoder that cuts a byte stream
//! into them.
use super::text::{
    check_utf8, first_cluster_len, first_grapheme, lemma_valid_prefix_exists,
    lemma_valid_prefix_unique, utf8_error_len, valid_prefix_len,
};
use vstd::prelude::*;
use vstd::slice::{slice_subrange, slice_to_vec};
use vstd::string::StringSliceAdditionalSpecFns;
use vstd::utf8::valid_utf8;

verus! {

/// One element of a stream that is destined to end at a console.
#[derive(Debug, Clone, PartialEq, Eq)]
pub enum ConsoleElem {
    /// A line feed.
    Newline,
    /// A carriage return.
    CarriageReturn,
    /// A horizontal tab.
    Tab,
    /// Any other ASCII control character.
    OtherNonPrinting(char),
    /// An escape sequence, from ESC to its final character.
    Ansi(Vec<u8>),
    /// One extended grapheme cluster, as UTF-8.
    Grapheme(Vec<u8>),
    /// One byte that is not part of any UTF-8 text.
    NonUTF8Data(u8),
}

/// The mathematical value of a [`ConsoleElem`].
pub enum ElemModel {
    Newline,
    CarriageReturn,
    Tab,
    OtherNonPrinting(char),
    Ansi(Seq<u8>),
    Grapheme(Seq<u8>),
    NonUTF8Data(u8),
}

impl ElemModel {
    /// The bytes of the stream that this element stands for.
    pub open spec fn bytes(self) -> Seq<u8> {
        match self {
            ElemModel::Newline => seq![0x0Au8],
            ElemModel::CarriageReturn => seq![0x0Du8],
            ElemModel::Tab => seq![0x09u8],
            ElemModel::OtherNonPrinting(c) => seq![c as u8],
            ElemModel::Ansi(s) => s,
            ElemModel::Grapheme(s) => s,
            ElemModel::NonUTF8Data(b) => seq![b],
        }
    }
}

impl View for ConsoleElem {
    type V = ElemModel;

    open spec fn view(&self) -> ElemModel {
        match self {
            ConsoleElem::Newline => ElemModel::Newline,
            ConsoleElem::CarriageReturn => ElemModel::CarriageReturn,
            ConsoleElem::Tab => ElemModel::Tab,
            ConsoleElem::OtherNonPrinting(c) => ElemModel::OtherNonPrinting(*c),
            ConsoleElem::Ansi(s) => ElemModel::Ansi(s@),
            ConsoleElem::Grapheme(s) => ElemModel::Grapheme(s@),
            ConsoleElem::NonUTF8Data(b) => ElemModel::NonUTF8Data(*b),
        }
    }
}

/// What one decoding step found at the front of a buffer.
#[derive(Debug, Clone, PartialEq, Eq)]
pub enum DecodeOutcome {
    /// An element, and the number of bytes it takes off the buffer's front.
    Produced(ConsoleElem, usize),
    /// The buffer's tail may be the start of a longer element.
    NeedMoreData,
}

impl View for DecodeOutcome {
    type V = Option<ElemModel>;

    open spec fn view(&self) -> Option<ElemModel> {
        match self {
            DecodeOutcome::Produced(e, _) => Some(e@),
            DecodeOutcome::NeedMoreData => None,
        }
    }
}

/// `b` continues a multi-byte character.
pub open spec fn is_continuation(b: u8) -> bool {
    0x80 <= b <= 0xBF
}

/// The end of the character that starts at `i`: the index after the
/// continuation bytes that follow it.
pub open spec fn char_end(text: Seq<u8>, i: int) -> int
    decreases text.len() - i,
{
    if 0 <= i && i + 1 < text.len() && is_continuation(text[i + 1]) {
        char_end(text, i + 1)
    } else {
        i + 1
    }
}

/// The character with first byte `b`, met as the `count`-th of an escape
/// sequence, ends the sequence: its code is above 0x40, and it is not a `[`
/// in first or second place.
pub open spec fn is_terminator(b: u8, count: int) -> bool {
    b > 0x40 && (b != 0x5B || count > 2)
}

/// The length of the escape sequence at the front of `text`, found by
/// scanning from index `i`; 0 where the text ends before a terminator.
pub open spec fn escape_end_from(text: Seq<u8>, i: int) -> int
    decreases text.len() - i,
{
    if i < 0 || i >= text.len() {
        0
    } else if is_terminator(text[i], i + 1) {
        char_end(text, i)
    } else {
        escape_end_from(text, i + 1)
    }
}

/// `b` is an ASCII control character.
pub open spec fn is_ascii_control(b: u8) -> bool {
    b < 0x20 || b == 0x7F
}

/// The first element of the UTF-8 text `text`, or `None` where the text is
/// empty or may go on and the element with it. `is_final` says that the
/// stream ends with the text, `ends_here` that the text is followed by
/// bytes that are surely no text: either way a grapheme cluster cannot go
/// on, while an escape sequence is only given up at the end of the stream.
pub open spec fn decode_text_spec(text: Seq<u8>, is_final: bool, ends_here: bool) -> Option<
    ElemModel,
> {
    let b = text[0];
    if text.len() == 0 {
        None
    } else if b == 0x0A {
        Some(ElemModel::Newline)
    } else if b == 0x0D {
        Some(ElemModel::CarriageReturn)
    } else if b == 0x09 {
        Some(ElemModel::Tab)
    } else if b == 0x1B {
        let end = escape_end_from(text, 0);
        if 0 < end <= text.len() {
            Some(ElemModel::Ansi(text.subrange(0, end)))
        } else if is_final {
            Some(ElemModel::Ansi(text))
        } else {
            None
        }
    } else if is_ascii_control(b) {
        Some(ElemModel::OtherNonPrinting(b as char))
    } else {
        let end = first_cluster_len(text);
        if 0 < end < text.len() {
            Some(ElemModel::Grapheme(text.subrange(0, end)))
        } else if is_final || ends_here {
            Some(ElemModel::Grapheme(text))
        } else {
            None
        }
    }
}

/// The first element of `buf`, or `None` where more bytes are needed to
/// tell. The longest valid UTF-8 prefix is read as text; where there is
/// none, the first byte is passed on raw once it is certain that no
/// character starts there.
pub open spec fn decode_spec(buf: Seq<u8>, is_final: bool) -> Option<ElemModel> {
    if buf.len() == 0 {
        None
    } else if valid_prefix_len(buf) > 0 {
        decode_text_spec(
            buf.subrange(0, valid_prefix_len(buf)),
            is_final,
            valid_prefix_len(buf) < buf.len() && utf8_error_len(buf).is_some(),
        )
    } else if is_final || utf8_error_len(buf).is_some() {
        Some(ElemModel::NonUTF8Data(buf[0]))
    } else {
        None
    }
}

/// `e` stands for a non-empty prefix of `buf`.
pub open spec fn is_front_of(e: ElemModel, buf: Seq<u8>) -> bool {
    &&& 0 < e.bytes().len() <= buf.len()
    &&& e.bytes() == buf.subrange(0, e.bytes().len() as int)
}

/// The character that starts at `i` ends inside the text.
pub proof fn lemma_char_end_bounds(text: Seq<u8>, i: int)
    requires
        0 <= i < text.len(),
    ensures
        i < char_end(text, i) <= text.len(),
    decreases text.len() - i,
{
    if i + 1 < text.len() && is_continuation(text[i + 1]) {
        lemma_char_end_bounds(text, i + 1);
    }
}

/// An escape sequence that has a terminator ends inside the text.
pub proof fn lemma_escape_end_bounds(text: Seq<u8>, i: int)
    requires
        0 <= i,
    ensures
        escape_end_from(text, i) == 0 || i < escape_end_from(text, i) <= text.len(),
    decreases text.len() - i,
{
    if i < text.len() {
        if is_terminator(text[i], i + 1) {
            lemma_char_end_bounds(text, i);
        } else {
            lemma_escape_end_bounds(text, i + 1);
        }
    }
}

/// A decoded element stands for the bytes at the front of the text, and for
/// at least one of them.
pub proof fn lemma_decode_text_front(text: Seq<u8>, is_final: bool, ends_here: bool)
    requires
        text.len() > 0,
    ensures
        match decode_text_spec(text, is_final, ends_here) {
            Some(e) => is_front_of(e, text),
            None => !is_final,
        },
{
    assert(text.subrange(0, text.len() as int) =~= text);
    let b = text[0];
    if b == 0x0A || b == 0x0D || b == 0x09 {
        assert(seq![b] =~= text.subrange(0, 1));
    } else if b == 0x1B {
        lemma_escape_end_bounds(text, 0);
    } else if is_ascii_control(b) {
        assert((b as char) as u8 == b);
        assert(seq![b] =~= text.subrange(0, 1));
    }
}

/// A decoded element stands for the bytes at the front of the buffer, and
/// for at least one of them; and a final, non-empty buffer always yields
/// an element.
pub proof fn lemma_decode_front(buf: Seq<u8>, is_final: bool)
    ensures
        match decode_spec(buf, is_final) {
            Some(e) => is_front_of(e, buf),
            None => !is_final || buf.len() == 0,
        },
{
    if buf.len() > 0 {
        let k = valid_prefix_len(buf);
        lemma_valid_prefix_exists(buf);
        if k > 0 {
            let text = buf.subrange(0, k);
            let ends_here = k < buf.len() && utf8_error_len(buf).is_some();
            lemma_decode_text_front(text, is_final, ends_here);
            match decode_text_spec(text, is_final, ends_here) {
                Some(e) => {
                    assert(text.subrange(0, e.bytes().len() as int) =~= buf.subrange(
                        0,
                        e.bytes().len() as int,
                    ));
                },
                None => {},
            }
        } else {
            assert(seq![buf[0]] =~= buf.subrange(0, 1));
        }
    }
}

/// Index after the continuation bytes that follow index `i`.
fn scan_char_end(text: &[u8], i: usize) -> (end: usize)
    requires
        i < text@.len(),
    ensures
        end as int == char_end(text@, i as int),
        i < end <= text@.len(),
{
    let n: usize = text.len();
    let mut j: usize = i;
    while j < n - 1 && 0x80 <= text[j + 1] && text[j + 1] <= 0xBF
        invariant
            n == text@.len(),
            i <= j < text@.len(),
            char_end(text@, i as int) == char_end(text@, j as int),
        decreases text@.len() - j,
    {
        j += 1;
    }
    j + 1
}

/// Length of the escape sequence at the front of `text`, 0 where the text
/// ends before a terminator.
fn scan_escape(text: &[u8]) -> (end: usize)
    ensures
        end as int == escape_end_from(text@, 0),
        end <= text@.len(),
{
    let mut i: usize = 0;
    while i < text.len()
        invariant
            i <= text@.len(),
            escape_end_from(text@, 0) == escape_end_from(text@, i as int),
        decreases text@.len() - i,
    {
        let b: u8 = text[i];
        if b > 0x40 && (b != 0x5B || i + 1 > 2) {
            return scan_char_end(text, i);
        }
        i += 1;
    }
    0
}

/// Decodes the first element of a text. `is_final` says that the stream
/// ends with the text, `ends_here` that what follows the text is surely no
/// text. With neither, the text may go on, and an element that its end
/// might belong to is not decided yet.
pub fn decode_text(text: &str, is_final: bool, ends_here: bool) -> (r: DecodeOutcome)
    ensures
        r@ == decode_text_spec(text.spec_bytes(), is_final, ends_here),
        match r {
            DecodeOutcome::Produced(e, n) => n == e@.bytes().len() && is_front_of(
                e@,
                text.spec_bytes(),
            ),
            DecodeOutcome::NeedMoreData => !is_final || text.spec_bytes().len() == 0,
        },
{
    let bytes = text.as_bytes();
    if bytes.len() == 0 {
        return DecodeOutcome::NeedMoreData;
    }
    proof {
        lemma_decode_text_front(bytes@, is_final, ends_here);
        assert(bytes@.subrange(0, bytes@.len() as int) =~= bytes@);
    }
    let b: u8 = bytes[0];
    if b == 0x0A {
        DecodeOutcome::Produced(ConsoleElem::Newline, 1)
    } else if b == 0x0D {
        DecodeOutcome::Produced(ConsoleElem::CarriageReturn, 1)
    } else if b == 0x09 {
        DecodeOutcome::Produced(ConsoleElem::Tab, 1)
    } else if b == 0x1B {
        let end: usize = scan_escape(bytes);
        if end > 0 {
            DecodeOutcome::Produced(ConsoleElem::Ansi(slice_to_vec(slice_subrange(bytes, 0, end))), end)
        } else if is_final {
            DecodeOutcome::Produced(ConsoleElem::Ansi(slice_to_vec(bytes)), bytes.len())
        } else {
            DecodeOutcome::NeedMoreData
        }
    } else if b < 0x20 || b == 0x7F {
        DecodeOutcome::Produced(ConsoleElem::OtherNonPrinting(b as char), 1)
    } else {
        let end: usize = first_grapheme(text);
        if end < bytes.len() {
            DecodeOutcome::Produced(
                ConsoleElem::Grapheme(slice_to_vec(slice_subrange(bytes, 0, end))),
                end,
            )
        } else if is_final || ends_here {
            DecodeOutcome::Produced(ConsoleElem::Grapheme(slice_to_vec(bytes)), bytes.len())
        } else {
            DecodeOutcome::NeedMoreData
        }
    }
}

/// Decodes the first element at the front of `buf`. With `is_final` unset
/// the buffer may go on, and an element that its tail might belong to is
/// not decided yet.
pub fn decode_element(buf: &[u8], is_final: bool) -> (r: DecodeOutcome)
    ensures
        r@ == decode_spec(buf@, is_final),
        match r {
            DecodeOutcome::Produced(e, n) => n == e@.bytes().len() && is_front_of(e@, buf@),
            DecodeOutcome::NeedMoreData => !is_final || buf@.len() == 0,
        },
{
    if buf.len() == 0 {
        return DecodeOutcome::NeedMoreData;
    }
    match check_utf8(buf) {
        Ok(text) => {
            proof {
                assert(buf@.subrange(0, buf@.len() as int) =~= buf@);
                lemma_valid_prefix_unique(buf@, buf@.len() as int);
            }
            decode_text(text, is_final, false)
        },
        Err((valid_up_to, error_len)) => {
            proof {
                assert(buf@.subrange(0, buf@.len() as int) =~= buf@);
                lemma_valid_prefix_unique(buf@, valid_up_to as int);
                lemma_decode_front(buf@, is_final);
            }
            if valid_up_to > 0 {
                match check_utf8(slice_subrange(buf, 0, valid_up_to)) {
                    Ok(text) => decode_text(text, is_final, error_len.is_some()),
                    Err(_) => {
                        proof {
                            assert(false);
                        }
                        DecodeOutcome::NeedMoreData
                    },
                }
            } else if is_final || error_len.is_some() {
                DecodeOutcome::Produced(ConsoleElem::NonUTF8Data(buf[0]), 1)
            } else {
                DecodeOutcome::NeedMoreData
            }
        },
    }
}

/// Appends `bytes` to `out`.
pub fn append_bytes(out: &mut Vec<u8>, bytes: &[u8])
    ensures
        final(out)@ == old(out)@ + bytes@,
{
    let mut i: usize = 0;
    while i < bytes.len()
        invariant
            i <= bytes@.len(),
            out@ == old(out)@ + bytes@.subrange(0, i as int),
        decreases bytes@.len() - i,
    {
        out.push(bytes[i]);
        proof {
            assert(out@ =~= old(out)@ + bytes@.subrange(0, i + 1));
        }
        i += 1;
    }
    proof {
        assert(bytes@.subrange(0, bytes@.len() as int) =~= bytes@);
    }
}

/// Iterates over the elements of a buffer that is refilled as the stream
/// is read. What could not be decided yet stays in the buffer, ahead of the
/// bytes that the next refill adds.
///
/// Every step looks at all pending bytes, so a stream is best fed in reads
/// of bounded size.
pub struct IterElements {
    buffer: Vec<u8>,
    start: usize,
    true_end: bool,
}

impl IterElements {
    /// The consumed part lies inside the buffer.
    pub closed spec fn wf(&self) -> bool {
        self.start <= self.buffer@.len()
    }

    /// The bytes that no element has taken yet.
    pub closed spec fn pending(&self) -> Seq<u8> {
        self.buffer@.subrange(self.start as int, self.buffer@.len() as int)
    }

    /// Whether the stream ends with the last byte of the buffer.
    pub closed spec fn at_true_end(&self) -> bool {
        self.true_end
    }

    /// An iterator over `bytes`; `true_end` says that the stream ends with
    /// them.
    pub fn new(bytes: Vec<u8>, true_end: bool) -> (it: Self)
        ensures
            it.wf(),
            it.pending() == bytes@,
            it.at_true_end() == true_end,
    {
        proof {
            assert(bytes@.subrange(0, bytes@.len() as int) =~= bytes@);
        }
        IterElements { buffer: bytes, start: 0, true_end }
    }

    /// Takes `amount` bytes off the front of what is pending.
    fn consume(&mut self, amount: usize)
        requires
            old(self).wf(),
            amount <= old(self).pending().len(),
        ensures
            final(self).wf(),
            final(self).pending() == old(self).pending().skip(amount as int),
            final(self).at_true_end() == old(self).at_true_end(),
    {
        let len: usize = self.buffer.len();
        assert(self.start + amount <= len);
        self.start = self.start + amount;
        proof {
            assert(final(self).pending() =~= old(self).pending().skip(amount as int));
        }
    }

    /// The next element, or `None` where more data is needed to tell; then
    /// nothing is consumed.
    pub fn try_get_next_element(&mut self) -> (r: Option<ConsoleElem>)
        requires
            old(self).wf(),
        ensures
            final(self).wf(),
            final(self).at_true_end() == old(self).at_true_end(),
            match r {
                Some(e) => {
                    &&& decode_spec(old(self).pending(), old(self).at_true_end()) == Some(e@)
                    &&& e@.bytes().len() > 0
                    &&& old(self).pending() == e@.bytes() + final(self).pending()
                },
                None => {
                    &&& decode_spec(old(self).pending(), old(self).at_true_end()).is_none()
                    &&& final(self).pending() == old(self).pending()
                    &&& old(self).at_true_end() ==> old(self).pending().len() == 0
                },
            },
    {
        let rest = slice_subrange(self.buffer.as_slice(), self.start, self.buffer.len());
        match decode_element(rest, self.true_end) {
            DecodeOutcome::Produced(elem, used) => {
                self.consume(used);
                proof {
                    assert(old(self).pending() =~= elem@.bytes() + final(self).pending());
                }
                Some(elem)
            },
            DecodeOutcome::NeedMoreData => None,
        }
    }

    /// The number of bytes that no element has taken yet: what has to stay
    /// ahead of the next bytes of the stream.
    pub fn slop_bytes(&self) -> (n: usize)
        requires
            self.wf(),
        ensures
            n == self.pending().len(),
    {
        self.buffer.len() - self.start
    }

    /// Slides the pending bytes to the front of the buffer and puts `chunk`
    /// behind them; `true_end` says that the stream ends with `chunk`.
    pub fn refill(&mut self, chunk: &[u8], true_end: bool)
        requires
            old(self).wf(),
        ensures
            final(self).wf(),
            final(self).pending() == old(self).pending() + chunk@,
            final(self).at_true_end() == true_end,
    {
        let slop: usize = self.buffer.len() - self.start;
        let from: usize = self.start;
        let mut i: usize = 0;
        while i < slop
            invariant
                i <= slop,
                from + slop == self.buffer@.len(),
                from + slop <= usize::MAX,
                self.buffer@.len() == old(self).buffer@.len(),
                from == old(self).start,
                forall|k: int| 0 <= k < i ==> self.buffer@[k] == old(self).buffer@[from + k],
                forall|k: int| i <= k < self.buffer@.len() ==> self.buffer@[k] == old(self).buffer@[k],
            decreases slop - i,
        {
            let b: u8 = self.buffer[from + i];
            self.buffer.set(i, b);
            i += 1;
        }
        self.buffer.truncate(slop);
        proof {
            assert(self.buffer@ =~= old(self).pending());
        }
        append_bytes(&mut self.buffer, chunk);
        self.start = 0;
        self.true_end = true_end;
        proof {
            assert(final(self).pending() =~= old(self).pending() + chunk@);
        }
    }
}

/// The bytes that a sequence of elements stands for, in order.
pub open spec fn wire_bytes(elems: Seq<ConsoleElem>) -> Seq<u8>
    decreases elems.len(),
{
    if elems.len() == 0 {
        Seq::empty()
    } else {
        wire_bytes(elems.drop_last()) + elems.last()@.bytes()
    }
}

/// The first `n` chunks, joined.
pub open spec fn joined(chunks: Seq<Vec<u8>>, n: int) -> Seq<u8>
    decreases n,
{
    if n <= 0 {
        Seq::empty()
    } else {
        joined(chunks, n - 1) + chunks[n - 1]@
    }
}

/// The elements that decoding finds one after another at the front of
/// `buf`, until more data is needed.
pub open spec fn decode_run(buf: Seq<u8>, is_final: bool) -> Seq<ElemModel>
    decreases buf.len(),
{
    match decode_spec(buf, is_final) {
        Some(e) => if 0 < e.bytes().len() <= buf.len() {
            seq![e] + decode_run(buf.skip(e.bytes().len() as int), is_final)
        } else {
            Seq::empty()
        },
        None => Seq::empty(),
    }
}

/// What a run of decoding leaves in the buffer.
pub open spec fn run_rest(buf: Seq<u8>, is_final: bool) -> Seq<u8>
    decreases buf.len(),
{
    match decode_spec(buf, is_final) {
        Some(e) => if 0 < e.bytes().len() <= buf.len() {
            run_rest(buf.skip(e.bytes().len() as int), is_final)
        } else {
            buf
        },
        None => buf,
    }
}

/// An element found at the front of a buffer is the first of the run, and
/// the run goes on behind it.
pub proof fn lemma_decode_run_first(buf: Seq<u8>, is_final: bool, e: ElemModel, rest: Seq<u8>)
    requires
        decode_spec(buf, is_final) == Some(e),
        e.bytes().len() > 0,
        buf == e.bytes() + rest,
    ensures
        decode_run(buf, is_final) == seq![e] + decode_run(rest, is_final),
{
    assert(buf.skip(e.bytes().len() as int) =~= rest);
}

/// The bytes that a run of elements stands for, in order.
pub open spec fn run_bytes(elems: Seq<ElemModel>) -> Seq<u8>
    decreases elems.len(),
{
    if elems.len() == 0 {
        Seq::empty()
    } else {
        elems[0].bytes() + run_bytes(elems.subrange(1, elems.len() as int))
    }
}

/// Decoding loses and adds nothing: the bytes of the elements that a run
/// finds, followed by what the run leaves, are the buffer; and a run over a
/// final buffer leaves nothing.
pub proof fn lemma_run_round_trip(buf: Seq<u8>, is_final: bool)
    ensures
        run_bytes(decode_run(buf, is_final)) + run_rest(buf, is_final) == buf,
        is_final ==> run_rest(buf, is_final).len() == 0,
    decreases buf.len(),
{
    lemma_decode_front(buf, is_final);
    match decode_spec(buf, is_final) {
        Some(e) => {
            let n = e.bytes().len() as int;
            let rest = buf.skip(n);
            lemma_run_round_trip(rest, is_final);
            let run = decode_run(buf, is_final);
            assert(run.subrange(1, run.len() as int) =~= decode_run(rest, is_final));
            assert(run[0] == e);
            assert(buf =~= buf.subrange(0, n) + rest);
            assert(run_bytes(run) + run_rest(buf, is_final) =~= e.bytes() + (run_bytes(
                decode_run(rest, is_final),
            ) + run_rest(rest, is_final)));
        },
        None => {
            assert(run_bytes(decode_run(buf, is_final)) + buf =~= buf);
        },
    }
}

/// An element that is decided while the buffer may still grow is decided
/// the same way once the buffer is known to be final.
pub proof fn lemma_final_keeps_element(buf: Seq<u8>, e: ElemModel)
    requires
        decode_spec(buf, false) == Some(e),
    ensures
        decode_spec(buf, true) == Some(e),
{
}

/// The end of the stream may be told late: decoding a buffer as not final
/// and then what is left of it as final gives the same elements as
/// decoding it as final at once.
pub proof fn lemma_final_flag_may_come_late(buf: Seq<u8>)
    ensures
        decode_run(buf, false) + decode_run(run_rest(buf, false), true) == decode_run(buf, true),
    decreases buf.len(),
{
    match decode_spec(buf, false) {
        Some(e) => {
            lemma_final_keeps_element(buf, e);
            if 0 < e.bytes().len() <= buf.len() {
                let rest = buf.skip(e.bytes().len() as int);
                lemma_final_flag_may_come_late(rest);
                assert(decode_run(buf, false) + decode_run(run_rest(buf, false), true) =~= seq![e]
                    + (decode_run(rest, false) + decode_run(run_rest(rest, false), true)));
            } else {
                assert(decode_run(buf, false) + decode_run(buf, true) =~= decode_run(buf, true));
            }
        },
        None => {
            assert(decode_run(buf, false) + decode_run(buf, true) =~= decode_run(buf, true));
        },
    }
}

/// A stream that arrives in one piece is decoded as one final buffer.
pub proof fn lemma_single_chunk(chunks: Seq<Vec<u8>>)
    requires
        chunks.len() == 1,
    ensures
        stream_decoding(chunks) == decode_run(chunks[0]@, true),
{
    let whole = chunks[0]@;
    reveal_with_fuel(stream_elems, 2);
    reveal_with_fuel(stream_rest, 2);
    assert(Seq::<u8>::empty() + whole =~= whole);
    assert(Seq::<ElemModel>::empty() + decode_run(whole, false) =~= decode_run(whole, false));
    lemma_final_flag_may_come_late(whole);
}

/// The elements of a stream that arrives as the first `n` of `chunks` and
/// has not ended yet.
pub open spec fn stream_elems(chunks: Seq<Vec<u8>>, n: int) -> Seq<ElemModel>
    decreases n,
{
    if n <= 0 {
        Seq::empty()
    } else {
        stream_elems(chunks, n - 1) + decode_run(stream_rest(chunks, n - 1) + chunks[n - 1]@, false)
    }
}

/// What is still undecided after the first `n` of `chunks`.
pub open spec fn stream_rest(chunks: Seq<Vec<u8>>, n: int) -> Seq<u8>
    decreases n,
{
    if n <= 0 {
        Seq::empty()
    } else {
        run_rest(stream_rest(chunks, n - 1) + chunks[n - 1]@, false)
    }
}

/// The elements of the whole stream that arrives as `chunks` and then
/// ends.
pub open spec fn stream_decoding(chunks: Seq<Vec<u8>>) -> Seq<ElemModel> {
    stream_elems(chunks, chunks.len() as int) + decode_run(
        stream_rest(chunks, chunks.len() as int),
        true,
    )
}

/// A step that is decided while the buffer may still grow stays as it is
/// when the buffer does grow. Whether this holds rests on where grapheme
/// clusters end and on which bytes are told to be surely faulty, both of
/// which are decided outside this library.
pub open spec fn steps_are_stable() -> bool {
    forall|buf: Seq<u8>, more: Seq<u8>|
        decode_spec(buf, false).is_some() ==> #[trigger] decode_spec(buf + more, false)
            == decode_spec(buf, false)
}

/// Where steps are stable, a run over a buffer that has grown is the run
/// over the buffer as it was, followed by the run over what that one left
/// and what was added.
pub proof fn lemma_run_of_grown_buffer(buf: Seq<u8>, more: Seq<u8>, is_final: bool)
    requires
        steps_are_stable(),
    ensures
        decode_run(buf + more, is_final) == decode_run(buf, false) + decode_run(
            run_rest(buf, false) + more,
            is_final,
        ),
        run_rest(buf + more, is_final) == run_rest(run_rest(buf, false) + more, is_final),
    decreases buf.len(),
{
    match decode_spec(buf, false) {
        Some(e) => {
            assert(decode_spec(buf + more, false) == Some(e));
            if is_final {
                lemma_final_keeps_element(buf + more, e);
            }
            if 0 < e.bytes().len() <= buf.len() {
                let n = e.bytes().len() as int;
                assert((buf + more).skip(n) =~= buf.skip(n) + more);
                lemma_run_of_grown_buffer(buf.skip(n), more, is_final);
                assert(decode_run(buf + more, is_final) =~= decode_run(buf, false) + decode_run(
                    run_rest(buf, false) + more,
                    is_final,
                ));
            } else {
                lemma_decode_front(buf, false);
            }
        },
        None => {
            assert(decode_run(buf, false) + decode_run(buf + more, is_final) =~= decode_run(
                buf + more,
                is_final,
            ));
        },
    }
}

/// Where steps are stable, the elements found while a stream arrives in
/// chunks are those of one run over the chunks joined, and what is left
/// undecided is what that run leaves.
pub proof fn lemma_stream_is_one_run(chunks: Seq<Vec<u8>>, n: int)
    requires
        steps_are_stable(),
        0 <= n <= chunks.len(),
    ensures
        stream_elems(chunks, n) == decode_run(joined(chunks, n), false),
        stream_rest(chunks, n) == run_rest(joined(chunks, n), false),
    decreases n,
{
    if n > 0 {
        lemma_stream_is_one_run(chunks, n - 1);
        lemma_run_of_grown_buffer(joined(chunks, n - 1), chunks[n - 1]@, false);
    }
}

/// Where steps are stable, splitting a stream into chunks changes nothing:
/// the elements are those of the whole stream decoded as one final chunk.
pub proof fn lemma_chunking_changes_nothing_where_steps_are_stable(chunks: Seq<Vec<u8>>)
    requires
        steps_are_stable(),
    ensures
        stream_decoding(chunks) == decode_run(joined(chunks, chunks.len() as int), true),
{
    lemma_stream_is_one_run(chunks, chunks.len() as int);
    lemma_final_flag_may_come_late(joined(chunks, chunks.len() as int));
}

/// The views of `elems`, in order.
pub open spec fn models(elems: Seq<ConsoleElem>) -> Seq<ElemModel> {
    elems.map_values(|e: ConsoleElem| e@)
}

/// Decodes until more data is needed and adds the elements to `out`.
fn drain_elements(iter: &mut IterElements, out: &mut Vec<ConsoleElem>)
    requires
        old(iter).wf(),
    ensures
        final(iter).wf(),
        final(iter).at_true_end() == old(iter).at_true_end(),
        final(iter).pending() == run_rest(old(iter).pending(), old(iter).at_true_end()),
        models(final(out)@) == models(old(out)@) + decode_run(
            old(iter).pending(),
            old(iter).at_true_end(),
        ),
        wire_bytes(final(out)@) + final(iter).pending() == wire_bytes(old(out)@) + old(
            iter,
        ).pending(),
        old(iter).at_true_end() ==> final(iter).pending().len() == 0,
{
    let ghost fin = iter.at_true_end();
    proof {
        assert(models(out@) + decode_run(iter.pending(), fin) =~= models(old(out)@) + decode_run(
            old(iter).pending(),
            fin,
        ));
    }
    loop
        invariant
            iter.wf(),
            iter.at_true_end() == fin,
            fin == old(iter).at_true_end(),
            run_rest(iter.pending(), fin) == run_rest(old(iter).pending(), fin),
            models(out@) + decode_run(iter.pending(), fin) == models(old(out)@) + decode_run(
                old(iter).pending(),
                fin,
            ),
            wire_bytes(out@) + iter.pending() == wire_bytes(old(out)@) + old(iter).pending(),
        decreases iter.pending().len(),
    {
        let ghost before = iter.pending();
        let ghost seen = out@;
        match iter.try_get_next_element() {
            Some(elem) => {
                out.push(elem);
                proof {
                    let e = elem@;
                    assert(before.skip(e.bytes().len() as int) =~= iter.pending());
                    assert(out@.drop_last() =~= seen);
                    assert(models(out@) =~= models(seen) + seq![e]);
                    assert(models(out@) + decode_run(iter.pending(), fin) =~= models(seen)
                        + decode_run(before, fin));
                    assert(wire_bytes(out@) + iter.pending() =~= wire_bytes(seen) + before);
                }
            },
            None => {
                proof {
                    assert(models(out@) + decode_run(iter.pending(), fin) =~= models(out@));
                }
                return ;
            },
        }
    }
}

/// Decodes the stream that arrives as `chunks`, one read after another, and
/// ends after the last of them. Every byte of the stream is in exactly one
/// element: the elements' bytes, joined in order, are the chunks joined.
pub fn for_each_console_element(chunks: &Vec<Vec<u8>>) -> (elems: Vec<ConsoleElem>)
    ensures
        models(elems@) == stream_decoding(chunks@),
        wire_bytes(elems@) == joined(chunks@, chunks@.len() as int),
{
    let mut elems: Vec<ConsoleElem> = Vec::new();
    let mut iter = IterElements::new(Vec::new(), false);
    let mut i: usize = 0;
    proof {
        assert(models(elems@) =~= stream_elems(chunks@, 0));
    }
    while i < chunks.len()
        invariant
            i <= chunks@.len(),
            iter.wf(),
            models(elems@) == stream_elems(chunks@, i as int),
            iter.pending() == stream_rest(chunks@, i as int),
            wire_bytes(elems@) + iter.pending() == joined(chunks@, i as int),
        decreases chunks@.len() - i,
    {
        iter.refill(chunks[i].as_slice(), false);
        drain_elements(&mut iter, &mut elems);
        proof {
            assert(wire_bytes(elems@) + iter.pending() =~= joined(chunks@, i + 1)) by {
                assert(joined(chunks@, i + 1) =~= joined(chunks@, i as int) + chunks@[i as int]@);
            }
        }
        i += 1;
    }
    let nothing: Vec<u8> = Vec::new();
    iter.refill(nothing.as_slice(), true);
    drain_elements(&mut iter, &mut elems);
    proof {
        assert(wire_bytes(elems@) =~= wire_bytes(elems@) + iter.pending());
    }
    elems
}

} // verus!
