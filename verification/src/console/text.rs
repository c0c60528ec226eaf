//! What the decoder asks of text: where a byte string stops being UTF-8, and
//! where the first grapheme cluster of a text ends.
use unicode_segmentation::UnicodeSegmentation;
use vstd::prelude::*;
use vstd::string::StringSliceAdditionalSpecFns;
use vstd::utf8::valid_utf8;

verus! {

/// The length that UTF-8 validation reports for the faulty byte sequence at
/// the point where `bytes` stops being valid; `None` where `bytes` merely
/// ends too early.
pub uninterp spec fn utf8_error_len(bytes: Seq<u8>) -> Option<usize>;

/// The length in bytes of the first extended grapheme cluster of the UTF-8
/// text `text`.
pub uninterp spec fn first_cluster_len(text: Seq<u8>) -> int;

/// `k` is the length of the longest prefix of `bytes` that is valid UTF-8.
pub open spec fn is_valid_prefix_len(bytes: Seq<u8>, k: int) -> bool {
    &&& 0 <= k <= bytes.len()
    &&& valid_utf8(bytes.subrange(0, k))
    &&& forall|j: int| k < j <= bytes.len() ==> !valid_utf8(#[trigger] bytes.subrange(0, j))
}

/// The length of the longest prefix of `bytes` that is valid UTF-8.
pub open spec fn valid_prefix_len(bytes: Seq<u8>) -> int {
    choose|k: int| is_valid_prefix_len(bytes, k)
}

/// There is one longest valid prefix.
pub proof fn lemma_valid_prefix_unique(bytes: Seq<u8>, k: int)
    requires
        is_valid_prefix_len(bytes, k),
    ensures
        valid_prefix_len(bytes) == k,
{
    let c = valid_prefix_len(bytes);
    assert(is_valid_prefix_len(bytes, c));
    if c < k {
        assert(!valid_utf8(bytes.subrange(0, k)));
    } else if k < c {
        assert(!valid_utf8(bytes.subrange(0, c)));
    }
}

/// Among the prefixes of at most `n` bytes there is a longest valid one.
proof fn lemma_longest_valid_prefix(bytes: Seq<u8>, n: int)
    requires
        0 <= n <= bytes.len(),
    ensures
        exists|k: int|
            0 <= k <= n && valid_utf8(bytes.subrange(0, k)) && forall|j: int|
                k < j <= n ==> !valid_utf8(#[trigger] bytes.subrange(0, j)),
    decreases n,
{
    if n == 0 {
        assert(valid_utf8(bytes.subrange(0, 0)));
    } else if !valid_utf8(bytes.subrange(0, n)) {
        lemma_longest_valid_prefix(bytes, n - 1);
        let k = choose|k: int|
            0 <= k <= n - 1 && valid_utf8(bytes.subrange(0, k)) && forall|j: int|
                k < j <= n - 1 ==> !valid_utf8(#[trigger] bytes.subrange(0, j));
        assert(0 <= k <= n && valid_utf8(bytes.subrange(0, k)) && forall|j: int|
            k < j <= n ==> !valid_utf8(#[trigger] bytes.subrange(0, j)));
    }
}

/// Every byte string has a longest valid prefix.
pub proof fn lemma_valid_prefix_exists(bytes: Seq<u8>)
    ensures
        is_valid_prefix_len(bytes, valid_prefix_len(bytes)),
{
    lemma_longest_valid_prefix(bytes, bytes.len() as int);
    let k = choose|k: int|
        0 <= k <= bytes.len() && valid_utf8(bytes.subrange(0, k)) && forall|j: int|
            k < j <= bytes.len() ==> !valid_utf8(#[trigger] bytes.subrange(0, j));
    assert(is_valid_prefix_len(bytes, k));
}

/// `std::str::from_utf8`, with the two numbers of its error.
///
/// Trusted: the call succeeds exactly on valid UTF-8 and then returns the
/// same bytes as text. Otherwise the first number is the length of the
/// longest valid prefix, and the second is what the error reports as the
/// length of the faulty sequence that follows it: a number where a byte
/// is surely wrong, `None` where the input merely ends inside a character.
/// That second value depends on the bytes alone.
#[verifier::external_body]
pub(crate) fn check_utf8(bytes: &[u8]) -> (r: Result<&str, (usize, Option<usize>)>)
    ensures
        match r {
            Ok(text) => valid_utf8(bytes@) && text.spec_bytes() == bytes@,
            Err((valid_up_to, error_len)) => {
                &&& !valid_utf8(bytes@)
                &&& is_valid_prefix_len(bytes@, valid_up_to as int)
                &&& error_len == utf8_error_len(bytes@)
            },
        },
{
    match std::str::from_utf8(bytes) {
        Ok(text) => Ok(text),
        Err(e) => Err((e.valid_up_to(), e.error_len())),
    }
}

/// `UnicodeSegmentation::grapheme_indices` in extended mode, asked for the
/// length of the first cluster only.
///
/// Trusted: the result is the length in bytes of the first extended
/// grapheme cluster of `text`, which lies inside the text and is not empty
/// unless the text is.
#[verifier::external_body]
pub(crate) fn first_grapheme(text: &str) -> (n: usize)
    ensures
        n as int == first_cluster_len(text.spec_bytes()),
        n <= text.spec_bytes().len(),
        text.spec_bytes().len() > 0 ==> n >= 1,
{
    match text.grapheme_indices(true).next() {
        Some((_, cluster)) => cluster.len(),
        None => 0,
    }
}

} // verus!
