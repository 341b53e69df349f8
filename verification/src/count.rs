//! The three counters: bytes, lines and words of a text buffer.

use vstd::prelude::*;
use vstd::string::StrSliceExecFns;
use crate::text::byte_count_of;
use crate::text::is_space;
use crate::text::is_space_char;
use crate::text::lemma_line_count_closed;
use crate::text::lemma_newline_count_le;
use crate::text::lemma_word_count_closed;
use crate::text::line_count_of;
use crate::text::newline_count;
use crate::text::word_count_of;
use crate::text::words_in;

verus! {

/// Counts the bytes of the buffer's UTF-8 encoding.
pub fn count_bytes(content: &str) -> (r: usize)
    ensures
        r == byte_count_of(content@),
{
    let bytes: &[u8] = content.as_bytes();
    bytes.len()
}

/// Counts the newline-delimited segments of the buffer: a final segment
/// without a terminating newline still counts, and an empty buffer has
/// zero lines.
pub fn count_lines(content: &str) -> (r: usize)
    ensures
        r == line_count_of(content@),
{
    let n: usize = content.unicode_len();
    let mut newlines: usize = 0;
    let mut i: usize = 0;
    while i < n
        invariant
            n == content@.len(),
            0 <= i <= n,
            newlines == newline_count(content@.take(i as int)),
            newlines <= i,
        decreases n - i,
    {
        let c = content.get_char(i);
        proof {
            assert(content@.take(i + 1).drop_last() =~= content@.take(i as int));
            assert(content@.take(i + 1).last() == c);
        }
        if c == '\n' {
            newlines = newlines + 1;
        }
        i = i + 1;
    }
    proof {
        assert(content@.take(n as int) =~= content@);
        lemma_line_count_closed(content@);
        if content@.len() > 0 && content@.last() != '\n' {
            lemma_newline_count_le(content@.drop_last());
            assert(content@.drop_last() =~= content@.take(content@.len() - 1));
            assert(content@ =~= content@.drop_last().push(content@.last()));
        }
    }
    if n > 0 && content.get_char(n - 1) != '\n' {
        newlines + 1
    } else {
        newlines
    }
}

/// Counts the whitespace-separated words of the buffer: the sum, over its
/// newline-delimited lines, of the token count of each line.
pub fn count_words(content: &str) -> (r: usize)
    ensures
        r == word_count_of(content@),
{
    let n: usize = content.unicode_len();
    let mut words: usize = 0;
    let mut prev_space = true;
    let mut i: usize = 0;
    while i < n
        invariant
            n == content@.len(),
            0 <= i <= n,
            words == words_in(content@.take(i as int)),
            words <= i,
            prev_space == (i == 0 || is_space(content@[i as int - 1])),
        decreases n - i,
    {
        let c = content.get_char(i);
        proof {
            assert(content@.take(i + 1).drop_last() =~= content@.take(i as int));
            assert(content@.take(i + 1).last() == c);
            if i > 0 {
                assert(content@.take(i + 1)[i as int - 1] == content@[i as int - 1]);
            }
        }
        let sp = is_space_char(c);
        if !sp && prev_space {
            words = words + 1;
        }
        prev_space = sp;
        i = i + 1;
    }
    proof {
        assert(content@.take(n as int) =~= content@);
        lemma_word_count_closed(content@);
    }
    words
}

/// Counting has no hidden state: each count is a function of the buffer
/// alone, so any two results that the counters' contracts allow for the
/// same buffer are identical, and re-running a counter changes nothing.
pub proof fn lemma_counters_idempotent(
    s: Seq<char>,
    b1: usize,
    b2: usize,
    l1: usize,
    l2: usize,
    w1: usize,
    w2: usize,
)
    requires
        b1 == byte_count_of(s),
        b2 == byte_count_of(s),
        l1 == line_count_of(s),
        l2 == line_count_of(s),
        w1 == word_count_of(s),
        w2 == word_count_of(s),
    ensures
        b1 == b2,
        l1 == l2,
        w1 == w2,
{
}

} // verus!
