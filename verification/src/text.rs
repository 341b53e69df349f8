//! The mathematical model of a text buffer.
//!
//! A buffer is a sequence of characters. This module defines what a line and
//! a word are, and proves closed forms for the line and word counts that the
//! executable counters compute in a single pass.

use vstd::prelude::*;

verus! {

/// A whitespace character: one of the Unicode `White_Space` code points.
/// These are the separators that word counting recognizes.
pub open spec fn is_space(c: char) -> bool {
    ||| c == ' '
    ||| (0x9 <= c as u32 && c as u32 <= 0xd)
    ||| c as u32 == 0x85
    ||| c as u32 == 0xa0
    ||| c as u32 == 0x1680
    ||| (0x2000 <= c as u32 && c as u32 <= 0x200a)
    ||| c as u32 == 0x2028
    ||| c as u32 == 0x2029
    ||| c as u32 == 0x202f
    ||| c as u32 == 0x205f
    ||| c as u32 == 0x3000
}

/// Decides [`is_space`] on a concrete character.
pub fn is_space_char(c: char) -> (r: bool)
    ensures
        r == is_space(c),
{
    let u: u32 = c as u32;
    u == 0x20 || (0x9 <= u && u <= 0xd) || u == 0x85 || u == 0xa0 || u == 0x1680 || (0x2000 <= u
        && u <= 0x200a) || u == 0x2028 || u == 0x2029 || u == 0x202f || u == 0x205f || u == 0x3000
}

/// The number of storage units (bytes) that the UTF-8 encoding of the
/// buffer occupies: a multi-byte character counts as several units, not as
/// one code point.
pub open spec fn byte_count_of(s: Seq<char>) -> nat {
    vstd::utf8::encode_utf8(s).len()
}

/// The index of the first newline in `s`, or `s.len()` when `s` has none.
pub open spec fn first_newline(s: Seq<char>) -> nat
    decreases s.len(),
{
    if s.len() == 0 {
        0
    } else if s[0] == '\n' {
        0
    } else {
        1 + first_newline(s.drop_first())
    }
}

/// Basic facts about [`first_newline`]: it is in range, it points at a
/// newline when one exists, and nothing before it is a newline.
pub proof fn lemma_first_newline(s: Seq<char>)
    ensures
        first_newline(s) <= s.len(),
        first_newline(s) < s.len() ==> s[first_newline(s) as int] == '\n',
        forall|j: int| 0 <= j < first_newline(s) ==> s[j] != '\n',
    decreases s.len(),
{
    if s.len() == 0 {
    } else if s[0] == '\n' {
    } else {
        lemma_first_newline(s.drop_first());
        assert forall|j: int| 0 <= j < first_newline(s) implies s[j] != '\n' by {
            if j > 0 {
                assert(s[j] == s.drop_first()[j - 1]);
            }
        }
    }
}

/// The newline-delimited segments of `s`: each newline ends a segment, and a
/// final segment without a terminating newline still counts, while an empty
/// buffer has no segments at all.
pub open spec fn lines_of(s: Seq<char>) -> Seq<Seq<char>>
    decreases s.len(),
{
    if s.len() == 0 {
        seq![]
    } else {
        let i = first_newline(s);
        if i >= s.len() {
            seq![s]
        } else {
            seq![s.take(i as int)] + lines_of(s.skip(i + 1 as int))
        }
    }
}

/// The number of newline-delimited segments of `s`.
pub open spec fn line_count_of(s: Seq<char>) -> nat {
    lines_of(s).len()
}

/// The number of newline characters in `s`.
pub open spec fn newline_count(s: Seq<char>) -> nat
    decreases s.len(),
{
    if s.len() == 0 {
        0
    } else {
        newline_count(s.drop_last()) + (if s.last() == '\n' {
            1nat
        } else {
            0nat
        })
    }
}

/// There are never more newlines than characters.
pub proof fn lemma_newline_count_le(s: Seq<char>)
    ensures
        newline_count(s) <= s.len(),
    decreases s.len(),
{
    if s.len() > 0 {
        lemma_newline_count_le(s.drop_last());
    }
}

/// A buffer without newline characters has a newline count of zero.
pub proof fn lemma_newline_count_zero(s: Seq<char>)
    requires
        forall|j: int| 0 <= j < s.len() ==> s[j] != '\n',
    ensures
        newline_count(s) == 0,
    decreases s.len(),
{
    if s.len() > 0 {
        lemma_newline_count_zero(s.drop_last());
    }
}

/// Newline counting distributes over concatenation.
pub proof fn lemma_newline_count_concat(a: Seq<char>, b: Seq<char>)
    ensures
        newline_count(a + b) == newline_count(a) + newline_count(b),
    decreases b.len(),
{
    if b.len() == 0 {
        assert(a + b =~= a);
    } else {
        lemma_newline_count_concat(a, b.drop_last());
        assert((a + b).drop_last() =~= a + b.drop_last());
        assert((a + b).last() == b.last());
    }
}

/// The closed form of the line count: the number of newline characters, plus
/// one for a final segment that no newline terminates. In particular a
/// trailing newline adds no empty final line, and an empty buffer has zero
/// lines.
pub proof fn lemma_line_count_closed(s: Seq<char>)
    ensures
        line_count_of(s) == newline_count(s) + (if s.len() > 0 && s.last() != '\n' {
            1nat
        } else {
            0nat
        }),
    decreases s.len(),
{
    if s.len() == 0 {
    } else {
        let i = first_newline(s);
        lemma_first_newline(s);
        if i >= s.len() {
            lemma_newline_count_zero(s);
        } else {
            let head = s.take(i as int);
            let tail = s.skip(i + 1 as int);
            lemma_line_count_closed(tail);
            assert(s =~= head.push('\n') + tail);
            lemma_newline_count_concat(head.push('\n'), tail);
            assert(newline_count(head.push('\n')) == newline_count(head) + 1) by {
                assert(head.push('\n').drop_last() =~= head);
                assert(head.push('\n').last() == '\n');
            }
            assert(forall|j: int| 0 <= j < head.len() ==> head[j] != '\n');
            lemma_newline_count_zero(head);
            if tail.len() > 0 {
                assert(s.last() == tail.last());
            } else {
                assert(s.last() == '\n');
            }
        }
    }
}

/// The number of whitespace-separated words of `s`: a word begins at a
/// non-whitespace character whose predecessor is absent or whitespace, so
/// consecutive whitespace acts as a single separator.
pub open spec fn words_in(s: Seq<char>) -> nat
    decreases s.len(),
{
    if s.len() == 0 {
        0
    } else {
        words_in(s.drop_last()) + (if !is_space(s.last()) && (s.len() == 1 || is_space(
            s[s.len() - 2],
        )) {
            1nat
        } else {
            0nat
        })
    }
}

/// The sum, over a sequence of segments, of their word counts.
pub open spec fn sum_words(ls: Seq<Seq<char>>) -> nat
    decreases ls.len(),
{
    if ls.len() == 0 {
        0
    } else {
        words_in(ls[0]) + sum_words(ls.drop_first())
    }
}

/// The word count of a buffer as the `-w` flag reports it: the sum over its
/// newline-delimited lines of the whitespace-separated token count of each
/// line.
pub open spec fn word_count_of(s: Seq<char>) -> nat {
    sum_words(lines_of(s))
}

/// Word counting distributes over a concatenation whose left part is empty
/// or ends in whitespace: no word spans such a boundary.
pub proof fn lemma_words_concat(a: Seq<char>, b: Seq<char>)
    requires
        a.len() == 0 || is_space(a.last()),
    ensures
        words_in(a + b) == words_in(a) + words_in(b),
    decreases b.len(),
{
    if b.len() == 0 {
        assert(a + b =~= a);
    } else {
        lemma_words_concat(a, b.drop_last());
        assert((a + b).drop_last() =~= a + b.drop_last());
        assert((a + b).last() == b.last());
        if b.len() == 1 {
            if a.len() > 0 {
                assert((a + b)[(a + b).len() - 2] == a.last());
            }
        } else {
            assert((a + b)[(a + b).len() - 2] == b[b.len() - 2]);
        }
    }
}

/// Splitting a buffer at a whitespace character splits its word count.
pub proof fn lemma_words_split(s: Seq<char>, i: int)
    requires
        0 <= i < s.len(),
        is_space(s[i]),
    ensures
        words_in(s) == words_in(s.take(i)) + words_in(s.skip(i + 1)),
{
    let a = s.take(i + 1);
    let b = s.skip(i + 1);
    assert(a.last() == s[i]);
    lemma_words_concat(a, b);
    assert(s =~= a + b);
    assert(a.drop_last() =~= s.take(i));
}

/// The closed form of the word count: summing tokens line by line equals
/// counting the word starts of the whole buffer, since a newline is
/// whitespace and no word crosses it.
pub proof fn lemma_word_count_closed(s: Seq<char>)
    ensures
        word_count_of(s) == words_in(s),
    decreases s.len(),
{
    if s.len() == 0 {
    } else {
        let i = first_newline(s);
        lemma_first_newline(s);
        if i >= s.len() {
            assert(lines_of(s) == seq![s]);
            assert(seq![s].drop_first() =~= Seq::<Seq<char>>::empty());
            assert(seq![s][0] == s);
            assert(sum_words(lines_of(s)) == words_in(s) + sum_words(seq![s].drop_first()));
            assert(sum_words(seq![s].drop_first()) == 0);
        } else {
            let head = s.take(i as int);
            let tail = s.skip(i + 1 as int);
            lemma_word_count_closed(tail);
            assert(lines_of(s) == seq![head] + lines_of(tail));
            assert(lines_of(s)[0] == head);
            assert(lines_of(s).drop_first() =~= lines_of(tail));
            assert(sum_words(lines_of(s)) == words_in(head) + sum_words(lines_of(tail)));
            assert(sum_words(lines_of(tail)) == words_in(tail));
            assert(is_space(s[i as int]));
            lemma_words_split(s, i as int);
            assert(words_in(s) == words_in(head) + words_in(tail));
        }
    }
}

} // verus!
