//! Rendering the selected counts as the single output line.

use vstd::prelude::*;
use vstd::string::StringExecFns;
use crate::config::Config;
use crate::count::count_bytes;
use crate::count::count_lines;
use crate::count::count_words;
use crate::text::byte_count_of;
use crate::text::line_count_of;
use crate::text::word_count_of;

verus! {

/// The decimal digit character for `d`.
pub open spec fn digit_char(d: nat) -> char {
    if d == 0 {
        '0'
    } else if d == 1 {
        '1'
    } else if d == 2 {
        '2'
    } else if d == 3 {
        '3'
    } else if d == 4 {
        '4'
    } else if d == 5 {
        '5'
    } else if d == 6 {
        '6'
    } else if d == 7 {
        '7'
    } else if d == 8 {
        '8'
    } else {
        '9'
    }
}

/// The decimal representation of `n`, most significant digit first, without
/// leading zeros; zero itself is the single digit `0`.
pub open spec fn decimal(n: nat) -> Seq<char>
    decreases n,
{
    if n < 10 {
        seq![digit_char(n)]
    } else {
        decimal(n / 10).push(digit_char(n % 10))
    }
}

/// The single-character string for the digit `d`.
fn digit_str(d: u8) -> (r: &'static str)
    requires
        d < 10,
    ensures
        r@ == seq![digit_char(d as nat)],
{
    let r = if d == 0 {
        "0"
    } else if d == 1 {
        "1"
    } else if d == 2 {
        "2"
    } else if d == 3 {
        "3"
    } else if d == 4 {
        "4"
    } else if d == 5 {
        "5"
    } else if d == 6 {
        "6"
    } else if d == 7 {
        "7"
    } else if d == 8 {
        "8"
    } else {
        "9"
    };
    proof {
        reveal_strlit("0");
        reveal_strlit("1");
        reveal_strlit("2");
        reveal_strlit("3");
        reveal_strlit("4");
        reveal_strlit("5");
        reveal_strlit("6");
        reveal_strlit("7");
        reveal_strlit("8");
        reveal_strlit("9");
        assert(r@ =~= seq![digit_char(d as nat)]);
    }
    r
}

/// The digits of `ds` read back to front, as characters.
spec fn rev_digits(ds: Seq<u8>) -> Seq<char> {
    Seq::new(ds.len(), |i: int| digit_char(ds[ds.len() - 1 - i] as nat))
}

/// Renders `n` in decimal.
pub fn usize_to_string(n: usize) -> (r: String)
    ensures
        r@ == decimal(n as nat),
{
    let mut digits: Vec<u8> = Vec::new();
    digits.push((n % 10) as u8);
    let mut m: usize = n / 10;
    proof {
        assert(rev_digits(digits@) =~= seq![digit_char((n % 10) as nat)]);
        if m == 0 {
            assert(n % 10 == n);
        } else {
            assert(decimal(n as nat) == decimal((n as nat) / 10).push(
                digit_char((n as nat) % 10),
            ));
            assert(decimal((n as nat) / 10).push(digit_char((n as nat) % 10)) =~= decimal(
                (n as nat) / 10,
            ) + seq![digit_char((n as nat) % 10)]);
        }
    }
    while m > 0
        invariant
            digits@.len() > 0,
            forall|j: int| 0 <= j < digits@.len() ==> digits@[j] < 10,
            m > 0 ==> decimal(n as nat) == decimal(m as nat) + rev_digits(digits@),
            m == 0 ==> decimal(n as nat) == rev_digits(digits@),
        decreases m,
    {
        let ghost ds0 = digits@;
        let ghost m0 = m as nat;
        let d: u8 = (m % 10) as u8;
        digits.push(d);
        m = m / 10;
        proof {
            assert(rev_digits(digits@) =~= seq![digit_char(m0 % 10)] + rev_digits(ds0));
            if m == 0 {
                assert(m0 < 10);
                assert(decimal(m0) =~= seq![digit_char(m0 % 10)]);
                assert(decimal(n as nat) =~= rev_digits(digits@));
            } else {
                assert(decimal(m0) == decimal(m0 / 10).push(digit_char(m0 % 10)));
                assert(decimal(m0 / 10).push(digit_char(m0 % 10)) =~= decimal(m0 / 10)
                    + seq![digit_char(m0 % 10)]);
                assert((decimal(m as nat) + seq![digit_char(m0 % 10)]) + rev_digits(ds0)
                    =~= decimal(m as nat) + (seq![digit_char(m0 % 10)] + rev_digits(ds0)));
                assert(decimal(n as nat) =~= decimal(m as nat) + rev_digits(digits@));
            }
        }
    }
    let mut out = String::new();
    let mut i: usize = digits.len();
    while i > 0
        invariant
            forall|j: int| 0 <= j < digits@.len() ==> digits@[j] < 10,
            i <= digits@.len(),
            decimal(n as nat) == rev_digits(digits@),
            out@ == rev_digits(digits@).take(digits@.len() - i),
        decreases i,
    {
        i = i - 1;
        let d: u8 = digits[i];
        out.append(digit_str(d));
        proof {
            assert(rev_digits(digits@).take(digits@.len() - i) =~= rev_digits(digits@).take(
                digits@.len() - i - 1,
            ).push(digit_char(digits@[i as int] as nat)));
            assert(out@ =~= rev_digits(digits@).take(digits@.len() - i));
        }
    }
    proof {
        assert(rev_digits(digits@).take(digits@.len() as int) =~= rev_digits(digits@));
    }
    out
}

/// The output line for one run over the buffer `content`: the selected
/// counts in bytes, lines, words order, each followed by a single space,
/// and the file path last.
pub open spec fn output_line(
    path: Seq<char>,
    bytes: bool,
    lines: bool,
    words: bool,
    content: Seq<char>,
) -> Seq<char> {
    (if bytes {
        decimal(byte_count_of(content)) + seq![' ']
    } else {
        Seq::<char>::empty()
    }) + (if lines {
        decimal(line_count_of(content)) + seq![' ']
    } else {
        Seq::<char>::empty()
    }) + (if words {
        decimal(word_count_of(content)) + seq![' ']
    } else {
        Seq::<char>::empty()
    }) + path
}

/// Renders the counts that `config` selects over `content`, joined by
/// single spaces and followed by the file path.
pub fn format_counts(config: &Config, content: &str) -> (r: String)
    ensures
        r@ == output_line(
            config.file_path@,
            config.bytes_arg,
            config.lines_arg,
            config.words_arg,
            content@,
        ),
{
    let mut out = String::new();
    if config.bytes_arg {
        let ns = usize_to_string(count_bytes(content));
        out.append(ns.as_str());
        out.append(" ");
    }
    if config.lines_arg {
        let ns = usize_to_string(count_lines(content));
        out.append(ns.as_str());
        out.append(" ");
    }
    if config.words_arg {
        let ns = usize_to_string(count_words(content));
        out.append(ns.as_str());
        out.append(" ");
    }
    out.append(config.file_path.as_str());
    proof {
        reveal_strlit(" ");
        assert(" "@ =~= seq![' ']);
        assert(out@ =~= output_line(
            config.file_path@,
            config.bytes_arg,
            config.lines_arg,
            config.words_arg,
            content@,
        ));
    }
    out
}

} // verus!
