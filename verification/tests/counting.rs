use ccwc::count_bytes;
use ccwc::count_lines;
use ccwc::count_words;

#[test]
fn test_count_bytes() {
    let s = "Hello world!";
    assert_eq!(12, count_bytes(s));

    let s = "美味しいご飯だった";
    assert_eq!(27, count_bytes(s));
}

#[test]
fn test_count_lines() {
    let s = "\
Hello world!
rust is cool
but typescript is cooler
";

    assert_eq!(3, count_lines(s));
}

#[test]
fn test_count_words() {
    let s = "Title: The Art of War";
    assert_eq!(5, count_words(s));

    let s = "\
            The Project Gutenberg eBook of The Art of War

            This ebook is for the use of anyone anywhere in the United States and
            most other parts of the world at no cost and with almost no restrictions
            whatsoever. You may copy it, give it away or re-use it under the terms
            of the Project Gutenberg License included with this ebook or online
            at www.gutenberg.org. If you are not located in the United States,
            you will have to check the laws of the country where you are located
            before using this eBook.

            Title: The Art of War


            Author: active 6th century B.C. Sunzi
";
    assert_eq!(102, count_words(s));
}

#[test]
fn test_counts_of_empty_buffer_are_zero() {
    assert_eq!(0, count_bytes(""));
    assert_eq!(0, count_lines(""));
    assert_eq!(0, count_words(""));
}

#[test]
fn test_trailing_newline_adds_no_line() {
    assert_eq!(1, count_lines("abc"));
    assert_eq!(1, count_lines("abc\n"));
    assert_eq!(2, count_lines("abc\n\n"));
    assert_eq!(2, count_lines("abc\ndef"));
}

#[test]
fn test_consecutive_whitespace_is_one_separator() {
    assert_eq!(2, count_words("  a\t\tb  "));
    assert_eq!(0, count_words(" \t \n \n"));
    assert_eq!(3, count_words("one\ntwo\n\n three \n"));
}

#[test]
fn test_multibyte_characters_count_as_several_bytes() {
    assert_eq!(2, count_bytes("é"));
    assert_eq!(1, count_words("é"));
    assert_eq!(1, count_lines("é"));
}

#[test]
fn test_counters_are_idempotent() {
    let s = "Hello world!\nsecond line\n";
    assert_eq!(count_bytes(s), count_bytes(s));
    assert_eq!(count_lines(s), count_lines(s));
    assert_eq!(count_words(s), count_words(s));
}
