use ccwc::format_counts;
use ccwc::output::usize_to_string;
use ccwc::Config;

fn config(path: &str, bytes: bool, lines: bool, words: bool) -> Config {
    Config {
        file_path: path.to_string(),
        bytes_arg: bytes,
        lines_arg: lines,
        words_arg: words,
    }
}

#[test]
fn test_decimal_rendering() {
    assert_eq!(usize_to_string(0), "0");
    assert_eq!(usize_to_string(7), "7");
    assert_eq!(usize_to_string(10), "10");
    assert_eq!(usize_to_string(120), "120");
    assert_eq!(usize_to_string(98765), "98765");
}

#[test]
fn test_output_line_all_flags() {
    let c = config("test.txt", true, true, true);
    let out = format_counts(&c, "Hello world!\n");
    assert_eq!(out, "13 1 2 test.txt");
}

#[test]
fn test_output_line_subset_of_flags() {
    let c = config("poem.txt", false, true, false);
    let out = format_counts(&c, "a b\nc\n");
    assert_eq!(out, "2 poem.txt");

    let c = config("poem.txt", true, false, true);
    let out = format_counts(&c, "a b\nc\n");
    assert_eq!(out, "6 3 poem.txt");
}

#[test]
fn test_output_line_no_flags_is_just_the_path() {
    let c = config("bare.txt", false, false, false);
    let out = format_counts(&c, "anything at all");
    assert_eq!(out, "bare.txt");
}
