use falconcore::highlight::{highlight_syntax, replace_chars};

#[test]
fn highlight_colours_keywords_and_assign() {
    assert_eq!(
        highlight_syntax("secure let x = 1"),
        "\x1b[1;34msecure\x1b[0m \x1b[1;34mlet\x1b[0m x \x1b[1;31m=\x1b[0m 1"
    );
}

#[test]
fn highlight_print_is_painted_twice_and_quotes_yellow() {
    assert_eq!(
        highlight_syntax("print \"hi\""),
        "\x1b[1;34m\x1b[1;32mprint\x1b[0m\x1b[0m \x1b[1;33m\"\x1b[0mhi\x1b[1;33m\"\x1b[0m"
    );
}

#[test]
fn highlight_leaves_plain_text() {
    assert_eq!(highlight_syntax("x"), "x");
    assert_eq!(highlight_syntax(""), "");
}

#[test]
fn replace_is_left_to_right_without_overlap() {
    let s: Vec<char> = "aaa".chars().collect();
    let pat: Vec<char> = "aa".chars().collect();
    let rep: Vec<char> = "b".chars().collect();
    assert_eq!(replace_chars(&s, &pat, &rep), vec!['b', 'a']);
    let empty: Vec<char> = vec![];
    assert_eq!(replace_chars(&s, &empty, &rep), s);
}
