use pecker::wrap::{text_width, wrap_string};

fn lines(parts: &[&str]) -> Vec<Vec<u8>> {
    parts.iter().map(|part| part.as_bytes().to_vec()).collect()
}

fn joined(lines: &[Vec<u8>]) -> Vec<u8> {
    let mut all = Vec::new();
    for line in lines {
        all.extend_from_slice(line);
    }
    all
}

#[test]
fn breaks_before_the_word_that_does_not_fit() {
    assert_eq!(wrap_string(b"ab cd ", 3), lines(&["ab ", "cd "]));
    assert_eq!(wrap_string(b"ab cd ", 4), lines(&["ab ", "cd "]));
}

#[test]
fn keeps_a_word_that_just_fits() {
    // The words and the space between them take five columns; the separator
    // after the last word is not counted against the width.
    assert_eq!(wrap_string(b"ab cd ", 5), lines(&["ab cd "]));
    assert_eq!(wrap_string(b"ab cd ", 23), lines(&["ab cd "]));
}

#[test]
fn fills_lines_greedily() {
    assert_eq!(
        wrap_string(b"the quick brown fox jumps ", 10),
        lines(&["the quick ", "brown fox ", "jumps "])
    );
    assert_eq!(
        wrap_string(b"the quick brown fox jumps ", 9),
        lines(&["the quick ", "brown fox ", "jumps "])
    );
    assert_eq!(
        wrap_string(b"the quick brown fox jumps ", 8),
        lines(&["the ", "quick ", "brown ", "fox ", "jumps "])
    );
}

#[test]
fn a_newline_ends_its_line() {
    assert_eq!(wrap_string(b"ab\ncd ", 20), lines(&["ab\n", "cd "]));
    assert_eq!(wrap_string(b"a\n\nb ", 20), lines(&["a\n", "\n", "b "]));
}

#[test]
fn a_long_word_has_a_line_to_itself() {
    assert_eq!(
        wrap_string(b"a incomprehensibilities b ", 5),
        lines(&["a ", "incomprehensibilities ", "b "])
    );
}

#[test]
fn a_long_first_word_leaves_no_empty_line() {
    assert_eq!(wrap_string(b"hello ", 3), lines(&["hello "]));
    assert_eq!(wrap_string(b"hello you ", 3), lines(&["hello ", "you "]));
}

#[test]
fn width_zero_gives_a_word_per_line() {
    assert_eq!(wrap_string(b"a b ", 0), lines(&["a ", "b "]));
}

#[test]
fn spaces_in_a_row_are_words_of_no_length() {
    assert_eq!(wrap_string(b"a  b ", 10), lines(&["a  b "]));
    assert_eq!(wrap_string(b"a  b ", 1), lines(&["a ", " ", "b "]));
    assert_eq!(wrap_string(b"ab  cd ", 2), lines(&["ab ", " ", "cd "]));
}

#[test]
fn text_without_a_last_separator() {
    assert_eq!(wrap_string(b"ab cd", 3), lines(&["ab ", "cd"]));
    assert_eq!(wrap_string(b"ab", 1), lines(&["ab"]));
}

#[test]
fn the_empty_text_has_no_lines() {
    assert_eq!(wrap_string(b"", 10), Vec::<Vec<u8>>::new());
}

#[test]
fn a_lone_delimiter_is_one_line() {
    assert_eq!(wrap_string(b" ", 0), lines(&[" "]));
    assert_eq!(wrap_string(b" ", 10), lines(&[" "]));
}

#[test]
fn joining_the_lines_gives_the_text_back() {
    let texts: [&[u8]; 6] = [
        b"ab cd ",
        b"the quick brown fox jumps over the lazy dog ",
        b"one\ntwo\n\nthree  four ",
        b"   ",
        b"incomprehensibilities ",
        b"no separator at the end",
    ];
    for text in texts {
        for width in 0..30u16 {
            let wrapped = wrap_string(text, width);
            assert_eq!(joined(&wrapped), text.to_vec());
            assert!(wrapped.iter().all(|line| !line.is_empty()));
        }
    }
}

#[test]
fn every_line_but_the_last_ends_with_a_separator() {
    let text = b"the quick brown fox\njumps over the lazy dog ";
    for width in 0..30u16 {
        let wrapped = wrap_string(text, width);
        for line in &wrapped[..wrapped.len() - 1] {
            let last = *line.last().unwrap();
            assert!(last == b' ' || last == b'\n');
        }
    }
}

#[test]
fn lines_keep_to_the_width_unless_a_word_is_longer() {
    let text = b"the quick brown fox jumps over the lazy dog ";
    for width in 5..30u16 {
        for line in wrap_string(text, width) {
            // Every word here has at most five letters, so what stands
            // before the last separator of a line fits.
            assert!(line.len() - 1 <= width as usize);
        }
    }
}

#[test]
fn width_is_the_rounded_up_root_plus_slack() {
    assert_eq!(text_width(0, 80), 20);
    assert_eq!(text_width(1, 80), 21);
    assert_eq!(text_width(6, 80), 23);
    assert_eq!(text_width(16, 80), 24);
    assert_eq!(text_width(17, 80), 25);
    assert_eq!(text_width(2500, 200), 70);
    assert_eq!(text_width(2501, 200), 71);
}

#[test]
fn width_stops_at_the_screen_less_its_margin() {
    assert_eq!(text_width(10_000, 80), 72);
    assert_eq!(text_width(6, 30), 22);
    assert_eq!(text_width(6, 31), 23);
    assert_eq!(text_width(6, 32), 23);
    assert_eq!(text_width(6, 9), 1);
    assert_eq!(text_width(6, 8), 0);
    assert_eq!(text_width(usize::MAX, u16::MAX), u16::MAX - 8);
}
