use pecker::cursor::{project, step_left, step_right};
use pecker::error::ConfigError;
use pecker::text::{fits_screen, Expect, State, TextLines};

fn lines(parts: &[&str]) -> Vec<Vec<u8>> {
    parts.iter().map(|part| part.as_bytes().to_vec()).collect()
}

fn loaded(passage: &str, width: u16) -> TextLines {
    let mut tracker = TextLines::new();
    tracker.reset(Some(passage), width, true).unwrap();
    tracker
}

/// The index that the cursor stands for: the lengths of the rows above it
/// plus its column.
fn cursor_index(tracker: &TextLines) -> usize {
    let (column, row) = tracker.cursor_pos();
    let above: usize = tracker.lines()[..row as usize].iter().map(|line| line.len()).sum();
    above + column as usize
}

#[test]
fn a_new_tracker_holds_the_empty_passage() {
    let mut tracker = TextLines::new();
    assert_eq!(tracker.text(), &b" ".to_vec());
    assert_eq!(tracker.lines(), &lines(&[" "]));
    assert_eq!((tracker.n_hit(), tracker.n_miss()), (0, 0));
    assert_eq!(tracker.cursor_pos(), (0, 0));
    assert_eq!(tracker.state(), State::End);
    assert_eq!(tracker.forward('x'), (State::End, Expect::Softbreak, false));
    assert_eq!(tracker.backward(), (Expect::Softbreak, false));
}

#[test]
fn scenario_break_after_the_first_word() {
    // Eleven columns leave three for the text: the break falls after "ab ".
    let mut tracker = TextLines::new();
    let first = tracker.reset(Some("ab cd"), 11, true);
    assert_eq!(first, Ok(Expect::Char('a', 1)));
    assert_eq!(tracker.text(), &b"ab cd ".to_vec());
    assert_eq!(tracker.lines(), &lines(&["ab ", "cd "]));

    assert_eq!(tracker.forward('a'), (State::Hit, Expect::Char('b', 1), false));
    assert_eq!(tracker.cursor_pos(), (1, 0));
    assert_eq!(tracker.forward('b'), (State::Hit, Expect::Softbreak, false));
    assert_eq!(tracker.cursor_pos(), (2, 0));
    assert!(tracker.is_softbreak());

    // Enter goes on at the soft break, and the cursor wraps.
    assert_eq!(tracker.forward('\n'), (State::Hit, Expect::Char('c', 1), true));
    assert_eq!(tracker.cursor_pos(), (0, 1));
    assert_eq!((tracker.n_hit(), tracker.n_miss()), (3, 0));

    assert_eq!(tracker.forward('x'), (State::Miss, Expect::Backspace(1), false));
    assert_eq!((tracker.n_hit(), tracker.n_miss()), (3, 1));
    assert_eq!(tracker.cursor_pos(), (1, 1));

    assert_eq!(tracker.backward(), (Expect::Char('c', 1), false));
    assert_eq!((tracker.n_hit(), tracker.n_miss()), (3, 0));
    assert_eq!(tracker.cursor_pos(), (0, 1));
    assert_eq!(tracker.state(), State::Hit);
    assert_eq!(tracker.current(), b'c');

    assert_eq!(tracker.forward('c'), (State::Hit, Expect::Char('d', 1), false));
    assert_eq!(tracker.forward('d'), (State::End, Expect::Softbreak, false));
    assert_eq!((tracker.n_hit(), tracker.n_miss()), (5, 0));
    assert_eq!(tracker.cursor_pos(), (2, 1));

    // The delimiter is never typed: on it nothing moves.
    assert_eq!(tracker.forward(' '), (State::End, Expect::Softbreak, false));
    assert_eq!((tracker.n_hit(), tracker.n_miss()), (5, 0));
    assert_eq!(tracker.cursor_pos(), (2, 1));
}

#[test]
fn a_space_goes_on_at_a_soft_break_too() {
    let mut tracker = loaded("ab cd", 11);
    tracker.forward('a');
    tracker.forward('b');
    assert_eq!(tracker.forward(' '), (State::Hit, Expect::Char('c', 1), true));
    assert_eq!(tracker.cursor_pos(), (0, 1));
}

#[test]
fn enter_is_wrong_off_a_soft_break() {
    let mut tracker = loaded("ab cd", 80);
    assert_eq!(tracker.lines(), &lines(&["ab cd "]));
    tracker.forward('a');
    tracker.forward('b');
    assert!(!tracker.at_line_end());
    assert!(!tracker.is_softbreak());
    assert_eq!(tracker.forward('\n'), (State::Miss, Expect::Backspace(1), false));
}

#[test]
fn enter_matches_a_newline_of_the_text() {
    let mut tracker = loaded("ab\ncd", 80);
    assert_eq!(tracker.lines(), &lines(&["ab\n", "cd "]));
    tracker.forward('a');
    assert_eq!(tracker.forward('b'), (State::Hit, Expect::Char('\n', 1), false));
    assert!(tracker.at_line_end());
    assert!(!tracker.is_softbreak());
    assert_eq!(tracker.forward(' '), (State::Miss, Expect::Backspace(1), true));
    assert_eq!(tracker.backward(), (Expect::Char('\n', 1), true));
    assert_eq!(tracker.forward('\n'), (State::Hit, Expect::Char('c', 1), true));
}

#[test]
fn scenario_resize_keeps_the_place() {
    let mut tracker = TextLines::new();
    assert_eq!(tracker.reset(Some("ab cd ef"), 80, true), Ok(Expect::Char('a', 1)));
    assert_eq!(tracker.lines(), &lines(&["ab cd ef "]));
    for key in ['a', 'b', ' ', 'c'] {
        assert_eq!(tracker.forward(key).0, State::Hit);
    }
    assert_eq!(tracker.forward('x').0, State::Miss);
    assert_eq!((tracker.n_hit(), tracker.n_miss()), (4, 1));
    assert_eq!(tracker.cursor_pos(), (5, 0));

    // A narrower screen: three columns of text.
    assert_eq!(tracker.reset(None, 11, true), Ok(Expect::Backspace(1)));
    assert_eq!(tracker.text(), &b"ab cd ef ".to_vec());
    assert_eq!(tracker.lines(), &lines(&["ab ", "cd ", "ef "]));
    assert_eq!((tracker.n_hit(), tracker.n_miss()), (4, 1));
    assert_eq!(tracker.cursor_pos(), (2, 1));
    assert_eq!(cursor_index(&tracker), 5);

    // And back to a wide one.
    assert_eq!(tracker.reset(None, 200, false), Ok(Expect::Backspace(1)));
    assert_eq!(tracker.lines(), &lines(&["ab cd ef "]));
    assert_eq!((tracker.n_hit(), tracker.n_miss()), (4, 1));
    assert_eq!(tracker.cursor_pos(), (5, 0));
    assert!(!tracker.align_center());
}

#[test]
fn a_resize_onto_a_soft_break_expects_it() {
    let mut tracker = loaded("ab cd", 80);
    tracker.forward('a');
    tracker.forward('b');
    assert_eq!(tracker.expect(), Expect::Char(' ', 1));
    assert_eq!(tracker.reset(None, 11, true), Ok(Expect::Softbreak));
    assert_eq!(tracker.cursor_pos(), (2, 0));
}

#[test]
fn loading_a_passage_starts_over() {
    let mut tracker = loaded("ab cd", 11);
    tracker.forward('a');
    tracker.forward('x');
    assert_eq!(tracker.reset(Some("xyz"), 80, false), Ok(Expect::Char('x', 1)));
    assert_eq!(tracker.text(), &b"xyz ".to_vec());
    assert_eq!(tracker.lines(), &lines(&["xyz "]));
    assert_eq!((tracker.n_hit(), tracker.n_miss()), (0, 0));
    assert_eq!(tracker.cursor_pos(), (0, 0));
}

#[test]
fn the_wrap_width_follows_the_length_of_the_text() {
    // Forty-four bytes with the delimiter: the root, rounded up, is seven,
    // and twenty more make twenty-seven columns.
    let tracker = loaded("the quick brown fox jumps over the lazy dog", 200);
    assert_eq!(
        tracker.lines(),
        &lines(&["the quick brown fox jumps ", "over the lazy dog "])
    );
    // On a narrow screen the margin decides: eighteen columns less eight.
    let tracker = loaded("the quick brown fox jumps over the lazy dog", 18);
    assert_eq!(
        tracker.lines(),
        &lines(&["the quick ", "brown fox ", "jumps over ", "the lazy ", "dog "])
    );
}

#[test]
fn leading_spaces_of_a_line_are_free() {
    let mut tracker = loaded("ab\n cd", 80);
    assert_eq!(tracker.lines(), &lines(&["ab\n", " cd "]));
    tracker.forward('a');
    tracker.forward('b');
    // The newline is typed; the space that begins the next line is passed.
    assert_eq!(tracker.forward('\n'), (State::Hit, Expect::Char('c', 1), false));
    assert_eq!((tracker.n_hit(), tracker.n_miss()), (4, 0));
    assert_eq!(tracker.cursor_pos(), (1, 1));
}

#[test]
fn a_line_of_spaces_is_passed_whole() {
    // Ten columns leave two for the text.
    let mut tracker = loaded("ab  cd", 10);
    assert_eq!(tracker.lines(), &lines(&["ab ", " ", "cd "]));
    tracker.forward('a');
    tracker.forward('b');
    assert_eq!(tracker.forward(' '), (State::Hit, Expect::Char('c', 1), true));
    assert_eq!((tracker.n_hit(), tracker.n_miss()), (4, 0));
    assert_eq!(tracker.cursor_pos(), (0, 2));
    assert_eq!(cursor_index(&tracker), 4);
}

#[test]
fn free_spaces_stop_at_the_delimiter() {
    let mut tracker = loaded("ab ", 10);
    assert_eq!(tracker.text(), &b"ab  ".to_vec());
    assert_eq!(tracker.lines(), &lines(&["ab ", " "]));
    tracker.forward('a');
    tracker.forward('b');
    assert_eq!(tracker.forward(' '), (State::End, Expect::Softbreak, true));
    assert_eq!((tracker.n_hit(), tracker.n_miss()), (3, 0));
    assert_eq!(tracker.cursor_pos(), (0, 1));
    // Nothing moves now, so nothing has to be painted again.
    assert_eq!(tracker.forward(' '), (State::End, Expect::Softbreak, false));
}

#[test]
fn no_space_is_free_while_a_miss_is_outstanding() {
    let mut tracker = loaded("ab\n cd", 80);
    tracker.forward('a');
    tracker.forward('b');
    assert_eq!(tracker.forward('x'), (State::Miss, Expect::Backspace(1), true));
    assert_eq!((tracker.n_hit(), tracker.n_miss()), (2, 1));
    assert_eq!(tracker.cursor_pos(), (0, 1));
    assert_eq!(tracker.forward('c'), (State::Miss, Expect::Backspace(2), false));
    assert_eq!(tracker.cursor_pos(), (1, 1));
}

#[test]
fn repeats_are_counted_from_the_cursor() {
    let mut tracker = loaded("aaab", 80);
    assert_eq!(tracker.count_repeat(), 3);
    assert_eq!(tracker.expect(), Expect::Char('a', 3));
    assert_eq!(tracker.forward('a'), (State::Hit, Expect::Char('a', 2), false));
    assert_eq!(tracker.forward('a'), (State::Hit, Expect::Char('a', 1), false));
    assert_eq!(tracker.forward('a'), (State::Hit, Expect::Char('b', 1), false));
    assert_eq!(tracker.count_repeat(), 1);
}

#[test]
fn repeats_of_spaces_end_with_the_text() {
    let mut tracker = loaded("a  ", 80);
    assert_eq!(tracker.text(), &b"a   ".to_vec());
    assert_eq!(tracker.forward('a'), (State::Hit, Expect::Char(' ', 3), false));
    assert_eq!(tracker.count_repeat(), 3);
}

#[test]
fn misses_pile_up_to_the_delimiter() {
    let mut tracker = loaded("ab", 80);
    assert_eq!(tracker.forward('x'), (State::Miss, Expect::Backspace(1), false));
    assert_eq!(tracker.forward('b'), (State::Miss, Expect::Backspace(2), false));
    // The index is on the delimiter: further keys change nothing.
    assert_eq!(tracker.forward('y'), (State::Miss, Expect::Backspace(2), false));
    assert_eq!((tracker.n_hit(), tracker.n_miss()), (0, 2));
    assert_eq!(tracker.cursor_pos(), (2, 0));
}

#[test]
fn the_end_needs_every_miss_taken_back() {
    let mut tracker = loaded("ab", 80);
    tracker.forward('a');
    assert_eq!(tracker.forward('x').0, State::Miss);
    assert_eq!(tracker.index(), 2);
    assert_eq!(tracker.forward('b').0, State::Miss);
    assert_eq!(tracker.backward(), (Expect::Char('b', 1), false));
    assert_eq!(tracker.forward('b'), (State::End, Expect::Softbreak, false));
    assert_eq!(tracker.n_miss(), 0);
    assert_eq!(tracker.index(), tracker.text().len() - 1);
}

#[test]
fn backspace_never_takes_a_hit_back() {
    let mut tracker = loaded("abcd", 80);
    tracker.forward('a');
    tracker.forward('b');
    for _ in 0..5 {
        assert_eq!(tracker.backward(), (Expect::Char('c', 1), false));
        assert_eq!((tracker.n_hit(), tracker.n_miss()), (2, 0));
    }
    tracker.forward('x');
    tracker.forward('y');
    assert_eq!((tracker.n_hit(), tracker.n_miss()), (2, 2));
    assert_eq!(tracker.backward(), (Expect::Backspace(1), false));
    assert_eq!((tracker.n_hit(), tracker.n_miss()), (2, 1));
    assert_eq!(tracker.backward(), (Expect::Char('c', 1), false));
    assert_eq!((tracker.n_hit(), tracker.n_miss()), (2, 0));
    assert_eq!(tracker.backward(), (Expect::Char('c', 1), false));
    assert_eq!((tracker.n_hit(), tracker.n_miss()), (2, 0));
}

#[test]
fn backspace_over_a_line_start_asks_for_a_repaint() {
    let mut tracker = loaded("ab cd", 11);
    tracker.forward('a');
    tracker.forward('x');
    assert_eq!(tracker.forward('y'), (State::Miss, Expect::Backspace(2), true));
    assert_eq!(tracker.cursor_pos(), (0, 1));
    assert_eq!(tracker.forward('z'), (State::Miss, Expect::Backspace(3), false));
    assert_eq!(tracker.cursor_pos(), (1, 1));
    assert_eq!(tracker.backward(), (Expect::Backspace(2), false));
    assert_eq!(tracker.cursor_pos(), (0, 1));
    assert_eq!(tracker.backward(), (Expect::Backspace(1), true));
    assert_eq!(tracker.cursor_pos(), (2, 0));
    assert_eq!(tracker.backward(), (Expect::Char('b', 1), false));
    assert_eq!(tracker.cursor_pos(), (1, 0));
}

#[test]
fn mistakes_are_undone_by_as_many_backspaces() {
    for wrong in 0..8usize {
        let mut tracker = loaded("ab cd ef", 11);
        tracker.forward('a');
        tracker.forward('b');
        let before = (
            tracker.n_hit(),
            tracker.n_miss(),
            tracker.cursor_pos(),
            tracker.expect(),
        );
        for _ in 0..wrong {
            assert_eq!(tracker.forward('#').0, State::Miss);
        }
        for _ in 0..wrong {
            tracker.backward();
        }
        let after = (
            tracker.n_hit(),
            tracker.n_miss(),
            tracker.cursor_pos(),
            tracker.expect(),
        );
        assert_eq!(before, after);
        assert_eq!(after.1, 0);
    }
}

#[test]
fn the_cursor_follows_the_index() {
    let mut tracker = loaded("the quick brown fox\njumps  over the lazy dog", 18);
    let keys = "the quxx";
    for key in keys.chars() {
        tracker.forward(key);
        assert_eq!(cursor_index(&tracker), tracker.n_hit() + tracker.n_miss());
    }
    for _ in 0..3 {
        tracker.backward();
        assert_eq!(cursor_index(&tracker), tracker.n_hit() + tracker.n_miss());
    }
    for key in "ick brown fox\njumps over the lazy dog and more".chars() {
        let (state, _, _) = tracker.forward(key);
        assert_eq!(cursor_index(&tracker), tracker.n_hit() + tracker.n_miss());
        assert_eq!(tracker.index(), tracker.n_hit() + tracker.n_miss());
        if state == State::End {
            assert_eq!(tracker.n_miss(), 0);
            assert_eq!(tracker.index(), tracker.text().len() - 1);
        }
    }
    tracker.reset(None, 40, true).unwrap();
    assert_eq!(cursor_index(&tracker), tracker.n_hit() + tracker.n_miss());
}

#[test]
fn typing_the_passage_through_ends_it() {
    let passage = "the quick brown fox jumps over the lazy dog";
    let mut tracker = loaded(passage, 18);
    let mut last = State::Hit;
    for key in passage.chars() {
        assert_eq!(last, State::Hit);
        last = tracker.forward(key).0;
    }
    assert_eq!(last, State::End);
    assert_eq!(tracker.n_hit(), passage.len());
    assert_eq!(tracker.state(), State::End);
}

#[test]
fn a_key_that_only_looks_alike_is_wrong() {
    // U+0161 ends in the byte of 'a'; it is still not an 'a'.
    let mut tracker = loaded("ab", 80);
    assert_eq!(tracker.forward('\u{161}').0, State::Miss);
}

#[test]
fn a_screen_no_wider_than_the_margin_is_refused() {
    let mut tracker = loaded("ab cd", 11);
    tracker.forward('a');
    for width in [0u16, 7, 8] {
        assert_eq!(tracker.reset(None, width, true), Err(ConfigError::ScreenTooNarrow));
        assert_eq!(tracker.reset(Some("xyz"), width, true), Err(ConfigError::ScreenTooNarrow));
        assert_eq!(tracker.text(), &b"ab cd ".to_vec());
        assert_eq!(tracker.lines(), &lines(&["ab ", "cd "]));
        assert_eq!((tracker.n_hit(), tracker.n_miss()), (1, 0));
        assert_eq!(tracker.cursor_pos(), (1, 0));
    }
    assert_eq!(tracker.reset(None, 9, true), Ok(Expect::Char('b', 1)));
}

#[test]
fn lines_beyond_screen_coordinates_are_refused() {
    let mut tracker = loaded("ab", 80);
    let long = "a".repeat(65_536);
    assert_eq!(tracker.reset(Some(&long), 80, true), Err(ConfigError::TextTooLarge));
    assert_eq!(tracker.text(), &b"ab ".to_vec());
    // One byte less, and the line with its delimiter can be addressed.
    let fitting = "a".repeat(65_535);
    assert_eq!(tracker.reset(Some(&fitting), 80, true), Ok(Expect::Char('a', 65_535)));
    // Beside a margin of eight columns there is less room.
    assert_eq!(tracker.reset(Some(&fitting), 80, false), Err(ConfigError::TextTooLarge));
    let fitting = "a".repeat(65_527);
    assert_eq!(tracker.reset(Some(&fitting), 80, false), Ok(Expect::Char('a', 65_527)));
}

#[test]
fn too_many_lines_are_refused() {
    let mut tracker = TextLines::new();
    let many = "\n".repeat(65_536);
    assert_eq!(tracker.reset(Some(&many), 80, true), Err(ConfigError::TextTooLarge));
    let many = "\n".repeat(65_535);
    assert!(tracker.reset(Some(&many), 80, true).is_ok());
    assert_eq!(tracker.lines().len(), 65_536);
    assert_eq!(tracker.reset(None, 80, false), Err(ConfigError::TextTooLarge));
    assert!(tracker.align_center());
}

#[test]
fn fitting_is_told_from_the_lines() {
    assert!(fits_screen(&lines(&["ab ", "cd "]), true));
    assert!(fits_screen(&lines(&["ab ", "cd "]), false));
    assert!(fits_screen(&vec![vec![b'a'; 65_536]], true));
    assert!(!fits_screen(&vec![vec![b'a'; 65_537]], true));
    assert!(fits_screen(&vec![vec![b'a'; 65_528]], false));
    assert!(!fits_screen(&vec![vec![b'a'; 65_529]], false));
    assert!(fits_screen(&vec![vec![b'a']; 65_532], false));
    assert!(!fits_screen(&vec![vec![b'a']; 65_533], false));
}

#[test]
fn an_index_is_projected_into_the_lines() {
    let all = lines(&["ab ", " ", "cd "]);
    assert_eq!(project(&all, 0), (0, 0));
    assert_eq!(project(&all, 2), (2, 0));
    assert_eq!(project(&all, 3), (0, 1));
    assert_eq!(project(&all, 4), (0, 2));
    assert_eq!(project(&all, 6), (2, 2));
}

#[test]
fn steps_cross_line_ends() {
    let all = lines(&["ab ", " ", "cd "]);
    assert_eq!(step_right(&all, (0, 0)), (1, 0));
    assert_eq!(step_right(&all, (2, 0)), (0, 1));
    assert_eq!(step_right(&all, (0, 1)), (0, 2));
    assert_eq!(step_left(&all, (0, 2)), (0, 1));
    assert_eq!(step_left(&all, (0, 1)), (2, 0));
    assert_eq!(step_left(&all, (2, 0)), (1, 0));
}

#[test]
fn the_default_tracker_is_a_new_one() {
    let mut tracker = TextLines::default();
    assert_eq!(tracker.text(), &b" ".to_vec());
    assert_eq!(tracker.lines(), &lines(&[" "]));
    assert_eq!(tracker.cursor_pos(), (0, 0));
    assert!(!tracker.align_center());
    // The empty passage can be laid out again like any other.
    assert_eq!(tracker.reset(None, 80, true), Ok(Expect::Softbreak));
    assert_eq!(tracker.lines(), &lines(&[" "]));
    assert!(tracker.align_center());
    assert_eq!(tracker.reset(Some(""), 80, false), Ok(Expect::Softbreak));
    assert_eq!(tracker.text(), &b" ".to_vec());
    assert_eq!(tracker.state(), State::End);
}
