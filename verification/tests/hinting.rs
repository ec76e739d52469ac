use pecker::layout::{to_decimal, Layout, Place};
use pecker::screen::{Command, MainScreen, Style};
use pecker::text::Expect;

fn text(content: &str, style: Style) -> Command {
    Command::Text(content.as_bytes().to_vec(), style)
}

fn place(col: i16, row: i16, shift: bool) -> Place {
    Place { col, row, shift }
}

/// What wiping the hint queues on a screen of eighty columns and
/// twenty-four rows.
fn wiped() -> Vec<Command> {
    let blank = " ".repeat(80);
    let mut ops = Vec::new();
    for row in [17u16, 16, 15, 14, 13, 19] {
        ops.push(Command::MoveTo(0, row));
        ops.push(text(&blank, Style::Blank));
    }
    ops
}

/// A finger at rest: two upright segments and the tip, then back to the
/// foot.
fn resting() -> Vec<Command> {
    vec![
        text("| |", Style::Blank),
        Command::MoveLeft(3),
        Command::MoveUp(1),
        text("| |", Style::Blank),
        Command::MoveLeft(3),
        Command::MoveUp(1),
        text(" \u{2312} ", Style::Blank),
        Command::MoveLeft(2),
        Command::MoveLeft(1),
        Command::MoveDown(2),
    ]
}

/// A hand of which no finger moves.
fn resting_hand(step: Command) -> Vec<Command> {
    let mut ops = Vec::new();
    for _ in 0..4 {
        ops.push(step.clone());
        ops.extend(resting());
    }
    ops
}

fn hint(expect: Expect) -> Vec<Command> {
    let layout = Layout::new();
    let mut screen = MainScreen::new(80, 24);
    layout.redraw(&mut screen, expect);
    screen.take()
}

/// The whole hint, put together from what is drawn between the wiping and
/// the end.
fn framed(left: Vec<Command>, right: Vec<Command>, thumbs: Vec<Command>) -> Vec<Command> {
    let mut ops = vec![Command::SavePosition];
    ops.extend(wiped());
    ops.push(Command::MoveTo(36, 17));
    ops.extend(left);
    ops.push(Command::MoveTo(42, 17));
    ops.extend(right);
    ops.extend(thumbs);
    ops.push(Command::RestorePosition);
    ops.push(Command::Flush);
    ops
}

#[test]
fn keys_lie_where_the_keyboard_has_them() {
    let layout = Layout::new();
    assert_eq!(layout.place(' '), place(0, 0, false));
    assert_eq!(layout.place('5'), place(-1, 0, false));
    assert_eq!(layout.place('`'), place(-6, 0, false));
    assert_eq!(layout.place('t'), place(-1, 1, false));
    assert_eq!(layout.place('\t'), place(-6, 1, false));
    assert_eq!(layout.place('a'), place(-5, 2, false));
    assert_eq!(layout.place('f'), place(-2, 2, false));
    assert_eq!(layout.place('z'), place(-5, 3, false));
    assert_eq!(layout.place('6'), place(1, 0, false));
    assert_eq!(layout.place('\x08'), place(8, 0, false));
    assert_eq!(layout.place('\\'), place(8, 1, false));
    assert_eq!(layout.place('j'), place(2, 2, false));
    assert_eq!(layout.place('\n'), place(7, 2, false));
    assert_eq!(layout.place('/'), place(5, 3, false));
}

#[test]
fn shifted_keys_lie_on_their_keys() {
    let layout = Layout::new();
    assert_eq!(layout.place('%'), place(-1, 0, true));
    assert_eq!(layout.place('~'), place(-6, 0, true));
    assert_eq!(layout.place('A'), place(-5, 2, true));
    assert_eq!(layout.place('Z'), place(-5, 3, true));
    assert_eq!(layout.place('^'), place(1, 0, true));
    assert_eq!(layout.place('+'), place(7, 0, true));
    assert_eq!(layout.place('|'), place(8, 1, true));
    assert_eq!(layout.place('"'), place(6, 2, true));
    assert_eq!(layout.place('?'), place(5, 3, true));
}

#[test]
fn every_letter_and_digit_has_a_place() {
    let layout = Layout::new();
    let nowhere = place(0, -1, false);
    for c in ('a'..='z').chain('A'..='Z').chain('0'..='9') {
        let found = layout.place(c);
        assert_ne!(found, nowhere);
        assert!(found.col != 0 && -6 <= found.col && found.col <= 8);
        assert!(0 <= found.row && found.row <= 3);
        assert_eq!(found.shift, c.is_ascii_uppercase());
    }
    for (lower, upper) in ('a'..='z').zip('A'..='Z') {
        let (low, up) = (layout.place(lower), layout.place(upper));
        assert_eq!((low.col, low.row), (up.col, up.row));
    }
}

#[test]
fn a_key_that_the_keyboard_lacks_lies_nowhere() {
    let layout = Layout::new();
    assert_eq!(layout.place('\u{e9}'), place(0, -1, false));
    assert_eq!(layout.place('\u{23CE}'), place(0, -1, false));
    assert_eq!(layout.place('\r'), place(0, -1, false));
}

#[test]
fn counts_are_written_in_decimal() {
    assert_eq!(to_decimal(0), b"0".to_vec());
    assert_eq!(to_decimal(7), b"7".to_vec());
    assert_eq!(to_decimal(10), b"10".to_vec());
    assert_eq!(to_decimal(65_535), b"65535".to_vec());
    assert_eq!(to_decimal(1_002_003), b"1002003".to_vec());
    assert_eq!(to_decimal(usize::MAX), usize::MAX.to_string().into_bytes());
}

#[test]
fn a_home_key_moves_its_finger_upright() {
    // 'f' lies in the second column of the left hand, third row: the index
    // finger takes it, two segments long.
    let mut left = vec![
        Command::MoveLeft(5),
        text("| |", Style::KeyHint),
        Command::MoveLeft(3),
        Command::MoveUp(1),
        text("| |", Style::KeyHint),
        Command::MoveLeft(3),
        Command::MoveUp(1),
        text(" \u{2312} ", Style::KeyHint),
        Command::MoveLeft(2),
        Command::MoveLeft(1),
        Command::MoveDown(2),
    ];
    for _ in 0..3 {
        left.push(Command::MoveLeft(5));
        left.extend(resting());
    }
    let right = resting_hand(Command::MoveRight(5));
    assert_eq!(hint(Expect::Char('f', 1)), framed(left, right, vec![]));
}

#[test]
fn a_key_beside_the_home_column_makes_the_finger_lean() {
    // 't' lies next to the gap, second row: the left index finger leans
    // right, three segments long.
    let mut left = vec![Command::MoveLeft(5)];
    for _ in 0..3 {
        left.push(text("/ /", Style::KeyHint));
        left.push(Command::MoveLeft(2));
        left.push(Command::MoveUp(1));
    }
    left.extend([
        text(" \u{2312} ", Style::KeyHint),
        Command::MoveLeft(2),
        Command::MoveLeft(4),
        Command::MoveDown(3),
    ]);
    for _ in 0..3 {
        left.push(Command::MoveLeft(5));
        left.extend(resting());
    }
    let right = resting_hand(Command::MoveRight(5));
    assert_eq!(hint(Expect::Char('t', 1)), framed(left, right, vec![]));
}

#[test]
fn backspace_is_far_out_for_the_little_finger() {
    // Backspace ends the top row of the right hand, three columns beyond
    // the little finger's own: it leans right from a foot moved four columns
    // on, four segments long, and carries the count.
    let left = resting_hand(Command::MoveLeft(5));
    let mut right = Vec::new();
    for _ in 0..3 {
        right.push(Command::MoveRight(5));
        right.extend(resting());
    }
    right.push(Command::MoveRight(5));
    right.push(Command::MoveRight(4));
    for _ in 0..4 {
        right.push(text("/ /", Style::UndoHint));
        right.push(Command::MoveLeft(2));
        right.push(Command::MoveUp(1));
    }
    right.extend([
        text(" \u{2312} ", Style::UndoHint),
        Command::MoveLeft(2),
        text("3", Style::UndoHint),
        Command::MoveLeft(1),
        Command::MoveLeft(9),
        Command::MoveDown(4),
    ]);
    assert_eq!(hint(Expect::Backspace(3)), framed(left, right, vec![]));
}

#[test]
fn a_single_backspace_carries_no_count() {
    let ops = hint(Expect::Backspace(1));
    assert!(!ops.contains(&text("1", Style::UndoHint)));
    assert_eq!(
        ops.iter().filter(|op| **op == text("/ /", Style::UndoHint)).count(),
        4
    );
}

#[test]
fn a_capital_moves_the_other_little_finger_to_shift() {
    // 'A' is the little finger's own key on the left; the right little
    // finger leans out to shift, one segment long.
    let mut left = Vec::new();
    for _ in 0..3 {
        left.push(Command::MoveLeft(5));
        left.extend(resting());
    }
    left.extend([
        Command::MoveLeft(5),
        text("| |", Style::KeyHint),
        Command::MoveLeft(3),
        Command::MoveUp(1),
        text("| |", Style::KeyHint),
        Command::MoveLeft(3),
        Command::MoveUp(1),
        text(" \u{2312} ", Style::KeyHint),
        Command::MoveLeft(2),
        Command::MoveLeft(1),
        Command::MoveDown(2),
    ]);
    let mut right = Vec::new();
    for _ in 0..3 {
        right.push(Command::MoveRight(5));
        right.extend(resting());
    }
    right.extend([
        Command::MoveRight(5),
        text("/ /", Style::KeyHint),
        Command::MoveLeft(2),
        Command::MoveUp(1),
        text(" \u{2312} ", Style::KeyHint),
        Command::MoveLeft(2),
        Command::MoveLeft(2),
        Command::MoveDown(1),
    ]);
    assert_eq!(hint(Expect::Char('A', 1)), framed(left, right, vec![]));
}

#[test]
fn a_shifted_key_of_the_right_hand_moves_the_left_little_finger() {
    // '?' is the right little finger's own key, bottom row, with shift.
    let mut left = Vec::new();
    for _ in 0..3 {
        left.push(Command::MoveLeft(5));
        left.extend(resting());
    }
    left.extend([
        Command::MoveLeft(5),
        text("\\ \\", Style::KeyHint),
        Command::MoveLeft(4),
        Command::MoveUp(1),
        text(" \u{2312} ", Style::KeyHint),
        Command::MoveLeft(2),
        Command::MoveDown(1),
    ]);
    let mut right = Vec::new();
    for _ in 0..3 {
        right.push(Command::MoveRight(5));
        right.extend(resting());
    }
    right.extend([
        Command::MoveRight(5),
        text("| |", Style::KeyHint),
        Command::MoveLeft(3),
        Command::MoveUp(1),
        text(" \u{2312} ", Style::KeyHint),
        Command::MoveLeft(2),
        Command::MoveLeft(1),
        Command::MoveDown(1),
    ]);
    assert_eq!(hint(Expect::Char('?', 1)), framed(left, right, vec![]));
}

#[test]
fn the_outermost_key_of_the_left_hand_makes_the_little_finger_lean_out() {
    // '`' lies one column beyond the little finger's own, top row.
    let mut left = Vec::new();
    for _ in 0..3 {
        left.push(Command::MoveLeft(5));
        left.extend(resting());
    }
    left.push(Command::MoveLeft(5));
    for _ in 0..4 {
        left.push(text("\\ \\", Style::KeyHint));
        left.push(Command::MoveLeft(4));
        left.push(Command::MoveUp(1));
    }
    left.extend([
        text(" \u{2312} ", Style::KeyHint),
        Command::MoveLeft(2),
        Command::MoveRight(3),
        Command::MoveDown(4),
    ]);
    let right = resting_hand(Command::MoveRight(5));
    assert_eq!(hint(Expect::Char('`', 1)), framed(left, right, vec![]));
}

#[test]
fn a_soft_break_is_for_the_thumbs() {
    let thumbs = vec![Command::MoveTo(38, 19), text("=====", Style::KeyHint)];
    assert_eq!(
        hint(Expect::Softbreak),
        framed(
            resting_hand(Command::MoveLeft(5)),
            resting_hand(Command::MoveRight(5)),
            thumbs.clone()
        )
    );
    assert_eq!(hint(Expect::Char(' ', 1)), hint(Expect::Softbreak));
}

#[test]
fn the_thumbs_carry_the_count_of_spaces() {
    let thumbs = vec![Command::MoveTo(38, 19), text("==12==", Style::KeyHint)];
    assert_eq!(
        hint(Expect::Char(' ', 12)),
        framed(
            resting_hand(Command::MoveLeft(5)),
            resting_hand(Command::MoveRight(5)),
            thumbs
        )
    );
}

#[test]
fn a_repeated_key_carries_its_count_on_the_tip() {
    let ops = hint(Expect::Char('f', 25));
    let tip = ops
        .iter()
        .position(|op| *op == text(" \u{2312} ", Style::KeyHint))
        .unwrap();
    assert_eq!(
        ops[tip..tip + 6],
        [
            text(" \u{2312} ", Style::KeyHint),
            Command::MoveLeft(2),
            text("25", Style::KeyHint),
            Command::MoveLeft(2),
            Command::MoveLeft(1),
            Command::MoveDown(2),
        ]
    );
}

#[test]
fn an_unknown_key_moves_no_finger() {
    assert_eq!(
        hint(Expect::Char('\u{e9}', 1)),
        framed(
            resting_hand(Command::MoveLeft(5)),
            resting_hand(Command::MoveRight(5)),
            vec![]
        )
    );
}

#[test]
fn the_hint_fits_the_smallest_screen_it_asks_for() {
    let layout = Layout::new();
    let mut screen = MainScreen::new(8, 11);
    layout.redraw(&mut screen, Expect::Softbreak);
    let ops = screen.take();
    assert_eq!(ops[0], Command::SavePosition);
    assert_eq!(ops[1], Command::MoveTo(0, 4));
    assert_eq!(ops[2], text("        ", Style::Blank));
    assert_eq!(ops[9], Command::MoveTo(0, 0));
    assert_eq!(ops[11], Command::MoveTo(0, 6));
    assert_eq!(ops[13], Command::MoveTo(0, 4));
    assert!(ops.contains(&Command::MoveTo(6, 4)));
    assert!(ops.contains(&Command::MoveTo(2, 6)));
    assert_eq!(ops[ops.len() - 2..], [Command::RestorePosition, Command::Flush]);
}

#[test]
fn the_default_hint_knows_the_keyboard() {
    let layout = Layout::default();
    assert_eq!(layout.place('q'), place(-5, 1, false));
    assert_eq!(layout.place('p'), place(5, 1, false));
    assert_eq!(layout.place('0'), place(5, 0, false));
}
