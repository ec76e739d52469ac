//! The keyboard hint: two hands drawn under the text, with the finger that
//! has to move next reaching for its key.

use crate::screen::{move_ops, shown, MainScreen, Op, Style};
use crate::text::Expect;
use crate::wrap::SPACE;
use std::collections::HashMap;
use vstd::prelude::*;
use vstd::std_specs::hash::*;
use vstd::string::*;

verus! {

broadcast use vstd::std_specs::hash::group_hash_axioms;

/// The number of columns that the hint needs on the screen.
pub const HINT_COLUMNS: u16 = 8;

/// The number of rows that the hint needs on the screen.
pub const HINT_ROWS: u16 = 11;

/// Where a key lies on the keyboard.
#[derive(Clone, Copy, Debug, PartialEq, Eq, Structural)]
pub struct Place {
    /// The column, counted from the gap between the hands: negative on the
    /// left hand, positive on the right, zero for what the thumbs press.
    pub col: i16,
    /// The row, counted from the digits down.
    pub row: i16,
    /// Whether shift is held for the key.
    pub shift: bool,
}

/// The place that stands for a key that the keyboard does not have.
pub open spec fn nowhere() -> Place {
    Place { col: 0, row: -1i16, shift: false }
}

/// The entries of one row of keys of one hand. `keys` lists the row from
/// the gap between the hands outwards; `side` is -1 for the left hand and 1
/// for the right.
pub open spec fn block(keys: Seq<char>, side: int, row: int, shift: bool) -> Seq<(char, Place)> {
    Seq::new(
        keys.len(),
        |i: int| (keys[i], Place { col: toward(side, i + 1) as i16, row: row as i16, shift }),
    )
}

/// The keys of the left hand.
pub open spec fn left_hand() -> Seq<(char, Place)> {
    block("54321`"@, -1, 0, false) + block("trewq\t"@, -1, 1, false) + block(
        "gfdsa"@,
        -1,
        2,
        false,
    ) + block("bvcxz"@, -1, 3, false)
}

/// The keys of the left hand with shift held.
pub open spec fn left_hand_shifted() -> Seq<(char, Place)> {
    block("%$#@!~"@, -1, 0, true) + block("TREWQ"@, -1, 1, true) + block("GFDSA"@, -1, 2, true)
        + block("BVCXZ"@, -1, 3, true)
}

/// The keys of the right hand. Backspace ends the top row, Enter the third.
pub open spec fn right_hand() -> Seq<(char, Place)> {
    block("67890-=\x08"@, 1, 0, false) + block("yuiop[]\\"@, 1, 1, false) + block(
        "hjkl;'\n"@,
        1,
        2,
        false,
    ) + block("nm,./"@, 1, 3, false)
}

/// The keys of the right hand with shift held.
pub open spec fn right_hand_shifted() -> Seq<(char, Place)> {
    block("^&*()_+"@, 1, 0, true) + block("YUIOP{}|"@, 1, 1, true) + block("HJKL:\""@, 1, 2, true)
        + block("NM<>?"@, 1, 3, true)
}

/// Every key of the keyboard with its place, the space bar first.
pub open spec fn table() -> Seq<(char, Place)> {
    seq![(' ', Place { col: 0, row: 0, shift: false })] + left_hand() + left_hand_shifted()
        + right_hand() + right_hand_shifted()
}

/// The map that holds the entries, a later one replacing an earlier one for
/// the same key.
pub open spec fn filled(entries: Seq<(char, Place)>) -> Map<char, Place>
    decreases entries.len(),
{
    if entries.len() == 0 {
        Map::empty()
    } else {
        filled(entries.drop_last()).insert(entries.last().0, entries.last().1)
    }
}

/// The keyboard: each key of the [`table`] with its place.
pub open spec fn keyboard() -> Map<char, Place> {
    filled(table())
}

/// A place that a finger can be drawn reaching for.
pub open spec fn reachable(place: Place) -> bool {
    -8 <= place.col <= 8 && 0 <= place.row <= 3
}

/// The key that is asked for: the character itself, the space bar at a soft
/// break, or backspace.
pub open spec fn wanted_key(expect: Expect) -> char {
    match expect {
        Expect::Char(c, _) => c,
        Expect::Softbreak => ' ',
        Expect::Backspace(_) => '\x08',
    }
}

/// Whether the key that is asked for goes on with the text, and how many
/// times it is to be pressed.
pub open spec fn wanted_count(expect: Expect) -> (bool, usize) {
    match expect {
        Expect::Char(_, repeat) => (true, repeat),
        Expect::Softbreak => (true, 1),
        Expect::Backspace(repeat) => (false, repeat),
    }
}

/// The place of a key in a map of keys; [`nowhere`] for a key that the map
/// does not have.
pub open spec fn place_of(keys: Map<char, Place>, key: char) -> Place {
    if keys.contains_key(key) {
        keys[key]
    } else {
        nowhere()
    }
}

/// How one finger is drawn.
pub struct Pose {
    /// The finger is the one that moves.
    pub current: bool,
    /// How many segments long the finger is drawn when it moves.
    pub len: u16,
    /// How many columns away from its rest the finger reaches: negative to
    /// the left, positive to the right.
    pub direction: i16,
}

/// `x`, held between `low` and `high`.
pub open spec fn between(x: int, low: int, high: int) -> int {
    if x < low {
        low
    } else if x > high {
        high
    } else {
        x
    }
}

/// `n` columns towards a side: to the left for a negative side, to the
/// right for a positive one, nowhere for zero.
pub open spec fn toward(side: int, n: int) -> int {
    if side < 0 {
        -n
    } else if side > 0 {
        n
    } else {
        0
    }
}

/// The pose of a finger for a key at `place`. `side` is -1 for the left
/// hand and 1 for the right; `finger` counts from the index finger, 0, to
/// the little finger, 3.
///
/// A hand whose side the key is not on moves its little finger if shift is
/// held, and nothing else. On the key's side the finger whose column it is
/// moves: the index finger has the two columns next to the gap, the little
/// finger the outer ones. The farther up the row, the longer the finger.
pub open spec fn pose(side: int, finger: int, place: Place) -> Pose {
    let reach = toward(side, place.col as int);
    if reach <= 0 {
        Pose { current: place.shift && finger == 3, len: 1, direction: side as i16 }
    } else {
        Pose {
            current: between(reach, 2, 5) == finger + 2,
            len: (4 - place.row) as u16,
            direction: toward(side, reach - finger - 2) as i16,
        }
    }
}

/// To which side a finger is drawn leaning: -1, 0 or 1. A finger at rest
/// stands upright.
pub open spec fn lean(pose: Pose) -> int {
    if !pose.current || pose.direction == 0 {
        0
    } else if pose.direction < 0 {
        -1
    } else {
        1
    }
}

/// By how many columns the foot of a finger is moved so that its tip comes
/// to lie over the key.
pub open spec fn foot_shift(pose: Pose) -> int {
    if lean(pose) == 0 {
        0
    } else {
        (pose.direction - lean(pose)) * 2
    }
}

/// The number of segments that a finger is drawn with: its length when it
/// moves, two at rest.
pub open spec fn segments(pose: Pose) -> int {
    if pose.current {
        pose.len as int
    } else {
        2
    }
}

/// One segment of a finger, as text.
pub open spec fn segment_text(lean: int) -> Seq<u8> {
    if lean == 0 {
        "| |".spec_bytes()
    } else if lean < 0 {
        "\\ \\".spec_bytes()
    } else {
        "/ /".spec_bytes()
    }
}

/// The look of a finger: that of the hint when it moves, none at rest.
pub open spec fn finger_style(current: bool, hit: bool) -> Style {
    if current && hit {
        Style::KeyHint
    } else if current {
        Style::UndoHint
    } else {
        Style::Blank
    }
}

/// The decimal digits of `n`, in ASCII.
pub open spec fn decimal(n: nat) -> Seq<u8>
    decreases n,
{
    if n < 10 {
        seq![(0x30 + n) as u8]
    } else {
        decimal(n / 10).push((0x30 + n % 10) as u8)
    }
}

/// What painting one segment of a finger queues: the segment, and a move to
/// where the next one begins, one row up.
pub open spec fn segment_ops(lean: int, style: Style) -> Seq<Op> {
    seq![Op::Text(shown(segment_text(lean)), style)] + move_ops(-3 + lean, -1)
}

/// What painting the segments of a finger queues, from the foot up.
pub open spec fn shaft_ops(count: int, lean: int, style: Style) -> Seq<Op> {
    Seq::new(count as nat, |k: int| segment_ops(lean, style)).flatten()
}

/// What painting the count on a finger's tip queues: nothing for a finger
/// at rest or a single press.
pub open spec fn count_ops(current: bool, style: Style, repeat: usize) -> Seq<Op> {
    if current && repeat > 1 {
        seq![Op::Text(shown(decimal(repeat as nat)), style)] + move_ops(
            -decimal(repeat as nat).len(),
            0,
        )
    } else {
        Seq::empty()
    }
}

/// What painting the tip of a finger queues: the tip, and the count on it.
pub open spec fn tip_ops(current: bool, style: Style, repeat: usize) -> Seq<Op> {
    seq![Op::Text(shown(" \u{2312} ".spec_bytes()), style)] + move_ops(-2, 0) + count_ops(
        current,
        style,
        repeat,
    )
}

/// What drawing one finger queues, from its foot up: the segments, the tip
/// with the count, and the way back to the foot.
pub open spec fn finger_ops(pose: Pose, hit: bool, repeat: usize) -> Seq<Op> {
    let style = finger_style(pose.current, hit);
    move_ops(foot_shift(pose), 0) + shaft_ops(segments(pose), lean(pose), style) + tip_ops(
        pose.current,
        style,
        repeat,
    ) + move_ops(-1 - toward(lean(pose), segments(pose)) - foot_shift(pose), segments(pose))
}

/// What drawing one finger of a hand queues: the step to the finger, five
/// columns on, and the finger.
pub open spec fn step_ops(side: int, finger: int, place: Place, hit: bool, repeat: usize) -> Seq<
    Op,
> {
    move_ops(5 * side, 0) + finger_ops(pose(side, finger, place), hit, repeat)
}

/// What drawing one hand queues: its four fingers, from the index finger
/// outwards.
pub open spec fn hand_ops(side: int, place: Place, hit: bool, repeat: usize) -> Seq<Op> {
    Seq::new(4, |finger: int| step_ops(side, finger, place, hit, repeat)).flatten()
}

/// A row of the screen, blank.
pub open spec fn blank_row(width: u16) -> Seq<u8> {
    Seq::new(width as nat, |i: int| SPACE)
}

/// What wiping one row of the screen queues.
pub open spec fn wipe_row_ops(width: u16, row: int) -> Seq<Op> {
    seq![Op::MoveTo(0, row as u16), Op::Text(shown(blank_row(width)), Style::Blank)]
}

/// What wiping the hint's part of the screen queues: the five rows of the
/// fingers, from their feet up, and the row of the thumbs.
pub open spec fn wipe_ops(width: u16, height: u16) -> Seq<Op> {
    Seq::new(5, |i: int| wipe_row_ops(width, height - 7 - i)).flatten() + wipe_row_ops(
        width,
        height - 5,
    )
}

/// The text on the thumbs: the count between two pairs of bars, a fifth bar
/// for a single press.
pub open spec fn thumb_text(repeat: usize) -> Seq<u8> {
    "==".spec_bytes() + (if repeat > 1 {
        decimal(repeat as nat)
    } else {
        "=".spec_bytes()
    }) + "==".spec_bytes()
}

/// What drawing the thumbs queues: something only for the key in the
/// middle of the bottom row, the space bar.
pub open spec fn thumb_ops(width: u16, height: u16, place: Place, repeat: usize) -> Seq<Op> {
    if place.col == 0 && place.row == 0 {
        seq![
            Op::MoveTo((width / 2 - 2) as u16, (height - 5) as u16),
            Op::Text(shown(thumb_text(repeat)), Style::KeyHint),
        ]
    } else {
        Seq::empty()
    }
}

/// What drawing the whole hint for `expect` queues. The cursor is
/// remembered first and put back at the end.
pub open spec fn hint_ops(keys: Map<char, Place>, width: u16, height: u16, expect: Expect) -> Seq<
    Op,
> {
    let place = place_of(keys, wanted_key(expect));
    let (hit, repeat) = wanted_count(expect);
    seq![Op::SavePosition] + wipe_ops(width, height) + seq![
        Op::MoveTo((width / 2 - 4) as u16, (height - 7) as u16),
    ] + hand_ops(-1, place, hit, repeat) + seq![
        Op::MoveTo((width / 2 + 2) as u16, (height - 7) as u16),
    ] + hand_ops(1, place, hit, repeat) + thumb_ops(width, height, place, repeat) + seq![
        Op::RestorePosition,
        Op::Flush,
    ]
}

/// The keys of a map that is kept by character code, by character.
pub open spec fn by_char(codes: Map<u32, Place>) -> Map<char, Place> {
    Map::new(|c: char| codes.contains_key(c as u32), |c: char| codes[c as u32])
}

/// Entering a key by its code enters it by its character.
proof fn lemma_by_char_insert(codes: Map<u32, Place>, key: char, place: Place)
    ensures
        by_char(codes.insert(key as u32, place)) == by_char(codes).insert(key, place),
{
    let a = by_char(codes.insert(key as u32, place));
    let b = by_char(codes).insert(key, place);
    assert forall|c: char| a.contains_key(c) == b.contains_key(c) by {
        lemma_code_names_char(c, key);
    }
    assert forall|c: char| a.contains_key(c) implies a[c] == b[c] by {
        lemma_code_names_char(c, key);
    }
    assert(a =~= b);
}

/// Two characters with one code are one character.
proof fn lemma_code_names_char(c: char, d: char)
    ensures
        (c as u32 == d as u32) == (c == d),
{
}

/// Every entry has a place that a finger can reach.
pub open spec fn all_reachable(entries: Seq<(char, Place)>) -> bool {
    forall|i: int| 0 <= i < entries.len() ==> reachable((#[trigger] entries[i]).1)
}

proof fn lemma_block_reachable(keys: Seq<char>, side: int, row: int, shift: bool)
    requires
        keys.len() <= 8,
        side == 1 || side == -1,
        0 <= row <= 3,
    ensures
        all_reachable(block(keys, side, row, shift)),
{
}

proof fn lemma_joined_reachable(a: Seq<(char, Place)>, b: Seq<(char, Place)>)
    requires
        all_reachable(a),
        all_reachable(b),
    ensures
        all_reachable(a + b),
{
}

proof fn lemma_filled_reachable(entries: Seq<(char, Place)>)
    requires
        all_reachable(entries),
    ensures
        forall|c: char|
            filled(entries).contains_key(c) ==> reachable(#[trigger] filled(entries)[c]),
    decreases entries.len(),
{
    if entries.len() > 0 {
        assert forall|i: int| 0 <= i < entries.drop_last().len() implies reachable(
            (#[trigger] entries.drop_last()[i]).1,
        ) by {
            assert(entries.drop_last()[i] == entries[i]);
        }
        lemma_filled_reachable(entries.drop_last());
        let last = entries[entries.len() - 1];
        assert(reachable(last.1));
        assert(filled(entries) == filled(entries.drop_last()).insert(last.0, last.1));
        assert forall|c: char| filled(entries).contains_key(c) implies reachable(
            #[trigger] filled(entries)[c],
        ) by {
            if c != last.0 {
                assert(filled(entries.drop_last()).contains_key(c));
                assert(reachable(filled(entries.drop_last())[c]));
            }
        }
    }
}

proof fn lemma_table_reachable()
    ensures
        all_reachable(table()),
{
    reveal_strlit("54321`");
    reveal_strlit("trewq\t");
    reveal_strlit("gfdsa");
    reveal_strlit("bvcxz");
    reveal_strlit("%$#@!~");
    reveal_strlit("TREWQ");
    reveal_strlit("GFDSA");
    reveal_strlit("BVCXZ");
    reveal_strlit("67890-=\x08");
    reveal_strlit("yuiop[]\\");
    reveal_strlit("hjkl;'\n");
    reveal_strlit("nm,./");
    reveal_strlit("^&*()_+");
    reveal_strlit("YUIOP{}|");
    reveal_strlit("HJKL:\"");
    reveal_strlit("NM<>?");
    lemma_block_reachable("54321`"@, -1, 0, false);
    lemma_block_reachable("trewq\t"@, -1, 1, false);
    lemma_block_reachable("gfdsa"@, -1, 2, false);
    lemma_block_reachable("bvcxz"@, -1, 3, false);
    lemma_block_reachable("%$#@!~"@, -1, 0, true);
    lemma_block_reachable("TREWQ"@, -1, 1, true);
    lemma_block_reachable("GFDSA"@, -1, 2, true);
    lemma_block_reachable("BVCXZ"@, -1, 3, true);
    lemma_block_reachable("67890-=\x08"@, 1, 0, false);
    lemma_block_reachable("yuiop[]\\"@, 1, 1, false);
    lemma_block_reachable("hjkl;'\n"@, 1, 2, false);
    lemma_block_reachable("nm,./"@, 1, 3, false);
    lemma_block_reachable("^&*()_+"@, 1, 0, true);
    lemma_block_reachable("YUIOP{}|"@, 1, 1, true);
    lemma_block_reachable("HJKL:\""@, 1, 2, true);
    lemma_block_reachable("NM<>?"@, 1, 3, true);
    assert(all_reachable(left_hand()));
    assert(all_reachable(left_hand_shifted()));
    assert(all_reachable(right_hand()));
    assert(all_reachable(right_hand_shifted()));
    let first = seq![(' ', Place { col: 0, row: 0, shift: false })];
    assert(all_reachable(first));
    lemma_joined_reachable(first, left_hand());
    lemma_joined_reachable(first + left_hand(), left_hand_shifted());
    lemma_joined_reachable(first + left_hand() + left_hand_shifted(), right_hand());
    lemma_joined_reachable(
        first + left_hand() + left_hand_shifted() + right_hand(),
        right_hand_shifted(),
    );
}

/// Every key of the keyboard lies where a finger can reach it: at most
/// eight columns from the gap between the hands, in one of four rows.
pub proof fn lemma_keyboard_reachable()
    ensures
        forall|c: char| keyboard().contains_key(c) ==> reachable(#[trigger] keyboard()[c]),
{
    lemma_table_reachable();
    lemma_filled_reachable(table());
}

/// Enters one row of keys of one hand into the map.
fn fill_block(
    map: &mut HashMap<u32, Place>,
    keys: &str,
    side: i16,
    row: i16,
    shift: bool,
    Ghost(done): Ghost<Seq<(char, Place)>>,
)
    requires
        by_char(old(map)@) == filled(done),
        keys@.len() <= 8,
        side == 1 || side == -1,
    ensures
        by_char(final(map)@) == filled(done + block(keys@, side as int, row as int, shift)),
{
    let ghost all = block(keys@, side as int, row as int, shift);
    let n = keys.unicode_len();
    let mut i: usize = 0;
    assert(done + all.take(0) == done);
    while i < n
        invariant
            i <= n == keys@.len() <= 8,
            side == 1 || side == -1,
            all == block(keys@, side as int, row as int, shift),
            by_char(map@) == filled(done + all.take(i as int)),
        decreases n - i,
    {
        let key = keys.get_char(i);
        let col: i16 = if side < 0 {
            -(i as i16 + 1)
        } else {
            i as i16 + 1
        };
        let place = Place { col, row, shift };
        let ghost before = map@;
        map.insert(key as u32, place);
        proof {
            let entries = done + all.take(i + 1);
            assert(entries.drop_last() == done + all.take(i as int));
            assert(entries.last() == (key, place));
            assert(map@ == before.insert(key as u32, place));
            lemma_by_char_insert(before, key, place);
        }
        i += 1;
    }
    assert(all.take(n as int) == all);
}

/// The decimal digits of a count are few enough to be counted in columns.
proof fn lemma_decimal_len(n: nat, digits: nat)
    requires
        digits >= 1,
        n < ten_to(digits),
    ensures
        1 <= decimal(n).len() <= digits,
    decreases n,
{
    if n >= 10 {
        if digits == 1 {
            assert(ten_to(1) == 10 * ten_to(0));
        }
        lemma_decimal_len(n / 10, (digits - 1) as nat);
    }
}

/// Ten to the power of `digits`.
pub open spec fn ten_to(digits: nat) -> nat
    decreases digits,
{
    if digits == 0 {
        1
    } else {
        10 * ten_to((digits - 1) as nat)
    }
}

/// Writes a count in decimal digits.
pub fn to_decimal(n: usize) -> (digits: Vec<u8>)
    ensures
        digits@ == decimal(n as nat),
        1 <= digits.len() <= 20,
    decreases n,
{
    proof {
        reveal_with_fuel(ten_to, 21);
        assert(ten_to(20) == 100_000_000_000_000_000_000nat);
        lemma_decimal_len(n as nat, 20);
    }
    if n < 10 {
        let mut digits: Vec<u8> = Vec::new();
        digits.push(0x30 + n as u8);
        digits
    } else {
        let mut digits = to_decimal(n / 10);
        digits.push(0x30 + (n % 10) as u8);
        digits
    }
}

/// Appends bytes to a text.
fn extend(text: &mut Vec<u8>, more: &[u8])
    ensures
        final(text)@ == old(text)@ + more@,
{
    let mut i: usize = 0;
    while i < more.len()
        invariant
            i <= more.len(),
            text@ == old(text)@ + more@.take(i as int),
        decreases more.len() - i,
    {
        text.push(more[i]);
        i += 1;
    }
    assert(more@.take(more.len() as int) == more@);
}

/// A row of spaces as wide as the screen.
fn blank(width: u16) -> (row: Vec<u8>)
    ensures
        row@ == blank_row(width),
{
    let mut row: Vec<u8> = Vec::new();
    let mut i: u16 = 0;
    while i < width
        invariant
            i <= width,
            row@ == blank_row(i),
        decreases width - i,
    {
        row.push(SPACE);
        i += 1;
    }
    row
}

/// The keyboard hint. It knows where each key lies and draws the hands.
pub struct Layout {
    keyboard_pos: HashMap<u32, Place>,
}

impl View for Layout {
    type V = Map<char, Place>;

    closed spec fn view(&self) -> Map<char, Place> {
        by_char(self.keyboard_pos@)
    }
}

impl Default for Layout {
    /// A hint for the keyboard that [`keyboard`] describes.
    fn default() -> (layout: Self)
        ensures
            layout.wf(),
    {
        Layout::new()
    }
}

impl Layout {
    /// The hint knows the keyboard, and nothing else.
    pub open spec fn wf(&self) -> bool {
        self@ == keyboard()
    }

    /// A hint for the keyboard that [`keyboard`] describes.
    #[must_use]
    pub fn new() -> (layout: Self)
        ensures
            layout.wf(),
    {
        let mut map: HashMap<u32, Place> = HashMap::new();
        let space = Place { col: 0, row: 0, shift: false };
        map.insert(' ' as u32, space);
        let ghost first = seq![(' ', space)];
        proof {
            reveal_strlit("54321`");
            reveal_strlit("trewq\t");
            reveal_strlit("gfdsa");
            reveal_strlit("bvcxz");
            reveal_strlit("%$#@!~");
            reveal_strlit("TREWQ");
            reveal_strlit("GFDSA");
            reveal_strlit("BVCXZ");
            reveal_strlit("67890-=\x08");
            reveal_strlit("yuiop[]\\");
            reveal_strlit("hjkl;'\n");
            reveal_strlit("nm,./");
            reveal_strlit("^&*()_+");
            reveal_strlit("YUIOP{}|");
            reveal_strlit("HJKL:\"");
            reveal_strlit("NM<>?");
            assert(first.drop_last() == Seq::<(char, Place)>::empty());
            assert(first.last() == (' ', space));
            assert(filled(Seq::<(char, Place)>::empty()) == Map::<char, Place>::empty());
            assert(filled(first) == Map::<char, Place>::empty().insert(' ', space));
            lemma_by_char_insert(Map::empty(), ' ', space);
            assert(by_char(Map::<u32, Place>::empty()) =~= Map::<char, Place>::empty());
            assert(map@ == Map::<u32, Place>::empty().insert(' ' as u32, space));
        }
        let ghost mut done = first;
        fill_block(&mut map, "54321`", -1, 0, false, Ghost(done));
        proof {
            done = done + block("54321`"@, -1, 0, false);
        }
        fill_block(&mut map, "trewq\t", -1, 1, false, Ghost(done));
        proof {
            done = done + block("trewq\t"@, -1, 1, false);
        }
        fill_block(&mut map, "gfdsa", -1, 2, false, Ghost(done));
        proof {
            done = done + block("gfdsa"@, -1, 2, false);
        }
        fill_block(&mut map, "bvcxz", -1, 3, false, Ghost(done));
        proof {
            done = done + block("bvcxz"@, -1, 3, false);
            assert(done == first + left_hand());
        }
        fill_block(&mut map, "%$#@!~", -1, 0, true, Ghost(done));
        proof {
            done = done + block("%$#@!~"@, -1, 0, true);
        }
        fill_block(&mut map, "TREWQ", -1, 1, true, Ghost(done));
        proof {
            done = done + block("TREWQ"@, -1, 1, true);
        }
        fill_block(&mut map, "GFDSA", -1, 2, true, Ghost(done));
        proof {
            done = done + block("GFDSA"@, -1, 2, true);
        }
        fill_block(&mut map, "BVCXZ", -1, 3, true, Ghost(done));
        proof {
            done = done + block("BVCXZ"@, -1, 3, true);
            assert(done == first + left_hand() + left_hand_shifted());
        }
        fill_block(&mut map, "67890-=\x08", 1, 0, false, Ghost(done));
        proof {
            done = done + block("67890-=\x08"@, 1, 0, false);
        }
        fill_block(&mut map, "yuiop[]\\", 1, 1, false, Ghost(done));
        proof {
            done = done + block("yuiop[]\\"@, 1, 1, false);
        }
        fill_block(&mut map, "hjkl;'\n", 1, 2, false, Ghost(done));
        proof {
            done = done + block("hjkl;'\n"@, 1, 2, false);
        }
        fill_block(&mut map, "nm,./", 1, 3, false, Ghost(done));
        proof {
            done = done + block("nm,./"@, 1, 3, false);
            assert(done == first + left_hand() + left_hand_shifted() + right_hand());
        }
        fill_block(&mut map, "^&*()_+", 1, 0, true, Ghost(done));
        proof {
            done = done + block("^&*()_+"@, 1, 0, true);
        }
        fill_block(&mut map, "YUIOP{}|", 1, 1, true, Ghost(done));
        proof {
            done = done + block("YUIOP{}|"@, 1, 1, true);
        }
        fill_block(&mut map, "HJKL:\"", 1, 2, true, Ghost(done));
        proof {
            done = done + block("HJKL:\""@, 1, 2, true);
        }
        fill_block(&mut map, "NM<>?", 1, 3, true, Ghost(done));
        proof {
            done = done + block("NM<>?"@, 1, 3, true);
            assert(done == table());
        }
        Layout { keyboard_pos: map }
    }

    /// Wipes one row of the screen.
    fn clear_row(&self, screen: &mut MainScreen, row: u16, blank: &Vec<u8>)
        requires
            blank@ == blank_row(old(screen).width()),
        ensures
            final(screen).extends(old(screen), wipe_row_ops(old(screen).width(), row as int)),
    {
        screen.move_to(0, row);
        screen.put(blank.as_slice(), Style::Blank);
    }

    /// Wipes the rows of the screen that the hint is drawn on.
    fn clear(&self, screen: &mut MainScreen)
        requires
            old(screen).height() >= HINT_ROWS,
        ensures
            final(screen).extends(
                old(screen),
                wipe_ops(old(screen).width(), old(screen).height()),
            ),
    {
        let width = screen.width();
        let height = screen.height();
        let ghost before = *screen;
        let ghost parts = Seq::new(5, |i: int| wipe_row_ops(width, height - 7 - i));
        let row = blank(width);
        let mut i: u16 = 0;
        assert(parts.take(0) == Seq::<Seq<Op>>::empty());
        while i < 5
            invariant
                i <= 5,
                height >= 11,
                width == before.width(),
                row@ == blank_row(width),
                parts == Seq::new(5, |i: int| wipe_row_ops(width, height - 7 - i)),
                screen.extends(&before, parts.take(i as int).flatten()),
            decreases 5 - i,
        {
            let ghost rows_before = *screen;
            self.clear_row(screen, height - 7 - i, &row);
            proof {
                assert(parts.take(i + 1) == parts.take(i as int).push(parts[i as int]));
                parts.take(i as int).lemma_flatten_push(parts[i as int]);
                screen.lemma_extends_chain(
                    &before,
                    &rows_before,
                    parts.take(i as int).flatten(),
                    parts[i as int],
                );
            }
            i += 1;
        }
        assert(parts.take(5) == parts);
        let ghost fingers_wiped = *screen;
        self.clear_row(screen, height - 5, &row);
        proof {
            screen.lemma_extends_chain(
                &before,
                &fingers_wiped,
                parts.flatten(),
                wipe_row_ops(width, height - 5),
            );
        }
    }

    /// Paints one segment of a finger and moves to where the next begins.
    fn draw_segment(&self, screen: &mut MainScreen, lean: i16, style: Style)
        requires
            -1 <= lean <= 1,
        ensures
            final(screen).extends(old(screen), segment_ops(lean as int, style)),
    {
        if lean == 0 {
            screen.put("| |".as_bytes(), style);
        } else if lean < 0 {
            screen.put("\\ \\".as_bytes(), style);
        } else {
            screen.put("/ /".as_bytes(), style);
        }
        screen.move_by(-3 + lean, -1);
    }

    /// Paints the segments of a finger, from the foot up.
    fn draw_shaft(&self, screen: &mut MainScreen, count: u16, lean: i16, style: Style)
        requires
            -1 <= lean <= 1,
        ensures
            final(screen).extends(old(screen), shaft_ops(count as int, lean as int, style)),
    {
        let ghost before = *screen;
        let ghost parts = Seq::new(count as nat, |k: int| segment_ops(lean as int, style));
        let mut k: u16 = 0;
        assert(parts.take(0) == Seq::<Seq<Op>>::empty());
        while k < count
            invariant
                k <= count,
                -1 <= lean <= 1,
                parts == Seq::new(count as nat, |k: int| segment_ops(lean as int, style)),
                screen.extends(&before, parts.take(k as int).flatten()),
            decreases count - k,
        {
            let ghost drawn = *screen;
            self.draw_segment(screen, lean, style);
            proof {
                assert(parts.take(k + 1) == parts.take(k as int).push(parts[k as int]));
                parts.take(k as int).lemma_flatten_push(parts[k as int]);
                screen.lemma_extends_chain(
                    &before,
                    &drawn,
                    parts.take(k as int).flatten(),
                    parts[k as int],
                );
            }
            k += 1;
        }
        assert(parts.take(count as int) == parts);
    }

    /// Paints the tip of a finger, and on it the count of presses.
    fn draw_tip(&self, screen: &mut MainScreen, current: bool, style: Style, repeat: usize)
        ensures
            final(screen).extends(old(screen), tip_ops(current, style, repeat)),
    {
        screen.put(" \u{2312} ".as_bytes(), style);
        screen.move_by(-2, 0);
        if current && repeat > 1 {
            let digits = to_decimal(repeat);
            screen.put(digits.as_slice(), style);
            screen.move_by(-(digits.len() as i16), 0);
        }
    }

    /// Draws one finger from its foot up, and comes back to the foot.
    fn draw_finger(
        &self,
        screen: &mut MainScreen,
        len: u16,
        direction: i16,
        current: bool,
        hit: bool,
        repeat: usize,
    )
        requires
            len <= 4,
            -8 <= direction <= 8,
        ensures
            final(screen).extends(
                old(screen),
                finger_ops(Pose { current, len, direction }, hit, repeat),
            ),
    {
        let ghost before = *screen;
        let ghost pose = Pose { current, len, direction };
        let lean: i16 = if !current || direction == 0 {
            0
        } else if direction < 0 {
            -1
        } else {
            1
        };
        let offset: i16 = if lean == 0 {
            0
        } else {
            (direction - lean) * 2
        };
        let style = if current && hit {
            Style::KeyHint
        } else if current {
            Style::UndoHint
        } else {
            Style::Blank
        };
        let count: u16 = if current {
            len
        } else {
            2
        };
        let back: i16 = if lean == 0 {
            0
        } else if lean < 0 {
            -(count as i16)
        } else {
            count as i16
        };
        screen.move_by(offset, 0);
        let ghost at_foot = *screen;
        self.draw_shaft(screen, count, lean, style);
        let ghost at_tip = *screen;
        proof {
            screen.lemma_extends_chain(
                &before,
                &at_foot,
                move_ops(offset as int, 0),
                shaft_ops(count as int, lean as int, style),
            );
        }
        self.draw_tip(screen, current, style, repeat);
        let ghost tipped = *screen;
        proof {
            screen.lemma_extends_chain(
                &before,
                &at_tip,
                move_ops(offset as int, 0) + shaft_ops(count as int, lean as int, style),
                tip_ops(current, style, repeat),
            );
        }
        screen.move_by(-1 - back - offset, count as i16);
        proof {
            screen.lemma_extends_chain(
                &before,
                &tipped,
                move_ops(offset as int, 0) + shaft_ops(count as int, lean as int, style) + tip_ops(
                    current,
                    style,
                    repeat,
                ),
                move_ops(-1 - back - offset, count as int),
            );
        }
    }

    /// Draws one finger of a hand: steps to it and draws it in its pose.
    fn draw_step(
        &self,
        screen: &mut MainScreen,
        side: i16,
        finger: i16,
        place: Place,
        hit: bool,
        repeat: usize,
    )
        requires
            side == 1 || side == -1,
            0 <= finger <= 3,
            -8 <= place.col <= 8,
            place.col != 0 ==> 0 <= place.row <= 3,
        ensures
            final(screen).extends(
                old(screen),
                step_ops(side as int, finger as int, place, hit, repeat),
            ),
    {
        let ghost before = *screen;
        let reach: i16 = if side < 0 {
            -place.col
        } else {
            place.col
        };
        screen.move_by(5 * side, 0);
        let ghost stepped = *screen;
        let (current, len, direction) = if reach <= 0 {
            (place.shift && finger == 3, 1u16, side)
        } else {
            let column = if reach < 2 {
                2
            } else if reach > 5 {
                5
            } else {
                reach
            };
            let away = reach - finger - 2;
            (
                column == finger + 2,
                (4 - place.row) as u16,
                if side < 0 {
                    -away
                } else {
                    away
                },
            )
        };
        assert(Pose { current, len, direction } == pose(side as int, finger as int, place));
        self.draw_finger(screen, len, direction, current, hit, repeat);
        proof {
            screen.lemma_extends_chain(
                &before,
                &stepped,
                move_ops(5 * side, 0),
                finger_ops(pose(side as int, finger as int, place), hit, repeat),
            );
        }
    }

    /// Draws the four fingers of one hand for a key at `place`.
    fn draw_hand(&self, screen: &mut MainScreen, side: i16, place: Place, hit: bool, repeat: usize)
        requires
            side == 1 || side == -1,
            -8 <= place.col <= 8,
            place.col != 0 ==> 0 <= place.row <= 3,
        ensures
            final(screen).extends(old(screen), hand_ops(side as int, place, hit, repeat)),
    {
        let ghost before = *screen;
        let ghost parts = Seq::new(
            4,
            |finger: int| step_ops(side as int, finger, place, hit, repeat),
        );
        let mut finger: i16 = 0;
        assert(parts.take(0) == Seq::<Seq<Op>>::empty());
        while finger < 4
            invariant
                0 <= finger <= 4,
                side == 1 || side == -1,
                -8 <= place.col <= 8,
                place.col != 0 ==> 0 <= place.row <= 3,
                parts == Seq::new(
                    4,
                    |finger: int| step_ops(side as int, finger, place, hit, repeat),
                ),
                screen.extends(&before, parts.take(finger as int).flatten()),
            decreases 4 - finger,
        {
            let ghost drawn = *screen;
            self.draw_step(screen, side, finger, place, hit, repeat);
            proof {
                assert(parts.take(finger + 1) == parts.take(finger as int).push(
                    parts[finger as int],
                ));
                parts.take(finger as int).lemma_flatten_push(parts[finger as int]);
                screen.lemma_extends_chain(
                    &before,
                    &drawn,
                    parts.take(finger as int).flatten(),
                    parts[finger as int],
                );
            }
            finger += 1;
        }
        assert(parts.take(4) == parts);
    }

    /// Draws the thumbs, for the space bar only.
    fn draw_thumbs(&self, screen: &mut MainScreen, place: Place, repeat: usize)
        requires
            old(screen).width() >= HINT_COLUMNS,
            old(screen).height() >= HINT_ROWS,
        ensures
            final(screen).extends(
                old(screen),
                thumb_ops(old(screen).width(), old(screen).height(), place, repeat),
            ),
    {
        if place.col == 0 && place.row == 0 {
            let mut text: Vec<u8> = Vec::new();
            let bars = "==".as_bytes();
            extend(&mut text, bars);
            if repeat > 1 {
                let digits = to_decimal(repeat);
                extend(&mut text, digits.as_slice());
            } else {
                extend(&mut text, "=".as_bytes());
            }
            extend(&mut text, bars);
            assert(text@ == thumb_text(repeat));
            screen.move_to(screen.width() / 2 - 2, screen.height() - 5);
            screen.put(text.as_slice(), Style::KeyHint);
        }
    }

    /// Draws the hint for what is expected next: wipes its part of the
    /// screen, draws both hands with the finger that moves reaching for its
    /// key, and the thumbs for the space bar. The cursor ends where it was.
    pub fn redraw(&self, screen: &mut MainScreen, expect: Expect)
        requires
            self.wf(),
            old(screen).width() >= HINT_COLUMNS,
            old(screen).height() >= HINT_ROWS,
        ensures
            final(screen).extends(
                old(screen),
                hint_ops(self@, old(screen).width(), old(screen).height(), expect),
            ),
    {
        let ghost before = *screen;
        let width = screen.width();
        let height = screen.height();
        let key = match expect {
            Expect::Char(c, _) => c,
            Expect::Softbreak => ' ',
            Expect::Backspace(_) => '\x08',
        };
        let (hit, repeat) = match expect {
            Expect::Char(_, repeat) => (true, repeat),
            Expect::Softbreak => (true, 1),
            Expect::Backspace(repeat) => (false, repeat),
        };
        let place = self.place(key);
        proof {
            lemma_keyboard_reachable();
        }
        screen.save();
        let ghost s1 = *screen;
        let ghost a1 = seq![Op::SavePosition];
        self.clear(screen);
        let ghost s2 = *screen;
        let ghost a2 = a1 + wipe_ops(width, height);
        proof {
            screen.lemma_extends_chain(&before, &s1, a1, wipe_ops(width, height));
        }
        screen.move_to(width / 2 - 4, height - 7);
        let ghost s3 = *screen;
        let ghost a3 = a2 + seq![Op::MoveTo((width / 2 - 4) as u16, (height - 7) as u16)];
        proof {
            screen.lemma_extends_chain(
                &before,
                &s2,
                a2,
                seq![Op::MoveTo((width / 2 - 4) as u16, (height - 7) as u16)],
            );
        }
        self.draw_hand(screen, -1, place, hit, repeat);
        let ghost s4 = *screen;
        let ghost a4 = a3 + hand_ops(-1, place, hit, repeat);
        proof {
            screen.lemma_extends_chain(&before, &s3, a3, hand_ops(-1, place, hit, repeat));
        }
        screen.move_to(width / 2 + 2, height - 7);
        let ghost s5 = *screen;
        let ghost a5 = a4 + seq![Op::MoveTo((width / 2 + 2) as u16, (height - 7) as u16)];
        proof {
            screen.lemma_extends_chain(
                &before,
                &s4,
                a4,
                seq![Op::MoveTo((width / 2 + 2) as u16, (height - 7) as u16)],
            );
        }
        self.draw_hand(screen, 1, place, hit, repeat);
        let ghost s6 = *screen;
        let ghost a6 = a5 + hand_ops(1, place, hit, repeat);
        proof {
            screen.lemma_extends_chain(&before, &s5, a5, hand_ops(1, place, hit, repeat));
        }
        self.draw_thumbs(screen, place, repeat);
        let ghost s7 = *screen;
        let ghost a7 = a6 + thumb_ops(width, height, place, repeat);
        proof {
            screen.lemma_extends_chain(
                &before,
                &s6,
                a6,
                thumb_ops(width, height, place, repeat),
            );
        }
        screen.load();
        screen.flush();
        proof {
            screen.lemma_extends_chain(
                &before,
                &s7,
                a7,
                seq![Op::RestorePosition, Op::Flush],
            );
        }
    }

    /// Where a key lies; the place [`nowhere`] for a key that the keyboard
    /// does not have.
    pub fn place(&self, key: char) -> (place: Place)
        ensures
            place == place_of(self@, key),
    {
        let code = key as u32;
        match self.keyboard_pos.get(&code) {
            Some(place) => *place,
            None => Place { col: 0, row: -1, shift: false },
        }
    }
}

} // verus!
