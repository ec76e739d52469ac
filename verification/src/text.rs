//! The progress tracker: the passage, its lines, and how far the typist has
//! come.

use crate::cursor::{
    in_range, is_position, lemma_line_start_grows, lemma_locate_is_position,
    lemma_position_is_unique, lemma_total_len_is_joined_len, line_start, locate, project,
    step_left, step_right, total_len,
};
use crate::error::ConfigError;
use crate::screen::{shown, MainScreen, Op, Style};
use crate::wrap::{
    lemma_wrap_lines_nonempty, lemma_wrap_round_trip, text_width, view_lines, wrap, wrap_string,
    wrap_width, MARGIN, SPACE,
};
use vstd::prelude::*;
use vstd::slice::{slice_subrange, slice_to_vec};
use vstd::string::StringSliceAdditionalSpecFns;

verus! {

/// Rows of the screen that are kept free above a text that is not centred.
pub const TOP_MARGIN: u16 = 4;

/// How the tracker stands after a keystroke.
#[derive(Clone, Copy, Debug, PartialEq, Eq, Structural)]
pub enum State {
    /// Every key so far matched, and there is more to type.
    Hit,
    /// A run of wrong keys is waiting to be taken back.
    Miss,
    /// The whole passage has been typed.
    End,
}

/// What the typist has to do next.
#[derive(Clone, Copy, Debug, PartialEq, Eq, Structural)]
pub enum Expect {
    /// Type this character; the number says how many times it stands in a
    /// row from here on.
    Char(char, usize),
    /// The line ends here with a space: a space or Enter goes on.
    Softbreak,
    /// Take back this many wrong keys.
    Backspace(usize),
}

/// The number of spaces that stand at `from` and after it, before the last
/// byte of the text.
pub open spec fn space_run(text: Seq<u8>, from: int) -> nat
    decreases text.len() - from,
{
    if 0 <= from < text.len() - 1 && text[from] == SPACE {
        1 + space_run(text, from + 1)
    } else {
        0
    }
}

/// The number of bytes equal to `byte` that stand at `from` and after it.
pub open spec fn same_run(text: Seq<u8>, from: int, byte: u8) -> nat
    decreases text.len() - from,
{
    if 0 <= from < text.len() && text[from] == byte {
        1 + same_run(text, from + 1, byte)
    } else {
        0
    }
}

/// One move of the typist: a key, or a backspace.
pub enum Move {
    Key(char),
    Back,
}

/// The tracker as a mathematical value: the source text, its lines, and the
/// two counters. Everything else, the cursor included, is derived from these.
pub struct Tracker {
    /// The passage, with the space that is appended to it.
    pub text: Seq<u8>,
    /// The lines that the text is wrapped into.
    pub lines: Seq<Seq<u8>>,
    /// How many bytes, from the start of the text, were typed correctly.
    pub hits: nat,
    /// How many wrong keys are outstanding; the run begins at `hits`.
    pub misses: nat,
}

impl Tracker {
    /// The text ends with its delimiter, the lines partition it, and the
    /// counters stay on it.
    pub open spec fn valid(self) -> bool {
        &&& self.text.len() > 0
        &&& self.text.last() == SPACE
        &&& self.lines.flatten() == self.text
        &&& forall|i: int| 0 <= i < self.lines.len() ==> (#[trigger] self.lines[i]).len() > 0
        &&& self.hits + self.misses < self.text.len()
    }

    /// The index of the text at which the typist stands.
    pub open spec fn index(self) -> nat {
        self.hits + self.misses
    }

    /// The index of the delimiter, which is never typed.
    pub open spec fn last_index(self) -> nat {
        (self.text.len() - 1) as nat
    }

    /// The typist stands on the delimiter: no key moves the tracker on.
    pub open spec fn at_end(self) -> bool {
        self.index() == self.last_index()
    }

    /// Column and row of the index in the lines.
    pub open spec fn cursor(self) -> (nat, nat) {
        locate(self.lines, self.index())
    }

    /// The byte at the index.
    pub open spec fn current(self) -> u8 {
        self.text[self.index() as int]
    }

    /// How many times the current byte stands in a row from the index on.
    pub open spec fn repeat(self) -> nat {
        same_run(self.text, self.index() as int, self.current())
    }

    /// The cursor is in the last column of its line.
    pub open spec fn at_line_end(self) -> bool {
        self.cursor().0 + 1 == self.lines[self.cursor().1 as int].len()
    }

    /// The cursor is at the end of its line, on a space.
    pub open spec fn is_softbreak(self) -> bool {
        self.at_line_end() && self.current() == SPACE
    }

    /// `key` is right at this place: it is the character that stands there,
    /// or Enter at a soft break.
    pub open spec fn accepts(self, key: char) -> bool {
        key == self.current() as char || (self.is_softbreak() && key == '\n')
    }

    /// How the tracker stands.
    pub open spec fn state(self) -> State {
        if self.misses > 0 {
            State::Miss
        } else if self.hits == self.last_index() {
            State::End
        } else {
            State::Hit
        }
    }

    /// What the typist has to do next.
    pub open spec fn expectation(self) -> Expect {
        if self.misses > 0 {
            Expect::Backspace(self.misses as usize)
        } else if self.is_softbreak() {
            Expect::Softbreak
        } else {
            Expect::Char(self.current() as char, self.repeat() as usize)
        }
    }

    /// The tracker after the key `key`.
    ///
    /// On the delimiter nothing moves. Elsewhere a right key, while no wrong
    /// one is outstanding, is a hit, and any other key a miss. A hit in the
    /// last column of a line also passes the spaces that follow: the leading
    /// spaces of a line cost no keystroke.
    pub open spec fn forward(self, key: char) -> Tracker {
        if self.at_end() {
            self
        } else if self.misses == 0 && self.accepts(key) {
            let free = if self.at_line_end() {
                space_run(self.text, (self.hits + 1) as int)
            } else {
                0
            };
            Tracker { hits: self.hits + 1 + free, ..self }
        } else {
            Tracker { misses: self.misses + 1, ..self }
        }
    }

    /// The tracker after a backspace: one wrong key fewer, if there is one.
    pub open spec fn backward(self) -> Tracker {
        if self.misses == 0 {
            self
        } else {
            Tracker { misses: (self.misses - 1) as nat, ..self }
        }
    }

    /// The tracker after a reset for a screen of `width` columns.
    ///
    /// A passage replaces the text and zeroes the counters; without one the
    /// text and the counters stay. Either way the lines are the wrapping of
    /// the text at the width that the screen allows.
    pub open spec fn reset(self, passage: Option<Seq<u8>>, width: nat) -> Tracker {
        let text = match passage {
            Some(bytes) => source_text(bytes),
            None => self.text,
        };
        Tracker {
            text,
            lines: wrap(text, wrap_width(text.len(), width)),
            hits: if passage is Some {
                0
            } else {
                self.hits
            },
            misses: if passage is Some {
                0
            } else {
                self.misses
            },
        }
    }

    /// The tracker after one move of the typist.
    pub open spec fn step(self, step: Move) -> Tracker {
        match step {
            Move::Key(key) => self.forward(key),
            Move::Back => self.backward(),
        }
    }

    /// The tracker after a whole session of moves, in their order.
    pub open spec fn run(self, moves: Seq<Move>) -> Tracker
        decreases moves.len(),
    {
        if moves.len() == 0 {
            self
        } else {
            self.run(moves.drop_last()).step(moves.last())
        }
    }

    /// The tracker after the keys `keys`, in their order.
    pub open spec fn forward_all(self, keys: Seq<char>) -> Tracker
        decreases keys.len(),
    {
        if keys.len() == 0 {
            self
        } else {
            self.forward(keys[0]).forward_all(keys.drop_first())
        }
    }

    /// The tracker after `n` backspaces.
    pub open spec fn backward_times(self, n: nat) -> Tracker
        decreases n,
    {
        if n == 0 {
            self
        } else {
            self.backward().backward_times((n - 1) as nat)
        }
    }
}

/// Every position of the lines, moved right and down by the margins where
/// the text is not centred, has screen coordinates.
pub open spec fn fits(lines: Seq<Seq<u8>>, centered: bool) -> bool {
    &&& in_range(lines)
    &&& !centered ==> {
        &&& lines.len() + TOP_MARGIN <= 0x1_0000
        &&& forall|i: int| 0 <= i < lines.len() ==> (#[trigger] lines[i]).len() + MARGIN <= 0x1_0000
    }
}

/// Tests [`fits`] on lines that are held in memory.
pub fn fits_screen(lines: &Vec<Vec<u8>>, centered: bool) -> (ok: bool)
    ensures
        ok == fits(view_lines(*lines), centered),
{
    let ghost all = view_lines(*lines);
    let reach_x: usize = if centered {
        0
    } else {
        MARGIN as usize
    };
    let reach_y: usize = if centered {
        0
    } else {
        TOP_MARGIN as usize
    };
    if lines.len() > 0x1_0000 - reach_y {
        return false;
    }
    let mut i: usize = 0;
    while i < lines.len()
        invariant
            all == view_lines(*lines),
            i <= lines.len(),
            reach_x == if centered {
                0
            } else {
                MARGIN as int
            },
            forall|j: int| 0 <= j < i ==> (#[trigger] all[j]).len() + reach_x <= 0x1_0000,
        decreases lines.len() - i,
    {
        if lines[i].len() > 0x1_0000 - reach_x {
            assert(all[i as int].len() + reach_x > 0x1_0000);
            return false;
        }
        i += 1;
    }
    true
}

/// The source text of a passage: its bytes, and the space that is appended
/// so that the last byte of the passage has a successor.
pub open spec fn source_text(passage: Seq<u8>) -> Seq<u8> {
    passage.push(SPACE)
}

/// The bytes of a passage that is handed over as a string.
pub open spec fn passage_bytes(text: Option<&str>) -> Option<Seq<u8>> {
    match text {
        Some(passage) => Some(passage.spec_bytes()),
        None => None,
    }
}

/// The progress tracker. It owns the passage and its lines, counts hits and
/// outstanding misses, and keeps the cursor where the two counters point.
pub struct TextLines {
    raw_text: Vec<u8>,
    lines: Vec<Vec<u8>>,
    n_hit: usize,
    n_miss: usize,
    cursor_pos: (u16, u16),
    align_center: bool,
}

impl View for TextLines {
    type V = Tracker;

    closed spec fn view(&self) -> Tracker {
        Tracker {
            text: self.raw_text@,
            lines: view_lines(self.lines),
            hits: self.n_hit as nat,
            misses: self.n_miss as nat,
        }
    }
}

impl Default for TextLines {
    /// A tracker on the empty passage.
    fn default() -> (t: Self)
        ensures
            t.wf(),
            t@ == (Tracker { text: seq![SPACE], lines: seq![seq![SPACE]], hits: 0, misses: 0 }),
    {
        TextLines::new()
    }
}

impl TextLines {
    /// The cursor that the tracker keeps: column, then row.
    pub closed spec fn cursor(&self) -> (u16, u16) {
        self.cursor_pos
    }

    /// Whether the text is shown centred on the screen.
    pub closed spec fn centered(&self) -> bool {
        self.align_center
    }

    /// The tracker's invariant: its model is valid, its lines can be
    /// addressed on a screen, and its cursor is the position of its index.
    pub open spec fn wf(&self) -> bool {
        &&& self@.valid()
        &&& fits(self@.lines, self.centered())
        &&& (self.cursor().0 as nat, self.cursor().1 as nat) == self@.cursor()
    }

    /// A tracker on the empty passage: nothing to type, already at its end.
    #[must_use]
    pub fn new() -> (t: Self)
        ensures
            t.wf(),
            t@ == (Tracker { text: seq![SPACE], lines: seq![seq![SPACE]], hits: 0, misses: 0 }),
            t.cursor() == (0u16, 0u16),
            !t.centered(),
    {
        let mut raw_text: Vec<u8> = Vec::new();
        raw_text.push(SPACE);
        let mut line: Vec<u8> = Vec::new();
        line.push(SPACE);
        let mut lines: Vec<Vec<u8>> = Vec::new();
        lines.push(line);
        let t = TextLines {
            raw_text,
            lines,
            n_hit: 0,
            n_miss: 0,
            cursor_pos: (0, 0),
            align_center: false,
        };
        proof {
            assert(t@.text == seq![SPACE]);
            assert(t@.lines == seq![seq![SPACE]]);
            seq![seq![SPACE]].lemma_flatten_one_element();
            assert(is_position(t@.lines, 0, 0, 0));
            lemma_position_is_unique(t@.lines, 0, 0, 0);
        }
        t
    }

    /// The number of bytes typed correctly.
    pub fn n_hit(&self) -> (n: usize)
        ensures
            n == self@.hits,
    {
        self.n_hit
    }

    /// The number of wrong keys that are outstanding.
    pub fn n_miss(&self) -> (n: usize)
        ensures
            n == self@.misses,
    {
        self.n_miss
    }

    /// The cursor: column, then row.
    pub fn cursor_pos(&self) -> (pos: (u16, u16))
        ensures
            pos == self.cursor(),
    {
        self.cursor_pos
    }

    /// Whether the text is shown centred on the screen.
    pub fn align_center(&self) -> (centered: bool)
        ensures
            centered == self.centered(),
    {
        self.align_center
    }

    /// The source text: the passage and the delimiter after it.
    pub fn text(&self) -> (text: &Vec<u8>)
        ensures
            text@ == self@.text,
    {
        &self.raw_text
    }

    /// The lines that the text is wrapped into.
    pub fn lines(&self) -> (lines: &Vec<Vec<u8>>)
        ensures
            view_lines(*lines) == self@.lines,
    {
        &self.lines
    }

    /// The index of the text at which the typist stands.
    pub fn index(&self) -> (index: usize)
        requires
            self.wf(),
        ensures
            index == self@.index(),
            index < self@.text.len(),
    {
        let len = self.raw_text.len();
        let index = self.n_hit + self.n_miss;
        assert(index < len);
        index
    }

    /// The byte at which the typist stands.
    #[must_use]
    pub fn current(&self) -> (byte: u8)
        requires
            self.wf(),
        ensures
            byte == self@.current(),
    {
        self.raw_text[self.index()]
    }

    /// How many times the current byte stands in a row from the cursor on;
    /// at least once.
    #[must_use]
    pub fn count_repeat(&self) -> (count: usize)
        requires
            self.wf(),
        ensures
            count == self@.repeat(),
            count >= 1,
    {
        let from = self.index();
        let byte = self.raw_text[from];
        let mut count: usize = 1;
        while from + count < self.raw_text.len() && self.raw_text[from + count] == byte
            invariant
                from + count <= self.raw_text.len(),
                count >= 1,
                same_run(self.raw_text@, from as int, byte) == count + same_run(
                    self.raw_text@,
                    from + count,
                    byte,
                ),
            decreases self.raw_text.len() - count,
        {
            count += 1;
        }
        count
    }

    /// Whether the cursor is in the last column of its line.
    #[must_use]
    pub fn at_line_end(&self) -> (at_end: bool)
        requires
            self.wf(),
        ensures
            at_end == self@.at_line_end(),
    {
        proof {
            lemma_cursor_tracks_index(self@);
        }
        let (column, row) = self.cursor_pos;
        column as usize == self.lines[row as usize].len() - 1
    }

    /// Whether the cursor is at a soft break: in the last column of its
    /// line, on a space.
    #[must_use]
    pub fn is_softbreak(&self) -> (soft: bool)
        requires
            self.wf(),
        ensures
            soft == self@.is_softbreak(),
    {
        self.at_line_end() && self.current() == SPACE
    }

    /// What the typist has to do next.
    #[must_use]
    pub fn expect(&self) -> (next: Expect)
        requires
            self.wf(),
        ensures
            next == self@.expectation(),
    {
        if self.n_miss != 0 {
            Expect::Backspace(self.n_miss)
        } else if self.is_softbreak() {
            Expect::Softbreak
        } else {
            Expect::Char(self.current() as char, self.count_repeat())
        }
    }

    /// How the tracker stands.
    #[must_use]
    pub fn state(&self) -> (state: State)
        requires
            self.wf(),
        ensures
            state == self@.state(),
    {
        if self.n_miss > 0 {
            State::Miss
        } else if self.n_hit == self.raw_text.len() - 1 {
            State::End
        } else {
            State::Hit
        }
    }

    /// Loads a passage, or lays the present one out again.
    ///
    /// With a passage, the source text is replaced by it and both counters
    /// are zeroed. In either case the lines are made anew for the width that
    /// the screen allows, and the cursor is projected into them from the
    /// index `hits + misses`: a change of width keeps the typist's place.
    /// Returns what is expected next.
    ///
    /// A screen that is no wider than the margin, or lines beyond the reach
    /// of screen coordinates, are refused, and the tracker stays as it was.
    pub fn reset(&mut self, text: Option<&str>, width: u16, align_center: bool) -> (res: Result<
        Expect,
        ConfigError,
    >)
        requires
            old(self).wf(),
        ensures
            final(self).wf(),
            res is Err <==> width <= MARGIN || !fits(
                old(self)@.reset(passage_bytes(text), width as nat).lines,
                align_center,
            ),
            match res {
                Ok(next) => {
                    &&& final(self)@ == old(self)@.reset(passage_bytes(text), width as nat)
                    &&& final(self).centered() == align_center
                    &&& next == final(self)@.expectation()
                    &&& is_position(
                        final(self)@.lines,
                        final(self)@.hits + final(self)@.misses,
                        final(self).cursor().0 as nat,
                        final(self).cursor().1 as nat,
                    )
                },
                Err(e) => {
                    &&& *final(self) == *old(self)
                    &&& e == if width <= MARGIN {
                        ConfigError::ScreenTooNarrow
                    } else {
                        ConfigError::TextTooLarge
                    }
                },
            },
    {
        if width <= MARGIN {
            return Err(ConfigError::ScreenTooNarrow);
        }
        match text {
            Some(passage) => {
                let mut raw = slice_to_vec(passage.as_bytes());
                raw.push(SPACE);
                let lines = wrap_string(raw.as_slice(), text_width(raw.len(), width));
                if !fits_screen(&lines, align_center) {
                    return Err(ConfigError::TextTooLarge);
                }
                proof {
                    lemma_wrap_round_trip(raw@, wrap_width(raw@.len(), width as nat));
                    lemma_wrap_lines_nonempty(raw@, wrap_width(raw@.len(), width as nat));
                    lemma_total_len_is_joined_len(view_lines(lines));
                }
                let pos = project(&lines, 0);
                self.raw_text = raw;
                self.lines = lines;
                self.n_hit = 0;
                self.n_miss = 0;
                self.cursor_pos = pos;
                self.align_center = align_center;
            },
            None => {
                let lines = wrap_string(
                    self.raw_text.as_slice(),
                    text_width(self.raw_text.len(), width),
                );
                if !fits_screen(&lines, align_center) {
                    return Err(ConfigError::TextTooLarge);
                }
                proof {
                    lemma_wrap_round_trip(
                        self.raw_text@,
                        wrap_width(self.raw_text@.len(), width as nat),
                    );
                    lemma_wrap_lines_nonempty(
                        self.raw_text@,
                        wrap_width(self.raw_text@.len(), width as nat),
                    );
                    lemma_total_len_is_joined_len(view_lines(lines));
                }
                let pos = project(&lines, self.index());
                self.lines = lines;
                self.cursor_pos = pos;
                self.align_center = align_center;
            },
        }
        proof {
            lemma_cursor_tracks_index(self@);
        }
        Ok(self.expect())
    }

    /// Takes one key. Returns how the tracker stands after it, what is
    /// expected next, and whether the whole text has to be painted again:
    /// that is so exactly when the cursor came to the first column of a
    /// line. Otherwise only the glyph under the old cursor changes its look.
    ///
    /// On the delimiter the tracker does not move. `End` is returned only
    /// with no wrong key outstanding.
    pub fn forward(&mut self, key: char) -> (res: (State, Expect, bool))
        requires
            old(self).wf(),
        ensures
            final(self).wf(),
            final(self)@ == old(self)@.forward(key),
            final(self).centered() == old(self).centered(),
            res.0 == final(self)@.state(),
            res.1 == final(self)@.expectation(),
            res.2 == (final(self)@.index() != old(self)@.index() && final(self).cursor().0 == 0),
            res.0 == State::End ==> final(self)@.misses == 0,
            res.0 == State::End ==> final(self)@.index() == final(self)@.text.len() - 1,
            is_position(
                final(self)@.lines,
                final(self)@.hits + final(self)@.misses,
                final(self).cursor().0 as nat,
                final(self).cursor().1 as nat,
            ),
    {
        let last = self.raw_text.len() - 1;
        let start = self.index();
        let ghost before = self@;
        proof {
            lemma_cursor_tracks_index(before);
            lemma_total_len_is_joined_len(before.lines);
            lemma_forward_valid(before, key);
        }
        if start != last {
            let line_end = self.at_line_end();
            let byte = self.raw_text[start];
            let hit = self.n_miss == 0 && (key == byte as char || (line_end && byte == SPACE && key
                == '\n'));
            let mut hits = self.n_hit;
            let mut misses = self.n_miss;
            if hit {
                hits += 1;
            } else {
                misses += 1;
            }
            let mut pos = step_right(&self.lines, self.cursor_pos);
            if hit && line_end {
                while hits < last && self.raw_text[hits] == SPACE
                    invariant
                        self@ == before,
                        before.valid(),
                        in_range(before.lines),
                        total_len(before.lines) == before.text.len(),
                        last == before.text.len() - 1,
                        misses == 0,
                        before.hits < hits <= last,
                        hits + space_run(before.text, hits as int) == before.hits + 1 + space_run(
                            before.text,
                            (before.hits + 1) as int,
                        ),
                        is_position(before.lines, hits as nat, pos.0 as nat, pos.1 as nat),
                    decreases last - hits,
                {
                    pos = step_right(&self.lines, pos);
                    hits += 1;
                }
            }
            self.n_hit = hits;
            self.n_miss = misses;
            self.cursor_pos = pos;
            proof {
                lemma_position_is_unique(
                    before.lines,
                    (hits + misses) as nat,
                    pos.0 as nat,
                    pos.1 as nat,
                );
            }
        }
        let state = self.state();
        let expect = self.expect();
        let redraw = start != self.index() && self.cursor_pos.0 == 0;
        (state, expect, redraw)
    }

    /// Takes one wrong key back. Returns what is expected next, and whether
    /// the whole text has to be painted again: that is so exactly when the
    /// cursor went back over the start of a line.
    ///
    /// With no wrong key outstanding nothing changes: a hit is never taken
    /// back.
    pub fn backward(&mut self) -> (res: (Expect, bool))
        requires
            old(self).wf(),
        ensures
            final(self).wf(),
            final(self)@ == old(self)@.backward(),
            final(self).centered() == old(self).centered(),
            final(self)@.hits == old(self)@.hits,
            final(self)@.misses == if old(self)@.misses > 0 {
                old(self)@.misses - 1
            } else {
                0
            },
            res.0 == final(self)@.expectation(),
            res.1 == (old(self)@.misses > 0 && old(self).cursor().0 == 0),
            is_position(
                final(self)@.lines,
                final(self)@.hits + final(self)@.misses,
                final(self).cursor().0 as nat,
                final(self).cursor().1 as nat,
            ),
    {
        let ghost before = self@;
        proof {
            lemma_cursor_tracks_index(before);
        }
        let mut crossed = false;
        if self.n_miss != 0 {
            crossed = self.cursor_pos.0 == 0;
            let pos = step_left(&self.lines, self.cursor_pos);
            self.n_miss -= 1;
            self.cursor_pos = pos;
            proof {
                lemma_position_is_unique(
                    before.lines,
                    (before.index() - 1) as nat,
                    pos.0 as nat,
                    pos.1 as nat,
                );
            }
        }
        (self.expect(), crossed)
    }
}

/// The room that is left free before a content that is centred in an
/// extent: half of what the content leaves over, and none where it does not
/// fit.
pub open spec fn centering(extent: int, content: int) -> int {
    if content <= extent {
        (extent - content) / 2
    } else {
        0
    }
}

/// `x`, held between zero and `max`.
pub open spec fn clip(x: int, max: int) -> int {
    if x < 0 {
        0
    } else if x > max {
        max
    } else {
        x
    }
}

/// What painting a run of text queues: the run in its style, and nothing
/// for an empty run.
pub open spec fn run_ops(run: Seq<u8>, style: Style) -> Seq<Op> {
    if run.len() > 0 {
        seq![Op::Text(shown(run), style)]
    } else {
        Seq::empty()
    }
}

impl TextLines {
    /// The columns by which row `row` is moved to the right on a screen of
    /// `width` columns: those that centre the line, or the margin.
    pub open spec fn offset_x(&self, width: u16, row: int) -> int {
        if self.centered() {
            centering(width as int, self@.lines[row].len() as int)
        } else {
            MARGIN as int
        }
    }

    /// The rows by which the text is moved down on a screen of `height`
    /// rows: those that centre the lines, or the top margin.
    pub open spec fn offset_y(&self, height: u16) -> int {
        if self.centered() {
            centering(height as int, self@.lines.len() as int)
        } else {
            TOP_MARGIN as int
        }
    }

    /// The screen coordinates of a place in the text.
    pub open spec fn on_screen(&self, width: u16, height: u16, column: int, row: int) -> (
        u16,
        u16,
    ) {
        ((column + self.offset_x(width, row)) as u16, (row + self.offset_y(height)) as u16)
    }

    /// What painting row `row` queues: a move to where the row begins, then
    /// up to three runs. What lies before `hits` is confirmed, what lies from
    /// there to `hits + misses` is mismatched, and the rest is still to be
    /// typed.
    pub open spec fn line_ops(&self, width: u16, height: u16, row: int) -> Seq<Op> {
        let line = self@.lines[row];
        let start = line_start(self@.lines, row as nat);
        let confirmed = clip(self@.hits - start, line.len() as int);
        let typed = clip(self@.hits + self@.misses - start, line.len() as int);
        let at = self.on_screen(width, height, 0, row);
        seq![Op::MoveTo(at.0, at.1)] + run_ops(line.subrange(0, confirmed), Style::Confirmed)
            + run_ops(line.subrange(confirmed, typed), Style::Mismatched) + run_ops(
            line.subrange(typed, line.len() as int),
            Style::Default,
        )
    }

    /// What painting the first `rows` rows queues.
    pub open spec fn lines_ops(&self, width: u16, height: u16, rows: int) -> Seq<Op> {
        Seq::new(rows as nat, |row: int| self.line_ops(width, height, row)).flatten()
    }

    /// What moving the terminal's cursor to the tracker's cursor queues.
    pub open spec fn cursor_ops(&self, width: u16, height: u16) -> Seq<Op> {
        let at = self.on_screen(width, height, self.cursor().0 as int, self.cursor().1 as int);
        seq![Op::MoveTo(at.0, at.1), Op::Flush]
    }

    /// What a full repaint queues: the screen is cleared, every row is
    /// painted, and the cursor is put in its place.
    pub open spec fn redraw_ops(&self, width: u16, height: u16) -> Seq<Op> {
        seq![Op::Clear, Op::MoveTo(0, 0), Op::Flush] + self.lines_ops(
            width,
            height,
            self@.lines.len() as int,
        ) + self.cursor_ops(width, height) + seq![Op::Flush]
    }

    /// Moves the terminal's cursor to a column of a row of the text, and
    /// returns the screen coordinates of that place. The column may lie
    /// beyond the end of its line, as far as screen coordinates reach.
    pub fn move_to(&self, screen: &mut MainScreen, column: u16, row: u16) -> (at: (u16, u16))
        requires
            self.wf(),
            row < self@.lines.len(),
            column + self.offset_x(old(screen).width(), row as int) <= u16::MAX,
        ensures
            at == self.on_screen(
                old(screen).width(),
                old(screen).height(),
                column as int,
                row as int,
            ),
            at.0 == column + self.offset_x(old(screen).width(), row as int),
            at.1 == row + self.offset_y(old(screen).height()),
            final(screen).extends(old(screen), seq![Op::MoveTo(at.0, at.1)]),
    {
        let len = self.lines[row as usize].len();
        let count = self.lines.len();
        assert(self@.lines[row as int].len() == len);
        let offset_x: u16 = if self.align_center {
            if len <= screen.width() as usize {
                (screen.width() - len as u16) / 2
            } else {
                0
            }
        } else {
            MARGIN
        };
        let offset_y: u16 = if self.align_center {
            if count <= screen.height() as usize {
                (screen.height() - count as u16) / 2
            } else {
                0
            }
        } else {
            TOP_MARGIN
        };
        screen.move_to(column + offset_x, row + offset_y);
        (column + offset_x, row + offset_y)
    }

    /// Moves the terminal's cursor to the tracker's cursor, at once, and
    /// returns its screen coordinates.
    pub fn move_to_cursor(&self, screen: &mut MainScreen) -> (at: (u16, u16))
        requires
            self.wf(),
        ensures
            at == self.on_screen(
                old(screen).width(),
                old(screen).height(),
                self.cursor().0 as int,
                self.cursor().1 as int,
            ),
            final(screen).extends(
                old(screen),
                self.cursor_ops(old(screen).width(), old(screen).height()),
            ),
    {
        proof {
            lemma_cursor_tracks_index(self@);
        }
        let at = self.move_to(screen, self.cursor_pos.0, self.cursor_pos.1);
        screen.flush();
        at
    }

    /// Paints one row: moves to where it begins and paints its runs.
    fn paint_line(&self, screen: &mut MainScreen, row: usize, start: usize)
        requires
            self.wf(),
            row < self@.lines.len(),
            start == line_start(self@.lines, row as nat),
        ensures
            final(screen).extends(
                old(screen),
                self.line_ops(old(screen).width(), old(screen).height(), row as int),
            ),
    {
        let index = self.index();
        let line = self.lines[row].as_slice();
        let len = line.len();
        assert(line@ == self@.lines[row as int]);
        let confirmed = if self.n_hit <= start {
            0
        } else if self.n_hit - start > len {
            len
        } else {
            self.n_hit - start
        };
        let typed = if index <= start {
            0
        } else if index - start > len {
            len
        } else {
            index - start
        };
        self.move_to(screen, 0, row as u16);
        if confirmed > 0 {
            screen.put(slice_subrange(line, 0, confirmed), Style::Confirmed);
        }
        if typed > confirmed {
            screen.put(slice_subrange(line, confirmed, typed), Style::Mismatched);
        }
        if len > typed {
            screen.put(slice_subrange(line, typed, len), Style::Default);
        }
    }

    /// Paints the whole text again: clears the screen, paints each line as
    /// a confirmed run, a mismatched run and the rest, and puts the cursor
    /// in its place.
    pub fn redraw(&self, screen: &mut MainScreen)
        requires
            self.wf(),
        ensures
            final(screen).extends(
                old(screen),
                self.redraw_ops(old(screen).width(), old(screen).height()),
            ),
    {
        let ghost before = *screen;
        let width = screen.width();
        let height = screen.height();
        let ghost all = self@.lines;
        let ghost parts = Seq::new(all.len(), |row: int| self.line_ops(width, height, row));
        screen.clear();
        let size = self.raw_text.len();
        let mut start: usize = 0;
        let mut row: usize = 0;
        proof {
            lemma_total_len_is_joined_len(all);
            assert(parts.take(0) == Seq::<Seq<Op>>::empty());
        }
        while row < self.lines.len()
            invariant
                self.wf(),
                all == self@.lines,
                total_len(all) == size,
                parts == Seq::new(all.len(), |row: int| self.line_ops(width, height, row)),
                row <= self.lines.len(),
                start == line_start(all, row as nat),
                screen.width() == width,
                screen.height() == height,
                screen.extends(
                    &before,
                    seq![Op::Clear, Op::MoveTo(0, 0), Op::Flush] + parts.take(row as int).flatten(),
                ),
            decreases self.lines.len() - row,
        {
            proof {
                lemma_line_start_grows(all, (row + 1) as nat, all.len());
                assert(parts.take(row + 1) == parts.take(row as int).push(parts[row as int]));
                parts.take(row as int).lemma_flatten_push(parts[row as int]);
            }
            self.paint_line(screen, row, start);
            start += self.lines[row].len();
            row += 1;
        }
        assert(parts.take(row as int) == parts);
        self.move_to_cursor(screen);
        screen.flush();
    }
}

/// The free spaces after `from` end on the delimiter at the latest.
pub proof fn lemma_space_run_bound(text: Seq<u8>, from: int)
    requires
        0 <= from < text.len(),
    ensures
        from + space_run(text, from) < text.len(),
    decreases text.len() - from,
{
    if from < text.len() - 1 && text[from] == SPACE {
        lemma_space_run_bound(text, from + 1);
    }
}

/// A key leaves a valid tracker valid, on the same text and lines.
pub proof fn lemma_forward_valid(t: Tracker, key: char)
    requires
        t.valid(),
    ensures
        t.forward(key).valid(),
        t.forward(key).text == t.text,
        t.forward(key).lines == t.lines,
        t.forward(key).index() >= t.index(),
        t.forward(key).hits >= t.hits,
{
    if !t.at_end() && t.misses == 0 && t.accepts(key) {
        lemma_space_run_bound(t.text, (t.hits + 1) as int);
    }
}

/// Cursor law: whatever keys and backspaces led to it, the cursor of a valid
/// tracker is a place in its lines, and the lengths of the rows above it plus
/// its column are `hits + misses`.
pub proof fn lemma_cursor_tracks_index(t: Tracker)
    requires
        t.valid(),
    ensures
        is_position(t.lines, t.hits + t.misses, t.cursor().0, t.cursor().1),
{
    lemma_total_len_is_joined_len(t.lines);
    lemma_locate_is_position(t.lines, t.index());
}

/// Session law: whatever the typist does, in whatever order, the tracker
/// stays valid on its text and lines, no hit is ever lost, and the cursor is
/// the place of `hits + misses`: the lengths of the rows above it plus its
/// column give that index.
pub proof fn lemma_session(t: Tracker, moves: Seq<Move>)
    requires
        t.valid(),
    ensures
        t.run(moves).valid(),
        t.run(moves).text == t.text,
        t.run(moves).lines == t.lines,
        t.run(moves).hits >= t.hits,
        is_position(
            t.lines,
            t.run(moves).hits + t.run(moves).misses,
            t.run(moves).cursor().0,
            t.run(moves).cursor().1,
        ),
    decreases moves.len(),
{
    if moves.len() > 0 {
        lemma_session(t, moves.drop_last());
        let before = t.run(moves.drop_last());
        match moves.last() {
            Move::Key(key) => {
                lemma_forward_valid(before, key);
            },
            Move::Back => {},
        }
    }
    lemma_cursor_tracks_index(t.run(moves));
}

/// Hit permanence: backspaces never reduce `hits`. Each takes one from
/// `misses`, which stops at zero.
pub proof fn lemma_hits_are_permanent(t: Tracker, n: nat)
    ensures
        t.backward_times(n).hits == t.hits,
        t.backward_times(n).misses == if t.misses >= n {
            t.misses - n
        } else {
            0
        },
        t.backward_times(n).text == t.text,
        t.backward_times(n).lines == t.lines,
        t.valid() ==> t.backward_times(n).valid(),
    decreases n,
{
    if n > 0 {
        lemma_hits_are_permanent(t.backward(), (n - 1) as nat);
    }
}

/// While wrong keys are outstanding no key is compared with the text: each
/// is one more wrong key, up to the delimiter, and `hits` does not move.
pub proof fn lemma_misses_pile_up(t: Tracker, keys: Seq<char>)
    requires
        t.valid(),
        t.misses > 0,
    ensures
        t.forward_all(keys).hits == t.hits,
        t.forward_all(keys).text == t.text,
        t.forward_all(keys).lines == t.lines,
        t.misses <= t.forward_all(keys).misses <= t.misses + keys.len(),
    decreases keys.len(),
{
    if keys.len() > 0 {
        lemma_forward_valid(t, keys[0]);
        lemma_misses_pile_up(t.forward(keys[0]), keys.drop_first());
    }
}

/// Mismatch correction law: after `n` wrong keys in a row and `n`
/// backspaces the tracker is what it was before the first of them, with the
/// same counters, the same cursor and the same expectation.
///
/// The keys are wrong from the first on: it is not accepted, and after it
/// every key only adds to the run.
pub proof fn lemma_mistakes_are_undone(t: Tracker, keys: Seq<char>)
    requires
        t.valid(),
        t.misses == 0,
        keys.len() > 0 ==> !t.at_end() && !t.accepts(keys[0]),
    ensures
        t.forward_all(keys).backward_times(keys.len()) == t,
        t.forward_all(keys).backward_times(keys.len()).cursor() == t.cursor(),
        t.forward_all(keys).backward_times(keys.len()).expectation() == t.expectation(),
{
    if keys.len() > 0 {
        lemma_forward_valid(t, keys[0]);
        lemma_misses_pile_up(t.forward(keys[0]), keys.drop_first());
    }
    lemma_hits_are_permanent(t.forward_all(keys), keys.len());
}

/// Rewrap law: a reset without a passage leaves the text and both counters
/// as they were, and the tracker valid: the cursor is then the position of
/// the same index in the new lines.
pub proof fn lemma_rewrap_keeps_progress(t: Tracker, width: nat)
    requires
        t.valid(),
    ensures
        t.reset(None, width).valid(),
        t.reset(None, width).text == t.text,
        t.reset(None, width).hits == t.hits,
        t.reset(None, width).misses == t.misses,
        t.reset(None, width).cursor() == locate(
            wrap(t.text, wrap_width(t.text.len(), width)),
            t.hits + t.misses,
        ),
{
    lemma_wrap_round_trip(t.text, wrap_width(t.text.len(), width));
    lemma_wrap_lines_nonempty(t.text, wrap_width(t.text.len(), width));
}

/// A reset with a passage gives a valid tracker at its start, whose lines,
/// joined, are the passage and the delimiter after it.
pub proof fn lemma_load_starts_over(t: Tracker, passage: Seq<u8>, width: nat)
    ensures
        t.reset(Some(passage), width).valid(),
        t.reset(Some(passage), width).lines.flatten() == passage.push(SPACE),
        t.reset(Some(passage), width).lines.flatten().drop_last() == passage,
        t.reset(Some(passage), width).index() == 0,
{
    let text = source_text(passage);
    lemma_wrap_round_trip(text, wrap_width(text.len(), width));
    lemma_wrap_lines_nonempty(text, wrap_width(text.len(), width));
    assert(text.drop_last() == passage);
}

/// Termination law: a tracker is at its `End` only with no wrong key
/// outstanding and with its index on the delimiter.
pub proof fn lemma_end_is_final(t: Tracker, key: char)
    requires
        t.valid(),
    ensures
        t.forward(key).state() == State::End ==> t.forward(key).misses == 0 && t.forward(
            key,
        ).index() == t.text.len() - 1,
        t.state() == State::End ==> t.forward(key) == t,
{
}

} // verus!
