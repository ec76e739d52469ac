//! The screen as the engine sees it: a size, and a queue of commands for
//! whoever owns the terminal.

use crate::wrap::NEWLINE;
use vstd::prelude::*;

verus! {

/// The look of what is painted.
#[derive(Clone, Copy, Debug, PartialEq, Eq, Structural)]
pub enum Style {
    /// Text that was typed correctly.
    Confirmed,
    /// Text under an outstanding wrong key.
    Mismatched,
    /// Text that is still to be typed.
    Default,
    /// No styling at all: cleared cells, and whatever is at rest.
    Blank,
    /// The part of the keyboard hint that shows the key to press.
    KeyHint,
    /// The part of the keyboard hint that asks for a backspace.
    UndoHint,
}

/// One command for the terminal, as the engine queues it.
#[derive(Clone, Debug, PartialEq, Eq)]
pub enum Command {
    /// Clear the whole screen.
    Clear,
    /// Move the cursor to a column and a row.
    MoveTo(u16, u16),
    /// Move the cursor right by some columns.
    MoveRight(u16),
    /// Move the cursor left by some columns.
    MoveLeft(u16),
    /// Move the cursor down by some rows.
    MoveDown(u16),
    /// Move the cursor up by some rows.
    MoveUp(u16),
    /// Print one glyph in a style.
    Glyph(char, Style),
    /// Print text in a style. The bytes are a run of the source text, or a
    /// piece of the hint, as UTF-8; a run that ends inside a character of
    /// several bytes is cut there.
    Text(Vec<u8>, Style),
    /// Remember where the cursor is.
    SavePosition,
    /// Put the cursor back where it was remembered.
    RestorePosition,
    /// Send everything queued so far to the terminal.
    Flush,
}

/// A command as a mathematical value.
pub enum Op {
    Clear,
    MoveTo(u16, u16),
    MoveRight(u16),
    MoveLeft(u16),
    MoveDown(u16),
    MoveUp(u16),
    Glyph(char, Style),
    Text(Seq<u8>, Style),
    SavePosition,
    RestorePosition,
    Flush,
}

impl View for Command {
    type V = Op;

    open spec fn view(&self) -> Op {
        match *self {
            Command::Clear => Op::Clear,
            Command::MoveTo(column, row) => Op::MoveTo(column, row),
            Command::MoveRight(by) => Op::MoveRight(by),
            Command::MoveLeft(by) => Op::MoveLeft(by),
            Command::MoveDown(by) => Op::MoveDown(by),
            Command::MoveUp(by) => Op::MoveUp(by),
            Command::Glyph(glyph, style) => Op::Glyph(glyph, style),
            Command::Text(text, style) => Op::Text(text@, style),
            Command::SavePosition => Op::SavePosition,
            Command::RestorePosition => Op::RestorePosition,
            Command::Flush => Op::Flush,
        }
    }
}

/// What a vector of commands holds, as mathematical values.
pub open spec fn view_commands(commands: Vec<Command>) -> Seq<Op> {
    Seq::new(commands@.len(), |i: int| commands@[i]@)
}

/// The glyph that stands for a newline wherever text is shown.
pub const RETURN_GLYPH: char = '\u{23CE}';

/// The glyph that is shown for a character: itself, but for the newline,
/// which is never sent to the terminal as it is.
pub open spec fn shown_glyph(c: char) -> char {
    if c == '\n' {
        RETURN_GLYPH
    } else {
        c
    }
}

/// The bytes that are shown for a byte of text: itself, but for the newline,
/// which gives way to the UTF-8 bytes of [`RETURN_GLYPH`].
pub open spec fn shown_byte(byte: u8) -> Seq<u8> {
    if byte == NEWLINE {
        seq![0xE2u8, 0x8Fu8, 0x8Eu8]
    } else {
        seq![byte]
    }
}

/// The bytes that are shown for a text: those of each of its bytes, in
/// order.
pub open spec fn shown(text: Seq<u8>) -> Seq<u8> {
    text.map_values(|byte: u8| shown_byte(byte)).flatten()
}

/// What a move by `by` columns queues: right for a positive number, left for
/// a negative one, nothing for zero.
pub open spec fn sideways(by: int) -> Seq<Op> {
    if by > 0 {
        seq![Op::MoveRight(by as u16)]
    } else if by < 0 {
        seq![Op::MoveLeft((-by) as u16)]
    } else {
        Seq::empty()
    }
}

/// What a move by `by` rows queues: down for a positive number, up for a
/// negative one, nothing for zero.
pub open spec fn upright(by: int) -> Seq<Op> {
    if by > 0 {
        seq![Op::MoveDown(by as u16)]
    } else if by < 0 {
        seq![Op::MoveUp((-by) as u16)]
    } else {
        Seq::empty()
    }
}

/// What a move by columns and rows queues: the move sideways, then the
/// move up or down.
pub open spec fn move_ops(column: int, row: int) -> Seq<Op> {
    sideways(column) + upright(row)
}

/// Computes [`shown`].
pub fn show(text: &[u8]) -> (out: Vec<u8>)
    ensures
        out@ == shown(text@),
{
    let mut out: Vec<u8> = Vec::new();
    let mut i: usize = 0;
    let ghost parts = text@.map_values(|byte: u8| shown_byte(byte));
    assert(parts.take(0) == Seq::<Seq<u8>>::empty());
    while i < text.len()
        invariant
            i <= text.len(),
            parts == text@.map_values(|byte: u8| shown_byte(byte)),
            out@ == parts.take(i as int).flatten(),
        decreases text.len() - i,
    {
        proof {
            assert(parts.take(i + 1) == parts.take(i as int).push(parts[i as int]));
            parts.take(i as int).lemma_flatten_push(parts[i as int]);
        }
        if text[i] == NEWLINE {
            out.push(0xE2);
            out.push(0x8F);
            out.push(0x8E);
        } else {
            out.push(text[i]);
        }
        i += 1;
    }
    assert(parts.take(i as int) == parts);
    out
}

/// The screen: its size in columns and rows, and the commands that wait to
/// be carried out on it.
pub struct MainScreen {
    width: u16,
    height: u16,
    queue: Vec<Command>,
}

impl MainScreen {
    /// The commands that wait to be carried out, oldest first.
    pub closed spec fn queued(&self) -> Seq<Op> {
        view_commands(self.queue)
    }

    /// The number of columns, in contracts.
    pub closed spec fn spec_width(&self) -> u16 {
        self.width
    }

    /// The number of rows, in contracts.
    pub closed spec fn spec_height(&self) -> u16 {
        self.height
    }

    /// The screen after `ops` were queued on `before`: the same size, and
    /// the new commands behind those that waited already.
    pub open spec fn extends(&self, before: &MainScreen, ops: Seq<Op>) -> bool {
        &&& self.width() == before.width()
        &&& self.height() == before.height()
        &&& self.queued() =~= before.queued() + ops
    }

    /// The number of columns.
    #[verifier::when_used_as_spec(spec_width)]
    pub fn width(&self) -> (width: u16)
        ensures
            width == self.width(),
    {
        self.width
    }

    /// The number of rows.
    #[verifier::when_used_as_spec(spec_height)]
    pub fn height(&self) -> (height: u16)
        ensures
            height == self.height(),
    {
        self.height
    }

    /// What is queued in two steps is queued behind what waited, in order.
    pub proof fn lemma_extends_chain(
        &self,
        before: &MainScreen,
        between: &MainScreen,
        first: Seq<Op>,
        second: Seq<Op>,
    )
        requires
            between.extends(before, first),
            self.extends(between, second),
        ensures
            self.extends(before, first + second),
    {
    }

    /// A screen of the given size with nothing queued.
    #[must_use]
    pub fn new(width: u16, height: u16) -> (screen: Self)
        ensures
            screen.width() == width,
            screen.height() == height,
            screen.queued() == Seq::<Op>::empty(),
    {
        MainScreen { width, height, queue: Vec::new() }
    }

    fn push(&mut self, command: Command)
        ensures
            final(self).extends(old(self), seq![command@]),
    {
        let ghost before = view_commands(self.queue);
        self.queue.push(command);
        assert(view_commands(self.queue) == before + seq![command@]);
    }

    /// Clears the screen and puts the cursor in its top left corner, at
    /// once.
    pub fn clear(&mut self)
        ensures
            final(self).extends(old(self), seq![Op::Clear, Op::MoveTo(0, 0), Op::Flush]),
    {
        self.push(Command::Clear);
        self.push(Command::MoveTo(0, 0));
        self.push(Command::Flush);
    }

    /// Takes note of a new size.
    pub fn set_size(&mut self, width: u16, height: u16)
        ensures
            final(self).width() == width,
            final(self).height() == height,
            final(self).queued() == old(self).queued(),
    {
        self.width = width;
        self.height = height;
    }

    /// Moves the cursor to a column and a row.
    pub fn move_to(&mut self, column: u16, row: u16)
        ensures
            final(self).extends(old(self), seq![Op::MoveTo(column, row)]),
    {
        self.push(Command::MoveTo(column, row));
    }

    /// Moves the cursor by a number of columns and rows: right and down for
    /// positive numbers, left and up for negative ones.
    pub fn move_by(&mut self, column: i16, row: i16)
        ensures
            final(self).extends(old(self), move_ops(column as int, row as int)),
    {
        if column > 0 {
            self.push(Command::MoveRight(column as u16));
        } else if column < 0 {
            self.push(Command::MoveLeft((-(column as i32)) as u16));
        }
        if row > 0 {
            self.push(Command::MoveDown(row as u16));
        } else if row < 0 {
            self.push(Command::MoveUp((-(row as i32)) as u16));
        }
    }

    /// Paints one glyph over the cell under the cursor and leaves the
    /// cursor on it.
    pub fn set(&mut self, glyph: char, style: Style)
        ensures
            final(self).extends(
                old(self),
                seq![Op::Glyph(shown_glyph(glyph), style), Op::MoveLeft(1)],
            ),
    {
        let shown = if glyph == '\n' {
            RETURN_GLYPH
        } else {
            glyph
        };
        self.push(Command::Glyph(shown, style));
        self.push(Command::MoveLeft(1));
    }

    /// Paints text from the cursor on.
    pub fn put(&mut self, text: &[u8], style: Style)
        ensures
            final(self).extends(old(self), seq![Op::Text(shown(text@), style)]),
    {
        self.push(Command::Text(show(text), style));
    }

    /// Remembers where the cursor is.
    pub fn save(&mut self)
        ensures
            final(self).extends(old(self), seq![Op::SavePosition]),
    {
        self.push(Command::SavePosition);
    }

    /// Puts the cursor back where it was remembered.
    pub fn load(&mut self)
        ensures
            final(self).extends(old(self), seq![Op::RestorePosition]),
    {
        self.push(Command::RestorePosition);
    }

    /// Asks for everything queued so far to be sent to the terminal.
    pub fn flush(&mut self)
        ensures
            final(self).extends(old(self), seq![Op::Flush]),
    {
        self.push(Command::Flush);
    }

    /// Hands over the commands that wait, oldest first, and leaves none.
    pub fn take(&mut self) -> (commands: Vec<Command>)
        ensures
            view_commands(commands) == old(self).queued(),
            final(self).queued() == Seq::<Op>::empty(),
            final(self).width() == old(self).width(),
            final(self).height() == old(self).height(),
    {
        let mut commands: Vec<Command> = Vec::new();
        core::mem::swap(&mut self.queue, &mut commands);
        commands
    }
}

} // verus!
