//! The trainer: a tracker, a keyboard hint and a screen, driven one input
//! at a time.

use crate::error::ConfigError;
use crate::layout::{hint_ops, keyboard, Layout, HINT_ROWS};
use crate::screen::{shown_glyph, Command, MainScreen, Op, Style};
use crate::text::{fits, passage_bytes, State, TextLines, Tracker};
use crate::wrap::MARGIN;
use vstd::prelude::*;
use vstd::string::StringSliceAdditionalSpecFns;

verus! {

/// What the typist, or the terminal, did.
#[derive(Clone, Copy, Debug, PartialEq, Eq, Structural)]
pub enum Input {
    /// A character key.
    Char(char),
    /// The Enter key.
    Enter,
    /// The Backspace key.
    Backspace,
    /// The request to leave, Control-C.
    Interrupt,
    /// The terminal has a new size: columns, then rows.
    Resize(u16, u16),
    /// Anything else; it is passed over.
    Other,
}

/// Whether the session goes on.
#[derive(Clone, Copy, Debug, PartialEq, Eq, Structural)]
pub enum Flow {
    /// Wait for the next input.
    Continue,
    /// The session is over: the passage was typed, or the typist left.
    Stop,
}

/// Why a screen of this size cannot show the trainer, if it cannot: it is
/// no wider than the margin, or has too few rows for the hint.
pub open spec fn screen_fault(width: u16, height: u16) -> Option<ConfigError> {
    if width <= MARGIN {
        Some(ConfigError::ScreenTooNarrow)
    } else if height < HINT_ROWS {
        Some(ConfigError::ScreenTooShort)
    } else {
        None
    }
}

/// The character that a key stands for: Enter is the newline.
pub open spec fn key_char(input: Input) -> Option<char> {
    match input {
        Input::Char(c) => Some(c),
        Input::Enter => Some('\n'),
        _ => None,
    }
}

/// The look of the glyph that was just typed over.
pub open spec fn typed_style(state: State) -> Style {
    match state {
        State::Miss => Style::Mismatched,
        _ => Style::Confirmed,
    }
}

/// What bringing the screen up to the tracker queues: everything anew, or
/// the cursor only.
pub open spec fn refresh_ops(tracker: &TextLines, width: u16, height: u16, full: bool) -> Seq<
    Op,
> {
    if full {
        tracker.redraw_ops(width, height)
    } else {
        tracker.cursor_ops(width, height)
    }
}

/// What showing a freshly laid out text queues: the whole text, then the
/// hint.
pub open spec fn layout_ops(tracker: &TextLines, width: u16, height: u16) -> Seq<Op> {
    tracker.redraw_ops(width, height) + hint_ops(
        keyboard(),
        width,
        height,
        tracker@.expectation(),
    )
}

/// What a key queues. `before` is the tracker that took the key and `after`
/// the tracker that came of it: the glyph that was typed over gets its
/// look, the screen is brought up to the tracker, the hint is drawn, and
/// all is cleared if the passage is done.
pub open spec fn key_ops(before: &TextLines, after: &TextLines, width: u16, height: u16) -> Seq<
    Op,
> {
    seq![
        Op::Glyph(shown_glyph(before@.current() as char), typed_style(after@.state())),
        Op::MoveLeft(1),
    ] + refresh_ops(
        after,
        width,
        height,
        after@.index() != before@.index() && after.cursor().0 == 0,
    ) + hint_ops(keyboard(), width, height, after@.expectation()) + (if after@.state()
        == State::End {
        seq![Op::Clear, Op::MoveTo(0, 0), Op::Flush]
    } else {
        Seq::empty()
    })
}

/// What a backspace queues: the screen is brought up to the tracker, the
/// glyph under the cursor gets the look of text still to be typed, and the
/// hint is drawn.
pub open spec fn backspace_ops(
    before: &TextLines,
    after: &TextLines,
    width: u16,
    height: u16,
) -> Seq<Op> {
    refresh_ops(after, width, height, before@.misses > 0 && before.cursor().0 == 0) + seq![
        Op::Glyph(shown_glyph(after@.current() as char), Style::Default),
        Op::MoveLeft(1),
    ] + hint_ops(keyboard(), width, height, after@.expectation())
}

/// The trainer.
pub struct Pecker {
    screen: MainScreen,
    text_lines: TextLines,
    layout: Layout,
}

impl Pecker {
    /// The screen, with what is queued on it.
    pub closed spec fn screen(&self) -> MainScreen {
        self.screen
    }

    /// The progress tracker.
    pub closed spec fn tracker(&self) -> TextLines {
        self.text_lines
    }

    /// The keyboard hint.
    pub closed spec fn hint(&self) -> Layout {
        self.layout
    }

    /// The tracker and the hint are well formed.
    pub open spec fn wf(&self) -> bool {
        self.tracker().wf() && self.hint().wf()
    }

    /// A trainer for a screen of the given size, with the empty passage and
    /// nothing queued.
    #[must_use]
    pub fn new(width: u16, height: u16) -> (pecker: Self)
        ensures
            pecker.wf(),
            pecker.screen().width() == width,
            pecker.screen().height() == height,
            pecker.screen().queued() == Seq::<Op>::empty(),
            pecker.tracker()@ == (Tracker {
                text: seq![crate::wrap::SPACE],
                lines: seq![seq![crate::wrap::SPACE]],
                hits: 0,
                misses: 0,
            }),
            !pecker.tracker().centered(),
    {
        let screen = MainScreen::new(width, height);
        let text_lines = TextLines::new();
        let layout = Layout::new();
        Pecker { screen, text_lines, layout }
    }

    /// The progress tracker.
    pub fn text_lines(&self) -> (tracker: &TextLines)
        ensures
            *tracker == self.tracker(),
    {
        &self.text_lines
    }

    /// The size of the screen: columns, then rows.
    pub fn screen_size(&self) -> (size: (u16, u16))
        ensures
            size == (self.screen().width(), self.screen().height()),
    {
        (self.screen.width(), self.screen.height())
    }

    /// Why the screen cannot show the trainer, if it cannot.
    fn check_screen(&self) -> (res: Result<(), ConfigError>)
        ensures
            res == match screen_fault(self.screen().width(), self.screen().height()) {
                Some(e) => Err::<(), ConfigError>(e),
                None => Ok(()),
            },
    {
        if self.screen.width() <= MARGIN {
            Err(ConfigError::ScreenTooNarrow)
        } else if self.screen.height() < HINT_ROWS {
            Err(ConfigError::ScreenTooShort)
        } else {
            Ok(())
        }
    }

    /// Lays the text out for the screen as it is and shows it with the
    /// hint; with a passage, loads the passage first.
    fn show(&mut self, text: Option<&str>, align_center: bool) -> (res: Result<(), ConfigError>)
        requires
            old(self).wf(),
        ensures
            final(self).wf(),
            final(self).hint() == old(self).hint(),
            final(self).screen().width() == old(self).screen().width(),
            final(self).screen().height() == old(self).screen().height(),
            res is Err <==> screen_fault(old(self).screen().width(), old(self).screen().height())
                is Some || !fits(
                old(self).tracker()@.reset(
                    passage_bytes(text),
                    old(self).screen().width() as nat,
                ).lines,
                align_center,
            ),
            match res {
                Ok(_) => {
                    &&& final(self).tracker()@ == old(self).tracker()@.reset(
                        passage_bytes(text),
                        old(self).screen().width() as nat,
                    )
                    &&& final(self).tracker().centered() == align_center
                    &&& final(self).screen().extends(
                        &old(self).screen(),
                        layout_ops(
                            &final(self).tracker(),
                            old(self).screen().width(),
                            old(self).screen().height(),
                        ),
                    )
                },
                Err(e) => {
                    &&& final(self).tracker() == old(self).tracker()
                    &&& final(self).screen() == old(self).screen()
                    &&& e == match screen_fault(
                        old(self).screen().width(),
                        old(self).screen().height(),
                    ) {
                        Some(fault) => fault,
                        None => ConfigError::TextTooLarge,
                    }
                },
            },
    {
        match self.check_screen() {
            Err(e) => {
                return Err(e);
            },
            Ok(_) => {},
        }
        let ghost before = self.screen;
        match self.text_lines.reset(text, self.screen.width(), align_center) {
            Err(e) => Err(e),
            Ok(expect) => {
                self.text_lines.redraw(&mut self.screen);
                let ghost painted = self.screen;
                self.layout.redraw(&mut self.screen, expect);
                proof {
                    self.screen.lemma_extends_chain(
                        &before,
                        &painted,
                        self.text_lines.redraw_ops(before.width(), before.height()),
                        hint_ops(keyboard(), before.width(), before.height(), expect),
                    );
                }
                Ok(())
            },
        }
    }

    /// Loads a passage and shows it, with the hint for its first key.
    ///
    /// A screen that cannot show the trainer, and a passage whose lines are
    /// beyond the reach of screen coordinates, are refused; nothing changes
    /// then.
    pub fn reset(&mut self, text: &str, align_center: bool) -> (res: Result<(), ConfigError>)
        requires
            old(self).wf(),
        ensures
            final(self).wf(),
            final(self).hint() == old(self).hint(),
            final(self).screen().width() == old(self).screen().width(),
            final(self).screen().height() == old(self).screen().height(),
            res is Err <==> screen_fault(old(self).screen().width(), old(self).screen().height())
                is Some || !fits(
                old(self).tracker()@.reset(
                    Some(text.spec_bytes()),
                    old(self).screen().width() as nat,
                ).lines,
                align_center,
            ),
            match res {
                Ok(_) => {
                    &&& final(self).tracker()@ == old(self).tracker()@.reset(
                        Some(text.spec_bytes()),
                        old(self).screen().width() as nat,
                    )
                    &&& final(self).tracker().centered() == align_center
                    &&& final(self).screen().extends(
                        &old(self).screen(),
                        layout_ops(
                            &final(self).tracker(),
                            old(self).screen().width(),
                            old(self).screen().height(),
                        ),
                    )
                },
                Err(e) => {
                    &&& final(self).tracker() == old(self).tracker()
                    &&& final(self).screen() == old(self).screen()
                    &&& e == match screen_fault(
                        old(self).screen().width(),
                        old(self).screen().height(),
                    ) {
                        Some(fault) => fault,
                        None => ConfigError::TextTooLarge,
                    }
                },
            },
    {
        self.show(Some(text), align_center)
    }

    /// Takes a key and shows what came of it.
    fn type_key(&mut self, key: char) -> (flow: Flow)
        requires
            old(self).wf(),
            screen_fault(old(self).screen().width(), old(self).screen().height()) is None,
        ensures
            final(self).wf(),
            final(self).hint() == old(self).hint(),
            final(self).tracker()@ == old(self).tracker()@.forward(key),
            final(self).tracker().centered() == old(self).tracker().centered(),
            final(self).screen().extends(
                &old(self).screen(),
                key_ops(
                    &old(self).tracker(),
                    &final(self).tracker(),
                    old(self).screen().width(),
                    old(self).screen().height(),
                ),
            ),
            flow == if final(self).tracker()@.state() == State::End {
                Flow::Stop
            } else {
                Flow::Continue
            },
    {
        let ghost before = self.screen;
        let ghost width = before.width();
        let ghost height = before.height();
        let current = self.text_lines.current() as char;
        let (state, expect, redraw) = self.text_lines.forward(key);
        let style = match state {
            State::Miss => Style::Mismatched,
            _ => Style::Confirmed,
        };
        self.screen.set(current, style);
        let ghost s1 = self.screen;
        let ghost a1 = seq![Op::Glyph(shown_glyph(current), style), Op::MoveLeft(1)];
        if redraw {
            self.text_lines.redraw(&mut self.screen);
        } else {
            self.text_lines.move_to_cursor(&mut self.screen);
        }
        let ghost s2 = self.screen;
        let ghost a2 = a1 + refresh_ops(&self.text_lines, width, height, redraw);
        proof {
            self.screen.lemma_extends_chain(
                &before,
                &s1,
                a1,
                refresh_ops(&self.text_lines, width, height, redraw),
            );
        }
        self.layout.redraw(&mut self.screen, expect);
        let ghost s3 = self.screen;
        let ghost a3 = a2 + hint_ops(keyboard(), width, height, expect);
        proof {
            self.screen.lemma_extends_chain(
                &before,
                &s2,
                a2,
                hint_ops(keyboard(), width, height, expect),
            );
        }
        if state == State::End {
            self.screen.clear();
            proof {
                self.screen.lemma_extends_chain(
                    &before,
                    &s3,
                    a3,
                    seq![Op::Clear, Op::MoveTo(0, 0), Op::Flush],
                );
            }
            Flow::Stop
        } else {
            assert(a3 + Seq::<Op>::empty() == a3);
            Flow::Continue
        }
    }

    /// Takes a wrong key back and shows what came of it.
    fn erase(&mut self)
        requires
            old(self).wf(),
            screen_fault(old(self).screen().width(), old(self).screen().height()) is None,
        ensures
            final(self).wf(),
            final(self).hint() == old(self).hint(),
            final(self).tracker()@ == old(self).tracker()@.backward(),
            final(self).tracker().centered() == old(self).tracker().centered(),
            final(self).screen().extends(
                &old(self).screen(),
                backspace_ops(
                    &old(self).tracker(),
                    &final(self).tracker(),
                    old(self).screen().width(),
                    old(self).screen().height(),
                ),
            ),
    {
        let ghost before = self.screen;
        let ghost width = before.width();
        let ghost height = before.height();
        let (expect, redraw) = self.text_lines.backward();
        if redraw {
            self.text_lines.redraw(&mut self.screen);
        } else {
            self.text_lines.move_to_cursor(&mut self.screen);
        }
        let ghost s1 = self.screen;
        let ghost a1 = refresh_ops(&self.text_lines, width, height, redraw);
        let current = self.text_lines.current() as char;
        self.screen.set(current, Style::Default);
        let ghost s2 = self.screen;
        let ghost a2 = a1 + seq![Op::Glyph(shown_glyph(current), Style::Default), Op::MoveLeft(1)];
        proof {
            self.screen.lemma_extends_chain(
                &before,
                &s1,
                a1,
                seq![Op::Glyph(shown_glyph(current), Style::Default), Op::MoveLeft(1)],
            );
        }
        self.layout.redraw(&mut self.screen, expect);
        proof {
            self.screen.lemma_extends_chain(
                &before,
                &s2,
                a2,
                hint_ops(keyboard(), width, height, expect),
            );
        }
    }

    /// Takes one input and queues what has to be painted for it. Says
    /// whether the session goes on.
    ///
    /// A key moves the tracker forward, Backspace moves it back, and a new
    /// size has the text laid out again where the typist stands. Control-C
    /// clears the screen and ends the session, as does the key that
    /// completes the passage. Anything else is passed over.
    ///
    /// On a screen that cannot show the trainer nothing is typed or
    /// painted, and the fault is returned; so it is for a new size whose
    /// lines would be beyond the reach of screen coordinates. The new size
    /// itself is always taken note of.
    pub fn handle(&mut self, input: Input) -> (res: Result<Flow, ConfigError>)
        requires
            old(self).wf(),
        ensures
            final(self).wf(),
            final(self).hint() == old(self).hint(),
            final(self).tracker().centered() == old(self).tracker().centered(),
            match input {
                Input::Interrupt => {
                    &&& res == Ok::<Flow, ConfigError>(Flow::Stop)
                    &&& final(self).tracker() == old(self).tracker()
                    &&& final(self).screen().extends(
                        &old(self).screen(),
                        seq![Op::Clear, Op::MoveTo(0, 0), Op::Flush],
                    )
                },
                Input::Other => {
                    &&& res == Ok::<Flow, ConfigError>(Flow::Continue)
                    &&& final(self).tracker() == old(self).tracker()
                    &&& final(self).screen() == old(self).screen()
                },
                Input::Resize(width, height) => {
                    &&& final(self).screen().width() == width
                    &&& final(self).screen().height() == height
                    &&& res is Err <==> screen_fault(width, height) is Some || !fits(
                        old(self).tracker()@.reset(None, width as nat).lines,
                        old(self).tracker().centered(),
                    )
                    &&& match res {
                        Ok(flow) => {
                            &&& flow == Flow::Continue
                            &&& final(self).tracker()@ == old(self).tracker()@.reset(
                                None,
                                width as nat,
                            )
                            &&& final(self).screen().queued() == old(self).screen().queued()
                                + layout_ops(&final(self).tracker(), width, height)
                        },
                        Err(e) => {
                            &&& final(self).tracker() == old(self).tracker()
                            &&& final(self).screen().queued() == old(self).screen().queued()
                            &&& e == match screen_fault(width, height) {
                                Some(fault) => fault,
                                None => ConfigError::TextTooLarge,
                            }
                        },
                    }
                },
                Input::Backspace => match screen_fault(
                    old(self).screen().width(),
                    old(self).screen().height(),
                ) {
                    Some(fault) => {
                        &&& res == Err::<Flow, ConfigError>(fault)
                        &&& final(self).tracker() == old(self).tracker()
                        &&& final(self).screen() == old(self).screen()
                    },
                    None => {
                        &&& res == Ok::<Flow, ConfigError>(Flow::Continue)
                        &&& final(self).tracker()@ == old(self).tracker()@.backward()
                        &&& final(self).screen().extends(
                            &old(self).screen(),
                            backspace_ops(
                                &old(self).tracker(),
                                &final(self).tracker(),
                                old(self).screen().width(),
                                old(self).screen().height(),
                            ),
                        )
                    },
                },
                _ => match screen_fault(old(self).screen().width(), old(self).screen().height()) {
                    Some(fault) => {
                        &&& res == Err::<Flow, ConfigError>(fault)
                        &&& final(self).tracker() == old(self).tracker()
                        &&& final(self).screen() == old(self).screen()
                    },
                    None => {
                        &&& final(self).tracker()@ == old(self).tracker()@.forward(
                            key_char(input).unwrap(),
                        )
                        &&& final(self).screen().extends(
                            &old(self).screen(),
                            key_ops(
                                &old(self).tracker(),
                                &final(self).tracker(),
                                old(self).screen().width(),
                                old(self).screen().height(),
                            ),
                        )
                        &&& res == Ok::<Flow, ConfigError>(
                            if final(self).tracker()@.state() == State::End {
                                Flow::Stop
                            } else {
                                Flow::Continue
                            },
                        )
                    },
                },
            },
    {
        match input {
            Input::Interrupt => {
                self.screen.clear();
                Ok(Flow::Stop)
            },
            Input::Other => Ok(Flow::Continue),
            Input::Resize(width, height) => {
                self.screen.set_size(width, height);
                let centered = self.text_lines.align_center();
                match self.show(None, centered) {
                    Ok(_) => Ok(Flow::Continue),
                    Err(e) => Err(e),
                }
            },
            Input::Backspace => {
                match self.check_screen() {
                    Err(e) => {
                        return Err(e);
                    },
                    Ok(_) => {},
                }
                self.erase();
                Ok(Flow::Continue)
            },
            Input::Enter => {
                match self.check_screen() {
                    Err(e) => {
                        return Err(e);
                    },
                    Ok(_) => {},
                }
                Ok(self.type_key('\n'))
            },
            Input::Char(key) => {
                match self.check_screen() {
                    Err(e) => {
                        return Err(e);
                    },
                    Ok(_) => {},
                }
                Ok(self.type_key(key))
            },
        }
    }

    /// Hands over the commands that wait for the terminal, oldest first.
    pub fn take_commands(&mut self) -> (commands: Vec<Command>)
        ensures
            crate::screen::view_commands(commands) == old(self).screen().queued(),
            final(self).screen().queued() == Seq::<Op>::empty(),
            final(self).screen().width() == old(self).screen().width(),
            final(self).screen().height() == old(self).screen().height(),
            final(self).tracker() == old(self).tracker(),
            final(self).hint() == old(self).hint(),
    {
        self.screen.take()
    }
}

} // verus!
