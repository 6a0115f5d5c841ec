//! The interpreter as a machine that runs one instruction at a time.
//!
//! The machine holds a stack of frames. The lowest frame is the program, each
//! frame above it is the body of a loop that is being repeated, and the top
//! frame is the one that runs. The machine does no input or output of its
//! own: a step is handed the next byte of input, and its result says what the
//! host has to do.

use crate::scan::{extract_loop, loop_body, loop_exit};
use crate::tape::{Tape, TapeView};
use vstd::prelude::*;

verus! {

/// Why a program cannot go on.
#[derive(Clone, Copy, Debug, PartialEq, Eq, Structural)]
pub enum Error {
    /// A character that is no instruction and no blank. `position` counts the
    /// characters from this one to the end of the code it stands in, itself
    /// included, so the last character has position 1.
    UnexpectedCharacter { character: char, position: usize },
    /// A `,` found no byte to read.
    InputExhausted,
}

/// What a step asks of the host.
#[derive(Clone, Copy, Debug, PartialEq, Eq, Structural)]
pub enum Action {
    /// Nothing; the machine can take another step.
    Continue,
    /// Write this byte to the output.
    Output(u8),
    /// The program has run to its end.
    Halt,
    /// The program has failed.
    Abort(Error),
}

/// A frame as a mathematical object: some code, and the index of the
/// character that runs next.
pub struct FrameView {
    pub code: Seq<char>,
    pub next: int,
}

impl FrameView {
    /// A frame that is about to run `code` from its first character.
    pub open spec fn start(code: Seq<char>) -> FrameView {
        FrameView { code, next: 0 }
    }

    /// Whether every character of the frame has run.
    pub open spec fn exhausted(self) -> bool {
        self.next >= self.code.len()
    }

    /// The frame with `next` as the index of the character that runs next.
    pub open spec fn at(self, next: int) -> FrameView {
        FrameView { next, ..self }
    }
}

/// The characters that a program may hold between its instructions.
pub open spec fn is_blank(c: char) -> bool {
    c == ' ' || c == '\t' || c == '\r' || c == '\n'
}

/// The result of a step: the tape and the frames after it, and what the host
/// has to do.
pub struct Step {
    pub tape: TapeView,
    pub frames: Seq<FrameView>,
    pub action: Action,
}

/// Whether the next step reads a byte of input.
pub open spec fn wants_input(frames: Seq<FrameView>) -> bool {
    frames.len() > 0 && !frames.last().exhausted() && frames.last().code[frames.last().next]
        == ','
}

/// One step of the machine.
///
/// At the end of the program the machine halts. At the end of a loop body it
/// starts the body again if the byte under the cursor is not zero, and leaves
/// the loop if it is. Otherwise the next character of the top frame runs. A
/// step that fails changes nothing, so the next step fails in the same way.
pub open spec fn step(tape: TapeView, frames: Seq<FrameView>, input: Option<u8>) -> Step {
    if frames.len() == 0 {
        Step { tape, frames, action: Action::Halt }
    } else {
        let top = frames.last();
        let below = frames.drop_last();
        if top.exhausted() {
            if below.len() == 0 {
                Step { tape, frames, action: Action::Halt }
            } else if tape.current() != 0 {
                Step { tape, frames: below.push(top.at(0)), action: Action::Continue }
            } else {
                Step { tape, frames: below, action: Action::Continue }
            }
        } else {
            let c = top.code[top.next];
            let moved = below.push(top.at(top.next + 1));
            if c == '>' {
                Step { tape: tape.step_right(), frames: moved, action: Action::Continue }
            } else if c == '<' {
                Step { tape: tape.step_left(), frames: moved, action: Action::Continue }
            } else if c == '+' {
                Step { tape: tape.increment(), frames: moved, action: Action::Continue }
            } else if c == '-' {
                Step { tape: tape.decrement(), frames: moved, action: Action::Continue }
            } else if c == '.' {
                Step { tape, frames: moved, action: Action::Output(tape.current()) }
            } else if c == ',' {
                match input {
                    Some(byte) => Step {
                        tape: tape.set(byte),
                        frames: moved,
                        action: Action::Continue,
                    },
                    None => Step { tape, frames, action: Action::Abort(Error::InputExhausted) },
                }
            } else if c == '[' {
                let after = below.push(top.at(loop_exit(top.code, top.next + 1)));
                if tape.current() != 0 {
                    Step {
                        tape,
                        frames: after.push(FrameView::start(loop_body(top.code, top.next + 1))),
                        action: Action::Continue,
                    }
                } else {
                    Step { tape, frames: after, action: Action::Continue }
                }
            } else if is_blank(c) {
                Step { tape, frames: moved, action: Action::Continue }
            } else {
                Step {
                    tape,
                    frames,
                    action: Action::Abort(
                        Error::UnexpectedCharacter {
                            character: c,
                            position: (top.code.len() - top.next) as usize,
                        },
                    ),
                }
            }
        }
    }
}

/// An empty loop that is met with zero under the cursor is passed over: the
/// step moves on behind its `]`, enters no loop body, and leaves the tape and
/// its cursor as they were.
pub proof fn lemma_empty_loop_skipped(tape: TapeView, frames: Seq<FrameView>, input: Option<u8>)
    requires
        frames.len() > 0,
        0 <= frames.last().next,
        frames.last().next + 1 < frames.last().code.len(),
        frames.last().code[frames.last().next] == '[',
        frames.last().code[frames.last().next + 1] == ']',
        tape.current() == 0,
    ensures
        step(tape, frames, input) == (Step {
            tape,
            frames: frames.drop_last().push(frames.last().at(frames.last().next + 2)),
            action: Action::Continue,
        }),
{
}

struct Frame {
    code: Vec<char>,
    next: usize,
}

impl View for Frame {
    type V = FrameView;

    closed spec fn view(&self) -> FrameView {
        FrameView { code: self.code@, next: self.next as int }
    }
}

/// A program in the middle of its run.
pub struct Machine {
    frames: Vec<Frame>,
}

impl View for Machine {
    type V = Seq<FrameView>;

    closed spec fn view(&self) -> Seq<FrameView> {
        Seq::new(self.frames@.len(), |i: int| self.frames@[i]@)
    }
}

impl Machine {
    /// A machine that is about to run `code` from its first character.
    pub fn new(code: &str) -> (machine: Machine)
        ensures
            machine@ == seq![FrameView::start(code@)],
    {
        let mut chars: Vec<char> = Vec::new();
        for c in it: code.chars()
            invariant
                it.seq() == code@,
                chars@ == it.seq().take(it.index()),
        {
            chars.push(c);
        }
        assert(chars@ =~= code@);
        let mut frames: Vec<Frame> = Vec::new();
        frames.push(Frame { code: chars, next: 0 });
        let machine = Machine { frames };
        assert(machine@ =~= seq![FrameView::start(code@)]);
        machine
    }

    /// Whether the next step reads a byte of input.
    pub fn wants_input(&self) -> (wanted: bool)
        ensures
            wanted == wants_input(self@),
    {
        let depth: usize = self.frames.len();
        if depth == 0 {
            return false;
        }
        let top = &self.frames[depth - 1];
        assert(self@.last() == top@);
        top.next < top.code.len() && top.code[top.next] == ','
    }

    /// Runs one instruction, or ends or repeats a loop body.
    ///
    /// `input` is the next byte of input, or `None` if there is none. Only a
    /// step that reads looks at it.
    pub fn step(&mut self, tape: &mut Tape, input: Option<u8>) -> (action: Action)
        ensures
            final(tape)@ == step(old(tape)@, old(self)@, input).tape,
            final(self)@ == step(old(tape)@, old(self)@, input).frames,
            action == step(old(tape)@, old(self)@, input).action,
            final(tape)@.wf(),
    {
        let ghost frames = self@;
        let current: u8 = tape.get();
        let top = match self.frames.pop() {
            Some(top) => top,
            None => {
                return Action::Halt;
            },
        };
        assert(frames.last() == top@);
        assert(self@ =~= frames.drop_last());
        let Frame { code, next } = top;
        let length: usize = code.len();
        if next >= length {
            if self.frames.len() == 0 {
                self.frames.push(Frame { code, next });
                assert(self@ =~= frames);
                return Action::Halt;
            }
            if current != 0 {
                self.frames.push(Frame { code, next: 0 });
                assert(self@ =~= frames.drop_last().push(frames.last().at(0)));
            }
            return Action::Continue;
        }
        let c = code[next];
        if c == '[' {
            let (body, exit) = extract_loop(&code, next + 1);
            self.frames.push(Frame { code, next: exit });
            if current != 0 {
                self.frames.push(Frame { code: body, next: 0 });
            }
            assert(self@ =~= step(old(tape)@, frames, input).frames);
            return Action::Continue;
        }
        let action = if c == '>' {
            tape.step_right();
            Action::Continue
        } else if c == '<' {
            tape.step_left();
            Action::Continue
        } else if c == '+' {
            tape.increment();
            Action::Continue
        } else if c == '-' {
            tape.decrement();
            Action::Continue
        } else if c == '.' {
            Action::Output(current)
        } else if c == ',' {
            match input {
                Some(byte) => {
                    tape.set(byte);
                    Action::Continue
                },
                None => Action::Abort(Error::InputExhausted),
            }
        } else if c == ' ' || c == '\t' || c == '\r' || c == '\n' {
            Action::Continue
        } else {
            Action::Abort(Error::UnexpectedCharacter { character: c, position: length - next })
        };
        match action {
            Action::Abort(_) => {
                self.frames.push(Frame { code, next });
                assert(self@ =~= frames);
            },
            _ => {
                self.frames.push(Frame { code, next: next + 1 });
                assert(self@ =~= frames.drop_last().push(frames.last().at(frames.last().next + 1)));
            },
        }
        action
    }
}

} // verus!
