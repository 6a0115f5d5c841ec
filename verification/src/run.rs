//! Running a program on input that is already at hand.
//!
//! A run takes a number of steps of the machine, hands each reading step the
//! next unread byte, and collects what the program writes.

use crate::machine::{step, wants_input, Action, Error, FrameView, Machine};
use crate::scan::{closing_from, loop_body, loop_end};
use crate::tape::{Tape, TapeView};
use vstd::prelude::*;

verus! {

/// How a run stands.
#[derive(Clone, Copy, Debug, PartialEq, Eq, Structural)]
pub enum Outcome {
    /// The program has neither ended nor failed yet.
    Unfinished,
    /// The program has run to its end.
    Halted,
    /// The program has failed.
    Aborted(Error),
}

/// A run as a mathematical object: the tape and the frames of the machine,
/// the input that is still unread, the output so far, and how the run stands.
pub struct RunView {
    pub tape: TapeView,
    pub frames: Seq<FrameView>,
    pub unread: Seq<u8>,
    pub output: Seq<u8>,
    pub outcome: Outcome,
}

impl RunView {
    /// A run that has taken no step yet.
    pub open spec fn start(tape: TapeView, frames: Seq<FrameView>, input: Seq<u8>) -> RunView {
        RunView { tape, frames, unread: input, output: Seq::empty(), outcome: Outcome::Unfinished }
    }

    /// The byte that the next step is handed: the first unread one if the
    /// step reads and there is one.
    pub open spec fn next_input(self) -> Option<u8> {
        if wants_input(self.frames) && self.unread.len() > 0 {
            Some(self.unread[0])
        } else {
            None
        }
    }

    /// The run one step later. A run that has ended or failed stays as it is.
    pub open spec fn advance(self) -> RunView {
        if self.outcome != Outcome::Unfinished {
            self
        } else {
            let next = step(self.tape, self.frames, self.next_input());
            RunView {
                tape: next.tape,
                frames: next.frames,
                unread: if self.next_input() is Some {
                    self.unread.drop_first()
                } else {
                    self.unread
                },
                output: match next.action {
                    Action::Output(byte) => self.output.push(byte),
                    _ => self.output,
                },
                outcome: match next.action {
                    Action::Halt => Outcome::Halted,
                    Action::Abort(error) => Outcome::Aborted(error),
                    _ => Outcome::Unfinished,
                },
            }
        }
    }

    /// The run `steps` steps later.
    pub open spec fn run(self, steps: nat) -> RunView
        decreases steps,
    {
        if steps == 0 {
            self
        } else {
            self.run((steps - 1) as nat).advance()
        }
    }

    /// Taking `first` steps and then `then` more is taking them all at once.
    pub proof fn lemma_run_split(self, first: nat, then: nat)
        ensures
            self.run(first + then) == self.run(first).run(then),
        decreases then,
    {
        if then > 0 {
            self.lemma_run_split(first, (then - 1) as nat);
            assert(first + then - 1 == first + (then - 1));
        }
    }

    /// Once a run has ended or failed, further steps change nothing.
    pub proof fn lemma_run_settled(self, steps: nat, more: nat)
        requires
            self.run(steps).outcome != Outcome::Unfinished,
        ensures
            self.run(steps + more) == self.run(steps),
        decreases more,
    {
        if more > 0 {
            self.lemma_run_settled(steps, (more - 1) as nat);
            assert(steps + more - 1 == steps + (more - 1));
        }
    }

    /// A run that is unfinished after some steps was unfinished all along.
    pub proof fn lemma_unfinished_before(self, steps: nat, earlier: nat)
        requires
            earlier <= steps,
            self.run(steps).outcome == Outcome::Unfinished,
        ensures
            self.run(earlier).outcome == Outcome::Unfinished,
    {
        if self.run(earlier).outcome != Outcome::Unfinished {
            self.lemma_run_settled(earlier, (steps - earlier) as nat);
        }
    }
}

/// The loop that clears a cell: `[-]`.
pub open spec fn clear_loop() -> Seq<char> {
    seq!['[', '-', ']']
}

/// In the body of the clearing loop, with `value` under the cursor and
/// `value` not zero, two steps for each pass bring the byte to zero and the
/// machine out of the loop.
proof fn lemma_clear_passes(tape: TapeView, value: nat, unread: Seq<u8>, output: Seq<u8>)
    requires
        tape.wf(),
        tape.current() == value,
        value > 0,
    ensures
        (RunView {
            tape,
            frames: seq![FrameView::start(clear_loop()).at(3), FrameView::start(seq!['-'])],
            unread,
            output,
            outcome: Outcome::Unfinished,
        }).run(2 * value) == (RunView {
            tape: tape.set(0),
            frames: seq![FrameView::start(clear_loop()).at(3)],
            unread,
            output,
            outcome: Outcome::Unfinished,
        }),
    decreases value,
{
    let outer = FrameView::start(clear_loop()).at(3);
    let inner = FrameView::start(seq!['-']);
    let entry = RunView {
        tape,
        frames: seq![outer, inner],
        unread,
        output,
        outcome: Outcome::Unfinished,
    };
    let lower = tape.set((value - 1) as u8);
    let decremented = RunView { tape: lower, frames: seq![outer, inner.at(1)], ..entry };
    assert(entry.frames.last() == inner);
    assert(entry.frames.drop_last() =~= seq![outer]);
    assert(seq![outer].push(inner.at(1)) =~= seq![outer, inner.at(1)]);
    assert(entry.advance() == decremented);
    assert(decremented.frames.last() == inner.at(1));
    assert(decremented.frames.drop_last() =~= seq![outer]);
    assert(seq![outer].push(inner.at(1).at(0)) =~= seq![outer, inner]);
    let passed = RunView {
        tape: lower,
        frames: if value == 1 {
            seq![outer]
        } else {
            seq![outer, inner]
        },
        ..entry
    };
    assert(decremented.advance() == passed);
    assert(entry.run(2) == passed) by {
        assert(entry.run(0) == entry);
        assert(entry.run(1) == entry.run(0).advance());
        assert(entry.run(2) == entry.run(1).advance());
    }
    assert(lower.set(0).cells =~= tape.set(0).cells);
    if value == 1 {
    } else {
        lemma_clear_passes(lower, (value - 1) as nat, unread, output);
        entry.lemma_run_split(2, (2 * (value - 1)) as nat);
        assert(2 + 2 * (value - 1) == 2 * value);
    }
}

/// The clearing loop, started with `value` under the cursor, ends after
/// `2 * value + 2` steps and not before: one step to enter the loop, two for
/// each of the `value` passes through its body, and one to end the program.
/// It leaves zero under the cursor and everything else as it was, reads
/// nothing and writes nothing.
pub proof fn lemma_clear_loop(tape: TapeView, input: Seq<u8>, value: nat)
    requires
        tape.wf(),
        tape.current() == value,
    ensures
        RunView::start(tape, seq![FrameView::start(clear_loop())], input).run(2 * value + 2) == (
        RunView {
            tape: tape.set(0),
            frames: seq![FrameView::start(clear_loop()).at(3)],
            unread: input,
            output: Seq::empty(),
            outcome: Outcome::Halted,
        }),
        forall|steps: nat|
            steps < 2 * value + 2 ==> (#[trigger] RunView::start(
                tape,
                seq![FrameView::start(clear_loop())],
                input,
            ).run(steps)).outcome == Outcome::Unfinished,
{
    let code = clear_loop();
    let outer = FrameView::start(code).at(3);
    let inner = FrameView::start(seq!['-']);
    let start = RunView::start(tape, seq![FrameView::start(code)], input);
    assert(loop_end(code, 1) == 2) by {
        reveal_with_fuel(closing_from, 3);
    }
    assert(loop_body(code, 1) =~= seq!['-']);
    assert(start.frames.last() == FrameView::start(code));
    assert(start.frames.drop_last() =~= Seq::<FrameView>::empty());
    assert(Seq::<FrameView>::empty().push(outer) =~= seq![outer]);
    assert(seq![outer].push(inner) =~= seq![outer, inner]);
    let entered = RunView {
        frames: if value == 0 {
            seq![outer]
        } else {
            seq![outer, inner]
        },
        ..start
    };
    assert(start.run(1) == entered) by {
        assert(start.run(0) == start);
        assert(start.advance() == entered);
    }
    let cleared = RunView { tape: tape.set(0), frames: seq![outer], ..start };
    assert(start.run(2 * value + 1) == cleared) by {
        if value == 0 {
            assert(tape.set(0).cells =~= tape.cells);
        } else {
            lemma_clear_passes(tape, value, input, Seq::empty());
            start.lemma_run_split(1, 2 * value);
        }
    }
    assert(cleared.frames.last() == outer);
    assert(cleared.frames.drop_last() =~= Seq::<FrameView>::empty());
    assert(start.run(2 * value + 2) == cleared.advance());
    assert forall|steps: nat| steps < 2 * value + 2 implies (#[trigger] start.run(steps)).outcome
        == Outcome::Unfinished by {
        start.lemma_unfinished_before(2 * value + 1, steps);
    }
}

/// What a run has come to.
pub struct Execution {
    /// The bytes that the program wrote, in order.
    pub output: Vec<u8>,
    /// How many bytes of the input the program read.
    pub consumed: usize,
    /// Whether the program ended, failed, or was stopped by the limit.
    pub outcome: Outcome,
}

impl Machine {
    /// Takes up to `limit` steps on `tape`, reading from `input`, and stops
    /// early when the program ends or fails.
    pub fn run(&mut self, tape: &mut Tape, input: &[u8], limit: u64) -> (done: Execution)
        ensures
            final(tape)@ == RunView::start(old(tape)@, old(self)@, input@).run(limit as nat).tape,
            final(self)@ == RunView::start(old(tape)@, old(self)@, input@).run(
                limit as nat,
            ).frames,
            input@.skip(done.consumed as int) == RunView::start(
                old(tape)@,
                old(self)@,
                input@,
            ).run(limit as nat).unread,
            done.consumed <= input@.len(),
            done.output@ == RunView::start(old(tape)@, old(self)@, input@).run(
                limit as nat,
            ).output,
            done.outcome == RunView::start(old(tape)@, old(self)@, input@).run(
                limit as nat,
            ).outcome,
    {
        let ghost start = RunView::start(tape@, self@, input@);
        let mut output: Vec<u8> = Vec::new();
        let mut consumed: usize = 0;
        let mut outcome = Outcome::Unfinished;
        let mut unfinished = true;
        let mut taken: u64 = 0;
        assert(input@.skip(0) =~= input@);
        while taken < limit && unfinished
            invariant
                taken <= limit,
                consumed <= input@.len(),
                unfinished == (outcome == Outcome::Unfinished),
                start.run(taken as nat) == (RunView {
                    tape: tape@,
                    frames: self@,
                    unread: input@.skip(consumed as int),
                    output: output@,
                    outcome,
                }),
            decreases limit - taken,
        {
            let ghost before = start.run(taken as nat);
            let feed = if self.wants_input() && consumed < input.len() {
                Some(input[consumed])
            } else {
                None
            };
            let action = self.step(tape, feed);
            if feed.is_some() {
                assert(input@.skip(consumed as int).drop_first() =~= input@.skip(consumed + 1));
                consumed = consumed + 1;
            }
            match action {
                Action::Continue => {},
                Action::Output(byte) => {
                    output.push(byte);
                },
                Action::Halt => {
                    outcome = Outcome::Halted;
                    unfinished = false;
                },
                Action::Abort(error) => {
                    outcome = Outcome::Aborted(error);
                    unfinished = false;
                },
            }
            taken = taken + 1;
            assert(start.run(taken as nat) == before.advance());
        }
        proof {
            if taken < limit {
                start.lemma_run_settled(taken as nat, (limit - taken) as nat);
            }
        }
        Execution { output, consumed, outcome }
    }
}

/// Runs `code` from its first character on `tape`, for up to `limit` steps,
/// reading from `input`.
pub fn interpret(tape: &mut Tape, code: &str, input: &[u8], limit: u64) -> (done: Execution)
    ensures
        final(tape)@ == RunView::start(old(tape)@, seq![FrameView::start(code@)], input@).run(
            limit as nat,
        ).tape,
        input@.skip(done.consumed as int) == RunView::start(
            old(tape)@,
            seq![FrameView::start(code@)],
            input@,
        ).run(limit as nat).unread,
        done.consumed <= input@.len(),
        done.output@ == RunView::start(old(tape)@, seq![FrameView::start(code@)], input@).run(
            limit as nat,
        ).output,
        done.outcome == RunView::start(old(tape)@, seq![FrameView::start(code@)], input@).run(
            limit as nat,
        ).outcome,
{
    let mut machine = Machine::new(code);
    machine.run(tape, input, limit)
}

} // verus!
