//! The abstract machine: the state of a run and the meaning of one
//! instruction, as pure mathematics.  The executable [`crate::Runtime`] is
//! specified against this model, and the laws of the language are proved
//! of it.
//!
//! Loops are entered unconditionally: `[` records its own position and goes
//! on, and the test is made at `]`.  A `[` that is never closed is no
//! fault; the loop it opened is simply never left.

use crate::decimal::decimal;
use crate::token::Token;
use vstd::prelude::*;

verus! {

/// How a cell is written to the output.
#[derive(Debug, Clone, Copy, PartialEq, Eq, Structural)]
pub enum OutputMode {
    /// The cell's value in decimal notation, followed by a line feed.
    Numeric,
    /// The character whose code point is the cell's value.
    Character,
}

/// Why a run was abandoned.  A fault is final: the machine stays at the
/// instruction that caused it, and every later attempt fails the same way.
#[derive(Debug, Clone, Copy, PartialEq, Eq, Structural)]
pub enum Fault {
    /// `<` was reached with the pointer at cell 0.
    PointerUnderflow,
    /// `]` was reached with no loop open.
    UnmatchedLoopEnd,
    /// `.` was reached on a negative cell while writing characters.
    NegativeOutputValue,
    /// `,` was reached with no input left to read.  A machine that was given
    /// no input at all fails this way at its first `,`.
    UnimplementedInput,
}

/// Whether `code` is the code point of a character: at most `0x10FFFF` and
/// not a surrogate.
pub open spec fn is_scalar_value(code: int) -> bool {
    0 <= code <= 0xD7FF || 0xE000 <= code <= 0x10FFFF
}

/// The character that stands for a cell in character output: the one with
/// the cell's value as its code point, or NUL where there is no such
/// character.
pub open spec fn glyph(v: i32) -> char {
    if is_scalar_value(v as int) {
        v as char
    } else {
        '\0'
    }
}

/// The text that writing the cell value `v` adds to the output.
pub open spec fn written(mode: OutputMode, v: i32) -> Seq<char> {
    match mode {
        OutputMode::Numeric => decimal(v as int).push('\n'),
        OutputMode::Character => seq![glyph(v)],
    }
}

/// The cell value after `+`: one more, wrapping from the largest value to
/// the smallest.
pub open spec fn succ(v: i32) -> i32 {
    if v == i32::MAX {
        i32::MIN
    } else {
        (v + 1) as i32
    }
}

/// The cell value after `-`: one less, wrapping from the smallest value to
/// the largest.
pub open spec fn pred(v: i32) -> i32 {
    if v == i32::MIN {
        i32::MAX
    } else {
        (v - 1) as i32
    }
}

/// The cell value that reading the character `c` stores: its code point.
pub open spec fn code_of(c: char) -> i32 {
    c as i32
}

/// Reading a character and writing the cell as a character gives the
/// character back: its code point fits a cell, and no other character has
/// that code point.
pub proof fn lemma_glyph_of_code(c: char)
    ensures
        code_of(c) == c as int,
        0 <= code_of(c) <= 0x10FFFF,
        is_scalar_value(code_of(c) as int),
        glyph(code_of(c)) == c,
{
}

/// `tape`, with zero cells appended until it has at least `len` cells.
pub open spec fn extended(tape: Seq<i32>, len: nat) -> Seq<i32> {
    if tape.len() >= len {
        tape
    } else {
        tape + Seq::new((len - tape.len()) as nat, |i: int| 0i32)
    }
}

/// The state of a run.
#[verifier::ext_equal]
pub struct Machine {
    /// The instructions, fixed for the whole run.
    pub program: Seq<Token>,
    /// How `.` writes a cell.
    pub mode: OutputMode,
    /// The cells that exist so far.  Every cell beyond them is zero.
    pub tape: Seq<i32>,
    /// The position of the current cell.
    pub pointer: nat,
    /// The position of the next instruction.
    pub counter: nat,
    /// The positions of the `[` of the loops that are open, innermost last.
    pub loop_stack: Seq<nat>,
    /// The input that has not been read yet.
    pub input: Seq<char>,
    /// Everything written so far.
    pub output: Seq<char>,
}

impl Machine {
    /// The state in which a run of `program` begins: an empty tape, the
    /// pointer and the counter at 0, no loop open, nothing written.
    pub open spec fn start(program: Seq<Token>, mode: OutputMode, input: Seq<char>) -> Machine {
        Machine {
            program,
            mode,
            tape: Seq::empty(),
            pointer: 0,
            counter: 0,
            loop_stack: Seq::empty(),
            input,
            output: Seq::empty(),
        }
    }

    /// Whether an instruction is left to execute.
    pub open spec fn has_next(self) -> bool {
        self.counter < self.program.len()
    }

    /// The instruction at the counter.
    pub open spec fn token(self) -> Token
        recommends
            self.has_next(),
    {
        self.program[self.counter as int]
    }

    /// The value of the current cell; zero where the tape has not grown that
    /// far yet.
    pub open spec fn current(self) -> i32 {
        if self.pointer < self.tape.len() {
            self.tape[self.pointer as int]
        } else {
            0
        }
    }

    /// The same state with the tape grown to hold the current cell.
    pub open spec fn grown(self) -> Machine {
        Machine { tape: extended(self.tape, self.pointer + 1), ..self }
    }

    /// The fault that the instruction at the counter runs into, if any.
    pub open spec fn fault(self) -> Option<Fault>
        recommends
            self.has_next(),
    {
        match self.token() {
            Token::Left if self.pointer == 0 => Some(Fault::PointerUnderflow),
            Token::EndLoop if self.loop_stack.len() == 0 => Some(Fault::UnmatchedLoopEnd),
            Token::Output if self.mode == OutputMode::Character && self.current() < 0 => Some(
                Fault::NegativeOutputValue,
            ),
            Token::Input if self.input.len() == 0 => Some(Fault::UnimplementedInput),
            _ => None,
        }
    }

    /// The state after the instruction at the counter, where it runs into no
    /// fault.  The tape is grown first.  A `]` on a non-zero cell takes the
    /// innermost `[` off the loop stack and continues there, so that the `[`
    /// is executed again and opens the loop anew.
    pub open spec fn next(self) -> Machine
        recommends
            self.has_next(),
            self.fault() is None,
    {
        let g = self.grown();
        let onward = (g.counter + 1) as nat;
        match self.token() {
            Token::Plus => Machine {
                tape: g.tape.update(g.pointer as int, succ(g.current())),
                counter: onward,
                ..g
            },
            Token::Minus => Machine {
                tape: g.tape.update(g.pointer as int, pred(g.current())),
                counter: onward,
                ..g
            },
            Token::Right => Machine { pointer: g.pointer + 1, counter: onward, ..g },
            Token::Left => Machine { pointer: (g.pointer - 1) as nat, counter: onward, ..g },
            Token::BeginLoop => Machine {
                loop_stack: g.loop_stack.push(g.counter),
                counter: onward,
                ..g
            },
            Token::EndLoop => if g.current() == 0 {
                Machine { loop_stack: g.loop_stack.drop_last(), counter: onward, ..g }
            } else {
                Machine { loop_stack: g.loop_stack.drop_last(), counter: g.loop_stack.last(), ..g }
            },
            Token::Input => Machine {
                tape: g.tape.update(g.pointer as int, code_of(g.input[0])),
                input: g.input.skip(1),
                counter: onward,
                ..g
            },
            Token::Output => Machine {
                output: g.output + written(g.mode, g.current()),
                counter: onward,
                ..g
            },
        }
    }

    /// One attempt to execute an instruction: the state it leaves and the
    /// fault it ran into.  With no instruction left nothing changes.  A
    /// fault leaves the machine at the offending instruction, the tape
    /// grown and everything else as it was.
    pub open spec fn step(self) -> (Machine, Option<Fault>) {
        if !self.has_next() {
            (self, None)
        } else if self.fault() is Some {
            (self.grown(), self.fault())
        } else {
            (self.next(), None)
        }
    }

    /// Execution of at most `budget` instructions: it stops early where no
    /// instruction is left or at the first fault, which is then reported.
    pub open spec fn run(self, budget: nat) -> (Machine, Option<Fault>)
        decreases budget,
    {
        if budget == 0 || !self.has_next() {
            (self, None)
        } else if self.fault() is Some {
            (self.grown(), self.fault())
        } else {
            self.next().run((budget - 1) as nat)
        }
    }

    /// What every state of a run satisfies: the counter is within the
    /// program or just behind it, and the loop stack lists positions of `[`
    /// before the counter, in rising order.
    pub open spec fn valid(self) -> bool {
        &&& self.counter <= self.program.len()
        &&& forall|i: int|
            0 <= i < self.loop_stack.len() ==> #[trigger] self.loop_stack[i] < self.counter
                && self.program[self.loop_stack[i] as int] == Token::BeginLoop
        &&& forall|i: int, j: int|
            0 <= i < j < self.loop_stack.len() ==> #[trigger] self.loop_stack[i]
                < #[trigger] self.loop_stack[j]
    }
}

/// Every run begins in a valid state.
pub proof fn lemma_start_valid(program: Seq<Token>, mode: OutputMode, input: Seq<char>)
    ensures
        Machine::start(program, mode, input).valid(),
{
}

/// An attempt to execute an instruction leaves a valid state valid.
pub proof fn lemma_step_valid(m: Machine)
    requires
        m.valid(),
    ensures
        m.step().0.valid(),
{
}

/// In a valid state the loop stack is no higher than the counter: no more
/// loops are open than instructions lie before the next one.
pub proof fn lemma_loop_depth_bounded(m: Machine)
    requires
        m.valid(),
    ensures
        m.loop_stack.len() <= m.counter,
{
    if m.loop_stack.len() > 0 {
        lemma_rising_entries(m.loop_stack, m.loop_stack.len() - 1);
    }
}

proof fn lemma_rising_entries(stack: Seq<nat>, i: int)
    requires
        0 <= i < stack.len(),
        forall|a: int, b: int|
            0 <= a < b < stack.len() ==> #[trigger] stack[a] < #[trigger] stack[b],
    ensures
        stack[i] >= i,
    decreases i,
{
    if i > 0 {
        lemma_rising_entries(stack, i - 1);
    }
}

/// A bounded run leaves a valid state valid.
pub proof fn lemma_run_valid(m: Machine, budget: nat)
    requires
        m.valid(),
    ensures
        m.run(budget).0.valid(),
    decreases budget,
{
    if budget > 0 && m.has_next() {
        lemma_step_valid(m);
        if m.fault() is None {
            lemma_run_valid(m.next(), (budget - 1) as nat);
        }
    }
}

/// A run of one instruction is one attempt to execute an instruction.
pub proof fn lemma_run_one_is_step(m: Machine)
    ensures
        m.run(1) == m.step(),
{
    reveal_with_fuel(Machine::run, 2);
}

/// What a run never undoes: the program and the output mode stay as they
/// are, the tape does not shrink, what has been written stays at the front
/// of the output, and the input left is the end of the input there was.
pub proof fn lemma_run_only_adds(m: Machine, budget: nat)
    ensures
        m.run(budget).0.program == m.program,
        m.run(budget).0.mode == m.mode,
        m.run(budget).0.tape.len() >= m.tape.len(),
        m.output.is_prefix_of(m.run(budget).0.output),
        m.run(budget).0.input.is_suffix_of(m.input),
    decreases budget,
{
    if budget > 0 && m.has_next() && m.fault() is None {
        let after = m.next();
        lemma_run_only_adds(after, (budget - 1) as nat);
    }
}

/// Running in two slices is running at once: a run of `first + second`
/// instructions is a run of `first`, followed, unless that ended in a
/// fault, by a run of `second` from where it stopped.
pub proof fn lemma_run_resumes(m: Machine, first: nat, second: nat)
    ensures
        m.run(first + second) == if m.run(first).1 is Some {
            m.run(first)
        } else {
            m.run(first).0.run(second)
        },
    decreases first,
{
    if first > 0 && m.has_next() && m.fault() is None {
        lemma_run_resumes(m.next(), (first - 1) as nat, second);
    }
}

/// A fault is final: the machine that ran into one runs into it again at
/// every further attempt, and nothing changes any more.
pub proof fn lemma_fault_is_final(m: Machine)
    requires
        m.has_next(),
        m.fault() is Some,
    ensures
        m.step().0.step() == (m.step().0, m.fault()),
{
}

/// The tape never shrinks, and once an instruction has been attempted it
/// holds the cell that was current: no instruction finds its cell missing,
/// however far to the right the pointer stands.
pub proof fn lemma_tape_holds_current_cell(m: Machine)
    requires
        m.has_next(),
    ensures
        m.step().0.tape.len() > m.pointer,
        m.step().0.tape.len() >= m.tape.len(),
{
}

/// A program of `>`, `+` and `-` alone never faults: from any state with
/// only such instructions ahead, a run goes on for as many instructions as
/// its budget allows and the program has left.
pub proof fn lemma_sweep_never_faults(m: Machine, budget: nat)
    requires
        m.counter <= m.program.len(),
        forall|i: int|
            m.counter <= i < m.program.len() ==> #[trigger] m.program[i] == Token::Right
                || m.program[i] == Token::Plus || m.program[i] == Token::Minus,
    ensures
        m.run(budget).1 is None,
        m.run(budget).0.counter == if m.counter + budget <= m.program.len() {
            m.counter + budget
        } else {
            m.program.len()
        },
        m.run(budget).0.pointer >= m.pointer,
        m.run(budget).0.tape.len() >= m.tape.len(),
        m.run(budget).0.counter > m.counter ==> m.run(budget).0.tape.len() >= m.run(
            budget,
        ).0.pointer,
    decreases budget,
{
    if budget > 0 && m.has_next() {
        lemma_sweep_never_faults(m.next(), (budget - 1) as nat);
    }
}

/// A decrement loop drains its cell: from a `[` that is followed by `-` and
/// `]`, on a positive cell `v`, a run of `3 * v` instructions ends behind
/// the `]` with the cell at zero, the tape grown to hold it, and everything
/// else as it was.
pub proof fn lemma_decrement_loop_drains(m: Machine)
    requires
        m.counter + 2 < m.program.len(),
        m.program[m.counter as int] == Token::BeginLoop,
        m.program[m.counter as int + 1] == Token::Minus,
        m.program[m.counter as int + 2] == Token::EndLoop,
        m.current() > 0,
    ensures
        m.run((3 * m.current()) as nat) == ((Machine {
            tape: m.grown().tape.update(m.pointer as int, 0),
            counter: m.counter + 3,
            ..m.grown()
        }), None::<Fault>),
    decreases m.current(),
{
    // One round is three instructions: `[`, `-`, `]`.
    let v = m.current();
    let opened = m.next();
    let lowered = opened.next();
    let closed = lowered.next();
    assert(opened.run((3 * v - 1) as nat) == lowered.run((3 * v - 2) as nat));
    assert(lowered.run((3 * v - 2) as nat) == closed.run((3 * v - 3) as nat));
    if v > 1 {
        lemma_decrement_loop_drains(closed);
    }
}

/// Whether, from `m` on, every `]` that is reached finds its cell non-zero.
pub open spec fn never_leaves_a_loop(m: Machine) -> bool {
    forall|n: nat|
        #![trigger m.run(n)]
        m.run(n).0.has_next() && m.run(n).0.token() == Token::EndLoop ==> m.run(n).0.current()
            != 0
}

/// A run that has a `]` ahead and never finds a cell zero at a `]` does not
/// come to an end: whatever the budget, an instruction is still left, at or
/// before that `]`.  (It may stop at a fault; it cannot finish.)
pub proof fn lemma_unbroken_loop_never_finishes(m: Machine, close: nat, budget: nat)
    requires
        m.valid(),
        m.counter <= close < m.program.len(),
        m.program[close as int] == Token::EndLoop,
        never_leaves_a_loop(m),
    ensures
        m.run(budget).0.has_next(),
        m.run(budget).0.counter <= close,
    decreases budget,
{
    if budget > 0 && m.fault() is None {
        let after = m.next();
        lemma_step_valid(m);
        assert(m.run(0).0 == m);
        assert(never_leaves_a_loop(after)) by {
            assert forall|n: nat|
                #![trigger after.run(n)]
                after.run(n).0.has_next() && after.run(n).0.token() == Token::EndLoop
                    implies after.run(n).0.current() != 0 by {
                assert(m.run(n + 1) == after.run(n));
            }
        }
        lemma_unbroken_loop_never_finishes(after, close, (budget - 1) as nat);
    }
}

/// Whether `m` stands in an empty loop, `[` directly followed by `]`, on a
/// non-zero cell: either at the `[`, or at the `]` with that `[` innermost.
spec fn in_empty_loop(m: Machine) -> bool {
    let at_open = {
        &&& m.counter + 1 < m.program.len()
        &&& m.program[m.counter as int] == Token::BeginLoop
        &&& m.program[m.counter as int + 1] == Token::EndLoop
    };
    let at_close = {
        &&& 1 <= m.counter < m.program.len()
        &&& m.program[m.counter - 1] == Token::BeginLoop
        &&& m.program[m.counter as int] == Token::EndLoop
        &&& m.loop_stack.len() > 0
        &&& m.loop_stack.last() == m.counter - 1
    };
    m.current() != 0 && (at_open || at_close)
}

proof fn lemma_empty_loop_goes_on(m: Machine, budget: nat)
    requires
        in_empty_loop(m),
    ensures
        m.run(budget).1 is None,
        m.run(budget).0.has_next(),
    decreases budget,
{
    if budget > 0 {
        lemma_empty_loop_goes_on(m.next(), (budget - 1) as nat);
    }
}

/// An empty loop on a non-zero cell spins for ever: from a `[` directly
/// followed by `]`, with the current cell not zero, a run neither comes to
/// an end nor faults, whatever its budget.
pub proof fn lemma_empty_loop_spins(m: Machine, budget: nat)
    requires
        m.counter + 1 < m.program.len(),
        m.program[m.counter as int] == Token::BeginLoop,
        m.program[m.counter as int + 1] == Token::EndLoop,
        m.current() != 0,
    ensures
        m.run(budget).1 is None,
        m.run(budget).0.has_next(),
{
    lemma_empty_loop_goes_on(m, budget);
}

} // verus!
