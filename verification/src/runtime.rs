//! The executable interpreter.
//!
//! A [`Runtime`] holds a program and the state of its run; its view is the
//! [`Machine`] of the model, and every method says what it does to that
//! view.  Execution is budgeted: [`Runtime::run`] executes at most as many
//! instructions as it is told to, so that a program that never ends costs
//! its caller one slice at a time and no more.  Input is handed over whole
//! when the interpreter is made; output collects in the interpreter until
//! it is taken.

use crate::decimal::push_decimal;
use crate::machine::{
    is_scalar_value, lemma_loop_depth_bounded, lemma_step_valid, Fault, Machine, OutputMode,
};
use crate::token::Token;
use vstd::prelude::*;

verus! {

/// `char::from_u32`: the character whose code point is `code`; `None` where
/// `code` is a surrogate (`0xD800` to `0xDFFF`) or lies above `0x10FFFF`.
/// The contract is taken from the standard library's documentation and is
/// not proved here.
#[verifier::external_body]
fn char_from_u32(code: u32) -> (c: Option<char>)
    ensures
        c == (if is_scalar_value(code as int) {
            Some(code as char)
        } else {
            None::<char>
        }),
{
    char::from_u32(code)
}

/// The interpreter: a program together with the state of its run.
pub struct Runtime {
    memory: Vec<i32>,
    parsed: Vec<Token>,
    index: usize,
    loop_index: Vec<usize>,
    loop_depth: usize,
    mem_ptr: usize,
    mode: OutputMode,
    input: Vec<char>,
    consumed: usize,
    output: Vec<char>,
}

impl View for Runtime {
    type V = Machine;

    closed spec fn view(&self) -> Machine {
        Machine {
            program: self.parsed@,
            mode: self.mode,
            tape: self.memory@,
            pointer: self.mem_ptr as nat,
            counter: self.index as nat,
            loop_stack: self.loop_index@.map_values(|p: usize| p as nat),
            input: self.input@.skip(self.consumed as int),
            output: self.output@,
        }
    }
}

impl Runtime {
    /// The invariant of the representation: the tracked loop depth is the
    /// height of the loop stack, no more input has been read than was
    /// given, and the state is one that a run can be in.
    pub closed spec fn wf(&self) -> bool {
        &&& self.loop_depth == self.loop_index.len()
        &&& self.consumed <= self.input.len()
        &&& self@.valid()
    }

    /// An interpreter at the start of a run of `parsed` that will read from
    /// `input` and write in the given mode.
    pub fn new(parsed: Vec<Token>, mode: OutputMode, input: Vec<char>) -> (rt: Runtime)
        ensures
            rt.wf(),
            rt@ == Machine::start(parsed@, mode, input@),
    {
        let rt = Runtime {
            memory: Vec::new(),
            parsed,
            index: 0,
            loop_index: Vec::new(),
            loop_depth: 0,
            mem_ptr: 0,
            mode,
            input,
            consumed: 0,
            output: Vec::new(),
        };
        rt
    }

    /// Whether an instruction is left to execute.
    pub fn has_next(&self) -> (more: bool)
        ensures
            more == self@.has_next(),
    {
        if self.parsed.len() <= self.index {
            false
        } else {
            true
        }
    }

    /// The position of the next instruction.
    pub fn index(&self) -> (i: usize)
        ensures
            i == self@.counter,
    {
        self.index
    }

    /// The position of the current cell.
    pub fn mem_ptr(&self) -> (p: usize)
        ensures
            p == self@.pointer,
    {
        self.mem_ptr
    }

    /// The value of the current cell; zero where the tape has not grown that
    /// far yet.
    pub fn current(&self) -> (v: i32)
        ensures
            v == self@.current(),
    {
        if self.mem_ptr < self.memory.len() {
            self.memory[self.mem_ptr]
        } else {
            0
        }
    }

    /// The cells that exist so far.
    pub fn memory(&self) -> (tape: &Vec<i32>)
        ensures
            tape@ == self@.tape,
    {
        &self.memory
    }

    /// The number of loops that are open.
    pub fn loop_depth(&self) -> (depth: usize)
        requires
            self.wf(),
        ensures
            depth == self@.loop_stack.len(),
    {
        self.loop_depth
    }

    /// The output written since the start of the run or since it was last
    /// taken.
    pub fn output(&self) -> (text: &Vec<char>)
        ensures
            text@ == self@.output,
    {
        &self.output
    }

    /// Hands over the output written so far and leaves none behind; the run
    /// itself is not affected.
    pub fn take_output(&mut self) -> (text: Vec<char>)
        requires
            old(self).wf(),
        ensures
            final(self).wf(),
            text@ == old(self)@.output,
            final(self)@ == (Machine { output: Seq::empty(), ..old(self)@ }),
    {
        let mut text: Vec<char> = Vec::new();
        core::mem::swap(&mut self.output, &mut text);
        text
    }

    /// Attempts to execute the instruction at the counter.
    ///
    /// With no instruction left the call changes nothing and succeeds.
    /// Otherwise the tape is first grown to hold the current cell; then the
    /// instruction either takes effect, as [`Machine::next`] says, or runs
    /// into the fault that [`Machine::fault`] names, which is returned and
    /// leaves everything but the grown tape as it was.
    pub fn step(&mut self) -> (r: Result<(), Fault>)
        requires
            old(self).wf(),
        ensures
            final(self).wf(),
            final(self)@ == old(self)@.step().0,
            r == (match old(self)@.step().1 {
                Some(fault) => Err::<(), Fault>(fault),
                None => Ok(()),
            }),
            old(self)@.has_next() ==> final(self)@.tape.len() > old(self)@.pointer,
    {
        if !self.has_next() {
            return Ok(());
        }
        while self.memory.len() <= self.mem_ptr
            invariant
                self.wf(),
                self@.grown() == old(self)@.grown(),
                self@.has_next(),
                self@ == (Machine { tape: self@.tape, ..old(self)@ }),
            decreases self.mem_ptr + 1 - self.memory.len(),
        {
            self.memory.push(0);
        }
        let ghost g = self@;
        let cell: i32 = self.memory[self.mem_ptr];
        match self.parsed[self.index] {
            Token::Plus => {
                self.memory.set(self.mem_ptr, cell.wrapping_add(1));
            },
            Token::Minus => {
                self.memory.set(self.mem_ptr, cell.wrapping_sub(1));
            },
            Token::Right => {
                self.mem_ptr += 1;
            },
            Token::Left => {
                if self.mem_ptr == 0 {
                    return Err(Fault::PointerUnderflow);
                }
                self.mem_ptr -= 1;
            },
            Token::BeginLoop => {
                proof {
                    lemma_loop_depth_bounded(g);
                    assert(self.index < self.parsed.len());
                }
                self.loop_index.push(self.index);
                self.loop_depth += 1;
                assert(self@.loop_stack =~= g.loop_stack.push(g.counter));
            },
            Token::EndLoop => {
                if self.loop_depth == 0 {
                    return Err(Fault::UnmatchedLoopEnd);
                }
                let begin: usize = self.loop_index[self.loop_depth - 1];
                self.loop_depth -= 1;
                self.loop_index.pop();
                assert(self@.loop_stack =~= g.loop_stack.drop_last());
                if cell != 0 {
                    self.index = begin;
                    proof {
                        lemma_step_valid(old(self)@);
                    }
                    return Ok(());
                }
            },
            Token::Input => {
                if self.consumed >= self.input.len() {
                    return Err(Fault::UnimplementedInput);
                }
                let unit: char = self.input[self.consumed];
                self.memory.set(self.mem_ptr, unit as i32);
                self.consumed += 1;
            },
            Token::Output => {
                match self.mode {
                    OutputMode::Numeric => {
                        push_decimal(&mut self.output, cell);
                        self.output.push('\n');
                    },
                    OutputMode::Character => {
                        if cell < 0 {
                            return Err(Fault::NegativeOutputValue);
                        }
                        let shown: char = match char_from_u32(cell as u32) {
                            Some(c) => c,
                            None => '\0',
                        };
                        self.output.push(shown);
                    },
                }
            },
        }
        assert(self.index < self.parsed.len());
        self.index += 1;
        proof {
            lemma_step_valid(old(self)@);
        }
        Ok(())
    }

    /// Executes at most `budget` instructions, stopping early where no
    /// instruction is left or at the first fault, which is returned.
    ///
    /// A run that is cut short by its budget is not an error: the call
    /// succeeds, `has_next` still holds, and a further call goes on from
    /// where this one stopped.  Output written before a fault stays written.
    pub fn run(&mut self, budget: u64) -> (r: Result<(), Fault>)
        requires
            old(self).wf(),
        ensures
            final(self).wf(),
            final(self)@ == old(self)@.run(budget as nat).0,
            r == (match old(self)@.run(budget as nat).1 {
                Some(fault) => Err::<(), Fault>(fault),
                None => Ok(()),
            }),
    {
        let mut left: u64 = budget;
        while left > 0 && self.has_next()
            invariant
                self.wf(),
                self@.run(left as nat) == old(self)@.run(budget as nat),
            decreases left,
        {
            match self.step() {
                Ok(()) => {},
                Err(fault) => {
                    return Err(fault);
                },
            }
            left = left - 1;
        }
        Ok(())
    }
}

} // verus!
