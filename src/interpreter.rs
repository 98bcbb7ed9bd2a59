use vstd::prelude::*;
use crate::cell::{decrement_with_overflow, increment_with_overflow};
use crate::instruction::{lex, Instruction};
use crate::machine::{
    halted, lemma_matching_end_bounds, machine_wf, matching_end, next_input, reads_input,
    run_spec, step_spec, ExecError, Machine,
};

verus! {

/// The number of cells on the tape of `Interpreter::new`.
pub const DEFAULT_TAPE_SIZE: usize = 32768;

/// The execution engine: a tape of byte cells, a data pointer, the stack of
/// open loops and the instruction cursor.
pub struct Interpreter {
    memory: Vec<u8>,
    pointer: usize,
    stack: Vec<usize>,
    cursor: usize,
}

impl View for Interpreter {
    type V = Machine;

    closed spec fn view(&self) -> Machine {
        Machine {
            tape: self.memory@,
            ptr: self.pointer as int,
            stack: self.stack@.map_values(|p: usize| p as int),
            pc: self.cursor as int,
        }
    }
}

/// A tape of `size` zero cells with the pointer on the first, no open loop
/// and the cursor at the start.
pub open spec fn fresh(size: nat) -> Machine {
    Machine { tape: Seq::new(size, |i: int| 0u8), ptr: 0, stack: Seq::empty(), pc: 0 }
}

/// The machine from which a run of a program starts: tape and pointer as
/// they are, no open loop, the cursor at the first instruction.
pub open spec fn restarted(m: Machine) -> Machine {
    Machine { stack: Seq::empty(), pc: 0, ..m }
}

/// The position of the `]` that closes the loop whose body starts at `from`,
/// or the program's length where there is none.
fn find_loop_end(instructions: &Vec<Instruction>, from: usize) -> (r: usize)
    requires
        from <= instructions@.len(),
    ensures
        r as int == matching_end(instructions@, from as int, 0),
{
    let len = instructions.len();
    let mut depth: usize = 0;
    let mut j: usize = from;
    while j < len
        invariant
            len == instructions@.len(),
            from <= j <= len,
            depth <= j - from,
            matching_end(instructions@, j as int, depth as nat) == matching_end(
                instructions@,
                from as int,
                0,
            ),
        decreases len - j,
    {
        match instructions[j] {
            Instruction::LoopStart => {
                depth = depth + 1;
            },
            Instruction::LoopEnd => {
                if depth == 0 {
                    return j;
                }
                depth = depth - 1;
            },
            _ => {},
        }
        j = j + 1;
    }
    len
}

impl Interpreter {
    /// An engine with a tape of `DEFAULT_TAPE_SIZE` zero cells.
    pub fn new() -> (r: Interpreter)
        ensures
            r@ == fresh(DEFAULT_TAPE_SIZE as nat),
            machine_wf(r@),
    {
        Interpreter::with_tape_size(DEFAULT_TAPE_SIZE)
    }

    /// An engine with a tape of `size` zero cells.
    pub fn with_tape_size(size: usize) -> (r: Interpreter)
        requires
            size > 0,
        ensures
            r@ == fresh(size as nat),
            machine_wf(r@),
    {
        let mut memory: Vec<u8> = Vec::new();
        let mut i: usize = 0;
        while i < size
            invariant
                i <= size,
                memory@ == Seq::new(i as nat, |k: int| 0u8),
            decreases size - i,
        {
            memory.push(0);
            i = i + 1;
            assert(memory@ =~= Seq::new(i as nat, |k: int| 0u8));
        }
        let r = Interpreter { memory, pointer: 0, stack: Vec::new(), cursor: 0 };
        assert(r@.stack =~= Seq::<int>::empty());
        r
    }

    /// The instruction sequence of a source text: each recognised operator
    /// character in order, every other character dropped.
    pub fn parse(code: &str) -> (r: Vec<Instruction>)
        ensures
            r@ == lex(code@),
    {
        let mut instructions: Vec<Instruction> = Vec::new();
        for c in it: code.chars()
            invariant
                it.seq() == code@,
                instructions@ == lex(code@.subrange(0, it.index() as int)),
        {
            proof {
                let i = it.index() as int;
                let pre = code@.subrange(0, i + 1);
                assert(pre.drop_last() =~= code@.subrange(0, i));
                assert(pre.last() == c);
            }
            match Instruction::parse(c) {
                Some(instruction) => instructions.push(instruction),
                None => {},
            }
        }
        assert(code@.subrange(0, code@.len() as int) =~= code@);
        instructions
    }

    /// Runs the instruction at the cursor. `input` is the byte that a `,`
    /// stores (0 at the end of input); the result holds the byte that a `.`
    /// writes. On an error nothing changes.
    pub fn step(&mut self, instructions: &Vec<Instruction>, input: Option<u8>) -> (r: Result<
        Option<u8>,
        ExecError,
    >)
        requires
            machine_wf(old(self)@),
            !halted(instructions@, old(self)@),
        ensures
            machine_wf(final(self)@),
            final(self)@.tape.len() == old(self)@.tape.len(),
            match step_spec(instructions@, old(self)@, input) {
                Ok((n, out)) => r == Ok::<Option<u8>, ExecError>(out) && final(self)@ == n,
                Err(e) => r == Err::<Option<u8>, ExecError>(e) && final(self)@ == old(self)@,
            },
    {
        let ghost m = self@;
        let pc = self.cursor;
        let p = self.pointer;
        let tape_len = self.memory.len();
        let prog_len = instructions.len();
        match instructions[pc] {
            Instruction::Increment => {
                let mut c = self.memory[p];
                increment_with_overflow(&mut c);
                self.memory.set(p, c);
            },
            Instruction::Decrement => {
                let mut c = self.memory[p];
                decrement_with_overflow(&mut c);
                self.memory.set(p, c);
            },
            Instruction::MoveRight => {
                if p + 1 < tape_len {
                    self.pointer = p + 1;
                } else {
                    return Err(ExecError::PointerOutOfRange);
                }
            },
            Instruction::MoveLeft => {
                if p > 0 {
                    self.pointer = p - 1;
                } else {
                    return Err(ExecError::PointerOutOfRange);
                }
            },
            Instruction::Putchar => {
                self.cursor = pc + 1;
                return Ok(Some(self.memory[p]));
            },
            Instruction::Getchar => {
                let b = match input {
                    Some(b) => b,
                    None => 0,
                };
                self.memory.set(p, b);
            },
            Instruction::LoopStart => {
                if self.memory[p] != 0 {
                    self.stack.push(pc);
                    assert(self@.stack =~= m.stack.push(pc as int));
                } else {
                    let e = find_loop_end(instructions, pc + 1);
                    proof {
                        lemma_matching_end_bounds(instructions@, pc + 1, 0);
                    }
                    if e < prog_len {
                        self.cursor = e + 1;
                    } else {
                        self.cursor = e;
                    }
                    return Ok(None);
                }
            },
            Instruction::LoopEnd => {
                match self.stack.pop() {
                    Some(back) => {
                        assert(self@.stack =~= m.stack.drop_last());
                        self.cursor = back;
                        return Ok(None);
                    },
                    None => {
                        return Err(ExecError::UnmatchedLoopEnd);
                    },
                }
            },
        }
        self.cursor = pc + 1;
        Ok(None)
    }

    /// Runs `instructions` from the first one, with the tape and the pointer
    /// as they are and no open loop, for at most `max_steps` steps. Each `,`
    /// reads the next byte of `input`, or stores 0 once it is used up. The
    /// result is the bytes written by `.`, or the error that stopped the run:
    /// `StepLimitExceeded` where the program had not ended after `max_steps`
    /// steps.
    pub fn execute(&mut self, instructions: &Vec<Instruction>, input: &Vec<u8>, max_steps: u64) -> (r:
        Result<Vec<u8>, ExecError>)
        requires
            machine_wf(old(self)@),
        ensures
            ({
                let run = run_spec(instructions@, restarted(old(self)@), input@, max_steps as nat);
                &&& machine_wf(final(self)@)
                &&& final(self)@ == run.0
                &&& match r {
                    Ok(out) => run.2 == Ok::<(), ExecError>(()) && out@ == run.1,
                    Err(e) => run.2 == Err::<(), ExecError>(e),
                }
            }),
    {
        let ghost m0 = restarted(self@);
        let ghost total = run_spec(instructions@, m0, input@, max_steps as nat);
        self.stack = Vec::new();
        self.cursor = 0;
        assert(self@ == m0) by {
            assert(self@.stack =~= Seq::<int>::empty());
        }
        let prog_len = instructions.len();
        let input_len = input.len();
        let mut out: Vec<u8> = Vec::new();
        let mut pos: usize = 0;
        let mut fuel: u64 = max_steps;
        assert(input@.subrange(0, input_len as int) =~= input@);
        assert(total.1 =~= out@ + total.1);
        while self.cursor < prog_len
            invariant
                machine_wf(self@),
                total == run_spec(instructions@, restarted(old(self)@), input@, max_steps as nat),
                prog_len == instructions@.len(),
                input_len == input@.len(),
                pos <= input_len,
                total == ({
                    let rest = run_spec(
                        instructions@,
                        self@,
                        input@.subrange(pos as int, input_len as int),
                        fuel as nat,
                    );
                    (rest.0, out@ + rest.1, rest.2)
                }),
            decreases fuel,
        {
            let ghost before = self@;
            let ghost rest_in = input@.subrange(pos as int, input_len as int);
            if fuel == 0 {
                return Err(ExecError::StepLimitExceeded);
            }
            let reads = match instructions[self.cursor] {
                Instruction::Getchar => true,
                _ => false,
            };
            let byte = if reads && pos < input_len {
                Some(input[pos])
            } else {
                None
            };
            assert(byte == next_input(instructions@, before, rest_in));
            match self.step(instructions, byte) {
                Err(e) => {
                    return Err(e);
                },
                Ok(written) => {
                    proof {
                        let next_rest = if reads && pos < input_len {
                            input@.subrange(pos as int + 1, input_len as int)
                        } else {
                            rest_in
                        };
                        if reads && pos < input_len {
                            assert(rest_in.drop_first() =~= input@.subrange(
                                pos as int + 1,
                                input_len as int,
                            ));
                        }
                        let tail = run_spec(instructions@, self@, next_rest, (fuel - 1) as nat);
                        match written {
                            Some(b) => {
                                assert(out@.push(b) + tail.1 =~= out@ + (seq![b] + tail.1));
                            },
                            None => {},
                        }
                    }
                    match written {
                        Some(b) => out.push(b),
                        None => {},
                    }
                    if reads && pos < input_len {
                        pos = pos + 1;
                    }
                    fuel = fuel - 1;
                },
            }
        }
        assert(out@ + Seq::<u8>::empty() =~= out@);
        Ok(out)
    }

    /// Whether the cursor has passed the last instruction.
    pub fn is_finished(&self, instructions: &Vec<Instruction>) -> (r: bool)
        ensures
            r == halted(instructions@, self@),
    {
        self.cursor >= instructions.len()
    }

    /// Whether the instruction at the cursor is a `,`, which reads a byte.
    pub fn wants_input(&self, instructions: &Vec<Instruction>) -> (r: bool)
        ensures
            r == reads_input(instructions@, self@),
    {
        if self.cursor < instructions.len() {
            match instructions[self.cursor] {
                Instruction::Getchar => true,
                _ => false,
            }
        } else {
            false
        }
    }

    /// The data pointer.
    pub fn pointer(&self) -> (r: usize)
        ensures
            r as int == self@.ptr,
    {
        self.pointer
    }

    /// The number of cells on the tape.
    pub fn tape_len(&self) -> (r: usize)
        ensures
            r as int == self@.tape.len(),
    {
        self.memory.len()
    }

    /// The value of cell `index`.
    pub fn cell(&self, index: usize) -> (r: u8)
        requires
            index < self@.tape.len(),
        ensures
            r == self@.tape[index as int],
    {
        self.memory[index]
    }
}

} // verus!
