use vstd::prelude::*;
use crate::cell::{inc, dec};
use crate::instruction::Instruction;

verus! {

/// Why a run stopped before reaching the end of the program.
#[derive(Clone, Copy, Debug, PartialEq, Eq, Structural)]
pub enum ExecError {
    /// A `]` ran while no loop was open.
    UnmatchedLoopEnd,
    /// A move would have left the tape: `<` at the first cell or `>` at the
    /// last one.
    PointerOutOfRange,
    /// The run used up the steps it was allowed before the program ended.
    StepLimitExceeded,
}

/// The state of the engine: the tape, the data pointer, the positions of
/// the open loops (innermost last) and the instruction cursor.
pub struct Machine {
    pub tape: Seq<u8>,
    pub ptr: int,
    pub stack: Seq<int>,
    pub pc: int,
}

/// The data pointer stands on the tape, and no position is negative.
pub open spec fn machine_wf(m: Machine) -> bool {
    &&& 0 <= m.ptr < m.tape.len()
    &&& 0 <= m.pc
    &&& forall|i: int| 0 <= i < m.stack.len() ==> 0 <= #[trigger] m.stack[i]
}

/// The program has finished: the cursor is past its last instruction.
pub open spec fn halted(prog: Seq<Instruction>, m: Machine) -> bool {
    m.pc >= prog.len()
}

/// The position of the `]` that closes the loop whose body starts at `from`,
/// with `depth` loops opened since; `prog.len()` where there is none.
pub open spec fn matching_end(prog: Seq<Instruction>, from: int, depth: nat) -> int
    decreases prog.len() - from,
{
    if from < 0 || from >= prog.len() {
        prog.len() as int
    } else if prog[from] == Instruction::LoopStart {
        matching_end(prog, from + 1, depth + 1)
    } else if prog[from] == Instruction::LoopEnd {
        if depth == 0 {
            from
        } else {
            matching_end(prog, from + 1, (depth - 1) as nat)
        }
    } else {
        matching_end(prog, from + 1, depth)
    }
}

/// The machine with the current cell set to `v` and the cursor moved on.
pub open spec fn with_cell(m: Machine, v: u8) -> Machine {
    Machine { tape: m.tape.update(m.ptr, v), pc: m.pc + 1, ..m }
}

/// The machine with the cursor moved on by one.
pub open spec fn advanced(m: Machine) -> Machine {
    Machine { pc: m.pc + 1, ..m }
}

/// One step: the instruction at the cursor runs. `input` is the byte that a
/// `,` reads (`None` at the end of input, where it stores 0). A `[` on a
/// zero cell moves the cursor past its matching `]`, or to the end of the
/// program where it has none; a `]` always returns to the `[` that opened
/// it, which tests the cell again. The result is the next machine and the
/// byte that a `.` writes.
pub open spec fn step_spec(prog: Seq<Instruction>, m: Machine, input: Option<u8>) -> Result<
    (Machine, Option<u8>),
    ExecError,
> {
    let cur = m.tape[m.ptr];
    match prog[m.pc] {
        Instruction::Increment => Ok((with_cell(m, inc(cur)), None)),
        Instruction::Decrement => Ok((with_cell(m, dec(cur)), None)),
        Instruction::MoveRight => {
            if m.ptr + 1 < m.tape.len() {
                Ok((Machine { ptr: m.ptr + 1, pc: m.pc + 1, ..m }, None))
            } else {
                Err(ExecError::PointerOutOfRange)
            }
        },
        Instruction::MoveLeft => {
            if m.ptr > 0 {
                Ok((Machine { ptr: m.ptr - 1, pc: m.pc + 1, ..m }, None))
            } else {
                Err(ExecError::PointerOutOfRange)
            }
        },
        Instruction::Putchar => Ok((advanced(m), Some(cur))),
        Instruction::Getchar => Ok(
            (
                with_cell(
                    m,
                    match input {
                        Some(b) => b,
                        None => 0,
                    },
                ),
                None,
            ),
        ),
        Instruction::LoopStart => {
            if cur != 0 {
                Ok((Machine { stack: m.stack.push(m.pc), pc: m.pc + 1, ..m }, None))
            } else {
                let e = matching_end(prog, m.pc + 1, 0);
                let next = if e < prog.len() { e + 1 } else { prog.len() as int };
                Ok((Machine { pc: next, ..m }, None))
            }
        },
        Instruction::LoopEnd => {
            if m.stack.len() == 0 {
                Err(ExecError::UnmatchedLoopEnd)
            } else {
                Ok((Machine { stack: m.stack.drop_last(), pc: m.stack.last(), ..m }, None))
            }
        },
    }
}

/// The instruction at the cursor reads input.
pub open spec fn reads_input(prog: Seq<Instruction>, m: Machine) -> bool {
    0 <= m.pc < prog.len() && prog[m.pc] == Instruction::Getchar
}

/// The byte that the next step reads from `input`, if it reads one.
pub open spec fn next_input(prog: Seq<Instruction>, m: Machine, input: Seq<u8>) -> Option<u8> {
    if reads_input(prog, m) && input.len() > 0 {
        Some(input[0])
    } else {
        None
    }
}

/// What is left of `input` after the next step.
pub open spec fn rest_input(prog: Seq<Instruction>, m: Machine, input: Seq<u8>) -> Seq<u8> {
    if reads_input(prog, m) && input.len() > 0 {
        input.drop_first()
    } else {
        input
    }
}

/// A run of at most `fuel` steps from `m`, reading bytes from `input` in
/// order: the machine where it stopped, the bytes written, and how it ended
/// (`Ok` when the cursor passed the end of the program).
pub open spec fn run_spec(prog: Seq<Instruction>, m: Machine, input: Seq<u8>, fuel: nat) -> (Machine, Seq<u8>, Result<(), ExecError>)
    decreases fuel,
{
    if halted(prog, m) {
        (m, Seq::empty(), Ok(()))
    } else if fuel == 0 {
        (m, Seq::empty(), Err(ExecError::StepLimitExceeded))
    } else {
        match step_spec(prog, m, next_input(prog, m, input)) {
            Err(e) => (m, Seq::empty(), Err(e)),
            Ok((next, out)) => {
                let r = run_spec(prog, next, rest_input(prog, m, input), (fuel - 1) as nat);
                match out {
                    Some(b) => (r.0, seq![b] + r.1, r.2),
                    None => r,
                }
            },
        }
    }
}

/// The matching position lies at or after where the scan starts.
pub proof fn lemma_matching_end_bounds(prog: Seq<Instruction>, from: int, depth: nat)
    requires
        0 <= from,
    ensures
        matching_end(prog, from, depth) >= from || matching_end(prog, from, depth) == prog.len(),
        matching_end(prog, from, depth) <= prog.len(),
    decreases prog.len() - from,
{
    if from < prog.len() {
        if prog[from] == Instruction::LoopStart {
            lemma_matching_end_bounds(prog, from + 1, depth + 1);
        } else if prog[from] == Instruction::LoopEnd {
            if depth != 0 {
                lemma_matching_end_bounds(prog, from + 1, (depth - 1) as nat);
            }
        } else {
            lemma_matching_end_bounds(prog, from + 1, depth);
        }
    }
}

} // verus!
