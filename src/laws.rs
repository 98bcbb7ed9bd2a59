use vstd::prelude::*;
use crate::cell::{dec, inc};
use crate::instruction::{lex, token_of, Instruction};
use crate::machine::{machine_wf, matching_end, run_spec, step_spec, ExecError, Machine};

verus! {

/// `n` increments of `v`.
pub open spec fn inc_n(v: u8, n: nat) -> u8
    decreases n,
{
    if n == 0 {
        v
    } else {
        inc(inc_n(v, (n - 1) as nat))
    }
}

/// `n` decrements of `v`.
pub open spec fn dec_n(v: u8, n: nat) -> u8
    decreases n,
{
    if n == 0 {
        v
    } else {
        dec(dec_n(v, (n - 1) as nat))
    }
}

proof fn lemma_inc_n(v: u8, n: nat)
    ensures
        inc_n(v, n) as int == (v as int + n) % 256,
    decreases n,
{
    if n > 0 {
        lemma_inc_n(v, (n - 1) as nat);
    }
}

proof fn lemma_dec_n(v: u8, n: nat)
    ensures
        dec_n(v, n) as int == (v as int + 255 * n) % 256,
    decreases n,
{
    if n > 0 {
        lemma_dec_n(v, (n - 1) as nat);
        assert((v as int + 255 * n) == (v as int + 255 * (n - 1)) + 255) by (nonlinear_arith);
    }
}

/// Cells wrap modulo 256: 256 increments, or 256 decrements, bring every
/// value back to itself.
pub proof fn law_cell_wraparound(v: u8)
    ensures
        inc_n(v, 256) == v,
        dec_n(v, 256) == v,
{
    lemma_inc_n(v, 256);
    lemma_dec_n(v, 256);
}

/// The lexer keeps order: the instructions of a text are those of its first
/// part followed by those of the rest.
pub proof fn law_lex_concat(a: Seq<char>, b: Seq<char>)
    ensures
        lex(a + b) == lex(a) + lex(b),
    decreases b.len(),
{
    if b.len() == 0 {
        assert(a + b =~= a);
        assert(lex(a) + lex(b) =~= lex(a));
    } else {
        let ab = a + b;
        assert(ab.drop_last() =~= a + b.drop_last());
        assert(ab.last() == b.last());
        law_lex_concat(a, b.drop_last());
        match token_of(b.last()) {
            Some(i) => {
                assert((lex(a) + lex(b.drop_last())).push(i) =~= lex(a) + lex(b.drop_last()).push(i));
            },
            None => {},
        }
    }
}

/// The lexer invents nothing: each instruction of a text is the token of one
/// of its characters, and there are no more instructions than characters.
pub proof fn law_lex_from_source(s: Seq<char>)
    ensures
        lex(s).len() <= s.len(),
        forall|k: int|
            0 <= k < lex(s).len() ==> exists|i: int|
                0 <= i < s.len() && token_of(s[i]) == Some(#[trigger] lex(s)[k]),
    decreases s.len(),
{
    if s.len() > 0 {
        let init = s.drop_last();
        let r = lex(init);
        law_lex_from_source(init);
        assert forall|k: int| 0 <= k < lex(s).len() implies exists|i: int|
            0 <= i < s.len() && token_of(s[i]) == Some(#[trigger] lex(s)[k]) by {
            if k < r.len() {
                let i = choose|i: int| 0 <= i < init.len() && token_of(init[i]) == Some(r[k]);
                assert(s[i] == init[i]);
            } else {
                assert(token_of(s[s.len() - 1]) == Some(lex(s)[k]));
            }
        }
    }
}

/// A text in which no character is an operator has no instructions.
pub proof fn law_lex_comment_only(s: Seq<char>)
    requires
        forall|i: int| 0 <= i < s.len() ==> #[trigger] token_of(s[i]) is None,
    ensures
        lex(s) == Seq::<Instruction>::empty(),
    decreases s.len(),
{
    if s.len() > 0 {
        assert(token_of(s[s.len() - 1]) is None);
        law_lex_comment_only(s.drop_last());
    }
}

/// The program `[-]`.
pub open spec fn clear_loop() -> Seq<Instruction> {
    seq![Instruction::LoopStart, Instruction::Decrement, Instruction::LoopEnd]
}

/// The program `[[-]]`.
pub open spec fn nested_clear_loop() -> Seq<Instruction> {
    seq![
        Instruction::LoopStart,
        Instruction::LoopStart,
        Instruction::Decrement,
        Instruction::LoopEnd,
        Instruction::LoopEnd,
    ]
}

/// A `[-]` at position `k` of any program, entered with the current cell at
/// `c`, takes `3 * c + 1` steps and leaves the cell at 0, the cursor just
/// past its `]`, and everything else as it was.
proof fn lemma_clear_loop_at(prog: Seq<Instruction>, k: int, m: Machine, input: Seq<u8>, fuel: nat)
    requires
        0 <= k,
        k + 3 <= prog.len(),
        prog[k] == Instruction::LoopStart,
        prog[k + 1] == Instruction::Decrement,
        prog[k + 2] == Instruction::LoopEnd,
        machine_wf(m),
        m.pc == k,
        fuel >= 3 * m.tape[m.ptr] + 1,
    ensures
        run_spec(prog, m, input, fuel) == run_spec(
            prog,
            Machine { tape: m.tape.update(m.ptr, 0), pc: k + 3, ..m },
            input,
            (fuel - (3 * m.tape[m.ptr] + 1)) as nat,
        ),
    decreases m.tape[m.ptr],
{
    let c = m.tape[m.ptr];
    let done = Machine { tape: m.tape.update(m.ptr, 0), pc: k + 3, ..m };
    if c == 0 {
        assert(matching_end(prog, k + 2, 0) == k + 2);
        assert(matching_end(prog, k + 1, 0) == k + 2);
        assert(m.tape.update(m.ptr, 0) =~= m.tape);
        assert(step_spec(prog, m, None) == Ok::<(Machine, Option<u8>), ExecError>((done, None)));
    } else {
        let m1 = Machine { stack: m.stack.push(k), pc: k + 1, ..m };
        let m2 = Machine { tape: m.tape.update(m.ptr, dec(c)), pc: k + 2, ..m1 };
        let m3 = Machine { stack: m.stack, pc: k, ..m2 };
        assert(step_spec(prog, m, None) == Ok::<(Machine, Option<u8>), ExecError>((m1, None)));
        assert(run_spec(prog, m, input, fuel) == run_spec(prog, m1, input, (fuel - 1) as nat));
        assert(step_spec(prog, m1, None) == Ok::<(Machine, Option<u8>), ExecError>((m2, None)));
        assert(run_spec(prog, m1, input, (fuel - 1) as nat) == run_spec(prog, m2, input, (fuel - 2) as nat));
        assert(m2.stack.drop_last() =~= m.stack);
        assert(step_spec(prog, m2, None) == Ok::<(Machine, Option<u8>), ExecError>((m3, None)));
        assert(run_spec(prog, m2, input, (fuel - 2) as nat) == run_spec(prog, m3, input, (fuel - 3) as nat));
        assert(dec(c) == c - 1);
        lemma_clear_loop_at(prog, k, m3, input, (fuel - 3) as nat);
        assert(m3.tape.update(m3.ptr, 0) =~= m.tape.update(m.ptr, 0));
    }
}

/// `[-]` run from any machine at its start, with enough steps
/// (`3 * v + 1` for a cell value `v`), clears the current cell, writes
/// nothing, ends normally, and leaves the pointer and the other cells alone.
pub proof fn law_clear_loop(m: Machine, input: Seq<u8>, fuel: nat)
    requires
        machine_wf(m),
        m.pc == 0,
        fuel >= 3 * m.tape[m.ptr] + 1,
    ensures
        run_spec(clear_loop(), m, input, fuel) == (
            Machine { tape: m.tape.update(m.ptr, 0), pc: 3, ..m },
            Seq::<u8>::empty(),
            Ok::<(), ExecError>(()),
        ),
{
    lemma_clear_loop_at(clear_loop(), 0, m, input, fuel);
}

/// `[[-]]` leaves the tape, the pointer, the open loops and the output as
/// `[-]` does, for every value of the current cell, given enough steps
/// (`3 * v + 4` for the nested loop, `3 * v + 1` for the flat one).
pub proof fn law_nested_clear_loop(m: Machine, input: Seq<u8>, fuel_nested: nat, fuel_flat: nat)
    requires
        machine_wf(m),
        m.pc == 0,
        fuel_nested >= 3 * m.tape[m.ptr] + 4,
        fuel_flat >= 3 * m.tape[m.ptr] + 1,
    ensures
        ({
            let n = run_spec(nested_clear_loop(), m, input, fuel_nested);
            let f = run_spec(clear_loop(), m, input, fuel_flat);
            &&& n.0.tape == f.0.tape
            &&& n.0.ptr == f.0.ptr
            &&& n.0.stack == f.0.stack
            &&& n.1 == f.1
            &&& n.2 == f.2
            &&& n.2 == Ok::<(), ExecError>(())
        }),
{
    let prog = nested_clear_loop();
    let c = m.tape[m.ptr];
    law_clear_loop(m, input, fuel_flat);
    let cleared = m.tape.update(m.ptr, 0);
    let done = Machine { tape: cleared, pc: 5, ..m };
    assert(matching_end(prog, 4, 0) == 4);
    assert(matching_end(prog, 3, 1) == 4);
    assert(matching_end(prog, 2, 1) == 4);
    assert(matching_end(prog, 1, 0) == 4);
    assert(forall|f: nat| run_spec(prog, done, input, f) == (done, Seq::<u8>::empty(), Ok::<(), ExecError>(())));
    if c == 0 {
        assert(cleared =~= m.tape);
        assert(step_spec(prog, m, None) == Ok::<(Machine, Option<u8>), ExecError>((done, None)));
        assert(run_spec(prog, m, input, fuel_nested) == run_spec(prog, done, input, (fuel_nested - 1) as nat));
    } else {
        let m1 = Machine { stack: m.stack.push(0), pc: 1, ..m };
        assert(step_spec(prog, m, None) == Ok::<(Machine, Option<u8>), ExecError>((m1, None)));
        assert(run_spec(prog, m, input, fuel_nested) == run_spec(prog, m1, input, (fuel_nested - 1) as nat));
        lemma_clear_loop_at(prog, 1, m1, input, (fuel_nested - 1) as nat);
        let m4 = Machine { tape: cleared, pc: 4, ..m1 };
        let rest = (fuel_nested - 1 - (3 * c + 1)) as nat;
        let m5 = Machine { tape: cleared, pc: 0, ..m };
        assert(m4.stack.drop_last() =~= m.stack);
        assert(step_spec(prog, m4, None) == Ok::<(Machine, Option<u8>), ExecError>((m5, None)));
        assert(run_spec(prog, m4, input, rest) == run_spec(prog, m5, input, (rest - 1) as nat));
        assert(step_spec(prog, m5, None) == Ok::<(Machine, Option<u8>), ExecError>((done, None)));
        assert(run_spec(prog, m5, input, (rest - 1) as nat) == run_spec(prog, done, input, (rest - 2) as nat));
    }
}

/// A program with no operator character, the empty one included, ends at
/// once: it writes nothing and changes nothing.
pub proof fn law_comment_only_program(s: Seq<char>, m: Machine, input: Seq<u8>, fuel: nat)
    requires
        forall|i: int| 0 <= i < s.len() ==> #[trigger] token_of(s[i]) is None,
        m.pc == 0,
    ensures
        run_spec(lex(s), m, input, fuel) == (m, Seq::<u8>::empty(), Ok::<(), ExecError>(())),
{
    law_lex_comment_only(s);
}

} // verus!
