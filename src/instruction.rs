use vstd::prelude::*;

verus! {

/// One operator of the language.
#[derive(Clone, Copy, Debug, PartialEq, Eq, Structural)]
pub enum Instruction {
    Increment,
    Decrement,
    MoveRight,
    MoveLeft,
    Putchar,
    Getchar,
    LoopStart,
    LoopEnd,
}

/// The instruction a source character stands for, if any.
pub open spec fn token_of(c: char) -> Option<Instruction> {
    if c == '+' {
        Some(Instruction::Increment)
    } else if c == '-' {
        Some(Instruction::Decrement)
    } else if c == '>' {
        Some(Instruction::MoveRight)
    } else if c == '<' {
        Some(Instruction::MoveLeft)
    } else if c == '.' {
        Some(Instruction::Putchar)
    } else if c == ',' {
        Some(Instruction::Getchar)
    } else if c == '[' {
        Some(Instruction::LoopStart)
    } else if c == ']' {
        Some(Instruction::LoopEnd)
    } else {
        None
    }
}

/// The instructions of a source text: the recognised characters, in order,
/// with everything else dropped.
pub open spec fn lex(s: Seq<char>) -> Seq<Instruction>
    decreases s.len(),
{
    if s.len() == 0 {
        Seq::empty()
    } else {
        let rest = lex(s.drop_last());
        match token_of(s.last()) {
            Some(i) => rest.push(i),
            None => rest,
        }
    }
}

impl Instruction {
    /// The instruction for one source character, or `None` for a character
    /// that is a comment.
    pub fn parse(character: char) -> (r: Option<Instruction>)
        ensures
            r == token_of(character),
    {
        match character {
            '+' => Some(Instruction::Increment),
            '-' => Some(Instruction::Decrement),
            '>' => Some(Instruction::MoveRight),
            '<' => Some(Instruction::MoveLeft),
            '.' => Some(Instruction::Putchar),
            ',' => Some(Instruction::Getchar),
            '[' => Some(Instruction::LoopStart),
            ']' => Some(Instruction::LoopEnd),
            _ => None,
        }
    }
}

} // verus!
