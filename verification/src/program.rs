use vstd::prelude::*;
use crate::fault::Fault;

verus! {

/// `>`: move the data pointer right.
pub const RIGHT: u8 = 0x3e;
/// `<`: move the data pointer left.
pub const LEFT: u8 = 0x3c;
/// `+`: increment the current cell.
pub const INCREMENT: u8 = 0x2b;
/// `-`: decrement the current cell.
pub const DECREMENT: u8 = 0x2d;
/// `.`: write the current cell.
pub const OUTPUT: u8 = 0x2e;
/// `,`: read into the current cell.
pub const INPUT: u8 = 0x2c;
/// `[`: start of a loop.
pub const OPEN: u8 = 0x5b;
/// `]`: end of a loop.
pub const CLOSE: u8 = 0x5d;
/// `#`: the optional request for a diagnostic dump.
pub const DUMP: u8 = 0x23;

/// What one byte adds to the nesting depth.
pub open spec fn bracket_delta(byte: u8) -> int {
    if byte == OPEN {
        1
    } else if byte == CLOSE {
        -1
    } else {
        0
    }
}

/// The nesting depth accumulated over `program[from..to]`: the number of
/// `[` minus the number of `]` in that range.
pub open spec fn depth(program: Seq<u8>, from: int, to: int) -> int
    decreases to - from,
{
    if to <= from {
        0
    } else {
        depth(program, from, to - 1) + bracket_delta(program[to - 1])
    }
}

/// `at` is the first position at or after `from` where the depth of
/// `program[from..=at]` is zero. When `from` holds a `[`, this is the
/// position of the `]` that closes it.
pub open spec fn is_match(program: Seq<u8>, from: int, at: int) -> bool {
    &&& from <= at < program.len()
    &&& depth(program, from, at + 1) == 0
    &&& forall|k: int| from <= k < at ==> #[trigger] depth(program, from, k + 1) != 0
}

/// Some position balances the scan that starts at `from`.
pub open spec fn has_match(program: Seq<u8>, from: int) -> bool {
    exists|at: int| is_match(program, from, at)
}

/// The position that balances the scan from `from`, where there is one.
pub open spec fn matching(program: Seq<u8>, from: int) -> int {
    choose|at: int| is_match(program, from, at)
}

/// At most one position balances a scan.
pub proof fn lemma_match_unique(program: Seq<u8>, from: int, a: int, b: int)
    requires
        is_match(program, from, a),
        is_match(program, from, b),
    ensures
        a == b,
{
    if a < b {
        assert(depth(program, from, a + 1) != 0);
    } else if b < a {
        assert(depth(program, from, b + 1) != 0);
    }
}

/// Scans forward from `*instruction_pointer`, counting `[` up and `]` down,
/// and moves the pointer to the first position where the count is back at
/// zero. Without such a position the program is malformed: the pointer stays
/// and the result is `SyntaxError`.
pub fn jump_to_matching_bracket(brainfuck_bytes: &[u8], instruction_pointer: &mut usize) -> (result:
    Result<(), Fault>)
    ensures
        match result {
            Ok(_) => {
                &&& has_match(brainfuck_bytes@, *old(instruction_pointer) as int)
                &&& *final(instruction_pointer) as int == matching(
                    brainfuck_bytes@,
                    *old(instruction_pointer) as int,
                )
            },
            Err(fault) => {
                &&& fault == Fault::SyntaxError
                &&& !has_match(brainfuck_bytes@, *old(instruction_pointer) as int)
                &&& *final(instruction_pointer) == *old(instruction_pointer)
            },
        },
{
    let start: usize = *instruction_pointer;
    let ghost program = brainfuck_bytes@;
    let mut opened: usize = 0;
    let mut closed: usize = 0;
    let mut i: usize = start;
    while i < brainfuck_bytes.len()
        invariant
            program == brainfuck_bytes@,
            start <= i,
            *instruction_pointer == start,
            *old(instruction_pointer) == start,
            opened <= i - start,
            closed <= i - start,
            opened - closed == depth(program, start as int, i as int),
            forall|k: int| start <= k < i ==> #[trigger] depth(program, start as int, k + 1) != 0,
        decreases brainfuck_bytes.len() - i,
    {
        let value: u8 = brainfuck_bytes[i];
        if value == CLOSE {
            closed = closed + 1;
        }
        if value == OPEN {
            opened = opened + 1;
        }
        if opened == closed {
            *instruction_pointer = i;
            proof {
                assert(is_match(program, start as int, i as int));
                lemma_match_unique(program, start as int, i as int, matching(program, start as int));
            }
            return Ok(());
        }
        i = i + 1;
    }
    proof {
        assert forall|at: int| !is_match(program, start as int, at) by {
            if is_match(program, start as int, at) {
                assert(depth(program, start as int, at + 1) == 0);
            }
        }
    }
    Err(Fault::SyntaxError)
}

} // verus!
