use vstd::prelude::*;
use crate::fault::Fault;
use crate::machine::{step, wrap, Event, Snapshot, TAPE_LEN};
use crate::program::{
    has_match, is_match, matching, CLOSE, DECREMENT, INCREMENT, LEFT, OPEN, RIGHT,
};
use crate::run::{trace, Trace};

verus! {

/// The number of `+` minus the number of `-` in `program[from..to]`.
pub open spec fn net_increment(program: Seq<u8>, from: int, to: int) -> int
    decreases to - from,
{
    if to <= from {
        0
    } else {
        net_increment(program, from, to - 1) + if program[to - 1] == INCREMENT {
            1int
        } else if program[to - 1] == DECREMENT {
            -1int
        } else {
            0int
        }
    }
}

/// The number of `>` minus the number of `<` in `program[from..to]`.
pub open spec fn net_move(program: Seq<u8>, from: int, to: int) -> int
    decreases to - from,
{
    if to <= from {
        0
    } else {
        net_move(program, from, to - 1) + if program[to - 1] == RIGHT {
            1int
        } else if program[to - 1] == LEFT {
            -1int
        } else {
            0int
        }
    }
}

/// Starting at `pointer` and following the moves in `program[from..to]`,
/// the data pointer is on the tape after every one of them.
pub open spec fn stays_on_tape(program: Seq<u8>, pointer: int, from: int, to: int) -> bool {
    forall|k: int| from <= k <= to ==> 0 <= pointer + #[trigger] net_move(program, from, k) < TAPE_LEN
}

/// A step from a well-formed state gives a well-formed state.
pub proof fn lemma_step_well_formed(program: Seq<u8>, s: Snapshot, event: Event)
    requires
        s.well_formed(program),
        !s.halted(program),
    ensures
        step(program, s, event) is Ok ==> step(program, s, event)->Ok_0.well_formed(program),
{
    let i = s.instruction_pointer;
    if program[i] == OPEN && s.cell() == 0 && has_match(program, i) {
        assert(is_match(program, i, matching(program, i)));
    }
}

/// A run of `+` and `-` leaves in the current cell its old value plus the
/// number of `+` minus the number of `-`, modulo 256, and changes nothing
/// else but the instruction pointer.
pub proof fn lemma_cell_holds_net_count(program: Seq<u8>, start: Snapshot, input: Seq<u8>, n: nat)
    requires
        start.well_formed(program),
        start.instruction_pointer + n <= program.len(),
        forall|i: int|
            start.instruction_pointer <= i < start.instruction_pointer + n ==> program[i]
                == INCREMENT || program[i] == DECREMENT,
    ensures
        trace(program, start, input, n) == Trace::begin(
            start.store(
                wrap(
                    start.cell() as int,
                    net_increment(
                        program,
                        start.instruction_pointer,
                        start.instruction_pointer + n,
                    ),
                ),
            ).at(start.instruction_pointer + n),
        ),
    decreases n,
{
    let ip = start.instruction_pointer;
    if n == 0 {
        assert(start.store(wrap(start.cell() as int, 0)).memory =~= start.memory);
    } else {
        lemma_cell_holds_net_count(program, start, input, (n - 1) as nat);
        let earlier = trace(program, start, input, (n - 1) as nat);
        let later = earlier.advance(program, input);
        let count = net_increment(program, ip, ip + n - 1);
        assert(earlier.state.cell() == wrap(start.cell() as int, count));
        let goal = start.store(wrap(start.cell() as int, net_increment(program, ip, ip + n))).at(
            ip + n,
        );
        assert(later.state.memory =~= goal.memory);
    }
}

/// A run of `>` and `<` that keeps the data pointer on the tape moves it by
/// the number of `>` minus the number of `<`, and changes nothing else but
/// the instruction pointer.
pub proof fn lemma_pointer_holds_net_move(
    program: Seq<u8>,
    start: Snapshot,
    input: Seq<u8>,
    n: nat,
)
    requires
        start.well_formed(program),
        start.instruction_pointer + n <= program.len(),
        forall|i: int|
            start.instruction_pointer <= i < start.instruction_pointer + n ==> program[i] == RIGHT
                || program[i] == LEFT,
        stays_on_tape(
            program,
            start.data_pointer,
            start.instruction_pointer,
            start.instruction_pointer + n,
        ),
    ensures
        trace(program, start, input, n) == Trace::begin(
            Snapshot {
                data_pointer: start.data_pointer + net_move(
                    program,
                    start.instruction_pointer,
                    start.instruction_pointer + n,
                ),
                ..start.at(start.instruction_pointer + n)
            },
        ),
    decreases n,
{
    let ip = start.instruction_pointer;
    if n > 0 {
        lemma_pointer_holds_net_move(program, start, input, (n - 1) as nat);
        let moved = net_move(program, ip, ip + n - 1);
        let after = net_move(program, ip, ip + n);
        assert(0 <= start.data_pointer + moved < TAPE_LEN);
        assert(0 <= start.data_pointer + after < TAPE_LEN);
    }
}

/// The move that would take the data pointer off the tape faults with
/// `OutOfBounds`, and no move before it does: the run stands where the
/// moves before it left it.
pub proof fn lemma_pointer_faults_at_the_edge(
    program: Seq<u8>,
    start: Snapshot,
    input: Seq<u8>,
    n: nat,
)
    requires
        start.well_formed(program),
        start.instruction_pointer + n < program.len(),
        forall|i: int|
            start.instruction_pointer <= i <= start.instruction_pointer + n ==> program[i] == RIGHT
                || program[i] == LEFT,
        stays_on_tape(
            program,
            start.data_pointer,
            start.instruction_pointer,
            start.instruction_pointer + n,
        ),
        !(0 <= start.data_pointer + net_move(
            program,
            start.instruction_pointer,
            start.instruction_pointer + n + 1,
        ) < TAPE_LEN),
    ensures
        trace(program, start, input, n).fault is None,
        trace(program, start, input, n + 1) == (Trace {
            fault: Some(Fault::OutOfBounds),
            ..trace(program, start, input, n)
        }),
{
    let ip = start.instruction_pointer;
    lemma_pointer_holds_net_move(program, start, input, n);
    let moved = net_move(program, ip, ip + n);
    assert(0 <= start.data_pointer + moved < TAPE_LEN);
}

/// A step faults with `SyntaxError` in two cases and no other: a `[` with
/// no partner ahead, and a `]` with no loop entered.
pub proof fn lemma_syntax_error_exactly(program: Seq<u8>, s: Snapshot, event: Event)
    ensures
        step(program, s, event) == Err::<Snapshot, Fault>(Fault::SyntaxError) <==> {
            let op = program[s.instruction_pointer];
            ||| op == OPEN && !has_match(program, s.instruction_pointer)
            ||| op == CLOSE && s.brackets.len() == 0
        },
{
}

} // verus!
