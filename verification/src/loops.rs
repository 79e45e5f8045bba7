use vstd::prelude::*;
use crate::fault::Fault;
use crate::machine::{step, Event, Snapshot};
use crate::program::{depth, has_match, is_match, lemma_match_unique, matching, CLOSE, OPEN};
use crate::run::{feed, trace, Trace};
use crate::theory::lemma_step_well_formed;

verus! {

/// The loops that are open after `program[..upto]`: the positions of the `[`
/// in that prefix that no `]` in it has closed, innermost last. A `]` closes
/// the innermost open loop; one that finds none open closes nothing.
pub open spec fn open_loops(program: Seq<u8>, upto: int) -> Seq<int>
    decreases upto,
{
    if upto <= 0 {
        Seq::empty()
    } else {
        let before = open_loops(program, upto - 1);
        let op = program[upto - 1];
        if op == OPEN {
            before.push(upto - 1)
        } else if op == CLOSE && before.len() > 0 {
            before.drop_last()
        } else {
            before
        }
    }
}

/// The bracket stack holds exactly the loops that are open in the program
/// text before the instruction pointer.
pub open spec fn coherent(program: Seq<u8>, s: Snapshot) -> bool {
    s.brackets == open_loops(program, s.instruction_pointer)
}

/// Every open loop was opened by a `[`, and just past that `[` the open
/// loops were the ones up to and including it.
pub proof fn lemma_open_loops_prefix(program: Seq<u8>, upto: int, k: int)
    requires
        0 <= k < open_loops(program, upto).len(),
    ensures
        0 <= open_loops(program, upto)[k] < upto,
        program[open_loops(program, upto)[k]] == OPEN,
        open_loops(program, open_loops(program, upto)[k] + 1) == open_loops(program, upto).take(
            k + 1,
        ),
    decreases upto,
{
    let now = open_loops(program, upto);
    let before = open_loops(program, upto - 1);
    let op = program[upto - 1];
    if op == OPEN {
        if k < before.len() {
            lemma_open_loops_prefix(program, upto - 1, k);
            assert(before.take(k + 1) =~= now.take(k + 1));
        } else {
            assert(now.take(k + 1) =~= now);
        }
    } else if op == CLOSE && before.len() > 0 {
        lemma_open_loops_prefix(program, upto - 1, k);
        assert(before.take(k + 1) =~= now.take(k + 1));
    } else {
        lemma_open_loops_prefix(program, upto - 1, k);
    }
}

/// While the scan from a `[` at `from` has not come back to depth zero, the
/// loops open at `from` stay open with the one at `from` on top of them, and
/// the scan's depth counts the loops opened since.
pub proof fn lemma_open_loops_inside(program: Seq<u8>, from: int, upto: int)
    requires
        0 <= from < upto <= program.len(),
        program[from] == OPEN,
        forall|k: int| from <= k < upto ==> #[trigger] depth(program, from, k + 1) != 0,
    ensures
        depth(program, from, upto) >= 1,
        open_loops(program, upto).len() == open_loops(program, from).len() + depth(
            program,
            from,
            upto,
        ),
        open_loops(program, upto).take(open_loops(program, from).len() as int + 1) == open_loops(
            program,
            from,
        ).push(from),
    decreases upto - from,
{
    let outer = open_loops(program, from);
    let now = open_loops(program, upto);
    if upto == from + 1 {
        assert(depth(program, from, from) == 0);
        assert(now.take(outer.len() as int + 1) =~= outer.push(from));
    } else {
        lemma_open_loops_inside(program, from, upto - 1);
        let before = open_loops(program, upto - 1);
        assert(depth(program, from, (upto - 1) + 1) != 0);
        assert(before.take(outer.len() as int + 1) =~= now.take(outer.len() as int + 1));
    }
}

/// Just past the `]` that closes the `[` at `from`, the open loops are those
/// that were open at `from`; and at that `]` the innermost open loop is the
/// one at `from`.
pub proof fn lemma_open_loops_across(program: Seq<u8>, from: int, at: int)
    requires
        0 <= from,
        program[from] == OPEN,
        is_match(program, from, at),
    ensures
        from < at,
        program[at] == CLOSE,
        open_loops(program, at).len() > 0,
        open_loops(program, at).last() == from,
        open_loops(program, at).drop_last() == open_loops(program, from),
        open_loops(program, at + 1) == open_loops(program, from),
{
    assert(depth(program, from, from) == 0);
    assert(depth(program, from, from + 1) == 1);
    lemma_open_loops_inside(program, from, at);
    let outer = open_loops(program, from);
    let inner = open_loops(program, at);
    assert(inner.take(outer.len() as int + 1) =~= inner);
    assert(inner.drop_last() =~= outer);
}

/// A step from a state whose bracket stack holds exactly the open loops
/// gives such a state again.
pub proof fn lemma_step_coherent(program: Seq<u8>, s: Snapshot, event: Event)
    requires
        s.well_formed(program),
        !s.halted(program),
        coherent(program, s),
    ensures
        step(program, s, event) is Ok ==> coherent(program, step(program, s, event)->Ok_0),
{
    let i = s.instruction_pointer;
    let op = program[i];
    if step(program, s, event) is Ok {
        if op == OPEN && s.cell() == 0 {
            lemma_open_loops_across(program, i, matching(program, i));
        } else if op == CLOSE && s.cell() != 0 {
            lemma_open_loops_prefix(program, i, s.brackets.len() - 1);
            assert(s.brackets.take(s.brackets.len() as int) =~= s.brackets);
        }
    }
}

/// At every point of a run from a fresh state the bracket stack holds
/// exactly the loops that are open before the instruction pointer, and the
/// state is well formed.
pub proof fn lemma_run_coherent(program: Seq<u8>, input: Seq<u8>, steps: nat)
    ensures
        trace(program, Snapshot::fresh(), input, steps).state.well_formed(program),
        coherent(program, trace(program, Snapshot::fresh(), input, steps).state),
    decreases steps,
{
    if steps > 0 {
        lemma_run_coherent(program, input, (steps - 1) as nat);
        let earlier = trace(program, Snapshot::fresh(), input, (steps - 1) as nat);
        if !earlier.stopped(program) {
            let event = feed(program, earlier.state, input, earlier.consumed);
            lemma_step_well_formed(program, earlier.state, event);
            lemma_step_coherent(program, earlier.state, event);
        }
    }
}

/// What a loop does at its `[`, for a `[` at `from` whose partner is the
/// `]` at `at`: on a zero cell the whole body is skipped and control
/// resumes just past the `]`; otherwise the loop is entered and its
/// position recorded.
pub proof fn lemma_loop_entry(program: Seq<u8>, s: Snapshot, event: Event, at: int)
    requires
        s.well_formed(program),
        program[s.instruction_pointer] == OPEN,
        is_match(program, s.instruction_pointer, at),
    ensures
        step(program, s, event) == Ok::<Snapshot, Fault>(
            if s.cell() == 0 {
                s.at(at + 1)
            } else {
                Snapshot {
                    brackets: s.brackets.push(s.instruction_pointer),
                    ..s.at(s.instruction_pointer + 1)
                }
            },
        ),
{
    lemma_match_unique(program, s.instruction_pointer, at, matching(program, s.instruction_pointer));
}

/// What a loop does at its `]`, for a `[` at `from` whose partner is the
/// `]` at the instruction pointer, in a state whose bracket stack holds the
/// open loops: the cell is tested again; on a non-zero cell control goes
/// back to the first instruction of the body of that same loop, on a zero
/// cell it resumes just past the `]` with the loop no longer recorded.
pub proof fn lemma_loop_exit(program: Seq<u8>, s: Snapshot, event: Event, from: int)
    requires
        s.well_formed(program),
        coherent(program, s),
        0 <= from,
        program[from] == OPEN,
        is_match(program, from, s.instruction_pointer),
    ensures
        step(program, s, event) == Ok::<Snapshot, Fault>(
            if s.cell() != 0 {
                s.at(from + 1)
            } else {
                Snapshot {
                    brackets: open_loops(program, from),
                    ..s.at(s.instruction_pointer + 1)
                }
            },
        ),
{
    lemma_open_loops_across(program, from, s.instruction_pointer);
}

/// A `]` reached with no loop open before it in the program text faults
/// with `SyntaxError`, whatever the cell holds.
pub proof fn lemma_unmatched_close_faults(program: Seq<u8>, s: Snapshot, event: Event)
    requires
        coherent(program, s),
        program[s.instruction_pointer] == CLOSE,
        open_loops(program, s.instruction_pointer).len() == 0,
    ensures
        step(program, s, event) == Err::<Snapshot, Fault>(Fault::SyntaxError),
{
}

/// A `[` reached with no partner ahead faults with `SyntaxError`, whatever
/// the cell holds.
pub proof fn lemma_unmatched_open_faults(program: Seq<u8>, s: Snapshot, event: Event)
    requires
        program[s.instruction_pointer] == OPEN,
        !has_match(program, s.instruction_pointer),
    ensures
        step(program, s, event) == Err::<Snapshot, Fault>(Fault::SyntaxError),
{
}

/// Every `[` has a partner ahead of it and every `]` closes a loop that is
/// open before it.
pub open spec fn balanced(program: Seq<u8>) -> bool {
    &&& forall|i: int|
        0 <= i < program.len() && #[trigger] program[i] == OPEN ==> has_match(program, i)
    &&& forall|j: int|
        0 <= j < program.len() && #[trigger] program[j] == CLOSE ==> open_loops(program, j).len()
            > 0
}

/// A run of a balanced program from a fresh state never faults with
/// `SyntaxError`.
pub proof fn lemma_balanced_run_has_no_syntax_error(program: Seq<u8>, input: Seq<u8>, steps: nat)
    requires
        balanced(program),
    ensures
        trace(program, Snapshot::fresh(), input, steps).fault != Some(Fault::SyntaxError),
    decreases steps,
{
    if steps > 0 {
        lemma_balanced_run_has_no_syntax_error(program, input, (steps - 1) as nat);
        lemma_run_coherent(program, input, (steps - 1) as nat);
    }
}

/// A run that stands at a bracket without a partner (a `[` with nothing
/// ahead to close it, or a `]` with no loop open before it) faults with
/// `SyntaxError` at its next step.
pub proof fn lemma_run_faults_at_unmatched_bracket(program: Seq<u8>, input: Seq<u8>, steps: nat)
    requires
        ({
            let now = trace(program, Snapshot::fresh(), input, steps);
            let i = now.state.instruction_pointer;
            &&& !now.stopped(program)
            &&& {
                ||| program[i] == OPEN && !has_match(program, i)
                ||| program[i] == CLOSE && open_loops(program, i).len() == 0
            }
        }),
    ensures
        trace(program, Snapshot::fresh(), input, steps + 1) == (Trace {
            fault: Some(Fault::SyntaxError),
            ..trace(program, Snapshot::fresh(), input, steps)
        }),
{
    lemma_run_coherent(program, input, steps);
}

/// A loop that is open after `program[..upto]` at a nesting level that was
/// not yet reached after `program[..from]` was opened at or after `from`.
pub proof fn lemma_open_loops_later(program: Seq<u8>, from: int, upto: int, k: int)
    requires
        from <= upto,
        open_loops(program, from).len() <= k < open_loops(program, upto).len(),
    ensures
        open_loops(program, upto)[k] >= from,
    decreases upto - from,
{
    if from < upto && upto > 0 {
        let before = open_loops(program, upto - 1);
        if k < before.len() {
            lemma_open_loops_later(program, from, upto - 1, k);
        }
    }
}

/// Past the `]` that closes it, a loop is no longer open.
pub proof fn lemma_closed_loop_is_not_open(
    program: Seq<u8>,
    from: int,
    at: int,
    upto: int,
    k: int,
)
    requires
        0 <= from,
        program[from] == OPEN,
        is_match(program, from, at),
        at < upto,
        0 <= k < open_loops(program, upto).len(),
    ensures
        open_loops(program, upto)[k] != from,
{
    if open_loops(program, upto)[k] == from {
        lemma_open_loops_prefix(program, upto, k);
        lemma_open_loops_across(program, from, at);
        assert(open_loops(program, from + 1) == open_loops(program, from).push(from));
        lemma_open_loops_later(program, at + 1, upto, k);
    }
}

/// Every loop on the bracket stack has a partner ahead of it.
pub open spec fn entered_loops_close(program: Seq<u8>, s: Snapshot) -> bool {
    forall|k: int| 0 <= k < s.brackets.len() ==> has_match(program, #[trigger] s.brackets[k])
}

/// At every point of a run from a fresh state, every loop on the bracket
/// stack has a partner ahead of it.
pub proof fn lemma_run_enters_only_closed_loops(program: Seq<u8>, input: Seq<u8>, steps: nat)
    ensures
        entered_loops_close(program, trace(program, Snapshot::fresh(), input, steps).state),
    decreases steps,
{
    if steps > 0 {
        lemma_run_enters_only_closed_loops(program, input, (steps - 1) as nat);
    }
}

/// A run from a fresh state that ends without a fault leaves no loop open:
/// a bracket without a partner never goes unnoticed.
pub proof fn lemma_finished_run_leaves_no_loop_open(
    program: Seq<u8>,
    input: Seq<u8>,
    steps: nat,
)
    requires
        trace(program, Snapshot::fresh(), input, steps).finished(program),
    ensures
        trace(program, Snapshot::fresh(), input, steps).state.brackets.len() == 0,
        open_loops(program, program.len() as int).len() == 0,
{
    let state = trace(program, Snapshot::fresh(), input, steps).state;
    lemma_run_coherent(program, input, steps);
    lemma_run_enters_only_closed_loops(program, input, steps);
    if state.brackets.len() > 0 {
        let from = state.brackets[0];
        let at = matching(program, from);
        lemma_open_loops_prefix(program, state.instruction_pointer, 0);
        lemma_closed_loop_is_not_open(program, from, at, state.instruction_pointer, 0);
    }
}

} // verus!
