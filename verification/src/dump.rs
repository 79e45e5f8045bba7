use vstd::prelude::*;
use crate::machine::State;

verus! {

/// What is shown of a state for diagnosis.
#[derive(Clone, Debug)]
pub struct Dump {
    pub instruction_pointer: usize,
    pub data_pointer: usize,
    /// The open loops, innermost last.
    pub brackets: Vec<usize>,
    /// The tape up to and including its highest non-zero cell.
    pub memory: Vec<u8>,
}

/// `shown` is the number of cells worth showing: everything from `shown` on
/// is zero, and the last cell shown is non-zero unless it is the only one.
pub open spec fn is_shown_len(memory: Seq<u8>, shown: int) -> bool {
    &&& 1 <= shown <= memory.len()
    &&& forall|i: int| shown <= i < memory.len() ==> memory[i] == 0
    &&& (shown == 1 || memory[shown - 1] != 0)
}

/// Only one length is worth showing.
pub proof fn lemma_shown_len_unique(memory: Seq<u8>, a: int, b: int)
    requires
        is_shown_len(memory, a),
        is_shown_len(memory, b),
    ensures
        a == b,
{
}

/// Collects what a diagnostic dump shows: both pointers, the open loops, and
/// the tape with its trailing zero cells left out (the first cell is always
/// shown).
pub fn debug(state: &State) -> (dump: Dump)
    ensures
        dump.instruction_pointer == state.instruction_pointer,
        dump.data_pointer == state.data_pointer,
        dump.brackets@ == state.brackets@,
        is_shown_len(state.memory@, dump.memory@.len() as int),
        dump.memory@ == state.memory@.take(dump.memory@.len() as int),
{
    let mut shown: usize = state.memory.len();
    while shown > 1 && state.memory[shown - 1] == 0
        invariant
            1 <= shown <= state.memory@.len(),
            forall|i: int| shown <= i < state.memory@.len() ==> state.memory@[i] == 0,
        decreases shown,
    {
        shown = shown - 1;
    }
    let mut memory: Vec<u8> = Vec::new();
    let mut i: usize = 0;
    while i < shown
        invariant
            i <= shown <= state.memory@.len(),
            memory@ == state.memory@.take(i as int),
        decreases shown - i,
    {
        memory.push(state.memory[i]);
        assert(memory@ =~= state.memory@.take(i + 1));
        i = i + 1;
    }
    let mut brackets: Vec<usize> = Vec::new();
    let mut j: usize = 0;
    while j < state.brackets.len()
        invariant
            j <= state.brackets@.len(),
            brackets@ == state.brackets@.take(j as int),
        decreases state.brackets@.len() - j,
    {
        brackets.push(state.brackets[j]);
        assert(brackets@ =~= state.brackets@.take(j + 1));
        j = j + 1;
    }
    assert(brackets@ =~= state.brackets@);
    Dump {
        instruction_pointer: state.instruction_pointer,
        data_pointer: state.data_pointer,
        brackets,
        memory,
    }
}

} // verus!
