use vstd::prelude::*;
use crate::fault::Fault;
use crate::program::{
    has_match, jump_to_matching_bracket, matching, CLOSE, DECREMENT, DUMP, INCREMENT, INPUT, LEFT,
    OPEN, OUTPUT, RIGHT,
};

verus! {

/// The number of cells on the tape.
pub const TAPE_LEN: usize = 30000;

/// Everything the interpreter changes while it runs.
#[derive(Clone, Debug)]
pub struct State {
    /// Index of the next instruction.
    pub instruction_pointer: usize,
    /// The tape.
    pub memory: [u8; 30000],
    /// Index of the current cell.
    pub data_pointer: usize,
    /// Positions of the loops that were entered and not yet left, innermost last.
    pub brackets: Vec<usize>,
}

/// The mathematical value of a [`State`].
pub struct Snapshot {
    pub instruction_pointer: int,
    pub memory: Seq<u8>,
    pub data_pointer: int,
    pub brackets: Seq<int>,
}

/// What the caller reports back from the outside world before an instruction
/// is executed.
#[derive(Clone, Copy, Debug, PartialEq, Eq, Structural)]
pub enum Event {
    /// Nothing was asked for, or the write that was asked for succeeded.
    Done,
    /// The read that was asked for delivered this byte.
    Byte(u8),
    /// The read or write that was asked for failed, or the input has ended.
    Failed,
}

/// What the instruction about to be executed needs from the outside world.
#[derive(Clone, Copy, Debug, PartialEq, Eq, Structural)]
pub enum Request {
    /// No outside work.
    Nothing,
    /// Write this byte to the output stream.
    Write(u8),
    /// Flush the output stream, then read one byte from the input stream.
    Read,
    /// Show a diagnostic dump and carry on.
    Dump,
}

impl Snapshot {
    /// The state before the first instruction: all cells zero, both pointers
    /// at zero, no loop entered.
    pub open spec fn fresh() -> Snapshot {
        Snapshot {
            instruction_pointer: 0,
            memory: Seq::new(TAPE_LEN as nat, |i: int| 0u8),
            data_pointer: 0,
            brackets: Seq::empty(),
        }
    }

    /// The tape has its fixed length, the data pointer is on it, the
    /// instruction pointer is within `0..=program.len()`, and every recorded
    /// loop position lies in the program.
    pub open spec fn well_formed(self, program: Seq<u8>) -> bool {
        &&& self.memory.len() == TAPE_LEN
        &&& 0 <= self.data_pointer < TAPE_LEN
        &&& 0 <= self.instruction_pointer <= program.len()
        &&& forall|i: int|
            0 <= i < self.brackets.len() ==> 0 <= #[trigger] self.brackets[i] < program.len()
    }

    /// No instruction is left to execute.
    pub open spec fn halted(self, program: Seq<u8>) -> bool {
        self.instruction_pointer >= program.len()
    }

    /// The value of the current cell.
    pub open spec fn cell(self) -> u8 {
        self.memory[self.data_pointer]
    }

    /// The same state with the instruction pointer at `target`.
    pub open spec fn at(self, target: int) -> Snapshot {
        Snapshot { instruction_pointer: target, ..self }
    }

    /// The same state with `value` in the current cell.
    pub open spec fn store(self, value: u8) -> Snapshot {
        Snapshot { memory: self.memory.update(self.data_pointer, value), ..self }
    }
}

impl View for State {
    type V = Snapshot;

    open spec fn view(&self) -> Snapshot {
        Snapshot {
            instruction_pointer: self.instruction_pointer as int,
            memory: self.memory@,
            data_pointer: self.data_pointer as int,
            brackets: Seq::new(self.brackets@.len(), |i: int| self.brackets@[i] as int),
        }
    }
}

/// `value + delta` reduced modulo 256.
pub open spec fn wrap(value: int, delta: int) -> u8 {
    ((value + delta) % 256) as u8
}

/// The effect of the instruction at the instruction pointer: the next state,
/// or the fault that ends the run.
///
/// Every instruction but a jump moves the instruction pointer on by one. A
/// `[` with no partner ahead is a `SyntaxError`, whatever the cell holds;
/// with one, it lands just past the partner on a zero cell and is recorded
/// as entered on any other. A `]` with no loop entered is a `SyntaxError`;
/// on a non-zero cell it lands just past the innermost entered `[`, on a
/// zero cell it leaves that loop.
pub open spec fn step(program: Seq<u8>, s: Snapshot, event: Event) -> Result<Snapshot, Fault> {
    let op = program[s.instruction_pointer];
    let next = s.instruction_pointer + 1;
    if op == RIGHT {
        if s.data_pointer + 1 >= TAPE_LEN {
            Err(Fault::OutOfBounds)
        } else {
            Ok(Snapshot { data_pointer: s.data_pointer + 1, ..s.at(next) })
        }
    } else if op == LEFT {
        if s.data_pointer == 0 {
            Err(Fault::OutOfBounds)
        } else {
            Ok(Snapshot { data_pointer: s.data_pointer - 1, ..s.at(next) })
        }
    } else if op == INCREMENT {
        Ok(s.store(wrap(s.cell() as int, 1)).at(next))
    } else if op == DECREMENT {
        Ok(s.store(wrap(s.cell() as int, -1)).at(next))
    } else if op == OUTPUT {
        if event == Event::Failed {
            Err(Fault::OutputError)
        } else {
            Ok(s.at(next))
        }
    } else if op == INPUT {
        match event {
            Event::Byte(byte) => Ok(s.store(byte).at(next)),
            _ => Err(Fault::InputError),
        }
    } else if op == OPEN {
        if !has_match(program, s.instruction_pointer) {
            Err(Fault::SyntaxError)
        } else if s.cell() != 0 {
            Ok(Snapshot { brackets: s.brackets.push(s.instruction_pointer), ..s.at(next) })
        } else {
            Ok(s.at(matching(program, s.instruction_pointer) + 1))
        }
    } else if op == CLOSE {
        if s.brackets.len() == 0 {
            Err(Fault::SyntaxError)
        } else if s.cell() == 0 {
            Ok(Snapshot { brackets: s.brackets.drop_last(), ..s.at(next) })
        } else {
            Ok(s.at(s.brackets.last() + 1))
        }
    } else {
        Ok(s.at(next))
    }
}

/// The outside work that the instruction at the instruction pointer calls
/// for. `#` asks for a dump only where the caller has switched that on.
pub open spec fn request(program: Seq<u8>, s: Snapshot, dumps: bool) -> Request {
    let op = program[s.instruction_pointer];
    if op == OUTPUT {
        Request::Write(s.cell())
    } else if op == INPUT {
        Request::Read
    } else if op == DUMP && dumps {
        Request::Dump
    } else {
        Request::Nothing
    }
}

impl State {
    /// A state before the first instruction.
    pub fn new() -> (state: State)
        ensures
            state@ == Snapshot::fresh(),
    {
        let state = State {
            instruction_pointer: 0,
            memory: [0u8;30000],
            data_pointer: 0,
            brackets: Vec::new(),
        };
        assert(state@.memory =~= Snapshot::fresh().memory);
        assert(state@.brackets =~= Snapshot::fresh().brackets);
        state
    }

    /// Whether this state can be run on `brainfuck_bytes`: the data pointer
    /// is on the tape, the instruction pointer is not beyond the end of the
    /// program, and every recorded loop position lies in the program.
    pub fn is_well_formed(&self, brainfuck_bytes: &[u8]) -> (ok: bool)
        ensures
            ok == self@.well_formed(brainfuck_bytes@),
    {
        if self.data_pointer >= TAPE_LEN || self.instruction_pointer > brainfuck_bytes.len() {
            return false;
        }
        let mut i: usize = 0;
        while i < self.brackets.len()
            invariant
                i <= self.brackets@.len(),
                forall|k: int| 0 <= k < i ==> 0 <= #[trigger] self@.brackets[k] < brainfuck_bytes@.len(),
            decreases self.brackets@.len() - i,
        {
            if self.brackets[i] >= brainfuck_bytes.len() {
                assert(!(self@.brackets[i as int] < brainfuck_bytes@.len()));
                return false;
            }
            i = i + 1;
        }
        true
    }

    /// Whether the instruction pointer has run off the end of the program.
    pub fn halted(&self, brainfuck_bytes: &[u8]) -> (done: bool)
        ensures
            done == self@.halted(brainfuck_bytes@),
    {
        self.instruction_pointer >= brainfuck_bytes.len()
    }
}

/// Says what the caller has to do in the outside world before it executes
/// the next instruction.
pub fn next_request(brainfuck_bytes: &[u8], state: &State, dumps: bool) -> (wanted: Request)
    requires
        state@.well_formed(brainfuck_bytes@),
        !state@.halted(brainfuck_bytes@),
    ensures
        wanted == request(brainfuck_bytes@, state@, dumps),
{
    let op: u8 = brainfuck_bytes[state.instruction_pointer];
    if op == OUTPUT {
        Request::Write(state.memory[state.data_pointer])
    } else if op == INPUT {
        Request::Read
    } else if op == DUMP && dumps {
        Request::Dump
    } else {
        Request::Nothing
    }
}

/// Executes the instruction at the instruction pointer.
///
/// `event` is the outcome of the outside work that [`next_request`] asked
/// for. On a fault the state is left as it was, so that it can be shown.
pub fn execute_instruction(brainfuck_bytes: &[u8], state: &mut State, event: Event) -> (result:
    Result<(), Fault>)
    requires
        old(state)@.well_formed(brainfuck_bytes@),
        !old(state)@.halted(brainfuck_bytes@),
    ensures
        final(state)@.well_formed(brainfuck_bytes@),
        match step(brainfuck_bytes@, old(state)@, event) {
            Ok(next) => result is Ok && final(state)@ == next,
            Err(fault) => result == Err::<(), Fault>(fault) && final(state)@ == old(state)@,
        },
{
    let ghost before = state@;
    let ghost program = brainfuck_bytes@;
    let op: u8 = brainfuck_bytes[state.instruction_pointer];
    let cell: u8 = state.memory[state.data_pointer];
    if op == RIGHT {
        if state.data_pointer + 1 >= TAPE_LEN {
            return Err(Fault::OutOfBounds);
        }
        state.data_pointer = state.data_pointer + 1;
    } else if op == LEFT {
        if state.data_pointer == 0 {
            return Err(Fault::OutOfBounds);
        }
        state.data_pointer = state.data_pointer - 1;
    } else if op == INCREMENT {
        state.memory[state.data_pointer] = cell.wrapping_add(1);
    } else if op == DECREMENT {
        state.memory[state.data_pointer] = cell.wrapping_sub(1);
    } else if op == OUTPUT {
        if event == Event::Failed {
            return Err(Fault::OutputError);
        }
    } else if op == INPUT {
        match event {
            Event::Byte(byte) => {
                state.memory[state.data_pointer] = byte;
            },
            _ => {
                return Err(Fault::InputError);
            },
        }
    } else if op == OPEN {
        let mut partner: usize = state.instruction_pointer;
        match jump_to_matching_bracket(brainfuck_bytes, &mut partner) {
            Ok(_) => {},
            Err(fault) => {
                return Err(fault);
            },
        }
        if cell == 0 {
            state.instruction_pointer = partner;
        } else {
            state.brackets.push(state.instruction_pointer);
        }
    } else if op == CLOSE {
        let open: usize = state.brackets.len();
        if open == 0 {
            return Err(Fault::SyntaxError);
        }
        if cell == 0 {
            state.brackets.pop();
        } else {
            state.instruction_pointer = state.brackets[open - 1];
        }
    }
    state.instruction_pointer = state.instruction_pointer + 1;
    proof {
        let expected = step(program, before, event)->Ok_0;
        assert(state@.brackets =~= expected.brackets);
        assert(state@.memory =~= expected.memory);
    }
    Ok(())
}

} // verus!
