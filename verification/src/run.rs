use vstd::prelude::*;
use crate::fault::Fault;
use crate::machine::{execute_instruction, next_request, step, Event, Request, Snapshot, State};
use crate::program::{INPUT, OUTPUT};

verus! {

/// How a run over an input held in memory stands after some steps.
#[derive(Clone, Debug)]
pub struct Execution {
    /// The machine as the last executed instruction left it.
    pub state: State,
    /// The bytes written so far.
    pub output: Vec<u8>,
    /// How many input bytes were read.
    pub consumed: usize,
    /// The fault that ended the run, if one did.
    pub fault: Option<Fault>,
}

/// The mathematical value of an [`Execution`].
pub struct Trace {
    pub state: Snapshot,
    pub output: Seq<u8>,
    pub consumed: int,
    pub fault: Option<Fault>,
}

impl View for Execution {
    type V = Trace;

    open spec fn view(&self) -> Trace {
        Trace {
            state: self.state@,
            output: self.output@,
            consumed: self.consumed as int,
            fault: self.fault,
        }
    }
}

/// What the input stream answers to the instruction at the instruction
/// pointer: its next byte to a `,` (a failure once it is used up), nothing to
/// any other instruction. Writing to memory never fails.
pub open spec fn feed(program: Seq<u8>, s: Snapshot, input: Seq<u8>, consumed: int) -> Event {
    if program[s.instruction_pointer] != INPUT {
        Event::Done
    } else if 0 <= consumed < input.len() {
        Event::Byte(input[consumed])
    } else {
        Event::Failed
    }
}

impl Trace {
    /// The point from which a run sets out.
    pub open spec fn begin(start: Snapshot) -> Trace {
        Trace { state: start, output: Seq::empty(), consumed: 0, fault: None }
    }

    /// The run is over: it faulted, or no instruction is left.
    pub open spec fn stopped(self, program: Seq<u8>) -> bool {
        self.fault is Some || self.state.halted(program)
    }

    /// The run ended without a fault.
    pub open spec fn finished(self, program: Seq<u8>) -> bool {
        self.fault is None && self.state.halted(program)
    }

    /// One more instruction: a `.` appends the current cell to the output, a
    /// `,` that succeeds uses up one input byte, and a fault is recorded with
    /// everything else left as it was.
    pub open spec fn advance(self, program: Seq<u8>, input: Seq<u8>) -> Trace {
        let op = program[self.state.instruction_pointer];
        match step(program, self.state, feed(program, self.state, input, self.consumed)) {
            Ok(next) => Trace {
                state: next,
                output: if op == OUTPUT {
                    self.output.push(self.state.cell())
                } else {
                    self.output
                },
                consumed: if op == INPUT {
                    self.consumed + 1
                } else {
                    self.consumed
                },
                fault: None,
            },
            Err(fault) => Trace { fault: Some(fault), ..self },
        }
    }
}

/// The run of `program` from `start` on `input`, cut off after `steps`
/// instructions. Once a run has stopped, more steps change nothing.
pub open spec fn trace(program: Seq<u8>, start: Snapshot, input: Seq<u8>, steps: nat) -> Trace
    decreases steps,
{
    if steps == 0 {
        Trace::begin(start)
    } else {
        let earlier = trace(program, start, input, (steps - 1) as nat);
        if earlier.stopped(program) {
            earlier
        } else {
            earlier.advance(program, input)
        }
    }
}

/// A run that has stopped after `steps` instructions is the same after any
/// larger number.
pub proof fn lemma_stopped_stays(
    program: Seq<u8>,
    start: Snapshot,
    input: Seq<u8>,
    steps: nat,
    more: nat,
)
    requires
        steps <= more,
        trace(program, start, input, steps).stopped(program),
    ensures
        trace(program, start, input, more) == trace(program, start, input, steps),
    decreases more,
{
    if steps < more {
        lemma_stopped_stays(program, start, input, steps, (more - 1) as nat);
    }
}

impl Execution {
    /// Whether the run ended without a fault.
    pub fn finished(&self, brainfuck_bytes: &[u8]) -> (done: bool)
        ensures
            done == self@.finished(brainfuck_bytes@),
    {
        self.fault.is_none() && self.state.halted(brainfuck_bytes)
    }
}

/// Runs `brainfuck_bytes` from a fresh state, reading from `input` and
/// collecting what is written, for at most `max_steps` instructions.
///
/// The result is a function of the three arguments alone: the same program
/// on the same input gives the same output, the same final state and the
/// same fault, every time.
pub fn run(brainfuck_bytes: &[u8], input: &[u8], max_steps: u64) -> (execution: Execution)
    ensures
        execution@ == trace(brainfuck_bytes@, Snapshot::fresh(), input@, max_steps as nat),
{
    let mut execution = Execution {
        state: State::new(),
        output: Vec::new(),
        consumed: 0,
        fault: None,
    };
    let ghost program = brainfuck_bytes@;
    let ghost start = Snapshot::fresh();
    let mut steps: u64 = 0;
    while steps < max_steps && execution.fault.is_none() && !execution.state.halted(brainfuck_bytes)
        invariant
            program == brainfuck_bytes@,
            start == Snapshot::fresh(),
            steps <= max_steps,
            execution.state@.well_formed(program),
            execution.consumed <= input@.len(),
            execution@ == trace(program, start, input@, steps as nat),
        decreases max_steps - steps,
    {
        let event = match next_request(brainfuck_bytes, &execution.state, false) {
            Request::Write(byte) => {
                execution.output.push(byte);
                Event::Done
            },
            Request::Read => {
                if execution.consumed < input.len() {
                    let byte: u8 = input[execution.consumed];
                    Event::Byte(byte)
                } else {
                    Event::Failed
                }
            },
            _ => Event::Done,
        };
        match execute_instruction(brainfuck_bytes, &mut execution.state, event) {
            Ok(_) => {
                if let Event::Byte(_) = event {
                    execution.consumed = execution.consumed + 1;
                }
            },
            Err(fault) => {
                execution.fault = Some(fault);
            },
        }
        steps = steps + 1;
    }
    proof {
        if steps < max_steps {
            lemma_stopped_stays(program, start, input@, steps as nat, max_steps as nat);
        }
    }
    execution
}

} // verus!
