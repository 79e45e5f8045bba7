use bf_interpreter::dump::debug;
use bf_interpreter::fault::Fault;
use bf_interpreter::machine::{execute_instruction, next_request, Event, Request, State, TAPE_LEN};
use bf_interpreter::program::jump_to_matching_bracket;

#[test]
fn fresh_state_is_all_zero() {
    let state = State::new();
    assert_eq!(state.instruction_pointer, 0);
    assert_eq!(state.data_pointer, 0);
    assert!(state.brackets.is_empty());
    assert_eq!(state.memory.len(), 30_000);
    assert_eq!(TAPE_LEN, 30_000);
    assert!(state.memory.iter().all(|cell| *cell == 0));
    assert!(state.is_well_formed(b"+"));
    assert!(!state.halted(b"+"));
    assert!(state.halted(b""));
}

#[test]
fn well_formedness_is_checked_against_the_program() {
    let mut state = State::new();
    state.instruction_pointer = 2;
    assert!(state.is_well_formed(b"++"));
    assert!(!state.is_well_formed(b"+"));
    state.instruction_pointer = 0;
    state.data_pointer = 30_000;
    assert!(!state.is_well_formed(b"++"));
    state.data_pointer = 29_999;
    assert!(state.is_well_formed(b"++"));
    state.brackets.push(1);
    assert!(state.is_well_formed(b"++"));
    state.brackets.push(2);
    assert!(!state.is_well_formed(b"++"));
}

#[test]
fn jump_finds_the_outer_partner() {
    let mut position = 0usize;
    assert_eq!(jump_to_matching_bracket(b"[[-]]", &mut position), Ok(()));
    assert_eq!(position, 4);
}

#[test]
fn jump_finds_the_inner_partner() {
    let mut position = 1usize;
    assert_eq!(jump_to_matching_bracket(b"[[-]]", &mut position), Ok(()));
    assert_eq!(position, 3);
}

#[test]
fn jump_passes_over_sibling_loops() {
    let mut position = 0usize;
    assert_eq!(jump_to_matching_bracket(b"[a[b]c[d[e]]f]g]", &mut position), Ok(()));
    assert_eq!(position, 13);
}

#[test]
fn jump_from_a_plain_byte_stays() {
    let mut position = 2usize;
    assert_eq!(jump_to_matching_bracket(b"[[-]]", &mut position), Ok(()));
    assert_eq!(position, 2);
}

#[test]
fn jump_without_partner_is_a_syntax_error() {
    let mut position = 0usize;
    assert_eq!(jump_to_matching_bracket(b"[[-]", &mut position), Err(Fault::SyntaxError));
    assert_eq!(position, 0);
    let mut position = 1usize;
    assert_eq!(jump_to_matching_bracket(b"+[", &mut position), Err(Fault::SyntaxError));
    assert_eq!(position, 1);
}

#[test]
fn jump_from_the_end_is_a_syntax_error() {
    let mut position = 2usize;
    assert_eq!(jump_to_matching_bracket(b"[]", &mut position), Err(Fault::SyntaxError));
    assert_eq!(position, 2);
    let mut position = 7usize;
    assert_eq!(jump_to_matching_bracket(b"[]", &mut position), Err(Fault::SyntaxError));
    assert_eq!(position, 7);
}

#[test]
fn jump_from_a_close_needs_a_later_open_to_balance() {
    let mut position = 0usize;
    assert_eq!(jump_to_matching_bracket(b"]+[", &mut position), Ok(()));
    assert_eq!(position, 2);
    let mut position = 0usize;
    assert_eq!(jump_to_matching_bracket(b"]+", &mut position), Err(Fault::SyntaxError));
}

#[test]
fn output_asks_for_a_write_of_the_current_cell() {
    let program = b"+.";
    let mut state = State::new();
    assert_eq!(next_request(program, &state, false), Request::Nothing);
    assert_eq!(execute_instruction(program, &mut state, Event::Done), Ok(()));
    assert_eq!(next_request(program, &state, false), Request::Write(1));
    assert_eq!(execute_instruction(program, &mut state, Event::Done), Ok(()));
    assert_eq!(state.instruction_pointer, 2);
    assert!(state.halted(program));
}

#[test]
fn failed_write_is_an_output_error() {
    let program = b".";
    let mut state = State::new();
    assert_eq!(execute_instruction(program, &mut state, Event::Failed), Err(Fault::OutputError));
    assert_eq!(state.instruction_pointer, 0);
}

#[test]
fn input_asks_for_a_read_and_stores_the_byte() {
    let program = b",";
    let mut state = State::new();
    assert_eq!(next_request(program, &state, true), Request::Read);
    assert_eq!(execute_instruction(program, &mut state, Event::Byte(9)), Ok(()));
    assert_eq!(state.memory[0], 9);
    assert_eq!(state.instruction_pointer, 1);
}

#[test]
fn failed_or_missing_read_is_an_input_error() {
    let program = b",";
    let mut state = State::new();
    assert_eq!(execute_instruction(program, &mut state, Event::Failed), Err(Fault::InputError));
    assert_eq!(execute_instruction(program, &mut state, Event::Done), Err(Fault::InputError));
    assert_eq!(state.instruction_pointer, 0);
    assert_eq!(state.memory[0], 0);
}

#[test]
fn dump_instruction_is_optional() {
    let program = b"#";
    let mut state = State::new();
    assert_eq!(next_request(program, &state, true), Request::Dump);
    assert_eq!(next_request(program, &state, false), Request::Nothing);
    assert_eq!(execute_instruction(program, &mut state, Event::Done), Ok(()));
    assert_eq!(state.instruction_pointer, 1);
    assert_eq!(state.memory[0], 0);
}

#[test]
fn entering_a_loop_records_its_position() {
    let program = b"+[-]";
    let mut state = State::new();
    assert_eq!(execute_instruction(program, &mut state, Event::Done), Ok(()));
    assert_eq!(execute_instruction(program, &mut state, Event::Done), Ok(()));
    assert_eq!(state.brackets, vec![1usize]);
    assert_eq!(state.instruction_pointer, 2);
    assert_eq!(execute_instruction(program, &mut state, Event::Done), Ok(()));
    assert_eq!(execute_instruction(program, &mut state, Event::Done), Ok(()));
    assert!(state.brackets.is_empty());
    assert_eq!(state.instruction_pointer, 4);
}

#[test]
fn entering_a_loop_without_partner_is_a_syntax_error() {
    let program = b"+[";
    let mut state = State::new();
    assert_eq!(execute_instruction(program, &mut state, Event::Done), Ok(()));
    assert_eq!(state.instruction_pointer, 1);
    assert_eq!(state.memory[0], 1);
    assert_eq!(execute_instruction(program, &mut state, Event::Done), Err(Fault::SyntaxError));
    assert_eq!(state.instruction_pointer, 1);
    assert_eq!(state.memory[0], 1);
    assert_eq!(state.data_pointer, 0);
    assert!(state.brackets.is_empty());
    assert!(!state.halted(program));
}

#[test]
fn close_on_a_nonzero_cell_returns_to_the_body_without_popping() {
    let program = b"++[-]";
    let mut state = State::new();
    for _ in 0..4 {
        assert_eq!(execute_instruction(program, &mut state, Event::Done), Ok(()));
    }
    assert_eq!(state.instruction_pointer, 4);
    assert_eq!(state.memory[0], 1);
    assert_eq!(execute_instruction(program, &mut state, Event::Done), Ok(()));
    assert_eq!(state.instruction_pointer, 3);
    assert_eq!(state.brackets, vec![2usize]);
}

#[test]
fn skip_lands_just_past_the_partner() {
    let program = b"[[-]]+";
    let mut state = State::new();
    assert_eq!(execute_instruction(program, &mut state, Event::Done), Ok(()));
    assert_eq!(state.instruction_pointer, 5);
    assert!(state.brackets.is_empty());
}

#[test]
fn dump_of_a_fresh_state_shows_one_cell() {
    let dump = debug(&State::new());
    assert_eq!(dump.memory, vec![0u8]);
    assert_eq!(dump.instruction_pointer, 0);
    assert_eq!(dump.data_pointer, 0);
    assert!(dump.brackets.is_empty());
}

#[test]
fn dump_cuts_the_tape_after_its_last_nonzero_cell() {
    let mut state = State::new();
    state.memory[1] = 4;
    state.memory[3] = 9;
    state.instruction_pointer = 12;
    state.data_pointer = 3;
    state.brackets = vec![2, 7];
    let dump = debug(&state);
    assert_eq!(dump.memory, vec![0u8, 4, 0, 9]);
    assert_eq!(dump.instruction_pointer, 12);
    assert_eq!(dump.data_pointer, 3);
    assert_eq!(dump.brackets, vec![2usize, 7]);
}

#[test]
fn dump_shows_the_whole_tape_when_the_last_cell_is_set() {
    let mut state = State::new();
    state.memory[29_999] = 1;
    let dump = debug(&state);
    assert_eq!(dump.memory.len(), 30_000);
    assert_eq!(dump.memory[29_999], 1);
}

#[test]
fn dump_shows_only_the_first_cell_when_only_it_is_set() {
    let mut state = State::new();
    state.memory[0] = 3;
    assert_eq!(debug(&state).memory, vec![3u8]);
}

#[test]
fn each_fault_has_its_message() {
    assert_eq!(Fault::OutOfBounds.describe(), "Memory range exceeded");
    assert_eq!(Fault::SyntaxError.describe(), "Syntax error");
    assert_eq!(Fault::InputError.describe(), "Input error");
    assert_eq!(Fault::OutputError.describe(), "Output error");
}
