use brainvm::cell::CellWidth;
use brainvm::engine::{
    push_decimal, BrainfuckInterpreter, EngineError, OutputMode, Position, RunError, RunOutcome,
    STANDARD_TAPE_LEN,
};
use brainvm::instruction::Instruction;
use brainvm::translate::{parse_brainfuck, TranslateError};

const FUEL: u64 = 100_000;

#[test]
fn doubling_loop_outputs_four() {
    let mut e = BrainfuckInterpreter::standard();
    let mut out = Vec::new();
    let r = e.run_source("++[>++<-]>.", &vec![], &mut out, FUEL).unwrap();
    assert!(r.halted);
    assert_eq!(out, vec![4]);
    assert_eq!(e.render(out[0]), vec![4u8]);
    assert_eq!(e.memory()[0], 0);
    assert_eq!(e.memory()[1], 4);
    assert_eq!(e.pointer(), 1);
}

#[test]
fn doubling_loop_prints_four_in_numeric_mode() {
    let mut e = BrainfuckInterpreter::new(vec![0; 30000]);
    let mut out = Vec::new();
    let r = e.run_source("++[>++<-]>.", &vec![], &mut out, FUEL).unwrap();
    assert!(r.halted);
    assert_eq!(out, vec![4]);
    assert_eq!(e.render(4), b"4".to_vec());
}

#[test]
fn input_is_echoed() {
    let mut e = BrainfuckInterpreter::standard();
    let mut out = Vec::new();
    let r = e.run_source(",.", &vec![65], &mut out, FUEL).unwrap();
    assert_eq!(r, RunOutcome { at: Position { pc: 2, input_pos: 1 }, halted: true });
    assert_eq!(out, vec![65]);
    assert_eq!(e.render(out[0]), b"A".to_vec());
}

#[test]
fn exhausted_input_leaves_cell_unchanged() {
    let mut e = BrainfuckInterpreter::standard();
    let mut out = Vec::new();
    let r = e.run_source("+++,.", &vec![], &mut out, FUEL).unwrap();
    assert!(r.halted);
    assert_eq!(r.at.input_pos, 0);
    assert_eq!(out, vec![3]);
}

#[test]
fn empty_loop_on_zero_cell_is_skipped() {
    let mut e = BrainfuckInterpreter::standard();
    let mut out = Vec::new();
    let r = e.run_source("[]+.>++.", &vec![], &mut out, FUEL).unwrap();
    assert!(r.halted);
    assert_eq!(out, vec![1, 2]);
}

#[test]
fn loop_skip_jumps_past_whole_body() {
    let mut e = BrainfuckInterpreter::standard();
    let mut out = Vec::new();
    let r = e.run_source("[.+.]-.", &vec![], &mut out, FUEL).unwrap();
    assert!(r.halted);
    assert_eq!(out, vec![255]);
}

#[test]
fn backward_move_at_start_underflows() {
    let mut e = BrainfuckInterpreter::standard();
    let mut out = Vec::new();
    let r = e.run_source("<+.", &vec![], &mut out, FUEL);
    assert_eq!(r, Err(RunError::Engine(EngineError::PointerUnderflow { pc: 0 })));
    assert!(out.is_empty());
    assert_eq!(e.memory()[0], 0);
    assert_eq!(e.pointer(), 0);
}

#[test]
fn output_before_underflow_is_kept() {
    let mut e = BrainfuckInterpreter::standard();
    let mut out = Vec::new();
    let r = e.run_source("+.>.<<.", &vec![], &mut out, FUEL);
    assert_eq!(r, Err(RunError::Engine(EngineError::PointerUnderflow { pc: 5 })));
    assert_eq!(out, vec![1, 0]);
}

#[test]
fn forward_past_end_grows_by_one_zero_cell() {
    let mut e = BrainfuckInterpreter::new(vec![7]);
    let mut out = Vec::new();
    let r = e.run_source(">", &vec![], &mut out, FUEL).unwrap();
    assert!(r.halted);
    assert_eq!(e.memory().clone(), vec![7, 0]);
    assert_eq!(e.pointer(), 1);
    e.run_source(">>", &vec![], &mut out, FUEL).unwrap();
    assert_eq!(e.memory().clone(), vec![7, 0, 0, 0]);
    assert_eq!(e.pointer(), 3);
}

#[test]
fn forward_inside_tape_does_not_grow() {
    let mut e = BrainfuckInterpreter::new(vec![1, 2, 3]);
    let mut out = Vec::new();
    e.run_source(">>.", &vec![], &mut out, FUEL).unwrap();
    assert_eq!(e.memory().clone(), vec![1, 2, 3]);
    assert_eq!(out, vec![3]);
}

#[test]
fn empty_tape_starts_with_one_zero_cell() {
    let e = BrainfuckInterpreter::new(vec![]);
    assert_eq!(e.memory().clone(), vec![0]);
    assert_eq!(e.pointer(), 0);
    assert_eq!(e.width(), CellWidth::Bits64);
    assert_eq!(e.output_mode(), OutputMode::Numeric);
}

#[test]
fn standard_engine_configuration() {
    let e = BrainfuckInterpreter::standard();
    assert_eq!(e.memory().len(), STANDARD_TAPE_LEN);
    assert_eq!(STANDARD_TAPE_LEN, 30000);
    assert!(e.memory().iter().all(|v| *v == 0));
    assert_eq!(e.width(), CellWidth::Bits8);
    assert_eq!(e.output_mode(), OutputMode::Character);
}

#[test]
fn nonzero_loop_with_unchanging_body_never_halts() {
    let mut e = BrainfuckInterpreter::standard();
    let mut out = Vec::new();
    let r = e.run_source("+[]", &vec![], &mut out, FUEL).unwrap();
    assert!(!r.halted);
    assert!(r.at.pc >= 1 && r.at.pc <= 2);
    assert_eq!(e.memory()[0], 1);
}

#[test]
fn output_only_loop_never_halts() {
    let mut e = BrainfuckInterpreter::standard();
    let mut out = Vec::new();
    let r = e.run_source("+[.]", &vec![], &mut out, 1000).unwrap();
    assert!(!r.halted);
    assert!(out.len() > 100);
    assert!(out.iter().all(|v| *v == 1));
}

#[test]
fn decrement_of_zero_byte_wraps() {
    let mut e = BrainfuckInterpreter::standard();
    let mut out = Vec::new();
    e.run_source("-.+.", &vec![], &mut out, FUEL).unwrap();
    assert_eq!(out, vec![255, 0]);
}

#[test]
fn wide_cells_count_past_a_byte() {
    let mut e = BrainfuckInterpreter::with_config(vec![255], CellWidth::Bits16, OutputMode::Numeric)
        .unwrap();
    let mut out = Vec::new();
    e.run_source("+.", &vec![], &mut out, FUEL).unwrap();
    assert_eq!(out, vec![256]);
    assert_eq!(e.render(256), b"256".to_vec());
}

#[test]
fn with_config_refuses_cells_too_wide() {
    assert!(BrainfuckInterpreter::with_config(vec![0, 256], CellWidth::Bits8, OutputMode::Character)
        .is_none());
    assert!(BrainfuckInterpreter::with_config(vec![0, 255], CellWidth::Bits8, OutputMode::Character)
        .is_some());
    let e = BrainfuckInterpreter::with_config(vec![], CellWidth::Bits32, OutputMode::Numeric).unwrap();
    assert_eq!(e.memory().clone(), vec![0]);
}

#[test]
fn translation_error_leaves_engine_untouched() {
    let mut e = BrainfuckInterpreter::new(vec![5]);
    let mut out = vec![9];
    let r = e.run_source("+]", &vec![], &mut out, FUEL);
    assert_eq!(
        r,
        Err(RunError::Translate(TranslateError::UnmatchedCloseBracket { position: 1 }))
    );
    assert_eq!(e.memory().clone(), vec![5]);
    assert_eq!(out, vec![9]);
    let r = e.run_source("[", &vec![], &mut out, FUEL);
    assert_eq!(r, Err(RunError::Translate(TranslateError::UnmatchedOpenBracket)));
}

#[test]
fn fuel_limits_the_number_of_instructions() {
    let mut e = BrainfuckInterpreter::standard();
    let mut out = Vec::new();
    let r = e.run_source("+++.", &vec![], &mut out, 2).unwrap();
    assert_eq!(r, RunOutcome { at: Position { pc: 2, input_pos: 0 }, halted: false });
    assert_eq!(e.memory()[0], 2);
    assert!(out.is_empty());
}

#[test]
fn step_executes_one_instruction() {
    let program = parse_brainfuck("+>.").unwrap();
    let mut e = BrainfuckInterpreter::standard();
    let mut out = Vec::new();
    let q = e.step(&program, 0, &vec![], 0, &mut out).unwrap();
    assert_eq!(q, Position { pc: 1, input_pos: 0 });
    assert_eq!(e.memory()[0], 1);
    let q = e.step(&program, 1, &vec![], 0, &mut out).unwrap();
    assert_eq!(q.pc, 2);
    assert_eq!(e.pointer(), 1);
    let q = e.step(&program, 2, &vec![], 0, &mut out).unwrap();
    assert_eq!(q.pc, 3);
    assert_eq!(out, vec![0]);
}

#[test]
fn step_backward_at_origin_changes_nothing() {
    let program = vec![Instruction::MovePointerBackward];
    let mut e = BrainfuckInterpreter::new(vec![3, 4]);
    let mut out = Vec::new();
    let r = e.step(&program, 0, &vec![], 0, &mut out);
    assert_eq!(r, Err(EngineError::PointerUnderflow { pc: 0 }));
    assert_eq!(e.memory().clone(), vec![3, 4]);
    assert_eq!(e.pointer(), 0);
}

#[test]
fn run_on_resolved_program() {
    let program = parse_brainfuck("+++[>+++<-]>.").unwrap();
    let mut e = BrainfuckInterpreter::standard();
    let mut out = Vec::new();
    let r = e.run(&program, &vec![], &mut out, FUEL).unwrap();
    assert_eq!(r, RunOutcome { at: Position { pc: 13, input_pos: 0 }, halted: true });
    assert_eq!(out, vec![9]);
}

#[test]
fn character_rendering_takes_low_byte() {
    let e = BrainfuckInterpreter::with_config(vec![], CellWidth::Bits16, OutputMode::Character).unwrap();
    assert_eq!(e.render(0x141), vec![0x41]);
}

#[test]
fn numeric_rendering_writes_decimal_digits() {
    let e = BrainfuckInterpreter::new(vec![]);
    assert_eq!(e.render(0), b"0".to_vec());
    assert_eq!(e.render(1234567890), b"1234567890".to_vec());
    assert_eq!(e.render(u64::MAX), b"18446744073709551615".to_vec());
    let mut buf = b"x".to_vec();
    push_decimal(907, &mut buf);
    assert_eq!(buf, b"x907".to_vec());
}
