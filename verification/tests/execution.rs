use brainfuck::command::Command;
use brainfuck::machine::RuntimeError;
use brainfuck::optimized_command::OptimizedCommand;
use brainfuck::optimized_program::OptimizedProgram;
use brainfuck::program::Program;
use brainfuck::{optimized_compiler, unoptimized_compiler};

const STEPS: u64 = 1_000_000;

fn commands_of(source: &str) -> Vec<Command> {
    let mut commands = Vec::new();
    for symbol in source.chars() {
        if let Ok(command) = Command::try_from(symbol) {
            commands.push(command);
        }
    }
    commands
}

#[test]
fn adding_two() {
    let mut program = OptimizedProgram::from(vec![OptimizedCommand::AddValue(2)]).unwrap();
    program.execute(&vec![], STEPS).unwrap();
    assert_eq!(*program.data(), vec![2]);
}

#[test]
fn moving_data() {
    let mut program = OptimizedProgram::from(vec![
        OptimizedCommand::AddValue(2),
        OptimizedCommand::StartOfLoop { end: 6 },
        OptimizedCommand::AddPointer(1),
        OptimizedCommand::AddValue(1),
        OptimizedCommand::SubtractPointer(1),
        OptimizedCommand::SubtractValue(1),
        OptimizedCommand::EndOfLoop { start: 1 },
    ])
    .unwrap();
    program.execute(&vec![], STEPS).unwrap();
    assert_eq!(*program.data(), vec![0, 2]);
}

#[test]
fn copy_loop_leaves_two_cells() {
    // The classic copy loop moves the initial count into the next cell.
    let mut program = unoptimized_compiler(commands_of("++[>+<-]")).unwrap();
    let output = program.execute(&vec![], STEPS).unwrap();
    assert_eq!(output, vec![]);
    assert_eq!(*program.data(), vec![0, 2]);
}

#[test]
fn copy_loop_optimized_matches_raw() {
    let commands = commands_of("++[>+<-]");
    let mut raw = unoptimized_compiler(commands.clone()).unwrap();
    let mut optimized = optimized_compiler(commands).unwrap();
    let raw_output = raw.execute(&vec![], STEPS).unwrap();
    let optimized_output = optimized.execute(&vec![], STEPS).unwrap();
    assert_eq!(raw_output, optimized_output);
    assert_eq!(*raw.data(), *optimized.data());
}

#[test]
fn io_round_trip_matches_between_engines() {
    // Read a byte, echo it, increment it, echo again: both engines see the
    // same input and must produce the same output and tape.
    let commands = commands_of(",.+.");
    let input = vec![65];
    let mut raw = unoptimized_compiler(commands.clone()).unwrap();
    let mut optimized = optimized_compiler(commands).unwrap();
    let raw_output = raw.execute(&input, STEPS).unwrap();
    let optimized_output = optimized.execute(&input, STEPS).unwrap();
    assert_eq!(raw_output, vec![65, 66]);
    assert_eq!(optimized_output, vec![65, 66]);
    assert_eq!(*raw.data(), vec![66]);
    assert_eq!(*optimized.data(), vec![66]);
}

#[test]
fn cell_increment_wraps_to_zero() {
    let mut program = unoptimized_compiler(vec![Command::IncrementValue; 256]).unwrap();
    program.execute(&vec![], STEPS).unwrap();
    assert_eq!(*program.data(), vec![0]);
}

#[test]
fn cell_decrement_wraps_to_255() {
    let mut program = unoptimized_compiler(vec![Command::DecrementValue]).unwrap();
    program.execute(&vec![], STEPS).unwrap();
    assert_eq!(*program.data(), vec![255]);

    let mut optimized =
        OptimizedProgram::from(vec![OptimizedCommand::SubtractValue(1)]).unwrap();
    optimized.execute(&vec![], STEPS).unwrap();
    assert_eq!(*optimized.data(), vec![255]);
}

#[test]
fn counted_value_add_wraps_at_256() {
    let mut program = OptimizedProgram::from(vec![
        OptimizedCommand::AddValue(255),
        OptimizedCommand::AddValue(1),
    ])
    .unwrap();
    program.execute(&vec![], STEPS).unwrap();
    assert_eq!(*program.data(), vec![0]);
}

#[test]
fn tape_grows_lazily_with_zero_cells() {
    // Move five cells right of the initial cell and read: the tape has
    // materialized exactly six zero cells.
    let mut raw = unoptimized_compiler(commands_of(">>>>>.")).unwrap();
    let output = raw.execute(&vec![], STEPS).unwrap();
    assert_eq!(output, vec![0]);
    assert_eq!(*raw.data(), vec![0; 6]);

    let mut optimized = OptimizedProgram::from(vec![
        OptimizedCommand::AddPointer(5),
        OptimizedCommand::Output,
    ])
    .unwrap();
    let optimized_output = optimized.execute(&vec![], STEPS).unwrap();
    assert_eq!(optimized_output, vec![0]);
    assert_eq!(*optimized.data(), vec![0; 6]);
}

#[test]
fn tape_grows_left_of_the_origin() {
    // Step left, mark the new cell, and come back: the new cell sits in
    // front of the origin cell.
    let mut raw = unoptimized_compiler(commands_of("+<++")).unwrap();
    raw.execute(&vec![], STEPS).unwrap();
    assert_eq!(*raw.data(), vec![2, 1]);

    let mut optimized = OptimizedProgram::from(vec![
        OptimizedCommand::AddValue(1),
        OptimizedCommand::SubtractPointer(2),
        OptimizedCommand::AddValue(3),
    ])
    .unwrap();
    optimized.execute(&vec![], STEPS).unwrap();
    assert_eq!(*optimized.data(), vec![3, 0, 1]);
}

#[test]
fn input_fills_the_current_cell() {
    let mut program = unoptimized_compiler(vec![Command::Input]).unwrap();
    program.execute(&vec![65], STEPS).unwrap();
    assert_eq!(*program.data(), vec![65]);
}

#[test]
fn exhausted_input_is_fatal() {
    let mut raw = unoptimized_compiler(vec![Command::Input]).unwrap();
    assert_eq!(
        raw.execute(&vec![], STEPS),
        Err(RuntimeError::InputExhausted)
    );

    let mut optimized = OptimizedProgram::from(vec![OptimizedCommand::Input]).unwrap();
    assert_eq!(
        optimized.execute(&vec![], STEPS),
        Err(RuntimeError::InputExhausted)
    );
}

#[test]
fn endless_loop_hits_the_step_budget() {
    let mut raw = unoptimized_compiler(commands_of("+[]")).unwrap();
    assert_eq!(
        raw.execute(&vec![], 1000),
        Err(RuntimeError::StepLimitExceeded)
    );

    let mut optimized = optimized_compiler(commands_of("+[]")).unwrap();
    assert_eq!(
        optimized.execute(&vec![], 1000),
        Err(RuntimeError::StepLimitExceeded)
    );
}

#[test]
fn empty_program_halts_with_a_single_zero_cell() {
    let mut program = unoptimized_compiler(vec![]).unwrap();
    let output = program.execute(&vec![], STEPS).unwrap();
    assert_eq!(output, vec![]);
    assert_eq!(*program.data(), vec![0]);
}

#[test]
fn program_can_be_executed_twice() {
    // The tape is reseeded to one zero cell per execution, so a second run
    // repeats the first.
    let mut program = unoptimized_compiler(commands_of("+++")).unwrap();
    program.execute(&vec![], STEPS).unwrap();
    program.execute(&vec![], STEPS).unwrap();
    assert_eq!(*program.data(), vec![3]);
}
