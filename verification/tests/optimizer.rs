use brainfuck::command::{Command, InvalidProgram};
use brainfuck::optimized_command::OptimizedCommand;

#[test]
fn no_duplicates() {
    let program = vec![
        Command::StartOfLoop,
        Command::IncrementPointer,
        Command::IncrementValue,
        Command::DecrementPointer,
        Command::DecrementValue,
        Command::EndOfLoop,
    ];
    let optimized_program = OptimizedCommand::optimize_commands(&program).unwrap();
    assert_eq!(
        optimized_program,
        vec![
            OptimizedCommand::StartOfLoop { end: 5 },
            OptimizedCommand::AddPointer(1),
            OptimizedCommand::AddValue(1),
            OptimizedCommand::SubtractPointer(1),
            OptimizedCommand::SubtractValue(1),
            OptimizedCommand::EndOfLoop { start: 0 },
        ]
    );
}

#[test]
fn empty_loop() {
    let program = vec![
        Command::StartOfLoop,
        Command::IncrementPointer,
        Command::DecrementPointer,
        Command::IncrementValue,
        Command::DecrementValue,
        Command::EndOfLoop,
    ];
    let optimized_program = OptimizedCommand::optimize_commands(&program).unwrap();
    assert_eq!(
        optimized_program,
        vec![
            OptimizedCommand::StartOfLoop { end: 1 },
            OptimizedCommand::EndOfLoop { start: 0 },
        ]
    );
}

#[test]
fn add_2() {
    let program = vec![
        Command::StartOfLoop,
        Command::IncrementPointer,
        Command::IncrementPointer,
        Command::IncrementValue,
        Command::IncrementValue,
        Command::DecrementPointer,
        Command::DecrementPointer,
        Command::DecrementValue,
        Command::DecrementValue,
        Command::EndOfLoop,
    ];
    let optimized_program = OptimizedCommand::optimize_commands(&program).unwrap();
    assert_eq!(
        optimized_program,
        vec![
            OptimizedCommand::StartOfLoop { end: 5 },
            OptimizedCommand::AddPointer(2),
            OptimizedCommand::AddValue(2),
            OptimizedCommand::SubtractPointer(2),
            OptimizedCommand::SubtractValue(2),
            OptimizedCommand::EndOfLoop { start: 0 },
        ]
    );
}

#[test]
fn interior_cancels_to_nothing() {
    let program = vec![
        Command::IncrementPointer,
        Command::DecrementPointer,
        Command::IncrementValue,
        Command::DecrementValue,
    ];
    let optimized_program = OptimizedCommand::optimize_commands(&program).unwrap();
    assert_eq!(optimized_program, vec![]);
}

#[test]
fn value_count_saturates_instead_of_wrapping() {
    let program = vec![Command::IncrementValue; 256];
    let optimized_program = OptimizedCommand::optimize_commands(&program).unwrap();
    assert_eq!(
        optimized_program,
        vec![
            OptimizedCommand::AddValue(255),
            OptimizedCommand::AddValue(1),
        ]
    );
}

#[test]
fn nested_loops_are_paired_inside_out() {
    let program = vec![
        Command::StartOfLoop,
        Command::StartOfLoop,
        Command::EndOfLoop,
        Command::EndOfLoop,
    ];
    let optimized_program = OptimizedCommand::optimize_commands(&program).unwrap();
    assert_eq!(
        optimized_program,
        vec![
            OptimizedCommand::StartOfLoop { end: 3 },
            OptimizedCommand::StartOfLoop { end: 2 },
            OptimizedCommand::EndOfLoop { start: 1 },
            OptimizedCommand::EndOfLoop { start: 0 },
        ]
    );
}

#[test]
fn empty_program_optimizes_to_nothing() {
    assert_eq!(OptimizedCommand::optimize_commands(&vec![]), Ok(vec![]));
}

#[test]
fn unmatched_end_of_loop_is_rejected() {
    let program = vec![Command::EndOfLoop];
    assert_eq!(
        OptimizedCommand::optimize_commands(&program),
        Err(InvalidProgram::UnexpectedEndOfLoop)
    );
}

#[test]
fn refolding_an_expanded_optimization_is_stable() {
    // Fold a program, write the folded instructions back out as primitive
    // commands, and fold again: the counts come out the same.
    let program = vec![
        Command::IncrementValue,
        Command::IncrementValue,
        Command::IncrementValue,
        Command::IncrementPointer,
        Command::IncrementPointer,
        Command::DecrementValue,
        Command::Output,
    ];
    let once = OptimizedCommand::optimize_commands(&program).unwrap();
    assert_eq!(
        once,
        vec![
            OptimizedCommand::AddValue(3),
            OptimizedCommand::AddPointer(2),
            OptimizedCommand::SubtractValue(1),
            OptimizedCommand::Output,
        ]
    );
    let mut decoded = Vec::new();
    for instruction in &once {
        match *instruction {
            OptimizedCommand::AddValue(count) => {
                for _ in 0..count {
                    decoded.push(Command::IncrementValue);
                }
            }
            OptimizedCommand::SubtractValue(count) => {
                for _ in 0..count {
                    decoded.push(Command::DecrementValue);
                }
            }
            OptimizedCommand::AddPointer(count) => {
                for _ in 0..count {
                    decoded.push(Command::IncrementPointer);
                }
            }
            OptimizedCommand::SubtractPointer(count) => {
                for _ in 0..count {
                    decoded.push(Command::DecrementPointer);
                }
            }
            OptimizedCommand::Output => decoded.push(Command::Output),
            OptimizedCommand::Input => decoded.push(Command::Input),
            OptimizedCommand::StartOfLoop { .. } => decoded.push(Command::StartOfLoop),
            OptimizedCommand::EndOfLoop { .. } => decoded.push(Command::EndOfLoop),
        }
    }
    let twice = OptimizedCommand::optimize_commands(&decoded).unwrap();
    assert_eq!(once, twice);
}
