use brainfuck::chars::Chars;
use brainfuck::command::{Command, InvalidProgram};
use brainfuck::optimized_command::OptimizedCommand;
use brainfuck::optimized_program::OptimizedProgram;
use brainfuck::program::Program;

#[test]
fn every_command_symbol_decodes() {
    assert_eq!(Command::try_from('>'), Ok(Command::IncrementPointer));
    assert_eq!(Command::try_from('<'), Ok(Command::DecrementPointer));
    assert_eq!(Command::try_from('+'), Ok(Command::IncrementValue));
    assert_eq!(Command::try_from('-'), Ok(Command::DecrementValue));
    assert_eq!(Command::try_from('.'), Ok(Command::Output));
    assert_eq!(Command::try_from(','), Ok(Command::Input));
    assert_eq!(Command::try_from('['), Ok(Command::StartOfLoop));
    assert_eq!(Command::try_from(']'), Ok(Command::EndOfLoop));
}

#[test]
fn unrecognized_symbols_are_rejected() {
    let error = Command::try_from('x').unwrap_err();
    assert_eq!(error.symbol(), 'x');
    assert!(Command::try_from(' ').is_err());
    assert!(Command::try_from('\n').is_err());
}

#[test]
fn bytes_decode_to_chars() {
    let mut chars = Chars::from(vec![b'+', b'[', 0xFF]);
    assert_eq!(chars.next(), Some('+'));
    assert_eq!(chars.next(), Some('['));
    assert_eq!(chars.next(), Some('\u{FF}'));
    assert_eq!(chars.next(), None);
    assert_eq!(chars.next(), None);
}

#[test]
fn lone_end_of_loop_fails_construction() {
    assert_eq!(
        Program::from(vec![Command::EndOfLoop]).unwrap_err(),
        InvalidProgram::UnexpectedEndOfLoop
    );
    assert_eq!(
        OptimizedProgram::from(vec![OptimizedCommand::EndOfLoop { start: 0 }]).unwrap_err(),
        InvalidProgram::UnexpectedEndOfLoop
    );
}

#[test]
fn lone_start_of_loop_fails_construction() {
    assert_eq!(
        Program::from(vec![Command::StartOfLoop]).unwrap_err(),
        InvalidProgram::MissingEndOfLoop
    );
    assert_eq!(
        OptimizedProgram::from(vec![OptimizedCommand::StartOfLoop { end: 0 }]).unwrap_err(),
        InvalidProgram::MissingEndOfLoop
    );
}

#[test]
fn end_before_start_fails_construction() {
    let commands = vec![
        Command::EndOfLoop,
        Command::StartOfLoop,
    ];
    assert_eq!(
        Program::from(commands).unwrap_err(),
        InvalidProgram::UnexpectedEndOfLoop
    );
}

#[test]
fn balanced_programs_are_accepted() {
    assert!(Program::from(vec![]).is_ok());
    assert!(Program::from(vec![
        Command::StartOfLoop,
        Command::StartOfLoop,
        Command::EndOfLoop,
        Command::EndOfLoop,
    ])
    .is_ok());
    assert!(OptimizedProgram::from(vec![]).is_ok());
}
