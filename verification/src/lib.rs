//! A verified interpreter for a minimal eight-instruction language that runs
//! on an unbounded, zero-initialized byte tape.
//!
//! Source symbols are decoded into primitive commands, optionally folded into
//! counted instructions with precomputed loop-jump targets, validated for loop
//! balance, and then executed against a lazily grown tape.  Every function in
//! this crate is verified: the optimizer is proved to compute exactly its
//! specification-level fold, program validation is proved to accept exactly
//! the loop-balanced sequences, and both execution engines are proved to
//! follow a small-step machine semantics.

#![verifier::loop_isolation(false)]

use vstd::prelude::*;

pub mod chars;
pub mod command;
pub mod machine;
pub mod optimized_command;
pub mod optimized_program;
pub mod pairing;
pub mod program;

use command::{Command, InvalidProgram};
use optimized_command::OptimizedCommand;
use optimized_program::OptimizedProgram;
use program::Program;

verus! {

/// Compiles the program without optimizations, validating loop balance.
pub fn unoptimized_compiler(commands: Vec<Command>) -> (r: Result<Program, InvalidProgram>)
    ensures
        r is Ok <==> command::balanced(commands@),
        r matches Ok(p) ==> p.wf() && p.cmds() == commands@,
        r matches Err(e) ==> e == command::balance_error(commands@),
{
    Program::from(commands)
}

/// Compiles the program with optimizations: the commands are folded into
/// counted instructions with resolved jump targets, then validated for loop
/// balance.
pub fn optimized_compiler(commands: Vec<Command>) -> (r: Result<OptimizedProgram, InvalidProgram>)
    ensures
        r is Ok <==> command::balanced(commands@),
        r matches Ok(p) ==> optimized_command::optimize_spec(commands@) == Some(p.cmds())
            && p.wf(),
        r matches Err(e) ==> e == command::balance_error(commands@),
{
    // Reading the length bounds the command count by what the machine holds.
    let _count: usize = commands.len();
    proof {
        pairing::lemma_optimize_succeeds_iff_prefix_ok(commands@);
        if optimized_command::optimize_spec(commands@) is Some {
            pairing::lemma_output_balanced_iff_input_balanced(commands@);
        }
    }
    match OptimizedCommand::optimize_commands(&commands) {
        Ok(optimized) => OptimizedProgram::from(optimized),
        Err(e) => Err(e),
    }
}

} // verus!
