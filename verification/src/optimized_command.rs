//! Folded, counted instructions with precomputed loop-jump targets, and the
//! optimizer that produces them from a primitive command sequence.
//!
//! The optimizer keeps a pending accumulator: a pointer or value operation
//! either extends it, cancels against it, or flushes it; input, output and
//! loop boundaries always flush it.  A loop end patches the matching loop
//! start, found by a backward scan over the emitted output, with the index
//! the loop end itself will occupy.  Every executable function is proved to
//! compute exactly the specification-level fold defined alongside it.

use vstd::prelude::*;

use crate::command::{Command, InvalidProgram};

verus! {

/// One folded instruction: counted pointer and value operations, input and
/// output, and loop boundaries carrying the index of their partner.
#[derive(Clone, Copy, Debug, PartialEq, Eq, Structural)]
pub enum OptimizedCommand {
    AddPointer(usize),
    SubtractPointer(usize),
    AddValue(u8),
    SubtractValue(u8),
    Output,
    Input,
    StartOfLoop { end: usize },
    EndOfLoop { start: usize },
}

/// The optimizer's intermediate state: the pending accumulator and the
/// instructions already emitted.
pub ghost struct FoldState {
    pub pending: Option<OptimizedCommand>,
    pub out: Seq<OptimizedCommand>,
}

/// The empty fold state the optimizer starts from.
pub open spec fn fold_init() -> FoldState {
    FoldState { pending: None, out: Seq::empty() }
}

/// The emitted instructions once the pending accumulator is appended.
pub open spec fn flush(st: FoldState) -> Seq<OptimizedCommand> {
    match st.pending {
        None => st.out,
        Some(c) => st.out.push(c),
    }
}

/// Folding one pointer-increment operation into the state.
pub open spec fn spec_increment_pointer(st: FoldState) -> FoldState {
    match st.pending {
        None => FoldState { pending: Some(OptimizedCommand::AddPointer(1)), out: st.out },
        Some(OptimizedCommand::AddPointer(value)) => if value < usize::MAX {
            FoldState {
                pending: Some(OptimizedCommand::AddPointer((value + 1) as usize)),
                out: st.out,
            }
        } else {
            FoldState {
                pending: Some(OptimizedCommand::AddPointer(1)),
                out: st.out.push(OptimizedCommand::AddPointer(usize::MAX)),
            }
        },
        Some(OptimizedCommand::SubtractPointer(value)) => if value > 1 {
            FoldState {
                pending: Some(OptimizedCommand::SubtractPointer((value - 1) as usize)),
                out: st.out,
            }
        } else {
            FoldState { pending: None, out: st.out }
        },
        Some(other) => FoldState {
            pending: Some(OptimizedCommand::AddPointer(1)),
            out: st.out.push(other),
        },
    }
}

/// Folding one pointer-decrement operation into the state.
pub open spec fn spec_decrement_pointer(st: FoldState) -> FoldState {
    match st.pending {
        None => FoldState { pending: Some(OptimizedCommand::SubtractPointer(1)), out: st.out },
        Some(OptimizedCommand::AddPointer(value)) => if value > 1 {
            FoldState {
                pending: Some(OptimizedCommand::AddPointer((value - 1) as usize)),
                out: st.out,
            }
        } else {
            FoldState { pending: None, out: st.out }
        },
        Some(OptimizedCommand::SubtractPointer(value)) => if value < usize::MAX {
            FoldState {
                pending: Some(OptimizedCommand::SubtractPointer((value + 1) as usize)),
                out: st.out,
            }
        } else {
            FoldState {
                pending: Some(OptimizedCommand::SubtractPointer(1)),
                out: st.out.push(OptimizedCommand::SubtractPointer(usize::MAX)),
            }
        },
        Some(other) => FoldState {
            pending: Some(OptimizedCommand::SubtractPointer(1)),
            out: st.out.push(other),
        },
    }
}

/// Folding one cell-increment operation into the state.
pub open spec fn spec_increment_value(st: FoldState) -> FoldState {
    match st.pending {
        None => FoldState { pending: Some(OptimizedCommand::AddValue(1)), out: st.out },
        Some(OptimizedCommand::AddValue(value)) => if value < u8::MAX {
            FoldState { pending: Some(OptimizedCommand::AddValue((value + 1) as u8)), out: st.out }
        } else {
            FoldState {
                pending: Some(OptimizedCommand::AddValue(1)),
                out: st.out.push(OptimizedCommand::AddValue(u8::MAX)),
            }
        },
        Some(OptimizedCommand::SubtractValue(value)) => if value > 1 {
            FoldState {
                pending: Some(OptimizedCommand::SubtractValue((value - 1) as u8)),
                out: st.out,
            }
        } else {
            FoldState { pending: None, out: st.out }
        },
        Some(other) => FoldState {
            pending: Some(OptimizedCommand::AddValue(1)),
            out: st.out.push(other),
        },
    }
}

/// Folding one cell-decrement operation into the state.
pub open spec fn spec_decrement_value(st: FoldState) -> FoldState {
    match st.pending {
        None => FoldState { pending: Some(OptimizedCommand::SubtractValue(1)), out: st.out },
        Some(OptimizedCommand::AddValue(value)) => if value > 1 {
            FoldState { pending: Some(OptimizedCommand::AddValue((value - 1) as u8)), out: st.out }
        } else {
            FoldState { pending: None, out: st.out }
        },
        Some(OptimizedCommand::SubtractValue(value)) => if value < u8::MAX {
            FoldState {
                pending: Some(OptimizedCommand::SubtractValue((value + 1) as u8)),
                out: st.out,
            }
        } else {
            FoldState {
                pending: Some(OptimizedCommand::SubtractValue(1)),
                out: st.out.push(OptimizedCommand::SubtractValue(u8::MAX)),
            }
        },
        Some(other) => FoldState {
            pending: Some(OptimizedCommand::SubtractValue(1)),
            out: st.out.push(other),
        },
    }
}

/// Folding an operation that never merges: the pending accumulator is
/// flushed and the new instruction becomes pending.
pub open spec fn spec_emit(st: FoldState, c: OptimizedCommand) -> FoldState {
    FoldState { pending: Some(c), out: flush(st) }
}

/// The contribution of one instruction to the loop-nesting depth.
pub open spec fn delta(c: OptimizedCommand) -> int {
    match c {
        OptimizedCommand::StartOfLoop { .. } => 1,
        OptimizedCommand::EndOfLoop { .. } => -1,
        _ => 0,
    }
}

/// The backward scan a loop end uses to locate its matching loop start:
/// walking down from index `i` with nesting counter `d`, the first position
/// where the counter returns to zero, or -1 if the scan runs off the front.
pub open spec fn find_loop_start(out: Seq<OptimizedCommand>, i: int, d: int) -> int
    decreases i + 1,
{
    if i < 0 {
        -1
    } else {
        let d2 = d - delta(out[i]);
        if d2 == 0 {
            i
        } else {
            find_loop_start(out, i - 1, d2)
        }
    }
}

/// Folding a loop end: flush the accumulator, locate the matching loop start,
/// patch it with the index the loop end will occupy, and make the loop end
/// pending.  Fails when no loop start matches.
pub open spec fn spec_end_of_loop(st: FoldState) -> Option<FoldState> {
    let out1 = flush(st);
    let m = find_loop_start(out1, out1.len() - 1, 1);
    if m < 0 {
        None
    } else {
        Some(
            FoldState {
                pending: Some(OptimizedCommand::EndOfLoop { start: m as usize }),
                out: out1.update(
                    m,
                    OptimizedCommand::StartOfLoop { end: out1.len() as usize },
                ),
            },
        )
    }
}

/// Folding one primitive command into the state; `None` marks an unmatched
/// loop end.
pub open spec fn fold_step(st: FoldState, c: Command) -> Option<FoldState> {
    match c {
        Command::IncrementPointer => Some(spec_increment_pointer(st)),
        Command::DecrementPointer => Some(spec_decrement_pointer(st)),
        Command::IncrementValue => Some(spec_increment_value(st)),
        Command::DecrementValue => Some(spec_decrement_value(st)),
        Command::Output => Some(spec_emit(st, OptimizedCommand::Output)),
        Command::Input => Some(spec_emit(st, OptimizedCommand::Input)),
        Command::StartOfLoop => Some(spec_emit(st, OptimizedCommand::StartOfLoop { end: 0 })),
        Command::EndOfLoop => spec_end_of_loop(st),
    }
}

/// The fold state after the first `i` commands, or `None` once an unmatched
/// loop end was hit.
pub open spec fn fold_commands(cmds: Seq<Command>, i: int) -> Option<FoldState>
    decreases i,
{
    if i <= 0 {
        Some(fold_init())
    } else {
        match fold_commands(cmds, i - 1) {
            None => None,
            Some(st) => fold_step(st, cmds[i - 1]),
        }
    }
}

/// What the optimizer returns: the flushed fold over the whole sequence, or
/// `None` if some loop end had no matching loop start.
pub open spec fn optimize_spec(cmds: Seq<Command>) -> Option<Seq<OptimizedCommand>> {
    match fold_commands(cmds, cmds.len() as int) {
        None => None,
        Some(st) => Some(flush(st)),
    }
}

/// Once the fold has failed on a prefix, it stays failed on every longer
/// prefix.
pub(crate) proof fn lemma_fold_none_persists(cmds: Seq<Command>, j: int, k: int)
    requires
        0 <= j <= k,
        fold_commands(cmds, j) is None,
    ensures
        fold_commands(cmds, k) is None,
    decreases k - j,
{
    if k > j {
        lemma_fold_none_persists(cmds, j, k - 1);
    }
}

/// Folding a run of identical cell increments keeps the whole run in the
/// accumulator, with its exact length as the count.
proof fn lemma_value_run_fold(cmds: Seq<Command>, k: int)
    requires
        forall|i: int| 0 <= i < cmds.len() ==> cmds[i] == Command::IncrementValue,
        1 <= k <= cmds.len(),
        k <= u8::MAX,
    ensures
        fold_commands(cmds, k) == Some(
            (FoldState {
                pending: Some(OptimizedCommand::AddValue(k as u8)),
                out: Seq::empty(),
            }),
        ),
    decreases k,
{
    if k == 1 {
        assert(fold_commands(cmds, 0) == Some(fold_init()));
    } else {
        lemma_value_run_fold(cmds, k - 1);
    }
}

/// Folding a run of identical pointer increments keeps the whole run in the
/// accumulator, with its exact length as the count.
proof fn lemma_pointer_run_fold(cmds: Seq<Command>, k: int)
    requires
        forall|i: int| 0 <= i < cmds.len() ==> cmds[i] == Command::IncrementPointer,
        1 <= k <= cmds.len(),
        k <= usize::MAX,
    ensures
        fold_commands(cmds, k) == Some(
            (FoldState {
                pending: Some(OptimizedCommand::AddPointer(k as usize)),
                out: Seq::empty(),
            }),
        ),
    decreases k,
{
    if k == 1 {
        assert(fold_commands(cmds, 0) == Some(fold_init()));
    } else {
        lemma_pointer_run_fold(cmds, k - 1);
    }
}

/// A run of identical cell increments folds to a single counted instruction
/// carrying the run's exact length, so re-optimizing the run a counted
/// instruction stands for yields that instruction again.
pub proof fn lemma_value_run_folds_to_count(cmds: Seq<Command>)
    requires
        forall|i: int| 0 <= i < cmds.len() ==> cmds[i] == Command::IncrementValue,
        1 <= cmds.len() <= u8::MAX,
    ensures
        optimize_spec(cmds) == Some(seq![OptimizedCommand::AddValue(cmds.len() as u8)]),
{
    lemma_value_run_fold(cmds, cmds.len() as int);
    assert(Seq::<OptimizedCommand>::empty().push(
        OptimizedCommand::AddValue(cmds.len() as u8),
    ) =~= seq![OptimizedCommand::AddValue(cmds.len() as u8)]);
}

/// A run of identical pointer increments folds to a single counted
/// instruction carrying the run's exact length, so re-optimizing the run a
/// counted instruction stands for yields that instruction again.
pub proof fn lemma_pointer_run_folds_to_count(cmds: Seq<Command>)
    requires
        forall|i: int| 0 <= i < cmds.len() ==> cmds[i] == Command::IncrementPointer,
        1 <= cmds.len() <= usize::MAX,
    ensures
        optimize_spec(cmds) == Some(seq![OptimizedCommand::AddPointer(cmds.len() as usize)]),
{
    lemma_pointer_run_fold(cmds, cmds.len() as int);
    assert(Seq::<OptimizedCommand>::empty().push(
        OptimizedCommand::AddPointer(cmds.len() as usize),
    ) =~= seq![OptimizedCommand::AddPointer(cmds.len() as usize)]);
}

/// The net loop-nesting depth of the prefix `cmds[..i]`.
pub open spec fn depth(cmds: Seq<OptimizedCommand>, i: int) -> int
    decreases i,
{
    if i <= 0 {
        0
    } else {
        depth(cmds, i - 1) + delta(cmds[i - 1])
    }
}

/// Every prefix closes at most as many loops as it opens.
pub open spec fn prefix_ok(cmds: Seq<OptimizedCommand>) -> bool {
    forall|i: int| 0 <= i <= cmds.len() ==> depth(cmds, i) >= 0
}

/// Loop nesting never goes negative and returns to zero at the end.
pub open spec fn balanced(cmds: Seq<OptimizedCommand>) -> bool {
    prefix_ok(cmds) && depth(cmds, cmds.len() as int) == 0
}

/// The error that validation reports for an unbalanced sequence: a negative
/// nesting depth is reported as an unexpected loop end, a positive final
/// depth as a missing one.
pub open spec fn balance_error(cmds: Seq<OptimizedCommand>) -> InvalidProgram {
    if !prefix_ok(cmds) {
        InvalidProgram::UnexpectedEndOfLoop
    } else {
        InvalidProgram::MissingEndOfLoop
    }
}

impl OptimizedCommand {
    /// Folds a pointer-increment into the accumulator: extends a pending
    /// pointer add, cancels against a pending pointer subtract, and flushes
    /// anything else.  A count at its maximum is flushed and restarted at one
    /// rather than wrapped.
    fn optimize_increment_pointer(
        current_command: Option<Self>,
        optimized_program: &mut Vec<Self>,
    ) -> (r: Option<Self>)
        ensures
            ({
                let st = spec_increment_pointer(
                    (FoldState { pending: current_command, out: old(optimized_program)@ }),
                );
                r == st.pending && final(optimized_program)@ == st.out
            }),
    {
        match current_command {
            None => Some(Self::AddPointer(1)),
            Some(Self::AddPointer(value)) => {
                if value < usize::MAX {
                    Some(Self::AddPointer(value + 1))
                } else {
                    optimized_program.push(Self::AddPointer(usize::MAX));
                    Some(Self::AddPointer(1))
                }
            },
            Some(Self::SubtractPointer(value)) => {
                if value > 1 {
                    Some(Self::SubtractPointer(value - 1))
                } else {
                    None
                }
            },
            Some(optimized_command) => {
                optimized_program.push(optimized_command);
                Some(Self::AddPointer(1))
            },
        }
    }

    /// Folds a pointer-decrement into the accumulator, symmetrically to
    /// [`Self::optimize_increment_pointer`].
    fn optimize_decrement_pointer(
        current_command: Option<Self>,
        optimized_program: &mut Vec<Self>,
    ) -> (r: Option<Self>)
        ensures
            ({
                let st = spec_decrement_pointer(
                    (FoldState { pending: current_command, out: old(optimized_program)@ }),
                );
                r == st.pending && final(optimized_program)@ == st.out
            }),
    {
        match current_command {
            None => Some(Self::SubtractPointer(1)),
            Some(Self::AddPointer(value)) => {
                if value > 1 {
                    Some(Self::AddPointer(value - 1))
                } else {
                    None
                }
            },
            Some(Self::SubtractPointer(value)) => {
                if value < usize::MAX {
                    Some(Self::SubtractPointer(value + 1))
                } else {
                    optimized_program.push(Self::SubtractPointer(usize::MAX));
                    Some(Self::SubtractPointer(1))
                }
            },
            Some(optimized_command) => {
                optimized_program.push(optimized_command);
                Some(Self::SubtractPointer(1))
            },
        }
    }

    /// Folds a cell-increment into the accumulator: extends a pending value
    /// add, cancels against a pending value subtract, and flushes anything
    /// else.  A count at its maximum is flushed and restarted at one rather
    /// than wrapped.
    fn optimize_increment_value(
        current_command: Option<Self>,
        optimized_program: &mut Vec<Self>,
    ) -> (r: Option<Self>)
        ensures
            ({
                let st = spec_increment_value(
                    (FoldState { pending: current_command, out: old(optimized_program)@ }),
                );
                r == st.pending && final(optimized_program)@ == st.out
            }),
    {
        match current_command {
            None => Some(Self::AddValue(1)),
            Some(Self::AddValue(value)) => {
                if value < u8::MAX {
                    Some(Self::AddValue(value + 1))
                } else {
                    optimized_program.push(Self::AddValue(u8::MAX));
                    Some(Self::AddValue(1))
                }
            },
            Some(Self::SubtractValue(value)) => {
                if value > 1 {
                    Some(Self::SubtractValue(value - 1))
                } else {
                    None
                }
            },
            Some(optimized_command) => {
                optimized_program.push(optimized_command);
                Some(Self::AddValue(1))
            },
        }
    }

    /// Folds a cell-decrement into the accumulator, symmetrically to
    /// [`Self::optimize_increment_value`].
    fn optimize_decrement_value(
        current_command: Option<Self>,
        optimized_program: &mut Vec<Self>,
    ) -> (r: Option<Self>)
        ensures
            ({
                let st = spec_decrement_value(
                    (FoldState { pending: current_command, out: old(optimized_program)@ }),
                );
                r == st.pending && final(optimized_program)@ == st.out
            }),
    {
        match current_command {
            None => Some(Self::SubtractValue(1)),
            Some(Self::AddValue(value)) => {
                if value > 1 {
                    Some(Self::AddValue(value - 1))
                } else {
                    None
                }
            },
            Some(Self::SubtractValue(value)) => {
                if value < u8::MAX {
                    Some(Self::SubtractValue(value + 1))
                } else {
                    optimized_program.push(Self::SubtractValue(u8::MAX));
                    Some(Self::SubtractValue(1))
                }
            },
            Some(optimized_command) => {
                optimized_program.push(optimized_command);
                Some(Self::SubtractValue(1))
            },
        }
    }

    /// Flushes the accumulator and makes an output instruction pending.
    fn optimize_output(current_command: Option<Self>, optimized_program: &mut Vec<Self>) -> (r:
        Self)
        ensures
            ({
                let st = spec_emit(
                    (FoldState { pending: current_command, out: old(optimized_program)@ }),
                    OptimizedCommand::Output,
                );
                Some(r) == st.pending && final(optimized_program)@ == st.out
            }),
    {
        if let Some(optimized_command) = current_command {
            optimized_program.push(optimized_command);
        }
        Self::Output
    }

    /// Flushes the accumulator and makes an input instruction pending.
    fn optimize_input(current_command: Option<Self>, optimized_program: &mut Vec<Self>) -> (r:
        Self)
        ensures
            ({
                let st = spec_emit(
                    (FoldState { pending: current_command, out: old(optimized_program)@ }),
                    OptimizedCommand::Input,
                );
                Some(r) == st.pending && final(optimized_program)@ == st.out
            }),
    {
        if let Some(optimized_command) = current_command {
            optimized_program.push(optimized_command);
        }
        Self::Input
    }

    /// Flushes the accumulator and makes a loop-start placeholder pending;
    /// its end index is patched when the matching loop end is folded.
    fn optimize_start_of_loop(current_command: Option<Self>, optimized_program: &mut Vec<Self>) -> (
        r: Self)
        ensures
            ({
                let st = spec_emit(
                    (FoldState { pending: current_command, out: old(optimized_program)@ }),
                    (OptimizedCommand::StartOfLoop { end: 0 }),
                );
                Some(r) == st.pending && final(optimized_program)@ == st.out
            }),
    {
        if let Some(optimized_command) = current_command {
            optimized_program.push(optimized_command);
        }
        Self::StartOfLoop { end: 0 }
    }

    /// Flushes the accumulator, scans the emitted instructions backward for
    /// the matching loop start, patches its end index with the position this
    /// loop end will occupy, and makes the loop end pending.  Rejects a loop
    /// end with no matching loop start.
    fn optimize_end_of_loop(current_command: Option<Self>, optimized_program: &mut Vec<Self>) -> (r:
        Result<Self, InvalidProgram>)
        ensures
            ({
                let st0 = FoldState { pending: current_command, out: old(optimized_program)@ };
                match r {
                    Ok(c) => spec_end_of_loop(st0) == Some(
                        (FoldState { pending: Some(c), out: final(optimized_program)@ }),
                    ),
                    Err(e) => spec_end_of_loop(st0) is None && e
                        == InvalidProgram::UnexpectedEndOfLoop,
                }
            }),
    {
        if let Some(optimized_command) = current_command {
            optimized_program.push(optimized_command);
        }

        // The position the loop end will occupy once it is flushed.
        let current_program_length = optimized_program.len();

        // Walk backward over the emitted instructions, tracking how many
        // loop ends are still unmatched.  The counter is at most one more
        // than the number of instructions walked, so it cannot overflow.
        let ghost out1 = optimized_program@;
        let mut index: usize = optimized_program.len();
        let mut closed_loops: u128 = 1;
        while index > 0
            invariant
                optimized_program@ == out1,
                out1.len() == current_program_length,
                index <= out1.len(),
                1 <= closed_loops <= 1 + (out1.len() - index),
                find_loop_start(out1, out1.len() - 1, 1) == find_loop_start(
                    out1,
                    index - 1,
                    closed_loops as int,
                ),
            decreases index,
        {
            index = index - 1;
            let next = match optimized_program[index] {
                Self::StartOfLoop { .. } => closed_loops - 1,
                Self::EndOfLoop { .. } => closed_loops + 1,
                _ => closed_loops,
            };
            if next == 0 {
                proof {
                    assert(find_loop_start(out1, out1.len() - 1, 1) == index as int);
                }
                // Store the current program length as the end of the loop,
                // as that will be the index of the end of the loop.
                optimized_program[index] = Self::StartOfLoop { end: current_program_length };
                return Ok(Self::EndOfLoop { start: index });
            }
            closed_loops = next;
        }
        Err(InvalidProgram::UnexpectedEndOfLoop)
    }

    /// Folds a primitive command sequence into counted instructions with
    /// resolved loop-jump targets, computing exactly the specification-level
    /// fold.  Fails exactly when some loop end has no matching loop start; a
    /// loop start left unmatched is caught later, at program construction.
    pub fn optimize_commands(commands: &Vec<Command>) -> (r: Result<Vec<Self>, InvalidProgram>)
        ensures
            r matches Ok(v) ==> optimize_spec(commands@) == Some(v@),
            r is Err <==> optimize_spec(commands@) is None,
            r is Ok <==> crate::command::prefix_ok(commands@),
            r matches Err(e) ==> e == InvalidProgram::UnexpectedEndOfLoop,
    {
        proof {
            crate::pairing::lemma_optimize_succeeds_iff_prefix_ok(commands@);
        }
        // The pending accumulator and the instructions emitted so far.
        let mut current_command: Option<Self> = None;
        let mut optimized_program: Vec<Self> = Vec::new();

        let mut i: usize = 0;
        while i < commands.len()
            invariant
                i <= commands.len(),
                fold_commands(commands@, i as int) == Some(
                    (FoldState { pending: current_command, out: optimized_program@ }),
                ),
            decreases commands.len() - i,
        {
            current_command = match commands[i] {
                Command::IncrementPointer => Self::optimize_increment_pointer(
                    current_command,
                    &mut optimized_program,
                ),
                Command::DecrementPointer => Self::optimize_decrement_pointer(
                    current_command,
                    &mut optimized_program,
                ),
                Command::IncrementValue => Self::optimize_increment_value(
                    current_command,
                    &mut optimized_program,
                ),
                Command::DecrementValue => Self::optimize_decrement_value(
                    current_command,
                    &mut optimized_program,
                ),
                Command::Output => Some(
                    Self::optimize_output(current_command, &mut optimized_program),
                ),
                Command::Input => Some(
                    Self::optimize_input(current_command, &mut optimized_program),
                ),
                Command::StartOfLoop => Some(
                    Self::optimize_start_of_loop(current_command, &mut optimized_program),
                ),
                Command::EndOfLoop => {
                    match Self::optimize_end_of_loop(current_command, &mut optimized_program) {
                        Ok(c) => Some(c),
                        Err(e) => {
                            proof {
                                lemma_fold_none_persists(
                                    commands@,
                                    i + 1,
                                    commands@.len() as int,
                                );
                            }
                            return Err(e);
                        },
                    }
                },
            };
            i = i + 1;
        }

        // Make sure the pending accumulator is stored in the program.
        if let Some(command) = current_command {
            optimized_program.push(command);
        }
        Ok(optimized_program)
    }
}

} // verus!
