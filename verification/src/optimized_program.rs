//! The optimized program form: loop-balance validation at construction and
//! an execution engine that applies counted operations in one step and
//! resolves loop jumps through the precomputed target indices.
//!
//! The engine is verified against its own small-step semantics, which reads
//! the jump targets stored in the instructions; the jump table is never
//! recomputed or re-checked during execution.

use vstd::prelude::*;

use crate::machine::{
    grow_right, initial_state, wrap_add, wrap_sub, zeros, MachineState, RuntimeError,
};
use crate::optimized_command::{self, OptimizedCommand};
use crate::command::InvalidProgram;

verus! {

/// The program counter has run past the end of the instruction sequence.
pub open spec fn opt_halted(prog: Seq<OptimizedCommand>, s: MachineState) -> bool {
    !(0 <= s.pc < prog.len())
}

/// An input instruction is due but the input stream is exhausted; execution
/// cannot proceed.
pub open spec fn opt_input_blocked(prog: Seq<OptimizedCommand>, s: MachineState) -> bool {
    &&& !opt_halted(prog, s)
    &&& prog[s.pc] is Input
    &&& s.input.len() == 0
}

/// No further step is possible: the program has halted or input ran dry.
pub open spec fn opt_stuck(prog: Seq<OptimizedCommand>, s: MachineState) -> bool {
    opt_halted(prog, s) || opt_input_blocked(prog, s)
}

/// One step of the optimized semantics: counted pointer moves grow the tape
/// by the whole span at once, counted value changes wrap once, and loop
/// boundaries jump straight past their stored partner index.
pub open spec fn opt_step(prog: Seq<OptimizedCommand>, s: MachineState) -> MachineState
    recommends
        !opt_stuck(prog, s),
{
    match prog[s.pc] {
        OptimizedCommand::AddPointer(k) => MachineState {
            pc: s.pc + 1,
            pointer: s.pointer + k,
            tape: grow_right(s.tape, s.pointer + k),
            ..s
        },
        OptimizedCommand::SubtractPointer(k) => if s.pointer >= k {
            MachineState { pc: s.pc + 1, pointer: s.pointer - k, ..s }
        } else {
            MachineState { pc: s.pc + 1, pointer: 0, tape: zeros(k - s.pointer) + s.tape, ..s }
        },
        OptimizedCommand::AddValue(k) => MachineState {
            pc: s.pc + 1,
            tape: s.tape.update(s.pointer, wrap_add(s.tape[s.pointer], k)),
            ..s
        },
        OptimizedCommand::SubtractValue(k) => MachineState {
            pc: s.pc + 1,
            tape: s.tape.update(s.pointer, wrap_sub(s.tape[s.pointer], k)),
            ..s
        },
        OptimizedCommand::Output => MachineState {
            pc: s.pc + 1,
            output: s.output.push(s.tape[s.pointer]),
            ..s
        },
        OptimizedCommand::Input => MachineState {
            pc: s.pc + 1,
            tape: s.tape.update(s.pointer, s.input[0]),
            input: s.input.skip(1),
            ..s
        },
        OptimizedCommand::StartOfLoop { end } => if s.tape[s.pointer] == 0 {
            MachineState { pc: end + 1, ..s }
        } else {
            MachineState { pc: s.pc + 1, ..s }
        },
        OptimizedCommand::EndOfLoop { start } => if s.tape[s.pointer] != 0 {
            MachineState { pc: start + 1, ..s }
        } else {
            MachineState { pc: s.pc + 1, ..s }
        },
    }
}

/// The state after `n` steps of the optimized semantics, stopping early once
/// the machine is stuck.
pub open spec fn opt_run(prog: Seq<OptimizedCommand>, s: MachineState, n: nat) -> MachineState
    decreases n,
{
    if n == 0 || opt_stuck(prog, s) {
        s
    } else {
        opt_run(prog, opt_step(prog, s), (n - 1) as nat)
    }
}

/// Extending an unstuck run by one step applies the step relation once more.
pub proof fn lemma_opt_run_step(prog: Seq<OptimizedCommand>, s: MachineState, n: nat)
    requires
        !opt_stuck(prog, opt_run(prog, s, n)),
    ensures
        opt_run(prog, s, n + 1) == opt_step(prog, opt_run(prog, s, n)),
    decreases n,
{
    if opt_stuck(prog, s) {
        assert(opt_run(prog, s, n) == s);
    } else if n == 0 {
        assert(opt_run(prog, s, n) == s);
        assert(opt_run(prog, s, 1) == opt_run(prog, opt_step(prog, s), 0));
    } else {
        assert(opt_run(prog, s, n) == opt_run(prog, opt_step(prog, s), (n - 1) as nat));
        lemma_opt_run_step(prog, opt_step(prog, s), (n - 1) as nat);
        assert(opt_run(prog, s, n + 1) == opt_run(prog, opt_step(prog, s), n));
    }
}

/// Once a run is stuck it never changes again, so the step count in the
/// engine's contract pins a unique final state.
pub proof fn lemma_opt_run_stable(prog: Seq<OptimizedCommand>, s: MachineState, n: nat, m: nat)
    requires
        n <= m,
        opt_stuck(prog, opt_run(prog, s, n)),
    ensures
        opt_run(prog, s, m) == opt_run(prog, s, n),
    decreases n,
{
    if !opt_stuck(prog, s) && n > 0 {
        lemma_opt_run_stable(prog, opt_step(prog, s), (n - 1) as nat, (m - 1) as nat);
    }
}

/// The step about to be taken keeps the tape within what the machine can
/// address.
pub open spec fn opt_step_fits(prog: Seq<OptimizedCommand>, s: MachineState) -> bool {
    opt_step(prog, s).tape.len() <= usize::MAX
}

/// Tape growth is lazy and zero-seeded: moving the pointer right by any
/// count from a state whose cells are all zero materializes exactly the
/// cells the pointer needs, and every cell — the one now under the pointer
/// included — still reads zero.
pub proof fn lemma_pointer_move_reads_zero(prog: Seq<OptimizedCommand>, s: MachineState, k: usize)
    requires
        !opt_stuck(prog, s),
        crate::machine::state_inv(s),
        prog[s.pc] == OptimizedCommand::AddPointer(k),
        forall|i: int| 0 <= i < s.tape.len() ==> s.tape[i] == 0u8,
    ensures
        ({
            let s2 = opt_step(prog, s);
            &&& s2.pointer == s.pointer + k
            &&& s2.tape.len() == if s.pointer + k >= s.tape.len() {
                s.pointer + k + 1
            } else {
                s.tape.len() as int
            }
            &&& forall|i: int| 0 <= i < s2.tape.len() ==> s2.tape[i] == 0u8
            &&& s2.tape[s2.pointer] == 0u8
        }),
{
    crate::machine::lemma_tape_growth_zero_seeded(s.tape, s.pointer + k);
}

/// An instruction sequence validated for loop balance, together with the
/// tape of its most recent execution.
#[derive(Debug)]
pub struct OptimizedProgram {
    program: Vec<OptimizedCommand>,
    data: Vec<u8>,
}

impl OptimizedProgram {
    /// The validated instruction sequence.
    pub closed spec fn cmds(&self) -> Seq<OptimizedCommand> {
        self.program@
    }

    /// The tape left behind by the most recent execution.
    pub closed spec fn tape(&self) -> Seq<u8> {
        self.data@
    }

    /// The construction-time invariant: loop nesting balances.
    pub open spec fn wf(&self) -> bool {
        optimized_command::balanced(self.cmds())
    }

    /// Returns the tape left behind by the most recent execution.
    pub fn data(&self) -> (d: &Vec<u8>)
        ensures
            d@ == self.tape(),
    {
        &self.data
    }

    /// Builds an optimized program from an instruction sequence, rejecting
    /// it unless loop nesting balances.
    pub fn from(value: Vec<OptimizedCommand>) -> (r: Result<OptimizedProgram, InvalidProgram>)
        ensures
            r is Ok <==> optimized_command::balanced(value@),
            r matches Ok(p) ==> p.wf() && p.cmds() == value@ && p.tape().len() == 0,
            r matches Err(e) ==> e == optimized_command::balance_error(value@),
    {
        let result = OptimizedProgram { program: value, data: Vec::new() };
        match result.check() {
            Ok(()) => Ok(result),
            Err(e) => Err(e),
        }
    }

    /// Validates global loop balance in one forward scan: the nesting depth
    /// must never go negative and must return to zero at the end.
    pub fn check(&self) -> (r: Result<(), InvalidProgram>)
        ensures
            r is Ok <==> optimized_command::balanced(self.cmds()),
            r matches Err(e) ==> e == optimized_command::balance_error(self.cmds()),
    {
        let mut active_loops: usize = 0;
        let mut i: usize = 0;
        while i < self.program.len()
            invariant
                i <= self.program.len(),
                active_loops <= i,
                active_loops == optimized_command::depth(self.program@, i as int),
                forall|j: int| 0 <= j <= i ==> optimized_command::depth(self.program@, j) >= 0,
            decreases self.program.len() - i,
        {
            match self.program[i] {
                OptimizedCommand::StartOfLoop { .. } => {
                    active_loops = active_loops + 1;
                },
                OptimizedCommand::EndOfLoop { .. } => {
                    if active_loops == 0 {
                        proof {
                            assert(optimized_command::depth(self.program@, i + 1) < 0);
                        }
                        return Err(InvalidProgram::UnexpectedEndOfLoop);
                    }
                    active_loops = active_loops - 1;
                },
                _ => {},
            }
            i = i + 1;
        }
        if active_loops == 0 {
            Ok(())
        } else {
            Err(InvalidProgram::MissingEndOfLoop)
        }
    }

    /// Moves the data pointer `value` cells left, materializing the whole
    /// missing span of zero cells at the front when the pointer would leave
    /// the tape.  Fails only when the tape cannot grow that far.
    fn subtract_pointer(&mut self, pointer: &mut usize, value: usize) -> (r: Result<
        (),
        RuntimeError,
    >)
        requires
            *old(pointer) < old(self).data.len(),
        ensures
            final(self).program@ == old(self).program@,
            match r {
                Ok(()) => {
                    &&& if *old(pointer) >= value {
                        *final(pointer) == *old(pointer) - value && final(self).data@ == old(
                            self,
                        ).data@
                    } else {
                        *final(pointer) == 0 && final(self).data@ == zeros(
                            value - *old(pointer),
                        ) + old(self).data@
                    }
                    &&& *final(pointer) < final(self).data.len()
                },
                Err(e) => {
                    &&& e == RuntimeError::TapeLimitExceeded
                    &&& *final(pointer) == *old(pointer) && final(self).data@ == old(self).data@
                    &&& *old(pointer) < value
                    &&& value - *old(pointer) + old(self).data@.len() > usize::MAX
                },
            },
    {
        if *pointer >= value {
            *pointer = *pointer - value;
            Ok(())
        } else {
            let need = value - *pointer;
            if need > usize::MAX - self.data.len() {
                return Err(RuntimeError::TapeLimitExceeded);
            }
            let ghost orig = self.data@;
            let mut i: usize = 0;
            while i < need
                invariant
                    self.program@ == old(self).program@,
                    i <= need,
                    need <= usize::MAX - orig.len(),
                    self.data@ == zeros(i as int) + orig,
                decreases need - i,
            {
                self.data.insert(0, 0);
                proof {
                    assert(self.data@ =~= zeros(i + 1) + orig);
                }
                i = i + 1;
            }
            *pointer = 0;
            Ok(())
        }
    }

    /// Moves the data pointer `value` cells right, materializing the whole
    /// missing span of zero cells at the back when the pointer would leave
    /// the tape.  Fails only when the tape cannot grow that far.
    fn add_pointer(&mut self, pointer: &mut usize, value: usize) -> (r: Result<(), RuntimeError>)
        requires
            *old(pointer) < old(self).data.len(),
        ensures
            final(self).program@ == old(self).program@,
            match r {
                Ok(()) => {
                    &&& *final(pointer) == *old(pointer) + value
                    &&& final(self).data@ == grow_right(old(self).data@, *old(pointer) + value)
                    &&& *final(pointer) < final(self).data.len()
                },
                Err(e) => {
                    &&& e == RuntimeError::TapeLimitExceeded
                    &&& *final(pointer) == *old(pointer) && final(self).data@ == old(self).data@
                    &&& *old(pointer) + value + 1 > usize::MAX
                },
            },
    {
        if value >= usize::MAX - *pointer {
            return Err(RuntimeError::TapeLimitExceeded);
        }
        let p1 = *pointer + value;
        let ghost orig = self.data@;
        while self.data.len() <= p1
            invariant
                self.program@ == old(self).program@,
                orig.len() <= self.data@.len() <= if p1 + 1 >= orig.len() {
                    p1 + 1
                } else {
                    orig.len() as int
                },
                self.data@ == orig + zeros(self.data@.len() - orig.len()),
            decreases p1 + 1 - self.data.len(),
        {
            self.data.push(0);
            proof {
                assert(self.data@ =~= orig + zeros(self.data@.len() - orig.len()));
            }
        }
        proof {
            assert(self.data@ =~= grow_right(orig, p1 as int));
        }
        *pointer = p1;
        Ok(())
    }

    /// Runs the program against the given input bytes on a fresh one-cell
    /// zero tape, returning the bytes it wrote.  The result is exactly what
    /// the optimized small-step semantics computes: output and final tape of
    /// a halted run on success, and on failure a run that hit an input
    /// instruction with the input exhausted, needed a tape longer than the
    /// machine can address, or was still going after `max_steps` steps.
    pub fn execute(&mut self, input: &Vec<u8>, max_steps: u64) -> (r: Result<
        Vec<u8>,
        RuntimeError,
    >)
        requires
            old(self).wf(),
        ensures
            final(self).wf(),
            final(self).cmds() == old(self).cmds(),
            match r {
                Ok(out) => exists|n: nat|
                    {
                        let f = #[trigger] opt_run(old(self).cmds(), initial_state(input@), n);
                        &&& n <= max_steps
                        &&& opt_halted(old(self).cmds(), f)
                        &&& f.output == out@
                        &&& f.tape == final(self).tape()
                    },
                Err(e) => match e {
                    RuntimeError::InputExhausted => exists|n: nat|
                        {
                            let f = #[trigger] opt_run(
                                old(self).cmds(),
                                initial_state(input@),
                                n,
                            );
                            &&& n <= max_steps
                            &&& opt_input_blocked(old(self).cmds(), f)
                            &&& f.tape == final(self).tape()
                        },
                    RuntimeError::TapeLimitExceeded => exists|n: nat|
                        {
                            let f = #[trigger] opt_run(
                                old(self).cmds(),
                                initial_state(input@),
                                n,
                            );
                            &&& n <= max_steps
                            &&& !opt_stuck(old(self).cmds(), f)
                            &&& !opt_step_fits(old(self).cmds(), f)
                            &&& f.tape == final(self).tape()
                        },
                    RuntimeError::StepLimitExceeded => !opt_halted(
                        old(self).cmds(),
                        opt_run(old(self).cmds(), initial_state(input@), max_steps as nat),
                    ),
                },
            },
    {
        let ghost prog = self.program@;
        // Create a program counter, pointer and a fresh one-cell tape.
        let mut pc: usize = 0;
        let mut pointer: usize = 0;
        let mut pos: usize = 0;
        let mut out: Vec<u8> = Vec::new();
        self.data.clear();
        self.data.push(0);

        let mut remaining: u64 = max_steps;
        let ghost init = initial_state(input@);
        let ghost mut st = init;
        let ghost mut n: nat = 0;
        proof {
            assert(st.tape =~= self.data@);
            assert(st.input =~= input@.skip(0));
        }

        while pc < self.program.len()
            invariant
                self.program@ == prog,
                opt_run(prog, init, n) == st,
                n + remaining == max_steps,
                st.pc == pc as int,
                st.pointer == pointer as int,
                st.tape == self.data@,
                st.output == out@,
                pos <= input.len(),
                st.input == input@.skip(pos as int),
                pointer < self.data.len(),
                pc <= self.program.len(),
            decreases remaining,
        {
            if remaining == 0 {
                return Err(RuntimeError::StepLimitExceeded);
            }
            remaining = remaining - 1;
            let ghost st0 = st;
            match self.program[pc] {
                OptimizedCommand::SubtractPointer(value) => {
                    match self.subtract_pointer(&mut pointer, value) {
                        Ok(()) => {},
                        Err(e) => {
                            return Err(e);
                        },
                    }
                },
                OptimizedCommand::AddPointer(value) => {
                    match self.add_pointer(&mut pointer, value) {
                        Ok(()) => {},
                        Err(e) => {
                            return Err(e);
                        },
                    }
                },
                OptimizedCommand::SubtractValue(value) => {
                    let v = self.data[pointer];
                    self.data[pointer] = v.wrapping_sub(value);
                },
                OptimizedCommand::AddValue(value) => {
                    let v = self.data[pointer];
                    self.data[pointer] = v.wrapping_add(value);
                },
                OptimizedCommand::Input => {
                    if pos < input.len() {
                        self.data[pointer] = input[pos];
                        proof {
                            assert(st0.input[0] == input@[pos as int]);
                            assert(st0.input.skip(1) =~= input@.skip(pos as int + 1));
                        }
                        pos = pos + 1;
                    } else {
                        proof {
                            assert(opt_input_blocked(prog, st));
                        }
                        return Err(RuntimeError::InputExhausted);
                    }
                },
                OptimizedCommand::Output => {
                    out.push(self.data[pointer]);
                },
                OptimizedCommand::StartOfLoop { end } => {
                    if self.data[pointer] == 0 {
                        if end >= self.program.len() {
                            // The stored target leaves the instruction
                            // sequence entirely, so the jump halts the
                            // program.
                            proof {
                                lemma_opt_run_step(prog, init, n);
                                st = opt_step(prog, st0);
                                n = n + 1;
                            }
                            return Ok(out);
                        }
                        pc = end;
                    }
                },
                OptimizedCommand::EndOfLoop { start } => {
                    if self.data[pointer] != 0 {
                        if start >= self.program.len() {
                            // The stored target leaves the instruction
                            // sequence entirely, so the jump halts the
                            // program.
                            proof {
                                lemma_opt_run_step(prog, init, n);
                                st = opt_step(prog, st0);
                                n = n + 1;
                            }
                            return Ok(out);
                        }
                        pc = start;
                    }
                },
            }

            // Advance past the executed instruction (or past the jump
            // target).
            pc = pc + 1;
            proof {
                lemma_opt_run_step(prog, init, n);
                st = opt_step(prog, st0);
                n = n + 1;
            }
        }
        Ok(out)
    }
}

} // verus!
