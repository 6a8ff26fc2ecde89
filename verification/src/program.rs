//! The unoptimized program form: loop-balance validation at construction and
//! an execution engine that resolves loop jumps by linear scan at run time.
//!
//! The engine is verified against a small-step machine semantics: its result
//! is exactly the output of some number of semantic steps from the initial
//! state, ending in the halt or failure condition the result reports.  The
//! step relation is deterministic and stable once stuck, so this pins the
//! observable behaviour down completely.

use vstd::prelude::*;

use crate::command::{self, Command, InvalidProgram};
use crate::machine::{initial_state, wrap_add, wrap_sub, MachineState, RuntimeError};

verus! {

/// The forward scan a loop start uses to find its matching loop end: from
/// index `i` with nesting counter `d`, the first position where the counter
/// returns to zero, or the sequence length if there is none.
pub open spec fn scan_forward(cmds: Seq<Command>, i: int, d: int) -> int
    decreases cmds.len() - i,
{
    if i < 0 || i >= cmds.len() {
        cmds.len() as int
    } else {
        let d2 = d + command::delta(cmds[i]);
        if d2 == 0 {
            i
        } else {
            scan_forward(cmds, i + 1, d2)
        }
    }
}

/// The backward scan a loop end uses to find its matching loop start: from
/// index `i` down with nesting counter `d`, the first position where the
/// counter returns to zero, or -1 if there is none.
pub open spec fn scan_backward(cmds: Seq<Command>, i: int, d: int) -> int
    decreases i + 1,
{
    if i < 0 || i >= cmds.len() {
        -1
    } else {
        let d2 = d - command::delta(cmds[i]);
        if d2 == 0 {
            i
        } else {
            scan_backward(cmds, i - 1, d2)
        }
    }
}

/// In a sequence whose nesting returns to zero, a forward scan started with
/// a positive counter no larger than the current depth finds a loop end.
pub proof fn lemma_scan_forward_finds(cmds: Seq<Command>, i: int, d: int)
    requires
        0 <= i <= cmds.len(),
        1 <= d <= command::depth(cmds, i),
        command::depth(cmds, cmds.len() as int) == 0,
    ensures
        ({
            let r = scan_forward(cmds, i, d);
            &&& i <= r < cmds.len()
            &&& cmds[r] is EndOfLoop
            &&& command::depth(cmds, r + 1) == command::depth(cmds, i) - d
        }),
    decreases cmds.len() - i,
{
    assert(i < cmds.len());
    assert(command::depth(cmds, i + 1) == command::depth(cmds, i) + command::delta(cmds[i]));
    if cmds[i] is EndOfLoop {
        if d > 1 {
            lemma_scan_forward_finds(cmds, i + 1, d - 1);
        }
    } else if cmds[i] is StartOfLoop {
        lemma_scan_forward_finds(cmds, i + 1, d + 1);
    } else {
        lemma_scan_forward_finds(cmds, i + 1, d);
    }
}

/// A backward scan started with a positive counter no larger than the depth
/// reached so far finds a loop start.
pub proof fn lemma_scan_backward_finds(cmds: Seq<Command>, i: int, d: int)
    requires
        -1 <= i < cmds.len(),
        1 <= d <= command::depth(cmds, i + 1),
    ensures
        ({
            let r = scan_backward(cmds, i, d);
            &&& 0 <= r <= i
            &&& cmds[r] is StartOfLoop
            &&& command::depth(cmds, r) == command::depth(cmds, i + 1) - d
        }),
    decreases i + 1,
{
    assert(command::depth(cmds, 0) == 0);
    assert(i >= 0);
    assert(command::depth(cmds, i + 1) == command::depth(cmds, i) + command::delta(cmds[i]));
    if cmds[i] is StartOfLoop {
        if d > 1 {
            lemma_scan_backward_finds(cmds, i - 1, d - 1);
        }
    } else if cmds[i] is EndOfLoop {
        lemma_scan_backward_finds(cmds, i - 1, d + 1);
    } else {
        lemma_scan_backward_finds(cmds, i - 1, d);
    }
}

/// The program counter has run past the end of the command sequence.
pub open spec fn raw_halted(cmds: Seq<Command>, s: MachineState) -> bool {
    !(0 <= s.pc < cmds.len())
}

/// An input command is due but the input stream is exhausted; execution
/// cannot proceed.
pub open spec fn raw_input_blocked(cmds: Seq<Command>, s: MachineState) -> bool {
    &&& !raw_halted(cmds, s)
    &&& cmds[s.pc] is Input
    &&& s.input.len() == 0
}

/// No further step is possible: the program has halted or input ran dry.
pub open spec fn raw_stuck(cmds: Seq<Command>, s: MachineState) -> bool {
    raw_halted(cmds, s) || raw_input_blocked(cmds, s)
}

/// One step of the unoptimized semantics: pointer moves grow the tape by one
/// zero cell when leaving the materialized range, value changes wrap, loop
/// boundaries jump to the position just past their scanned match.
pub open spec fn raw_step(cmds: Seq<Command>, s: MachineState) -> MachineState
    recommends
        !raw_stuck(cmds, s),
{
    match cmds[s.pc] {
        Command::IncrementPointer => MachineState {
            pc: s.pc + 1,
            pointer: s.pointer + 1,
            tape: if s.pointer + 1 >= s.tape.len() {
                s.tape.push(0u8)
            } else {
                s.tape
            },
            ..s
        },
        Command::DecrementPointer => if s.pointer > 0 {
            MachineState { pc: s.pc + 1, pointer: s.pointer - 1, ..s }
        } else {
            MachineState { pc: s.pc + 1, tape: s.tape.insert(0, 0u8), ..s }
        },
        Command::IncrementValue => MachineState {
            pc: s.pc + 1,
            tape: s.tape.update(s.pointer, wrap_add(s.tape[s.pointer], 1)),
            ..s
        },
        Command::DecrementValue => MachineState {
            pc: s.pc + 1,
            tape: s.tape.update(s.pointer, wrap_sub(s.tape[s.pointer], 1)),
            ..s
        },
        Command::Output => MachineState {
            pc: s.pc + 1,
            output: s.output.push(s.tape[s.pointer]),
            ..s
        },
        Command::Input => MachineState {
            pc: s.pc + 1,
            tape: s.tape.update(s.pointer, s.input[0]),
            input: s.input.skip(1),
            ..s
        },
        Command::StartOfLoop => if s.tape[s.pointer] == 0 {
            MachineState { pc: scan_forward(cmds, s.pc + 1, 1) + 1, ..s }
        } else {
            MachineState { pc: s.pc + 1, ..s }
        },
        Command::EndOfLoop => if s.tape[s.pointer] != 0 {
            MachineState { pc: scan_backward(cmds, s.pc - 1, 1) + 1, ..s }
        } else {
            MachineState { pc: s.pc + 1, ..s }
        },
    }
}

/// The state after `n` steps of the unoptimized semantics, stopping early
/// once the machine is stuck.
pub open spec fn raw_run(cmds: Seq<Command>, s: MachineState, n: nat) -> MachineState
    decreases n,
{
    if n == 0 || raw_stuck(cmds, s) {
        s
    } else {
        raw_run(cmds, raw_step(cmds, s), (n - 1) as nat)
    }
}

/// Extending an unstuck run by one step applies the step relation once more.
pub proof fn lemma_raw_run_step(cmds: Seq<Command>, s: MachineState, n: nat)
    requires
        !raw_stuck(cmds, raw_run(cmds, s, n)),
    ensures
        raw_run(cmds, s, n + 1) == raw_step(cmds, raw_run(cmds, s, n)),
    decreases n,
{
    if raw_stuck(cmds, s) {
        assert(raw_run(cmds, s, n) == s);
    } else if n == 0 {
        assert(raw_run(cmds, s, n) == s);
        assert(raw_run(cmds, s, 1) == raw_run(cmds, raw_step(cmds, s), 0));
    } else {
        assert(raw_run(cmds, s, n) == raw_run(cmds, raw_step(cmds, s), (n - 1) as nat));
        lemma_raw_run_step(cmds, raw_step(cmds, s), (n - 1) as nat);
        assert(raw_run(cmds, s, n + 1) == raw_run(cmds, raw_step(cmds, s), n));
    }
}

/// Once a run is stuck it never changes again, so the step count in the
/// engine's contract pins a unique final state.
pub proof fn lemma_raw_run_stable(cmds: Seq<Command>, s: MachineState, n: nat, m: nat)
    requires
        n <= m,
        raw_stuck(cmds, raw_run(cmds, s, n)),
    ensures
        raw_run(cmds, s, m) == raw_run(cmds, s, n),
    decreases n,
{
    if !raw_stuck(cmds, s) && n > 0 {
        lemma_raw_run_stable(cmds, raw_step(cmds, s), (n - 1) as nat, (m - 1) as nat);
    }
}

/// The step about to be taken keeps the tape within what the machine can
/// address.
pub open spec fn raw_step_fits(cmds: Seq<Command>, s: MachineState) -> bool {
    raw_step(cmds, s).tape.len() <= usize::MAX
}

/// A command sequence validated for loop balance, together with the tape of
/// its most recent execution.
#[derive(Debug)]
pub struct Program {
    commands: Vec<Command>,
    data: Vec<u8>,
}

impl Program {
    /// The validated command sequence.
    pub closed spec fn cmds(&self) -> Seq<Command> {
        self.commands@
    }

    /// The tape left behind by the most recent execution.
    pub closed spec fn tape(&self) -> Seq<u8> {
        self.data@
    }

    /// The construction-time invariant: loop nesting balances.
    pub open spec fn wf(&self) -> bool {
        command::balanced(self.cmds())
    }

    /// Returns the tape left behind by the most recent execution.
    pub fn data(&self) -> (d: &Vec<u8>)
        ensures
            d@ == self.tape(),
    {
        &self.data
    }

    /// Builds a program from a command sequence, rejecting it unless loop
    /// nesting balances.
    pub fn from(value: Vec<Command>) -> (r: Result<Program, InvalidProgram>)
        ensures
            r is Ok <==> command::balanced(value@),
            r matches Ok(p) ==> p.wf() && p.cmds() == value@ && p.tape().len() == 0,
            r matches Err(e) ==> e == command::balance_error(value@),
    {
        let result = Program { commands: value, data: Vec::new() };
        match result.check() {
            Ok(()) => Ok(result),
            Err(e) => Err(e),
        }
    }

    /// Validates global loop balance in one forward scan: the nesting depth
    /// must never go negative and must return to zero at the end.
    pub fn check(&self) -> (r: Result<(), InvalidProgram>)
        ensures
            r is Ok <==> command::balanced(self.cmds()),
            r matches Err(e) ==> e == command::balance_error(self.cmds()),
    {
        let mut active_loops: usize = 0;
        let mut i: usize = 0;
        while i < self.commands.len()
            invariant
                i <= self.commands.len(),
                active_loops <= i,
                active_loops == command::depth(self.commands@, i as int),
                forall|j: int| 0 <= j <= i ==> command::depth(self.commands@, j) >= 0,
            decreases self.commands.len() - i,
        {
            match self.commands[i] {
                Command::StartOfLoop => {
                    active_loops = active_loops + 1;
                },
                Command::EndOfLoop => {
                    if active_loops == 0 {
                        proof {
                            assert(command::depth(self.commands@, i + 1) < 0);
                        }
                        return Err(InvalidProgram::UnexpectedEndOfLoop);
                    }
                    active_loops = active_loops - 1;
                },
                _ => {},
            }
            i = i + 1;
        }
        if active_loops == 0 {
            Ok(())
        } else {
            Err(InvalidProgram::MissingEndOfLoop)
        }
    }

    /// Moves the data pointer one cell left, materializing a zero cell at
    /// the front when the pointer is already on the first cell.  Fails only
    /// when the tape cannot grow any further.
    fn decrement_pointer(&mut self, pointer: &mut usize) -> (r: Result<(), RuntimeError>)
        requires
            *old(pointer) < old(self).data.len(),
        ensures
            final(self).commands == old(self).commands,
            match r {
                Ok(()) => {
                    &&& if *old(pointer) > 0 {
                        *final(pointer) == *old(pointer) - 1 && final(self).data
                            == old(self).data
                    } else {
                        *final(pointer) == 0 && final(self).data@ == old(self).data@.insert(
                            0,
                            0u8,
                        )
                    }
                    &&& *final(pointer) < final(self).data.len()
                },
                Err(e) => {
                    &&& e == RuntimeError::TapeLimitExceeded
                    &&& *final(pointer) == *old(pointer) && final(self).data == old(self).data
                    &&& *old(pointer) == 0 && old(self).data@.len() == usize::MAX
                },
            },
    {
        if *pointer > 0 {
            *pointer = *pointer - 1;
            Ok(())
        } else if self.data.len() == usize::MAX {
            Err(RuntimeError::TapeLimitExceeded)
        } else {
            self.data.insert(0, 0);
            Ok(())
        }
    }

    /// Moves the data pointer one cell right, materializing a zero cell at
    /// the back when the pointer leaves the materialized range.  Fails only
    /// when the tape cannot grow any further.
    fn increment_pointer(&mut self, pointer: &mut usize) -> (r: Result<(), RuntimeError>)
        requires
            *old(pointer) < old(self).data.len(),
        ensures
            final(self).commands == old(self).commands,
            match r {
                Ok(()) => {
                    &&& *final(pointer) == *old(pointer) + 1
                    &&& final(self).data@ == if *old(pointer) + 1 >= old(self).data@.len() {
                        old(self).data@.push(0u8)
                    } else {
                        old(self).data@
                    }
                    &&& *final(pointer) < final(self).data.len()
                },
                Err(e) => {
                    &&& e == RuntimeError::TapeLimitExceeded
                    &&& *final(pointer) == *old(pointer) && final(self).data == old(self).data
                    &&& *old(pointer) + 1 >= old(self).data@.len() && old(self).data@.len()
                        == usize::MAX
                },
            },
    {
        let p1 = *pointer + 1;
        if p1 >= self.data.len() {
            if self.data.len() == usize::MAX {
                return Err(RuntimeError::TapeLimitExceeded);
            }
            self.data.push(0);
        }
        *pointer = p1;
        Ok(())
    }

    /// Scans forward from a loop start, tracking nesting, to the matching
    /// loop end; balance guarantees one exists.
    fn start_of_loop(&self, pc: &mut usize)
        requires
            self.wf(),
            *old(pc) < self.cmds().len(),
            self.cmds()[*old(pc) as int] is StartOfLoop,
        ensures
            *final(pc) == scan_forward(self.cmds(), *old(pc) + 1, 1),
            *old(pc) < *final(pc) < self.cmds().len(),
            self.cmds()[*final(pc) as int] is EndOfLoop,
    {
        let ghost cmds = self.commands@;
        proof {
            assert(command::depth(cmds, *pc + 1) == command::depth(cmds, *pc as int)
                + command::delta(cmds[*pc as int]));
            lemma_scan_forward_finds(cmds, *pc + 1, 1);
        }
        let ghost target = scan_forward(cmds, *pc + 1, 1);
        let len = self.commands.len();
        let start = *pc;
        let mut j: usize = start + 1;
        let mut active_loops: usize = 1;
        while j < len
            invariant
                cmds.len() == len,
                start + 1 <= j <= cmds.len(),
                1 <= active_loops <= j - start,
                target == scan_forward(cmds, j as int, active_loops as int),
            decreases cmds.len() - j,
        {
            match self.commands[j] {
                Command::StartOfLoop => {
                    active_loops = active_loops + 1;
                },
                Command::EndOfLoop => {
                    if active_loops == 1 {
                        *pc = j;
                        return;
                    }
                    active_loops = active_loops - 1;
                },
                _ => {},
            }
            j = j + 1;
        }
        proof {
            assert(false);
        }
    }

    /// Scans backward from a loop end, tracking nesting, to the matching
    /// loop start; balance guarantees one exists.
    fn end_of_loop(&self, pc: &mut usize)
        requires
            self.wf(),
            *old(pc) < self.cmds().len(),
            self.cmds()[*old(pc) as int] is EndOfLoop,
        ensures
            *final(pc) == scan_backward(self.cmds(), *old(pc) - 1, 1),
            *final(pc) < *old(pc),
            self.cmds()[*final(pc) as int] is StartOfLoop,
    {
        let ghost cmds = self.commands@;
        proof {
            assert(command::depth(cmds, *pc + 1) == command::depth(cmds, *pc as int)
                + command::delta(cmds[*pc as int]));
            lemma_scan_backward_finds(cmds, *pc - 1, 1);
        }
        let ghost target = scan_backward(cmds, *pc - 1, 1);
        let len = self.commands.len();
        let start = *pc;
        let mut j: usize = start;
        let mut ended_loops: usize = 1;
        while j > 0
            invariant
                cmds.len() == len,
                start < len,
                j <= start,
                1 <= ended_loops <= start - j + 1,
                target == scan_backward(cmds, j - 1, ended_loops as int),
            decreases j,
        {
            j = j - 1;
            match self.commands[j] {
                Command::StartOfLoop => {
                    if ended_loops == 1 {
                        *pc = j;
                        return;
                    }
                    ended_loops = ended_loops - 1;
                },
                Command::EndOfLoop => {
                    ended_loops = ended_loops + 1;
                },
                _ => {},
            }
        }
        proof {
            assert(false);
        }
    }

    /// Runs the program against the given input bytes on a fresh one-cell
    /// zero tape, returning the bytes it wrote.  The result is exactly what
    /// the small-step semantics computes: output and final tape of a halted
    /// run on success, and on failure a run that hit an input command with
    /// the input exhausted, needed a tape longer than the machine can
    /// address, or was still going after `max_steps` semantic steps.
    pub fn execute(&mut self, input: &Vec<u8>, max_steps: u64) -> (r: Result<
        Vec<u8>,
        RuntimeError,
    >)
        requires
            old(self).wf(),
        ensures
            final(self).wf(),
            final(self).cmds() == old(self).cmds(),
            match r {
                Ok(out) => exists|n: nat|
                    {
                        let f = #[trigger] raw_run(old(self).cmds(), initial_state(input@), n);
                        &&& n <= max_steps
                        &&& raw_halted(old(self).cmds(), f)
                        &&& f.output == out@
                        &&& f.tape == final(self).tape()
                    },
                Err(e) => match e {
                    RuntimeError::InputExhausted => exists|n: nat|
                        {
                            let f = #[trigger] raw_run(
                                old(self).cmds(),
                                initial_state(input@),
                                n,
                            );
                            &&& n <= max_steps
                            &&& raw_input_blocked(old(self).cmds(), f)
                            &&& f.tape == final(self).tape()
                        },
                    RuntimeError::TapeLimitExceeded => exists|n: nat|
                        {
                            let f = #[trigger] raw_run(
                                old(self).cmds(),
                                initial_state(input@),
                                n,
                            );
                            &&& n <= max_steps
                            &&& !raw_stuck(old(self).cmds(), f)
                            &&& !raw_step_fits(old(self).cmds(), f)
                            &&& f.tape == final(self).tape()
                        },
                    RuntimeError::StepLimitExceeded => !raw_halted(
                        old(self).cmds(),
                        raw_run(old(self).cmds(), initial_state(input@), max_steps as nat),
                    ),
                },
            },
    {
        let ghost cmds = self.commands@;
        // Create a program counter, pointer and a fresh one-cell tape.
        let mut pc: usize = 0;
        let mut pointer: usize = 0;
        let mut pos: usize = 0;
        let mut out: Vec<u8> = Vec::new();
        self.data.clear();
        self.data.push(0);

        let mut remaining: u64 = max_steps;
        let ghost init = initial_state(input@);
        let ghost mut st = init;
        let ghost mut n: nat = 0;
        proof {
            assert(st.tape =~= self.data@);
            assert(st.input =~= input@.skip(0));
        }

        while pc < self.commands.len()
            invariant
                self.commands@ == cmds,
                command::balanced(cmds),
                raw_run(cmds, init, n) == st,
                n + remaining == max_steps,
                st.pc == pc as int,
                st.pointer == pointer as int,
                st.tape == self.data@,
                st.output == out@,
                pos <= input.len(),
                st.input == input@.skip(pos as int),
                pointer < self.data.len(),
                pc <= self.commands.len(),
            decreases remaining,
        {
            if remaining == 0 {
                return Err(RuntimeError::StepLimitExceeded);
            }
            remaining = remaining - 1;
            let ghost st0 = st;
            match self.commands[pc] {
                Command::DecrementPointer => {
                    match self.decrement_pointer(&mut pointer) {
                        Ok(()) => {},
                        Err(e) => {
                            return Err(e);
                        },
                    }
                },
                Command::IncrementPointer => {
                    match self.increment_pointer(&mut pointer) {
                        Ok(()) => {},
                        Err(e) => {
                            return Err(e);
                        },
                    }
                },
                Command::DecrementValue => {
                    let v = self.data[pointer];
                    self.data[pointer] = v.wrapping_sub(1);
                },
                Command::IncrementValue => {
                    let v = self.data[pointer];
                    self.data[pointer] = v.wrapping_add(1);
                },
                Command::Input => {
                    if pos < input.len() {
                        self.data[pointer] = input[pos];
                        proof {
                            assert(st0.input[0] == input@[pos as int]);
                            assert(st0.input.skip(1) =~= input@.skip(pos as int + 1));
                        }
                        pos = pos + 1;
                    } else {
                        proof {
                            assert(raw_input_blocked(cmds, st));
                        }
                        return Err(RuntimeError::InputExhausted);
                    }
                },
                Command::Output => {
                    out.push(self.data[pointer]);
                },
                Command::StartOfLoop => {
                    if self.data[pointer] == 0 {
                        self.start_of_loop(&mut pc);
                    }
                },
                Command::EndOfLoop => {
                    if self.data[pointer] != 0 {
                        self.end_of_loop(&mut pc);
                    }
                },
            }

            // Advance past the executed command (or past the scanned match).
            pc = pc + 1;
            proof {
                lemma_raw_run_step(cmds, init, n);
                st = raw_step(cmds, st0);
                n = n + 1;
            }
        }
        Ok(out)
    }
}

} // verus!
