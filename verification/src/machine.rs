//! The abstract machine state shared by both execution engines, the wrapping
//! cell arithmetic, and the zero-seeded tape-growth specification.

use vstd::prelude::*;

verus! {

/// A snapshot of an execution: the program counter, the data pointer, the
/// materialized tape, the input bytes not yet consumed, and the output bytes
/// produced so far.
pub ghost struct MachineState {
    pub pc: int,
    pub pointer: int,
    pub tape: Seq<u8>,
    pub input: Seq<u8>,
    pub output: Seq<u8>,
}

/// The state every execution starts from: a single zero cell, the pointer on
/// it, nothing read and nothing written.
pub open spec fn initial_state(input: Seq<u8>) -> MachineState {
    MachineState {
        pc: 0,
        pointer: 0,
        tape: seq![0u8],
        input,
        output: Seq::empty(),
    }
}

/// A state whose pointer addresses a materialized cell.  Both step relations
/// preserve this.
pub open spec fn state_inv(s: MachineState) -> bool {
    0 <= s.pointer < s.tape.len()
}

/// A fatal condition during execution.
#[derive(Clone, Copy, Debug, PartialEq, Eq, Structural)]
pub enum RuntimeError {
    /// An input command found the input stream exhausted.
    InputExhausted,
    /// The next step would need a tape longer than the machine can address.
    TapeLimitExceeded,
    /// The program did not halt within the caller's step budget.
    StepLimitExceeded,
}

/// Byte addition that wraps around at 256.
pub open spec fn wrap_add(c: u8, k: u8) -> u8 {
    if c + k > u8::MAX {
        (c + k - 256) as u8
    } else {
        (c + k) as u8
    }
}

/// Byte subtraction that wraps around below zero.
pub open spec fn wrap_sub(c: u8, k: u8) -> u8 {
    if c - k < 0 {
        (c - k + 256) as u8
    } else {
        (c - k) as u8
    }
}

/// Cell arithmetic wraps at the byte boundaries: incrementing a cell holding
/// 255 yields 0, decrementing a cell holding 0 yields 255, and every other
/// cell moves by exactly one.
pub proof fn lemma_cell_arithmetic_wraps(c: u8)
    ensures
        wrap_add(c, 1) == if c == 255 {
            0u8
        } else {
            (c + 1) as u8
        },
        wrap_sub(c, 1) == if c == 0 {
            255u8
        } else {
            (c - 1) as u8
        },
{
}

/// A sequence of `n` zero cells.
pub open spec fn zeros(n: int) -> Seq<u8> {
    Seq::new(n as nat, |i: int| 0u8)
}

/// The tape after materializing enough cells on the right for the pointer to
/// reach position `p`; newly materialized cells are zero.
pub open spec fn grow_right(tape: Seq<u8>, p: int) -> Seq<u8> {
    if p >= tape.len() {
        tape + zeros(p + 1 - tape.len())
    } else {
        tape
    }
}

/// Tape growth is zero-seeded: growing the tape for a pointer move keeps
/// every materialized cell and fills every newly materialized cell with zero,
/// so reading any cell at or beyond the old end yields 0.
pub proof fn lemma_tape_growth_zero_seeded(tape: Seq<u8>, p: int)
    requires
        p >= 0,
    ensures
        grow_right(tape, p).len() == if p >= tape.len() {
            p + 1
        } else {
            tape.len() as int
        },
        forall|i: int| 0 <= i < tape.len() ==> grow_right(tape, p)[i] == tape[i],
        forall|i: int| tape.len() <= i < grow_right(tape, p).len() ==> grow_right(tape, p)[i]
            == 0u8,
{
}

} // verus!
