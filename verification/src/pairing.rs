//! The loop-pairing law of the optimizer: in the instruction sequence it
//! emits for a loop-balanced program, the stored jump targets pair every
//! loop start with its matching loop end bijectively — each points at the
//! other — and the fold succeeds exactly on command sequences that never
//! close an unopened loop.
//!
//! The proof carries a stack of the output positions holding still-open loop
//! starts through the fold, and shows that the backward scan a loop end
//! performs always lands on the top of that stack.

use vstd::prelude::*;

use crate::command::{self, Command};
use crate::optimized_command::{
    self, delta, find_loop_start, flush, fold_commands, optimize_spec, spec_decrement_pointer,
    spec_decrement_value, spec_end_of_loop, spec_increment_pointer, spec_increment_value,
    FoldState, OptimizedCommand,
};

verus! {

/// Every loop end stores the position of a loop start that stores the loop
/// end's own position in return.
pub open spec fn ends_point_back(v: Seq<OptimizedCommand>) -> bool {
    forall|j: int|
        #![trigger v[j]]
        0 <= j < v.len() ==> (v[j] matches OptimizedCommand::EndOfLoop { start } ==> 0 <= start
            < j && v[start as int] == (OptimizedCommand::StartOfLoop { end: j as usize }))
}

/// Every loop start stores the position of a loop end that stores the loop
/// start's own position in return.
pub open spec fn starts_point_forward(v: Seq<OptimizedCommand>) -> bool {
    forall|i: int|
        #![trigger v[i]]
        0 <= i < v.len() ==> (v[i] matches OptimizedCommand::StartOfLoop { end } ==> i < end
            < v.len() && v[end as int] == (OptimizedCommand::EndOfLoop { start: i as usize }))
}

/// A backward scan with a positive counter stops only on a loop start, at or
/// before where it began.
proof fn lemma_find_range(v: Seq<OptimizedCommand>, i: int, d: int)
    requires
        1 <= d,
        i < v.len(),
    ensures
        ({
            let m = find_loop_start(v, i, d);
            m == -1 || (0 <= m <= i && v[m] is StartOfLoop)
        }),
    decreases i + 1,
{
    if i >= 0 {
        let d2 = d - delta(v[i]);
        if d2 != 0 {
            lemma_find_range(v, i - 1, d2);
        }
    }
}

/// The scan reads only the loop deltas of the positions up to where it
/// starts, so it transfers between sequences that agree on those.
proof fn lemma_find_deltas(
    v1: Seq<OptimizedCommand>,
    v2: Seq<OptimizedCommand>,
    i: int,
    d: int,
)
    requires
        i < v1.len(),
        i < v2.len(),
        forall|j: int| 0 <= j <= i ==> delta(#[trigger] v1[j]) == delta(v2[j]),
    ensures
        find_loop_start(v1, i, d) == find_loop_start(v2, i, d),
    decreases i + 1,
{
    if i >= 0 {
        let d2 = d - delta(v1[i]);
        if d2 != 0 {
            lemma_find_deltas(v1, v2, i - 1, d2);
        }
    }
}

/// The nesting depth of a prefix reads only the loop deltas of the
/// positions before it, so it transfers between sequences that agree on
/// those.
proof fn lemma_depth_deltas(
    v1: Seq<OptimizedCommand>,
    v2: Seq<OptimizedCommand>,
    k: int,
)
    requires
        forall|j: int| 0 <= j < k ==> delta(#[trigger] v1[j]) == delta(v2[j]),
    ensures
        optimized_command::depth(v1, k) == optimized_command::depth(v2, k),
    decreases k,
{
    if k > 0 {
        lemma_depth_deltas(v1, v2, k - 1);
    }
}

/// Raising the scan counter by one makes the scan continue just past the
/// loop start it would otherwise stop on, with a fresh counter.
proof fn lemma_find_shift(v: Seq<OptimizedCommand>, i: int, d: int)
    requires
        1 <= d,
        i < v.len(),
        find_loop_start(v, i, d) >= 0,
    ensures
        find_loop_start(v, i, d + 1) == find_loop_start(v, find_loop_start(v, i, d) - 1, 1),
    decreases i + 1,
{
    let d2 = d - delta(v[i]);
    if d2 != 0 {
        lemma_find_shift(v, i - 1, d2);
    }
}

/// The backward scans land on the stack of open loop starts, level by
/// level: scanning from `i` finds the top, scanning from just below the top
/// finds the next entry, and so on; with the stack empty the scan fails.
spec fn scan_chain(v: Seq<OptimizedCommand>, i: int, ss: Seq<int>) -> bool
    decreases ss.len(),
{
    if ss.len() == 0 {
        find_loop_start(v, i, 1) == -1
    } else {
        &&& find_loop_start(v, i, 1) == ss.last()
        &&& scan_chain(v, ss.last() - 1, ss.drop_last())
    }
}

/// A scan chain transfers between sequences that agree on loop deltas up to
/// its starting position.
proof fn lemma_scan_chain_deltas(
    v1: Seq<OptimizedCommand>,
    v2: Seq<OptimizedCommand>,
    i: int,
    ss: Seq<int>,
)
    requires
        i < v1.len(),
        i < v2.len(),
        forall|j: int| 0 <= j <= i ==> delta(#[trigger] v1[j]) == delta(v2[j]),
        scan_chain(v1, i, ss),
    ensures
        scan_chain(v2, i, ss),
    decreases ss.len(),
{
    lemma_find_deltas(v1, v2, i, 1);
    if ss.len() > 0 {
        lemma_find_range(v1, i, 1);
        lemma_scan_chain_deltas(v1, v2, ss.last() - 1, ss.drop_last());
    }
}

/// The invariant the fold maintains over its flushed output `v` and the
/// stack `ss` of positions holding still-open loop starts.
spec fn fold_inv(v: Seq<OptimizedCommand>, ss: Seq<int>) -> bool {
    &&& forall|a: int, b: int|
        #![trigger ss[a], ss[b]]
        0 <= a < b < ss.len() ==> ss[a] < ss[b]
    &&& forall|k: int|
        0 <= k < ss.len() ==> 0 <= #[trigger] ss[k] < v.len() && v[ss[k]]
            == (OptimizedCommand::StartOfLoop { end: 0 })
    &&& ends_point_back(v)
    &&& forall|i: int|
        #![trigger v[i]]
        0 <= i < v.len() && !ss.contains(i) ==> (v[i] matches OptimizedCommand::StartOfLoop {
            end,
        } ==> i < end < v.len() && v[end as int] == (OptimizedCommand::EndOfLoop {
            start: i as usize,
        }))
    &&& scan_chain(v, v.len() - 1, ss)
    &&& forall|k: int| 0 <= k <= v.len() ==> optimized_command::depth(v, k) >= 0
    &&& optimized_command::depth(v, v.len() as int) == ss.len()
}

/// Appending an instruction that is no loop boundary preserves the
/// invariant.
proof fn lemma_inv_push(v: Seq<OptimizedCommand>, ss: Seq<int>, c: OptimizedCommand)
    requires
        fold_inv(v, ss),
        delta(c) == 0,
    ensures
        fold_inv(v.push(c), ss),
{
    let v2 = v.push(c);
    assert(forall|j: int| 0 <= j < v.len() ==> #[trigger] v2[j] == v[j]);
    assert(find_loop_start(v2, v2.len() - 1, 1) == find_loop_start(v, v.len() - 1, 1)) by {
        lemma_find_deltas(v, v2, v.len() - 1, 1);
    };
    if ss.len() > 0 {
        lemma_scan_chain_deltas(v, v2, ss.last() - 1, ss.drop_last());
    }
    assert forall|k: int| 0 <= k <= v2.len() implies optimized_command::depth(v2, k) >= 0 by {
        if k <= v.len() {
            lemma_depth_deltas(v, v2, k);
        } else {
            lemma_depth_deltas(v, v2, v.len() as int);
        }
    };
    assert(optimized_command::depth(v2, v2.len() as int) == ss.len()) by {
        lemma_depth_deltas(v, v2, v.len() as int);
    };
}

/// Removing a trailing instruction that is no loop boundary preserves the
/// invariant: nothing pairs with it and no scan stops on it.
proof fn lemma_inv_pop(v: Seq<OptimizedCommand>, ss: Seq<int>)
    requires
        fold_inv(v, ss),
        v.len() > 0,
        delta(v.last()) == 0,
    ensures
        fold_inv(v.drop_last(), ss),
{
    let v2 = v.drop_last();
    assert(forall|j: int| 0 <= j < v.len() - 1 ==> #[trigger] v2[j] == v[j]);
    // The dropped instruction is neither a loop start nor a loop end, so no
    // stack entry and no stored target can name its position.
    assert(forall|k: int|
        0 <= k < ss.len() ==> 0 <= #[trigger] ss[k] < v2.len() && v2[ss[k]]
            == (OptimizedCommand::StartOfLoop { end: 0 }));
    assert(ends_point_back(v2)) by {
        assert forall|j: int|
            #![trigger v2[j]]
            0 <= j < v2.len() implies (v2[j] matches OptimizedCommand::EndOfLoop { start } ==> 0
            <= start < j && v2[start as int] == (OptimizedCommand::StartOfLoop {
            end: j as usize,
        })) by {
            assert(v[j] == v2[j]);
        };
    };
    assert(find_loop_start(v, v.len() - 1, 1) == find_loop_start(v, v.len() - 2, 1));
    assert(find_loop_start(v2, v2.len() - 1, 1) == find_loop_start(v, v.len() - 2, 1)) by {
        lemma_find_deltas(v, v2, v.len() - 2, 1);
    };
    if ss.len() > 0 {
        lemma_scan_chain_deltas(v, v2, ss.last() - 1, ss.drop_last());
    }
    assert forall|k: int| 0 <= k <= v2.len() implies optimized_command::depth(v2, k) >= 0 by {
        lemma_depth_deltas(v, v2, k);
    };
    assert(optimized_command::depth(v2, v2.len() as int) == ss.len()) by {
        lemma_depth_deltas(v, v2, v.len() - 1);
        assert(optimized_command::depth(v, v.len() as int) == optimized_command::depth(
            v,
            v.len() - 1,
        ) + delta(v[v.len() - 1]));
    };
}

/// Replacing a trailing instruction that is no loop boundary by another
/// preserves the invariant.
proof fn lemma_inv_replace_last(v: Seq<OptimizedCommand>, ss: Seq<int>, c: OptimizedCommand)
    requires
        fold_inv(v, ss),
        v.len() > 0,
        delta(v.last()) == 0,
        delta(c) == 0,
    ensures
        fold_inv(v.update(v.len() - 1, c), ss),
{
    lemma_inv_pop(v, ss);
    lemma_inv_push(v.drop_last(), ss, c);
    assert(v.drop_last().push(c) =~= v.update(v.len() - 1, c));
}

/// Appending a loop-start placeholder opens a loop: its position goes on the
/// stack, and the backward scan now stops on it first.
#[verifier::rlimit(50)]
proof fn lemma_inv_push_start(v: Seq<OptimizedCommand>, ss: Seq<int>)
    requires
        fold_inv(v, ss),
    ensures
        fold_inv(
            v.push(OptimizedCommand::StartOfLoop { end: 0 }),
            ss.push(v.len() as int),
        ),
{
    let v2 = v.push(OptimizedCommand::StartOfLoop { end: 0 });
    let ss2 = ss.push(v.len() as int);
    assert(forall|j: int| 0 <= j < v.len() ==> #[trigger] v2[j] == v[j]);
    assert(forall|k: int| 0 <= k < ss.len() ==> #[trigger] ss2[k] == ss[k]);

    assert forall|a: int, b: int|
        #![trigger ss2[a], ss2[b]]
        0 <= a < b < ss2.len() implies ss2[a] < ss2[b] by {
        if b < ss.len() {
            assert(ss2[a] == ss[a] && ss2[b] == ss[b]);
        } else {
            assert(ss2[b] == v.len());
            assert(ss2[a] == ss[a] && ss[a] < v.len());
        }
    };
    assert forall|k: int|
        0 <= k < ss2.len() implies 0 <= #[trigger] ss2[k] < v2.len() && v2[ss2[k]]
        == (OptimizedCommand::StartOfLoop { end: 0 }) by {
        if k < ss.len() {
            assert(ss2[k] == ss[k]);
            assert(v2[ss[k]] == v[ss[k]]);
        } else {
            assert(ss2[k] == v.len());
        }
    };
    assert(ends_point_back(v2)) by {
        assert forall|j: int|
            #![trigger v2[j]]
            0 <= j < v2.len() implies (v2[j] matches OptimizedCommand::EndOfLoop { start } ==> 0
            <= start < j && v2[start as int] == (OptimizedCommand::StartOfLoop {
            end: j as usize,
        })) by {
            if j < v.len() {
                assert(v2[j] == v[j]);
                match v[j] {
                    OptimizedCommand::EndOfLoop { start } => {
                        assert(v2[start as int] == v[start as int]);
                    },
                    _ => {},
                }
            }
        };
    };
    assert forall|i: int|
        #![trigger v2[i]]
        0 <= i < v2.len() && !ss2.contains(i) implies (v2[i]
        matches OptimizedCommand::StartOfLoop { end } ==> i < end < v2.len() && v2[end as int]
        == (OptimizedCommand::EndOfLoop { start: i as usize })) by {
        if i == v.len() {
            assert(ss2[ss.len() as int] == i);
            assert(ss2.contains(i));
        } else {
            assert(v2[i] == v[i]);
            assert(!ss.contains(i)) by {
                if ss.contains(i) {
                    let k = choose|k: int| 0 <= k < ss.len() && ss[k] == i;
                    assert(ss2[k] == i);
                    assert(ss2.contains(i));
                }
            };
            match v[i] {
                OptimizedCommand::StartOfLoop { end } => {
                    assert(i < end < v.len());
                    assert(v2[end as int] == v[end as int]);
                },
                _ => {},
            }
        }
    };
    assert(scan_chain(v2, v2.len() - 1, ss2)) by {
        assert(find_loop_start(v2, v2.len() - 1, 1) == v.len());
        lemma_scan_chain_deltas(v, v2, v.len() - 1, ss);
        assert(ss2.last() == v.len());
        assert(ss2.drop_last() =~= ss);
    };
    assert forall|k: int| 0 <= k <= v2.len() implies optimized_command::depth(v2, k) >= 0 by {
        if k <= v.len() {
            lemma_depth_deltas(v, v2, k);
        } else {
            lemma_depth_deltas(v, v2, v.len() as int);
        }
    };
    assert(optimized_command::depth(v2, v2.len() as int) == ss2.len()) by {
        lemma_depth_deltas(v, v2, v.len() as int);
    };
}

/// Closing a loop: patching the placeholder at `m` and appending the loop
/// end keeps every loop end pointing at a loop start that points back.
#[verifier::rlimit(50)]
proof fn lemma_inv_end_ends(v: Seq<OptimizedCommand>, m: int)
    requires
        v.len() <= usize::MAX,
        0 <= m < v.len(),
        v[m] == (OptimizedCommand::StartOfLoop { end: 0 }),
        ends_point_back(v),
    ensures
        ends_point_back(
            v.update(m, (OptimizedCommand::StartOfLoop { end: v.len() as usize })).push(
                (OptimizedCommand::EndOfLoop { start: m as usize }),
            ),
        ),
{
    let vu = v.update(m, (OptimizedCommand::StartOfLoop { end: v.len() as usize }));
    let v2 = vu.push((OptimizedCommand::EndOfLoop { start: m as usize }));
    assert(forall|j: int|
        0 <= j < v.len() && j != m ==> #[trigger] v2[j] == v[j]);
    assert(v2[v.len() as int] == (OptimizedCommand::EndOfLoop { start: m as usize }));
    assert(v2[m] == (OptimizedCommand::StartOfLoop { end: v.len() as usize }));
    assert forall|j: int|
        #![trigger v2[j]]
        0 <= j < v2.len() implies (v2[j] matches OptimizedCommand::EndOfLoop { start } ==> 0
        <= start < j && v2[start as int] == (OptimizedCommand::StartOfLoop {
        end: j as usize,
    })) by {
        if j < v.len() && j != m {
            assert(v2[j] == v[j]);
            // An already matched pair never involves the placeholder at
            // `m`: a placeholder's end index is zero, a matched start's is
            // the positive position of its loop end.
            match v[j] {
                OptimizedCommand::EndOfLoop { start } => {
                    assert(v[start as int] == (OptimizedCommand::StartOfLoop {
                        end: j as usize,
                    }));
                    assert(start as int != m);
                    assert(v2[start as int] == v[start as int]);
                },
                _ => {},
            }
        }
    };
}

/// Closing a loop: the popped stack keeps its order and its placeholders,
/// which all sit below the patched position.
#[verifier::rlimit(50)]
proof fn lemma_inv_end_stack(v: Seq<OptimizedCommand>, ss: Seq<int>)
    requires
        forall|a: int, b: int|
            #![trigger ss[a], ss[b]]
            0 <= a < b < ss.len() ==> ss[a] < ss[b],
        forall|k: int|
            0 <= k < ss.len() ==> 0 <= #[trigger] ss[k] < v.len() && v[ss[k]]
                == (OptimizedCommand::StartOfLoop { end: 0 }),
        ss.len() > 0,
    ensures
        ({
            let m = ss.last();
            let v2 = v.update(
                m,
                (OptimizedCommand::StartOfLoop { end: v.len() as usize }),
            ).push((OptimizedCommand::EndOfLoop { start: m as usize }));
            let ss2 = ss.drop_last();
            &&& forall|a: int, b: int|
                #![trigger ss2[a], ss2[b]]
                0 <= a < b < ss2.len() ==> ss2[a] < ss2[b]
            &&& forall|k: int|
                0 <= k < ss2.len() ==> 0 <= #[trigger] ss2[k] < v2.len() && v2[ss2[k]]
                    == (OptimizedCommand::StartOfLoop { end: 0 })
        }),
{
    let m = ss.last();
    let vu = v.update(m, (OptimizedCommand::StartOfLoop { end: v.len() as usize }));
    let v2 = vu.push((OptimizedCommand::EndOfLoop { start: m as usize }));
    let ss2 = ss.drop_last();
    assert forall|k: int|
        0 <= k < ss2.len() implies 0 <= #[trigger] ss2[k] < v2.len() && v2[ss2[k]]
        == (OptimizedCommand::StartOfLoop { end: 0 }) by {
        assert(ss2[k] == ss[k]);
        assert(ss[k] < ss[ss.len() - 1]);
        assert(v2[ss[k]] == v[ss[k]]);
    };
}

/// Closing a loop: the patched start and its new loop end point at each
/// other, and every start already matched stays matched.
#[verifier::rlimit(50)]
proof fn lemma_inv_end_starts(v: Seq<OptimizedCommand>, ss: Seq<int>)
    requires
        v.len() <= usize::MAX,
        forall|a: int, b: int|
            #![trigger ss[a], ss[b]]
            0 <= a < b < ss.len() ==> ss[a] < ss[b],
        forall|k: int|
            0 <= k < ss.len() ==> 0 <= #[trigger] ss[k] < v.len() && v[ss[k]]
                == (OptimizedCommand::StartOfLoop { end: 0 }),
        forall|i: int|
            #![trigger v[i]]
            0 <= i < v.len() && !ss.contains(i) ==> (v[i]
                matches OptimizedCommand::StartOfLoop { end } ==> i < end < v.len()
                && v[end as int] == (OptimizedCommand::EndOfLoop { start: i as usize })),
        ss.len() > 0,
    ensures
        ({
            let m = ss.last();
            let v2 = v.update(
                m,
                (OptimizedCommand::StartOfLoop { end: v.len() as usize }),
            ).push((OptimizedCommand::EndOfLoop { start: m as usize }));
            let ss2 = ss.drop_last();
            forall|i: int|
                #![trigger v2[i]]
                0 <= i < v2.len() && !ss2.contains(i) ==> (v2[i]
                    matches OptimizedCommand::StartOfLoop { end } ==> i < end < v2.len()
                    && v2[end as int] == (OptimizedCommand::EndOfLoop { start: i as usize }))
        }),
{
    let m = ss.last();
    assert(0 <= m < v.len() && v[m] == (OptimizedCommand::StartOfLoop { end: 0 })) by {
        assert(ss[ss.len() - 1] == m);
    };
    let vu = v.update(m, (OptimizedCommand::StartOfLoop { end: v.len() as usize }));
    let v2 = vu.push((OptimizedCommand::EndOfLoop { start: m as usize }));
    let ss2 = ss.drop_last();
    assert(forall|j: int|
        0 <= j < v.len() && j != m ==> #[trigger] v2[j] == v[j]);
    assert(v2[v.len() as int] == (OptimizedCommand::EndOfLoop { start: m as usize }));
    assert(v2[m] == (OptimizedCommand::StartOfLoop { end: v.len() as usize }));
    assert forall|i: int|
        #![trigger v2[i]]
        0 <= i < v2.len() && !ss2.contains(i) implies (v2[i]
        matches OptimizedCommand::StartOfLoop { end } ==> i < end < v2.len() && v2[end as int]
        == (OptimizedCommand::EndOfLoop { start: i as usize })) by {
        if i == m {
            assert(v2[m] == (OptimizedCommand::StartOfLoop { end: v.len() as usize }));
        } else if i < v.len() {
            assert(v2[i] == v[i]);
            assert(!ss.contains(i)) by {
                if ss.contains(i) {
                    let k = choose|k: int| 0 <= k < ss.len() && ss[k] == i;
                    if k < ss.len() - 1 {
                        assert(ss2[k] == i);
                        assert(ss2.contains(i));
                    } else {
                        assert(i == m);
                    }
                }
            };
            match v[i] {
                OptimizedCommand::StartOfLoop { end } => {
                    assert(i < end < v.len());
                    assert(v[end as int] == (OptimizedCommand::EndOfLoop {
                        start: i as usize,
                    }));
                    assert(end as int != m);
                    assert(v2[end as int] == v[end as int]);
                },
                _ => {},
            }
        }
    };
}

/// Closing a loop, second half: with one more unmatched loop end on top the
/// backward scan skips the whole closed loop and lands one level lower on
/// the stack.
#[verifier::rlimit(50)]
proof fn lemma_inv_end_chain(v: Seq<OptimizedCommand>, ss: Seq<int>)
    requires
        v.len() <= usize::MAX,
        ss.len() > 0,
        0 <= ss.last() < v.len(),
        v[ss.last()] is StartOfLoop,
        scan_chain(v, v.len() - 1, ss),
    ensures
        ({
            let m = ss.last();
            let v2 = v.update(
                m,
                (OptimizedCommand::StartOfLoop { end: v.len() as usize }),
            ).push((OptimizedCommand::EndOfLoop { start: m as usize }));
            &&& find_loop_start(v, v.len() - 1, 1) == m
            &&& 0 <= m < v.len()
            &&& scan_chain(v2, v2.len() - 1, ss.drop_last())
        }),
{
    let m = ss.last();
    let vu = v.update(m, (OptimizedCommand::StartOfLoop { end: v.len() as usize }));
    let v2 = vu.push((OptimizedCommand::EndOfLoop { start: m as usize }));
    let ss2 = ss.drop_last();
    assert(forall|j: int|
        0 <= j < v.len() ==> delta(#[trigger] v2[j]) == delta(v[j]));
    assert(v2[v.len() as int] == (OptimizedCommand::EndOfLoop { start: m as usize }));
    assert(find_loop_start(v, v.len() - 1, 1) == m);
    lemma_find_shift(v, v.len() - 1, 1);
    lemma_find_deltas(v, v2, v.len() - 1, 2);
    assert(find_loop_start(v2, v2.len() - 1, 1) == find_loop_start(v, m - 1, 1));
    assert(scan_chain(v, m - 1, ss2));
    if ss2.len() > 0 {
        assert(find_loop_start(v, m - 1, 1) == ss2.last());
        assert(scan_chain(v, ss2.last() - 1, ss2.drop_last()));
        lemma_find_range(v, m - 1, 1);
        lemma_scan_chain_deltas(v, v2, ss2.last() - 1, ss2.drop_last());
    }
}

/// Closing a loop: patching a loop start in place and appending the loop
/// end drops the nesting depth of the whole output by exactly one, the
/// stack's lost entry.
proof fn lemma_inv_end_depths(v: Seq<OptimizedCommand>, ss: Seq<int>)
    requires
        forall|k: int| 0 <= k <= v.len() ==> optimized_command::depth(v, k) >= 0,
        optimized_command::depth(v, v.len() as int) == ss.len(),
        ss.len() > 0,
        0 <= ss.last() < v.len(),
        v[ss.last()] is StartOfLoop,
    ensures
        ({
            let m = ss.last();
            let v2 = v.update(
                m,
                (OptimizedCommand::StartOfLoop { end: v.len() as usize }),
            ).push((OptimizedCommand::EndOfLoop { start: m as usize }));
            &&& forall|k: int| 0 <= k <= v2.len() ==> optimized_command::depth(v2, k) >= 0
            &&& optimized_command::depth(v2, v2.len() as int) == ss.drop_last().len()
        }),
{
    let m = ss.last();
    let vu = v.update(m, (OptimizedCommand::StartOfLoop { end: v.len() as usize }));
    let v2 = vu.push((OptimizedCommand::EndOfLoop { start: m as usize }));
    assert(forall|j: int|
        0 <= j < v.len() ==> delta(#[trigger] v2[j]) == delta(v[j]));
    assert(v2[v.len() as int] == (OptimizedCommand::EndOfLoop { start: m as usize }));
    assert forall|k: int| 0 <= k <= v2.len() implies optimized_command::depth(v2, k) >= 0 by {
        if k <= v.len() {
            lemma_depth_deltas(v, v2, k);
        } else {
            lemma_depth_deltas(v, v2, v.len() as int);
        }
    };
    assert(optimized_command::depth(v2, v2.len() as int) == ss.len() - 1) by {
        lemma_depth_deltas(v, v2, v.len() as int);
    };
}

/// Closing a loop: the backward scan lands on the stack's top placeholder;
/// patching it with the loop end's position and appending the loop end makes
/// the pair point at each other and pops the stack.
proof fn lemma_inv_end(v: Seq<OptimizedCommand>, ss: Seq<int>)
    requires
        v.len() <= usize::MAX,
        fold_inv(v, ss),
        ss.len() > 0,
    ensures
        ({
            let m = ss.last();
            let v2 = v.update(
                m,
                (OptimizedCommand::StartOfLoop { end: v.len() as usize }),
            ).push((OptimizedCommand::EndOfLoop { start: m as usize }));
            &&& find_loop_start(v, v.len() - 1, 1) == m
            &&& 0 <= m < v.len()
            &&& v[m] == (OptimizedCommand::StartOfLoop { end: 0 })
            &&& fold_inv(v2, ss.drop_last())
        }),
{
    assert(0 <= ss.last() < v.len() && v[ss.last()] == (OptimizedCommand::StartOfLoop {
        end: 0,
    })) by {
        assert(ss[ss.len() - 1] == ss.last());
    };
    lemma_inv_end_ends(v, ss.last());
    lemma_inv_end_stack(v, ss);
    lemma_inv_end_starts(v, ss);
    lemma_inv_end_chain(v, ss);
    lemma_inv_end_depths(v, ss);
}

/// One pointer or value operation folded into the state: whatever the
/// pending accumulator was, the flushed output gains, loses or swaps at most
/// one counted instruction, and no loop boundary moves.
#[verifier::rlimit(50)]
proof fn lemma_inv_pv(st: FoldState, ss: Seq<int>, st2: FoldState)
    requires
        fold_inv(flush(st), ss),
        st2 == spec_increment_pointer(st) || st2 == spec_decrement_pointer(st) || st2
            == spec_increment_value(st) || st2 == spec_decrement_value(st),
    ensures
        fold_inv(flush(st2), ss),
        flush(st2).len() <= flush(st).len() + 1,
{
    let v = flush(st);
    match st.pending {
        None => {
            assert(flush(st2) == v.push(st2.pending.unwrap()));
            lemma_inv_push(v, ss, st2.pending.unwrap());
        },
        Some(p) => {
            assert(v.len() > 0 && v.last() == p);
            if st2.out == st.out {
                match st2.pending {
                    None => {
                        // The accumulator cancelled away entirely.
                        assert(delta(p) == 0);
                        assert(flush(st2) =~= v.drop_last());
                        lemma_inv_pop(v, ss);
                    },
                    Some(c2) => {
                        // The accumulator's count was extended or flipped.
                        assert(delta(p) == 0 && delta(c2) == 0);
                        assert(flush(st2) =~= v.update(v.len() - 1, c2));
                        lemma_inv_replace_last(v, ss, c2);
                    },
                }
            } else {
                // The accumulator was flushed and a fresh one started.
                assert(st2.out == st.out.push(p));
                assert(st2.out =~= v);
                assert(st2.pending is Some && delta(st2.pending.unwrap()) == 0);
                assert(flush(st2) == v.push(st2.pending.unwrap()));
                lemma_inv_push(v, ss, st2.pending.unwrap());
            }
        },
    }
}

/// The positions, in the fold's flushed output, of the loop starts still
/// waiting for their loop end after the first `i` commands.
spec fn fold_stack(cmds: Seq<Command>, i: int) -> Seq<int>
    decreases i,
{
    if i <= 0 {
        Seq::empty()
    } else {
        let ss = fold_stack(cmds, i - 1);
        match fold_commands(cmds, i - 1) {
            None => ss,
            Some(st) => match cmds[i - 1] {
                Command::StartOfLoop => ss.push(flush(st).len() as int),
                Command::EndOfLoop => if ss.len() > 0 {
                    ss.drop_last()
                } else {
                    ss
                },
                _ => ss,
            },
        }
    }
}

/// The fold maintains the pairing invariant, its flushed output grows by at
/// most one instruction per command, and the stack of open loop starts is
/// exactly as deep as the loop nesting of the commands folded so far.
proof fn lemma_fold_invariant(cmds: Seq<Command>, i: int)
    requires
        0 <= i <= cmds.len(),
        cmds.len() <= usize::MAX,
        fold_commands(cmds, i) is Some,
    ensures
        ({
            let st = fold_commands(cmds, i).unwrap();
            let ss = fold_stack(cmds, i);
            &&& flush(st).len() <= i
            &&& ss.len() == command::depth(cmds, i)
            &&& fold_inv(flush(st), ss)
        }),
    decreases i,
{
    if i == 0 {
        let st = fold_commands(cmds, 0).unwrap();
        assert(flush(st) =~= Seq::<OptimizedCommand>::empty());
        assert(find_loop_start(flush(st), -1, 1) == -1);
    } else {
        assert(fold_commands(cmds, i - 1) is Some);
        lemma_fold_invariant(cmds, i - 1);
        let st = fold_commands(cmds, i - 1).unwrap();
        let ss = fold_stack(cmds, i - 1);
        let v = flush(st);
        let st2 = fold_commands(cmds, i).unwrap();
        assert(command::depth(cmds, i) == command::depth(cmds, i - 1) + command::delta(
            cmds[i - 1],
        ));
        match cmds[i - 1] {
            Command::IncrementPointer => {
                lemma_inv_pv(st, ss, st2);
            },
            Command::DecrementPointer => {
                lemma_inv_pv(st, ss, st2);
            },
            Command::IncrementValue => {
                lemma_inv_pv(st, ss, st2);
            },
            Command::DecrementValue => {
                lemma_inv_pv(st, ss, st2);
            },
            Command::Output => {
                assert(flush(st2) == v.push(OptimizedCommand::Output));
                lemma_inv_push(v, ss, OptimizedCommand::Output);
            },
            Command::Input => {
                assert(flush(st2) == v.push(OptimizedCommand::Input));
                lemma_inv_push(v, ss, OptimizedCommand::Input);
            },
            Command::StartOfLoop => {
                assert(flush(st2) == v.push(OptimizedCommand::StartOfLoop { end: 0 }));
                lemma_inv_push_start(v, ss);
            },
            Command::EndOfLoop => {
                // The fold succeeded, so the backward scan found a start;
                // by the scan chain that start is the stack's top.
                assert(spec_end_of_loop(st) is Some);
                assert(ss.len() > 0) by {
                    if ss.len() == 0 {
                        assert(find_loop_start(v, v.len() - 1, 1) == -1);
                    }
                };
                lemma_inv_end(v, ss);
                let m = ss.last();
                assert(find_loop_start(v, v.len() - 1, 1) == m);
                assert(flush(st2) == v.update(
                    m,
                    (OptimizedCommand::StartOfLoop { end: v.len() as usize }),
                ).push((OptimizedCommand::EndOfLoop { start: m as usize })));
            },
        }
    }
}

/// The optimizer's fold succeeds exactly on command sequences that never
/// close an unopened loop: success is equivalent to no prefix having more
/// loop ends than loop starts.
pub proof fn lemma_optimize_succeeds_iff_prefix_ok(cmds: Seq<Command>)
    requires
        cmds.len() <= usize::MAX,
    ensures
        optimize_spec(cmds) is Some <==> command::prefix_ok(cmds),
{
    if command::prefix_ok(cmds) {
        lemma_fold_some(cmds, cmds.len() as int);
    }
    if optimize_spec(cmds) is Some {
        assert forall|i: int| 0 <= i <= cmds.len() implies command::depth(cmds, i) >= 0 by {
            if fold_commands(cmds, i) is None {
                crate::optimized_command::lemma_fold_none_persists(
                    cmds,
                    i,
                    cmds.len() as int,
                );
            } else {
                lemma_fold_invariant(cmds, i);
            }
        };
    }
}

/// On a prefix whose loop nesting never goes negative, the fold cannot fail:
/// every loop end finds an open loop start on the stack.
proof fn lemma_fold_some(cmds: Seq<Command>, i: int)
    requires
        0 <= i <= cmds.len(),
        cmds.len() <= usize::MAX,
        forall|j: int| 0 <= j <= i ==> command::depth(cmds, j) >= 0,
    ensures
        fold_commands(cmds, i) is Some,
    decreases i,
{
    if i > 0 {
        lemma_fold_some(cmds, i - 1);
        lemma_fold_invariant(cmds, i - 1);
        if cmds[i - 1] is EndOfLoop {
            let st = fold_commands(cmds, i - 1).unwrap();
            let ss = fold_stack(cmds, i - 1);
            assert(command::depth(cmds, i) == command::depth(cmds, i - 1) - 1);
            assert(ss.len() > 0);
            assert(find_loop_start(flush(st), flush(st).len() - 1, 1) == ss.last());
            assert(0 <= ss.last()) by {
                assert(ss[ss.len() - 1] == ss.last());
            };
            assert(spec_end_of_loop(st) is Some);
        }
    }
}

/// Optimizing a loop-balanced command sequence yields a loop-balanced
/// instruction sequence, so a balanced program always compiles: the fold
/// succeeds and the construction-time validation of its output passes.
pub proof fn lemma_balanced_optimizes_balanced(cmds: Seq<Command>)
    requires
        cmds.len() <= usize::MAX,
        command::balanced(cmds),
    ensures
        optimize_spec(cmds) matches Some(v) && optimized_command::balanced(v),
{
    lemma_optimize_succeeds_iff_prefix_ok(cmds);
    lemma_fold_invariant(cmds, cmds.len() as int);
    assert(fold_stack(cmds, cmds.len() as int).len() == 0);
}

/// When the fold succeeds, its output is balanced exactly when the input
/// was: the output's nesting never goes negative, and its final depth equals
/// the input's.
pub proof fn lemma_output_balanced_iff_input_balanced(cmds: Seq<Command>)
    requires
        cmds.len() <= usize::MAX,
        optimize_spec(cmds) is Some,
    ensures
        optimized_command::prefix_ok(optimize_spec(cmds).unwrap()),
        optimized_command::balanced(optimize_spec(cmds).unwrap()) <==> command::balanced(cmds),
{
    lemma_optimize_succeeds_iff_prefix_ok(cmds);
    lemma_fold_invariant(cmds, cmds.len() as int);
}

/// Loop matching is a correct bijection: for every loop-balanced command
/// sequence the optimizer succeeds, every loop end it emits stores the
/// position of a loop start that stores the loop end's position in return,
/// and every loop start it emits stores the position of a loop end that
/// stores the loop start's position in return.
pub proof fn lemma_loop_matching_bijection(cmds: Seq<Command>)
    requires
        cmds.len() <= usize::MAX,
        command::balanced(cmds),
    ensures
        optimize_spec(cmds) is Some,
        ends_point_back(optimize_spec(cmds).unwrap()),
        starts_point_forward(optimize_spec(cmds).unwrap()),
{
    lemma_optimize_succeeds_iff_prefix_ok(cmds);
    lemma_fold_invariant(cmds, cmds.len() as int);
    let st = fold_commands(cmds, cmds.len() as int).unwrap();
    let ss = fold_stack(cmds, cmds.len() as int);
    let v = flush(st);
    assert(ss.len() == 0);
    assert(starts_point_forward(v)) by {
        assert forall|i: int|
            #![trigger v[i]]
            0 <= i < v.len() implies (v[i] matches OptimizedCommand::StartOfLoop { end } ==> i
            < end < v.len() && v[end as int] == (OptimizedCommand::EndOfLoop {
            start: i as usize,
        })) by {
            assert(!ss.contains(i));
        };
    };
}

} // verus!
