//! Exit-code aggregation across the children of one run.
//!
//! Default mode takes the largest child code ("worst child wins"); Strict mode
//! takes the bitwise OR of the codes, as moreutils `pee` does. A child that was
//! killed by a signal (it has no exit code) contributes the code 1.

use vstd::prelude::*;

use crate::CompatibilityMode;

verus! {

/// The largest code of a non-empty sequence, by induction from the back.
pub open spec fn max_of(codes: Seq<i32>) -> i32
    recommends
        codes.len() > 0,
    decreases codes.len(),
{
    if codes.len() <= 1 {
        codes[0]
    } else {
        let m = max_of(codes.drop_last());
        if codes.last() > m {
            codes.last()
        } else {
            m
        }
    }
}

/// Default-mode aggregate: the largest code, or 0 when there are no codes.
pub open spec fn max_or_zero(codes: Seq<i32>) -> i32 {
    if codes.len() == 0 {
        0
    } else {
        max_of(codes)
    }
}

/// Strict-mode aggregate: the bitwise OR of all codes, 0 when there are none.
pub open spec fn or_of(codes: Seq<i32>) -> i32
    decreases codes.len(),
{
    if codes.len() == 0 {
        0
    } else {
        or_of(codes.drop_last()) | codes.last()
    }
}

/// `max_of` is an element of the sequence and no element exceeds it.
pub proof fn lemma_max_of_is_maximum(codes: Seq<i32>)
    requires
        codes.len() > 0,
    ensures
        codes.contains(max_of(codes)),
        forall|i: int| 0 <= i < codes.len() ==> codes[i] <= max_of(codes),
    decreases codes.len(),
{
    if codes.len() > 1 {
        let init = codes.drop_last();
        lemma_max_of_is_maximum(init);
        let m = max_of(init);
        let k = choose|k: int| 0 <= k < init.len() && init[k] == m;
        assert(codes[k] == m);
        assert forall|i: int| 0 <= i < codes.len() implies codes[i] <= max_of(codes) by {
            if i < codes.len() - 1 {
                assert(codes[i] == init[i]);
            }
        }
        if codes.last() > m {
            assert(codes[codes.len() - 1] == max_of(codes));
        }
    } else {
        assert(codes[0] == max_of(codes));
    }
}

/// Aggregate child exit codes by taking the largest one (Default mode).
///
/// An empty slice gives 0.
pub fn default_max(codes: &[i32]) -> (r: i32)
    ensures
        r == max_or_zero(codes@),
        codes@.len() == 0 ==> r == 0,
        codes@.len() > 0 ==> codes@.contains(r),
        forall|i: int| 0 <= i < codes@.len() ==> codes@[i] <= r,
{
    let n = codes.len();
    if n == 0 {
        return 0;
    }
    let mut best = codes[0];
    let mut i: usize = 1;
    while i < n
        invariant
            n == codes@.len(),
            1 <= i <= n,
            best == max_of(codes@.take(i as int)),
        decreases n - i,
    {
        assert(codes@.take((i + 1) as int).drop_last() =~= codes@.take(i as int));
        if codes[i] > best {
            best = codes[i];
        }
        i = i + 1;
    }
    assert(codes@.take(n as int) =~= codes@);
    proof {
        lemma_max_of_is_maximum(codes@);
    }
    best
}

/// Aggregate child exit codes by bitwise OR (Strict mode), as moreutils does
/// with `ret |= WEXITSTATUS(r)`.
///
/// An empty slice gives 0.
pub fn strict_or(codes: &[i32]) -> (r: i32)
    ensures
        r == or_of(codes@),
{
    let n = codes.len();
    let mut acc: i32 = 0;
    let mut i: usize = 0;
    while i < n
        invariant
            n == codes@.len(),
            i <= n,
            acc == or_of(codes@.take(i as int)),
        decreases n - i,
    {
        assert(codes@.take((i + 1) as int).drop_last() =~= codes@.take(i as int));
        acc = acc | codes[i];
        i = i + 1;
    }
    assert(codes@.take(n as int) =~= codes@);
    acc
}


/// The code a child contributes: its exit code, or 1 when it has none
/// (it was killed by a signal).
pub open spec fn contributed_code(code: Option<i32>) -> i32 {
    match code {
        Some(c) => c,
        None => 1,
    }
}

/// The aggregate of `codes` under `mode`.
pub open spec fn aggregate_spec(mode: CompatibilityMode, codes: Seq<i32>) -> i32 {
    match mode {
        CompatibilityMode::Default => max_or_zero(codes),
        CompatibilityMode::Strict => or_of(codes),
    }
}

/// The process exit byte for an aggregate: the aggregate itself when it lies in
/// `0..=255`, 1 otherwise.
pub open spec fn exit_byte_spec(aggregated: i32) -> u8 {
    if 0 <= aggregated <= 255 {
        aggregated as u8
    } else {
        1
    }
}

/// The exit status of the whole run, from each child's optional exit code.
pub open spec fn run_exit_spec(mode: CompatibilityMode, codes: Seq<Option<i32>>) -> u8 {
    exit_byte_spec(aggregate_spec(mode, codes.map_values(|c: Option<i32>| contributed_code(c))))
}

/// Why a run ended before its children could be aggregated.
#[derive(Debug, Clone, Copy, PartialEq, Eq, Structural)]
pub enum RunFailure {
    /// The arguments held an option the mode does not know.
    UnknownOption,
    /// Reading the input failed.
    InputFailed,
    /// A command could not be spawned.
    SpawnFailed,
    /// The fan-out or the capture of child output failed.
    FanOutFailed,
}

/// The exit status for a failed run: 2 for an unknown option; for a command
/// that could not be spawned 127 in Default mode and 1 in Strict mode (as
/// moreutils); 1 otherwise.
pub open spec fn failure_status_spec(mode: CompatibilityMode, failure: RunFailure) -> u8 {
    match failure {
        RunFailure::UnknownOption => 2,
        RunFailure::SpawnFailed => match mode {
            CompatibilityMode::Default => 127,
            CompatibilityMode::Strict => 1,
        },
        _ => 1,
    }
}

/// The exit status for a run that failed before aggregation.
pub fn failure_exit_status(mode: CompatibilityMode, failure: RunFailure) -> (r: u8)
    ensures
        r == failure_status_spec(mode, failure),
        r == 127 <==> (mode == CompatibilityMode::Default && failure == RunFailure::SpawnFailed),
        (failure == RunFailure::InputFailed || failure == RunFailure::FanOutFailed) ==> r == 1,
        failure == RunFailure::UnknownOption ==> r == 2,
{
    match failure {
        RunFailure::UnknownOption => 2,
        RunFailure::SpawnFailed => match mode {
            CompatibilityMode::Default => 127,
            CompatibilityMode::Strict => 1,
        },
        _ => 1,
    }
}

/// The code one child contributes to the aggregate.
pub fn child_code(code: Option<i32>) -> (r: i32)
    ensures
        r == contributed_code(code),
{
    match code {
        Some(c) => c,
        None => 1,
    }
}

/// Map an aggregate to a process exit byte.
pub fn exit_byte(aggregated: i32) -> (r: u8)
    ensures
        r == exit_byte_spec(aggregated),
        0 <= aggregated <= 255 ==> r as int == aggregated as int,
        !(0 <= aggregated <= 255) ==> r == 1,
{
    if 0 <= aggregated && aggregated <= 255 {
        aggregated as u8
    } else {
        1
    }
}

/// The exit status of a run: each child's code (1 for a signal-killed child),
/// aggregated by `max` in Default mode and by bitwise OR in Strict mode, then
/// mapped to a byte.
pub fn run_exit_status(mode: CompatibilityMode, codes: &[Option<i32>]) -> (r: u8)
    ensures
        r == run_exit_spec(mode, codes@),
{
    let n = codes.len();
    let mut plain: Vec<i32> = Vec::new();
    let mut i: usize = 0;
    while i < n
        invariant
            n == codes@.len(),
            i <= n,
            plain@ =~= codes@.take(i as int).map_values(|c: Option<i32>| contributed_code(c)),
        decreases n - i,
    {
        plain.push(child_code(codes[i]));
        i = i + 1;
    }
    assert(codes@.take(n as int) =~= codes@);
    let aggregated = match mode {
        CompatibilityMode::Default => default_max(plain.as_slice()),
        CompatibilityMode::Strict => strict_or(plain.as_slice()),
    };
    exit_byte(aggregated)
}

proof fn lemma_or_step_zero(a: i32, b: i32)
    ensures
        (a | b) == 0 <==> (a == 0 && b == 0),
{
    assert((a | b) == 0 <==> (a == 0 && b == 0)) by (bit_vector);
}

/// Strict aggregation reports success exactly when every child succeeded.
pub proof fn lemma_or_zero_iff_all_zero(codes: Seq<i32>)
    ensures
        or_of(codes) == 0 <==> forall|i: int| 0 <= i < codes.len() ==> codes[i] == 0,
    decreases codes.len(),
{
    if codes.len() > 0 {
        let init = codes.drop_last();
        lemma_or_zero_iff_all_zero(init);
        lemma_or_step_zero(or_of(init), codes.last());
        if or_of(codes) == 0 {
            assert forall|i: int| 0 <= i < codes.len() implies codes[i] == 0 by {
                if i < codes.len() - 1 {
                    assert(codes[i] == init[i]);
                }
            }
        }
        if forall|i: int| 0 <= i < codes.len() ==> codes[i] == 0 {
            assert forall|i: int| 0 <= i < init.len() implies init[i] == 0 by {
                assert(init[i] == codes[i]);
            }
            assert(codes[codes.len() - 1] == 0);
        }
    }
}

/// Default aggregation reports success exactly when every child succeeded,
/// for the non-negative codes that processes exit with.
pub proof fn lemma_max_zero_iff_all_zero(codes: Seq<i32>)
    requires
        forall|i: int| 0 <= i < codes.len() ==> codes[i] >= 0,
    ensures
        max_or_zero(codes) == 0 <==> forall|i: int| 0 <= i < codes.len() ==> codes[i] == 0,
{
    if codes.len() > 0 {
        lemma_max_of_is_maximum(codes);
    }
}

proof fn lemma_or_bits_step(x: i32, c: i32, y: i32)
    ensures
        (c & (x | c)) == c,
        (y & x) == y ==> (y & (x | c)) == y,
{
    assert((c & (x | c)) == c) by (bit_vector);
    assert((y & x) == y ==> (y & (x | c)) == y) by (bit_vector);
}

/// Every bit of every child's code is set in the Strict aggregate.
pub proof fn lemma_or_covers_each(codes: Seq<i32>)
    ensures
        forall|i: int| 0 <= i < codes.len() ==> (#[trigger] codes[i] & or_of(codes)) == codes[i],
    decreases codes.len(),
{
    if codes.len() > 0 {
        let init = codes.drop_last();
        lemma_or_covers_each(init);
        assert forall|i: int| 0 <= i < codes.len() implies (#[trigger] codes[i] & or_of(codes))
            == codes[i] by {
            lemma_or_bits_step(or_of(init), codes.last(), codes[i]);
            if i < codes.len() - 1 {
                assert(codes[i] == init[i]);
            }
        }
    }
}

proof fn lemma_or_within_step(x: i32, c: i32, m: i32)
    ensures
        (x & m) == x && (c & m) == c ==> ((x | c) & m) == (x | c),
{
    assert((x & m) == x && (c & m) == c ==> ((x | c) & m) == (x | c)) by (bit_vector);
}

/// The Strict aggregate has no bit outside `m` when no code has one.
pub proof fn lemma_or_within(codes: Seq<i32>, m: i32)
    requires
        forall|i: int| 0 <= i < codes.len() ==> (#[trigger] codes[i] & m) == codes[i],
    ensures
        (or_of(codes) & m) == or_of(codes),
    decreases codes.len(),
{
    if codes.len() == 0 {
        assert((0i32 & m) == 0i32) by (bit_vector);
    } else {
        let init = codes.drop_last();
        assert forall|i: int| 0 <= i < init.len() implies (#[trigger] init[i] & m) == init[i] by {
            assert(init[i] == codes[i]);
        }
        lemma_or_within(init, m);
        assert((codes[codes.len() - 1] & m) == codes[codes.len() - 1]);
        lemma_or_within_step(or_of(init), codes.last(), m);
    }
}

/// The two modes agree on a non-empty run exactly when every child's code has
/// its bits within the largest code: `(0, 1)` and `(255, 1)` agree, `(1, 2)`
/// gives 2 in Default mode and 3 in Strict mode.
pub proof fn lemma_modes_agree_iff_within_max(codes: Seq<i32>)
    requires
        codes.len() > 0,
    ensures
        or_of(codes) == max_or_zero(codes) <==> forall|i: int|
            0 <= i < codes.len() ==> (#[trigger] codes[i] & max_or_zero(codes)) == codes[i],
{
    let m = max_of(codes);
    lemma_max_of_is_maximum(codes);
    lemma_or_covers_each(codes);
    if forall|i: int| 0 <= i < codes.len() ==> (#[trigger] codes[i] & m) == codes[i] {
        lemma_or_within(codes, m);
        let k = choose|k: int| 0 <= k < codes.len() && codes[k] == m;
        assert((codes[k] & or_of(codes)) == codes[k]);
        let o = or_of(codes);
        assert((o & m) == o && (m & o) == m ==> o == m) by (bit_vector);
    }
}

proof fn lemma_or_nonneg_step(x: i32, c: i32)
    requires
        x >= 0,
        c >= 0,
    ensures
        (x | c) >= x,
        (x | c) >= c,
{
    assert(x >= 0 && c >= 0 ==> (x | c) >= x && (x | c) >= c) by (bit_vector);
}

/// For non-negative codes the Strict aggregate is never below the Default one.
pub proof fn lemma_or_at_least_max(codes: Seq<i32>)
    requires
        forall|i: int| 0 <= i < codes.len() ==> codes[i] >= 0,
    ensures
        or_of(codes) >= max_or_zero(codes),
        forall|i: int| 0 <= i < codes.len() ==> or_of(codes) >= codes[i],
    decreases codes.len(),
{
    if codes.len() > 0 {
        let init = codes.drop_last();
        assert forall|i: int| 0 <= i < init.len() implies init[i] >= 0 by {
            assert(init[i] == codes[i]);
        }
        lemma_or_at_least_max(init);
        assert(or_of(init) >= 0) by {
            if init.len() > 0 {
                assert(or_of(init) >= init[0]);
            }
        }
        lemma_or_nonneg_step(or_of(init), codes.last());
        assert forall|i: int| 0 <= i < codes.len() implies or_of(codes) >= codes[i] by {
            if i < codes.len() - 1 {
                assert(codes[i] == init[i]);
            }
        }
        lemma_max_of_is_maximum(codes);
    }
}


/// The aggregate of a run depends only on which codes occurred, not on the
/// argv order of the children nor on how many share a code, in both modes.
pub proof fn lemma_aggregate_ignores_order(a: Seq<i32>, b: Seq<i32>)
    requires
        forall|x: i32| a.contains(x) <==> b.contains(x),
    ensures
        aggregate_spec(CompatibilityMode::Default, a) == aggregate_spec(CompatibilityMode::Default, b),
        aggregate_spec(CompatibilityMode::Strict, a) == aggregate_spec(CompatibilityMode::Strict, b),
{
    if a.len() > 0 {
        assert(a.contains(a[0]));
    }
    if b.len() > 0 {
        assert(b.contains(b[0]));
    }
    if a.len() > 0 && b.len() > 0 {
        lemma_max_of_is_maximum(a);
        lemma_max_of_is_maximum(b);
        let ka = choose|k: int| 0 <= k < b.len() && b[k] == max_of(a);
        let kb = choose|k: int| 0 <= k < a.len() && a[k] == max_of(b);
        assert(max_of(a) <= max_of(b));
        assert(max_of(b) <= max_of(a));
    }
    lemma_or_covers_each(a);
    lemma_or_covers_each(b);
    assert forall|i: int| 0 <= i < a.len() implies (#[trigger] a[i] & or_of(b)) == a[i] by {
        assert(a.contains(a[i]));
        let k = choose|k: int| 0 <= k < b.len() && b[k] == a[i];
    }
    assert forall|i: int| 0 <= i < b.len() implies (#[trigger] b[i] & or_of(a)) == b[i] by {
        assert(b.contains(b[i]));
        let k = choose|k: int| 0 <= k < a.len() && a[k] == b[i];
    }
    lemma_or_within(a, or_of(b));
    lemma_or_within(b, or_of(a));
    let x = or_of(a);
    let y = or_of(b);
    assert((x & y) == x && (y & x) == y ==> x == y) by (bit_vector);
}


/// An aggregate in `0..=255` is the exit byte itself; any other aggregate
/// exits with 1.
pub proof fn lemma_exit_byte_keeps_byte_range(aggregated: i32)
    ensures
        0 <= aggregated <= 255 ==> exit_byte_spec(aggregated) as int == aggregated as int,
        !(0 <= aggregated <= 255) ==> exit_byte_spec(aggregated) == 1,
{
}

/// A run's exit status is its aggregate whenever the aggregate is a byte.
pub proof fn lemma_run_exit_is_aggregate_byte(mode: CompatibilityMode, codes: Seq<Option<i32>>)
    ensures
        ({
            let a = aggregate_spec(mode, codes.map_values(|c: Option<i32>| contributed_code(c)));
            &&& 0 <= a <= 255 ==> run_exit_spec(mode, codes) as int == a as int
            &&& !(0 <= a <= 255) ==> run_exit_spec(mode, codes) == 1
        }),
{
}

/// Only a spawn failure in Default mode exits with 127; an unknown option
/// exits with 2 in both modes; every other failure exits with 1.
pub proof fn lemma_failure_statuses(mode: CompatibilityMode, failure: RunFailure)
    ensures
        failure_status_spec(mode, failure) == 127 <==> (mode == CompatibilityMode::Default
            && failure == RunFailure::SpawnFailed),
        failure == RunFailure::UnknownOption ==> failure_status_spec(mode, failure) == 2,
        (failure == RunFailure::InputFailed || failure == RunFailure::FanOutFailed)
            ==> failure_status_spec(mode, failure) == 1,
        (mode == CompatibilityMode::Strict && failure == RunFailure::SpawnFailed)
            ==> failure_status_spec(mode, failure) == 1,
{
}

} // verus!
