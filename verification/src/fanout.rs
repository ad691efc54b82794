//! The decisions of the fan-out write loop.
//!
//! The loop reads its input in chunks and writes each chunk to every live
//! sink, in registration order. The I/O happens around this module; what it
//! decides is which sinks receive the next chunk, which ones leave the live
//! set after a chunk, and whether a write failure ends the run.
//!
//! After every live sink has been offered the complete chunk, the sinks whose
//! write failed leave the live set. When write errors are ignored (the
//! default, as in moreutils `--ignore-write-errors`), the run goes on with the
//! survivors; when they are not, the first failing sink ends the run. When no
//! sink is live any more, the rest of the input is drained unwritten.

use vstd::prelude::*;

verus! {

/// What happened when one live sink was handed the current chunk.
#[derive(Debug, Clone, Copy, PartialEq, Eq, Structural)]
pub enum WriteOutcome {
    /// The whole chunk was written.
    Delivered,
    /// The write failed (a closed pipe or any other error).
    Failed,
}

/// What the loop does after a chunk has been offered to every live sink.
#[derive(Debug, Clone, Copy, PartialEq, Eq, Structural)]
pub enum ChunkVerdict {
    /// Read the next chunk and offer it to the remaining live sinks.
    Continue,
    /// No sink is live any more: drain the rest of the input unwritten.
    AllClosed,
    /// Write errors are not ignored and this sink (its registration index)
    /// failed first: end the run with its error.
    Halt { sink_index: usize },
}

/// The live sinks after a chunk: those of `live` whose outcome (at the same
/// position in `outcomes`) was `Delivered`, in the same order.
pub open spec fn survivors(live: Seq<usize>, outcomes: Seq<WriteOutcome>) -> Seq<usize>
    decreases live.len(),
{
    if live.len() == 0 {
        Seq::empty()
    } else {
        let rest = survivors(live.drop_last(), outcomes.drop_last());
        if outcomes.last() == WriteOutcome::Delivered {
            rest.push(live.last())
        } else {
            rest
        }
    }
}

/// The position of the first `Failed` outcome, if any.
pub open spec fn first_failed(outcomes: Seq<WriteOutcome>) -> Option<int>
    decreases outcomes.len(),
{
    if outcomes.len() == 0 {
        None
    } else {
        match first_failed(outcomes.drop_last()) {
            Some(k) => Some(k),
            None => if outcomes.last() == WriteOutcome::Failed {
                Some(outcomes.len() - 1)
            } else {
                None
            },
        }
    }
}

/// The verdict on a chunk offered to `live` with the given outcomes.
pub open spec fn verdict_spec(
    live: Seq<usize>,
    outcomes: Seq<WriteOutcome>,
    ignore_write_errors: bool,
) -> ChunkVerdict {
    if !ignore_write_errors && first_failed(outcomes) is Some {
        ChunkVerdict::Halt { sink_index: live[first_failed(outcomes)->0] }
    } else if survivors(live, outcomes).len() == 0 {
        ChunkVerdict::AllClosed
    } else {
        ChunkVerdict::Continue
    }
}

/// Registration indices below `n`, strictly increasing.
pub open spec fn is_ordered_below(live: Seq<usize>, n: nat) -> bool {
    &&& forall|i: int| 0 <= i < live.len() ==> live[i] < n
    &&& forall|i: int, j: int| 0 <= i < j < live.len() ==> live[i] < live[j]
}

/// The live set of a fan-out run.
pub struct FanOut {
    live: Vec<usize>,
    sink_count: usize,
    ignore_write_errors: bool,
}

impl FanOut {
    #[verifier::type_invariant]
    spec fn inv(self) -> bool {
        is_ordered_below(self.live@, self.sink_count as nat)
    }

    /// The registration indices of the live sinks, in registration order.
    pub closed spec fn live_view(self) -> Seq<usize> {
        self.live@
    }

    /// The number of sinks the run started with.
    pub closed spec fn sink_count_view(self) -> nat {
        self.sink_count as nat
    }

    /// Whether write failures only drop the failing sink.
    pub closed spec fn ignores_write_errors(self) -> bool {
        self.ignore_write_errors
    }

    /// Start a run over `sink_count` sinks: all of them are live.
    pub fn new(sink_count: usize, ignore_write_errors: bool) -> (r: FanOut)
        ensures
            r.live_view() == Seq::new(sink_count as nat, |i: int| i as usize),
            r.sink_count_view() == sink_count,
            r.ignores_write_errors() == ignore_write_errors,
    {
        let mut live: Vec<usize> = Vec::new();
        let mut i: usize = 0;
        while i < sink_count
            invariant
                i <= sink_count,
                live@ =~= Seq::new(i as nat, |k: int| k as usize),
            decreases sink_count - i,
        {
            live.push(i);
            i = i + 1;
        }
        FanOut { live, sink_count, ignore_write_errors }
    }

    /// The sinks that receive the next chunk (and, at the end of the input,
    /// the ones to flush), in registration order.
    pub fn live(&self) -> (r: &Vec<usize>)
        ensures
            r@ == self.live_view(),
            is_ordered_below(r@, self.sink_count_view()),
    {
        proof {
            use_type_invariant(self);
        }
        &self.live
    }

    /// Whether no sink is live, so the input is only drained.
    pub fn is_draining(&self) -> (r: bool)
        ensures
            r == (self.live_view().len() == 0),
    {
        self.live.len() == 0
    }

    /// Record the outcomes of offering one chunk to every live sink (one
    /// outcome per live sink, in the order of [`FanOut::live`]) and decide what
    /// the loop does next. The failing sinks leave the live set.
    pub fn record_chunk(&mut self, outcomes: &Vec<WriteOutcome>) -> (r: ChunkVerdict)
        requires
            outcomes@.len() == old(self).live_view().len(),
        ensures
            final(self).live_view() == survivors(old(self).live_view(), outcomes@),
            is_ordered_below(final(self).live_view(), final(self).sink_count_view()),
            final(self).sink_count_view() == old(self).sink_count_view(),
            final(self).ignores_write_errors() == old(self).ignores_write_errors(),
            r == verdict_spec(old(self).live_view(), outcomes@, old(self).ignores_write_errors()),
            r == ChunkVerdict::AllClosed ==> final(self).live_view().len() == 0,
            !(r is Halt) && final(self).live_view().len() == 0 ==> r == ChunkVerdict::AllClosed,
            r == ChunkVerdict::Continue ==> final(self).live_view().len() > 0,
    {
        proof {
            use_type_invariant(&*self);
        }
        let ghost live0 = self.live@;
        let n = self.live.len();
        let mut kept: Vec<usize> = Vec::new();
        let mut failed_at: Option<usize> = None;
        let mut i: usize = 0;
        while i < n
            invariant
                n == live0.len(),
                n == outcomes@.len(),
                i <= n,
                kept@ == survivors(live0.take(i as int), outcomes@.take(i as int)),
                match failed_at {
                    Some(k) => first_failed(outcomes@.take(i as int)) == Some(k as int),
                    None => first_failed(outcomes@.take(i as int)) is None,
                },
                live0 == self.live@,
            decreases n - i,
        {
            assert(live0.take(i + 1).drop_last() =~= live0.take(i as int));
            assert(outcomes@.take(i + 1).drop_last() =~= outcomes@.take(i as int));
            match outcomes[i] {
                WriteOutcome::Delivered => {
                    kept.push(self.live[i]);
                },
                WriteOutcome::Failed => {
                    if failed_at.is_none() {
                        failed_at = Some(i);
                    }
                },
            }
            i = i + 1;
        }
        assert(live0.take(n as int) =~= live0);
        assert(outcomes@.take(n as int) =~= outcomes@);
        proof {
            lemma_survivors_ordered(live0, outcomes@, self.sink_count as nat);
        }
        proof {
            lemma_first_failed_in_range(outcomes@);
        }
        let halted: Option<usize> = match failed_at {
            Some(k) => Some(self.live[k]),
            None => None,
        };
        self.live = kept;
        if !self.ignore_write_errors {
            if let Some(sink_index) = halted {
                return ChunkVerdict::Halt { sink_index };
            }
        }
        if self.live.len() == 0 {
            ChunkVerdict::AllClosed
        } else {
            ChunkVerdict::Continue
        }
    }
}

/// The first failure, when there is one, lies inside the outcomes and is a failure.
pub proof fn lemma_first_failed_in_range(outcomes: Seq<WriteOutcome>)
    ensures
        first_failed(outcomes) matches Some(k) ==> 0 <= k < outcomes.len() && outcomes[k]
            == WriteOutcome::Failed,
        first_failed(outcomes) is None ==> forall|i: int|
            0 <= i < outcomes.len() ==> outcomes[i] == WriteOutcome::Delivered,
    decreases outcomes.len(),
{
    if outcomes.len() > 0 {
        let init = outcomes.drop_last();
        lemma_first_failed_in_range(init);
        assert forall|i: int| 0 <= i < init.len() implies init[i] == outcomes[i] by {}
        if first_failed(outcomes) is None {
            assert forall|i: int| 0 <= i < outcomes.len() implies outcomes[i]
                == WriteOutcome::Delivered by {
                if i < init.len() {
                    assert(init[i] == outcomes[i]);
                }
            }
        }
    }
}

/// Survivors keep registration order, name only started sinks, and each one
/// was live before the chunk.
pub proof fn lemma_survivors_ordered(live: Seq<usize>, outcomes: Seq<WriteOutcome>, n: nat)
    requires
        is_ordered_below(live, n),
    ensures
        is_ordered_below(survivors(live, outcomes), n),
        forall|x: usize| #[trigger] survivors(live, outcomes).contains(x) ==> live.contains(x),
    decreases live.len(),
{
    if live.len() > 0 {
        let init = live.drop_last();
        let rest = survivors(init, outcomes.drop_last());
        lemma_survivors_ordered(init, outcomes.drop_last(), n);
        assert forall|x: usize| rest.contains(x) implies live.contains(x) && x < live.last() by {
            assert(init.contains(x));
            let k = choose|k: int| 0 <= k < init.len() && init[k] == x;
            assert(live[k] == x);
        }
        if outcomes.last() == WriteOutcome::Delivered {
            let s = rest.push(live.last());
            assert forall|i: int, j: int| 0 <= i < j < s.len() implies s[i] < s[j] by {
                if j == s.len() - 1 {
                    assert(rest.contains(s[i]));
                }
            }
            assert forall|x: usize| s.contains(x) implies live.contains(x) by {
                let k = choose|k: int| 0 <= k < s.len() && s[k] == x;
                if k < rest.len() {
                    assert(rest.contains(x));
                } else {
                    assert(live[live.len() - 1] == x);
                }
            }
        }
    }
}


/// Each survivor was live and delivered the chunk; with no sink live twice,
/// each live sink that delivered the chunk survives and none that failed does.
pub proof fn lemma_survivors_are_the_delivered(live: Seq<usize>, outcomes: Seq<WriteOutcome>)
    requires
        outcomes.len() == live.len(),
    ensures
        forall|x: usize| #[trigger]
            survivors(live, outcomes).contains(x) ==> exists|i: int|
                0 <= i < live.len() && live[i] == x && outcomes[i] == WriteOutcome::Delivered,
        live.no_duplicates() ==> forall|i: int|
            0 <= i < live.len() ==> (survivors(live, outcomes).contains(#[trigger] live[i])
                <==> outcomes[i] == WriteOutcome::Delivered),
    decreases live.len(),
{
    if live.len() > 0 {
        let init = live.drop_last();
        let oi = outcomes.drop_last();
        let rest = survivors(init, oi);
        let last = live.len() - 1;
        lemma_survivors_are_the_delivered(init, oi);
        assert forall|x: usize| #[trigger]
            survivors(live, outcomes).contains(x) implies exists|i: int|
                0 <= i < live.len() && live[i] == x && outcomes[i] == WriteOutcome::Delivered by {
            if rest.contains(x) {
                let i = choose|i: int|
                    0 <= i < init.len() && init[i] == x && oi[i] == WriteOutcome::Delivered;
                assert(live[i] == x && outcomes[i] == WriteOutcome::Delivered);
            } else {
                let s = rest.push(live.last());
                let k = choose|k: int| 0 <= k < s.len() && s[k] == x;
                assert(k == rest.len());
                assert(live[last] == x && outcomes[last] == WriteOutcome::Delivered);
            }
        }
        if live.no_duplicates() {
            assert(init.no_duplicates());
            assert forall|i: int| 0 <= i < live.len() implies (survivors(
                live,
                outcomes,
            ).contains(#[trigger] live[i]) <==> outcomes[i] == WriteOutcome::Delivered) by {
                if i < last {
                    assert(init[i] == live[i] && oi[i] == outcomes[i]);
                    if rest.contains(live[i]) {
                        assert(survivors(live, outcomes).contains(live[i])) by {
                            if outcomes.last() == WriteOutcome::Delivered {
                                let k = choose|k: int| 0 <= k < rest.len() && rest[k] == live[i];
                                assert(rest.push(live.last())[k] == live[i]);
                            }
                        }
                    }
                    if survivors(live, outcomes).contains(live[i]) && !rest.contains(live[i]) {
                        let k = choose|k: int|
                            0 <= k < survivors(live, outcomes).len() && survivors(
                                live,
                                outcomes,
                            )[k] == live[i];
                        assert(live[i] == live.last());
                        assert(false);
                    }
                } else {
                    if outcomes[i] == WriteOutcome::Delivered {
                        assert(rest.push(live.last())[rest.len() as int] == live[i]);
                    } else if rest.contains(live[i]) {
                        let j = choose|j: int|
                            0 <= j < init.len() && init[j] == live[i] && oi[j]
                                == WriteOutcome::Delivered;
                        assert(live[j] == live[i]);
                        assert(false);
                    }
                }
            }
        }
    }
}

/// The live set after a sequence of chunks, each with its outcomes.
pub open spec fn live_after(live: Seq<usize>, rounds: Seq<Seq<WriteOutcome>>) -> Seq<usize>
    decreases rounds.len(),
{
    if rounds.len() == 0 {
        live
    } else {
        survivors(live_after(live, rounds.drop_last()), rounds.last())
    }
}

/// Whether each round has one outcome per sink live at its start.
pub open spec fn rounds_fit(live: Seq<usize>, rounds: Seq<Seq<WriteOutcome>>) -> bool {
    forall|j: int|
        0 <= j < rounds.len() ==> (#[trigger] rounds[j]).len() == live_after(
            live,
            rounds.take(j),
        ).len()
}

/// A survivor of a chunk was live before it.
pub proof fn lemma_survivor_was_live(live: Seq<usize>, outcomes: Seq<WriteOutcome>, x: usize)
    requires
        survivors(live, outcomes).contains(x),
    ensures
        live.contains(x),
    decreases live.len(),
{
    if live.len() > 0 {
        let init = live.drop_last();
        let rest = survivors(init, outcomes.drop_last());
        if rest.contains(x) {
            lemma_survivor_was_live(init, outcomes.drop_last(), x);
            let k = choose|k: int| 0 <= k < init.len() && init[k] == x;
            assert(live[k] == x);
        } else {
            assert(live[live.len() - 1] == x);
        }
    }
}

/// A sink live after a run of chunks was live after every prefix of it.
pub proof fn lemma_live_after_prefix(
    live: Seq<usize>,
    rounds: Seq<Seq<WriteOutcome>>,
    x: usize,
    j: int,
)
    requires
        0 <= j <= rounds.len(),
        live_after(live, rounds).contains(x),
    ensures
        live_after(live, rounds.take(j)).contains(x),
    decreases rounds.len(),
{
    if j == rounds.len() {
        assert(rounds.take(j) =~= rounds);
    } else {
        let init = rounds.drop_last();
        lemma_survivor_was_live(live_after(live, init), rounds.last(), x);
        lemma_live_after_prefix(live, init, x, j);
        assert(init.take(j) =~= rounds.take(j));
    }
}

/// Whether sink `x` was live for round `j` and delivered that round's chunk.
pub open spec fn received_round(
    live: Seq<usize>,
    rounds: Seq<Seq<WriteOutcome>>,
    j: int,
    x: usize,
) -> bool {
    exists|i: int|
        0 <= i < rounds[j].len() && live_after(live, rounds.take(j))[i] == x && rounds[j][i]
            == WriteOutcome::Delivered
}

/// Pipeline safety: a sink that is still live after any number of chunks was
/// live for each of them and received each of them whole.
pub proof fn lemma_live_sink_received_every_chunk(
    live: Seq<usize>,
    rounds: Seq<Seq<WriteOutcome>>,
    x: usize,
)
    requires
        rounds_fit(live, rounds),
        live_after(live, rounds).contains(x),
    ensures
        forall|j: int| 0 <= j < rounds.len() ==> #[trigger] received_round(live, rounds, j, x),
{
    assert forall|j: int| 0 <= j < rounds.len() implies #[trigger] received_round(
        live,
        rounds,
        j,
        x,
    ) by {
        lemma_live_after_prefix(live, rounds, x, j + 1);
        let upto = rounds.take(j + 1);
        assert(upto.drop_last() =~= rounds.take(j));
        assert(upto.last() == rounds[j]);
        let before = live_after(live, rounds.take(j));
        assert(rounds[j].len() == before.len());
        lemma_survivors_are_the_delivered(before, rounds[j]);
        let i = choose|i: int|
            0 <= i < before.len() && before[i] == x && rounds[j][i] == WriteOutcome::Delivered;
        assert(0 <= i < rounds[j].len() && live_after(live, rounds.take(j))[i] == x && rounds[j][i]
            == WriteOutcome::Delivered);
    }
}

/// When write errors are ignored a chunk never ends the run.
pub proof fn lemma_ignored_errors_never_halt(live: Seq<usize>, outcomes: Seq<WriteOutcome>)
    ensures
        !(verdict_spec(live, outcomes, true) is Halt),
{
}

/// When write errors are not ignored, a chunk ends the run exactly when some
/// live sink failed it, and names the first failing one in registration order.
pub proof fn lemma_halt_names_first_failure(live: Seq<usize>, outcomes: Seq<WriteOutcome>)
    requires
        outcomes.len() == live.len(),
    ensures
        verdict_spec(live, outcomes, false) is Halt <==> exists|i: int|
            0 <= i < outcomes.len() && outcomes[i] == WriteOutcome::Failed,
        verdict_spec(live, outcomes, false) matches ChunkVerdict::Halt { sink_index } ==> exists|i: int|
            0 <= i < live.len() && live[i] == sink_index && outcomes[i] == WriteOutcome::Failed
                && forall|j: int| 0 <= j < i ==> outcomes[j] == WriteOutcome::Delivered,
    decreases outcomes.len(),
{
    lemma_first_failed_in_range(outcomes);
    if outcomes.len() > 0 {
        lemma_halt_names_first_failure(live.drop_last(), outcomes.drop_last());
        lemma_first_failed_in_range(outcomes.drop_last());
        let init = outcomes.drop_last();
        match first_failed(outcomes) {
            Some(k) => {
                if first_failed(init) is None {
                    assert forall|j: int| 0 <= j < k implies outcomes[j]
                        == WriteOutcome::Delivered by {
                        assert(init[j] == outcomes[j]);
                    }
                } else {
                    let i = choose|i: int|
                        0 <= i < init.len() && live.drop_last()[i] == live[first_failed(init)->0]
                            && init[i] == WriteOutcome::Failed && forall|j: int|
                            0 <= j < i ==> init[j] == WriteOutcome::Delivered;
                    assert(live.drop_last()[i] == live[i]);
                    assert forall|j: int| 0 <= j < i implies outcomes[j]
                        == WriteOutcome::Delivered by {
                        assert(init[j] == outcomes[j]);
                    }
                    assert(outcomes[i] == init[i]);
                }
            },
            None => {},
        }
    }
}


/// No sink survives a chunk exactly when every live sink failed it.
pub proof fn lemma_no_survivor_iff_all_failed(live: Seq<usize>, outcomes: Seq<WriteOutcome>)
    requires
        outcomes.len() == live.len(),
    ensures
        survivors(live, outcomes).len() == 0 <==> forall|i: int|
            0 <= i < outcomes.len() ==> outcomes[i] == WriteOutcome::Failed,
    decreases live.len(),
{
    if live.len() > 0 {
        let oi = outcomes.drop_last();
        lemma_no_survivor_iff_all_failed(live.drop_last(), oi);
        if forall|i: int| 0 <= i < outcomes.len() ==> outcomes[i] == WriteOutcome::Failed {
            assert forall|i: int| 0 <= i < oi.len() implies oi[i] == WriteOutcome::Failed by {
                assert(oi[i] == outcomes[i]);
            }
            assert(outcomes[outcomes.len() - 1] == WriteOutcome::Failed);
        }
        if survivors(live, outcomes).len() == 0 {
            assert forall|i: int| 0 <= i < outcomes.len() implies outcomes[i]
                == WriteOutcome::Failed by {
                if i < oi.len() {
                    assert(oi[i] == outcomes[i]);
                }
            }
        }
    }
}

/// The loop switches to draining only when every live sink failed the chunk
/// (and the run is not halted), and goes on exactly when some sink took the
/// chunk and nothing halted the run.
pub proof fn lemma_verdict_by_outcomes(
    live: Seq<usize>,
    outcomes: Seq<WriteOutcome>,
    ignore_write_errors: bool,
)
    requires
        outcomes.len() == live.len(),
    ensures
        verdict_spec(live, outcomes, ignore_write_errors) == ChunkVerdict::AllClosed <==> (forall|
            i: int,
        | 0 <= i < outcomes.len() ==> outcomes[i] == WriteOutcome::Failed) && (ignore_write_errors
            || live.len() == 0),
        verdict_spec(live, outcomes, ignore_write_errors) == ChunkVerdict::Continue <==> (exists|
            i: int,
        | 0 <= i < outcomes.len() && outcomes[i] == WriteOutcome::Delivered) && (
        ignore_write_errors || forall|i: int|
            0 <= i < outcomes.len() ==> outcomes[i] == WriteOutcome::Delivered),
{
    lemma_no_survivor_iff_all_failed(live, outcomes);
    lemma_first_failed_in_range(outcomes);
    if live.len() > 0 && forall|i: int|
        0 <= i < outcomes.len() ==> outcomes[i] == WriteOutcome::Failed {
        assert(outcomes[0] == WriteOutcome::Failed);
    }
    if exists|i: int| 0 <= i < outcomes.len() && outcomes[i] == WriteOutcome::Delivered {
        let k = choose|i: int| 0 <= i < outcomes.len() && outcomes[i] == WriteOutcome::Delivered;
        assert(outcomes[k] != WriteOutcome::Failed);
    }
    if !(exists|i: int| 0 <= i < outcomes.len() && outcomes[i] == WriteOutcome::Delivered) {
        assert forall|i: int| 0 <= i < outcomes.len() implies outcomes[i]
            == WriteOutcome::Failed by {
            if outcomes[i] != WriteOutcome::Failed {
                assert(outcomes[i] == WriteOutcome::Delivered);
            }
        }
    }
}

} // verus!
