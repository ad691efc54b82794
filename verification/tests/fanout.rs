use rusty_pee::fanout::{ChunkVerdict, FanOut, WriteOutcome};

use WriteOutcome::{Delivered, Failed};

#[test]
fn zero_sinks_only_drain() {
    let run = FanOut::new(0, true);
    assert!(run.is_draining());
    assert!(run.live().is_empty());
}

#[test]
fn broken_sink_is_dropped_and_survivors_keep_order() {
    let mut run = FanOut::new(4, true);
    assert_eq!(run.record_chunk(&vec![Delivered, Failed, Delivered, Delivered]), ChunkVerdict::Continue);
    assert_eq!(run.live(), &vec![0, 2, 3]);
    assert_eq!(run.record_chunk(&vec![Delivered, Delivered, Failed]), ChunkVerdict::Continue);
    assert_eq!(run.live(), &vec![0, 2]);
}

#[test]
fn all_sinks_closed_switches_to_draining() {
    let mut run = FanOut::new(2, true);
    assert_eq!(run.record_chunk(&vec![Failed, Failed]), ChunkVerdict::AllClosed);
    assert!(run.is_draining());
}

#[test]
fn ignored_errors_never_halt() {
    let mut run = FanOut::new(3, true);
    assert_eq!(run.record_chunk(&vec![Failed, Delivered, Failed]), ChunkVerdict::Continue);
    assert_eq!(run.live(), &vec![1]);
}

#[test]
fn first_failure_halts_when_errors_not_ignored() {
    let mut run = FanOut::new(4, false);
    assert_eq!(run.record_chunk(&vec![Delivered, Delivered, Delivered, Delivered]), ChunkVerdict::Continue);
    assert_eq!(
        run.record_chunk(&vec![Delivered, Failed, Delivered, Failed]),
        ChunkVerdict::Halt { sink_index: 1 }
    );
    assert_eq!(run.live(), &vec![0, 2]);
}

#[test]
fn halt_names_registration_index_after_earlier_drops() {
    let mut run = FanOut::new(3, true);
    run.record_chunk(&vec![Failed, Delivered, Delivered]);
    let mut strict_run = FanOut::new(3, false);
    assert_eq!(
        strict_run.record_chunk(&vec![Delivered, Delivered, Failed]),
        ChunkVerdict::Halt { sink_index: 2 }
    );
    assert_eq!(run.live(), &vec![1, 2]);
}

#[test]
fn sink_live_at_end_received_every_chunk() {
    let mut run = FanOut::new(3, true);
    let rounds = vec![
        vec![Delivered, Delivered, Failed],
        vec![Failed, Delivered],
        vec![Delivered],
    ];
    let mut delivered_to_1 = 0;
    for outcomes in &rounds {
        let pos = run.live().iter().position(|s| *s == 1).expect("sink 1 live");
        assert_eq!(outcomes[pos], Delivered);
        delivered_to_1 += 1;
        run.record_chunk(outcomes);
    }
    assert_eq!(run.live(), &vec![1]);
    assert_eq!(delivered_to_1, rounds.len());
}
