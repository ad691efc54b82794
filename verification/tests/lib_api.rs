use rusty_pee::fanout::{ChunkVerdict, WriteOutcome};
use rusty_pee::{CompatibilityMode, Error, PeeBuilder};

#[test]
fn builder_default_succeeds() {
    let _ = PeeBuilder::<Vec<u8>>::new().build().expect("default builder ok");
}

#[test]
fn builder_rejects_strict_plus_capture() {
    let result = PeeBuilder::<Vec<u8>>::new()
        .compat(CompatibilityMode::Strict)
        .capture(true)
        .build();
    assert!(
        matches!(result, Err(Error::CompatibilityViolation(_))),
        "got {result:?}"
    );
}

#[test]
fn builder_strict_without_capture_succeeds() {
    let _ = PeeBuilder::<Vec<u8>>::new()
        .compat(CompatibilityMode::Strict)
        .capture(false)
        .build()
        .expect("Strict + capture(false) should succeed");
}

#[test]
fn compatibility_mode_default_is_default() {
    assert_eq!(CompatibilityMode::default(), CompatibilityMode::Default);
}

#[test]
fn builder_error_message() {
    match PeeBuilder::<Vec<u8>>::default()
        .capture(true)
        .compat(CompatibilityMode::Strict)
        .build()
    {
        Err(Error::CompatibilityViolation(m)) => {
            assert_eq!(m, "--capture not honored in Strict mode")
        }
        other => panic!("unexpected {other:?}"),
    }
}

#[test]
fn built_pee_keeps_configuration_and_sinks() {
    let mut pee = PeeBuilder::new()
        .sink(vec![1u8])
        .sink(vec![2u8])
        .capture(true)
        .ignore_write_errors(false)
        .build()
        .expect("Default + capture is fine");
    assert_eq!(pee.compat(), CompatibilityMode::Default);
    assert!(pee.capture());
    assert!(!pee.ignore_write_errors());
    assert_eq!(pee.sink_count(), 2);
    assert_eq!(pee.sinks_mut()[1], vec![2u8]);
    pee.sinks_mut()[0].push(9);
    assert_eq!(pee.sinks_mut()[0], vec![1u8, 9]);
}

#[test]
fn start_fanout_covers_every_sink_in_order() {
    let pee = PeeBuilder::new()
        .sink(Vec::<u8>::new())
        .sink(Vec::<u8>::new())
        .sink(Vec::<u8>::new())
        .build()
        .expect("builder ok");
    let mut run = pee.start_fanout();
    assert_eq!(run.live(), &vec![0, 1, 2]);
    let verdict = run.record_chunk(&vec![
        WriteOutcome::Delivered,
        WriteOutcome::Failed,
        WriteOutcome::Delivered,
    ]);
    assert_eq!(verdict, ChunkVerdict::Continue);
    assert_eq!(run.live(), &vec![0, 2]);
}

#[test]
fn strict_pee_without_sinks_starts_draining() {
    let pee = PeeBuilder::<Vec<u8>>::new()
        .compat(CompatibilityMode::Strict)
        .build()
        .expect("builder ok");
    assert_eq!(pee.compat(), CompatibilityMode::Strict);
    assert!(pee.start_fanout().is_draining());
}
