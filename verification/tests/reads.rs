use bedrock_repacker::reading::{Fill, FillStep, ReadOutcome};

#[test]
fn short_reads_fill_the_buffer() {
    let mut fill = Fill::new(10, 100);
    assert_eq!(fill.first_step(), FillStep::ReadOn);
    assert_eq!(fill.read_done(ReadOutcome::Read { bytes: 4 }), FillStep::ReadOn);
    assert_eq!(fill.read_done(ReadOutcome::Interrupted), FillStep::ReadOn);
    assert_eq!(fill, Fill { len: 10, filled: 4, offset: 104 });
    assert_eq!(fill.read_done(ReadOutcome::Read { bytes: 6 }), FillStep::Filled);
    assert_eq!(fill, Fill { len: 10, filled: 10, offset: 110 });
}

#[test]
fn empty_buffer_needs_no_read() {
    assert_eq!(Fill::new(0, 5).first_step(), FillStep::Filled);
}

#[test]
fn end_and_failure_are_told_apart() {
    let mut fill = Fill::new(3, 0);
    assert_eq!(fill.read_done(ReadOutcome::Failed), FillStep::Failed);
    assert_eq!(fill.read_done(ReadOutcome::Read { bytes: 0 }), FillStep::UnexpectedEnd);
    assert_eq!(fill, Fill::new(3, 0));
}

#[test]
fn impossible_reads_are_not_accepted() {
    let fill = Fill { len: 10, filled: 4, offset: u64::MAX - 5 };
    assert!(fill.accepts(ReadOutcome::Read { bytes: 5 }));
    assert!(!fill.accepts(ReadOutcome::Read { bytes: 6 }));
    assert!(!Fill::new(2, 0).accepts(ReadOutcome::Read { bytes: 3 }));
    assert!(fill.accepts(ReadOutcome::Interrupted));
    assert!(fill.accepts(ReadOutcome::Failed));
}
