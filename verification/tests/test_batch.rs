use pts_loader::batch::{
    buffer_capacity, find_first_failure, load_outcomes, pool_size, report_due, Loader, Step,
    BUFFER_LIMIT,
};
use pts_loader::load::{Field, LoadError};
use pts_loader::{PtsPoint, Vec3};

fn record(n: i32) -> PtsPoint {
    PtsPoint {
        point: Vec3::<u32> { x: 1, y: 2, z: 3 },
        intensity: n,
        rgb: Vec3::<u8> { x: 0, y: 0, z: 0 },
    }
}

fn missing(line: usize) -> LoadError {
    LoadError::MissingField {
        line,
        field: Field::G,
    }
}

#[test]
fn buffer_is_bounded_by_document_and_limit() {
    assert_eq!(0, buffer_capacity(0));
    assert_eq!(298, buffer_capacity(298));
    assert_eq!(8388607, buffer_capacity(8388607));
    assert_eq!(8388608, buffer_capacity(8388608));
    assert_eq!(BUFFER_LIMIT, buffer_capacity(u64::MAX));
}

#[test]
fn one_slot_for_fifteen_bytes() {
    assert_eq!(1, pool_size(0));
    assert_eq!(1, pool_size(14));
    assert_eq!(1, pool_size(15));
    assert_eq!(1, pool_size(29));
    assert_eq!(2, pool_size(30));
    assert_eq!(19, pool_size(298));
    assert_eq!(559240, pool_size(8388608));
}

#[test]
fn progress_is_due_every_half_million_lines() {
    assert!(report_due(0));
    assert!(!report_due(1));
    assert!(!report_due(499_999));
    assert!(report_due(500_000));
    assert!(!report_due(500_001));
    assert!(report_due(1_500_000));
}

#[test]
fn first_failure_by_position() {
    assert_eq!(None, find_first_failure(&vec![]));
    assert_eq!(None, find_first_failure(&vec![Ok(record(1)), Ok(record(2))]));
    assert_eq!(
        Some(1),
        find_first_failure(&vec![
            Ok(record(1)),
            Err(missing(3)),
            Ok(record(2)),
            Err(missing(5))
        ])
    );
}

#[test]
fn batch_closes_when_slots_are_full() {
    let mut loader = Loader::new(5, 45);
    assert_eq!(3, loader.slots());
    assert_eq!(Step::ReadLine { slot: 0 }, loader.next_step());
    loader.line_read(5);
    assert_eq!(Step::ReadLine { slot: 1 }, loader.next_step());
    loader.line_read(5);
    assert_eq!(Step::ReadLine { slot: 2 }, loader.next_step());
    loader.line_read(5);
    assert_eq!(Step::ParseBatch { filled: 3 }, loader.next_step());
    assert!(!loader.is_over());
    loader.batch_parsed(vec![Ok(record(1)), Ok(record(2)), Ok(record(3))]);
    assert_eq!(3, loader.gathered());
    assert_eq!(Step::ReadLine { slot: 0 }, loader.next_step());
}

#[test]
fn batch_closes_when_bytes_reach_capacity() {
    let mut loader = Loader::new(5, 45);
    loader.line_read(20);
    assert_eq!(Step::ReadLine { slot: 1 }, loader.next_step());
    loader.line_read(25);
    assert_eq!(Step::ParseBatch { filled: 2 }, loader.next_step());
    loader.batch_parsed(vec![Ok(record(1)), Ok(record(2))]);
    assert_eq!(Step::ReadLine { slot: 0 }, loader.next_step());
    loader.line_read(44);
    assert_eq!(Step::ReadLine { slot: 1 }, loader.next_step());
    loader.line_read(usize::MAX);
    assert_eq!(Step::ParseBatch { filled: 2 }, loader.next_step());
}

#[test]
fn batch_closes_at_end_of_input() {
    let mut loader = Loader::new(2, 450);
    loader.line_read(10);
    loader.line_read(10);
    assert_eq!(Step::ReadLine { slot: 2 }, loader.next_step());
    loader.line_read(0);
    assert_eq!(Step::ParseBatch { filled: 2 }, loader.next_step());
    loader.batch_parsed(vec![Ok(record(1)), Ok(record(2))]);
    assert_eq!(Step::Finish, loader.next_step());
    assert!(loader.is_over());
    assert_eq!(Ok(vec![record(1), record(2)]), loader.finish());
}

#[test]
fn batch_that_reaches_the_count_is_taken_whole() {
    let mut loader = Loader::new(1, 450);
    loader.line_read(10);
    loader.line_read(10);
    loader.line_read(0);
    loader.batch_parsed(vec![Ok(record(1)), Ok(record(2))]);
    assert_eq!(Ok(vec![record(1), record(2)]), loader.finish());
}

#[test]
fn failure_gives_up_earlier_batches() {
    let mut loader = Loader::new(4, 30);
    loader.line_read(1);
    loader.line_read(1);
    loader.batch_parsed(vec![Ok(record(1)), Ok(record(2))]);
    assert_eq!(2, loader.gathered());
    loader.line_read(1);
    loader.line_read(1);
    loader.batch_parsed(vec![Err(missing(4)), Err(missing(5))]);
    assert_eq!(0, loader.gathered());
    assert_eq!(Step::Finish, loader.next_step());
    assert_eq!(Err(missing(4)), loader.finish());
}

#[test]
fn input_that_ends_early_fails() {
    let mut loader = Loader::new(4, 30);
    loader.line_read(1);
    loader.line_read(0);
    assert_eq!(Step::ParseBatch { filled: 1 }, loader.next_step());
    loader.batch_parsed(vec![Ok(record(1))]);
    assert_eq!(
        Err(LoadError::Truncated {
            declared: 4,
            found: 1
        }),
        loader.finish()
    );
}

#[test]
fn nothing_declared_is_over_at_once() {
    let loader = Loader::new(0, 30);
    assert_eq!(Step::Finish, loader.next_step());
    assert_eq!(Ok(Vec::new()), loader.finish());
}

#[test]
fn outcomes_in_memory_keep_their_order() {
    let sizes = vec![14; 10];
    let results: Vec<Result<PtsPoint, LoadError>> = (0..10).map(|i| Ok(record(i))).collect();
    let expect: Vec<PtsPoint> = (0..10).map(record).collect();
    assert_eq!(Ok(expect), load_outcomes(10, 60, &sizes, &results));
}

#[test]
fn outcomes_in_memory_fail_with_the_first_failure() {
    let sizes = vec![14; 6];
    let results = vec![
        Ok(record(0)),
        Ok(record(1)),
        Ok(record(2)),
        Err(missing(5)),
        Ok(record(4)),
        Err(missing(7)),
    ];
    assert_eq!(Err(missing(5)), load_outcomes(6, 30, &sizes, &results));
}

#[test]
fn outcomes_in_memory_fewer_than_declared() {
    let sizes = vec![14; 2];
    let results = vec![Ok(record(0)), Ok(record(1))];
    assert_eq!(
        Err(LoadError::Truncated {
            declared: 3,
            found: 2
        }),
        load_outcomes(3, 30, &sizes, &results)
    );
}

#[test]
fn lines_past_the_batch_that_reaches_the_count_are_not_read() {
    let sizes = vec![14; 5];
    let results = vec![
        Ok(record(0)),
        Ok(record(1)),
        Ok(record(2)),
        Ok(record(3)),
        Err(missing(6)),
    ];
    assert_eq!(
        Ok(vec![record(0), record(1), record(2), record(3)]),
        load_outcomes(3, 30, &sizes, &results)
    );
}

#[test]
fn duplicate_is_equal() {
    let e = LoadError::NumericParse {
        line: 3,
        field: Field::Z,
        token: String::from("1,5"),
    };
    assert_eq!(e, e.duplicate());
}

#[test]
fn lines_are_numbered_from_the_count_line() {
    let mut loader = Loader::new(5, 30);
    assert_eq!(2, loader.line_number(0));
    assert_eq!(3, loader.line_number(1));
    loader.line_read(1);
    loader.line_read(1);
    loader.batch_parsed(vec![Ok(record(1)), Ok(record(2))]);
    assert_eq!(4, loader.line_number(0));
    assert_eq!(5, loader.line_number(1));
    assert_eq!(usize::MAX, loader.line_number(usize::MAX));
    assert_eq!(usize::MAX, loader.line_number(usize::MAX - 3));
    assert_eq!(usize::MAX, loader.line_number(usize::MAX - 4));
    assert_eq!(usize::MAX - 1, loader.line_number(usize::MAX - 5));
}
