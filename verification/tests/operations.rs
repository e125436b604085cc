use waddle::operations::{cancellable, lane, lane_permits, Cancellation, Kind, Lane};

#[test]
fn latest_work_is_cancelled_by_newer_work_of_its_kind() {
    let job = Cancellation::begin(Kind::Navigation, 4);
    assert_eq!(job.generation, Some(5));
    assert!(!job.is_cancelled(5));
    assert!(job.is_cancelled(6));

    let mutation = Cancellation::begin(Kind::Mutation, 4);
    assert!(!mutation.is_cancelled(99));
    assert_eq!(Cancellation::begin(Kind::Search, u64::MAX).generation, Some(0));
}

#[test]
fn commands_and_mutations_share_one_serial_lane() {
    assert_eq!(lane(Kind::Command), Lane::Mutation);
    assert_eq!(lane(Kind::Mutation), Lane::Mutation);
    assert_eq!(lane_permits(Lane::Mutation), 1);
    assert_eq!(lane(Kind::Details), Lane::Background);
    assert_eq!(lane(Kind::Navigation), Lane::Navigation);
    assert!(cancellable(Kind::Details));
    assert!(!cancellable(Kind::Background));
}
