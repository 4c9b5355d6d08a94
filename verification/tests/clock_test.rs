use swiftfind_core::clock::{epoch_secs_from, now_epoch_secs};

#[test]
fn epoch_secs_take_whole_seconds_after_the_epoch() {
    assert_eq!(epoch_secs_from(Some(1_700_000_000)), 1_700_000_000);
    assert_eq!(epoch_secs_from(Some(0)), 0);
}

#[test]
fn epoch_secs_are_zero_before_the_epoch() {
    assert_eq!(epoch_secs_from(None), 0);
}

#[test]
fn epoch_secs_wrap_as_a_cast_does() {
    assert_eq!(epoch_secs_from(Some(u64::MAX)), -1);
}

#[test]
fn clock_reads_after_the_epoch() {
    assert!(now_epoch_secs() > 0);
}
