use peer_database::clock::{now_as_millis, timestamp};
use peer_database::error::CommunicationError;

#[test]
fn now_is_after_2020() {
    assert!(now_as_millis().unwrap() > 1_577_836_800_000);
}

#[test]
fn timestamps_keep_the_low_bits() {
    assert_eq!(timestamp(Some(17)), Ok(17));
    assert_eq!(timestamp(Some((1u128 << 64) + 5)), Ok(5));
    assert_eq!(timestamp(None), Err(CommunicationError::TimeError));
}
