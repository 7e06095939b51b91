use goonj::ambisonics::{hoa_accepts, hoa_channel_count, hoa_encoded_channels};

#[test]
fn hoa_channel_counts() {
    assert_eq!(hoa_channel_count(0), 1);
    assert_eq!(hoa_channel_count(1), 4);
    assert_eq!(hoa_channel_count(2), 9);
    assert_eq!(hoa_channel_count(3), 16);
    assert_eq!(hoa_channel_count(4), 25);
}

#[test]
fn hoa_encoded_channels_capped_at_sixteen() {
    assert_eq!(hoa_encoded_channels(1), 4);
    assert_eq!(hoa_encoded_channels(3), 16);
    assert_eq!(hoa_encoded_channels(5), 16);
}

#[test]
fn hoa_accepts_in_range_only() {
    assert!(hoa_accepts(1, 0, 100, 4));
    assert!(!hoa_accepts(1, 100, 100, 4));
    assert!(!hoa_accepts(3, 0, 100, 9));
    assert!(hoa_accepts(3, 99, 100, 16));
}
