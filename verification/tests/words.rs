use modbus_client::words::{compose32, compose64, split32, split64, swap_bytes};

#[test]
fn swap_bytes_matches_std() {
    for x in [0u16, 1, 0x00FF, 0xFF00, 0x1234, 0xABCD, u16::MAX] {
        assert_eq!(swap_bytes(x), x.swap_bytes());
    }
}

#[test]
fn compose_and_split_words() {
    assert_eq!(compose32(0x5678, 0x1234), 0x1234_5678);
    assert_eq!(split32(0x1234_5678), (0x5678, 0x1234));
    assert_eq!(compose64(4, 3, 2, 1), 0x0001_0002_0003_0004);
    assert_eq!(split64(0x0001_0002_0003_0004), (4, 3, 2, 1));
    assert_eq!(split64(u64::MAX), (0xFFFF, 0xFFFF, 0xFFFF, 0xFFFF));
}
