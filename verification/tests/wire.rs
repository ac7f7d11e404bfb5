use audiostream::wire::{announces_a_buffer, length_prefix, prefix_value, PREFIX_LEN};

#[test]
fn a_prefix_is_little_endian() {
    assert_eq!(length_prefix(0), vec![0, 0, 0, 0, 0, 0, 0, 0]);
    assert_eq!(length_prefix(258), vec![2, 1, 0, 0, 0, 0, 0, 0]);
    assert_eq!(length_prefix(11520), vec![0, 45, 0, 0, 0, 0, 0, 0]);
    assert_eq!(length_prefix(0x0102_0304_0506_0708), vec![8, 7, 6, 5, 4, 3, 2, 1]);
}

#[test]
fn a_prefix_is_read_back() {
    for len in [0usize, 1, 255, 256, 65535, 65536, 11520, usize::MAX] {
        let bytes = length_prefix(len);
        assert_eq!(bytes.len(), PREFIX_LEN);
        assert_eq!(prefix_value(&bytes), len as u64);
    }
}

#[test]
fn all_eight_bytes_count() {
    assert_eq!(prefix_value(&[0, 0, 0, 0, 0, 0, 0, 1]), 1 << 56);
    assert_eq!(prefix_value(&[255; 8]), u64::MAX);
    assert_eq!(prefix_value(&[1, 2, 3, 4, 5, 6, 7, 8]), 0x0807_0605_0403_0201);
}

#[test]
fn a_prefix_agrees_with_the_standard_library() {
    for len in [3usize, 1000, 1 << 33] {
        assert_eq!(length_prefix(len), (len as u64).to_le_bytes().to_vec());
    }
}

#[test]
fn no_buffer_is_longer_than_an_allocation() {
    assert!(announces_a_buffer(&length_prefix(0)));
    assert!(announces_a_buffer(&length_prefix(isize::MAX as usize)));
    assert!(!announces_a_buffer(&length_prefix(isize::MAX as usize + 1)));
    assert!(!announces_a_buffer(&length_prefix(usize::MAX)));
}
