use netlabs::checksum::{check, checksum};

fn test_data() -> [u8; 9] {
    [0x12, 0x23, 0x34, 0x45, 0x56, 0x67, 0x78, 0x89, 0x90]
}

#[test]
fn test_empty_data() {
    let data: Vec<u8> = vec![];
    let sum = checksum(&data);
    assert!(sum == 0xFFFF, "Checksum of empty data should be 0xFFFF");
    assert!(check(&data, sum), "Should work with empty data");
}

#[test]
fn test_valid_data_even_length() {
    let all = test_data();
    let data = &all[..8];
    let sum = checksum(&data);
    assert!(check(&data, sum), "Valid checksum should return true");
}

#[test]
fn test_valid_data_odd_length() {
    let all = test_data();
    let data = &all[..9];
    let sum = checksum(&data);
    assert!(
        check(&data, sum),
        "Should handle odd number of bytes correctly"
    );
}

#[test]
fn test_data_corruption() {
    let mut data = test_data();
    let sum = checksum(&data);

    data[0] ^= 0x01;

    assert!(!check(&data, sum), "Should fail if data was modified");
}

#[test]
fn test_wrong_checksum() {
    let data = test_data();
    let correct_sum = checksum(&data);
    let wrong_sum = correct_sum.wrapping_add(1);

    assert!(
        !check(&data, wrong_sum),
        "Should fail if the checksum is wrong"
    );
}

#[test]
fn test_large_data_range() {
    let data = vec![0xAB; 10_000_000];
    let sum = checksum(&data);
    assert!(check(&data, sum), "Should work with large data arrays");
}

#[test]
fn checksum_exact_values() {
    let data = test_data();
    assert_eq!(checksum(&data), 0x5aa6);
    assert_eq!(checksum(&data[..8]), 0xeaa6);
}

#[test]
fn odd_length_pads_last_byte_with_zero() {
    assert_eq!(checksum(&[0x12, 0x34, 0x56]), checksum(&[0x12, 0x34, 0x56, 0x00]));
}

#[test]
fn single_bit_flip_is_detected_everywhere() {
    let data = test_data();
    let sum = checksum(&data);
    for i in 0..data.len() {
        for bit in 0..8 {
            let mut d = data;
            d[i] ^= 1 << bit;
            assert!(!check(&d, sum), "flip of bit {} in byte {} not detected", bit, i);
        }
    }
}
