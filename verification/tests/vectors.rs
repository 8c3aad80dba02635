use memcontext::vector::{bits_to_blob, blob_to_bits, vector_weights, VECTOR_DIMENSION};

#[test]
fn weights_count_characters_and_pairs() {
    let w = vector_weights("Ab");
    assert_eq!(w.len(), VECTOR_DIMENSION);
    // 'a' = 97, 'b' = 98, pair 97 + 98 = 195
    assert_eq!(w[97], 2);
    assert_eq!(w[98], 2);
    assert_eq!(w[195], 1);
    assert_eq!(w.iter().sum::<u128>(), 5);
    let w = vector_weights("aa");
    assert_eq!(w[97], 4);
    assert_eq!(w[194], 1);
    let w = vector_weights("");
    assert!(w.iter().all(|&x| x == 0));
    // U+0301 has no case; 769 = 2 * 384 + 1 falls in slot 1
    let c = char::from_u32(769).unwrap();
    let w = vector_weights(&c.to_string());
    assert_eq!(w[1], 2);
}

#[test]
fn blob_round_trip_and_layout() {
    let bits = vec![0x0403_0201u32, 0xdead_beef];
    assert_eq!(bits_to_blob(&bits), vec![1, 2, 3, 4, 0xef, 0xbe, 0xad, 0xde]);
    let full: Vec<u32> = (0..VECTOR_DIMENSION as u32).map(|i| i.wrapping_mul(2654435761)).collect();
    assert_eq!(blob_to_bits(&bits_to_blob(&full)), full);
    let v = 0.75f32;
    assert_eq!(bits_to_blob(&vec![v.to_bits()]), v.to_le_bytes().to_vec());
}

#[test]
fn short_blobs_leave_zeros() {
    let got = blob_to_bits(&vec![1, 0, 0, 0, 9, 9]);
    assert_eq!(got.len(), VECTOR_DIMENSION);
    assert_eq!(got[0], 1);
    assert_eq!(got[1], 0);
    assert!(got[2..].iter().all(|&x| x == 0));
    assert!(blob_to_bits(&vec![]).iter().all(|&x| x == 0));
}
