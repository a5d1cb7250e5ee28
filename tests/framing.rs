use radar_link::{decode_length, encode_frame, encode_length, PREFIX_LEN};

#[test]
fn length_prefix_is_big_endian() {
    assert_eq!(encode_length(258), vec![0, 0, 0, 0, 0, 0, 1, 2]);
    assert_eq!(encode_length(0), vec![0; 8]);
    assert_eq!(encode_length(u64::MAX), vec![255; 8]);
}

#[test]
fn length_prefix_round_trips() {
    for n in [0u64, 1, 255, 256, 65_537, 1 << 40, u64::MAX] {
        assert_eq!(decode_length(&encode_length(n)), Some(n));
        assert_eq!(encode_length(n), n.to_be_bytes().to_vec());
    }
}

#[test]
fn short_prefix_is_refused() {
    assert_eq!(decode_length(&[0, 0, 0, 0, 0, 0, 1]), None);
    assert_eq!(decode_length(&[]), None);
}

#[test]
fn decode_reads_only_the_prefix() {
    assert_eq!(decode_length(&[0, 0, 0, 0, 0, 0, 0, 5, 9, 9, 9]), Some(5));
}

#[test]
fn frame_is_prefix_then_payload() {
    let frame = encode_frame(&[7, 8, 9]);
    assert_eq!(frame.len(), PREFIX_LEN + 3);
    assert_eq!(frame, vec![0, 0, 0, 0, 0, 0, 0, 3, 7, 8, 9]);
    assert_eq!(decode_length(&frame), Some(3));
    assert_eq!(encode_frame(&[]), vec![0; 8]);
}
