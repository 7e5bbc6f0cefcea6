use parity_scale_codec::{Compact, Decode, Encode};
use starknet_api::codec::CodecError;
use starknet_api::compact::{compact_bytes, decode_uint};

const BOUNDARIES: [u64; 16] = [
    0,
    1,
    63,
    64,
    16383,
    16384,
    (1 << 30) - 1,
    1 << 30,
    u32::MAX as u64,
    1 << 32,
    (1 << 40) - 1,
    1 << 40,
    1 << 48,
    (1 << 56) - 1,
    1 << 56,
    u64::MAX,
];

#[test]
fn compact_round_trip_at_the_boundaries() {
    for n in BOUNDARIES {
        let bytes = compact_bytes(n);
        assert_eq!(decode_uint(&bytes, 0), Ok((n, bytes.len())));
    }
}

#[test]
fn compact_chooses_the_least_width() {
    assert_eq!(compact_bytes(0), vec![0]);
    assert_eq!(compact_bytes(63), vec![0xfc]);
    assert_eq!(compact_bytes(64), vec![0x01, 0x01]);
    assert_eq!(compact_bytes(16383), vec![0xfd, 0xff]);
    assert_eq!(compact_bytes(16384), vec![0x02, 0x00, 0x01, 0x00]);
    assert_eq!(compact_bytes((1 << 30) - 1), vec![0xfe, 0xff, 0xff, 0xff]);
    assert_eq!(compact_bytes(1 << 30), vec![0x03, 0x00, 0x00, 0x00, 0x40]);
    assert_eq!(compact_bytes(1 << 32), vec![0x07, 0x00, 0x00, 0x00, 0x00, 0x01]);
    assert_eq!(compact_bytes(u64::MAX), vec![0x13, 0xff, 0xff, 0xff, 0xff, 0xff, 0xff, 0xff, 0xff]);
}

#[test]
fn compact_bytes_are_those_of_the_scale_codec() {
    for n in BOUNDARIES {
        assert_eq!(compact_bytes(n), Compact(n).encode());
        let bytes = Compact(n).encode();
        assert_eq!(decode_uint(&bytes, 0), Ok((n, bytes.len())));
    }
    for n in 0..70000u64 {
        assert_eq!(compact_bytes(n), Compact(n).encode());
    }
}

#[test]
fn compact_decoding_refuses_what_the_scale_codec_refuses() {
    let inputs: Vec<Vec<u8>> = vec![
        vec![],
        vec![0x01],
        vec![0x01, 0x00],
        vec![0xfd, 0x00],
        vec![0x02, 0x00, 0x00],
        vec![0x02, 0x00, 0x00, 0x00],
        vec![0xfe, 0xff, 0x00, 0x00],
        vec![0x03, 0xff, 0xff, 0xff, 0x3f],
        vec![0x03, 0x00, 0x00, 0x00],
        vec![0x07, 0xff, 0xff, 0xff, 0xff, 0x00],
        vec![0x13, 0xff, 0xff, 0xff, 0xff, 0xff, 0xff, 0xff, 0x00],
        vec![0x17, 0xff, 0xff, 0xff, 0xff, 0xff, 0xff, 0xff, 0xff, 0x01],
        vec![0xff, 0x00],
    ];
    for input in inputs {
        assert!(decode_uint(&input, 0).is_err());
        assert!(Compact::<u64>::decode(&mut &input[..]).is_err());
    }
}

#[test]
fn compact_decoding_names_the_failure() {
    assert_eq!(decode_uint(&[], 0), Err(CodecError::Truncated));
    assert_eq!(decode_uint(&[0x01], 0), Err(CodecError::Truncated));
    assert_eq!(decode_uint(&[0x02, 0x00, 0x01], 0), Err(CodecError::Truncated));
    assert_eq!(decode_uint(&[0x03, 0x00, 0x00, 0x00], 0), Err(CodecError::Truncated));
    assert_eq!(decode_uint(&[0x01, 0x00], 0), Err(CodecError::NonMinimal));
    assert_eq!(decode_uint(&[0x02, 0x00, 0x00, 0x00], 0), Err(CodecError::NonMinimal));
    assert_eq!(decode_uint(&[0x03, 0xff, 0xff, 0xff, 0x3f], 0), Err(CodecError::NonMinimal));
    assert_eq!(decode_uint(&[0x07, 0xff, 0xff, 0xff, 0xff, 0x00], 0), Err(CodecError::NonMinimal));
    assert_eq!(
        decode_uint(&[0x17, 0, 0, 0, 0, 0, 0, 0, 0, 1], 0),
        Err(CodecError::InvalidWidth)
    );
}

#[test]
fn compact_decoding_leaves_the_rest() {
    assert_eq!(decode_uint(&[0xaa, 0x04, 0xff], 1), Ok((1, 2)));
    assert_eq!(decode_uint(&[0x01, 0x01, 0xff], 0), Ok((64, 2)));
}
