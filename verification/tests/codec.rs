use xaynet::bignum::{num_add, num_from_u64, num_lt};
use xaynet::mask::{MaskConfig, MaskMany, MaskObject, MaskOne};
use xaynet::mask_codec::{
    decode_mask_many, decode_mask_one, encode_mask_many, encode_mask_one, mask_object_len,
    DecodeError,
};
use xaynet::sum2::{Sum2, Sum2Buffer};

fn config() -> MaskConfig {
    // modulus 2^32: five little-endian limbs, so every element travels in 5 bytes
    MaskConfig::from_u64(1u64 << 32)
}

fn num(x: u64) -> Vec<u8> {
    num_from_u64(x)
}

fn signature_bytes() -> Vec<u8> {
    vec![0x99; 64]
}

fn model_mask() -> (MaskMany, Vec<u8>) {
    let m = MaskMany::new(config(), vec![num(1), num(2), num(3), num(4)]);
    let mut bytes = vec![
        5, 0, 0, 0, // limb width
        4, 0, 0, 0, // element count
        0, 0, 0, 0, 1, // the modulus, 2^32
    ];
    bytes.extend(vec![1, 0, 0, 0, 0]);
    bytes.extend(vec![2, 0, 0, 0, 0]);
    bytes.extend(vec![3, 0, 0, 0, 0]);
    bytes.extend(vec![4, 0, 0, 0, 0]);
    (m, bytes)
}

fn scalar_mask() -> (MaskOne, Vec<u8>) {
    let m = MaskOne::new(config(), num(5));
    let bytes = vec![
        5, 0, 0, 0, // limb width
        1, 0, 0, 0, // element count: a scalar is one element
        0, 0, 0, 0, 1, // the modulus
        5, 0, 0, 0, 0, // the value
    ];
    (m, bytes)
}

fn sum2() -> (Sum2, Vec<u8>) {
    let mut bytes = signature_bytes();
    bytes.extend(model_mask().1);
    bytes.extend(scalar_mask().1);
    let sum2 = Sum2 {
        sum_signature: signature_bytes(),
        model_mask: MaskObject::new(model_mask().0, scalar_mask().0),
    };
    (sum2, bytes)
}

#[test]
fn buffer_read() {
    let bytes = sum2().1;
    let buffer = Sum2Buffer::new(bytes).unwrap();
    assert_eq!(buffer.sum_signature(), signature_bytes());
    let expected = model_mask().1;
    assert_eq!(&buffer.model_mask()[..expected.len()], &expected[..]);
    assert_eq!(buffer.scalar_mask(), scalar_mask().1);
}

#[test]
fn buffer_write() {
    let total = sum2().1.len();
    let mut buffer = Sum2Buffer::new_unchecked(vec![0xff; total]);
    buffer.sum_signature_mut(&signature_bytes());
    buffer.model_mask_mut(&model_mask().1);
    buffer.scalar_mask_mut(&scalar_mask().1);
    assert_eq!(buffer.into_inner(), sum2().1);
}

#[test]
fn encode() {
    let (sum2, bytes) = sum2();
    assert_eq!(sum2.buffer_length(), bytes.len());
    let buf = sum2.to_bytes();
    assert_eq!(buf, bytes);
}

#[test]
fn decode() {
    let (sum2, bytes) = sum2();
    let parsed = Sum2::from_bytes(&bytes).unwrap();
    assert_eq!(parsed, sum2);
}

#[test]
fn truncated_buffer_is_rejected() {
    let bytes = vec![0x99; 63];
    assert_eq!(Sum2Buffer::new(bytes.clone()).unwrap_err(), DecodeError::BufferTooShort);
    assert_eq!(Sum2::from_bytes(&bytes).unwrap_err(), DecodeError::BufferTooShort);
}

#[test]
fn truncated_mask_field_is_rejected() {
    // the signature fits but the model mask announces more bytes than remain
    let mut bytes = signature_bytes();
    bytes.extend(model_mask().1[..10].to_vec());
    assert_eq!(Sum2::from_bytes(&bytes).unwrap_err(), DecodeError::BufferTooShort);
}

#[test]
fn mask_many_roundtrip_with_trailing_data() {
    let (m, enc) = model_mask();
    let encoded = encode_mask_many(&m);
    assert_eq!(encoded, enc);
    let mut with_rest = encoded.clone();
    with_rest.extend(vec![0xAB, 0xCD]);
    let (decoded, consumed) = decode_mask_many(&with_rest, 0).unwrap();
    assert_eq!(decoded, m);
    assert_eq!(consumed, encoded.len());
}

#[test]
fn mask_one_roundtrip() {
    let (m, enc) = scalar_mask();
    let encoded = encode_mask_one(&m);
    assert_eq!(encoded, enc);
    let (decoded, consumed) = decode_mask_one(&encoded, 0).unwrap();
    assert_eq!(decoded, m);
    assert_eq!(consumed, encoded.len());
}

#[test]
fn element_exceeding_modulus_is_rejected() {
    // modulus 2, one element holding 5
    let bytes = vec![
        1, 0, 0, 0, // limb width
        1, 0, 0, 0, // element count
        2, // the modulus
        5, // the element
    ];
    assert_eq!(decode_mask_many(&bytes, 0).unwrap_err(), DecodeError::ElementExceedsModulus);
}

#[test]
fn malformed_modulus_is_rejected() {
    // zero-width modulus
    let bytes = vec![0, 0, 0, 0, 1, 0, 0, 0];
    assert_eq!(decode_mask_many(&bytes, 0).unwrap_err(), DecodeError::ConfigMismatch);
    // modulus with a trailing zero limb
    let bytes = vec![
        2, 0, 0, 0, // limb width
        1, 0, 0, 0, // element count
        1, 0, // non-canonical modulus
        1, 0, // the element
    ];
    assert_eq!(decode_mask_many(&bytes, 0).unwrap_err(), DecodeError::ConfigMismatch);
}

#[test]
fn scalar_field_with_two_elements_is_rejected() {
    let m = MaskMany::new(config(), vec![num(1), num(2)]);
    let encoded = encode_mask_many(&m);
    assert_eq!(decode_mask_one(&encoded, 0).unwrap_err(), DecodeError::ConfigMismatch);
}

#[test]
fn length_probe_matches_encoding() {
    let (_, enc) = model_mask();
    assert_eq!(mask_object_len(&enc, 0).unwrap(), enc.len());
    let short = enc[..7].to_vec();
    assert_eq!(mask_object_len(&short, 0).unwrap_err(), DecodeError::BufferTooShort);
}

#[test]
fn numbers_add_and_compare() {
    assert_eq!(num_from_u64(0), Vec::<u8>::new());
    assert_eq!(num_from_u64(260), vec![4, 1]);
    assert_eq!(num_add(&num(250), &num(10)), num(260));
    assert_eq!(num_add(&num(0), &num(0)), num(0));
    assert_eq!(num_add(&num(0xFFFFFFFF), &num(1)), num(0x100000000));
    assert!(num_lt(&num(3), &num(1000)));
    assert!(!num_lt(&num(1000), &num(3)));
    assert!(!num_lt(&num(7), &num(7)));
}

#[test]
fn mask_object_validation() {
    let cfg = MaskConfig::from_u64(1000);
    assert!(MaskMany::new_checked(cfg.clone(), vec![num(999)]).is_ok());
    assert!(MaskMany::new_checked(cfg.clone(), vec![num(1000)]).is_err());
    assert!(MaskOne::new_checked(cfg.clone(), num(999)).is_ok());
    assert!(MaskOne::new_checked(cfg.clone(), num(1001)).is_err());
    let obj = MaskObject::new_checked(cfg.clone(), vec![num(1)], cfg.clone(), num(2)).unwrap();
    assert!(obj.is_valid());
    let empty = MaskMany::empty(cfg.clone(), 4);
    assert_eq!(empty.data.len(), 0);
    let one = MaskOne::empty(cfg);
    assert_eq!(one.data, num(1));
}
