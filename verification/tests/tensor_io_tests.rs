use neuralnet::tensor::errors::TensorError;
use neuralnet::tensor::tensor_io::{tensor4d_from_binary_bytes, tensor4d_to_binary_bytes, TensorIoError};

fn bits(values: &[f32]) -> Vec<u32> {
    values.iter().map(|v| v.to_bits()).collect()
}

fn floats(bits: &[u32]) -> Vec<f32> {
    bits.iter().map(|b| f32::from_bits(*b)).collect()
}

#[test]
fn tensor_binary_round_trip_restores_shape_and_data() {
    let values = vec![1.0f32, 2.0, 3.0, 4.0];
    let bytes = tensor4d_to_binary_bytes((1, 1, 2, 2), &bits(&values));
    let (shape, data) = tensor4d_from_binary_bytes(bytes.as_slice())
        .unwrap_or_else(|_| panic!("binary roundtrip should succeed"));
    assert_eq!(shape, (1, 1, 2, 2));
    assert_eq!(floats(&data), values);
}

#[test]
fn tensor_binary_reader_rejects_invalid_magic() {
    let mut bytes = vec![0u8; 36];
    bytes[0..4].copy_from_slice(b"BAD!");
    let result = tensor4d_from_binary_bytes(bytes.as_slice());
    assert!(matches!(result, Err(TensorIoError::InvalidMagic)));
}

#[test]
fn tensor_binary_layout_is_magic_sizes_then_little_endian_bits() {
    let bytes = tensor4d_to_binary_bytes((2, 1, 1, 1), &bits(&[1.0, -2.5]));
    assert_eq!(bytes.len(), 36 + 8);
    assert_eq!(&bytes[0..4], b"T4D1");
    assert_eq!(&bytes[4..12], &2u64.to_le_bytes());
    assert_eq!(&bytes[12..20], &1u64.to_le_bytes());
    assert_eq!(&bytes[36..40], &1.0f32.to_le_bytes());
    assert_eq!(&bytes[40..44], &(-2.5f32).to_le_bytes());
}

#[test]
fn tensor_binary_reader_reports_corrupt_payloads() {
    match tensor4d_from_binary_bytes(&[1u8; 10]) {
        Err(TensorIoError::CorruptPayload { expected_bytes, actual_bytes }) => {
            assert_eq!((expected_bytes, actual_bytes), (36, 10));
        }
        other => panic!("expected a corrupt payload, got {other:?}"),
    }
    let mut bytes = tensor4d_to_binary_bytes((1, 1, 1, 2), &bits(&[0.5, 0.25]));
    bytes.pop();
    match tensor4d_from_binary_bytes(bytes.as_slice()) {
        Err(TensorIoError::CorruptPayload { expected_bytes, actual_bytes }) => {
            assert_eq!((expected_bytes, actual_bytes), (8, 7));
        }
        other => panic!("expected a corrupt payload, got {other:?}"),
    }
    let empty = tensor4d_to_binary_bytes((0, 3, 2, 2), &[]);
    let (shape, data) = tensor4d_from_binary_bytes(empty.as_slice()).expect("an empty tensor reads back");
    assert_eq!(shape, (0, 3, 2, 2));
    assert!(data.is_empty());
}

#[test]
fn tensor_io_errors_display_their_cause() {
    assert_eq!(TensorIoError::InvalidMagic.message(), "invalid tensor binary magic header");
    assert_eq!(
        TensorIoError::CorruptPayload { expected_bytes: 36, actual_bytes: 10 }.message(),
        "corrupt tensor payload: expected 36 bytes, got 10 bytes"
    );
    assert_eq!(TensorIoError::Io("disk full".to_string()).message(), "tensor I/O error: disk full");
    assert_eq!(TensorIoError::Json("bad".to_string()).message(), "tensor JSON error: bad");
    assert_eq!(
        TensorIoError::Tensor(TensorError::ShapeMismatch { expected: 4, actual: 3 }).message(),
        "tensor error: tensor shape mismatch: expected 4 elements, got 3"
    );
}
