//! Tests of the byte-level codecs: varints, little-endian reads, the
//! delta-RLE sample matrix and the double conversion.

use mprobe::bytes::{read_le_u32, read_var_u64, write_var_u64, ReadError};
use mprobe::metrics::raw::{encode_delta_rle, double_bits_to_u64, MetricInitVal, MetricParser, ValueType};
use mprobe::metrics::MetricValue;

#[test]
fn read_var_u64_reads_one_byte() {
    let expected_value: u64 = 127;
    let bytes = [0x7f];
    let mut pos: usize = 0;

    let actual_value = read_var_u64(&bytes, &mut pos).unwrap();

    assert_eq!(actual_value, expected_value);
}

#[test]
fn read_var_u64_reads_two_bytes() {
    let expected_value: u64 = 255;
    let bytes = [0xff, 0x1];
    let mut pos: usize = 0;

    let actual_value = read_var_u64(&bytes, &mut pos).unwrap();

    assert_eq!(actual_value, expected_value);
}

#[test]
fn read_var_u64_returns_error_when_reading_more_than_ten_bytes() {
    // The error type carries no message text, so the test asserts the
    // error kind that an overlong varint produces.
    let bytes = [0xff; 10];
    let mut pos: usize = 0;

    let result = read_var_u64(&bytes, &mut pos);

    match result {
        Err(ReadError::InvalidData { message }) => {
            assert_eq!(message, "Maximum bytes size for a variable u64 has been reached.");
        }
        other => panic!("unexpected outcome: {:?}", other),
    }
}

#[test]
fn read_var_u64_stops_at_end_of_input() {
    let bytes = [0xff, 0xff];
    let mut pos: usize = 0;

    let result = read_var_u64(&bytes, &mut pos);

    assert!(matches!(result, Err(ReadError::Eof)));
}

#[test]
fn var_u64_round_trips_through_its_encoding() {
    for value in [0u64, 1, 127, 128, 255, 300, 16384, u64::MAX / 7, u64::MAX] {
        let mut encoded: Vec<u8> = Vec::new();
        write_var_u64(value, &mut encoded);
        let mut pos: usize = 0;
        assert_eq!(read_var_u64(&encoded, &mut pos).unwrap(), value);
        assert_eq!(pos, encoded.len());
    }
}

#[test]
fn read_le_u32_reads_little_endian() {
    let bytes = [0x78, 0x56, 0x34, 0x12];
    let mut pos: usize = 0;
    assert_eq!(read_le_u32(&bytes, &mut pos).unwrap(), 0x12345678);
    assert_eq!(pos, 4);
}

#[test]
fn delta_rle_round_trips_a_matrix_with_a_run_across_rows() {
    // Two metrics of three samples; a zero run of five slots spans the
    // tail of the first row and the whole second row.
    let slots: Vec<u64> = vec![5, 0, 0, 0, 0, 0];
    let encoded = encode_delta_rle(&slots);
    // The run is one zero varint plus the remaining run length.
    assert_eq!(encoded, vec![5, 0, 4]);

    let metrics = vec![
        MetricInitVal::new(vec![String::from("a")], ValueType::I64, 10),
        MetricInitVal::new(vec![String::from("b")], ValueType::I64, 20),
    ];
    let mut pos: usize = 0;
    let rows = MetricParser::read_samples(&encoded, &mut pos, metrics, 3).unwrap();
    assert_eq!(rows.len(), 2);
    assert_eq!(rows[0].values, vec![15, 15, 15]);
    assert_eq!(rows[1].values, vec![20, 20, 20]);
    assert_eq!(pos, encoded.len());
}

#[test]
fn no_samples_keep_each_initial_value() {
    let metrics = vec![
        MetricInitVal::new(vec![String::from("a")], ValueType::I32, 7),
        MetricInitVal::new(vec![String::from("b")], ValueType::U32, 9),
    ];
    let mut pos: usize = 0;
    let rows = MetricParser::read_samples(&[], &mut pos, metrics, 0).unwrap();
    assert_eq!(rows.len(), 2);
    assert_eq!(rows[0].values, vec![7]);
    assert_eq!(rows[1].values, vec![9]);
}

#[test]
fn double_conversion_rounds_toward_zero_and_clamps() {
    assert_eq!(double_bits_to_u64(7.0f64.to_bits()), 7);
    assert_eq!(double_bits_to_u64(7.9f64.to_bits()), 7);
    assert_eq!(double_bits_to_u64(0.25f64.to_bits()), 0);
    assert_eq!(double_bits_to_u64((-3.2f64).to_bits()), 0);
    assert_eq!(double_bits_to_u64(f64::NAN.to_bits()), 0);
    assert_eq!(double_bits_to_u64(f64::INFINITY.to_bits()), u64::MAX);
    assert_eq!(double_bits_to_u64(1e19f64.to_bits()), 1e19f64 as u64);
    assert_eq!(double_bits_to_u64(1e20f64.to_bits()), u64::MAX);
    assert_eq!(double_bits_to_u64(4503599627370495.5f64.to_bits()), 4503599627370495);
}

#[test]
fn value_types_reinterpret_slots() {
    assert_eq!(ValueType::U32.convert(0x1_0000_0005), MetricValue::UInt32(5));
    assert_eq!(ValueType::I32.convert(u64::MAX), MetricValue::Int32(-1));
    assert_eq!(ValueType::I64.convert(u64::MAX), MetricValue::Int64(-1));
    assert_eq!(ValueType::F64.convert(42), MetricValue::Float64(42));
    assert_eq!(ValueType::Bool.convert(0), MetricValue::Boolean(false));
    assert_eq!(ValueType::Bool.convert(3), MetricValue::Boolean(true));
    assert_eq!(ValueType::DateTime.convert(1500), MetricValue::DateTime(1500));
}
