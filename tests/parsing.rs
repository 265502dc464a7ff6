use flechasdb_benchmark::{read_fvecs, Error, FormatError};

fn record(out: &mut Vec<u8>, dim: u32, values: &[f32]) {
    out.extend_from_slice(&dim.to_le_bytes());
    for v in values {
        out.extend_from_slice(&v.to_le_bytes());
    }
}

#[test]
fn parses_well_formed_records() {
    let vectors: Vec<Vec<f32>> = vec![
        vec![1.0, -2.5, 3.25],
        vec![0.0, 1.0e-3, -7.0],
        vec![f32::MAX, f32::MIN_POSITIVE, 42.0],
    ];
    let mut bytes = Vec::new();
    for v in &vectors {
        record(&mut bytes, 3, v);
    }
    let vs = read_fvecs(&bytes).unwrap();
    assert_eq!(vs.dimension(), 3);
    assert_eq!(vs.len(), 3);
    assert!(!vs.is_empty());
    for (i, v) in vectors.iter().enumerate() {
        let got = vs.get(i);
        let expected: Vec<u32> = v.iter().map(|x| x.to_bits()).collect();
        assert_eq!(got, expected);
        for (j, bits) in got.iter().enumerate() {
            let off = i * (4 + 4 * 3) + 4 + 4 * j;
            let raw = u32::from_le_bytes([bytes[off], bytes[off + 1], bytes[off + 2], bytes[off + 3]]);
            assert_eq!(*bits, raw);
            assert_eq!(f32::from_bits(*bits), v[j]);
        }
    }
}

#[test]
fn reads_little_endian_components() {
    let bytes: Vec<u8> = vec![2, 0, 0, 0, 0x01, 0x02, 0x03, 0x04, 0xff, 0x00, 0x00, 0x80];
    let vs = read_fvecs(&bytes).unwrap();
    assert_eq!(vs.get(0), vec![0x0403_0201u32, 0x8000_00ff]);
}

#[test]
fn short_payload_is_truncated() {
    let mut bytes = Vec::new();
    let values: Vec<f32> = (0..50).map(|i| i as f32).collect();
    record(&mut bytes, 128, &values);
    assert_eq!(read_fvecs(&bytes).unwrap_err(), Error::Format(FormatError::Truncated));
}

#[test]
fn truncated_second_record_is_an_error() {
    let mut bytes = Vec::new();
    record(&mut bytes, 2, &[1.0, 2.0]);
    record(&mut bytes, 2, &[3.0]);
    assert_eq!(read_fvecs(&bytes).unwrap_err(), Error::Format(FormatError::Truncated));
}

#[test]
fn truncated_header_is_an_error() {
    let mut bytes = Vec::new();
    record(&mut bytes, 2, &[1.0, 2.0]);
    bytes.extend_from_slice(&[2, 0]);
    assert_eq!(read_fvecs(&bytes).unwrap_err(), Error::Format(FormatError::Truncated));
}

#[test]
fn empty_input_is_truncated() {
    assert_eq!(read_fvecs(&[]).unwrap_err(), Error::Format(FormatError::Truncated));
}

#[test]
fn inconsistent_dimension_is_an_error() {
    let mut bytes = Vec::new();
    record(&mut bytes, 2, &[1.0, 2.0]);
    record(&mut bytes, 3, &[1.0, 2.0, 3.0]);
    assert_eq!(
        read_fvecs(&bytes).unwrap_err(),
        Error::Format(FormatError::DimensionMismatch)
    );
}

#[test]
fn zero_dimension_records() {
    let bytes: Vec<u8> = vec![0; 12];
    let vs = read_fvecs(&bytes).unwrap();
    assert_eq!(vs.dimension(), 0);
    assert_eq!(vs.len(), 3);
    assert_eq!(vs.get(2), Vec::<u32>::new());
}

#[test]
fn query_dimension_is_checked() {
    let mut bytes = Vec::new();
    record(&mut bytes, 2, &[1.0, 2.0]);
    let vs = read_fvecs(&bytes).unwrap();
    assert_eq!(vs.check_query(2), Ok(()));
    assert_eq!(vs.check_query(3), Err(Error::DimensionMismatch));
}
