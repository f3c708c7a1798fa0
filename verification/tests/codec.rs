use gaia_pipeline::record::{decode_batch, encode_batch, encode_record, PositionRecord};

#[test]
fn encode_one_record_little_endian() {
    let rec = PositionRecord {
        x_bits: 1.0f32.to_bits(),
        y_bits: (-2.0f32).to_bits(),
        z_bits: 0.5f32.to_bits(),
    };
    let bytes = encode_record(&rec);
    assert_eq!(bytes.len(), 12);
    assert_eq!(&bytes[0..4], &1.0f32.to_le_bytes());
    assert_eq!(&bytes[4..8], &(-2.0f32).to_le_bytes());
    assert_eq!(&bytes[8..12], &0.5f32.to_le_bytes());
}

#[test]
fn encode_batch_concatenates_in_order() {
    let recs = vec![
        PositionRecord { x_bits: 0, y_bits: 1, z_bits: 2 },
        PositionRecord { x_bits: 3, y_bits: 4, z_bits: 5 },
    ];
    let bytes = encode_batch(&recs);
    assert_eq!(bytes.len(), 24);
    assert_eq!(&bytes[0..12], &encode_record(&recs[0])[..]);
    assert_eq!(&bytes[12..24], &encode_record(&recs[1])[..]);
}

#[test]
fn encode_empty_batch_is_empty() {
    let recs: Vec<PositionRecord> = Vec::new();
    let bytes = encode_batch(&recs);
    assert_eq!(bytes.len(), 0);
}

#[test]
fn decode_rejects_partial_record() {
    let bytes: Vec<u8> = vec![0u8; 13];
    assert!(decode_batch(&bytes).is_none());
    let bytes: Vec<u8> = vec![0u8; 11];
    assert!(decode_batch(&bytes).is_none());
}

#[test]
fn round_trip_batch_is_exact() {
    let recs = vec![
        PositionRecord {
            x_bits: 3.2616f32.to_bits(),
            y_bits: 0.0f32.to_bits(),
            z_bits: (-0.0f32).to_bits(),
        },
        PositionRecord {
            x_bits: f32::INFINITY.to_bits(),
            y_bits: f32::MIN_POSITIVE.to_bits(),
            z_bits: 123.456f32.to_bits(),
        },
        PositionRecord { x_bits: 0, y_bits: u32::MAX, z_bits: 0x8000_0000 },
    ];
    let bytes = encode_batch(&recs);
    let back = decode_batch(&bytes).unwrap();
    assert_eq!(back, recs);
}

#[test]
fn example_row_at_origin_encodes_expected_distance() {
    // ra = 0, dec = 0, parallax = 1000 mas: the distance comes out near
    // 3.2616 parsecs, all of it along x.
    let k = 1.58125074e-5f32;
    let parallax = 1000.0f32;
    let r = k / (parallax / (1000.0 * 3600.0) * std::f32::consts::PI / 180.0);
    let (sra, cra) = (0.0f32 * std::f32::consts::PI / 180.0).sin_cos();
    let (sdec, cdec) = (0.0f32 * std::f32::consts::PI / 180.0).sin_cos();
    let x = r * cra * cdec;
    let y = r * sra * cdec;
    let z = r * sdec;
    assert!((x - 3.2616).abs() < 1e-3);
    assert_eq!(y, 0.0);
    assert_eq!(z, 0.0);
    let rec = PositionRecord { x_bits: x.to_bits(), y_bits: y.to_bits(), z_bits: z.to_bits() };
    let bytes = encode_record(&rec);
    let back = decode_batch(&bytes).unwrap();
    assert_eq!(back.len(), 1);
    assert_eq!(f32::from_bits(back[0].x_bits), x);
    assert_eq!(f32::from_bits(back[0].y_bits), y);
    assert_eq!(f32::from_bits(back[0].z_bits), z);
}
