use hilbert_store::codec::HilbertCodec;
use hilbert_store::errors::StoreError;

#[test]
fn encode_origin_is_zero() {
    let codec = HilbertCodec::full_width();
    assert_eq!(codec.encode(0, 0).unwrap(), 0);
}

#[test]
fn decode_zero_is_origin() {
    let codec = HilbertCodec::full_width();
    assert_eq!(codec.decode(0), (0, 0));
}

#[test]
fn encode_decode_round_trip_small() {
    let codec = HilbertCodec::full_width();
    for x in 0..32u32 {
        for y in 0..32u32 {
            let k = codec.encode(x, y).unwrap();
            assert_eq!(codec.decode(k), (x, y));
        }
    }
}

#[test]
fn encode_decode_round_trip_large_coords() {
    let codec = HilbertCodec::full_width();
    let samples = [
        (0u32, u32::MAX),
        (u32::MAX, 0),
        (u32::MAX, u32::MAX),
        (0x1234_5678, 0x9ABC_DEF0),
        (1, u32::MAX - 1),
    ];
    for &(x, y) in samples.iter() {
        let k = codec.encode(x, y).unwrap();
        assert_eq!(codec.decode(k), (x, y));
    }
}

#[test]
fn decode_encode_round_trip_keys() {
    let codec = HilbertCodec::full_width();
    for h in 0..4096u64 {
        let (x, y) = codec.decode(h);
        assert_eq!(codec.encode(x, y).unwrap(), h);
    }
    for &h in [u64::MAX, u64::MAX / 3, 1u64 << 40].iter() {
        let (x, y) = codec.decode(h);
        assert_eq!(codec.encode(x, y).unwrap(), h);
    }
}

#[test]
fn distinct_coordinates_distinct_keys() {
    let codec = HilbertCodec::full_width();
    let mut keys = Vec::new();
    for x in 0..16u32 {
        for y in 0..16u32 {
            keys.push(codec.encode(x, y).unwrap());
        }
    }
    keys.sort();
    for w in keys.windows(2) {
        assert_ne!(w[0], w[1]);
    }
}

#[test]
fn locality_of_adjacent_keys() {
    // Neighbouring curve indices should almost always be neighbouring
    // cells; a statistical bound, not exact equality.
    let codec = HilbertCodec::full_width();
    let samples = 4096u64;
    let mut adjacent = 0u64;
    let mut total_sq = 0u64;
    for h in 0..samples {
        let (x1, y1) = codec.decode(h);
        let (x2, y2) = codec.decode(h + 1);
        let dx = (x1 as i64 - x2 as i64).unsigned_abs();
        let dy = (y1 as i64 - y2 as i64).unsigned_abs();
        let sq = dx * dx + dy * dy;
        total_sq += sq;
        if sq == 1 {
            adjacent += 1;
        }
    }
    // at least 95 percent unit steps, and small mean squared distance
    assert!(adjacent * 100 >= samples * 95);
    assert!(total_sq <= samples * 2);
}

#[test]
fn narrow_codec_rejects_out_of_width() {
    let codec = HilbertCodec::new(4).unwrap();
    assert_eq!(codec.encode(16, 0), Err(StoreError::Encoding));
    assert_eq!(codec.encode(0, 16), Err(StoreError::Encoding));
    let k = codec.encode(15, 15).unwrap();
    assert_eq!(codec.decode(k), (15, 15));
}

#[test]
fn narrow_orders_round_trip_whole_domain() {
    for order in 1..=8u8 {
        let codec = HilbertCodec::new(order).unwrap();
        let side = 1u32 << order;
        for x in 0..side {
            for y in 0..side {
                let k = codec.encode(x, y).unwrap();
                assert_eq!(codec.decode(k), (x, y), "order {order}");
            }
        }
    }
}

#[test]
fn narrow_orders_key_round_trip_whole_range() {
    for order in 1..=7u8 {
        let codec = HilbertCodec::new(order).unwrap();
        let max = 1u64 << (2 * order);
        for h in 0..max {
            let (x, y) = codec.decode(h);
            assert_eq!(codec.encode(x, y).unwrap(), h, "order {order}");
        }
    }
}

#[test]
fn codec_order_bounds() {
    assert_eq!(HilbertCodec::new(0).unwrap_err(), StoreError::Encoding);
    assert_eq!(HilbertCodec::new(33).unwrap_err(), StoreError::Encoding);
    assert!(HilbertCodec::new(1).is_ok());
    assert!(HilbertCodec::new(32).is_ok());
}
