// HexRect codec: round trips, exact bytes, and every refusal.

use bnri_cosmic::hex_renderer::{
    encode_hexrects, expand_rects, parse_hexrects, uint24_to_rgba, HexCell, HexCodecError,
    HexRect,
};

#[test]
fn property_round_trip_1000_rects() {
    // Deterministic pseudo-random generation (no external rand dep)
    let mut seed: u64 = 0xDEADBEEFCAFE1234;
    let mut next = || {
        seed = seed.wrapping_mul(6364136223846793005).wrapping_add(1442695040888963407);
        seed
    };

    let mut rects = Vec::with_capacity(1000);
    for _ in 0..1000 {
        let col = (next() % 96) as u8;
        let row = (next() % 96) as u8;
        let width = ((next() % 20) + 1) as u8; // 1..=20
        let height = ((next() % 20) + 1) as u8;
        let color = (next() & 0xFFFFFF) as u32;
        rects.push(HexRect {
            col,
            row,
            width,
            height,
            color,
        });
    }

    let encoded = encode_hexrects(&rects);
    let parsed = parse_hexrects(&encoded).expect("round-trip parse must succeed");
    let re_encoded = encode_hexrects(&parsed);

    assert_eq!(encoded, re_encoded, "encode → parse → encode must be byte-identical");
    assert_eq!(parsed.len(), 1000);
    for (a, b) in parsed.iter().zip(rects.iter()) {
        assert_eq!(a, b, "round-trip content mismatch");
    }
}

#[test]
fn error_not_multiple_of_8() {
    let bad = [0x00; 7]; // 7 bytes — not a multiple of 8
    assert_eq!(parse_hexrects(&bad), Err(HexCodecError::NotMultipleOf8));
}

#[test]
fn error_reserved_byte_non_zero() {
    // Valid rect but reserved byte = 0xFF
    let bad = [0x00, 0x00, 0x01, 0x01, 0xFF, 0x00, 0x00, 0xFF];
    assert_eq!(
        parse_hexrects(&bad),
        Err(HexCodecError::ReservedByteNonZero {
            index: 0,
            value: 0xFF
        })
    );
}

#[test]
fn error_out_of_grid() {
    // col = 96 (> 95)
    let bad = [0x60, 0x00, 0x01, 0x01, 0xFF, 0x00, 0x00, 0x00];
    assert_eq!(
        parse_hexrects(&bad),
        Err(HexCodecError::OutOfGrid { col: 96, row: 0 })
    );
    // row = 96 (> 95)
    let bad2 = [0x00, 0x60, 0x01, 0x01, 0xFF, 0x00, 0x00, 0x00];
    assert_eq!(
        parse_hexrects(&bad2),
        Err(HexCodecError::OutOfGrid { col: 0, row: 96 })
    );
}

#[test]
fn error_zero_dimension() {
    // width = 0
    let bad = [0x00, 0x00, 0x00, 0x01, 0xFF, 0x00, 0x00, 0x00];
    assert_eq!(
        parse_hexrects(&bad),
        Err(HexCodecError::ZeroDimension { col: 0, row: 0 })
    );
    // height = 0
    let bad2 = [0x00, 0x00, 0x01, 0x00, 0xFF, 0x00, 0x00, 0x00];
    assert_eq!(
        parse_hexrects(&bad2),
        Err(HexCodecError::ZeroDimension { col: 0, row: 0 })
    );
}

#[test]
fn empty_blob_parses_to_empty_vec() {
    let empty: [u8; 0] = [];
    let result = parse_hexrects(&empty).expect("empty blob should parse");
    assert!(result.is_empty());
}

#[test]
fn multiple_rects_in_one_blob() {
    let rects = vec![
        HexRect {
            col: 0,
            row: 0,
            width: 1,
            height: 1,
            color: 0xFF0000,
        },
        HexRect {
            col: 95,
            row: 95,
            width: 1,
            height: 1,
            color: 0xFFFFFF,
        },
    ];
    let encoded = encode_hexrects(&rects);
    assert_eq!(encoded.len(), 16); // 2 rects × 8 bytes
    let parsed = parse_hexrects(&encoded).expect("parse multiple");
    assert_eq!(parsed.len(), 2);
    assert_eq!(parsed[0], rects[0]);
    assert_eq!(parsed[1], rects[1]);
}

#[test]
fn encode_writes_exact_big_endian_bytes() {
    let rect = HexRect { col: 1, row: 2, width: 3, height: 4, color: 0xABCDEF };
    assert_eq!(encode_hexrects(&[rect]), vec![1, 2, 3, 4, 0xAB, 0xCD, 0xEF, 0x00]);
}

#[test]
fn encode_of_nothing_is_empty() {
    assert!(encode_hexrects(&[]).is_empty());
}

#[test]
fn encode_keeps_only_24_bits_of_color() {
    let rect = HexRect { col: 5, row: 6, width: 1, height: 2, color: 0x12AB_CDEF };
    let bytes = encode_hexrects(&[rect]);
    assert_eq!(bytes, vec![5, 6, 1, 2, 0xAB, 0xCD, 0xEF, 0x00]);
    let parsed = parse_hexrects(&bytes).expect("parses");
    assert_eq!(parsed, vec![HexRect { color: 0xAB_CDEF, ..rect }]);
}

#[test]
fn parse_reads_big_endian_color() {
    let blob = [10, 20, 30, 40, 0x01, 0x02, 0x03, 0x00];
    assert_eq!(
        parse_hexrects(&blob),
        Ok(vec![HexRect { col: 10, row: 20, width: 30, height: 40, color: 0x010203 }])
    );
}

#[test]
fn parse_then_encode_gives_the_blob_back() {
    let blob = [0, 95, 1, 255, 0xFF, 0x00, 0x7F, 0, 95, 0, 20, 20, 0, 0, 1, 0];
    let parsed = parse_hexrects(&blob).expect("well formed");
    assert_eq!(encode_hexrects(&parsed), blob.to_vec());
}

#[test]
fn error_names_the_first_bad_chunk() {
    let mut blob = encode_hexrects(&[
        HexRect { col: 1, row: 1, width: 1, height: 1, color: 1 },
        HexRect { col: 2, row: 2, width: 1, height: 1, color: 2 },
        HexRect { col: 3, row: 3, width: 1, height: 1, color: 3 },
    ]);
    blob[15] = 0x07; // reserved byte of chunk 1
    blob[16] = 96; // col of chunk 2 is off the grid too
    assert_eq!(
        parse_hexrects(&blob),
        Err(HexCodecError::ReservedByteNonZero { index: 1, value: 0x07 })
    );
}

#[test]
fn reserved_byte_is_checked_before_grid_and_size() {
    let blob = [200, 200, 0, 0, 0, 0, 0, 0x01];
    assert_eq!(
        parse_hexrects(&blob),
        Err(HexCodecError::ReservedByteNonZero { index: 0, value: 0x01 })
    );
    let blob2 = [200, 3, 0, 0, 0, 0, 0, 0];
    assert_eq!(parse_hexrects(&blob2), Err(HexCodecError::OutOfGrid { col: 200, row: 3 }));
}

#[test]
fn length_is_checked_before_content() {
    let blob = [0xFF; 9];
    assert_eq!(parse_hexrects(&blob), Err(HexCodecError::NotMultipleOf8));
}

#[test]
fn encoding_unplaceable_rect_does_not_parse() {
    let bytes = encode_hexrects(&[HexRect { col: 0, row: 0, width: 0, height: 3, color: 0 }]);
    assert_eq!(parse_hexrects(&bytes), Err(HexCodecError::ZeroDimension { col: 0, row: 0 }));
}

#[test]
fn expand_paints_rows_then_columns_rect_by_rect() {
    let rects = [
        HexRect { col: 94, row: 95, width: 2, height: 2, color: 0x112233 },
        HexRect { col: 0, row: 0, width: 1, height: 1, color: 0x445566 },
    ];
    let cells = expand_rects(&rects);
    let expected = vec![
        HexCell { col: 94, row: 95, color: 0x112233 },
        HexCell { col: 95, row: 95, color: 0x112233 },
        HexCell { col: 94, row: 96, color: 0x112233 },
        HexCell { col: 95, row: 96, color: 0x112233 },
        HexCell { col: 0, row: 0, color: 0x445566 },
    ];
    assert_eq!(cells, expected);
}

#[test]
fn expand_covers_width_times_height() {
    let rect = HexRect { col: 255, row: 255, width: 255, height: 3, color: 1 };
    let cells = expand_rects(&[rect]);
    assert_eq!(cells.len(), 255 * 3);
    assert_eq!(cells[2 * 255 + 254], HexCell { col: 255 + 254, row: 257, color: 1 });
}

#[test]
fn rgba_splits_color_and_is_opaque() {
    assert_eq!(uint24_to_rgba(0xFF8001), [0xFF, 0x80, 0x01, 0xFF]);
    assert_eq!(uint24_to_rgba(0xAB00_0000), [0x00, 0x00, 0x00, 0xFF]);
}
