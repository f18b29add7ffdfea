use world_save::codec::{decode, encode, DecodeError, EncodeError};
use world_save::record::{BlockRecord, ItemRecord, PixelPosition, WorldRecord};

#[test]
fn encode_exact_bytes_of_empty_record() {
    let w = WorldRecord::new(PixelPosition { x: 1, y: -1 });
    let bytes = encode(&w).unwrap();
    let expected: Vec<u8> = vec![
        1, 0, 0, 0, // x = 1
        255, 255, 255, 255, // y = -1, two's complement
        0, 0, 0, 0, 0, 0, 0, 0, // zero blocks
        0, 0, 0, 0, 0, 0, 0, 0, // zero items
    ];
    assert_eq!(bytes, expected);
}

#[test]
fn encode_exact_bytes_of_one_item() {
    let mut w = WorldRecord::new(PixelPosition { x: 0, y: 0 });
    w.insert_item(ItemRecord::new("axe", 40, 80));
    let bytes = encode(&w).unwrap();
    let mut expected: Vec<u8> = Vec::new();
    expected.extend_from_slice(&[0, 0, 0, 0, 0, 0, 0, 0]); // spawn (0, 0)
    expected.extend_from_slice(&[0, 0, 0, 0, 0, 0, 0, 0]); // zero blocks
    expected.extend_from_slice(&[1, 0, 0, 0, 0, 0, 0, 0]); // one item
    expected.extend_from_slice(&[3, 0, 0, 0, 0, 0, 0, 0]); // name length 3
    expected.extend_from_slice(b"axe");
    expected.extend_from_slice(&[40, 0, 0, 0, 80, 0, 0, 0]); // position
    assert_eq!(bytes, expected);
}

#[test]
fn round_trip_preserves_content() {
    let mut w = WorldRecord::new(PixelPosition { x: -17, y: 300 });
    w.insert_block(BlockRecord::new("jungle_floor", 22, -3, 0));
    w.insert_block(BlockRecord::new("jungle_floor", 0, 3, -1));
    w.insert_block(BlockRecord::new("cave", 7, 100, -100));
    w.insert_item(ItemRecord::new("pickaxe", 40, 80));
    w.insert_item(ItemRecord::new("axe", -40, -80));
    let bytes = encode(&w).unwrap();
    let back = decode(&bytes).unwrap();
    assert!(w.same_content(&back));
    assert_eq!(back.block_count(), 3);
    assert_eq!(back.item_count(), 2);
}

#[test]
fn round_trip_of_default_world() {
    let w = WorldRecord::default();
    let bytes = encode(&w).unwrap();
    let back = decode(&bytes).unwrap();
    assert!(w.same_content(&back));
}

#[test]
fn decode_collapses_duplicate_entries() {
    // Two byte-identical block entries in the wire form: the decoded record
    // keeps one.
    let mut w = WorldRecord::new(PixelPosition { x: 0, y: 0 });
    w.insert_block(BlockRecord::new("floor", 1, 2, 3));
    let once = encode(&w).unwrap();
    let entry = &once[16..once.len() - 8]; // between block count and item count
    let mut doubled: Vec<u8> = Vec::new();
    doubled.extend_from_slice(&once[..8]); // spawn
    doubled.extend_from_slice(&[2, 0, 0, 0, 0, 0, 0, 0]); // two blocks
    doubled.extend_from_slice(entry);
    doubled.extend_from_slice(entry);
    doubled.extend_from_slice(&[0, 0, 0, 0, 0, 0, 0, 0]); // zero items
    let back = decode(&doubled).unwrap();
    assert_eq!(back.block_count(), 1);
    assert!(back.contains_block(&BlockRecord::new("floor", 1, 2, 3)));
}

#[test]
fn decode_rejects_truncated_bytes() {
    let w = WorldRecord::default();
    let bytes = encode(&w).unwrap();
    for cut in [0, 1, 7, 8, 20, bytes.len() - 1] {
        let short = bytes[..cut].to_vec();
        assert_eq!(decode(&short).unwrap_err(), DecodeError::Malformed);
    }
}

#[test]
fn decode_rejects_trailing_bytes() {
    let w = WorldRecord::new(PixelPosition { x: 0, y: 0 });
    let mut bytes = encode(&w).unwrap();
    bytes.push(0);
    assert_eq!(decode(&bytes).unwrap_err(), DecodeError::Malformed);
}

#[test]
fn decode_rejects_overlong_name_length() {
    let mut bytes: Vec<u8> = Vec::new();
    bytes.extend_from_slice(&[0, 0, 0, 0, 0, 0, 0, 0]); // spawn
    bytes.extend_from_slice(&[1, 0, 0, 0, 0, 0, 0, 0]); // one block
    bytes.extend_from_slice(&[200, 0, 0, 0, 0, 0, 0, 0]); // name length 200
    bytes.extend_from_slice(b"ab"); // but only 2 bytes follow
    assert_eq!(decode(&bytes).unwrap_err(), DecodeError::Malformed);
}

#[test]
fn decode_rejects_name_bytes_outside_seven_bits() {
    let mut bytes: Vec<u8> = Vec::new();
    bytes.extend_from_slice(&[0, 0, 0, 0, 0, 0, 0, 0]); // spawn
    bytes.extend_from_slice(&[0, 0, 0, 0, 0, 0, 0, 0]); // zero blocks
    bytes.extend_from_slice(&[1, 0, 0, 0, 0, 0, 0, 0]); // one item
    bytes.extend_from_slice(&[2, 0, 0, 0, 0, 0, 0, 0]); // name length 2
    bytes.extend_from_slice(&[0xc3, 0xa9]); // bytes outside the layout's range
    bytes.extend_from_slice(&[0, 0, 0, 0, 0, 0, 0, 0]); // position
    assert_eq!(decode(&bytes).unwrap_err(), DecodeError::Malformed);
}

#[test]
fn encode_rejects_name_outside_seven_bits() {
    let mut w = WorldRecord::new(PixelPosition { x: 0, y: 0 });
    w.insert_item(ItemRecord::new("épée", 0, 0));
    assert_eq!(encode(&w).unwrap_err(), EncodeError::UnencodableName);
}

#[test]
fn negative_coordinates_round_trip() {
    let mut w = WorldRecord::new(PixelPosition { x: i32::MIN, y: i32::MAX });
    w.insert_block(BlockRecord::new("floor", 0, i32::MIN, i32::MAX));
    let bytes = encode(&w).unwrap();
    let back = decode(&bytes).unwrap();
    assert!(w.same_content(&back));
    assert_eq!(back.player_spawn.x, i32::MIN);
    assert_eq!(back.player_spawn.y, i32::MAX);
}
