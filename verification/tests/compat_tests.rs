//! The layout matches what the bincode crate's default configuration
//! (fixed-width integers, little endian) produces for the same shape of
//! data: a spawn pair, then a run of (name, index, position) block entries,
//! then a run of (name, position) item entries.

use world_save::codec::{decode, encode};
use world_save::record::{BlockRecord, ItemRecord, PixelPosition, WorldRecord};

type WireBlock = (String, u64, (i32, i32));
type WireItem = (String, (i32, i32));
type Wire = ((i32, i32), Vec<WireBlock>, Vec<WireItem>);

#[test]
fn decode_accepts_bincode_serialized_bytes() {
    let wire: Wire = (
        (0, 300),
        vec![
            ("jungle_floor".to_string(), 2, (-2, 0)),
            ("jungle_floor".to_string(), 4, (3, 0)),
        ],
        vec![("pickaxe".to_string(), (40, 80))],
    );
    let bytes = bincode::serialize(&wire).unwrap();
    let w = decode(&bytes).unwrap();
    assert_eq!(w.player_spawn.x, 0);
    assert_eq!(w.player_spawn.y, 300);
    assert_eq!(w.block_count(), 2);
    assert_eq!(w.item_count(), 1);
    assert!(w.contains_block(&BlockRecord::new("jungle_floor", 2, -2, 0)));
    assert!(w.contains_block(&BlockRecord::new("jungle_floor", 4, 3, 0)));
    assert!(w.contains_item(&ItemRecord::new("pickaxe", 40, 80)));
}

#[test]
fn bincode_deserializes_encoded_bytes() {
    let mut w = WorldRecord::new(PixelPosition { x: -5, y: 12 });
    w.insert_block(BlockRecord::new("jungle_floor", 22, 1, -1));
    w.insert_item(ItemRecord::new("pickaxe", 40, 80));
    let bytes = encode(&w).unwrap();
    let wire: Wire = bincode::deserialize(&bytes).unwrap();
    assert_eq!(wire.0, (-5, 12));
    assert_eq!(wire.1, vec![("jungle_floor".to_string(), 22, (1, -1))]);
    assert_eq!(wire.2, vec![("pickaxe".to_string(), (40, 80))]);
}
