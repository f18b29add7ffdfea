use world_save::bootstrap::bootstrap;
use world_save::codec::{encode, DecodeError};
use world_save::record::{BlockRecord, ItemRecord, PixelPosition, WorldRecord};

#[test]
fn empty_save_root_yields_the_default_world() {
    let b = bootstrap(None).unwrap();
    assert_eq!(b.record.block_count(), 14);
    assert_eq!(b.record.item_count(), 1);
    assert_eq!(b.record.player_spawn.x, 0);
    assert_eq!(b.record.player_spawn.y, 300);
    assert!(b.record.contains_item(&ItemRecord::new("pickaxe", 40, 80)));
    assert!(b.record.same_content(&WorldRecord::default()));
}

#[test]
fn empty_save_root_returns_bytes_that_decode_to_the_default() {
    let b = bootstrap(None).unwrap();
    let bytes = b.to_write.expect("a fresh world must be persisted");
    let reread = bootstrap(Some(bytes)).unwrap();
    assert!(reread.to_write.is_none());
    assert!(reread.record.same_content(&WorldRecord::default()));
}

#[test]
fn repeated_default_bootstraps_agree() {
    let a = bootstrap(None).unwrap();
    let b = bootstrap(None).unwrap();
    assert!(a.record.same_content(&b.record));
}

#[test]
fn existing_bytes_are_loaded_not_rewritten() {
    let mut w = WorldRecord::new(PixelPosition { x: 9, y: 9 });
    w.insert_block(BlockRecord::new("jungle_floor", 22, 0, -1));
    let bytes = encode(&w).unwrap();
    let b = bootstrap(Some(bytes)).unwrap();
    assert!(b.to_write.is_none());
    assert!(b.record.same_content(&w));
}

#[test]
fn corrupt_bytes_fail_the_bootstrap() {
    let garbage: Vec<u8> = vec![1, 2, 3];
    match bootstrap(Some(garbage)) {
        Err(e) => assert_eq!(e, DecodeError::Malformed),
        Ok(_) => panic!("garbage bytes must not bootstrap"),
    }
    let w = WorldRecord::default();
    let mut truncated = encode(&w).unwrap();
    truncated.truncate(truncated.len() - 3);
    match bootstrap(Some(truncated)) {
        Err(e) => assert_eq!(e, DecodeError::Malformed),
        Ok(_) => panic!("truncated bytes must not bootstrap"),
    }
}
