use world_save::record::{BlockRecord, ItemRecord, PixelPosition, WorldRecord};

#[test]
fn empty_record_has_no_entries() {
    let w = WorldRecord::new(PixelPosition { x: 7, y: -3 });
    assert_eq!(w.block_count(), 0);
    assert_eq!(w.item_count(), 0);
    assert_eq!(w.player_spawn.x, 7);
    assert_eq!(w.player_spawn.y, -3);
}

#[test]
fn key_eq_distinguishes_each_field() {
    let b = BlockRecord::new("jungle_floor", 2, 1, 0);
    assert!(b.key_eq(&BlockRecord::new("jungle_floor", 2, 1, 0)));
    assert!(!b.key_eq(&BlockRecord::new("cave_floor", 2, 1, 0)));
    assert!(!b.key_eq(&BlockRecord::new("jungle_floor", 3, 1, 0)));
    assert!(!b.key_eq(&BlockRecord::new("jungle_floor", 2, -1, 0)));
    assert!(!b.key_eq(&BlockRecord::new("jungle_floor", 2, 1, 5)));
    let it = ItemRecord::new("pickaxe", 40, 80);
    assert!(it.key_eq(&ItemRecord::new("pickaxe", 40, 80)));
    assert!(!it.key_eq(&ItemRecord::new("axe", 40, 80)));
    assert!(!it.key_eq(&ItemRecord::new("pickaxe", 41, 80)));
}

#[test]
fn inserting_identical_blocks_collapses_to_one_entry() {
    let mut w = WorldRecord::new(PixelPosition { x: 0, y: 0 });
    w.insert_block(BlockRecord::new("jungle_floor", 2, 4, 5));
    w.insert_block(BlockRecord::new("jungle_floor", 2, 4, 5));
    assert_eq!(w.block_count(), 1);
    assert!(w.contains_block(&BlockRecord::new("jungle_floor", 2, 4, 5)));
}

#[test]
fn inserting_distinct_blocks_keeps_both() {
    let mut w = WorldRecord::new(PixelPosition { x: 0, y: 0 });
    w.insert_block(BlockRecord::new("jungle_floor", 2, 4, 5));
    w.insert_block(BlockRecord::new("jungle_floor", 3, 4, 5));
    assert_eq!(w.block_count(), 2);
}

#[test]
fn inserting_identical_items_collapses_to_one_entry() {
    let mut w = WorldRecord::new(PixelPosition { x: 0, y: 0 });
    w.insert_item(ItemRecord::new("pickaxe", 40, 80));
    w.insert_item(ItemRecord::new("pickaxe", 40, 80));
    assert_eq!(w.item_count(), 1);
    w.insert_item(ItemRecord::new("pickaxe", 40, 81));
    assert_eq!(w.item_count(), 2);
}

#[test]
fn same_content_ignores_insertion_order() {
    let mut a = WorldRecord::new(PixelPosition { x: 1, y: 2 });
    a.insert_block(BlockRecord::new("jungle_floor", 0, 0, 0));
    a.insert_block(BlockRecord::new("jungle_floor", 1, 1, 0));
    a.insert_item(ItemRecord::new("pickaxe", 3, 4));
    let mut b = WorldRecord::new(PixelPosition { x: 1, y: 2 });
    b.insert_item(ItemRecord::new("pickaxe", 3, 4));
    b.insert_block(BlockRecord::new("jungle_floor", 1, 1, 0));
    b.insert_block(BlockRecord::new("jungle_floor", 0, 0, 0));
    assert!(a.same_content(&b));
    assert!(b.same_content(&a));
}

#[test]
fn same_content_detects_differences() {
    let mut a = WorldRecord::new(PixelPosition { x: 1, y: 2 });
    a.insert_block(BlockRecord::new("jungle_floor", 0, 0, 0));
    let b = WorldRecord::new(PixelPosition { x: 1, y: 2 });
    assert!(!a.same_content(&b));
    assert!(!b.same_content(&a));
    let c = WorldRecord::new(PixelPosition { x: 1, y: 3 });
    assert!(!b.same_content(&c));
}

#[test]
fn default_world_contents() {
    let w = WorldRecord::default();
    assert_eq!(w.block_count(), 14);
    assert_eq!(w.item_count(), 1);
    assert_eq!(w.player_spawn.x, 0);
    assert_eq!(w.player_spawn.y, 300);
    assert!(w.contains_item(&ItemRecord::new("pickaxe", 40, 80)));
    assert!(w.contains_block(&BlockRecord::new("jungle_floor", 0, -3, 0)));
    assert!(w.contains_block(&BlockRecord::new("jungle_floor", 2, -2, 0)));
    assert!(w.contains_block(&BlockRecord::new("jungle_floor", 2, -1, 0)));
    assert!(w.contains_block(&BlockRecord::new("jungle_floor", 2, 0, 0)));
    assert!(w.contains_block(&BlockRecord::new("jungle_floor", 2, 1, 0)));
    assert!(w.contains_block(&BlockRecord::new("jungle_floor", 2, 2, 0)));
    assert!(w.contains_block(&BlockRecord::new("jungle_floor", 4, 3, 0)));
    assert!(w.contains_block(&BlockRecord::new("jungle_floor", 20, -3, -1)));
    assert!(w.contains_block(&BlockRecord::new("jungle_floor", 22, -2, -1)));
    assert!(w.contains_block(&BlockRecord::new("jungle_floor", 22, -1, -1)));
    assert!(w.contains_block(&BlockRecord::new("jungle_floor", 22, 0, -1)));
    assert!(w.contains_block(&BlockRecord::new("jungle_floor", 22, 1, -1)));
    assert!(w.contains_block(&BlockRecord::new("jungle_floor", 22, 2, -1)));
    assert!(w.contains_block(&BlockRecord::new("jungle_floor", 24, 3, -1)));
    assert!(!w.contains_block(&BlockRecord::new("jungle_floor", 22, 3, -1)));
}

#[test]
fn default_world_is_deterministic() {
    let a = WorldRecord::default();
    let b = WorldRecord::default();
    assert!(a.same_content(&b));
}
