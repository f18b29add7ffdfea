use world_save::record::{BlockRecord, ItemRecord, PixelPosition, WorldRecord};
use world_save::spawn::{drain_block_requests, drain_item_requests, plan_spawns, Catalog};

#[test]
fn plan_spawns_emits_one_request_per_entry() {
    let mut w = WorldRecord::new(PixelPosition { x: 0, y: 300 });
    w.insert_block(BlockRecord::new("jungle_floor", 2, -2, 0));
    w.insert_block(BlockRecord::new("jungle_floor", 4, 3, 0));
    w.insert_item(ItemRecord::new("pickaxe", 40, 80));
    let batch = plan_spawns(&w);
    assert_eq!(batch.blocks.len(), 2);
    assert_eq!(batch.items.len(), 1);
    assert_eq!(batch.player.position.x, 0);
    assert_eq!(batch.player.position.y, 300);
    assert_eq!(batch.items[0].item_name, "pickaxe");
    assert_eq!(batch.items[0].position.x, 40);
    assert_eq!(batch.items[0].position.y, 80);
}

#[test]
fn default_world_reconciles_to_sixteen_entities() {
    // An empty save root: fourteen block entities, one item entity, one
    // player entity.
    let w = WorldRecord::default();
    let batch = plan_spawns(&w);
    let mut tiles = Catalog::new();
    tiles.register("jungle_floor");
    let mut items = Catalog::new();
    items.register("pickaxe");
    let (live_blocks, dropped_blocks) = drain_block_requests(batch.blocks, &tiles);
    let (live_items, dropped_items) = drain_item_requests(batch.items, &items);
    assert_eq!(live_blocks.len(), 14);
    assert_eq!(dropped_blocks.len(), 0);
    assert_eq!(live_items.len(), 1);
    assert_eq!(dropped_items.len(), 0);
}

#[test]
fn unresolvable_item_is_dropped_without_stopping_the_valid_one() {
    let mut w = WorldRecord::new(PixelPosition { x: 0, y: 0 });
    w.insert_item(ItemRecord::new("pickaxe", 40, 80));
    w.insert_item(ItemRecord::new("unobtainium", 1, 2));
    let batch = plan_spawns(&w);
    let mut catalog = Catalog::new();
    catalog.register("pickaxe");
    let (live, dropped) = drain_item_requests(batch.items, &catalog);
    assert_eq!(live.len(), 1);
    assert_eq!(live[0].item_name, "pickaxe");
    assert_eq!(dropped.len(), 1);
    assert_eq!(dropped[0].item_name, "unobtainium");
}

#[test]
fn unresolvable_tile_set_is_dropped_without_stopping_the_valid_one() {
    let mut w = WorldRecord::new(PixelPosition { x: 0, y: 0 });
    w.insert_block(BlockRecord::new("jungle_floor", 2, 0, 0));
    w.insert_block(BlockRecord::new("missing_set", 2, 1, 0));
    let batch = plan_spawns(&w);
    let mut catalog = Catalog::new();
    catalog.register("jungle_floor");
    let (live, dropped) = drain_block_requests(batch.blocks, &catalog);
    assert_eq!(live.len(), 1);
    assert_eq!(live[0].tile_set, "jungle_floor");
    assert_eq!(dropped.len(), 1);
    assert_eq!(dropped[0].tile_set, "missing_set");
}

#[test]
fn catalog_resolves_only_registered_names() {
    let mut catalog = Catalog::new();
    assert!(!catalog.resolves(&"pickaxe".to_string()));
    catalog.register("pickaxe");
    catalog.register("axe");
    assert!(catalog.resolves(&"pickaxe".to_string()));
    assert!(catalog.resolves(&"axe".to_string()));
    assert!(!catalog.resolves(&"sword".to_string()));
}
