use world_save::capture::{capture, CaptureError, CapturedBlock, CapturedItem};
use world_save::coords::{grid_to_pixel, pixel_to_grid, pixel_to_grid_coord};
use world_save::record::{BlockRecord, GridPosition, ItemRecord, PixelPosition};

fn block(tile_set: &str, tile_index: usize, x: i32, y: i32) -> CapturedBlock {
    CapturedBlock { tile_set: tile_set.to_string(), tile_index, position: PixelPosition { x, y } }
}

fn item(name: &str, x: i32, y: i32) -> CapturedItem {
    CapturedItem { item_name: name.to_string(), position: PixelPosition { x, y } }
}

#[test]
fn pixel_to_grid_truncates_toward_zero() {
    assert_eq!(pixel_to_grid_coord(0), 0);
    assert_eq!(pixel_to_grid_coord(39), 0);
    assert_eq!(pixel_to_grid_coord(40), 1);
    assert_eq!(pixel_to_grid_coord(-39), 0);
    assert_eq!(pixel_to_grid_coord(-40), -1);
    assert_eq!(pixel_to_grid_coord(-81), -2);
    assert_eq!(pixel_to_grid_coord(i32::MIN), i32::MIN / 40);
    let g = pixel_to_grid(PixelPosition { x: 120, y: -120 });
    assert_eq!((g.x, g.y), (3, -3));
}

#[test]
fn grid_to_pixel_scales_and_reports_overflow() {
    let p = grid_to_pixel(GridPosition { x: 3, y: -1 }).unwrap();
    assert_eq!((p.x, p.y), (120, -40));
    assert!(grid_to_pixel(GridPosition { x: i32::MAX / 40 + 1, y: 0 }).is_none());
    assert!(grid_to_pixel(GridPosition { x: 0, y: i32::MIN / 40 - 1 }).is_none());
}

#[test]
fn grid_survives_a_spawn_and_capture_cycle() {
    // A block spawned from grid units and captured back from its pixel
    // position lands on the same grid cell.
    for g in [-3, -1, 0, 2, 3, 1000, -1000] {
        let p = grid_to_pixel(GridPosition { x: g, y: -g }).unwrap();
        let back = pixel_to_grid(p);
        assert_eq!((back.x, back.y), (g, -g));
    }
}

#[test]
fn capture_with_one_player_succeeds() {
    let blocks = vec![block("jungle_floor", 2, 80, 0), block("jungle_floor", 4, 120, -40)];
    let items = vec![item("pickaxe", 41, 79)];
    let players = vec![PixelPosition { x: 3, y: 299 }];
    let w = capture(&blocks, &items, &players).unwrap();
    assert_eq!(w.player_spawn.x, 3);
    assert_eq!(w.player_spawn.y, 299);
    assert_eq!(w.block_count(), 2);
    assert!(w.contains_block(&BlockRecord::new("jungle_floor", 2, 2, 0)));
    assert!(w.contains_block(&BlockRecord::new("jungle_floor", 4, 3, -1)));
    assert_eq!(w.item_count(), 1);
    assert!(w.contains_item(&ItemRecord::new("pickaxe", 41, 79)));
}

#[test]
fn capture_with_zero_players_is_refused() {
    let blocks = vec![block("jungle_floor", 2, 0, 0)];
    let items: Vec<CapturedItem> = Vec::new();
    let players: Vec<PixelPosition> = Vec::new();
    assert_eq!(capture(&blocks, &items, &players).unwrap_err(), CaptureError::NoPlayer);
}

#[test]
fn capture_with_two_players_is_refused() {
    let blocks: Vec<CapturedBlock> = Vec::new();
    let items: Vec<CapturedItem> = Vec::new();
    let players = vec![PixelPosition { x: 0, y: 0 }, PixelPosition { x: 1, y: 1 }];
    assert_eq!(capture(&blocks, &items, &players).unwrap_err(), CaptureError::MultiplePlayers);
}

#[test]
fn capture_twice_without_change_yields_same_content() {
    let blocks = vec![block("jungle_floor", 2, 80, 0), block("jungle_floor", 0, -80, 40)];
    let items = vec![item("pickaxe", 40, 80)];
    let players = vec![PixelPosition { x: 0, y: 300 }];
    let a = capture(&blocks, &items, &players).unwrap();
    let b = capture(&blocks, &items, &players).unwrap();
    assert!(a.same_content(&b));
}

#[test]
fn entities_normalizing_to_one_key_collapse() {
    // Both blocks sit inside grid cell (0, 0) with the same identity: the
    // captured record keeps one entry.
    let blocks = vec![block("jungle_floor", 2, 5, 5), block("jungle_floor", 2, 30, 39)];
    let items: Vec<CapturedItem> = Vec::new();
    let players = vec![PixelPosition { x: 0, y: 0 }];
    let w = capture(&blocks, &items, &players).unwrap();
    assert_eq!(w.block_count(), 1);
    assert!(w.contains_block(&BlockRecord::new("jungle_floor", 2, 0, 0)));
}
