//! Snapshot Capture: turning live world state back into a durable record.
//!
//! The caller enumerates every live entity tagged as a persisted block or
//! item, and every live player, reads their transforms, truncates the
//! floating-point translations to integer pixels, and hands the plain
//! values here.  [`capture`] converts block positions from pixels back to
//! grid units, collapses structural duplicates into the record's sets, and
//! refuses to produce a record unless exactly one player is live, since a
//! spawn position cannot be captured unambiguously otherwise.

use vstd::prelude::*;

use crate::coords::{grid_of_pixel, pixel_to_grid};
use crate::record::{BlockKey, BlockRecord, ItemKey, ItemRecord, PixelPosition, WorldModel,
    WorldRecord};

verus! {

/// A live block entity's persisted identity and its pixel position.
pub struct CapturedBlock {
    pub tile_set: String,
    pub tile_index: usize,
    pub position: PixelPosition,
}

/// A live item entity's persisted identity and its pixel position.
pub struct CapturedItem {
    pub item_name: String,
    pub position: PixelPosition,
}

/// Why a snapshot could not be captured.
#[derive(Clone, Copy, PartialEq, Eq, Structural, Debug)]
pub enum CaptureError {
    /// No live player entity: there is no spawn position to persist.
    NoPlayer,
    /// More than one live player entity: the spawn position is ambiguous.
    MultiplePlayers,
}

/// The record key a captured block normalizes to: its pixel position sent
/// back to grid units, truncating toward zero.
pub open spec fn captured_block_key(b: CapturedBlock) -> BlockKey {
    BlockKey {
        tile_set: b.tile_set@,
        tile_index: b.tile_index as int,
        grid_x: grid_of_pixel(b.position.x as int),
        grid_y: grid_of_pixel(b.position.y as int),
    }
}

/// The record key a captured item normalizes to.
pub open spec fn captured_item_key(it: CapturedItem) -> ItemKey {
    ItemKey {
        item_name: it.item_name@,
        pixel_x: it.position.x as int,
        pixel_y: it.position.y as int,
    }
}

/// The abstract content a successful capture must carry: the player's
/// position as spawn point and the normalized keys of every live entity,
/// duplicates collapsed.
pub open spec fn captured_model(
    blocks: Seq<CapturedBlock>,
    items: Seq<CapturedItem>,
    player: PixelPosition,
) -> WorldModel {
    WorldModel {
        player_spawn: (player.x as int, player.y as int),
        blocks: blocks.map_values(|b: CapturedBlock| captured_block_key(b)).to_set(),
        items: items.map_values(|it: CapturedItem| captured_item_key(it)).to_set(),
    }
}

/// Captures a world record from the live entities handed in.
///
/// Succeeds exactly when one player is live; the record then carries the
/// captured model.  Two live entities that normalize to the same key
/// silently collapse to one entry.
pub fn capture(
    blocks: &Vec<CapturedBlock>,
    items: &Vec<CapturedItem>,
    players: &Vec<PixelPosition>,
) -> (r: Result<WorldRecord, CaptureError>)
    ensures
        r is Ok <==> players@.len() == 1,
        r matches Ok(w) ==> w.wf() && w@ == captured_model(blocks@, items@, players@[0]),
        r matches Err(e) ==> (players@.len() == 0 <==> e == CaptureError::NoPlayer),
        r matches Err(e) ==> (players@.len() > 1 <==> e == CaptureError::MultiplePlayers),
{
    if players.len() == 0 {
        return Err(CaptureError::NoPlayer);
    }
    if players.len() > 1 {
        return Err(CaptureError::MultiplePlayers);
    }
    let ghost bkeys = blocks@.map_values(|b: CapturedBlock| captured_block_key(b));
    let ghost ikeys = items@.map_values(|it: CapturedItem| captured_item_key(it));
    let mut w = WorldRecord::new(players[0]);
    let mut i: usize = 0;
    while i < blocks.len()
        invariant
            0 <= i <= blocks@.len(),
            bkeys == blocks@.map_values(|b: CapturedBlock| captured_block_key(b)),
            players@.len() == 1,
            w.wf(),
            w@.player_spawn == (players@[0].x as int, players@[0].y as int),
            w@.blocks == bkeys.take(i as int).to_set(),
            w@.items == Set::<ItemKey>::empty(),
        decreases blocks@.len() - i,
    {
        let cb = &blocks[i];
        let b = BlockRecord {
            tile_set: cb.tile_set.clone(),
            tile_index: cb.tile_index,
            tile_pos: pixel_to_grid(cb.position),
        };
        proof {
            assert(b@ =~= bkeys[i as int]);
        }
        w.insert_block(b);
        proof {
            assert(bkeys.take(i + 1 as int) =~= bkeys.take(i as int) + seq![bkeys[i as int]]);
            Seq::<BlockKey>::lemma_to_set_insert_commutes(bkeys.take(i as int), bkeys[i as int]);
        }
        i += 1;
    }
    proof {
        assert(bkeys.take(bkeys.len() as int) =~= bkeys);
    }
    let mut i: usize = 0;
    while i < items.len()
        invariant
            0 <= i <= items@.len(),
            ikeys == items@.map_values(|it: CapturedItem| captured_item_key(it)),
            players@.len() == 1,
            w.wf(),
            w@.player_spawn == (players@[0].x as int, players@[0].y as int),
            w@.blocks == blocks@.map_values(|b: CapturedBlock| captured_block_key(b)).to_set(),
            w@.items == ikeys.take(i as int).to_set(),
        decreases items@.len() - i,
    {
        let ci = &items[i];
        let it = ItemRecord { item_name: ci.item_name.clone(), position: ci.position };
        proof {
            assert(it@ =~= ikeys[i as int]);
        }
        w.insert_item(it);
        proof {
            assert(ikeys.take(i + 1 as int) =~= ikeys.take(i as int) + seq![ikeys[i as int]]);
            Seq::<ItemKey>::lemma_to_set_insert_commutes(ikeys.take(i as int), ikeys[i as int]);
        }
        i += 1;
    }
    proof {
        assert(ikeys.take(ikeys.len() as int) =~= ikeys);
        assert(w@ =~= captured_model(blocks@, items@, players@[0]));
    }
    Ok(w)
}

/// Law: capture idempotence under no world change.  Two captures of the
/// same live entities carry the same spawn point, the same block set and
/// the same item set.
pub proof fn lemma_capture_idempotent(
    blocks: Seq<CapturedBlock>,
    items: Seq<CapturedItem>,
    player: PixelPosition,
    m1: WorldModel,
    m2: WorldModel,
)
    requires
        m1 == captured_model(blocks, items, player),
        m2 == captured_model(blocks, items, player),
    ensures
        m1.player_spawn == m2.player_spawn,
        m1.blocks == m2.blocks,
        m1.items == m2.items,
{
}

} // verus!
