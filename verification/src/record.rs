//! The durable world-record data model.
//!
//! A [`WorldRecord`] is the root snapshot of persisted world state: a player
//! spawn position, a deduplicated collection of block entries and a
//! deduplicated collection of item entries.  Uniqueness is structural: two
//! block entries are duplicates iff tile-set name, tile index and grid
//! position are all equal; two item entries are duplicates iff item name and
//! pixel position are equal.  Insertion order is irrelevant; only set
//! membership matters, so the abstract model of a record uses `Set`s.
//!
//! Positions come in two distinct coordinate semantics that share one wire
//! shape (an `i32` pair): grid coordinates for blocks and pixel coordinates
//! for items and the player spawn.  They are kept apart as [`GridPosition`]
//! and [`PixelPosition`] so the two cannot be accidentally swapped.

use vstd::prelude::*;

verus! {

/// A position in tile-grid units (one step is one tile).
#[derive(Clone, Copy, PartialEq, Eq, Structural, Debug)]
pub struct GridPosition {
    pub x: i32,
    pub y: i32,
}

/// A position in world pixel units.
#[derive(Clone, Copy, PartialEq, Eq, Structural, Debug)]
pub struct PixelPosition {
    pub x: i32,
    pub y: i32,
}

/// One persisted block: which tile set it is drawn from, the tile index
/// within that set, and where it sits on the tile grid.
#[derive(Debug)]
pub struct BlockRecord {
    pub tile_set: String,
    pub tile_index: usize,
    pub tile_pos: GridPosition,
}

/// One persisted dropped item: its catalog name and its world pixel position.
#[derive(Debug)]
pub struct ItemRecord {
    pub item_name: String,
    pub position: PixelPosition,
}

/// The abstract identity of a block entry; structural equality of these keys
/// is what "duplicate" means for blocks.
#[verifier::ext_equal]
pub struct BlockKey {
    pub tile_set: Seq<char>,
    pub tile_index: int,
    pub grid_x: int,
    pub grid_y: int,
}

/// The abstract identity of an item entry; structural equality of these keys
/// is what "duplicate" means for items.
#[verifier::ext_equal]
pub struct ItemKey {
    pub item_name: Seq<char>,
    pub pixel_x: int,
    pub pixel_y: int,
}

/// The abstract model of a whole record: a spawn point and two sets of keys.
#[verifier::ext_equal]
pub struct WorldModel {
    pub player_spawn: (int, int),
    pub blocks: Set<BlockKey>,
    pub items: Set<ItemKey>,
}

impl View for BlockRecord {
    type V = BlockKey;

    open spec fn view(&self) -> BlockKey {
        BlockKey {
            tile_set: self.tile_set@,
            tile_index: self.tile_index as int,
            grid_x: self.tile_pos.x as int,
            grid_y: self.tile_pos.y as int,
        }
    }
}

impl View for ItemRecord {
    type V = ItemKey;

    open spec fn view(&self) -> ItemKey {
        ItemKey {
            item_name: self.item_name@,
            pixel_x: self.position.x as int,
            pixel_y: self.position.y as int,
        }
    }
}

impl BlockRecord {
    /// Builds a block entry from its parts.
    pub fn new(tile_set: &str, tile_index: usize, grid_x: i32, grid_y: i32) -> (r: BlockRecord)
        ensures
            r@ == (BlockKey {
                tile_set: tile_set@,
                tile_index: tile_index as int,
                grid_x: grid_x as int,
                grid_y: grid_y as int,
            }),
    {
        BlockRecord {
            tile_set: tile_set.to_owned(),
            tile_index,
            tile_pos: GridPosition { x: grid_x, y: grid_y },
        }
    }

    /// Structural equality of two block entries: equal iff their keys are.
    pub fn key_eq(&self, other: &BlockRecord) -> (r: bool)
        ensures
            r == (self@ == other@),
    {
        let r = self.tile_set == other.tile_set && self.tile_index == other.tile_index
            && self.tile_pos.x == other.tile_pos.x && self.tile_pos.y == other.tile_pos.y;
        proof {
            if r {
                assert(self@ =~= other@);
            }
        }
        r
    }
}

impl ItemRecord {
    /// Builds an item entry from its parts.
    pub fn new(item_name: &str, pixel_x: i32, pixel_y: i32) -> (r: ItemRecord)
        ensures
            r@ == (ItemKey {
                item_name: item_name@,
                pixel_x: pixel_x as int,
                pixel_y: pixel_y as int,
            }),
    {
        ItemRecord {
            item_name: item_name.to_owned(),
            position: PixelPosition { x: pixel_x, y: pixel_y },
        }
    }

    /// Structural equality of two item entries: equal iff their keys are.
    pub fn key_eq(&self, other: &ItemRecord) -> (r: bool)
        ensures
            r == (self@ == other@),
    {
        let r = self.item_name == other.item_name && self.position.x == other.position.x
            && self.position.y == other.position.y;
        proof {
            if r {
                assert(self@ =~= other@);
            }
        }
        r
    }
}

/// The root snapshot of persisted world state.
#[derive(Debug)]
pub struct WorldRecord {
    pub player_spawn: PixelPosition,
    pub blocks: Vec<BlockRecord>,
    pub items: Vec<ItemRecord>,
}

impl View for WorldRecord {
    type V = WorldModel;

    open spec fn view(&self) -> WorldModel {
        WorldModel {
            player_spawn: (self.player_spawn.x as int, self.player_spawn.y as int),
            blocks: self.blocks@.map_values(|b: BlockRecord| b@).to_set(),
            items: self.items@.map_values(|i: ItemRecord| i@).to_set(),
        }
    }
}

impl WorldRecord {
    /// Well-formedness: the entry vectors carry no structural duplicates, so
    /// they faithfully represent the sets in the abstract model.
    pub open spec fn wf(self) -> bool {
        &&& self.blocks@.map_values(|b: BlockRecord| b@).no_duplicates()
        &&& self.items@.map_values(|i: ItemRecord| i@).no_duplicates()
    }

    /// A record with the given spawn point and no entries.
    pub fn new(player_spawn: PixelPosition) -> (r: WorldRecord)
        ensures
            r.wf(),
            r.player_spawn == player_spawn,
            r.blocks@ == Seq::<BlockRecord>::empty(),
            r.items@ == Seq::<ItemRecord>::empty(),
            r@.player_spawn == (player_spawn.x as int, player_spawn.y as int),
            r@.blocks == Set::<BlockKey>::empty(),
            r@.items == Set::<ItemKey>::empty(),
    {
        let r = WorldRecord { player_spawn, blocks: Vec::new(), items: Vec::new() };
        proof {
            assert(r@.blocks =~= Set::<BlockKey>::empty());
            assert(r@.items =~= Set::<ItemKey>::empty());
        }
        r
    }

    /// Whether the record already holds a block with this entry's key.
    pub fn contains_block(&self, b: &BlockRecord) -> (r: bool)
        ensures
            r == self@.blocks.contains(b@),
    {
        let ghost keys = self.blocks@.map_values(|x: BlockRecord| x@);
        let mut i: usize = 0;
        while i < self.blocks.len()
            invariant
                0 <= i <= self.blocks@.len(),
                keys == self.blocks@.map_values(|x: BlockRecord| x@),
                forall|j: int| 0 <= j < i ==> keys[j] != b@,
            decreases self.blocks@.len() - i,
        {
            if self.blocks[i].key_eq(b) {
                proof {
                    assert(keys[i as int] == b@);
                    assert(keys.contains(b@));
                }
                return true;
            }
            i += 1;
        }
        proof {
            assert(!keys.contains(b@));
        }
        false
    }

    /// Whether the record already holds an item with this entry's key.
    pub fn contains_item(&self, it: &ItemRecord) -> (r: bool)
        ensures
            r == self@.items.contains(it@),
    {
        let ghost keys = self.items@.map_values(|x: ItemRecord| x@);
        let mut i: usize = 0;
        while i < self.items.len()
            invariant
                0 <= i <= self.items@.len(),
                keys == self.items@.map_values(|x: ItemRecord| x@),
                forall|j: int| 0 <= j < i ==> keys[j] != it@,
            decreases self.items@.len() - i,
        {
            if self.items[i].key_eq(it) {
                proof {
                    assert(keys[i as int] == it@);
                    assert(keys.contains(it@));
                }
                return true;
            }
            i += 1;
        }
        proof {
            assert(!keys.contains(it@));
        }
        false
    }

    /// Inserts a block entry, silently collapsing structural duplicates: the
    /// block set of the result is the block set of the input with this
    /// entry's key added.
    pub fn insert_block(&mut self, b: BlockRecord)
        requires
            old(self).wf(),
        ensures
            final(self).wf(),
            final(self)@.blocks == old(self)@.blocks.insert(b@),
            final(self)@.items == old(self)@.items,
            final(self)@.player_spawn == old(self)@.player_spawn,
            final(self).blocks@ == old(self).blocks@ || final(self).blocks@ == old(
                self,
            ).blocks@.push(b),
            final(self).items@ == old(self).items@,
            final(self).player_spawn == old(self).player_spawn,
    {
        let ghost old_keys = self.blocks@.map_values(|x: BlockRecord| x@);
        if self.contains_block(&b) {
            proof {
                assert(old(self)@.blocks.insert(b@) =~= old(self)@.blocks);
            }
        } else {
            self.blocks.push(b);
            proof {
                let new_keys = self.blocks@.map_values(|x: BlockRecord| x@);
                assert(new_keys =~= old_keys + seq![b@]);
                Seq::<BlockKey>::lemma_to_set_insert_commutes(old_keys, b@);
                assert(self@.items =~= old(self)@.items);
            }
        }
    }

    /// Inserts an item entry, silently collapsing structural duplicates: the
    /// item set of the result is the item set of the input with this entry's
    /// key added.
    pub fn insert_item(&mut self, it: ItemRecord)
        requires
            old(self).wf(),
        ensures
            final(self).wf(),
            final(self)@.items == old(self)@.items.insert(it@),
            final(self)@.blocks == old(self)@.blocks,
            final(self)@.player_spawn == old(self)@.player_spawn,
            final(self).items@ == old(self).items@ || final(self).items@ == old(
                self,
            ).items@.push(it),
            final(self).blocks@ == old(self).blocks@,
            final(self).player_spawn == old(self).player_spawn,
    {
        let ghost old_keys = self.items@.map_values(|x: ItemRecord| x@);
        if self.contains_item(&it) {
            proof {
                assert(old(self)@.items.insert(it@) =~= old(self)@.items);
            }
        } else {
            self.items.push(it);
            proof {
                let new_keys = self.items@.map_values(|x: ItemRecord| x@);
                assert(new_keys =~= old_keys + seq![it@]);
                Seq::<ItemKey>::lemma_to_set_insert_commutes(old_keys, it@);
                assert(self@.blocks =~= old(self)@.blocks);
            }
        }
    }

    /// How many distinct block entries the record holds.
    pub fn block_count(&self) -> (r: usize)
        requires
            self.wf(),
        ensures
            r == self@.blocks.len(),
    {
        proof {
            self.blocks@.map_values(|x: BlockRecord| x@).unique_seq_to_set();
        }
        self.blocks.len()
    }

    /// How many distinct item entries the record holds.
    pub fn item_count(&self) -> (r: usize)
        requires
            self.wf(),
        ensures
            r == self@.items.len(),
    {
        proof {
            self.items@.map_values(|x: ItemRecord| x@).unique_seq_to_set();
        }
        self.items.len()
    }

    /// Whether two records carry the same persisted content: the same player
    /// spawn, the same set of block keys and the same set of item keys,
    /// regardless of entry order.
    pub fn same_content(&self, other: &WorldRecord) -> (r: bool)
        ensures
            r == (self@ == other@),
    {
        if self.player_spawn.x != other.player_spawn.x
            || self.player_spawn.y != other.player_spawn.y {
            return false;
        }
        let ghost sbkeys = self.blocks@.map_values(|x: BlockRecord| x@);
        let ghost obkeys = other.blocks@.map_values(|x: BlockRecord| x@);
        let ghost sikeys = self.items@.map_values(|x: ItemRecord| x@);
        let ghost oikeys = other.items@.map_values(|x: ItemRecord| x@);
        let mut i: usize = 0;
        while i < self.blocks.len()
            invariant
                0 <= i <= self.blocks@.len(),
                sbkeys == self.blocks@.map_values(|x: BlockRecord| x@),
                forall|j: int| 0 <= j < i ==> other@.blocks.contains(#[trigger] sbkeys[j]),
            decreases self.blocks@.len() - i,
        {
            if !other.contains_block(&self.blocks[i]) {
                proof {
                    assert(sbkeys[i as int] == self.blocks@[i as int]@);
                    assert(self@.blocks.contains(sbkeys[i as int]));
                    assert(self@.blocks != other@.blocks);
                }
                return false;
            }
            i += 1;
        }
        let mut i: usize = 0;
        while i < other.blocks.len()
            invariant
                0 <= i <= other.blocks@.len(),
                obkeys == other.blocks@.map_values(|x: BlockRecord| x@),
                forall|j: int| 0 <= j < i ==> self@.blocks.contains(#[trigger] obkeys[j]),
                forall|k: BlockKey| self@.blocks.contains(k) ==> other@.blocks.contains(k),
            decreases other.blocks@.len() - i,
        {
            if !self.contains_block(&other.blocks[i]) {
                proof {
                    assert(obkeys[i as int] == other.blocks@[i as int]@);
                    assert(other@.blocks.contains(obkeys[i as int]));
                    assert(self@.blocks != other@.blocks);
                }
                return false;
            }
            i += 1;
        }
        proof {
            assert(self@.blocks =~= other@.blocks);
        }
        let mut i: usize = 0;
        while i < self.items.len()
            invariant
                0 <= i <= self.items@.len(),
                sikeys == self.items@.map_values(|x: ItemRecord| x@),
                forall|j: int| 0 <= j < i ==> other@.items.contains(#[trigger] sikeys[j]),
            decreases self.items@.len() - i,
        {
            if !other.contains_item(&self.items[i]) {
                proof {
                    assert(sikeys[i as int] == self.items@[i as int]@);
                    assert(self@.items.contains(sikeys[i as int]));
                    assert(self@.items != other@.items);
                }
                return false;
            }
            i += 1;
        }
        let mut i: usize = 0;
        while i < other.items.len()
            invariant
                0 <= i <= other.items@.len(),
                oikeys == other.items@.map_values(|x: ItemRecord| x@),
                forall|j: int| 0 <= j < i ==> self@.items.contains(#[trigger] oikeys[j]),
                forall|k: ItemKey| self@.items.contains(k) ==> other@.items.contains(k),
            decreases other.items@.len() - i,
        {
            if !self.contains_item(&other.items[i]) {
                proof {
                    assert(oikeys[i as int] == other.items@[i as int]@);
                    assert(other@.items.contains(oikeys[i as int]));
                    assert(self@.items != other@.items);
                }
                return false;
            }
            i += 1;
        }
        proof {
            assert(self@.items =~= other@.items);
            assert(self@ =~= other@);
        }
        true
    }
}

/// The tile set every block of the default world is drawn from.
pub open spec fn default_tile_set() -> Seq<char> {
    "jungle_floor"@
}

/// A block key of the default world's platform.
pub open spec fn default_block_key(tile_index: int, grid_x: int, grid_y: int) -> BlockKey {
    BlockKey { tile_set: default_tile_set(), tile_index, grid_x, grid_y }
}

/// The block keys of the default world: a fixed platform of fourteen tiles,
/// two rows of seven, centred on the vertical axis.
pub open spec fn default_block_keys() -> Set<BlockKey> {
    default_lower_row_keys(default_upper_row_keys(Set::<BlockKey>::empty()))
}

/// The item keys of the default world: one pickaxe near the platform.
pub open spec fn default_item_keys() -> Set<ItemKey> {
    Set::<ItemKey>::empty().insert(ItemKey { item_name: "pickaxe"@, pixel_x: 40, pixel_y: 80 })
}

/// The full abstract model of the default world.
pub open spec fn default_model() -> WorldModel {
    WorldModel { player_spawn: (0, 300), blocks: default_block_keys(), items: default_item_keys() }
}

/// The block keys of the default platform's upper row.
pub open spec fn default_upper_row_keys(s: Set<BlockKey>) -> Set<BlockKey> {
    s.insert(default_block_key(0, -3, 0))
        .insert(default_block_key(2, -2, 0))
        .insert(default_block_key(2, -1, 0))
        .insert(default_block_key(2, 0, 0))
        .insert(default_block_key(2, 1, 0))
        .insert(default_block_key(2, 2, 0))
        .insert(default_block_key(4, 3, 0))
}

/// The block keys of the default platform's lower row.
pub open spec fn default_lower_row_keys(s: Set<BlockKey>) -> Set<BlockKey> {
    s.insert(default_block_key(20, -3, -1))
        .insert(default_block_key(22, -2, -1))
        .insert(default_block_key(22, -1, -1))
        .insert(default_block_key(22, 0, -1))
        .insert(default_block_key(22, 1, -1))
        .insert(default_block_key(22, 2, -1))
        .insert(default_block_key(24, 3, -1))
}

/// Inserts the upper row of the default platform.
fn insert_default_upper_row(r: &mut WorldRecord)
    requires
        old(r).wf(),
    ensures
        final(r).wf(),
        final(r)@.blocks == default_upper_row_keys(old(r)@.blocks),
        final(r)@.items == old(r)@.items,
        final(r)@.player_spawn == old(r)@.player_spawn,
        final(r).items@ == old(r).items@,
        final(r).player_spawn == old(r).player_spawn,
        final(r).blocks@.len() <= old(r).blocks@.len() + 7,
{
    r.insert_block(BlockRecord::new("jungle_floor", 0, -3, 0));
    r.insert_block(BlockRecord::new("jungle_floor", 2, -2, 0));
    r.insert_block(BlockRecord::new("jungle_floor", 2, -1, 0));
    r.insert_block(BlockRecord::new("jungle_floor", 2, 0, 0));
    r.insert_block(BlockRecord::new("jungle_floor", 2, 1, 0));
    r.insert_block(BlockRecord::new("jungle_floor", 2, 2, 0));
    r.insert_block(BlockRecord::new("jungle_floor", 4, 3, 0));
}

/// Inserts the lower row of the default platform.
fn insert_default_lower_row(r: &mut WorldRecord)
    requires
        old(r).wf(),
    ensures
        final(r).wf(),
        final(r)@.blocks == default_lower_row_keys(old(r)@.blocks),
        final(r)@.items == old(r)@.items,
        final(r)@.player_spawn == old(r)@.player_spawn,
        final(r).items@ == old(r).items@,
        final(r).player_spawn == old(r).player_spawn,
        final(r).blocks@.len() <= old(r).blocks@.len() + 7,
{
    r.insert_block(BlockRecord::new("jungle_floor", 20, -3, -1));
    r.insert_block(BlockRecord::new("jungle_floor", 22, -2, -1));
    r.insert_block(BlockRecord::new("jungle_floor", 22, -1, -1));
    r.insert_block(BlockRecord::new("jungle_floor", 22, 0, -1));
    r.insert_block(BlockRecord::new("jungle_floor", 22, 1, -1));
    r.insert_block(BlockRecord::new("jungle_floor", 22, 2, -1));
    r.insert_block(BlockRecord::new("jungle_floor", 24, 3, -1));
}

impl Default for WorldRecord {
    /// The deterministic default world, synthesized when no save file exists:
    /// the fixed fourteen-block platform, one pickaxe at pixel position
    /// (40, 80), and a player spawn at pixel position (0, 300).
    fn default() -> (r: WorldRecord)
        ensures
            r.wf(),
            r@ == default_model(),
            r.blocks@.len() <= 14,
            r.items@.len() <= 1,
    {
        let mut r = WorldRecord::new(PixelPosition { x: 0, y: 300 });
        insert_default_upper_row(&mut r);
        insert_default_lower_row(&mut r);
        r.insert_item(ItemRecord::new("pickaxe", 40, 80));
        proof {
            assert(r@.blocks == default_block_keys());
            assert(r@.items == default_item_keys());
            assert(r@ =~= default_model());
        }
        r
    }
}

/// Law: the default world is deterministic.  Any two records that carry the
/// default model carry the same player spawn, the same block set and the
/// same item set, however their entries happen to be ordered.
pub proof fn lemma_default_deterministic(r1: WorldRecord, r2: WorldRecord)
    requires
        r1@ == default_model(),
        r2@ == default_model(),
    ensures
        r1@.player_spawn == r2@.player_spawn,
        r1@.blocks == r2@.blocks,
        r1@.items == r2@.items,
{
}

/// Law: inserting two block entries with identical key into a block set
/// yields the same set as inserting one, and that set holds the key; a
/// well-formed record therefore never carries the entry twice.
pub proof fn lemma_structural_dedup(blocks: Set<BlockKey>, k1: BlockKey, k2: BlockKey)
    requires
        k1 == k2,
    ensures
        blocks.insert(k1).insert(k2) == blocks.insert(k1),
        blocks.insert(k1).contains(k2),
{
    assert(blocks.insert(k1).insert(k2) =~= blocks.insert(k1));
}

/// Law: in a well-formed record, a block key that is present is present in
/// exactly one entry of the underlying vector.
pub proof fn lemma_unique_block_entry(w: WorldRecord, k: BlockKey)
    requires
        w.wf(),
        w@.blocks.contains(k),
    ensures
        w.blocks@.map_values(|b: BlockRecord| b@).to_multiset().count(k) == 1,
{
    let keys = w.blocks@.map_values(|b: BlockRecord| b@);
    keys.lemma_multiset_has_no_duplicates();
    assert(keys.contains(k));
    let i = choose|i: int| 0 <= i < keys.len() && keys[i] == k;
    keys.to_multiset_ensures();
    assert(keys.to_multiset().contains(k));
}

} // verus!
