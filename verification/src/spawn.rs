//! The spawn reconciliation pipeline: from a loaded record to live
//! entities, through a decoupled request/consume protocol.
//!
//! [`plan_spawns`] is the producer: it turns a record into exactly one
//! spawn request per block entry, one per item entry, and one player spawn
//! request, to be published on whatever queue the host provides.  The
//! consumer side drains the queue once per scheduling tick: a request whose
//! tile-set or item name resolves against the relevant [`Catalog`] is kept
//! and becomes one live entity; one that does not resolve is dropped and
//! reported, without stopping the rest of the batch.

use vstd::prelude::*;

use crate::record::{BlockKey, BlockRecord, GridPosition, ItemKey, ItemRecord, PixelPosition,
    WorldRecord};

verus! {

/// A request to materialize one block entity.
pub struct BlockSpawnRequest {
    pub tile_set: String,
    pub tile_index: usize,
    pub tile_pos: GridPosition,
}

/// A request to materialize one item entity.
pub struct ItemSpawnRequest {
    pub item_name: String,
    pub position: PixelPosition,
}

/// A request to materialize the player entity.
#[derive(Clone, Copy, PartialEq, Eq, Structural, Debug)]
pub struct PlayerSpawnRequest {
    pub position: PixelPosition,
}

impl View for BlockSpawnRequest {
    type V = BlockKey;

    open spec fn view(&self) -> BlockKey {
        BlockKey {
            tile_set: self.tile_set@,
            tile_index: self.tile_index as int,
            grid_x: self.tile_pos.x as int,
            grid_y: self.tile_pos.y as int,
        }
    }
}

impl View for ItemSpawnRequest {
    type V = ItemKey;

    open spec fn view(&self) -> ItemKey {
        ItemKey {
            item_name: self.item_name@,
            pixel_x: self.position.x as int,
            pixel_y: self.position.y as int,
        }
    }
}

/// The full batch of spawn requests one record gives rise to.
pub struct SpawnBatch {
    pub blocks: Vec<BlockSpawnRequest>,
    pub items: Vec<ItemSpawnRequest>,
    pub player: PlayerSpawnRequest,
}

/// The producer stage: publishes one spawn request per record entry and
/// one player spawn request carrying the record's spawn position.
pub fn plan_spawns(w: &WorldRecord) -> (r: SpawnBatch)
    ensures
        r.blocks@.len() == w.blocks@.len(),
        r.blocks@.map_values(|q: BlockSpawnRequest| q@) == w.blocks@.map_values(
            |b: BlockRecord| b@,
        ),
        r.items@.len() == w.items@.len(),
        r.items@.map_values(|q: ItemSpawnRequest| q@) == w.items@.map_values(
            |it: ItemRecord| it@,
        ),
        r.player.position == w.player_spawn,
{
    let mut blocks: Vec<BlockSpawnRequest> = Vec::new();
    let mut i: usize = 0;
    while i < w.blocks.len()
        invariant
            0 <= i <= w.blocks@.len(),
            blocks@.len() == i,
            forall|j: int|
                0 <= j < i ==> (#[trigger] blocks@[j])@ == w.blocks@[j]@,
        decreases w.blocks@.len() - i,
    {
        let b = &w.blocks[i];
        let q = BlockSpawnRequest {
            tile_set: b.tile_set.clone(),
            tile_index: b.tile_index,
            tile_pos: b.tile_pos,
        };
        proof {
            assert(q@ =~= b@);
        }
        blocks.push(q);
        i += 1;
    }
    let mut items: Vec<ItemSpawnRequest> = Vec::new();
    let mut i: usize = 0;
    while i < w.items.len()
        invariant
            0 <= i <= w.items@.len(),
            items@.len() == i,
            forall|j: int|
                0 <= j < i ==> (#[trigger] items@[j])@ == w.items@[j]@,
        decreases w.items@.len() - i,
    {
        let it = &w.items[i];
        let q = ItemSpawnRequest { item_name: it.item_name.clone(), position: it.position };
        proof {
            assert(q@ =~= it@);
        }
        items.push(q);
        i += 1;
    }
    let r = SpawnBatch {
        blocks,
        items,
        player: PlayerSpawnRequest { position: w.player_spawn },
    };
    proof {
        assert(r.blocks@.map_values(|q: BlockSpawnRequest| q@) =~= w.blocks@.map_values(
            |b: BlockRecord| b@,
        ));
        assert(r.items@.map_values(|q: ItemSpawnRequest| q@) =~= w.items@.map_values(
            |it: ItemRecord| it@,
        ));
    }
    r
}

/// An externally-owned read-only catalog: the set of resolvable resource
/// names (tile sets, or items), injected into the consumer stage.
pub struct Catalog {
    pub names: Vec<String>,
}

impl View for Catalog {
    type V = Set<Seq<char>>;

    open spec fn view(&self) -> Set<Seq<char>> {
        self.names@.map_values(|s: String| s@).to_set()
    }
}

impl Catalog {
    /// An empty catalog.
    pub fn new() -> (r: Catalog)
        ensures
            r@ == Set::<Seq<char>>::empty(),
    {
        let r = Catalog { names: Vec::new() };
        proof {
            assert(r@ =~= Set::<Seq<char>>::empty());
        }
        r
    }

    /// Registers a resolvable name.
    pub fn register(&mut self, name: &str)
        ensures
            final(self)@ == old(self)@.insert(name@),
    {
        let ghost old_names = self.names@.map_values(|s: String| s@);
        self.names.push(name.to_owned());
        proof {
            assert(self.names@.map_values(|s: String| s@) =~= old_names + seq![name@]);
            Seq::<Seq<char>>::lemma_to_set_insert_commutes(old_names, name@);
        }
    }

    /// Whether a name resolves against the catalog.
    pub fn resolves(&self, name: &String) -> (r: bool)
        ensures
            r == self@.contains(name@),
    {
        let ghost keys = self.names@.map_values(|s: String| s@);
        let mut i: usize = 0;
        while i < self.names.len()
            invariant
                0 <= i <= self.names@.len(),
                keys == self.names@.map_values(|s: String| s@),
                forall|j: int| 0 <= j < i ==> keys[j] != name@,
            decreases self.names@.len() - i,
        {
            if self.names[i] == *name {
                proof {
                    assert(keys[i as int] == name@);
                    assert(keys.contains(name@));
                }
                return true;
            }
            i += 1;
        }
        proof {
            assert(!keys.contains(name@));
        }
        false
    }
}

/// The block requests of a batch that resolve against a tile-set catalog,
/// in their original order.
pub open spec fn resolvable_blocks(
    reqs: Seq<BlockSpawnRequest>,
    catalog: Set<Seq<char>>,
) -> Seq<BlockSpawnRequest> {
    reqs.filter(|q: BlockSpawnRequest| catalog.contains(q.tile_set@))
}

/// The item requests of a batch that resolve against an item catalog, in
/// their original order.
pub open spec fn resolvable_items(
    reqs: Seq<ItemSpawnRequest>,
    catalog: Set<Seq<char>>,
) -> Seq<ItemSpawnRequest> {
    reqs.filter(|q: ItemSpawnRequest| catalog.contains(q.item_name@))
}

/// The consumer stage for blocks: drains a batch of requests, keeping
/// exactly those whose tile set resolves — each kept request becomes one
/// live entity — and returning the dropped ones for reporting.
pub fn drain_block_requests(reqs: Vec<BlockSpawnRequest>, catalog: &Catalog) -> (r: (
    Vec<BlockSpawnRequest>,
    Vec<BlockSpawnRequest>,
))
    ensures
        r.0@ == resolvable_blocks(reqs@, catalog@),
        r.1@ == reqs@.filter(|q: BlockSpawnRequest| !catalog@.contains(q.tile_set@)),
{
    let mut kept: Vec<BlockSpawnRequest> = Vec::new();
    let mut dropped: Vec<BlockSpawnRequest> = Vec::new();
    let ghost all = reqs@;
    proof {
        reveal(Seq::filter);
        assert(all.take(0).len() == 0);
    }
    let mut i: usize = 0;
    while i < reqs.len()
        invariant
            0 <= i <= reqs@.len(),
            reqs@ == all,
            kept@ == resolvable_blocks(all.take(i as int), catalog@),
            dropped@ == all.take(i as int).filter(
                |q: BlockSpawnRequest| !catalog@.contains(q.tile_set@),
            ),
        decreases reqs@.len() - i,
    {
        let q = &reqs[i];
        let copy = BlockSpawnRequest {
            tile_set: q.tile_set.clone(),
            tile_index: q.tile_index,
            tile_pos: q.tile_pos,
        };
        proof {
            reveal(Seq::filter);
            assert(copy == all[i as int]);
            assert(all.take(i + 1 as int).drop_last() =~= all.take(i as int));
            assert(all.take(i + 1 as int).last() == all[i as int]);
        }
        if catalog.resolves(&q.tile_set) {
            kept.push(copy);
        } else {
            dropped.push(copy);
        }
        i += 1;
    }
    proof {
        assert(all.take(all.len() as int) =~= all);
    }
    (kept, dropped)
}

/// The consumer stage for items: drains a batch of requests, keeping
/// exactly those whose item name resolves — each kept request becomes one
/// live entity — and returning the dropped ones for reporting.
pub fn drain_item_requests(reqs: Vec<ItemSpawnRequest>, catalog: &Catalog) -> (r: (
    Vec<ItemSpawnRequest>,
    Vec<ItemSpawnRequest>,
))
    ensures
        r.0@ == resolvable_items(reqs@, catalog@),
        r.1@ == reqs@.filter(|q: ItemSpawnRequest| !catalog@.contains(q.item_name@)),
{
    let mut kept: Vec<ItemSpawnRequest> = Vec::new();
    let mut dropped: Vec<ItemSpawnRequest> = Vec::new();
    let ghost all = reqs@;
    proof {
        reveal(Seq::filter);
        assert(all.take(0).len() == 0);
    }
    let mut i: usize = 0;
    while i < reqs.len()
        invariant
            0 <= i <= reqs@.len(),
            reqs@ == all,
            kept@ == resolvable_items(all.take(i as int), catalog@),
            dropped@ == all.take(i as int).filter(
                |q: ItemSpawnRequest| !catalog@.contains(q.item_name@),
            ),
        decreases reqs@.len() - i,
    {
        let q = &reqs[i];
        let copy = ItemSpawnRequest { item_name: q.item_name.clone(), position: q.position };
        proof {
            reveal(Seq::filter);
            assert(copy == all[i as int]);
            assert(all.take(i + 1 as int).drop_last() =~= all.take(i as int));
            assert(all.take(i + 1 as int).last() == all[i as int]);
        }
        if catalog.resolves(&q.item_name) {
            kept.push(copy);
        } else {
            dropped.push(copy);
        }
        i += 1;
    }
    proof {
        assert(all.take(all.len() as int) =~= all);
    }
    (kept, dropped)
}

/// Law: spawn-catalog resilience.  Draining keeps every request that
/// resolves and only requests that resolve: an unresolvable request is
/// dropped without affecting any other request in the batch.
pub proof fn lemma_spawn_catalog_resilience(reqs: Seq<ItemSpawnRequest>, catalog: Set<Seq<char>>)
    ensures
        forall|i: int|
            0 <= i < resolvable_items(reqs, catalog).len() ==> catalog.contains(
                (#[trigger] resolvable_items(reqs, catalog)[i]).item_name@,
            ),
        forall|i: int|
            0 <= i < reqs.len() && catalog.contains((#[trigger] reqs[i]).item_name@)
                ==> resolvable_items(reqs, catalog).contains(reqs[i]),
{
    broadcast use vstd::seq_lib::group_filter_ensures;

    let pred = |q: ItemSpawnRequest| catalog.contains(q.item_name@);
    assert(reqs.filter(pred) == resolvable_items(reqs, catalog));
}

} // verus!
