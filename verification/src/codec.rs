//! The world-record codec: a fixed binary layout for [`WorldRecord`].
//!
//! The layout carries, in order: the player spawn position (two
//! little-endian two's-complement 32-bit integers), the block entries (a
//! little-endian 64-bit count, then each entry as name, tile index and grid
//! position) and the item entries (a count, then each entry as name and
//! pixel position).  A name is a 64-bit byte count followed by that many
//! bytes, one per character; only names whose characters are in the
//! seven-bit range can be laid out this way, so [`encode`] rejects a record
//! with any other name as unrepresentable.
//!
//! The layout has no magic number and no version tag: bytes that deviate
//! from it anywhere, or leave a remainder, fail to decode.

use vstd::prelude::*;
use vstd::bytes::{
    lemma_auto_spec_u32_to_from_le_bytes, lemma_auto_spec_u64_to_from_le_bytes,
    spec_u32_from_le_bytes, spec_u32_to_le_bytes, spec_u64_from_le_bytes, spec_u64_to_le_bytes,
    u32_from_le_bytes, u32_to_le_bytes, u64_from_le_bytes, u64_to_le_bytes,
};
use vstd::slice::{slice_subrange, slice_to_vec};
use vstd::string::StringExecFnsIsAscii;
use vstd::utf8::{is_ascii_chars, is_ascii_chars_encode_utf8};

use crate::record::{BlockKey, BlockRecord, GridPosition, ItemKey, ItemRecord, PixelPosition,
    WorldModel, WorldRecord};

verus! {

/// Why a record could not be encoded.
#[derive(Clone, Copy, PartialEq, Eq, Structural, Debug)]
pub enum EncodeError {
    /// A tile-set or item name holds a character outside the seven-bit
    /// range the layout can represent.
    UnencodableName,
}

/// Why bytes could not be decoded.
#[derive(Clone, Copy, PartialEq, Eq, Structural, Debug)]
pub enum DecodeError {
    /// The bytes do not match the expected binary layout: truncated,
    /// corrupted, or written in some other format.
    Malformed,
}

/// A name can be laid out iff every character fits in seven bits.
pub open spec fn name_encodable(s: Seq<char>) -> bool {
    is_ascii_chars(s)
}

/// A record can be encoded iff every name it holds can be laid out.
pub open spec fn encodable(w: WorldRecord) -> bool {
    &&& forall|j: int| 0 <= j < w.blocks@.len() ==> name_encodable(#[trigger] w.blocks@[j].tile_set@)
    &&& forall|j: int| 0 <= j < w.items@.len() ==> name_encodable(#[trigger] w.items@[j].item_name@)
}

/// The two's-complement 32-bit image of a signed position coordinate.
pub open spec fn u32_of_i32(v: i32) -> u32 {
    if v >= 0 {
        v as u32
    } else {
        (v + 0x1_0000_0000) as u32
    }
}

/// The signed coordinate a two's-complement 32-bit image stands for.
pub open spec fn i32_of_u32(v: u32) -> i32 {
    if v < 0x8000_0000 {
        v as i32
    } else {
        (v - 0x1_0000_0000) as i32
    }
}

/// Reading back a coordinate's image yields the coordinate.
pub proof fn lemma_i32_u32_inverse(v: i32)
    ensures
        i32_of_u32(u32_of_i32(v)) == v,
{
}

/// Layout of an unsigned 64-bit count: eight bytes, little endian.
pub open spec fn enc_u64(v: u64) -> Seq<u8> {
    spec_u64_to_le_bytes(v)
}

/// Layout of a signed 32-bit coordinate: four bytes, little endian,
/// two's complement.
pub open spec fn enc_i32(v: i32) -> Seq<u8> {
    spec_u32_to_le_bytes(u32_of_i32(v))
}

/// Layout of a name: a 64-bit byte count, then one byte per character.
pub open spec fn enc_str(s: Seq<char>) -> Seq<u8> {
    enc_u64(s.len() as u64) + s.map_values(|c: char| c as u8)
}

/// Layout of one block entry.
pub open spec fn enc_block(b: BlockRecord) -> Seq<u8> {
    enc_str(b.tile_set@) + enc_u64(b.tile_index as u64) + enc_i32(b.tile_pos.x) + enc_i32(
        b.tile_pos.y,
    )
}

/// Layout of a run of block entries, in order.
pub open spec fn enc_blocks(s: Seq<BlockRecord>) -> Seq<u8>
    decreases s.len(),
{
    if s.len() == 0 {
        Seq::<u8>::empty()
    } else {
        enc_block(s[0]) + enc_blocks(s.drop_first())
    }
}

/// Layout of one item entry.
pub open spec fn enc_item(it: ItemRecord) -> Seq<u8> {
    enc_str(it.item_name@) + enc_i32(it.position.x) + enc_i32(it.position.y)
}

/// Layout of a run of item entries, in order.
pub open spec fn enc_items(s: Seq<ItemRecord>) -> Seq<u8>
    decreases s.len(),
{
    if s.len() == 0 {
        Seq::<u8>::empty()
    } else {
        enc_item(s[0]) + enc_items(s.drop_first())
    }
}

/// The full layout of a record: spawn position, then counted runs of block
/// and item entries, in the order the record's vectors hold them.
pub open spec fn spec_encode(w: WorldRecord) -> Seq<u8> {
    enc_i32(w.player_spawn.x) + enc_i32(w.player_spawn.y) + enc_u64(w.blocks@.len() as u64)
        + enc_blocks(w.blocks@) + enc_u64(w.items@.len() as u64) + enc_items(w.items@)
}

/// Appending an entry to a run appends its layout.
pub proof fn lemma_enc_blocks_push(s: Seq<BlockRecord>, b: BlockRecord)
    ensures
        enc_blocks(s.push(b)) == enc_blocks(s) + enc_block(b),
    decreases s.len(),
{
    if s.len() == 0 {
        assert(s.push(b).drop_first() =~= s);
        assert(enc_blocks(s.push(b)) =~= enc_blocks(s) + enc_block(b));
    } else {
        assert(s.push(b).drop_first() =~= s.drop_first().push(b));
        lemma_enc_blocks_push(s.drop_first(), b);
        assert(enc_blocks(s.push(b)) =~= enc_blocks(s) + enc_block(b));
    }
}

/// Appending an entry to a run appends its layout.
pub proof fn lemma_enc_items_push(s: Seq<ItemRecord>, it: ItemRecord)
    ensures
        enc_items(s.push(it)) == enc_items(s) + enc_item(it),
    decreases s.len(),
{
    if s.len() == 0 {
        assert(s.push(it).drop_first() =~= s);
        assert(enc_items(s.push(it)) =~= enc_items(s) + enc_item(it));
    } else {
        assert(s.push(it).drop_first() =~= s.drop_first().push(it));
        lemma_enc_items_push(s.drop_first(), it);
        assert(enc_items(s.push(it)) =~= enc_items(s) + enc_item(it));
    }
}

/// Computes the two's-complement 32-bit image of a coordinate.
fn i32_image(v: i32) -> (r: u32)
    ensures
        r == u32_of_i32(v),
{
    if v >= 0 {
        v as u32
    } else {
        ((v as i64) + 0x1_0000_0000i64) as u32
    }
}

/// Recovers the coordinate a two's-complement 32-bit image stands for.
fn i32_unimage(v: u32) -> (r: i32)
    ensures
        r == i32_of_u32(v),
{
    if v < 0x8000_0000 {
        v as i32
    } else {
        ((v as i64) - 0x1_0000_0000i64) as i32
    }
}

/// Appends the layout of a 64-bit count.
fn push_u64(out: &mut Vec<u8>, v: u64)
    ensures
        final(out)@ == old(out)@ + enc_u64(v),
{
    let mut bytes = u64_to_le_bytes(v);
    out.append(&mut bytes);
}

/// Appends the layout of a signed 32-bit coordinate.
fn push_i32(out: &mut Vec<u8>, v: i32)
    ensures
        final(out)@ == old(out)@ + enc_i32(v),
{
    let mut bytes = u32_to_le_bytes(i32_image(v));
    out.append(&mut bytes);
}

/// Appends the layout of a name.
fn push_name(out: &mut Vec<u8>, s: &String)
    requires
        name_encodable(s@),
    ensures
        final(out)@ == old(out)@ + enc_str(s@),
{
    let bytes = s.as_str().as_bytes_vec();
    proof {
        is_ascii_chars_encode_utf8(s@);
        assert(bytes@ =~= s@.map_values(|c: char| c as u8));
    }
    push_u64(out, bytes.len() as u64);
    let mut tail = bytes;
    out.append(&mut tail);
    proof {
        assert(final(out)@ =~= old(out)@ + enc_str(s@));
    }
}

/// Appends the layout of one block entry.
fn push_block(out: &mut Vec<u8>, b: &BlockRecord)
    requires
        name_encodable(b.tile_set@),
    ensures
        final(out)@ == old(out)@ + enc_block(*b),
{
    push_name(out, &b.tile_set);
    push_u64(out, b.tile_index as u64);
    push_i32(out, b.tile_pos.x);
    push_i32(out, b.tile_pos.y);
    proof {
        assert(final(out)@ =~= old(out)@ + enc_block(*b));
    }
}

/// Appends the layout of one item entry.
fn push_item(out: &mut Vec<u8>, it: &ItemRecord)
    requires
        name_encodable(it.item_name@),
    ensures
        final(out)@ == old(out)@ + enc_item(*it),
{
    push_name(out, &it.item_name);
    push_i32(out, it.position.x);
    push_i32(out, it.position.y);
    proof {
        assert(final(out)@ =~= old(out)@ + enc_item(*it));
    }
}

/// Serializes a record into the fixed binary layout.
///
/// Succeeds exactly when the record is representable in the layout, i.e.
/// when every name it holds fits the layout's one-byte-per-character form;
/// the bytes of a success are exactly the record's layout.
pub fn encode(w: &WorldRecord) -> (r: Result<Vec<u8>, EncodeError>)
    ensures
        r is Ok <==> encodable(*w),
        r is Ok ==> fits(*w),
        r matches Ok(bytes) ==> bytes@ == spec_encode(*w),
        r matches Err(e) ==> e == EncodeError::UnencodableName,
{
    let block_total = w.blocks.len();
    let item_total = w.items.len();
    let mut i: usize = 0;
    while i < block_total
        invariant
            block_total == w.blocks@.len(),
            0 <= i <= w.blocks@.len(),
            forall|j: int| 0 <= j < i ==> name_encodable(#[trigger] w.blocks@[j].tile_set@),
            forall|j: int|
                0 <= j < i ==> (#[trigger] w.blocks@[j]).tile_set@.len() <= usize::MAX,
        decreases w.blocks@.len() - i,
    {
        if !w.blocks[i].tile_set.is_ascii() {
            return Err(EncodeError::UnencodableName);
        }
        let byte_len = w.blocks[i].tile_set.as_str().as_bytes().len();
        proof {
            is_ascii_chars_encode_utf8(w.blocks@[i as int].tile_set@);
            assert(w.blocks@[i as int].tile_set@.len() == byte_len);
        }
        i += 1;
    }
    let mut i: usize = 0;
    while i < item_total
        invariant
            item_total == w.items@.len(),
            0 <= i <= w.items@.len(),
            forall|j: int| 0 <= j < w.blocks@.len() ==> name_encodable(
                #[trigger] w.blocks@[j].tile_set@,
            ),
            forall|j: int|
                0 <= j < w.blocks@.len() ==> (#[trigger] w.blocks@[j]).tile_set@.len()
                    <= usize::MAX,
            forall|j: int| 0 <= j < i ==> name_encodable(#[trigger] w.items@[j].item_name@),
            forall|j: int|
                0 <= j < i ==> (#[trigger] w.items@[j]).item_name@.len() <= usize::MAX,
        decreases w.items@.len() - i,
    {
        if !w.items[i].item_name.is_ascii() {
            return Err(EncodeError::UnencodableName);
        }
        let byte_len = w.items[i].item_name.as_str().as_bytes().len();
        proof {
            is_ascii_chars_encode_utf8(w.items@[i as int].item_name@);
            assert(w.items@[i as int].item_name@.len() == byte_len);
        }
        i += 1;
    }
    proof {
        assert(fits(*w));
    }
    let mut out: Vec<u8> = Vec::new();
    push_i32(&mut out, w.player_spawn.x);
    push_i32(&mut out, w.player_spawn.y);
    push_u64(&mut out, w.blocks.len() as u64);
    let ghost header = out@;
    let mut i: usize = 0;
    while i < w.blocks.len()
        invariant
            0 <= i <= w.blocks@.len(),
            encodable(*w),
            out@ == header + enc_blocks(w.blocks@.take(i as int)),
        decreases w.blocks@.len() - i,
    {
        push_block(&mut out, &w.blocks[i]);
        proof {
            assert(w.blocks@.take(i + 1 as int) =~= w.blocks@.take(i as int).push(
                w.blocks@[i as int],
            ));
            lemma_enc_blocks_push(w.blocks@.take(i as int), w.blocks@[i as int]);
            assert(out@ =~= header + enc_blocks(w.blocks@.take(i + 1 as int)));
        }
        i += 1;
    }
    proof {
        assert(w.blocks@.take(w.blocks@.len() as int) =~= w.blocks@);
    }
    push_u64(&mut out, w.items.len() as u64);
    let ghost header2 = out@;
    let mut i: usize = 0;
    while i < w.items.len()
        invariant
            0 <= i <= w.items@.len(),
            encodable(*w),
            out@ == header2 + enc_items(w.items@.take(i as int)),
        decreases w.items@.len() - i,
    {
        push_item(&mut out, &w.items[i]);
        proof {
            assert(w.items@.take(i + 1 as int) =~= w.items@.take(i as int).push(
                w.items@[i as int],
            ));
            lemma_enc_items_push(w.items@.take(i as int), w.items@[i as int]);
            assert(out@ =~= header2 + enc_items(w.items@.take(i + 1 as int)));
        }
        i += 1;
    }
    proof {
        assert(w.items@.take(w.items@.len() as int) =~= w.items@);
        assert(out@ =~= spec_encode(*w));
    }
    Ok(out)
}

/// Reads a 64-bit count off the front of the remaining bytes.
pub open spec fn parse_u64(s: Seq<u8>) -> Option<(u64, Seq<u8>)> {
    if s.len() >= 8 {
        Some((spec_u64_from_le_bytes(s.subrange(0, 8)), s.skip(8)))
    } else {
        None
    }
}

/// Reads a signed 32-bit coordinate off the front of the remaining bytes.
pub open spec fn parse_i32(s: Seq<u8>) -> Option<(i32, Seq<u8>)> {
    if s.len() >= 4 {
        Some((i32_of_u32(spec_u32_from_le_bytes(s.subrange(0, 4))), s.skip(4)))
    } else {
        None
    }
}

/// Whether every byte is in the seven-bit range a name character may take.
pub open spec fn name_bytes_ok(s: Seq<u8>) -> bool {
    forall|i: int| 0 <= i < s.len() ==> s[i] < 128
}

/// Reads a name off the front of the remaining bytes.
pub open spec fn parse_name(s: Seq<u8>) -> Option<(Seq<char>, Seq<u8>)> {
    match parse_u64(s) {
        None => None,
        Some((n, r)) => if n <= r.len() && name_bytes_ok(r.subrange(0, n as int)) {
            Some((r.subrange(0, n as int).map_values(|b: u8| b as char), r.skip(n as int)))
        } else {
            None
        },
    }
}

/// Reads one block entry off the front of the remaining bytes.
pub open spec fn parse_block(s: Seq<u8>) -> Option<(BlockKey, Seq<u8>)> {
    match parse_name(s) {
        None => None,
        Some((name, r1)) => match parse_u64(r1) {
            None => None,
            Some((idx, r2)) => if idx <= usize::MAX {
                match parse_i32(r2) {
                    None => None,
                    Some((x, r3)) => match parse_i32(r3) {
                        None => None,
                        Some((y, r4)) => Some(
                            (
                                BlockKey {
                                    tile_set: name,
                                    tile_index: idx as int,
                                    grid_x: x as int,
                                    grid_y: y as int,
                                },
                                r4,
                            ),
                        ),
                    },
                }
            } else {
                None
            },
        },
    }
}

/// Reads a counted run of block entries off the front of the remaining bytes.
pub open spec fn parse_blocks(n: nat, s: Seq<u8>) -> Option<(Seq<BlockKey>, Seq<u8>)>
    decreases n,
{
    if n == 0 {
        Some((Seq::<BlockKey>::empty(), s))
    } else {
        match parse_block(s) {
            None => None,
            Some((k, r)) => match parse_blocks((n - 1) as nat, r) {
                None => None,
                Some((ks, r2)) => Some((seq![k] + ks, r2)),
            },
        }
    }
}

/// Reads one item entry off the front of the remaining bytes.
pub open spec fn parse_item(s: Seq<u8>) -> Option<(ItemKey, Seq<u8>)> {
    match parse_name(s) {
        None => None,
        Some((name, r1)) => match parse_i32(r1) {
            None => None,
            Some((x, r2)) => match parse_i32(r2) {
                None => None,
                Some((y, r3)) => Some(
                    (ItemKey { item_name: name, pixel_x: x as int, pixel_y: y as int }, r3),
                ),
            },
        },
    }
}

/// Reads a counted run of item entries off the front of the remaining bytes.
pub open spec fn parse_items(n: nat, s: Seq<u8>) -> Option<(Seq<ItemKey>, Seq<u8>)>
    decreases n,
{
    if n == 0 {
        Some((Seq::<ItemKey>::empty(), s))
    } else {
        match parse_item(s) {
            None => None,
            Some((k, r)) => match parse_items((n - 1) as nat, r) {
                None => None,
                Some((ks, r2)) => Some((seq![k] + ks, r2)),
            },
        }
    }
}

/// The abstract content a byte sequence decodes to, if it matches the
/// layout exactly, with nothing left over; entries that repeat a key
/// collapse into the sets.
pub open spec fn spec_decode(s: Seq<u8>) -> Option<WorldModel> {
    match parse_i32(s) {
        None => None,
        Some((px, r1)) => match parse_i32(r1) {
            None => None,
            Some((py, r2)) => match parse_u64(r2) {
                None => None,
                Some((bn, r3)) => match parse_blocks(bn as nat, r3) {
                    None => None,
                    Some((bks, r4)) => match parse_u64(r4) {
                        None => None,
                        Some((inn, r5)) => match parse_items(inn as nat, r5) {
                            None => None,
                            Some((iks, r6)) => if r6.len() == 0 {
                                Some(
                                    WorldModel {
                                        player_spawn: (px as int, py as int),
                                        blocks: bks.to_set(),
                                        items: iks.to_set(),
                                    },
                                )
                            } else {
                                None
                            },
                        },
                    },
                },
            },
        },
    }
}

/// Relies on `String::from_utf8`: bytes below 0x80 are valid UTF-8 and
/// decode to the characters with the same code points.
#[verifier::external_body]
fn string_from_ascii_bytes(bytes: Vec<u8>) -> (r: String)
    requires
        name_bytes_ok(bytes@),
    ensures
        r@ == bytes@.map_values(|b: u8| b as char),
{
    match String::from_utf8(bytes) {
        Ok(s) => s,
        Err(_) => String::new(),
    }
}

/// Reads a 64-bit count at `pos`.
fn read_u64(bytes: &Vec<u8>, pos: usize) -> (r: Option<(u64, usize)>)
    requires
        pos <= bytes@.len(),
    ensures
        r matches Some(vp) ==> parse_u64(bytes@.skip(pos as int)) == Some(
            (vp.0, bytes@.skip(vp.1 as int)),
        ),
        r matches Some(vp) ==> pos <= vp.1 <= bytes@.len(),
        r is None ==> parse_u64(bytes@.skip(pos as int)) is None,
{
    if bytes.len() - pos >= 8 {
        let sl = slice_subrange(bytes.as_slice(), pos, pos + 8);
        let v = u64_from_le_bytes(sl);
        proof {
            assert(bytes@.skip(pos as int).subrange(0, 8) =~= bytes@.subrange(
                pos as int,
                pos + 8 as int,
            ));
            assert(bytes@.skip(pos as int).skip(8) =~= bytes@.skip(pos + 8 as int));
        }
        Some((v, pos + 8))
    } else {
        None
    }
}

/// Reads a signed 32-bit coordinate at `pos`.
fn read_i32(bytes: &Vec<u8>, pos: usize) -> (r: Option<(i32, usize)>)
    requires
        pos <= bytes@.len(),
    ensures
        r matches Some(vp) ==> parse_i32(bytes@.skip(pos as int)) == Some(
            (vp.0, bytes@.skip(vp.1 as int)),
        ),
        r matches Some(vp) ==> pos <= vp.1 <= bytes@.len(),
        r is None ==> parse_i32(bytes@.skip(pos as int)) is None,
{
    if bytes.len() - pos >= 4 {
        let sl = slice_subrange(bytes.as_slice(), pos, pos + 4);
        let v = i32_unimage(u32_from_le_bytes(sl));
        proof {
            assert(bytes@.skip(pos as int).subrange(0, 4) =~= bytes@.subrange(
                pos as int,
                pos + 4 as int,
            ));
            assert(bytes@.skip(pos as int).skip(4) =~= bytes@.skip(pos + 4 as int));
        }
        Some((v, pos + 4))
    } else {
        None
    }
}

/// Reads a name at `pos`.
#[verifier::loop_isolation(false)]
fn read_name(bytes: &Vec<u8>, pos: usize) -> (r: Option<(String, usize)>)
    requires
        pos <= bytes@.len(),
    ensures
        r matches Some(vp) ==> parse_name(bytes@.skip(pos as int)) == Some(
            (vp.0@, bytes@.skip(vp.1 as int)),
        ),
        r matches Some(vp) ==> pos <= vp.1 <= bytes@.len(),
        r matches Some(vp) ==> name_encodable(vp.0@),
        r is None ==> parse_name(bytes@.skip(pos as int)) is None,
{
    let n_p1 = match read_u64(bytes, pos) {
        None => {
            return None;
        },
        Some(v) => v,
    };
    let n = n_p1.0;
    let p1 = n_p1.1;
    let remaining = bytes.len() - p1;
    if n > remaining as u64 {
        proof {
            assert(bytes@.skip(p1 as int).len() == remaining as int);
        }
        return None;
    }
    let nn = n as usize;
    let ghost rest = bytes@.skip(p1 as int);
    proof {
        assert(rest.subrange(0, nn as int) =~= bytes@.subrange(p1 as int, (p1 + nn) as int));
    }
    let mut k: usize = 0;
    while k < nn
        invariant
            0 <= k <= nn,
            p1 + nn <= bytes@.len(),
            forall|j: int| 0 <= j < k ==> #[trigger] bytes@[p1 + j] < 128,
        decreases nn - k,
    {
        if bytes[p1 + k] >= 128 {
            proof {
                assert(bytes@.subrange(p1 as int, (p1 + nn) as int)[k as int] == bytes@[p1 + k]);
                assert(!name_bytes_ok(rest.subrange(0, nn as int)));
            }
            return None;
        }
        k += 1;
    }
    proof {
        assert forall|j: int| 0 <= j < nn implies #[trigger] bytes@.subrange(
            p1 as int,
            (p1 + nn) as int,
        )[j] < 128 by {
            assert(bytes@.subrange(p1 as int, (p1 + nn) as int)[j] == bytes@[p1 + j]);
        }
        assert(name_bytes_ok(rest.subrange(0, nn as int)));
    }
    let sl = slice_subrange(bytes.as_slice(), p1, p1 + nn);
    let bv = slice_to_vec(sl);
    let s = string_from_ascii_bytes(bv);
    proof {
        assert(s@ =~= rest.subrange(0, nn as int).map_values(|b: u8| b as char));
        assert(rest.skip(nn as int) =~= bytes@.skip((p1 + nn) as int));
        assert forall|j: int| 0 <= j < s@.len() implies '\0' <= #[trigger] s@[j] <= '\u{7f}' by {
            assert(s@[j] == (rest.subrange(0, nn as int)[j] as char));
        }
    }
    Some((s, p1 + nn))
}

/// Reads one block entry at `pos`.
fn read_block(bytes: &Vec<u8>, pos: usize) -> (r: Option<(BlockRecord, usize)>)
    requires
        pos <= bytes@.len(),
    ensures
        r matches Some(vp) ==> parse_block(bytes@.skip(pos as int)) == Some(
            (vp.0@, bytes@.skip(vp.1 as int)),
        ),
        r matches Some(vp) ==> pos <= vp.1 <= bytes@.len(),
        r matches Some(vp) ==> name_encodable(vp.0.tile_set@),
        r is None ==> parse_block(bytes@.skip(pos as int)) is None,
{
    let name_p = match read_name(bytes, pos) {
        None => {
            return None;
        },
        Some(v) => v,
    };
    let idx_p = match read_u64(bytes, name_p.1) {
        None => {
            return None;
        },
        Some(v) => v,
    };
    if idx_p.0 > usize::MAX as u64 {
        return None;
    }
    let x_p = match read_i32(bytes, idx_p.1) {
        None => {
            return None;
        },
        Some(v) => v,
    };
    let y_p = match read_i32(bytes, x_p.1) {
        None => {
            return None;
        },
        Some(v) => v,
    };
    let b = BlockRecord {
        tile_set: name_p.0,
        tile_index: idx_p.0 as usize,
        tile_pos: GridPosition { x: x_p.0, y: y_p.0 },
    };
    proof {
        assert(parse_block(bytes@.skip(pos as int)) == Some((b@, bytes@.skip(y_p.1 as int))));
    }
    Some((b, y_p.1))
}

/// Reads one item entry at `pos`.
fn read_item(bytes: &Vec<u8>, pos: usize) -> (r: Option<(ItemRecord, usize)>)
    requires
        pos <= bytes@.len(),
    ensures
        r matches Some(vp) ==> parse_item(bytes@.skip(pos as int)) == Some(
            (vp.0@, bytes@.skip(vp.1 as int)),
        ),
        r matches Some(vp) ==> pos <= vp.1 <= bytes@.len(),
        r matches Some(vp) ==> name_encodable(vp.0.item_name@),
        r is None ==> parse_item(bytes@.skip(pos as int)) is None,
{
    let name_p = match read_name(bytes, pos) {
        None => {
            return None;
        },
        Some(v) => v,
    };
    let x_p = match read_i32(bytes, name_p.1) {
        None => {
            return None;
        },
        Some(v) => v,
    };
    let y_p = match read_i32(bytes, x_p.1) {
        None => {
            return None;
        },
        Some(v) => v,
    };
    let it = ItemRecord { item_name: name_p.0, position: PixelPosition { x: x_p.0, y: y_p.0 } };
    proof {
        assert(parse_item(bytes@.skip(pos as int)) == Some((it@, bytes@.skip(y_p.1 as int))));
    }
    Some((it, y_p.1))
}

/// Deserializes a record from the fixed binary layout.
///
/// Succeeds exactly on byte sequences that match the layout with nothing
/// left over; the result is then well formed and carries exactly the
/// decoded content, entries with repeated keys collapsed.
#[verifier::loop_isolation(false)]
pub fn decode(bytes: &Vec<u8>) -> (r: Result<WorldRecord, DecodeError>)
    ensures
        r is Ok <==> spec_decode(bytes@) is Some,
        r matches Ok(w) ==> Some(w@) == spec_decode(bytes@),
        r matches Ok(w) ==> w.wf() && encodable(w),
        r matches Err(e) ==> e == DecodeError::Malformed,
{
    let px_p = match read_i32(bytes, 0) {
        None => {
            proof {
                assert(bytes@.skip(0) =~= bytes@);
            }
            return Err(DecodeError::Malformed);
        },
        Some(v) => v,
    };
    proof {
        assert(bytes@.skip(0) =~= bytes@);
    }
    let py_p = match read_i32(bytes, px_p.1) {
        None => {
            return Err(DecodeError::Malformed);
        },
        Some(v) => v,
    };
    let bn_p = match read_u64(bytes, py_p.1) {
        None => {
            return Err(DecodeError::Malformed);
        },
        Some(v) => v,
    };
    let bn = bn_p.0;
    let mut w = WorldRecord::new(PixelPosition { x: px_p.0, y: py_p.0 });
    let ghost rest0 = bytes@.skip(bn_p.1 as int);
    let ghost built0: Seq<BlockKey> = Seq::<BlockKey>::empty();
    let mut cur: usize = bn_p.1;
    let ghost built = built0;
    let mut i: u64 = 0;
    proof {
        assert forall|ks: Seq<BlockKey>| #[trigger] (built + ks) =~= ks by {
        }
    }
    while i < bn
        invariant
            0 <= i <= bn,
            cur <= bytes@.len(),
            built.len() == i,
            w.wf(),
            encodable(w),
            w.items@.len() == 0,
            w@.player_spawn == (px_p.0 as int, py_p.0 as int),
            w@.blocks == built.to_set(),
            w@.items == Set::<ItemKey>::empty(),
            forall|ks: Seq<BlockKey>, rr: Seq<u8>|
                parse_blocks((bn - i) as nat, bytes@.skip(cur as int)) == Some::<
                    (Seq<BlockKey>, Seq<u8>),
                >((ks, rr)) ==> parse_blocks(bn as nat, rest0) == Some::<
                    (Seq<BlockKey>, Seq<u8>),
                >((built + ks, rr)),
            parse_blocks((bn - i) as nat, bytes@.skip(cur as int)) is None ==> parse_blocks(
                bn as nat,
                rest0,
            ) is None,
        decreases bn - i,
    {
        let b_p = match read_block(bytes, cur) {
            None => {
                proof {
                    assert(parse_blocks((bn - i) as nat, bytes@.skip(cur as int)) is None);
                }
                return Err(DecodeError::Malformed);
            },
            Some(v) => v,
        };
        let ghost k = b_p.0@;
        let ghost prev_built = built;
        let ghost prev_cur = cur as int;
        proof {
            built = built.push(k);
            assert forall|ks: Seq<BlockKey>, rr: Seq<u8>|
                parse_blocks((bn - (i + 1)) as nat, bytes@.skip(b_p.1 as int)) == Some::<
                    (Seq<BlockKey>, Seq<u8>),
                >((ks, rr)) implies parse_blocks(bn as nat, rest0) == Some::<
                (Seq<BlockKey>, Seq<u8>),
            >((built + ks, rr)) by {
                assert(parse_blocks((bn - i) as nat, bytes@.skip(prev_cur)) == Some((
                    seq![k] + ks,
                    rr,
                )));
                assert(prev_built + (seq![k] + ks) =~= built + ks);
            }
            if parse_blocks((bn - (i + 1)) as nat, bytes@.skip(b_p.1 as int)) is None {
                assert(parse_blocks((bn - i) as nat, bytes@.skip(prev_cur)) is None);
            }
        }
        w.insert_block(b_p.0);
        proof {
            Seq::<BlockKey>::lemma_to_set_insert_commutes(prev_built, k);
            assert(prev_built + seq![k] =~= built);
            assert(w@.blocks == built.to_set());
        }
        cur = b_p.1;
        i += 1;
    }
    proof {
        assert(parse_blocks((bn - i) as nat, bytes@.skip(cur as int)) == Some((
            Seq::<BlockKey>::empty(),
            bytes@.skip(cur as int),
        )));
        assert(built + Seq::<BlockKey>::empty() =~= built);
        assert(parse_blocks(bn as nat, rest0) == Some((built, bytes@.skip(cur as int))));
    }
    let ghost bks = built;
    let in_p = match read_u64(bytes, cur) {
        None => {
            return Err(DecodeError::Malformed);
        },
        Some(v) => v,
    };
    let inn = in_p.0;
    let ghost irest0 = bytes@.skip(in_p.1 as int);
    let mut icur: usize = in_p.1;
    let ghost ibuilt: Seq<ItemKey> = Seq::<ItemKey>::empty();
    let mut j: u64 = 0;
    proof {
        assert forall|ks: Seq<ItemKey>| #[trigger] (ibuilt + ks) =~= ks by {
        }
    }
    while j < inn
        invariant
            0 <= j <= inn,
            icur <= bytes@.len(),
            ibuilt.len() == j,
            w.wf(),
            encodable(w),
            w@.player_spawn == (px_p.0 as int, py_p.0 as int),
            w@.blocks == bks.to_set(),
            w@.items == ibuilt.to_set(),
            forall|ks: Seq<ItemKey>, rr: Seq<u8>|
                parse_items((inn - j) as nat, bytes@.skip(icur as int)) == Some::<
                    (Seq<ItemKey>, Seq<u8>),
                >((ks, rr)) ==> parse_items(inn as nat, irest0) == Some::<
                    (Seq<ItemKey>, Seq<u8>),
                >((ibuilt + ks, rr)),
            parse_items((inn - j) as nat, bytes@.skip(icur as int)) is None ==> parse_items(
                inn as nat,
                irest0,
            ) is None,
        decreases inn - j,
    {
        let it_p = match read_item(bytes, icur) {
            None => {
                proof {
                    assert(parse_items((inn - j) as nat, bytes@.skip(icur as int)) is None);
                }
                return Err(DecodeError::Malformed);
            },
            Some(v) => v,
        };
        let ghost k = it_p.0@;
        let ghost prev_built = ibuilt;
        let ghost prev_cur = icur as int;
        proof {
            ibuilt = ibuilt.push(k);
            assert forall|ks: Seq<ItemKey>, rr: Seq<u8>|
                parse_items((inn - (j + 1)) as nat, bytes@.skip(it_p.1 as int)) == Some::<
                    (Seq<ItemKey>, Seq<u8>),
                >((ks, rr)) implies parse_items(inn as nat, irest0) == Some::<
                (Seq<ItemKey>, Seq<u8>),
            >((ibuilt + ks, rr)) by {
                assert(parse_items((inn - j) as nat, bytes@.skip(prev_cur)) == Some((
                    seq![k] + ks,
                    rr,
                )));
                assert(prev_built + (seq![k] + ks) =~= ibuilt + ks);
            }
            if parse_items((inn - (j + 1)) as nat, bytes@.skip(it_p.1 as int)) is None {
                assert(parse_items((inn - j) as nat, bytes@.skip(prev_cur)) is None);
            }
        }
        w.insert_item(it_p.0);
        proof {
            Seq::<ItemKey>::lemma_to_set_insert_commutes(prev_built, k);
            assert(prev_built + seq![k] =~= ibuilt);
            assert(w@.items == ibuilt.to_set());
        }
        icur = it_p.1;
        j += 1;
    }
    proof {
        assert(parse_items((inn - j) as nat, bytes@.skip(icur as int)) == Some((
            Seq::<ItemKey>::empty(),
            bytes@.skip(icur as int),
        )));
        assert(ibuilt + Seq::<ItemKey>::empty() =~= ibuilt);
        assert(parse_items(inn as nat, irest0) == Some((ibuilt, bytes@.skip(icur as int))));
    }
    if icur != bytes.len() {
        proof {
            assert(bytes@.skip(icur as int).len() != 0);
        }
        return Err(DecodeError::Malformed);
    }
    proof {
        assert(bytes@.skip(icur as int).len() == 0);
        assert(spec_decode(bytes@) == Some(w@));
    }
    Ok(w)
}

/// Machine-size bounds that hold of every record an executable built: entry
/// counts and name lengths fit in `usize`.
pub open spec fn fits(w: WorldRecord) -> bool {
    &&& w.blocks@.len() <= usize::MAX
    &&& w.items@.len() <= usize::MAX
    &&& forall|j: int|
        0 <= j < w.blocks@.len() ==> (#[trigger] w.blocks@[j].tile_set@).len() <= usize::MAX
    &&& forall|j: int|
        0 <= j < w.items@.len() ==> (#[trigger] w.items@[j].item_name@).len() <= usize::MAX
}

/// A record whose abstract model carries only representable names, and
/// whose entry counts fit the machine, is encodable: every entry's name
/// appears in the model's sets.
pub proof fn lemma_encodable_from_model(w: WorldRecord)
    requires
        forall|k: BlockKey| #[trigger] w@.blocks.contains(k) ==> name_encodable(k.tile_set)
            && k.tile_set.len() <= usize::MAX,
        forall|k: ItemKey| #[trigger] w@.items.contains(k) ==> name_encodable(k.item_name)
            && k.item_name.len() <= usize::MAX,
        w.blocks@.len() <= usize::MAX,
        w.items@.len() <= usize::MAX,
    ensures
        encodable(w),
        fits(w),
{
    let bkeys = w.blocks@.map_values(|b: BlockRecord| b@);
    assert forall|j: int| 0 <= j < w.blocks@.len() implies name_encodable(
        (#[trigger] w.blocks@[j]).tile_set@,
    ) && w.blocks@[j].tile_set@.len() <= usize::MAX by {
        assert(bkeys[j] == w.blocks@[j]@);
        assert(bkeys.contains(bkeys[j]));
        assert(w@.blocks.contains(w.blocks@[j]@));
    }
    let ikeys = w.items@.map_values(|it: ItemRecord| it@);
    assert forall|j: int| 0 <= j < w.items@.len() implies name_encodable(
        (#[trigger] w.items@[j]).item_name@,
    ) && w.items@[j].item_name@.len() <= usize::MAX by {
        assert(ikeys[j] == w.items@[j]@);
        assert(ikeys.contains(ikeys[j]));
        assert(w@.items.contains(w.items@[j]@));
    }
}

/// Reading a count off its own layout yields the count and the remainder.
pub proof fn lemma_parse_u64_inverse(v: u64, rest: Seq<u8>)
    ensures
        parse_u64(enc_u64(v) + rest) == Some((v, rest)),
{
    lemma_auto_spec_u64_to_from_le_bytes();
    assert((enc_u64(v) + rest).subrange(0, 8) =~= enc_u64(v));
    assert((enc_u64(v) + rest).skip(8) =~= rest);
}

/// Reading a coordinate off its own layout yields the coordinate and the
/// remainder.
pub proof fn lemma_parse_i32_inverse(v: i32, rest: Seq<u8>)
    ensures
        parse_i32(enc_i32(v) + rest) == Some((v, rest)),
{
    lemma_auto_spec_u32_to_from_le_bytes();
    lemma_i32_u32_inverse(v);
    assert((enc_i32(v) + rest).subrange(0, 4) =~= enc_i32(v));
    assert((enc_i32(v) + rest).skip(4) =~= rest);
}

/// Reading a name off its own layout yields the name and the remainder.
pub proof fn lemma_parse_name_inverse(s: Seq<char>, rest: Seq<u8>)
    requires
        name_encodable(s),
        s.len() <= usize::MAX,
    ensures
        parse_name(enc_str(s) + rest) == Some((s, rest)),
{
    let bs = s.map_values(|c: char| c as u8);
    lemma_parse_u64_inverse(s.len() as u64, bs + rest);
    assert(enc_str(s) + rest =~= enc_u64(s.len() as u64) + (bs + rest));
    assert((bs + rest).subrange(0, s.len() as int) =~= bs);
    assert((bs + rest).skip(s.len() as int) =~= rest);
    assert forall|i: int| 0 <= i < bs.len() implies #[trigger] bs[i] < 128 by {
        assert(s[i] <= '\u{7f}');
    }
    assert(name_bytes_ok(bs));
    let cs = bs.map_values(|b: u8| b as char);
    assert forall|i: int| 0 <= i < s.len() implies #[trigger] cs[i] == s[i] by {
        assert(s[i] <= '\u{7f}');
        assert(bs[i] == s[i] as u8);
    }
    assert(cs =~= s);
}

/// Reading a block entry off its own layout yields the entry's key and the
/// remainder.
pub proof fn lemma_parse_block_inverse(b: BlockRecord, rest: Seq<u8>)
    requires
        name_encodable(b.tile_set@),
        b.tile_set@.len() <= usize::MAX,
    ensures
        parse_block(enc_block(b) + rest) == Some((b@, rest)),
{
    let t3 = enc_i32(b.tile_pos.y) + rest;
    let t2 = enc_i32(b.tile_pos.x) + t3;
    let t1 = enc_u64(b.tile_index as u64) + t2;
    lemma_parse_name_inverse(b.tile_set@, t1);
    assert(enc_block(b) + rest =~= enc_str(b.tile_set@) + t1);
    lemma_parse_u64_inverse(b.tile_index as u64, t2);
    lemma_parse_i32_inverse(b.tile_pos.x, t3);
    lemma_parse_i32_inverse(b.tile_pos.y, rest);
    assert(parse_block(enc_block(b) + rest) == Some((b@, rest)));
}

/// Reading an item entry off its own layout yields the entry's key and the
/// remainder.
pub proof fn lemma_parse_item_inverse(it: ItemRecord, rest: Seq<u8>)
    requires
        name_encodable(it.item_name@),
        it.item_name@.len() <= usize::MAX,
    ensures
        parse_item(enc_item(it) + rest) == Some((it@, rest)),
{
    let t2 = enc_i32(it.position.y) + rest;
    let t1 = enc_i32(it.position.x) + t2;
    lemma_parse_name_inverse(it.item_name@, t1);
    assert(enc_item(it) + rest =~= enc_str(it.item_name@) + t1);
    lemma_parse_i32_inverse(it.position.x, t2);
    lemma_parse_i32_inverse(it.position.y, rest);
    assert(parse_item(enc_item(it) + rest) == Some((it@, rest)));
}

/// Reading a run of block entries off its own layout yields their keys, in
/// order, and the remainder.
pub proof fn lemma_parse_blocks_inverse(s: Seq<BlockRecord>, rest: Seq<u8>)
    requires
        forall|j: int| 0 <= j < s.len() ==> name_encodable(#[trigger] s[j].tile_set@),
        forall|j: int| 0 <= j < s.len() ==> (#[trigger] s[j].tile_set@).len() <= usize::MAX,
    ensures
        parse_blocks(s.len(), enc_blocks(s) + rest) == Some(
            (s.map_values(|b: BlockRecord| b@), rest),
        ),
    decreases s.len(),
{
    if s.len() == 0 {
        assert(enc_blocks(s) + rest =~= rest);
        assert(s.map_values(|b: BlockRecord| b@) =~= Seq::<BlockKey>::empty());
    } else {
        let tail = s.drop_first();
        lemma_parse_block_inverse(s[0], enc_blocks(tail) + rest);
        assert(enc_blocks(s) + rest =~= enc_block(s[0]) + (enc_blocks(tail) + rest));
        assert(forall|j: int| 0 <= j < tail.len() ==> name_encodable(
            #[trigger] tail[j].tile_set@,
        ));
        assert(forall|j: int|
            0 <= j < tail.len() ==> (#[trigger] tail[j].tile_set@).len() <= usize::MAX);
        lemma_parse_blocks_inverse(tail, rest);
        assert(seq![s[0]@] + tail.map_values(|b: BlockRecord| b@) =~= s.map_values(
            |b: BlockRecord| b@,
        ));
    }
}

/// Reading a run of item entries off its own layout yields their keys, in
/// order, and the remainder.
pub proof fn lemma_parse_items_inverse(s: Seq<ItemRecord>, rest: Seq<u8>)
    requires
        forall|j: int| 0 <= j < s.len() ==> name_encodable(#[trigger] s[j].item_name@),
        forall|j: int| 0 <= j < s.len() ==> (#[trigger] s[j].item_name@).len() <= usize::MAX,
    ensures
        parse_items(s.len(), enc_items(s) + rest) == Some(
            (s.map_values(|i: ItemRecord| i@), rest),
        ),
    decreases s.len(),
{
    if s.len() == 0 {
        assert(enc_items(s) + rest =~= rest);
        assert(s.map_values(|i: ItemRecord| i@) =~= Seq::<ItemKey>::empty());
    } else {
        let tail = s.drop_first();
        lemma_parse_item_inverse(s[0], enc_items(tail) + rest);
        assert(enc_items(s) + rest =~= enc_item(s[0]) + (enc_items(tail) + rest));
        assert(forall|j: int| 0 <= j < tail.len() ==> name_encodable(
            #[trigger] tail[j].item_name@,
        ));
        assert(forall|j: int|
            0 <= j < tail.len() ==> (#[trigger] tail[j].item_name@).len() <= usize::MAX);
        lemma_parse_items_inverse(tail, rest);
        assert(seq![s[0]@] + tail.map_values(|i: ItemRecord| i@) =~= s.map_values(
            |i: ItemRecord| i@,
        ));
    }
}

/// Law: round-trip fidelity.  For any representable record, decoding its
/// own layout succeeds and yields exactly the record's abstract content:
/// the same player spawn, the same block-key set and the same item-key set.
pub proof fn lemma_round_trip(w: WorldRecord)
    requires
        encodable(w),
        fits(w),
    ensures
        spec_decode(spec_encode(w)) == Some(w@),
{
    let bn = w.blocks@.len() as u64;
    let inn = w.items@.len() as u64;
    let t4 = enc_u64(inn) + enc_items(w.items@);
    let t3 = enc_blocks(w.blocks@) + t4;
    let t2 = enc_u64(bn) + t3;
    let t1 = enc_i32(w.player_spawn.y) + t2;
    let s = spec_encode(w);
    assert(s =~= enc_i32(w.player_spawn.x) + t1);
    lemma_parse_i32_inverse(w.player_spawn.x, t1);
    lemma_parse_i32_inverse(w.player_spawn.y, t2);
    lemma_parse_u64_inverse(bn, t3);
    lemma_parse_blocks_inverse(w.blocks@, t4);
    lemma_parse_u64_inverse(inn, enc_items(w.items@));
    assert(t4 =~= enc_u64(inn) + (enc_items(w.items@) + Seq::<u8>::empty()));
    lemma_parse_items_inverse(w.items@, Seq::<u8>::empty());
    assert(enc_items(w.items@) + Seq::<u8>::empty() =~= enc_items(w.items@));
    assert(spec_decode(s) == Some(w@));
}

} // verus!
