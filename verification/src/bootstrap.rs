//! The Load/Bootstrap Controller: one record per process lifetime.
//!
//! At startup the host ensures the save directory exists and reads the one
//! canonical save file, handing its bytes here — or `None` when no file
//! exists yet.  Existing bytes must decode, and any failure is surfaced for
//! the host to treat as fatal: starting gameplay against a corrupt or
//! unreadable world is worse than refusing to start.  With no file, the
//! deterministic default world is synthesized and its encoded bytes are
//! returned for the host to persist before play begins.

use vstd::prelude::*;
use vstd::utf8::is_ascii_chars;

use crate::codec::{decode, encodable, encode, fits, lemma_encodable_from_model, lemma_round_trip,
    name_encodable, spec_decode, DecodeError};
use crate::record::{default_model, BlockKey, ItemKey, WorldRecord};

verus! {

/// What bootstrapping produced: the record to reconcile, and, when the
/// default world was synthesized, the bytes the host must write to the
/// save file.
pub struct Bootstrapped {
    pub record: WorldRecord,
    pub to_write: Option<Vec<u8>>,
}

/// The default world's names fit the layout's seven-bit form.
proof fn lemma_default_names_ascii()
    ensures
        is_ascii_chars("jungle_floor"@),
        is_ascii_chars("pickaxe"@),
        "jungle_floor"@.len() == 12,
        "pickaxe"@.len() == 7,
{
    reveal_strlit("jungle_floor");
    reveal_strlit("pickaxe");
    assert forall|i: int| 0 <= i < "jungle_floor"@.len() implies '\0'
        <= #[trigger] "jungle_floor"@[i] <= '\u{7f}' by {
        if i == 0 {
            assert("jungle_floor"@[0] == 'j');
        } else if i == 1 {
            assert("jungle_floor"@[1] == 'u');
        } else if i == 2 {
            assert("jungle_floor"@[2] == 'n');
        } else if i == 3 {
            assert("jungle_floor"@[3] == 'g');
        } else if i == 4 {
            assert("jungle_floor"@[4] == 'l');
        } else if i == 5 {
            assert("jungle_floor"@[5] == 'e');
        } else if i == 6 {
            assert("jungle_floor"@[6] == '_');
        } else if i == 7 {
            assert("jungle_floor"@[7] == 'f');
        } else if i == 8 {
            assert("jungle_floor"@[8] == 'l');
        } else if i == 9 {
            assert("jungle_floor"@[9] == 'o');
        } else if i == 10 {
            assert("jungle_floor"@[10] == 'o');
        } else {
            assert("jungle_floor"@[11] == 'r');
        }
    }
    assert forall|i: int| 0 <= i < "pickaxe"@.len() implies '\0' <= #[trigger] "pickaxe"@[i]
        <= '\u{7f}' by {
        if i == 0 {
            assert("pickaxe"@[0] == 'p');
        } else if i == 1 {
            assert("pickaxe"@[1] == 'i');
        } else if i == 2 {
            assert("pickaxe"@[2] == 'c');
        } else if i == 3 {
            assert("pickaxe"@[3] == 'k');
        } else if i == 4 {
            assert("pickaxe"@[4] == 'a');
        } else if i == 5 {
            assert("pickaxe"@[5] == 'x');
        } else {
            assert("pickaxe"@[6] == 'e');
        }
    }
}

/// Bootstraps the world record from the save file's bytes, or from nothing.
///
/// With bytes, decodes them: failure is reported and is fatal to the host.
/// With no bytes, succeeds with the deterministic default world and the
/// encoded bytes to persist; those bytes decode back to exactly the
/// default content.
pub fn bootstrap(existing: Option<Vec<u8>>) -> (r: Result<Bootstrapped, DecodeError>)
    ensures
        existing matches Some(bytes) ==> ((r is Ok) <==> spec_decode(bytes@) is Some),
        existing matches Some(bytes) ==> (r matches Ok(b) ==> Some(b.record@) == spec_decode(
            bytes@,
        ) && b.record.wf() && b.to_write is None),
        existing is None ==> r is Ok,
        existing is None ==> (r matches Ok(b) ==> b.record@ == default_model() && b.record.wf()
            && (b.to_write matches Some(out) && spec_decode(out@) == Some(default_model()))),
        r matches Err(e) ==> e == DecodeError::Malformed,
{
    match existing {
        Some(bytes) => match decode(&bytes) {
            Ok(w) => Ok(Bootstrapped { record: w, to_write: None }),
            Err(e) => Err(e),
        },
        None => {
            let d = WorldRecord::default();
            proof {
                lemma_default_names_ascii();
                assert forall|k: BlockKey| #[trigger] d@.blocks.contains(k) implies name_encodable(
                    k.tile_set,
                ) && k.tile_set.len() <= usize::MAX by {
                    assert(k.tile_set == "jungle_floor"@);
                }
                assert forall|k: ItemKey| #[trigger] d@.items.contains(k) implies name_encodable(
                    k.item_name,
                ) && k.item_name.len() <= usize::MAX by {
                    assert(k.item_name == "pickaxe"@);
                }
                lemma_encodable_from_model(d);
                assert(encodable(d));
                assert(fits(d));
                lemma_round_trip(d);
            }
            match encode(&d) {
                Ok(out) => Ok(Bootstrapped { record: d, to_write: Some(out) }),
                Err(_) => {
                    proof {
                        assert(false);
                    }
                    Err(DecodeError::Malformed)
                },
            }
        },
    }
}

} // verus!
