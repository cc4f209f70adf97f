//! Entity chunks: the entities stored for one chunk, keyed by their UUID.
use std::collections::HashMap;
use std::path::PathBuf;

use vstd::prelude::*;
use vstd::std_specs::iter::IteratorSpec;

use crate::chunk::format::errors::ChunkParsingError;
use crate::chunk::ChunkEntityData;
use crate::level::folder::{LevelFolder, joined_path, join_path};
use crate::math::Vector2;
use crate::text::decimal;

verus! {

broadcast use vstd::std_specs::hash::group_hash_axioms;

/// The stored form of an entity chunk: the chunk it belongs to and its entity compounds.
pub struct EntityNbt<E> {
    pub data_version: i32,
    /// Chunk x and z.
    pub position: [i32; 2],
    pub entities: Vec<E>,
}

/// The UUID that four ints stand for, most significant first. Each int is widened to 128 bits
/// with its sign before it is shifted into place.
pub open spec fn uuid_from_ints(a: Seq<i32>) -> u128 {
    ((a[0] as u128) << 96u128) | ((a[1] as u128) << 64u128) | ((a[2] as u128) << 32u128) | (a[3] as u128)
}

/// An optional array of ints, by its contents.
pub open spec fn ints_view(r: Option<Vec<i32>>) -> Option<Seq<i32>> {
    match r {
        Some(a) => Some(a@),
        None => None,
    }
}

/// A reader of an entity's `UUID` int array: it answers for every entity, always the same, and
/// an array it gives holds at least four ints.
pub open spec fn is_uuid_reader<E, F: Fn(&E) -> Option<Vec<i32>>>(f: F) -> bool {
    &&& forall|e: &E| #[trigger] f.requires((e,))
    &&& forall|e: &E, x: Option<Vec<i32>>, y: Option<Vec<i32>>|
        #[trigger] f.ensures((e,), x) && #[trigger] f.ensures((e,), y) ==> ints_view(x) == ints_view(y)
    &&& forall|e: &E, x: Option<Vec<i32>>| #[trigger] f.ensures((e,), x) && x is Some ==> x->0@.len() >= 4
}

/// The `UUID` int array that the reader gives for an entity (once it has been asked).
pub open spec fn read_uuid<E, F: Fn(&E) -> Option<Vec<i32>>>(f: F, e: E) -> Option<Seq<i32>> {
    ints_view(choose|r: Option<Vec<i32>>| f.ensures((&e,), r))
}

/// The entities by UUID, in stored order: an entity without a UUID is left out, and of two with
/// the same UUID the later one stays.
pub open spec fn entity_map<E, F: Fn(&E) -> Option<Vec<i32>>>(entities: Seq<E>, f: F) -> Map<u128, E>
    decreases entities.len(),
{
    if entities.len() == 0 {
        Map::empty()
    } else {
        let before = entity_map(entities.drop_last(), f);
        match read_uuid(f, entities.last()) {
            Some(a) => before.insert(uuid_from_ints(a), entities.last()),
            None => before,
        }
    }
}

/// The message for entity data stored for another chunk than the one asked for.
pub open spec fn entity_mismatch_text(expected_x: i32, expected_z: i32, x: i32, z: i32) -> Seq<char> {
    "Expected data for entity chunk "@ + decimal(expected_x as int) + ","@ + decimal(expected_z as int)
        + " but got it for "@ + decimal(x as int) + ","@ + decimal(z as int) + "!"@
}

/// `format!` of the message for entity data stored for another chunk than the one asked for.
#[verifier::external_body]
fn entity_mismatch_message(expected_x: i32, expected_z: i32, x: i32, z: i32) -> (r: String)
    ensures
        r@ == entity_mismatch_text(expected_x, expected_z, x, z),
{
    format!("Expected data for entity chunk {},{} but got it for {},{}!", expected_x, expected_z, x, z)
}

/// The entities written out are the map's values, one for each UUID, as copies: `keys` lists the
/// UUIDs in the order their entities come.
pub open spec fn entities_written<E: Clone>(data: Map<u128, E>, keys: Seq<u128>, entities: Seq<E>) -> bool {
    &&& keys.len() == entities.len()
    &&& keys.no_duplicates()
    &&& keys.to_set() == data.dom()
    &&& forall|i: int| 0 <= i < keys.len() ==> cloned(data[#[trigger] keys[i]], entities[i])
}

impl<E> ChunkEntityData<E> {
    /// The chunk's x and z coordinates.
    pub fn position(&self) -> (r: (i32, i32))
        ensures
            r == (self.x, self.z),
    {
        (self.x, self.z)
    }

    /// The path of an entity file of the level: the file name in the entities folder.
    pub fn file_path(folder: &LevelFolder, file_name: &str) -> (r: PathBuf)
        ensures
            r == joined_path(folder.entities_folder, file_name@),
    {
        join_path(&folder.entities_folder, file_name)
    }

    /// Marks the entities as changed since they were stored, or not.
    pub fn mark_dirty(&mut self, flag: bool)
        ensures
            final(self).dirty == flag,
            final(self).x == old(self).x,
            final(self).z == old(self).z,
            final(self).data@ == old(self).data@,
    {
        self.dirty = flag;
    }

    /// Whether the entities have changed since they were stored.
    pub fn is_dirty(&self) -> (r: bool)
        ensures
            r == self.dirty,
    {
        self.dirty
    }

    /// The entities of the chunk at `position` from their stored form, each under the UUID read
    /// from it; an entity without one is skipped.
    pub fn from_nbt<F: Fn(&E) -> Option<Vec<i32>>>(
        chunk_entity_data: EntityNbt<E>,
        position: Vector2<i32>,
        uuid_of: F,
    ) -> (r: Result<ChunkEntityData<E>, ChunkParsingError>)
        requires
            is_uuid_reader(uuid_of),
        ensures
            r is Err <==> (chunk_entity_data.position@[0] != position.x || chunk_entity_data.position@[1]
                != position.y),
            r matches Err(ChunkParsingError::ErrorDeserializingChunk(m)) ==> m@ == entity_mismatch_text(
                position.x,
                position.y,
                chunk_entity_data.position@[0],
                chunk_entity_data.position@[1],
            ),
            r matches Ok(d) ==> {
                &&& d.x == position.x
                &&& d.z == position.y
                &&& d.data@ == entity_map(chunk_entity_data.entities@, uuid_of)
                &&& !d.dirty
            },
    {
        let stored_x = chunk_entity_data.position[0];
        let stored_z = chunk_entity_data.position[1];
        if stored_x != position.x || stored_z != position.y {
            return Err(ChunkParsingError::ErrorDeserializingChunk(entity_mismatch_message(
                position.x,
                position.y,
                stored_x,
                stored_z,
            )));
        }
        let ghost stored = chunk_entity_data.entities@;
        let mut entities = chunk_entity_data.entities;
        let mut remaining: Vec<E> = Vec::new();
        // Take the entities off the back, then go through them in stored order.
        while entities.len() > 0
            invariant
                remaining@ == stored.subrange(entities@.len() as int, stored.len() as int).reverse(),
                entities@ == stored.subrange(0, entities@.len() as int),
                entities@.len() <= stored.len(),
            decreases entities@.len(),
        {
            let entity = entities.pop().unwrap();
            remaining.push(entity);
            proof {
                assert(remaining@ =~= stored.subrange(entities@.len() as int, stored.len() as int).reverse());
            }
        }
        let mut map: HashMap<u128, E> = HashMap::new();
        let ghost mut i: int = 0;
        while remaining.len() > 0
            invariant
                is_uuid_reader(uuid_of),
                remaining@.len() + i == stored.len(),
                0 <= i <= stored.len(),
                forall|k: int| 0 <= k < remaining@.len() ==> #[trigger] remaining@[k] == stored[stored.len() - 1 - k],
                map@ == entity_map(stored.take(i), uuid_of),
            decreases remaining@.len(),
        {
            let entity_nbt = remaining.pop().unwrap();
            proof {
                assert(entity_nbt == stored[i]);
                assert(stored.take(i + 1).drop_last() =~= stored.take(i));
                assert(stored.take(i + 1).last() == stored[i]);
            }
            let uuid = uuid_of(&entity_nbt);
            proof {
                let c = choose|r: Option<Vec<i32>>| uuid_of.ensures((&entity_nbt,), r);
                assert(uuid_of.ensures((&entity_nbt,), c));
                assert(ints_view(c) == ints_view(uuid));
                assert(read_uuid(uuid_of, entity_nbt) == ints_view(uuid));
            }
            match uuid {
                Some(ints) => {
                    let key = (ints[0] as u128) << 96 | (ints[1] as u128) << 64 | (ints[2] as u128) << 32
                        | (ints[3] as u128);
                    proof {
                        assert(key == uuid_from_ints(ints@));
                    }
                    map.insert(key, entity_nbt);
                },
                None => {},
            }
            proof {
                i = i + 1;
            }
        }
        proof {
            assert(stored.take(i) =~= stored);
        }
        Ok(ChunkEntityData { x: position.x, z: position.y, data: map, dirty: false })
    }
}

/// Every copy of an entity stored under a UUID reads, with `f`, the ints of that UUID.
pub open spec fn reads_back_keys<E: Clone, F: Fn(&E) -> Option<Vec<i32>>>(data: Map<u128, E>, f: F) -> bool {
    forall|k: u128, e: E|
        data.contains_key(k) && #[trigger] cloned(data[k], e) ==> {
            &&& read_uuid(f, e) is Some
            &&& uuid_from_ints(read_uuid(f, e)->0) == k
        }
}

/// Entities that each read the UUID listed for them, with no UUID listed twice, end up each
/// under its own UUID.
proof fn lemma_entity_map_keys<E, F: Fn(&E) -> Option<Vec<i32>>>(entities: Seq<E>, keys: Seq<u128>, f: F)
    requires
        entities.len() == keys.len(),
        keys.no_duplicates(),
        forall|i: int|
            0 <= i < entities.len() ==> {
                &&& read_uuid(f, #[trigger] entities[i]) is Some
                &&& uuid_from_ints(read_uuid(f, entities[i])->0) == keys[i]
            },
    ensures
        entity_map(entities, f).dom() == keys.to_set(),
        forall|i: int| 0 <= i < keys.len() ==> entity_map(entities, f)[#[trigger] keys[i]] == entities[i],
    decreases entities.len(),
{
    if entities.len() == 0 {
        assert(keys.to_set() =~= Set::empty());
        assert(entity_map(entities, f).dom() =~= Set::empty());
    } else {
        let n = entities.len() - 1;
        let es = entities.drop_last();
        let ks = keys.drop_last();
        assert forall|i: int| 0 <= i < es.len() implies {
            &&& read_uuid(f, #[trigger] es[i]) is Some
            &&& uuid_from_ints(read_uuid(f, es[i])->0) == ks[i]
        } by {
            assert(es[i] == entities[i]);
        }
        lemma_entity_map_keys(es, ks, f);
        assert(entities.last() == entities[n]);
        let before = entity_map(es, f);
        assert(entity_map(entities, f) == before.insert(keys[n], entities[n]));
        assert(keys.to_set() =~= ks.to_set().insert(keys[n])) by {
            assert(keys =~= ks.push(keys[n]));
            ks.lemma_push_to_set_commute(keys[n]);
        }
        assert forall|i: int| 0 <= i < keys.len() implies entity_map(entities, f)[#[trigger] keys[i]] == entities[i] by {
            if i < n {
                assert(keys[i] != keys[n]);
                assert(ks[i] == keys[i]);
            }
        }
    }
}

impl<E: Clone> ChunkEntityData<E> {
    /// What the stored form of entity data holds: the data version, the chunk's position and a
    /// copy of each entity, one for each UUID.
    pub open spec fn stored_as(&self, r: EntityNbt<E>, data_version: i32) -> bool {
        &&& r.data_version == data_version
        &&& r.position@ == seq![self.x, self.z]
        &&& exists|keys: Seq<u128>| #[trigger] entities_written(self.data@, keys, r.entities@)
    }

    /// Storing entity data and loading it back for its own chunk: when every entity reads
    /// back the UUID it is stored under, the stored form is for the same chunk, and loading it
    /// gives the same UUIDs, each with a copy of its entity.
    pub proof fn lemma_store_load<F: Fn(&E) -> Option<Vec<i32>>>(
        d: ChunkEntityData<E>,
        written: EntityNbt<E>,
        data_version: i32,
        uuid_of: F,
    )
        requires
            d.stored_as(written, data_version),
            reads_back_keys(d.data@, uuid_of),
        ensures
            written.position@[0] == d.x,
            written.position@[1] == d.z,
            entity_map(written.entities@, uuid_of).dom() == d.data@.dom(),
            forall|k: u128| #[trigger] d.data@.contains_key(k) ==> cloned(d.data@[k], entity_map(written.entities@, uuid_of)[k]),
    {
        let keys = choose|keys: Seq<u128>| #[trigger] entities_written(d.data@, keys, written.entities@);
        let es = written.entities@;
        assert forall|i: int| 0 <= i < es.len() implies {
            &&& read_uuid(uuid_of, #[trigger] es[i]) is Some
            &&& uuid_from_ints(read_uuid(uuid_of, es[i])->0) == keys[i]
        } by {
            assert(d.data@.contains_key(keys[i])) by {
                assert(keys.to_set().contains(keys[i]));
            }
            assert(cloned(d.data@[keys[i]], es[i]));
        }
        lemma_entity_map_keys(es, keys, uuid_of);
        assert forall|k: u128| #[trigger] d.data@.contains_key(k) implies cloned(d.data@[k], entity_map(es, uuid_of)[k]) by {
            assert(keys.to_set().contains(k));
            let i = choose|i: int| 0 <= i < keys.len() && keys[i] == k;
            assert(entity_map(es, uuid_of)[keys[i]] == es[i]);
        }
    }

    /// The stored form of the entities: the chunk's position and a copy of each entity, in the
    /// order the map hands them out.
    pub fn to_nbt(&self, data_version: i32) -> (r: EntityNbt<E>)
        ensures
            self.stored_as(r, data_version),
    {
        let mut entities: Vec<E> = Vec::new();
        let ghost mut keys: Seq<u128> = Seq::empty();
        let ghost pairs = vstd::std_specs::hash::spec_hash_map_iter(&self.data).remaining();
        for (k, v) in it: self.data.iter()
            invariant
                it.seq() == pairs,
                entities@.len() == it.index(),
                keys.len() == it.index(),
                forall|j: int| 0 <= j < it.index() ==> #[trigger] keys[j] == *it.seq()[j].0,
                forall|j: int| 0 <= j < it.index() ==> cloned(*it.seq()[j].1, #[trigger] entities@[j]),
        {
            let e = v.clone();
            entities.push(e);
            proof {
                keys = keys.push(*k);
            }
        }
        proof {
            let m = self.data@;
            let v = pairs;
            assert(v.len() == m.dom().len());
            assert(keys.len() == v.len());
            assert forall|j: int| 0 <= j < keys.len() implies m.contains_key(#[trigger] keys[j]) && m[keys[j]] == *v[j].1 by {
                assert(m.contains_key(*v[j].0));
            }
            assert(keys.no_duplicates()) by {
                assert forall|a: int, b: int| 0 <= a < keys.len() && 0 <= b < keys.len() && a != b implies keys[a] != keys[b] by {
                    assert(m.contains_key(keys[a]));
                    assert(m.contains_key(keys[b]));
                    if keys[a] == keys[b] {
                        assert(v[a] == v[b]);
                    }
                }
            }
            assert(keys.to_set() =~= m.dom()) by {
                assert forall|k: u128| m.contains_key(k) implies keys.contains(k) by {
                    assert(v.contains((&k, &m[k])));
                    let j = choose|j: int| 0 <= j < v.len() && v[j] == (&k, &m[k]);
                    assert(keys[j] == k);
                }
            }
            assert(entities_written(m, keys, entities@));
        }
        let position: [i32; 2] = [self.x, self.z];
        proof {
            assert(position@ =~= seq![self.x, self.z]);
        }
        let r = EntityNbt { data_version, position, entities };
        proof {
            assert(entities_written(self.data@, keys, r.entities@));
            assert(r.position@ == seq![self.x, self.z]);
        }
        r
    }
}

} // verus!
