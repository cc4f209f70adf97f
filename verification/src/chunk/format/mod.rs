//! The on-disk form of a chunk and of its sections' palettes.
pub mod entities;
pub mod errors;

use vstd::prelude::*;

use crate::chunk::heightmap::ChunkHeightmaps;
use crate::chunk::format::errors::ChunkParsingError;
use crate::chunk::light::{ChunkLight, LightContainer, copy_stored_light, stored_light};
use crate::chunk::palette::{BiomeSectionData, BlockSectionData, PalettedContainer, count_non_air_in, is_predicate};
use crate::chunk::section::ChunkSection;
use crate::chunk::{Chunk, ChunkStatus};
use crate::cords::section::{block_to_section, section_to_block, spec_block_to_section, spec_section_to_block};
use std::path::PathBuf;

use crate::math::{ChunkPos, Vector2};
use crate::text::decimal;

use crate::level::folder::{LevelFolder, joined_path, join_path};
use crate::registry::BlockStateId;

verus! {

/// The biomes of a section as stored on disk.
#[derive(Debug, Clone)]
pub struct ChunkSectionBiomes {
    /// The packed palette indices; absent for a single-biome section.
    pub data: Option<Vec<i64>>,
    pub palette: Vec<PaletteBiomeEntry>,
}

/// A biome palette entry on disk: just the biome's name.
#[derive(Debug, Clone)]
pub struct PaletteBiomeEntry {
    /// Biome name
    pub name: String,
}

/// The block states of a section as stored on disk.
#[derive(Debug, Clone)]
pub struct ChunkSectionBlockStates {
    /// The packed palette indices; absent for a single-state section.
    pub data: Option<Vec<i64>>,
    /// The block states of the palette.
    pub palette: Vec<BlockStateId>,
}

/// A section of a chunk as stored on disk.
#[derive(Debug, Clone)]
pub struct ChunkSectionNbt {
    pub block_states: Option<ChunkSectionBlockStates>,
    pub biomes: Option<ChunkSectionBiomes>,
    pub block_light: Option<Vec<u8>>,
    pub sky_light: Option<Vec<u8>>,
    /// The section's y coordinate, in sections.
    pub y: i8,
}

/// A chunk as stored on disk: what the chunk's own data is made of.
#[derive(Debug, Clone)]
pub struct ChunkNbt {
    pub data_version: i32,
    pub x_pos: i32,
    pub z_pos: i32,
    /// The y coordinate of the lowest section, in sections.
    pub min_y_section: i32,
    pub sections: Vec<ChunkSectionNbt>,
    pub status: ChunkStatus,
    pub heightmaps: ChunkHeightmaps,
    pub light_correct: bool,
}

/// Whether an optional stored array holds exactly the given contents, or is absent when they are.
pub open spec fn packed_matches<T>(data: Option<Vec<T>>, form: Option<Seq<T>>) -> bool {
    match data {
        Some(d) => form == Some(d@),
        None => form is None,
    }
}

/// The packed indices of a section on disk, empty when there are none.
pub open spec fn packed_or_empty(data: Option<Vec<i64>>) -> Seq<i64> {
    match data {
        Some(d) => d@,
        None => Seq::empty(),
    }
}

/// The message for data stored for another chunk than the one asked for.
pub open spec fn mismatch_text(expected_x: i32, expected_z: i32, x: i32, z: i32) -> Seq<char> {
    "Expected data for chunk "@ + decimal(expected_x as int) + ","@ + decimal(expected_z as int)
        + " but got it for "@ + decimal(x as int) + ","@ + decimal(z as int) + "!"@
}

/// `format!` of the message for data stored for another chunk than the one asked for.
#[verifier::external_body]
fn mismatch_message(expected_x: i32, expected_z: i32, x: i32, z: i32) -> (r: String)
    ensures
        r@ == mismatch_text(expected_x, expected_z, x, z),
{
    format!("Expected data for chunk {},{} but got it for {},{}!", expected_x, expected_z, x, z)
}

/// Whether a stored section can be read: each stored palette can be unpacked.
pub open spec fn section_readable(section: ChunkSectionNbt) -> bool {
    &&& section.block_states matches Some(b) ==> {
        &&& b.palette@.len() < 0x8000_0000_0000_0000
        &&& BlockSectionData::disk_readable(b.palette@.len(), packed_or_empty(b.data).len())
    }
    &&& section.biomes matches Some(b) ==> {
        &&& b.palette@.len() < 0x8000_0000_0000_0000
        &&& BiomeSectionData::disk_readable(b.palette@.len(), packed_or_empty(b.data).len())
    }
}

/// The light of a section as loaded: the stored nibbles, or `default` everywhere.
pub open spec fn light_loaded(stored: Option<Vec<u8>>, light: LightContainer, default: u8) -> bool {
    match stored {
        Some(d) => light matches LightContainer::Full(l) && l@ == d@,
        None => light == LightContainer::Empty(default),
    }
}

/// What a loaded section holds of its stored form.
pub open spec fn section_loaded<F: Fn(u16) -> bool, G: Fn(&String) -> u8>(
    stored: ChunkSectionNbt,
    section: ChunkSection,
    block_light: LightContainer,
    sky_light: LightContainer,
    is_air: F,
    biome_id: G,
) -> bool {
    &&& match stored.block_states {
        Some(b) => BlockSectionData::disk_read(b.palette@, packed_or_empty(b.data), section.block_data),
        None => section.block_data == BlockSectionData::Uniform(0),
    }
    &&& match stored.biomes {
        Some(b) => exists|ids: Seq<u8>|
            {
                &&& ids.len() == b.palette@.len()
                &&& forall|j: int| 0 <= j < ids.len() ==> biome_id.ensures((&#[trigger] b.palette@[j].name,), ids[j])
                &&& BiomeSectionData::disk_read(ids, packed_or_empty(b.data), section.biome_data)
            },
        None => section.biome_data == BiomeSectionData::Uniform(0),
    }
    &&& section.block_count == section.block_data.spec_count_non_air(is_air) as u16
    &&& light_loaded(stored.block_light, block_light, 0)
    &&& light_loaded(stored.sky_light, sky_light, 15)
}

/// Loads one stored section: its palettes, its count of non-air blocks and its light.
fn load_section<F: Fn(u16) -> bool, G: Fn(&String) -> u8>(
    section: ChunkSectionNbt,
    is_air: &F,
    biome_id: &G,
) -> (r: (LightContainer, LightContainer, ChunkSection))
    requires
        is_predicate(*is_air),
        forall|name: &String| #[trigger] biome_id.requires((name,)),
        section_readable(section),
    ensures
        section_loaded(section, r.2, r.0, r.1, *is_air, *biome_id),
{
    let ChunkSectionNbt { block_states, biomes, block_light, sky_light, y } = section;
    // Light data without stored nibbles: dark for blocks, bright for the sky.
    let block_light = match block_light {
        Some(data) => LightContainer::Full(data),
        None => LightContainer::Empty(0),
    };
    let sky_light = match sky_light {
        Some(data) => LightContainer::Full(data),
        None => LightContainer::Empty(15),
    };

    let block_palette = match block_states {
        Some(states) => BlockSectionData::from_disk_nbt(states),
        None => BlockSectionData::default(),
    };
    let biome_palette = match biomes {
        Some(stored) => BiomeSectionData::from_disk_nbt(stored, biome_id),
        None => BiomeSectionData::default(),
    };

    proof {
        BlockSectionData::lemma_count_fits(block_palette, *is_air);
    }
    let block_count = block_palette.count_non_air(is_air);

    (block_light, sky_light, ChunkSection { block_data: block_palette, biome_data: biome_palette, block_count })
}

impl Chunk {
    /// The chunk's x and z coordinates.
    pub fn position(&self) -> (r: (i32, i32))
        ensures
            r == (self.position.0.x, self.position.0.y),
    {
        (self.position.0.x, self.position.0.y)
    }

    /// The path of a chunk file of the level: the file name in the region folder.
    pub fn file_path(folder: &LevelFolder, file_name: &str) -> (r: PathBuf)
        ensures
            r == joined_path(folder.region_folder, file_name@),
    {
        join_path(&folder.region_folder, file_name)
    }

    /// Marks the chunk as changed since it was stored, or not.
    pub fn mark_dirty(&mut self, flag: bool)
        ensures
            *final(self) == (Chunk { dirty: flag, ..*old(self) }),
    {
        self.dirty = flag;
    }

    /// Whether the chunk has changed since it was stored.
    pub fn is_dirty(&self) -> (r: bool)
        ensures
            r == self.dirty,
    {
        self.dirty
    }

    /// The section y coordinate of section `i`: its index plus the lowest section's, as `i8`.
    pub open spec fn section_y(&self, i: int) -> int {
        (i as i8) as int + ((self.min_y as int / 16) as i8) as int
    }

    /// What the stored form of section `i` holds: its y coordinate, its palettes in their form on
    /// disk (biome ids named by `biome_name`) and the stored nibbles of its light.
    pub open spec fn section_stored<G: Fn(u8) -> String>(&self, i: int, stored: ChunkSectionNbt, biome_name: G) -> bool {
        let section = self.sections@[i];
        &&& stored.y as int == self.section_y(i)
        &&& stored.block_states matches Some(b) && {
            &&& b.palette@ == section.block_data.disk_form().0
            &&& packed_matches(b.data, section.block_data.disk_form().1)
        }
        &&& stored.biomes matches Some(b) && {
            &&& b.palette@.len() == section.biome_data.disk_form().0.len()
            &&& forall|j: int|
                0 <= j < b.palette@.len() ==> biome_name.ensures(
                    (section.biome_data.disk_form().0[j],),
                    #[trigger] b.palette@[j].name,
                )
            &&& packed_matches(b.data, section.biome_data.disk_form().1)
        }
        &&& packed_matches(stored.block_light, stored_light(self.light.block_light@, i))
        &&& packed_matches(stored.sky_light, stored_light(self.light.sky_light@, i))
    }

    /// What the stored form of the chunk holds: its position, the lowest section, each
    /// section's stored form and the heightmaps.
    pub open spec fn stored_as<G: Fn(u8) -> String>(&self, r: ChunkNbt, data_version: i32, biome_name: G) -> bool {
        &&& r.data_version == data_version
        &&& r.x_pos == self.position.0.x
        &&& r.z_pos == self.position.0.y
        &&& r.min_y_section == spec_block_to_section(self.min_y)
        &&& r.sections@.len() == self.sections@.len()
        &&& forall|i: int| 0 <= i < r.sections@.len() ==> self.section_stored(i, #[trigger] r.sections@[i], biome_name)
        &&& r.status == self.status
        &&& r.heightmaps.world_surface@ == self.heightmaps.world_surface@
        &&& r.heightmaps.motion_blocking@ == self.heightmaps.motion_blocking@
        &&& r.heightmaps.motion_blocking_no_leaves@ == self.heightmaps.motion_blocking_no_leaves@
        &&& !r.light_correct
    }

    /// The stored form of the chunk's own data: its position, its sections' palettes and light,
    /// and its heightmaps, naming biomes with `biome_name`.
    pub fn to_nbt<G: Fn(u8) -> String>(&self, data_version: i32, biome_name: G) -> (r: ChunkNbt)
        requires
            self.wf(),
            forall|id: u8| #[trigger] biome_name.requires((id,)),
            forall|i: int| 0 <= i < self.sections@.len() ==> i8::MIN <= #[trigger] self.section_y(i) <= i8::MAX,
        ensures
            self.stored_as(r, data_version, biome_name),
    {
        let min_section_y = (self.min_y >> 4u32) as i8;
        proof {
            let m = self.min_y;
            assert(m >> 4u32 == m as int / 16) by (bit_vector);
        }
        let mut sections: Vec<ChunkSectionNbt> = Vec::new();
        let mut i: usize = 0;
        while i < self.sections.len()
            invariant
                self.wf(),
                forall|id: u8| #[trigger] biome_name.requires((id,)),
                forall|k: int| 0 <= k < self.sections@.len() ==> i8::MIN <= #[trigger] self.section_y(k) <= i8::MAX,
                min_section_y == ((self.min_y as int / 16) as i8),
                i <= self.sections@.len(),
                sections@.len() == i,
                forall|k: int| 0 <= k < i ==> self.section_stored(k, #[trigger] sections@[k], biome_name),
            decreases self.sections@.len() - i,
        {
            proof {
                assert(i8::MIN <= self.section_y(i as int) <= i8::MAX);
                assert(self.sections@[i as int].block_data.wf());
                assert(self.sections@[i as int].biome_data.wf());
            }
            let section = &self.sections[i];
            let stored = ChunkSectionNbt {
                y: i as i8 + min_section_y,
                // The palettes in their form on disk.
                block_states: Some(section.block_data.to_disk_nbt()),
                biomes: Some(section.biome_data.to_disk_nbt(&biome_name)),
                block_light: copy_stored_light(&self.light.block_light, i),
                sky_light: copy_stored_light(&self.light.sky_light, i),
            };
            sections.push(stored);
            i += 1;
        }

        let heightmaps = self.heightmaps.clone();

        ChunkNbt {
            data_version,
            x_pos: self.position.0.x,
            z_pos: self.position.0.y,
            min_y_section: block_to_section(self.min_y),
            status: self.status,
            sections,
            heightmaps,
            light_correct: false,
        }
    }

    /// The stored y coordinate of each section is its index plus the section coordinate of the
    /// chunk's bottom, `min_y / 16` rounded down (for coordinates that fit in a byte).
    pub proof fn lemma_stored_section_y<G: Fn(u8) -> String>(c: Chunk, stored: ChunkNbt, data_version: i32, biome_name: G, i: int)
        requires
            c.stored_as(stored, data_version, biome_name),
            0 <= i < c.sections@.len(),
            i <= 127,
            -128 <= c.min_y as int / 16 <= 127,
            -128 <= i + c.min_y as int / 16 <= 127,
        ensures
            stored.sections@[i].y as int == i + c.min_y as int / 16,
            stored.min_y_section as int == c.min_y as int / 16,
    {
        assert(c.section_stored(i, stored.sections@[i], biome_name));
    }

    /// Storing a well-formed chunk gives data that `from_nbt` can read for the chunk's own
    /// position.
    pub proof fn lemma_stored_readable<G: Fn(u8) -> String>(c: Chunk, stored: ChunkNbt, data_version: i32, biome_name: G)
        requires
            c.wf(),
            c.stored_as(stored, data_version, biome_name),
        ensures
            forall|i: int| 0 <= i < stored.sections@.len() ==> section_readable(#[trigger] stored.sections@[i]),
            stored.x_pos == c.position.0.x && stored.z_pos == c.position.0.y,
    {
        assert forall|i: int| 0 <= i < stored.sections@.len() implies section_readable(#[trigger] stored.sections@[i]) by {
            assert(c.section_stored(i, stored.sections@[i], biome_name));
            let section = c.sections@[i];
            assert(section.block_data.wf() && section.biome_data.wf());
            BlockSectionData::lemma_disk_roundtrip(section.block_data);
            BiomeSectionData::lemma_disk_roundtrip(section.biome_data);
        }
    }

    /// Storing a well-formed chunk and loading it back gives back its blocks and biomes in every
    /// section (in the same layouts), a block count that is the number of non-air blocks, the stored light nibbles of
    /// each section, its heightmaps and its position (and its bottom, when that lies on a
    /// section boundary), when the biome names written are read back as the same ids.
    pub proof fn lemma_store_load<F: Fn(u16) -> bool, G: Fn(&String) -> u8, H: Fn(u8) -> String>(
        c: Chunk,
        stored: ChunkNbt,
        data_version: i32,
        biome_name: H,
        biome_id: G,
        is_air: F,
        loaded: Chunk,
    )
        requires
            c.wf(),
            c.stored_as(stored, data_version, biome_name),
            forall|id: u8, name: String, r: u8|
                #[trigger] biome_name.ensures((id,), name) && #[trigger] biome_id.ensures((&name,), r) ==> r == id,
            loaded.loaded_from(stored, c.position.0, is_air, biome_id),
        ensures
            loaded.wf(),
            loaded.sections@.len() == c.sections@.len(),
            forall|i: int| 0 <= i < c.sections@.len() ==> {
                &&& (#[trigger] loaded.sections@[i]).block_data@ == c.sections@[i].block_data@
                &&& loaded.sections@[i].biome_data@ == c.sections@[i].biome_data@
                &&& loaded.sections@[i].block_count == count_non_air_in(c.sections@[i].block_data@, is_air, 4096)
                &&& stored_light(loaded.light.block_light@, i) == stored_light(c.light.block_light@, i)
                &&& stored_light(loaded.light.sky_light@, i) == stored_light(c.light.sky_light@, i)
                &&& loaded.sections@[i].block_data.same_layout(c.sections@[i].block_data)
                &&& loaded.sections@[i].biome_data.same_layout(c.sections@[i].biome_data)
            },
            loaded.heightmaps.world_surface@ == c.heightmaps.world_surface@,
            loaded.heightmaps.motion_blocking@ == c.heightmaps.motion_blocking@,
            loaded.heightmaps.motion_blocking_no_leaves@ == c.heightmaps.motion_blocking_no_leaves@,
            loaded.position == c.position,
            loaded.status == c.status,
            c.min_y % 16 == 0 ==> loaded.min_y == c.min_y,
    {
        assert forall|i: int| 0 <= i < c.sections@.len() implies {
            &&& (#[trigger] loaded.sections@[i]).block_data@ == c.sections@[i].block_data@
            &&& loaded.sections@[i].biome_data@ == c.sections@[i].biome_data@
            &&& loaded.sections@[i].block_count == count_non_air_in(c.sections@[i].block_data@, is_air, 4096)
            &&& stored_light(loaded.light.block_light@, i) == stored_light(c.light.block_light@, i)
            &&& stored_light(loaded.light.sky_light@, i) == stored_light(c.light.sky_light@, i)
            &&& loaded.sections@[i].block_data.wf()
            &&& loaded.sections@[i].biome_data.wf()
            &&& loaded.sections@[i].block_data.same_layout(c.sections@[i].block_data)
            &&& loaded.sections@[i].biome_data.same_layout(c.sections@[i].biome_data)
        } by {
            let section = c.sections@[i];
            let s = stored.sections@[i];
            assert(c.section_stored(i, s, biome_name));
            assert(section_loaded(s, loaded.sections@[i], loaded.light.block_light@[i], loaded.light.sky_light@[i], is_air, biome_id));
            BlockSectionData::lemma_disk_roundtrip(section.block_data);
            BiomeSectionData::lemma_disk_roundtrip(section.biome_data);
            let b = s.biomes->0;
            let ids = choose|ids: Seq<u8>|
                {
                    &&& ids.len() == b.palette@.len()
                    &&& forall|j: int| 0 <= j < ids.len() ==> biome_id.ensures((&#[trigger] b.palette@[j].name,), ids[j])
                    &&& BiomeSectionData::disk_read(ids, packed_or_empty(b.data), loaded.sections@[i].biome_data)
                };
            assert(ids =~= section.biome_data.disk_form().0) by {
                assert forall|j: int| 0 <= j < ids.len() implies ids[j] == section.biome_data.disk_form().0[j] by {
                    assert(biome_name.ensures((section.biome_data.disk_form().0[j],), b.palette@[j].name));
                    assert(biome_id.ensures((&b.palette@[j].name,), ids[j]));
                }
            }
            let bs = s.block_states->0;
            let block_packed = match section.block_data.disk_form().1 {
                Some(d) => d,
                None => Seq::<i64>::empty(),
            };
            assert(packed_or_empty(bs.data) == block_packed);
            assert(BlockSectionData::disk_valid(bs.palette@, block_packed));
            assert(loaded.sections@[i].block_data@ == section.block_data@);
            assert(loaded.sections@[i].block_data.wf());
            let biome_packed = match section.biome_data.disk_form().1 {
                Some(d) => d,
                None => Seq::<i64>::empty(),
            };
            assert(packed_or_empty(b.data) == biome_packed);
            assert(loaded.sections@[i].biome_data@ == section.biome_data@);
            assert(loaded.sections@[i].biome_data.wf());
            BlockSectionData::lemma_disk_layout_roundtrip(section.block_data, loaded.sections@[i].block_data);
            BiomeSectionData::lemma_disk_layout_roundtrip(section.biome_data, loaded.sections@[i].biome_data);
            BlockSectionData::lemma_count_wf(loaded.sections@[i].block_data, is_air);
            crate::chunk::palette::lemma_count_non_air_bound(loaded.sections@[i].block_data@, is_air, 4096);
            assert(loaded.sections@[i].block_count == count_non_air_in(c.sections@[i].block_data@, is_air, 4096));
        }
        let m = c.min_y;
        assert(m % 16 == 0 ==> ((m as int / 16) * 16) as i32 == m);
        crate::cords::section::lemma_section_roundtrip((m as int / 16) as i32);
    }

    /// What a chunk loaded from its stored form holds of it.
    pub open spec fn loaded_from<F: Fn(u16) -> bool, G: Fn(&String) -> u8>(
        &self,
        chunk_data: ChunkNbt,
        position: Vector2<i32>,
        is_air: F,
        biome_id: G,
    ) -> bool {
        &&& self.sections@.len() == chunk_data.sections@.len()
        &&& self.light.block_light@.len() == chunk_data.sections@.len()
        &&& self.light.sky_light@.len() == chunk_data.sections@.len()
        &&& forall|i: int|
            0 <= i < self.sections@.len() ==> section_loaded(
                chunk_data.sections@[i],
                #[trigger] self.sections@[i],
                self.light.block_light@[i],
                self.light.sky_light@[i],
                is_air,
                biome_id,
            )
        &&& self.heightmaps == chunk_data.heightmaps
        &&& self.position == ChunkPos(position)
        &&& self.min_y == spec_section_to_block(chunk_data.min_y_section)
        &&& self.status == chunk_data.status
        &&& !self.dirty
    }

    /// The light of a loaded section: its stored nibbles where it has them; without stored
    /// block light it is dark (level 0 everywhere), without stored sky light fully lit (level 15).
    pub proof fn lemma_loaded_light<F: Fn(u16) -> bool, G: Fn(&String) -> u8>(
        c: Chunk,
        chunk_data: ChunkNbt,
        position: Vector2<i32>,
        is_air: F,
        biome_id: G,
        i: int,
    )
        requires
            c.loaded_from(chunk_data, position, is_air, biome_id),
            0 <= i < chunk_data.sections@.len(),
        ensures
            chunk_data.sections@[i].block_light is None ==> c.light.block_light@[i] == LightContainer::Empty(0),
            chunk_data.sections@[i].sky_light is None ==> c.light.sky_light@[i] == LightContainer::Empty(15),
            chunk_data.sections@[i].block_light matches Some(d) ==> (c.light.block_light@[i] matches LightContainer::Full(l)
                && l@ == d@),
            chunk_data.sections@[i].sky_light matches Some(d) ==> (c.light.sky_light@[i] matches LightContainer::Full(l)
                && l@ == d@),
    {
        assert(section_loaded(
            chunk_data.sections@[i],
            c.sections@[i],
            c.light.block_light@[i],
            c.light.sky_light@[i],
            is_air,
            biome_id,
        ));
    }

    /// Builds a chunk from its stored data, which must have been stored for `position`.
    pub fn from_nbt<F: Fn(u16) -> bool, G: Fn(&String) -> u8>(
        chunk_data: ChunkNbt,
        position: Vector2<i32>,
        is_air: F,
        biome_id: G,
    ) -> (r: Result<Chunk, ChunkParsingError>)
        requires
            is_predicate(is_air),
            forall|name: &String| #[trigger] biome_id.requires((name,)),
            forall|i: int| 0 <= i < chunk_data.sections@.len() ==> section_readable(#[trigger] chunk_data.sections@[i]),
        ensures
            r is Err <==> (chunk_data.x_pos != position.x || chunk_data.z_pos != position.y),
            r matches Err(ChunkParsingError::ErrorDeserializingChunk(m)) ==> m@ == mismatch_text(
                position.x,
                position.y,
                chunk_data.x_pos,
                chunk_data.z_pos,
            ),
            r matches Ok(c) ==> c.loaded_from(chunk_data, position, is_air, biome_id),
    {
        if chunk_data.x_pos != position.x || chunk_data.z_pos != position.y {
            return Err(ChunkParsingError::ErrorDeserializingChunk(mismatch_message(
                position.x,
                position.y,
                chunk_data.x_pos,
                chunk_data.z_pos,
            )));
        }
        let ChunkNbt { data_version, x_pos, z_pos, min_y_section, status, sections, heightmaps, light_correct } = chunk_data;
        let ghost stored = sections@;
        let total_sections = sections.len();

        let mut block_lights: Vec<LightContainer> = Vec::new();
        let mut sky_lights: Vec<LightContainer> = Vec::new();
        let mut chunk_sections: Vec<ChunkSection> = Vec::new();
        let mut sections = sections;
        let mut remaining: Vec<ChunkSectionNbt> = Vec::new();
        // Take the sections off the back, then restore their order.
        while sections.len() > 0
            invariant
                remaining@ == stored.subrange(sections@.len() as int, stored.len() as int).reverse(),
                sections@ == stored.subrange(0, sections@.len() as int),
                sections@.len() <= stored.len(),
            decreases sections@.len(),
        {
            let section = sections.pop().unwrap();
            remaining.push(section);
            proof {
                assert(remaining@ =~= stored.subrange(sections@.len() as int, stored.len() as int).reverse());
            }
        }
        let mut i: usize = 0;
        while remaining.len() > 0
            invariant
                is_predicate(is_air),
                forall|name: &String| #[trigger] biome_id.requires((name,)),
                forall|k: int| 0 <= k < stored.len() ==> section_readable(#[trigger] stored[k]),
                remaining@.len() + i == stored.len(),
                stored.len() == total_sections,
                forall|k: int| 0 <= k < remaining@.len() ==> #[trigger] remaining@[k] == stored[stored.len() - 1 - k],
                chunk_sections@.len() == i,
                block_lights@.len() == i,
                sky_lights@.len() == i,
                forall|k: int| 0 <= k < i ==> section_loaded(
                    stored[k],
                    #[trigger] chunk_sections@[k],
                    block_lights@[k],
                    sky_lights@[k],
                    is_air,
                    biome_id,
                ),
            decreases remaining@.len(),
        {
            let section = remaining.pop().unwrap();
            let (block_light, sky_light, chunk_section) = load_section(section, &is_air, &biome_id);
            block_lights.push(block_light);
            sky_lights.push(sky_light);
            chunk_sections.push(chunk_section);
            i += 1;
        }

        let light_engine = ChunkLight { block_light: block_lights, sky_light: sky_lights };

        let min_y = section_to_block(min_y_section);

        Ok(Chunk {
            sections: chunk_sections,
            heightmaps,
            light: light_engine,
            dirty: false,
            position: ChunkPos(position),
            min_y,
            status,
        })
    }
}

} // verus!
