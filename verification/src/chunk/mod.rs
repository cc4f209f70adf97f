//! A chunk: a column of sections with its heightmaps.
pub mod format;
pub mod heightmap;
pub mod light;
pub mod palette;
pub mod section;

use std::collections::HashMap;

use vstd::prelude::*;

use crate::chunk::heightmap::ChunkHeightmaps;
use crate::chunk::light::ChunkLight;
use crate::chunk::palette::{BiomeSectionData, BlockSectionData, PalettedContainer};
use crate::chunk::palette::{count_non_air_in, holds_for, is_predicate};
use crate::chunk::section::{ChunkSection, next_count};
use crate::math::{ChunkPos, Vector3};
use crate::registry::BlockStateId;

verus! {

/// How far a chunk has come through world generation.
#[derive(Debug, Clone, Copy, PartialEq, Eq, Structural)]
pub enum ChunkStatus {
    Empty,
    StructureStarts,
    StructureReferences,
    Biomes,
    Noise,
    Surface,
    Carvers,
    Features,
    InitializeLight,
    Light,
    Spawn,
    Full,
}

/// A chunk column: its sections from the bottom up, its heightmaps and where it lies.
pub struct Chunk {
    pub sections: Vec<ChunkSection>,
    pub heightmaps: ChunkHeightmaps,
    pub light: ChunkLight,
    pub dirty: bool,
    pub position: ChunkPos,
    /// The block y coordinate of the bottom of the lowest section.
    pub min_y: i32,
    pub status: ChunkStatus,
}

/// The entities stored for a chunk, each under the UUID it carries (as the integer the UUID
/// stands for).
pub struct ChunkEntityData<E> {
    /// Chunk X
    pub x: i32,
    /// Chunk Z
    pub z: i32,
    pub data: HashMap<u128, E>,
    pub dirty: bool,
}

/// The position inside its section of a position relative to the chunk.
pub open spec fn local_position(position: Vector3<u16>) -> Vector3<u8> {
    Vector3 { x: (position.x % 16) as u8, y: (position.y % 16) as u8, z: (position.z % 16) as u8 }
}

/// A position relative to the chunk falls on one of the 4096 positions of its section.
proof fn lemma_block_index(position: Vector3<u16>)
    ensures
        BlockSectionData::spec_dimension() == 16,
        0 <= BlockSectionData::spec_index(local_position(position)) < 4096,
{
    BlockSectionData::lemma_dimension();
    let d = BlockSectionData::spec_dimension();
    assert(d == 16) by (nonlinear_arith)
        requires
            d >= 1,
            d * d * d >= 4096,
            d == 1 || (d - 1) * (d - 1) * (d - 1) < 4096,
    {
        if d <= 15 {
            assert(d * d * d <= 15 * 15 * 15);
        }
        if d >= 17 {
            assert((d - 1) * (d - 1) * (d - 1) >= 16 * 16 * 16);
        }
    }
    let lp = local_position(position);
    let (x, y, z) = (lp.x as int, lp.y as int, lp.z as int);
    assert(0 <= y * (16 * 16) + z * 16 + x < 4096) by (nonlinear_arith)
        requires 0 <= x < 16, 0 <= y < 16, 0 <= z < 16;
    assert(BlockSectionData::spec_index(lp) == y * (16 * 16) + z * 16 + x);
}

impl Chunk {
    /// Every section's palettes are well formed.
    pub open spec fn wf(&self) -> bool {
        forall|i: int| 0 <= i < self.sections@.len() ==> {
            &&& (#[trigger] self.sections@[i]).block_data.wf()
            &&& self.sections@[i].biome_data.wf()
        }
    }

    /// The block at a position relative to the chunk.
    pub open spec fn block_at(&self, position: Vector3<u16>) -> BlockStateId {
        self.sections@[(position.y / 16) as int].block_data@[BlockSectionData::spec_index(local_position(position))]
    }

    /// Whether a position relative to the chunk can be read and written.
    pub open spec fn holds(&self, position: Vector3<u16>) -> bool {
        &&& position.x <= 16
        &&& position.z <= 16
        &&& position.y / 16 < self.sections@.len()
    }

    /// Every section's block count is its number of non-air blocks, as `is_air` judges them.
    pub open spec fn counts_exact<F: Fn(BlockStateId) -> bool>(&self, is_air: F) -> bool {
        forall|i: int|
            0 <= i < self.sections@.len() ==> (#[trigger] self.sections@[i]).block_count == count_non_air_in(
                self.sections@[i].block_data@,
                is_air,
                4096,
            )
    }

    /// What `set_block` leaves: the block at the position replaced in its section's blocks, that
    /// section's count of non-air blocks moved by what the change did, and everything else as it
    /// was.
    pub open spec fn set_block_result<F: Fn(BlockStateId) -> bool>(
        &self,
        after: Chunk,
        position: Vector3<u16>,
        new_block: BlockStateId,
        is_air: F,
    ) -> bool {
        let s = (position.y / 16) as int;
        &&& after.sections@.len() == self.sections@.len()
        &&& forall|i: int| 0 <= i < after.sections@.len() && i != s ==> #[trigger] after.sections@[i] == self.sections@[i]
        &&& after.sections@[s].block_data@ == self.sections@[s].block_data@.update(
            BlockSectionData::spec_index(local_position(position)),
            new_block,
        )
        &&& after.sections@[s].biome_data == self.sections@[s].biome_data
        &&& after.sections@[s].block_count == next_count(
            self.sections@[s].block_count as int,
            holds_for(is_air, self.block_at(position)),
            holds_for(is_air, new_block),
        )
        &&& after.heightmaps == self.heightmaps
        &&& after.light == self.light
        &&& after.dirty == self.dirty
        &&& after.position == self.position
        &&& after.min_y == self.min_y
        &&& after.status == self.status
    }

    /// Setting a block keeps every section's block count its number of non-air blocks.
    pub proof fn lemma_counts_kept<F: Fn(BlockStateId) -> bool>(
        before: Chunk,
        after: Chunk,
        position: Vector3<u16>,
        new_block: BlockStateId,
        is_air: F,
    )
        requires
            before.wf(),
            before.holds(position),
            before.counts_exact(is_air),
            before.set_block_result(after, position, new_block, is_air),
        ensures
            after.counts_exact(is_air),
    {
        lemma_block_index(position);
        let s = (position.y / 16) as int;
        let lp = local_position(position);
        assert(BlockSectionData::in_bounds(lp));
        ChunkSection::lemma_block_count_kept(before.sections@[s], after.sections@[s], lp, new_block, is_air);
        assert forall|i: int| 0 <= i < after.sections@.len() implies (#[trigger] after.sections@[i]).block_count
            == count_non_air_in(after.sections@[i].block_data@, is_air, 4096) by {
            if i != s {
                assert(after.sections@[i] == before.sections@[i]);
            }
        }
    }

    /// Reading a block after setting one: the position set gives the new block (as does any
    /// position that shares its slot: x or z of 16 wraps to 0), every other position keeps its block.
    pub proof fn lemma_get_after_set<F: Fn(BlockStateId) -> bool>(
        before: Chunk,
        after: Chunk,
        written: Vector3<u16>,
        new_block: BlockStateId,
        read: Vector3<u16>,
        is_air: F,
    )
        requires
            before.wf(),
            before.holds(written),
            before.holds(read),
            before.set_block_result(after, written, new_block, is_air),
        ensures
            after.holds(read),
            after.block_at(read) == if read.y / 16 == written.y / 16 && BlockSectionData::spec_index(local_position(read))
                == BlockSectionData::spec_index(local_position(written)) {
                new_block
            } else {
                before.block_at(read)
            },
    {
        lemma_block_index(read);
        let sr = (read.y / 16) as int;
        let sw = (written.y / 16) as int;
        if sr == sw {
            assert(after.sections@[sr].block_data@.len() == 4096);
        } else {
            assert(after.sections@[sr] == before.sections@[sr]);
        }
    }

    /// Each block position of a chunk has a block of its own: after `set_block` at `written`,
    /// reading a position in another section (another `y / 16`) or at another place within its
    /// section (another `x % 16`, `y % 16` or `z % 16`) gives the block held before, and reading
    /// at the same place gives the new block.
    pub proof fn lemma_positions_independent<F: Fn(BlockStateId) -> bool>(
        before: Chunk,
        after: Chunk,
        written: Vector3<u16>,
        new_block: BlockStateId,
        read: Vector3<u16>,
        is_air: F,
    )
        requires
            before.wf(),
            before.holds(written),
            before.holds(read),
            before.set_block_result(after, written, new_block, is_air),
        ensures
            ({
                let same = read.y / 16 == written.y / 16 && read.x % 16 == written.x % 16 && read.y % 16 == written.y % 16
                    && read.z % 16 == written.z % 16;
                &&& same ==> after.block_at(read) == new_block
                &&& !same ==> after.block_at(read) == before.block_at(read)
            }),
    {
        Self::lemma_get_after_set(before, after, written, new_block, read, is_air);
        lemma_block_index(read);
        lemma_block_index(written);
        let lr = local_position(read);
        let lw = local_position(written);
        BlockSectionData::lemma_index_injective(lr, lw);
    }

    /// Every block of a chunk whose sections are all empty is air (block state 0).
    pub proof fn lemma_empty_is_air(c: Chunk, position: Vector3<u16>)
        requires
            forall|i: int| 0 <= i < c.sections@.len() ==> (#[trigger] c.sections@[i]).block_data == BlockSectionData::Uniform(0),
            c.holds(position),
        ensures
            c.block_at(position) == 0,
    {
        lemma_block_index(position);
        assert(c.sections@[(position.y / 16) as int].block_data == BlockSectionData::Uniform(0));
    }

    /// A chunk of `num_sections` empty sections.
    pub fn new_empty(min_y: i32, position: ChunkPos, num_sections: usize) -> (r: Self)
        ensures
            r.wf(),
            r.sections@.len() == num_sections,
            forall|i: int| 0 <= i < num_sections ==> {
                &&& (#[trigger] r.sections@[i]).block_data == BlockSectionData::Uniform(0)
                &&& r.sections@[i].biome_data == BiomeSectionData::Uniform(0)
                &&& r.sections@[i].block_count == 0
            },
            !r.dirty,
            r.light.block_light@.len() == 0,
            r.light.sky_light@.len() == 0,
            r.position == position,
            r.min_y == min_y,
            r.status == ChunkStatus::Empty,
            r.heightmaps.world_surface@ == Seq::new(37, |i: int| 0i64),
            r.heightmaps.motion_blocking@ == Seq::new(37, |i: int| 0i64),
            r.heightmaps.motion_blocking_no_leaves@ == Seq::new(37, |i: int| 0i64),
    {
        let mut sections: Vec<ChunkSection> = Vec::new();
        let mut i: usize = 0;
        while i < num_sections
            invariant
                i <= num_sections,
                sections@.len() == i,
                forall|k: int| 0 <= k < i ==> {
                    &&& (#[trigger] sections@[k]).block_data == BlockSectionData::Uniform(0)
                    &&& sections@[k].biome_data == BiomeSectionData::Uniform(0)
                    &&& sections@[k].block_count == 0
                },
            decreases num_sections - i,
        {
            let block_data = BlockSectionData::default();
            let biome_data = BiomeSectionData::default();
            sections.push(ChunkSection { block_data, biome_data, block_count: 0 });
            i += 1;
        }
        Self {
            sections,
            dirty: false,
            heightmaps: ChunkHeightmaps::default(),
            light: ChunkLight::default(),
            position: position,
            min_y,
            status: ChunkStatus::Empty,
        }
    }

    /// The section index and in-section position of a position relative to the chunk.
    fn locate(position: Vector3<u16>) -> (r: (usize, Vector3<u8>))
        requires
            position.x <= 16,
            position.z <= 16,
        ensures
            r.0 == position.y / 16,
            r.1 == local_position(position),
            BlockSectionData::in_bounds(r.1),
            BlockSectionData::index_fits(r.1),
    {
        proof {
            BlockSectionData::lemma_size_fits();
            BlockSectionData::lemma_dimension();
            lemma_block_index(position);
        }
        let dimensions = BlockSectionData::dimension() as u16;
        let section_y = position.y / dimensions;
        let local_pos = Vector3 {
            x: (position.x % dimensions) as u8,
            y: (position.y % dimensions) as u8,
            z: (position.z % dimensions) as u8,
        };
        (section_y as usize, local_pos)
    }

    /// Whether the block at a position relative to the chunk can be read.
    pub open spec fn readable(&self, position: Vector3<u16>) -> bool {
        &&& self.holds(position)
        &&& self.sections@[(position.y / 16) as int].block_data.readable_at(
            BlockSectionData::spec_index(local_position(position)),
        )
    }

    /// Gets a block from the chunk with a relative position.
    pub fn get_block(&self, position: Vector3<u16>) -> (r: BlockStateId)
        requires
            self.readable(position),
        ensures
            r == self.block_at(position),
    {
        let (section_y, local_pos) = Self::locate(position);
        proof {
            lemma_block_index(position);
        }
        self.sections[section_y].block_data.get_value(local_pos)
    }

    /// Sets the block at the given position to the new block, keeping the count of non-air
    /// blocks of its section up to date as `is_air` judges them.
    /// Returns the previous block state.
    pub fn set_block<F: Fn(BlockStateId) -> bool>(&mut self, position: Vector3<u16>, new_block: BlockStateId, is_air: F) -> (r: BlockStateId)
        requires
            old(self).wf(),
            old(self).holds(position),
            is_predicate(is_air),
            holds_for(is_air, old(self).block_at(position)) && !holds_for(is_air, new_block)
                ==> old(self).sections@[(position.y / 16) as int].block_count < u16::MAX,
            !holds_for(is_air, old(self).block_at(position)) && holds_for(is_air, new_block)
                ==> old(self).sections@[(position.y / 16) as int].block_count > 0,
        ensures
            r == old(self).block_at(position),
            final(self).wf(),
            old(self).set_block_result(*final(self), position, new_block, is_air),
            old(self).counts_exact(is_air) ==> final(self).counts_exact(is_air),
    {
        let (section_y, local_pos) = Self::locate(position);
        proof {
            lemma_block_index(position);
            BlockSectionData::lemma_readable(self.sections@[section_y as int].block_data, BlockSectionData::spec_index(local_pos));
        }
        let old_block = self.sections[section_y].block_data.get_value(local_pos);
        self.sections[section_y].set_block(local_pos, new_block, is_air);
        proof {
            if old(self).counts_exact(is_air) {
                Self::lemma_counts_kept(*old(self), *self, position, new_block, is_air);
            }
        }
        old_block
    }
}

} // verus!
