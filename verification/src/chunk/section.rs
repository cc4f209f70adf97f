//! A 16 * 16 * 16 section of a chunk: its blocks, its biomes and how many blocks are not air.
use vstd::prelude::*;

use crate::chunk::palette::{BiomeSectionData, BlockSectionData, count_non_air_in, holds_for, is_predicate};
use crate::math::Vector3;
use crate::registry::BlockStateId;

verus! {

pub struct ChunkSection {
    pub block_data: BlockSectionData,
    pub biome_data: BiomeSectionData,
    /// This is the number of blocks in the section that are not air.
    /// It is important to keep track of this value because if the block count reaches zero,
    /// the client does not render the chunk.
    pub block_count: u16,
}

/// A count after one value turned from `old_air` to `new_air`.
pub open spec fn next_count(count: int, old_air: bool, new_air: bool) -> int {
    if old_air && !new_air {
        count + 1
    } else if !old_air && new_air {
        count - 1
    } else {
        count
    }
}

/// Changing one value changes the non-air count by what that value did.
pub proof fn lemma_count_non_air_update<F: Fn(BlockStateId) -> bool>(
    values: Seq<BlockStateId>,
    is_air: F,
    n: nat,
    i: int,
    value: BlockStateId,
)
    requires
        0 <= i < n <= values.len(),
    ensures
        count_non_air_in(values.update(i, value), is_air, n) == next_count(
            count_non_air_in(values, is_air, n) as int,
            holds_for(is_air, values[i]),
            holds_for(is_air, value),
        ),
    decreases n,
{
    if n - 1 > i {
        lemma_count_non_air_update(values, is_air, (n - 1) as nat, i, value);
    } else {
        lemma_count_non_air_same(values.update(i, value), values, is_air, (n - 1) as nat);
    }
}

/// Counts over equal prefixes are equal.
proof fn lemma_count_non_air_same<F: Fn(BlockStateId) -> bool>(a: Seq<BlockStateId>, b: Seq<BlockStateId>, is_air: F, n: nat)
    requires
        n <= a.len(),
        n <= b.len(),
        forall|k: int| 0 <= k < n ==> a[k] == b[k],
    ensures
        count_non_air_in(a, is_air, n) == count_non_air_in(b, is_air, n),
    decreases n,
{
    if n > 0 {
        lemma_count_non_air_same(a, b, is_air, (n - 1) as nat);
    }
}

impl ChunkSection {
    /// The block at a position of the section.
    pub fn get_block(&self, position: Vector3<u8>) -> (r: BlockStateId)
        requires
            !(self.block_data is Uniform) ==> BlockSectionData::index_fits(position),
            self.block_data.readable_at(BlockSectionData::spec_index(position)),
        ensures
            r == self.block_data.spec_get(BlockSectionData::spec_index(position)),
    {
        self.block_data.get_value(position)
    }

    /// Sets the block at a position and keeps the count of non-air blocks, as `is_air` judges
    /// them, up to date.
    pub fn set_block<F: Fn(BlockStateId) -> bool>(&mut self, position: Vector3<u8>, new_block: BlockStateId, is_air: F)
        requires
            old(self).block_data.wf(),
            BlockSectionData::in_bounds(position),
            is_predicate(is_air),
            holds_for(is_air, old(self).block_data@[BlockSectionData::spec_index(position)]) && !holds_for(is_air, new_block)
                ==> old(self).block_count < u16::MAX,
            !holds_for(is_air, old(self).block_data@[BlockSectionData::spec_index(position)]) && holds_for(is_air, new_block)
                ==> old(self).block_count > 0,
        ensures
            final(self).block_data.wf(),
            final(self).block_data@ == old(self).block_data@.update(BlockSectionData::spec_index(position), new_block),
            final(self).biome_data == old(self).biome_data,
            final(self).block_count == next_count(
                old(self).block_count as int,
                holds_for(is_air, old(self).block_data@[BlockSectionData::spec_index(position)]),
                holds_for(is_air, new_block),
            ),
    {
        let old_block = self.block_data.set_value(position, new_block);

        let old_is_air = is_air(old_block);
        let new_is_air = is_air(new_block);
        proof {
            assert(holds_for(is_air, old_block) == old_is_air);
            assert(holds_for(is_air, new_block) == new_is_air);
        }

        if old_is_air && !new_is_air {
            self.block_count += 1;
        } else if !old_is_air && new_is_air {
            self.block_count -= 1;
        }
    }

    /// The block count stays the number of non-air blocks: if it was before `set_block`, it is
    /// after (and the count cannot overflow then).
    pub proof fn lemma_block_count_kept<F: Fn(BlockStateId) -> bool>(
        before: ChunkSection,
        after: ChunkSection,
        position: Vector3<u8>,
        new_block: BlockStateId,
        is_air: F,
    )
        requires
            before.block_data.wf(),
            BlockSectionData::in_bounds(position),
            before.block_count == count_non_air_in(before.block_data@, is_air, 4096),
            after.block_data@ == before.block_data@.update(BlockSectionData::spec_index(position), new_block),
            after.block_count == next_count(
                before.block_count as int,
                holds_for(is_air, before.block_data@[BlockSectionData::spec_index(position)]),
                holds_for(is_air, new_block),
            ),
        ensures
            after.block_count == count_non_air_in(after.block_data@, is_air, 4096),
            holds_for(is_air, before.block_data@[BlockSectionData::spec_index(position)]) && !holds_for(is_air, new_block)
                ==> before.block_count < u16::MAX,
            !holds_for(is_air, before.block_data@[BlockSectionData::spec_index(position)]) && holds_for(is_air, new_block)
                ==> before.block_count > 0,
    {
        let i = BlockSectionData::spec_index(position);
        lemma_count_non_air_update(before.block_data@, is_air, 4096, i, new_block);
        lemma_count_non_air_update(after.block_data@, is_air, 4096, i, before.block_data@[i]);
        assert(after.block_data@.update(i, before.block_data@[i]) =~= before.block_data@);
        crate::chunk::palette::lemma_count_non_air_bound(before.block_data@, is_air, 4096);
    }
}

} // verus!
