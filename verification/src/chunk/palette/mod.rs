pub mod packing;
pub mod value;

use std::collections::HashMap;

use vstd::prelude::*;

use crate::chunk::palette::packing::{
    covers, long_index, unpack_spec, pack_spec, lemma_offset_bound, low_mask, field_of, set_field,
    bit_offset, entries_per_long, count_index, num_longs, lemma_num_longs_covers, lemma_unpack_pack,
    lemma_unpack_zero, lemma_count_all, lemma_covers, lemma_mask_small, lemma_count_pack,
    lemma_count_bound, lemma_count_zero, lemma_count_same, lemma_count_prefix, lemma_count_witness,
    as_longs, as_signed, unpack_raw_spec, bit_length, lemma_leading_zeros, lemma_bit_length,
    lemma_signed_roundtrip, pack_entries, lemma_pack_entries, lemma_set_empty_field, lemma_or_signed,
};
use vstd::arithmetic::power2::pow2;
use crate::chunk::palette::value::{PaletteConfig, PaletteValue};
use crate::math::Vector3;
use crate::chunk::format::{ChunkSectionBlockStates, ChunkSectionBiomes, PaletteBiomeEntry, packed_or_empty};
use crate::registry::BlockStateId;

verus! {

broadcast use vstd::std_specs::hash::group_hash_axioms;

/// The values of one chunk section, stored as compactly as their variety allows.
pub enum PalettedContainer<V: Copy, const SIZE: usize> {
    /// Every position holds the same value, useful for air.
    Uniform(V),
    /// Positions hold indices into a palette of distinct values.
    Indirect {
        palette: Vec<V>,
        /// Palette indices packed into 64-bit longs, `bit_width` bits each, never straddling two longs.
        data: Vec<u64>,
        bit_width: u8,
        /// How many positions refer to each palette entry.
        ref_counts: Vec<u16>,
    },
    /// Too many distinct values for a palette: one value per position.
    Direct {
        data: Vec<V>,
    },
}

/// The 16 * 16 * 16 block states of a section.
pub type BlockSectionData = PalettedContainer<u16, 4096>;

/// The 4 * 4 * 4 biomes of a section.
pub type BiomeSectionData = PalettedContainer<u8, 64>;

/// The smallest `d >= start` whose cube reaches `n`.
pub open spec fn cube_root_from(start: nat, n: nat) -> nat
    decreases n - start,
{
    if start * start * start >= n || start >= n {
        start
    } else {
        cube_root_from(start + 1, n)
    }
}


impl<V: PaletteValue, const SIZE: usize> View for PalettedContainer<V, SIZE> {
    type V = Seq<V>;

    /// The value at each of the `SIZE` positions.
    open spec fn view(&self) -> Seq<V> {
        Seq::new(SIZE as nat, |i: int| self.spec_get(i))
    }
}

impl<V: PaletteValue, const SIZE: usize> PalettedContainer<V, SIZE> {
    /// The value stored for position index `i`.
    pub open spec fn spec_get(&self, i: int) -> V {
        match self {
            PalettedContainer::Uniform(v) => *v,
            PalettedContainer::Indirect { palette, data, bit_width, .. } => palette@[unpack_spec(
                data@,
                i as nat,
                *bit_width as nat,
            ) as int],
            PalettedContainer::Direct { data } => data@[i],
        }
    }

    /// Whether position index `i` can be read without leaving the stored arrays.
    pub open spec fn readable_at(&self, i: int) -> bool {
        match self {
            PalettedContainer::Uniform(_) => true,
            PalettedContainer::Indirect { palette, data, bit_width, .. } => {
                &&& 0 <= i
                &&& 1 <= *bit_width <= 63
                &&& long_index(i as nat, *bit_width as nat) < data@.len()
                &&& unpack_spec(data@, i as nat, *bit_width as nat) < palette@.len()
            },
            PalettedContainer::Direct { data } => 0 <= i < data@.len(),
        }
    }

    /// The side length of the cube of positions: the smallest `d >= 1` with `d^3 >= SIZE`.
    pub open spec fn spec_dimension() -> nat {
        cube_root_from(1, SIZE as nat)
    }

    /// The index of a position: x fastest, then z, then y.
    pub open spec fn spec_index(position: Vector3<u8>) -> int {
        let dim = Self::spec_dimension();
        position.y * (dim * dim) + position.z * dim + position.x
    }

    /// Whether a position lies inside the container.
    pub open spec fn in_bounds(position: Vector3<u8>) -> bool {
        Self::spec_index(position) < SIZE
    }

    /// The values held by a palette and a packed index buffer.
    pub open spec fn indirect_view(palette: Seq<V>, data: Seq<u64>, bw: nat) -> Seq<V> {
        Seq::new(SIZE as nat, |k: int| palette[unpack_spec(data, k as nat, bw) as int])
    }

    /// Every one of the `SIZE` entries lies in the buffer and indexes the palette.
    pub open spec fn indices_valid(palette_len: nat, data: Seq<u64>, bw: nat) -> bool {
        &&& 1 <= bw <= 63
        &&& data.len() == num_longs(SIZE as nat, bw)
        &&& covers(data.len(), SIZE as nat, bw)
        &&& forall|k: nat| k < SIZE ==> #[trigger] unpack_spec(data, k, bw) < palette_len
    }

    /// Each reference count is the number of entries that hold its index.
    pub open spec fn counts_match(ref_counts: Seq<u16>, data: Seq<u64>, bw: nat) -> bool {
        forall|j: int|
            0 <= j < ref_counts.len() ==> #[trigger] ref_counts[j] as nat == count_index(
                data,
                bw,
                j as nat,
                SIZE as nat,
            )
    }

    /// The invariant of the indirect layout.
    pub open spec fn indirect_wf(palette: Seq<V>, data: Seq<u64>, bit_width: u8, ref_counts: Seq<u16>) -> bool {
        &&& V::spec_palette_config(palette.len()) == (PaletteConfig::Indirect { bits_per_entry: bit_width })
        &&& Self::indices_valid(palette.len(), data, bit_width as nat)
        &&& palette.no_duplicates()
        &&& ref_counts.len() == palette.len()
        &&& Self::counts_match(ref_counts, data, bit_width as nat)
        &&& forall|j: int| 0 <= j < ref_counts.len() ==> #[trigger] ref_counts[j] > 0
    }

    /// Each reference count, one per palette entry, matches the entries; direct storage holds
    /// one value per position.
    pub open spec fn counts_consistent(&self) -> bool {
        match self {
            PalettedContainer::Indirect { palette, data, bit_width, ref_counts } => {
                &&& ref_counts@.len() == palette@.len()
                &&& Self::counts_match(ref_counts@, data@, *bit_width as nat)
            },
            PalettedContainer::Direct { data } => data@.len() == SIZE,
            _ => true,
        }
    }

    /// The container's invariant.
    pub open spec fn wf(&self) -> bool {
        &&& 2 <= SIZE <= 65535
        &&& match self {
            PalettedContainer::Uniform(_) => true,
            PalettedContainer::Indirect { palette, data, bit_width, ref_counts } => Self::indirect_wf(
                palette@,
                data@,
                *bit_width,
                ref_counts@,
            ),
            PalettedContainer::Direct { data } => {
                &&& data@.len() == SIZE
                &&& data@.to_set().len() > V::spec_max_unique()
            },
        }
    }

    /// Whether two containers have the same layout and contents: the same variant, with equal
    /// fields.
    pub open spec fn same_layout(&self, other: Self) -> bool {
        match self {
            PalettedContainer::Uniform(a) => other matches PalettedContainer::Uniform(b) && *a == b,
            PalettedContainer::Indirect { palette, data, bit_width, ref_counts } => other matches PalettedContainer::Indirect {
                palette: p,
                data: d,
                bit_width: w,
                ref_counts: c,
            } && palette@ == p@ && data@ == d@ && *bit_width == w && ref_counts@ == c@,
            PalettedContainer::Direct { data } => other matches PalettedContainer::Direct { data: d } && data@ == d@,
        }
    }

    /// The layout a uniform container of `u` takes when position index `i` is set to another
    /// value `v`: a palette of the two, the bits per entry for two values, every index 0 but the
    /// one at `i`, which is 1.
    pub open spec fn uniform_split(u: V, i: int, v: V, r: Self) -> bool {
        r matches PalettedContainer::Indirect { palette, data, bit_width, ref_counts } && {
            &&& palette@ == seq![u, v]
            &&& V::spec_palette_config(2) == (PaletteConfig::Indirect { bits_per_entry: bit_width })
            &&& data@ == pack_spec(
                Seq::new(num_longs(SIZE as nat, bit_width as nat), |l: int| 0u64),
                i as nat,
                bit_width as nat,
                1,
            )
            &&& ref_counts@ == seq![(SIZE - 1) as u16, 1u16]
        }
    }

    /// Whether setting position index `i` of an indirect container to `value` frees a slot for
    /// it: the value is new to the palette and the value it replaces is held nowhere else.
    pub open spec fn slot_reused(c: Self, i: int, value: V) -> bool {
        c matches PalettedContainer::Indirect { palette, data, bit_width, ref_counts } && {
            &&& !palette@.contains(value)
            &&& ref_counts@[unpack_spec(data@, i as nat, bit_width as nat) as int] == 1
        }
    }

    /// The layout after the value takes the freed slot: the same bits per entry, and the palette
    /// with the replaced value's slot given to the new value.
    pub open spec fn slot_taken(c: Self, i: int, value: V, r: Self) -> bool {
        c matches PalettedContainer::Indirect { palette, data, bit_width, .. } && r matches PalettedContainer::Indirect {
            palette: p,
            bit_width: w,
            ..
        } && w == bit_width && p@ == palette@.update(unpack_spec(data@, i as nat, bit_width as nat) as int, value)
    }

    /// Whether some cube of at least `SIZE` fits in a `usize`.
    pub open spec fn size_fits() -> bool {
        exists|d: nat| SIZE <= #[trigger] (d * d * d) <= usize::MAX
    }

    /// Whether the index of `position` can be computed without overflow.
    pub open spec fn index_fits(position: Vector3<u8>) -> bool {
        &&& Self::size_fits()
        &&& Self::spec_index(position) <= usize::MAX
    }

    /// The side length of the cube of positions.
    pub fn dimension() -> (r: usize)
        requires
            Self::size_fits(),
        ensures
            r == Self::spec_dimension(),
            r * r <= r * r * r <= usize::MAX,
            r >= 1,
            r * r * r >= SIZE,
            r == 1 || (r - 1) * (r - 1) * (r - 1) < SIZE,
    {
        proof {
            Self::lemma_dimension();
        }
        if SIZE == 4096 {
            proof {
                let d = Self::spec_dimension();
                assert(d == 16) by (nonlinear_arith)
                    requires
                        d >= 1,
                        d * d * d >= 4096,
                        d == 1 || (d - 1) * (d - 1) * (d - 1) < 4096,
                {
                    if d <= 15 {
                        assert(d * d * d <= 15 * 15 * 15);
                    }
                    if d >= 17 {
                        assert((d - 1) * (d - 1) * (d - 1) >= 16 * 16 * 16);
                    }
                }
            }
            assert(16 * 16 <= 16 * 16 * 16 <= usize::MAX) by (nonlinear_arith);
            16  // 16 * 16 * 16 for blocks
        } else if SIZE == 64 {
            proof {
                let d = Self::spec_dimension();
                assert(d == 4) by (nonlinear_arith)
                    requires
                        d >= 1,
                        d * d * d >= 64,
                        d == 1 || (d - 1) * (d - 1) * (d - 1) < 64,
                {
                    if d <= 3 {
                        assert(d * d * d <= 3 * 3 * 3);
                    }
                    if d >= 5 {
                        assert((d - 1) * (d - 1) * (d - 1) >= 4 * 4 * 4);
                    }
                }
            }
            assert(4 * 4 <= 4 * 4 * 4 <= usize::MAX) by (nonlinear_arith);
            4  // 4 * 4 * 4 for biomes
        } else {
            let mut dim: usize = 1;
            let ghost w: nat = choose|d: nat| SIZE <= #[trigger] (d * d * d) <= usize::MAX;
            while dim * dim * dim < SIZE
                invariant
                    1 <= dim,
                    dim * dim <= dim * dim * dim <= usize::MAX,
                    SIZE <= w * w * w <= usize::MAX,
                    cube_root_from(dim as nat, SIZE as nat) == Self::spec_dimension(),
                decreases SIZE - dim,
            {
                proof {
                    assert(dim <= dim * dim * dim) by (nonlinear_arith)
                        requires 1 <= dim;
                    assert(dim < w) by (nonlinear_arith)
                        requires
                            dim * dim * dim < SIZE,
                            SIZE <= w * w * w,
                            dim >= 1,
                    {
                        if dim >= w {
                            assert(w * w * w <= dim * dim * dim);
                        }
                    }
                }
                dim += 1;
                proof {
                    assert(dim * dim <= dim * dim * dim <= w * w * w) by (nonlinear_arith)
                        requires 1 <= dim <= w;
                }
            }
            dim
        }
    }

    /// The index of a position inside the container.
    fn position_to_index(position: Vector3<u8>) -> (r: usize)
        requires
            Self::index_fits(position),
        ensures
            r == Self::spec_index(position),
    {
        let x = position.x as usize;
        let y = position.y as usize;
        let z = position.z as usize;
        let dim = Self::dimension();
        proof {
            assert(y * (dim * dim) <= y * (dim * dim) + z * dim + x) by (nonlinear_arith)
                requires x >= 0, z >= 0, dim >= 0;
            assert(z * dim <= y * (dim * dim) + z * dim + x) by (nonlinear_arith)
                requires x >= 0, y >= 0, dim >= 0;
        }
        (y * (dim * dim)) + (z * dim) + x
    }

    /// Entry `entry_index` of a buffer packed with `bit_width` bits per entry.
    fn unpack_value(buffer: &[u64], entry_index: usize, bit_width: u8) -> (r: u64)
        requires
            1 <= bit_width <= 63,
            long_index(entry_index as nat, bit_width as nat) < buffer@.len(),
        ensures
            r == unpack_spec(buffer@, entry_index as nat, bit_width as nat),
    {
        proof {
            lemma_offset_bound(entry_index as nat, bit_width as nat);
        }
        let entries_per_long = 64 / bit_width as usize;
        let long_index = entry_index / entries_per_long;
        let bit_index = (entry_index % entries_per_long) * bit_width as usize;
        proof {
            assert(1u64 << bit_width >= 1) by (bit_vector)
                requires bit_width <= 63u8;
        }
        let entry_mask = (1u64 << bit_width) - 1;

        (buffer[long_index] >> bit_index) & entry_mask
    }

    /// Overwrites entry `entry_index` of a packed buffer with the low bits of `value`.
    fn pack_value(buffer: &mut Vec<u64>, entry_index: usize, bit_width: u8, value: u64)
        requires
            1 <= bit_width <= 63,
            long_index(entry_index as nat, bit_width as nat) < old(buffer)@.len(),
        ensures
            final(buffer)@ == pack_spec(old(buffer)@, entry_index as nat, bit_width as nat, value),
    {
        proof {
            lemma_offset_bound(entry_index as nat, bit_width as nat);
        }
        let bits_per_entry = bit_width as usize;

        let entries_per_long = 64 / bits_per_entry;
        let long_index = entry_index / entries_per_long;
        let bit_index = (entry_index % entries_per_long) * bits_per_entry;
        proof {
            assert(1u64 << bits_per_entry >= 1) by (bit_vector)
                requires bits_per_entry <= 63usize;
        }
        let entry_mask = (1u64 << bits_per_entry) - 1;
        let cleared = buffer[long_index] & !(entry_mask << bit_index);
        buffer.set(long_index, cleared | ((value & entry_mask) << bit_index));
    }

    /// Gets the value at the given position.
    pub fn get_value(&self, position: Vector3<u8>) -> (r: V)
        requires
            !(self is Uniform) ==> Self::index_fits(position),
            self.readable_at(Self::spec_index(position)),
        ensures
            r == self.spec_get(Self::spec_index(position)),
    {
        match self {
            PalettedContainer::Uniform(value) => {
                assert(*value == self.spec_get(Self::spec_index(position)));
                *value
            },
            PalettedContainer::Indirect { palette, data, bit_width, .. } => {
                let i = Self::position_to_index(position);
                let buffer = data.as_slice();
                let palette_index = Self::unpack_value(buffer, i, *bit_width);
                assert(buffer@ == data@);
                assert(palette_index == unpack_spec(data@, i as nat, *bit_width as nat));
                assert(palette_index < palette@.len());
                assert(palette@.len() == palette.len());
                let r = palette[palette_index as usize];
                assert(r == self.spec_get(Self::spec_index(position)));
                r
            },
            PalettedContainer::Direct { data } => {
                let r = data[Self::position_to_index(position)];
                assert(r == self.spec_get(Self::spec_index(position)));
                r
            },
        }
    }

    /// A buffer of `n` zero longs.
    fn zeroed_longs(n: usize) -> (r: Vec<u64>)
        ensures
            r@.len() == n,
            forall|l: int| 0 <= l < n ==> r@[l] == 0,
    {
        let mut r: Vec<u64> = Vec::new();
        let mut k: usize = 0;
        while k < n
            invariant
                k <= n,
                r@.len() == k,
                forall|l: int| 0 <= l < k ==> r@[l] == 0,
            decreases n - k,
        {
            r.push(0);
            k += 1;
        }
        r
    }

    /// The number of longs for `SIZE` entries of `bits_per_entry` bits.
    fn long_count(bits_per_entry: u8) -> (r: usize)
        requires
            1 <= bits_per_entry <= 63,
            SIZE <= 65535,
        ensures
            r == num_longs(SIZE as nat, bits_per_entry as nat),
            covers(r as nat, SIZE as nat, bits_per_entry as nat),
    {
        proof {
            lemma_offset_bound(0, bits_per_entry as nat);
            lemma_num_longs_covers(SIZE as nat, bits_per_entry as nat);
        }
        let entries_per_long = 64 / bits_per_entry as usize;
        (SIZE + (entries_per_long - 1)) / entries_per_long
    }

    /// A uniform container with one position changed to a different value: a palette of two.
    fn uniform_with(uniform_value: V, i: usize, value: V) -> (r: Self)
        requires
            2 <= SIZE <= 65535,
            i < SIZE,
            uniform_value != value,
        ensures
            r.wf(),
            r@ == PalettedContainer::<V, SIZE>::Uniform(uniform_value)@.update(i as int, value),
            Self::uniform_split(uniform_value, i as int, value, r),
    {
        proof {
            V::lemma_palette_config(2);
        }
        let bits_per_entry = match V::get_palette_config(2) {
            PaletteConfig::Indirect { bits_per_entry } => bits_per_entry,
            _ => {
                proof {
                    assert(false);
                }
                1
            },
        };
        let num_longs = Self::long_count(bits_per_entry);

        let mut palette: Vec<V> = Vec::new();
        palette.push(uniform_value);
        palette.push(value);
        let mut data = Self::zeroed_longs(num_longs);
        let ghost zero = data@;
        proof {
            lemma_covers(num_longs as nat, SIZE as nat, bits_per_entry as nat, i as nat);
        }
        Self::pack_value(&mut data, i, bits_per_entry, 1);

        let mut ref_counts: Vec<u16> = Vec::new();
        ref_counts.push(SIZE as u16 - 1);
        ref_counts.push(1);

        let r = PalettedContainer::Indirect {
            palette,
            data,
            bit_width: bits_per_entry,
            ref_counts,
        };
        proof {
            let bw = bits_per_entry as nat;
            vstd::arithmetic::power2::lemma_pow2_pos(bw);
            assert(pow2(bw) >= 2) by {
                vstd::arithmetic::power2::lemma2_to64();
            }
            lemma_mask_small(1, bw);
            assert forall|k: nat| k < SIZE implies #[trigger] unpack_spec(data@, k, bw) == if k == i {
                1u64
            } else {
                0u64
            } by {
                lemma_covers(num_longs as nat, SIZE as nat, bw, k);
                lemma_unpack_pack(zero, i as nat, k, bw, 1);
                lemma_unpack_zero(zero, k, bw);
            }
            lemma_count_all(zero, bw, 0, SIZE as nat);
            lemma_count_all(zero, bw, 1, SIZE as nat);
            assert forall|k: nat| k < SIZE implies #[trigger] unpack_spec(zero, k, bw) == 0 by {
                lemma_covers(num_longs as nat, SIZE as nat, bw, k);
                lemma_unpack_zero(zero, k, bw);
            }
            lemma_count_pack(zero, bw, i as nat, 1, 0, SIZE as nat);
            lemma_count_pack(zero, bw, i as nat, 1, 1, SIZE as nat);
            assert(r@ =~= PalettedContainer::<V, SIZE>::Uniform(uniform_value)@.update(i as int, value));
            assert(zero =~= Seq::new(num_longs as nat, |l: int| 0u64));
            assert(ref_counts@ =~= seq![(SIZE - 1) as u16, 1u16]);
            assert(palette@ =~= seq![uniform_value, value]);
        }
        r
    }

    /// Sets the value at the given position and returns the value it held.
    pub fn set_value(&mut self, position: Vector3<u8>, value: V) -> (r: V)
        requires
            old(self).wf(),
            Self::in_bounds(position),
        ensures
            r == old(self)@[Self::spec_index(position)],
            final(self).wf(),
            final(self)@ == old(self)@.update(Self::spec_index(position), value),
            // Writing the value already held changes nothing.
            old(self)@[Self::spec_index(position)] == value ==> final(self).same_layout(*old(self)),
            // A uniform container given a second value takes a palette of the two.
            *old(self) matches PalettedContainer::Uniform(u) ==> (u != value ==> Self::uniform_split(
                u,
                Self::spec_index(position),
                value,
                *final(self),
            )),
            // A new value takes the slot of the value it replaces when nothing else holds that one.
            Self::slot_reused(*old(self), Self::spec_index(position), value) ==> Self::slot_taken(
                *old(self),
                Self::spec_index(position),
                value,
                *final(self),
            ),
            // A direct container stays direct exactly while it holds too many distinct values for a
            // palette; otherwise it becomes indirect with the bits per entry for its distinct values.
            *old(self) is Direct ==> (*final(self) is Direct <==> final(self)@.to_set().len() > V::spec_max_unique()),
            *old(self) is Direct ==> (*final(self) matches PalettedContainer::Indirect { bit_width, .. }
                ==> V::spec_palette_config(final(self)@.to_set().len()) == (PaletteConfig::Indirect {
                bits_per_entry: bit_width,
            })),
            *old(self) is Direct ==> !(*final(self) is Uniform),
    {
        proof {
            Self::lemma_size_fits();
        }
        let ghost before = *self;
        let mut current = PalettedContainer::Uniform(value);
        std::mem::swap(&mut current, self);
        match current {
            PalettedContainer::Uniform(uniform_value) => {
                let old_value = uniform_value;
                if uniform_value.same_value(&value) {
                    *self = PalettedContainer::Uniform(uniform_value);
                    proof {
                        assert(self@ =~= before@.update(Self::spec_index(position), value));
                    }
                    return old_value;
                }
                let i = Self::position_to_index(position);
                *self = Self::uniform_with(uniform_value, i, value);
                old_value
            },
            PalettedContainer::Indirect { palette, data, bit_width, ref_counts } => {
                let i = Self::position_to_index(position);
                proof {
                    assert(before@ =~= Self::indirect_view(palette@, data@, bit_width as nat));
                }
                let (next, old_value) = Self::indirect_with(palette, data, bit_width, ref_counts, i, value);
                *self = next;
                old_value
            },
            PalettedContainer::Direct { data } => {
                let i = Self::position_to_index(position);
                proof {
                    assert(before@ =~= data@);
                }
                let (next, old_value) = Self::direct_with(data, i, value);
                *self = next;
                old_value
            },
        }
    }

    /// Containers of at most 65535 values have a computable dimension.
    pub proof fn lemma_size_fits()
        requires
            SIZE <= 65535,
        ensures
            Self::size_fits(),
    {
        assert(SIZE <= 41 * 41 * 41 <= usize::MAX) by (nonlinear_arith)
            requires SIZE <= 65535;
        let d: nat = 41;
        assert(SIZE <= d * d * d <= usize::MAX);
    }

    /// The bits per entry of a directly stored palette of `palette_len` values on disk.
    pub open spec fn disk_bits(palette_len: nat) -> nat {
        bit_length((palette_len - 1) as nat)
    }

    /// The values that a palette and its packed indices, as stored on disk, describe.
    pub open spec fn from_disk_view(palette: Seq<V>, packed: Seq<i64>) -> Seq<V> {
        if palette.len() == 0 {
            Seq::new(SIZE as nat, |i: int| V::spec_default())
        } else if palette.len() == 1 {
            Seq::new(SIZE as nat, |i: int| palette[0])
        } else {
            match V::spec_palette_config(palette.len()) {
                PaletteConfig::Indirect { bits_per_entry } => Self::indirect_view(
                    palette,
                    as_longs(packed),
                    bits_per_entry as nat,
                ),
                _ => Seq::new(
                    SIZE as nat,
                    |i: int|
                        {
                            let x = unpack_raw_spec(packed, i as nat, Self::disk_bits(palette.len()));
                            if x < palette.len() {
                                palette[x as int]
                            } else {
                                V::spec_default()
                            }
                        },
                ),
            }
        }
    }

    /// Whether a palette and its packed indices can be read: every index the layout needs lies
    /// in the buffer, and a direct layout's bits per entry fit in a long.
    pub open spec fn disk_readable(palette_len: nat, packed_len: nat) -> bool {
        palette_len >= 2 ==> match V::spec_palette_config(palette_len) {
            PaletteConfig::Indirect { bits_per_entry } => covers(
                packed_len,
                SIZE as nat,
                bits_per_entry as nat,
            ),
            _ => Self::disk_bits(palette_len) <= 63,
        }
    }

    /// Whether a palette and its packed indices describe a well-formed container: distinct
    /// palette values, and every index in range and in use (or, when stored directly, enough
    /// distinct values).
    pub open spec fn disk_valid(palette: Seq<V>, packed: Seq<i64>) -> bool {
        &&& 2 <= SIZE <= 65535
        &&& palette.len() >= 1
        &&& palette.no_duplicates()
        &&& Self::disk_readable(palette.len(), packed.len())
        &&& palette.len() >= 2 ==> match V::spec_palette_config(palette.len()) {
            PaletteConfig::Indirect { bits_per_entry } => {
                &&& packed.len() == num_longs(SIZE as nat, bits_per_entry as nat)
                &&& forall|k: nat|
                    k < SIZE ==> #[trigger] unpack_spec(as_longs(packed), k, bits_per_entry as nat)
                        < palette.len()
                &&& forall|j: nat|
                    j < palette.len() ==> #[trigger] count_index(
                        as_longs(packed),
                        bits_per_entry as nat,
                        j,
                        SIZE as nat,
                    ) > 0
            },
            _ => Self::from_disk_view(palette, packed).to_set().len() > V::spec_max_unique(),
        }
    }

    /// The container read from a palette and its packed indices as stored on disk: its values,
    /// and its layout (uniform for at most one palette value, else the layout the palette's size
    /// calls for, with the palette, the longs and reference counts of the entries when indirect).
    pub open spec fn disk_read(palette: Seq<V>, packed: Seq<i64>, r: Self) -> bool {
        &&& r@ == Self::from_disk_view(palette, packed)
        &&& palette.len() == 0 ==> r == PalettedContainer::<V, SIZE>::Uniform(V::spec_default())
        &&& palette.len() == 1 ==> r == PalettedContainer::<V, SIZE>::Uniform(palette[0])
        &&& palette.len() >= 2 ==> match V::spec_palette_config(palette.len()) {
            PaletteConfig::Indirect { bits_per_entry } => r matches PalettedContainer::Indirect {
                palette: p,
                data: d,
                bit_width: w,
                ref_counts: c,
            } && p@ == palette && d@ == as_longs(packed) && w == bits_per_entry && c@.len() == palette.len()
                && forall|j: int| 0 <= j < c@.len() ==> #[trigger] c@[j] as nat == count_index(d@, w as nat, j as nat, SIZE as nat),
            _ => r is Direct,
        }
        &&& Self::disk_valid(palette, packed) ==> r.wf()
        &&& r.counts_consistent()
    }

    /// Entry `entry_index` of a signed buffer as stored on disk, or 0 past its end.
    fn unpack_value_raw(buffer: &[i64], entry_index: usize, bit_width: u8) -> (r: u64)
        requires
            1 <= bit_width <= 63,
        ensures
            r == unpack_raw_spec(buffer@, entry_index as nat, bit_width as nat),
    {
        proof {
            lemma_offset_bound(entry_index as nat, bit_width as nat);
            assert(1u64 << bit_width >= 1) by (bit_vector)
                requires bit_width <= 63u8;
        }
        let entries_per_long = 64 / bit_width as usize;
        let long_index = entry_index / entries_per_long;
        let bit_index = (entry_index % entries_per_long) * bit_width as usize;
        let entry_mask = (1u64 << bit_width) - 1;

        if long_index < buffer.len() {
            ((buffer[long_index] as u64) >> bit_index) & entry_mask
        } else {
            0
        }
    }

    /// Builds a container from a palette and its packed indices as stored on disk.
    pub fn from_palette_and_packed_data(palette: Vec<V>, packed_data: &[i64]) -> (r: Self)
        requires
            2 <= SIZE <= 65535,
            palette@.len() < 0x8000_0000_0000_0000,
            Self::disk_readable(palette@.len(), packed_data@.len()),
        ensures
            Self::disk_read(palette@, packed_data@, r),
    {
        if palette.len() == 0 {
            // An empty palette: fall back to the default.
            let r = Self::default();
            proof {
                assert(r@ =~= Self::from_disk_view(palette@, packed_data@));
            }
            return r;
        }

        if palette.len() == 1 {
            let r = Self::Uniform(palette[0]);
            proof {
                assert(r@ =~= Self::from_disk_view(palette@, packed_data@));
            }
            return r;
        }

        let len = palette.len();
        proof {
            V::lemma_palette_config(len as nat);
        }
        let config = V::get_palette_config(palette.len());
        match config {
            PaletteConfig::Uniform => {
                proof {
                    assert(false);
                }
                Self::Uniform(palette[0])
            },
            PaletteConfig::Indirect { bits_per_entry } => {
                let ghost bw = bits_per_entry as nat;
                let mut data: Vec<u64> = Vec::new();
                let mut n: usize = 0;
                while n < packed_data.len()
                    invariant
                        n <= packed_data@.len(),
                        data@ =~= as_longs(packed_data@).take(n as int),
                    decreases packed_data@.len() - n,
                {
                    data.push(packed_data[n] as u64);
                    n += 1;
                }
                proof {
                    assert(data@ =~= as_longs(packed_data@));
                }

                let mut ref_counts: Vec<u16> = Vec::new();
                let mut j: usize = 0;
                while j < len
                    invariant
                        j <= len,
                        ref_counts@.len() == j,
                        forall|l: int| 0 <= l < j ==> ref_counts@[l] == 0,
                    decreases len - j,
                {
                    ref_counts.push(0);
                    j += 1;
                }
                proof {
                    assert forall|c: int| 0 <= c < ref_counts@.len() implies #[trigger] ref_counts@[c] as nat
                        == count_index(data@, bw, c as nat, 0) by {}
                }
                let mut i: usize = 0;
                while i < SIZE
                    invariant
                        i <= SIZE <= 65535,
                        1 <= bw <= 16,
                        bits_per_entry == bw,
                        len == palette@.len(),
                        covers(data@.len(), SIZE as nat, bw),
                        ref_counts@.len() == len,
                        forall|c: int| 0 <= c < ref_counts@.len() ==> #[trigger] ref_counts@[c] as nat
                            == count_index(data@, bw, c as nat, i as nat),
                    decreases SIZE - i,
                {
                    proof {
                        lemma_covers(data@.len(), SIZE as nat, bw, i as nat);
                    }
                    let palette_index = Self::unpack_value(data.as_slice(), i, bits_per_entry);
                    if palette_index < len as u64 {
                        let idx = palette_index as usize;
                        proof {
                            lemma_count_bound(data@, bw, idx as nat, i as nat, 0);
                        }
                        ref_counts.set(idx, ref_counts[idx] + 1);
                    }
                    i += 1;
                }

                let r = Self::Indirect {
                    palette,
                    data,
                    bit_width: bits_per_entry,
                    ref_counts,
                };
                proof {
                    assert(r@ =~= Self::from_disk_view(palette@, packed_data@));
                    if Self::disk_valid(palette@, packed_data@) {
                        assert forall|c: int| 0 <= c < ref_counts@.len() implies #[trigger] ref_counts@[c] > 0 by {
                            assert(count_index(as_longs(packed_data@), bw, c as nat, SIZE as nat) > 0);
                        }
                    }
                }
                r
            },
            PaletteConfig::Direct => {
                let ghost bits = Self::disk_bits(len as nat);
                proof {
                    lemma_leading_zeros((len - 1) as u64);
                }
                let bit_width = (64 - ((palette.len() - 1) as u64).leading_zeros()) as u8;
                proof {
                    assert(bit_width == bits);
                    assert(bits >= 1) by {
                        reveal_with_fuel(bit_length, 2);
                    }
                }
                let default_value = V::default_value();
                let mut data: Vec<V> = Vec::new();
                let mut i: usize = 0;
                while i < SIZE
                    invariant
                        i <= SIZE,
                        1 <= bit_width <= 63,
                        len == palette@.len(),
                        bit_width == Self::disk_bits(len as nat),
                        default_value == V::spec_default(),
                        data@ =~= Self::from_disk_view(palette@, packed_data@).take(i as int),
                        len >= 2,
                        V::spec_palette_config(len as nat) is Direct,
                    decreases SIZE - i,
                {
                    let palette_index = Self::unpack_value_raw(packed_data, i, bit_width);
                    if palette_index < len as u64 {
                        data.push(palette[palette_index as usize]);
                    } else {
                        data.push(default_value);
                    }
                    i += 1;
                }
                proof {
                    assert(data@ =~= Self::from_disk_view(palette@, packed_data@));
                }
                let r = Self::Direct { data };
                proof {
                    assert(r@ =~= Self::from_disk_view(palette@, packed_data@));
                }
                r
            },
        }
    }

    /// The palette indices of a directly stored container's values.
    pub open spec fn direct_indices(data: Seq<V>, palette: Seq<V>) -> Seq<u64> {
        Seq::new(data.len(), |i: int| palette.index_of(data[i]) as u64)
    }

    /// The bits per entry with which a palette of `palette_len` values is written to disk from
    /// a direct layout (none for a single value).
    pub open spec fn direct_disk_bits(palette_len: nat) -> nat {
        if palette_len <= 1 {
            0
        } else {
            Self::disk_bits(palette_len)
        }
    }

    /// The palette and packed indices with which the container is stored on disk.
    pub open spec fn disk_form(&self) -> (Seq<V>, Option<Seq<i64>>) {
        match self {
            PalettedContainer::Uniform(value) => (seq![*value], None),
            PalettedContainer::Indirect { palette, data, .. } => (palette@, Some(as_signed(data@))),
            PalettedContainer::Direct { data } => {
                let p = distinct_values(data@);
                let bits = Self::direct_disk_bits(p.len());
                if bits == 0 {
                    (p, None)
                } else {
                    (p, Some(as_signed(pack_entries(Self::direct_indices(data@, p), bits, data@.len()))))
                }
            },
        }
    }

    /// Storing a well-formed container on disk and reading it back gives the same values, and a
    /// well-formed container.
    pub proof fn lemma_disk_roundtrip(c: Self)
        requires
            c.wf(),
        ensures
            ({
                let (palette, packed) = c.disk_form();
                let packed = match packed {
                    Some(d) => d,
                    None => Seq::<i64>::empty(),
                };
                &&& palette.len() < 0x8000_0000_0000_0000
                &&& Self::disk_valid(palette, packed)
                &&& Self::from_disk_view(palette, packed) == c@
            }),
    {
        V::lemma_palette_config(0);
        match c {
            PalettedContainer::Uniform(v) => {
                let palette = seq![v];
                assert(c.disk_form() == (palette, None::<Seq<i64>>));
                assert(palette.no_duplicates());
                assert(Self::disk_valid(palette, Seq::<i64>::empty()));
                assert(Self::from_disk_view(palette, Seq::<i64>::empty()) =~= c@);
            },
            PalettedContainer::Indirect { palette, data, bit_width, ref_counts } => {
                let packed = as_signed(data@);
                let bw = bit_width as nat;
                V::lemma_palette_config(palette@.len());
                assert(as_longs(packed) =~= data@) by {
                    assert forall|m: int| 0 <= m < data@.len() implies as_longs(packed)[m] == data@[m] by {
                        lemma_signed_roundtrip(data@[m]);
                    }
                }
                assert forall|j: nat| j < palette@.len() implies #[trigger] count_index(as_longs(packed), bw, j, SIZE as nat) > 0 by {
                    assert(ref_counts@[j as int] > 0);
                }
                assert(Self::from_disk_view(palette@, packed) =~= c@);
                assert(Self::disk_valid(palette@, packed));
            },
            PalettedContainer::Direct { data } => {
                let p = distinct_values(data@);
                lemma_distinct_values(data@);
                p.unique_seq_to_set();
                assert(p.to_set() =~= data@.to_set());
                data@.lemma_cardinality_of_set();
                let len = p.len();
                assert(len >= 3);
                let bits = Self::disk_bits(len);
                lemma_bit_length((len - 1) as nat, 16);
                vstd::arithmetic::power2::lemma2_to64();
                assert(bits >= 1) by {
                    reveal_with_fuel(bit_length, 2);
                }
                assert(Self::direct_disk_bits(len) == bits);
                let idx = Self::direct_indices(data@, p);
                let packed = as_signed(pack_entries(idx, bits, SIZE as nat));
                assert(c.disk_form() == (p, Some(packed)));
                lemma_num_longs_covers(SIZE as nat, bits);
                assert forall|i: int| 0 <= i < SIZE implies #[trigger] idx[i] < len && p[idx[i] as int] == data@[i] by {
                    assert(data@.contains(data@[i]));
                }
                assert forall|k: nat| k < SIZE implies #[trigger] unpack_spec(as_longs(packed), k, bits) == idx[k as int]
                    && unpack_raw_spec(packed, k, bits) == idx[k as int] by {
                    lemma_pack_entries(idx, bits, SIZE as nat, k);
                    lemma_covers(num_longs(SIZE as nat, bits), SIZE as nat, bits, k);
                    let li = long_index(k, bits) as int;
                    lemma_signed_roundtrip(pack_entries(idx, bits, SIZE as nat)[li]);
                    lemma_mask_small(idx[k as int], bits);
                }
                assert(as_longs(packed) =~= pack_entries(idx, bits, SIZE as nat)) by {
                    assert forall|m: int| 0 <= m < packed.len() implies as_longs(packed)[m] == pack_entries(idx, bits, SIZE as nat)[m] by {
                        lemma_signed_roundtrip(pack_entries(idx, bits, SIZE as nat)[m]);
                    }
                }
                V::lemma_palette_config(len);
                assert(data@.len() == SIZE);
                assert(V::spec_palette_config(len) is Direct);
                assert forall|k: int| 0 <= k < SIZE implies #[trigger] Self::from_disk_view(p, packed)[k] == c@[k] by {
                    assert(unpack_spec(as_longs(packed), k as nat, bits) == idx[k]);
                    assert(unpack_raw_spec(packed, k as nat, bits) == idx[k]);
                }
                assert(c@ =~= data@);
                assert(Self::from_disk_view(p, packed) =~= data@);
                assert(Self::from_disk_view(p, packed) =~= c@);
                assert(Self::disk_valid(p, packed));
            },
        }
    }

    /// Storing a well-formed container on disk and reading it back gives the same layout: the
    /// same variant with the same palette, longs, bits per entry and reference counts.
    pub proof fn lemma_disk_layout_roundtrip(c: Self, r: Self)
        requires
            c.wf(),
            Self::disk_read(
                c.disk_form().0,
                match c.disk_form().1 {
                    Some(d) => d,
                    None => Seq::<i64>::empty(),
                },
                r,
            ),
        ensures
            r.same_layout(c),
    {
        Self::lemma_disk_roundtrip(c);
        V::lemma_palette_config(c.disk_form().0.len());
        match c {
            PalettedContainer::Uniform(v) => {
                assert(c.disk_form().0 == seq![v]);
                assert(c.disk_form().0.len() == 1);
                assert(r == PalettedContainer::<V, SIZE>::Uniform(v));
                assert(c == PalettedContainer::<V, SIZE>::Uniform(v));
                assert(r.same_layout(c));
            },
            PalettedContainer::Indirect { palette, data, bit_width, ref_counts } => {
                let packed = as_signed(data@);
                assert(as_longs(packed) =~= data@) by {
                    assert forall|m: int| 0 <= m < data@.len() implies as_longs(packed)[m] == data@[m] by {
                        lemma_signed_roundtrip(data@[m]);
                    }
                }
                assert(c.disk_form().0 == palette@);
                assert(palette@.len() >= 2);
                assert(V::spec_palette_config(palette@.len()) == (PaletteConfig::Indirect { bits_per_entry: bit_width }));
                assert(r is Indirect);
                if let PalettedContainer::Indirect { palette: p, data: d, bit_width: w, ref_counts: rc } = r {
                    assert(rc@ =~= ref_counts@);
                    assert(d@ == data@);
                }
                assert(r.same_layout(c));
            },
            PalettedContainer::Direct { data } => {
                let p = distinct_values(data@);
                lemma_distinct_values(data@);
                p.unique_seq_to_set();
                assert(p.to_set() =~= data@.to_set());
                assert(c.disk_form().0 == p);
                V::lemma_palette_config(p.len());
                assert(r is Direct);
                if let PalettedContainer::Direct { data: d } = r {
                    assert(d@ =~= r@);
                    assert(data@ =~= c@);
                }
                assert(r.same_layout(c));
            },
        }
    }

    /// A well-formed container can be read at every position index below `SIZE`, and what
    /// is read there is its view.
    pub proof fn lemma_readable(c: Self, i: int)
        requires
            c.wf(),
            0 <= i < SIZE,
        ensures
            c.readable_at(i),
            c.spec_get(i) == c@[i],
            Self::size_fits(),
    {
        Self::lemma_size_fits();
        if let PalettedContainer::Indirect { palette, data, bit_width, .. } = c {
            lemma_covers(data@.len(), SIZE as nat, bit_width as nat, i as nat);
        }
    }

    /// Reading after writing: the written position gives the written value, every other
    /// position keeps its value.
    pub proof fn lemma_get_after_set(before: Self, after: Self, written: Vector3<u8>, value: V, read: Vector3<u8>)
        requires
            before.wf(),
            Self::in_bounds(written),
            Self::in_bounds(read),
            after.wf(),
            after@ == before@.update(Self::spec_index(written), value),
        ensures
            after.readable_at(Self::spec_index(read)),
            Self::index_fits(read),
            after.spec_get(Self::spec_index(read)) == if Self::spec_index(read) == Self::spec_index(written) {
                value
            } else {
                before.spec_get(Self::spec_index(read))
            },
    {
        Self::lemma_readable(before, Self::spec_index(read));
        Self::lemma_readable(after, Self::spec_index(read));
    }

    /// Each position of the cube of side `spec_dimension()` has a slot of its own below the
    /// cube's volume.
    pub proof fn lemma_index_injective(p: Vector3<u8>, q: Vector3<u8>)
        requires
            p.x < Self::spec_dimension(),
            p.y < Self::spec_dimension(),
            p.z < Self::spec_dimension(),
            q.x < Self::spec_dimension(),
            q.y < Self::spec_dimension(),
            q.z < Self::spec_dimension(),
        ensures
            0 <= Self::spec_index(p) < Self::spec_dimension() * Self::spec_dimension() * Self::spec_dimension(),
            Self::spec_index(p) == Self::spec_index(q) ==> p == q,
    {
        let d = Self::spec_dimension() as int;
        let (px, py, pz) = (p.x as int, p.y as int, p.z as int);
        let (qx, qy, qz) = (q.x as int, q.y as int, q.z as int);
        assert(0 <= py * (d * d) + pz * d + px < d * d * d) by (nonlinear_arith)
            requires 0 <= px < d, 0 <= py < d, 0 <= pz < d;
        assert(py * (d * d) + pz * d + px == qy * (d * d) + qz * d + qx ==> px == qx && py == qy && pz == qz)
            by (nonlinear_arith)
            requires 0 <= px < d, 0 <= py < d, 0 <= pz < d, 0 <= qx < d, 0 <= qy < d, 0 <= qz < d,
        {
            if py * (d * d) + pz * d + px == qy * (d * d) + qz * d + qx {
                if py < qy {
                    assert(py * (d * d) + pz * d + px < (py + 1) * (d * d));
                    assert((py + 1) * (d * d) <= qy * (d * d));
                } else if py > qy {
                    assert(qy * (d * d) + qz * d + qx < (qy + 1) * (d * d));
                    assert((qy + 1) * (d * d) <= py * (d * d));
                }
                assert(py == qy);
                if pz < qz {
                    assert(pz * d + px < (pz + 1) * d);
                    assert((pz + 1) * d <= qz * d);
                } else if pz > qz {
                    assert(qz * d + qx < (qz + 1) * d);
                    assert((qz + 1) * d <= pz * d);
                }
            }
        }
    }

    /// A fresh container holds the default value everywhere and is well formed.
    pub proof fn lemma_default()
        requires
            2 <= SIZE <= 65535,
        ensures
            PalettedContainer::<V, SIZE>::Uniform(V::spec_default()).wf(),
            PalettedContainer::<V, SIZE>::Uniform(V::spec_default())@ == Seq::new(SIZE as nat, |i: int| V::spec_default()),
    {
        assert(PalettedContainer::<V, SIZE>::Uniform(V::spec_default())@ =~= Seq::new(SIZE as nat, |i: int| V::spec_default()));
    }

    /// A copy of a palette.
    fn copy_values(values: &Vec<V>) -> (r: Vec<V>)
        ensures
            r@ == values@,
    {
        let mut r: Vec<V> = Vec::new();
        let mut k: usize = 0;
        while k < values.len()
            invariant
                k <= values@.len(),
                r@ =~= values@.take(k as int),
            decreases values@.len() - k,
        {
            r.push(values[k]);
            k += 1;
        }
        proof {
            assert(r@ =~= values@);
        }
        r
    }

    /// The palette and packed indices with which the container is stored on disk.
    fn to_palette_and_packed_data_disk(&self) -> (r: (Vec<V>, Option<Vec<i64>>))
        requires
            SIZE <= 65535,
            self matches PalettedContainer::Direct { data } ==> data@.len() == SIZE,
        ensures
            r.0@ == self.disk_form().0,
            match r.1 {
                Some(d) => self.disk_form().1 == Some(d@),
                None => self.disk_form().1 == None::<Seq<i64>>,
            },
    {
        match self {
            PalettedContainer::Uniform(value) => {
                // A single-entry palette with no data.
                let mut palette: Vec<V> = Vec::new();
                palette.push(*value);
                proof {
                    assert(palette@ =~= seq![*value]);
                }
                (palette, None)
            },
            PalettedContainer::Indirect { palette, data, .. } => {
                let mut packed_data: Vec<i64> = Vec::new();
                let mut k: usize = 0;
                while k < data.len()
                    invariant
                        k <= data@.len(),
                        packed_data@ =~= as_signed(data@).take(k as int),
                    decreases data@.len() - k,
                {
                    packed_data.push(data[k] as i64);
                    k += 1;
                }
                proof {
                    assert(packed_data@ =~= as_signed(data@));
                }
                (Self::copy_values(palette), Some(packed_data))
            },
            PalettedContainer::Direct { data } => {
                // The palette: the distinct values in order of first occurrence, and the slot
                // of each.
                let mut palette_vec: Vec<V> = Vec::new();
                let mut value_to_index: HashMap<V, usize> = HashMap::new();
                proof {
                    V::lemma_key_model();
                }
                let mut k: usize = 0;
                while k < data.len()
                    invariant
                        k <= data@.len(),
                        vstd::std_specs::hash::obeys_key_model::<V>(),
                        palette_vec@ == distinct_values(data@.take(k as int)),
                        palette_vec@.len() <= k,
                        forall|x: V| #[trigger] value_to_index@.contains_key(x) <==> palette_vec@.contains(x),
                        forall|j: int| 0 <= j < palette_vec@.len() ==> value_to_index@[#[trigger] palette_vec@[j]] == j,
                    decreases data@.len() - k,
                {
                    let value = data[k];
                    proof {
                        assert(data@.take(k + 1).drop_last() =~= data@.take(k as int));
                    }
                    if !value_to_index.contains_key(&value) {
                        let ghost before = palette_vec@;
                        value_to_index.insert(value, palette_vec.len());
                        palette_vec.push(value);
                        proof {
                            assert forall|x: V| #[trigger] value_to_index@.contains_key(x) <==> palette_vec@.contains(x) by {
                                if x == value {
                                    assert(palette_vec@[before.len() as int] == value);
                                } else if before.contains(x) {
                                    let j = choose|j: int| 0 <= j < before.len() && before[j] == x;
                                    assert(palette_vec@[j] == x);
                                } else if palette_vec@.contains(x) {
                                    let j = choose|j: int| 0 <= j < palette_vec@.len() && palette_vec@[j] == x;
                                    assert(j < before.len());
                                    assert(before[j] == x);
                                }
                            }
                            assert forall|j: int| 0 <= j < palette_vec@.len() implies value_to_index@[#[trigger] palette_vec@[j]] == j by {
                                if j < before.len() {
                                    assert(before.contains(before[j]));
                                    assert(before[j] != value);
                                }
                            }
                        }
                    }
                    k += 1;
                }
                proof {
                    assert(data@.take(data@.len() as int) =~= data@);
                    lemma_distinct_values(data@);
                }
                let ghost p = palette_vec@;
                let len = palette_vec.len();

                let bits_per_entry: u8 = if len <= 1 {
                    0
                } else {
                    proof {
                        lemma_leading_zeros((len - 1) as u64);
                        assert(p.len() <= SIZE);
                        lemma_bit_length((len - 1) as nat, 16);
                        vstd::arithmetic::power2::lemma2_to64();
                        assert(Self::disk_bits(len as nat) >= 1) by {
                            reveal_with_fuel(bit_length, 2);
                        }
                    }
                    (64 - ((len - 1) as u64).leading_zeros()) as u8
                };

                if bits_per_entry == 0 {
                    // All the same value.
                    return (palette_vec, None);
                }
                let ghost bw = bits_per_entry as nat;
                let ghost idx = Self::direct_indices(data@, p);

                let longs = Self::long_count(bits_per_entry);
                let mut packed_data: Vec<i64> = Vec::new();
                let mut l: usize = 0;
                while l < longs
                    invariant
                        l <= longs,
                        packed_data@.len() == l,
                        forall|m: int| 0 <= m < l ==> packed_data@[m] == 0,
                    decreases longs - l,
                {
                    packed_data.push(0);
                    l += 1;
                }
                proof {
                    assert(as_longs(packed_data@) =~= pack_entries(idx, bw, 0));
                }

                let mut i: usize = 0;
                while i < SIZE
                    invariant
                        i <= SIZE <= 65535,
                        data@.len() == SIZE,
                        palette_vec@ == p,
                        p.no_duplicates(),
                        forall|x: V| p.contains(x) <==> data@.contains(x),
                        1 <= bw <= 16,
                        bits_per_entry == bw,
                        idx == Self::direct_indices(data@, p),
                        longs == num_longs(SIZE as nat, bw),
                        as_longs(packed_data@) == pack_entries(idx, bw, i as nat),
                        vstd::std_specs::hash::obeys_key_model::<V>(),
                        forall|x: V| #[trigger] value_to_index@.contains_key(x) <==> p.contains(x),
                        forall|j: int| 0 <= j < p.len() ==> value_to_index@[#[trigger] p[j]] == j,
                    decreases SIZE - i,
                {
                    let value = data[i];
                    proof {
                        assert(data@.contains(data@[i as int]));
                        assert(p.contains(value));
                        let j0 = choose|j: int| 0 <= j < p.len() && p[j] == value;
                        assert(value_to_index@[p[j0]] == j0);
                    }
                    let palette_index: usize = match value_to_index.get(&value) {
                        Some(j) => *j,
                        None => {
                            proof {
                                assert(false);
                            }
                            0
                        },
                    };
                    proof {
                        let j0 = choose|j: int| 0 <= j < p.len() && p[j] == value;
                        assert(palette_index == j0);
                        assert(p[palette_index as int] == value);
                    }
                    proof {
                        assert(p.index_of(value) == palette_index as int);
                        lemma_offset_bound(i as nat, bw);
                        lemma_pack_entries(idx, bw, i as nat, i as nat);
                        lemma_num_longs_covers(SIZE as nat, bw);
                        lemma_covers(longs as nat, SIZE as nat, bw, i as nat);
                        assert(1u64 << bits_per_entry >= 1) by (bit_vector)
                            requires bits_per_entry <= 16u8;
                    }
                    let entries_per_long = 64 / bits_per_entry as usize;
                    let long_index = i / entries_per_long;
                    let bit_index = (i % entries_per_long) * bits_per_entry as usize;
                    let entry_mask = (1u64 << bits_per_entry) - 1;

                    let ghost before = packed_data@;
                    let merged = packed_data[long_index] | (((palette_index as u64 & entry_mask) << bit_index) as i64);
                    packed_data.set(long_index, merged);
                    proof {
                        let prev = pack_entries(idx, bw, i as nat);
                        lemma_or_signed(before[long_index as int], (palette_index as u64 & entry_mask) << bit_index);
                        lemma_set_empty_field(prev[long_index as int], bit_index as u64, bw as u64, palette_index as u64);
                        assert(as_longs(packed_data@) =~= pack_entries(idx, bw, (i + 1) as nat));
                    }
                    i += 1;
                }
                proof {
                    assert(packed_data@ =~= as_signed(pack_entries(idx, bw, SIZE as nat))) by {
                        assert forall|m: int| 0 <= m < packed_data@.len() implies packed_data@[m]
                            == as_signed(pack_entries(idx, bw, SIZE as nat))[m] by {
                            let x = packed_data@[m];
                            assert((x as u64) as i64 == x) by (bit_vector);
                        }
                    }
                }
                (palette_vec, Some(packed_data))
            },
        }
    }

    /// The first palette slot that holds `value`, if any.
    fn find_in_palette(palette: &Vec<V>, value: &V) -> (r: Option<usize>)
        ensures
            match r {
                Some(j) => j < palette@.len() && palette@[j as int] == *value,
                None => !palette@.contains(*value),
            },
    {
        let mut j: usize = 0;
        while j < palette.len()
            invariant
                j <= palette@.len(),
                forall|l: int| 0 <= l < j ==> palette@[l] != *value,
            decreases palette@.len() - j,
        {
            if value.same_value(&palette[j]) {
                return Some(j);
            }
            j += 1;
        }
        None
    }

    /// The reference counts without their zero entries, when only slot `removed` is zero.
    fn drop_zero_count(ref_counts: &Vec<u16>, removed: usize) -> (r: Vec<u16>)
        requires
            removed < ref_counts@.len(),
            ref_counts@[removed as int] == 0,
            forall|j: int| 0 <= j < ref_counts@.len() && j != removed ==> ref_counts@[j] != 0,
        ensures
            r@ == ref_counts@.remove(removed as int),
    {
        let s = ref_counts;
        let mut r: Vec<u16> = Vec::new();
        let mut k: usize = 0;
        while k < s.len()
            invariant
                k <= s@.len(),
                removed < s@.len(),
                s@[removed as int] == 0,
                forall|j: int| 0 <= j < s@.len() && j != removed ==> s@[j] != 0,
                r@ == if k <= removed {
                    s@.take(k as int)
                } else {
                    s@.take(removed as int) + s@.subrange(removed + 1, k as int)
                },
            decreases s@.len() - k,
        {
            if s[k] != 0 {
                r.push(s[k]);
            }
            proof {
                if k < removed {
                    assert(s@.take(k + 1) =~= s@.take(k as int).push(s@[k as int]));
                } else if k == removed {
                    assert(s@.subrange(removed + 1, k + 1) =~= Seq::<u16>::empty());
                    assert(s@.take(k as int) + s@.subrange(removed + 1, k + 1) =~= s@.take(k as int));
                } else {
                    assert(s@.take(removed as int) + s@.subrange(removed + 1, k + 1) =~= (s@.take(
                        removed as int,
                    ) + s@.subrange(removed + 1, k as int)).push(s@[k as int]));
                }
            }
            k += 1;
        }
        proof {
            assert(r@ =~= s@.remove(removed as int));
        }
        r
    }

    /// The palette without the value in slot `removed`, which occurs nowhere else.
    fn drop_palette_value(palette: &Vec<V>, removed: usize) -> (r: Vec<V>)
        requires
            removed < palette@.len(),
            palette@.no_duplicates(),
        ensures
            r@ == palette@.remove(removed as int),
    {
        let s = palette;
        let deleted_value = palette[removed];
        let mut r: Vec<V> = Vec::new();
        let mut k: usize = 0;
        while k < s.len()
            invariant
                k <= s@.len(),
                removed < s@.len(),
                deleted_value == s@[removed as int],
                s@.no_duplicates(),
                r@ == if k <= removed {
                    s@.take(k as int)
                } else {
                    s@.take(removed as int) + s@.subrange(removed + 1, k as int)
                },
            decreases s@.len() - k,
        {
            if !s[k].same_value(&deleted_value) {
                r.push(s[k]);
            }
            proof {
                if k < removed {
                    assert(s@.take(k + 1) =~= s@.take(k as int).push(s@[k as int]));
                } else if k == removed {
                    assert(s@.subrange(removed + 1, k + 1) =~= Seq::<V>::empty());
                    assert(s@.take(k as int) + s@.subrange(removed + 1, k + 1) =~= s@.take(k as int));
                } else {
                    assert(s@.take(removed as int) + s@.subrange(removed + 1, k + 1) =~= (s@.take(
                        removed as int,
                    ) + s@.subrange(removed + 1, k as int)).push(s@[k as int]));
                }
            }
            k += 1;
        }
        proof {
            assert(r@ =~= s@.remove(removed as int));
        }
        r
    }

    /// A fresh buffer of `new_bit_width`-bit entries holding the same indices as `data`,
    /// where every index above `removed` moves down by one when `shift` is set.
    fn repack(data: &Vec<u64>, bit_width: u8, new_bit_width: u8, shift: bool, removed: u64) -> (r: Vec<u64>)
        requires
            1 <= bit_width <= 63,
            1 <= new_bit_width <= 63,
            SIZE <= 65535,
            covers(data@.len(), SIZE as nat, bit_width as nat),
            forall|k: nat|
                k < SIZE ==> ({
                    let x = #[trigger] unpack_spec(data@, k, bit_width as nat);
                    if shift && x > removed {
                        (x - 1) as nat
                    } else {
                        x as nat
                    }
                }) < pow2(new_bit_width as nat),
        ensures
            r@.len() == num_longs(SIZE as nat, new_bit_width as nat),
            covers(r@.len(), SIZE as nat, new_bit_width as nat),
            forall|k: nat|
                k < SIZE ==> #[trigger] unpack_spec(r@, k, new_bit_width as nat) == {
                    let x = unpack_spec(data@, k, bit_width as nat);
                    if shift && x > removed {
                        (x - 1) as u64
                    } else {
                        x
                    }
                },
    {
        let longs = Self::long_count(new_bit_width);
        let mut new_data = Self::zeroed_longs(longs);
        let mut i: usize = 0;
        while i < SIZE
            invariant
                i <= SIZE,
                1 <= bit_width <= 63,
                1 <= new_bit_width <= 63,
                SIZE <= 65535,
                covers(data@.len(), SIZE as nat, bit_width as nat),
                forall|k: nat|
                    k < SIZE ==> ({
                        let x = #[trigger] unpack_spec(data@, k, bit_width as nat);
                        if shift && x > removed {
                            (x - 1) as nat
                        } else {
                            x as nat
                        }
                    }) < pow2(new_bit_width as nat),
                new_data@.len() == longs,
                longs == num_longs(SIZE as nat, new_bit_width as nat),
                covers(longs as nat, SIZE as nat, new_bit_width as nat),
                forall|k: nat|
                    k < i ==> #[trigger] unpack_spec(new_data@, k, new_bit_width as nat) == {
                        let x = unpack_spec(data@, k, bit_width as nat);
                        if shift && x > removed {
                            (x - 1) as u64
                        } else {
                            x
                        }
                    },
            decreases SIZE - i,
        {
            proof {
                lemma_covers(data@.len(), SIZE as nat, bit_width as nat, i as nat);
                lemma_covers(longs as nat, SIZE as nat, new_bit_width as nat, i as nat);
            }
            let mut old_index = Self::unpack_value(data.as_slice(), i, bit_width);
            if shift && old_index > removed {
                old_index -= 1;
            }
            let ghost before = new_data@;
            Self::pack_value(&mut new_data, i, new_bit_width, old_index);
            proof {
                let x = unpack_spec(data@, i as nat, bit_width as nat);
                assert((old_index as nat) < pow2(new_bit_width as nat));
                lemma_mask_small(old_index, new_bit_width as nat);
                assert forall|k: nat| k < i + 1 implies #[trigger] unpack_spec(
                    new_data@,
                    k,
                    new_bit_width as nat,
                ) == {
                    let x = unpack_spec(data@, k, bit_width as nat);
                    if shift && x > removed {
                        (x - 1) as u64
                    } else {
                        x
                    }
                } by {
                    lemma_covers(longs as nat, SIZE as nat, new_bit_width as nat, k);
                    lemma_unpack_pack(before, i as nat, k, new_bit_width as nat, old_index);
                }
            }
            i += 1;
        }
        new_data
    }

    /// The value of every position of an indirect layout, one per position.
    fn expand(palette: &Vec<V>, data: &Vec<u64>, bit_width: u8) -> (r: Vec<V>)
        requires
            Self::indices_valid(palette@.len(), data@, bit_width as nat),
        ensures
            r@ == Self::indirect_view(palette@, data@, bit_width as nat),
    {
        let mut r: Vec<V> = Vec::new();
        let mut i: usize = 0;
        while i < SIZE
            invariant
                i <= SIZE,
                Self::indices_valid(palette@.len(), data@, bit_width as nat),
                r@ =~= Self::indirect_view(palette@, data@, bit_width as nat).take(i as int),
            decreases SIZE - i,
        {
            proof {
                lemma_covers(data@.len(), SIZE as nat, bit_width as nat, i as nat);
            }
            let palette_index = Self::unpack_value(data.as_slice(), i, bit_width);
            proof {
                assert(palette_index < palette@.len());
                assert(palette@.len() == palette.len());
            }
            r.push(palette[palette_index as usize]);
            i += 1;
        }
        r
    }

    /// An indirect layout in which slot `removed` is no longer referenced, rebuilt without it:
    /// as a uniform container when one value is left, otherwise with a smaller palette.
    fn shrink(
        palette: Vec<V>,
        data: Vec<u64>,
        bit_width: u8,
        ref_counts: Vec<u16>,
        removed: usize,
        kept: usize,
    ) -> (r: Self)
        requires
            2 <= SIZE <= 65535,
            V::spec_palette_config(palette@.len()) == (PaletteConfig::Indirect { bits_per_entry: bit_width }),
            Self::indices_valid(palette@.len(), data@, bit_width as nat),
            palette@.no_duplicates(),
            ref_counts@.len() == palette@.len(),
            Self::counts_match(ref_counts@, data@, bit_width as nat),
            removed < palette@.len(),
            kept < palette@.len(),
            kept != removed,
            ref_counts@[removed as int] == 0,
            forall|j: int| 0 <= j < ref_counts@.len() && j != removed ==> #[trigger] ref_counts@[j] > 0,
        ensures
            r.wf(),
            r@ == Self::indirect_view(palette@, data@, bit_width as nat),
    {
        let len = palette.len();
        proof {
            V::lemma_palette_config(len as nat);
            V::lemma_palette_config((len - 1) as nat);
            let bw = bit_width as nat;
            assert forall|k: nat| k < SIZE implies #[trigger] unpack_spec(data@, k, bw) != removed by {
                lemma_count_zero(data@, bw, removed as nat, SIZE as nat, k);
            }
        }
        let config = V::get_palette_config(palette.len() - 1);
        match config {
            PaletteConfig::Uniform => {
                let value = palette[kept];
                let r = PalettedContainer::Uniform(value);
                proof {
                    let bw = bit_width as nat;
                    assert(len == 2);
                    assert forall|k: nat| k < SIZE implies #[trigger] unpack_spec(data@, k, bw) == kept by {
                        assert(unpack_spec(data@, k, bw) != removed);
                        assert(unpack_spec(data@, k, bw) < 2);
                    }
                    assert(r@ =~= Self::indirect_view(palette@, data@, bw)) by {
                        assert forall|k: int| 0 <= k < SIZE implies #[trigger] r@[k] == Self::indirect_view(palette@, data@, bw)[k] by {
                            assert(unpack_spec(data@, k as nat, bw) == kept);
                        }
                    }
                }
                r
            },
            PaletteConfig::Indirect { bits_per_entry } => {
                let new_ref_counts = Self::drop_zero_count(&ref_counts, removed);
                let new_palette = Self::drop_palette_value(&palette, removed);
                let ghost bw = bit_width as nat;
                let ghost nbw = bits_per_entry as nat;
                proof {
                    assert forall|k: nat| k < SIZE implies ({
                        let x = #[trigger] unpack_spec(data@, k, bw);
                        if x > removed {
                            (x - 1) as nat
                        } else {
                            x as nat
                        }
                    }) < pow2(nbw) by {
                        assert(unpack_spec(data@, k, bw) < len);
                        assert(unpack_spec(data@, k, bw) != removed);
                    }
                }
                let new_data = Self::repack(&data, bit_width, bits_per_entry, true, removed as u64);
                let r = PalettedContainer::Indirect {
                    data: new_data,
                    bit_width: bits_per_entry,
                    ref_counts: new_ref_counts,
                    palette: new_palette,
                };
                proof {
                    let f = |x: u64| if x > removed { (x - 1) as u64 } else { x };
                    assert forall|k: nat| k < SIZE implies #[trigger] unpack_spec(new_data@, k, nbw) < new_palette@.len() by {
                        assert(unpack_spec(data@, k, bw) < len);
                        assert(unpack_spec(data@, k, bw) != removed);
                    }
                    assert(new_palette@.no_duplicates()) by {
                        assert forall|a: int, b: int| 0 <= a < new_palette@.len() && 0 <= b < new_palette@.len() && a != b
                            implies new_palette@[a] != new_palette@[b] by {
                            let ga = if a < removed { a } else { a + 1 };
                            let gb = if b < removed { b } else { b + 1 };
                            assert(new_palette@[a] == palette@[ga]);
                            assert(new_palette@[b] == palette@[gb]);
                        }
                    }
                    assert forall|j: int| 0 <= j < new_ref_counts@.len() implies #[trigger] new_ref_counts@[j] as nat
                        == count_index(new_data@, nbw, j as nat, SIZE as nat) && new_ref_counts@[j] > 0 by {
                        let g = if j < removed { j } else { j + 1 };
                        assert(new_ref_counts@[j] == ref_counts@[g]);
                        assert forall|k: nat| k < SIZE implies (#[trigger] unpack_spec(new_data@, k, nbw) == j as nat)
                            == (unpack_spec(data@, k, bw) == g as nat) by {
                            assert(unpack_spec(data@, k, bw) != removed);
                        }
                        lemma_count_same(new_data@, nbw, j as nat, data@, bw, g as nat, SIZE as nat);
                    }
                    assert(r@ =~= Self::indirect_view(palette@, data@, bw)) by {
                        assert forall|k: int| 0 <= k < SIZE implies #[trigger] r@[k] == Self::indirect_view(palette@, data@, bw)[k] by {
                            assert(unpack_spec(data@, k as nat, bw) != removed);
                        }
                    }
                }
                r
            },
            PaletteConfig::Direct => {
                proof {
                    assert(false);
                }
                PalettedContainer::Uniform(palette[kept])
            },
        }
    }

    /// An indirect layout with the entry of position index `i` set to `value`, and the value it held.
    fn indirect_with(
        palette: Vec<V>,
        data: Vec<u64>,
        bit_width: u8,
        ref_counts: Vec<u16>,
        i: usize,
        value: V,
    ) -> (r: (Self, V))
        requires
            2 <= SIZE <= 65535,
            i < SIZE,
            Self::indirect_wf(palette@, data@, bit_width, ref_counts@),
        ensures
            r.0.wf(),
            r.0@ == Self::indirect_view(palette@, data@, bit_width as nat).update(i as int, value),
            r.1 == Self::indirect_view(palette@, data@, bit_width as nat)[i as int],
            r.1 == value ==> r.0.same_layout(PalettedContainer::Indirect { palette, data, bit_width, ref_counts }),
            ({
                let cur = unpack_spec(data@, i as nat, bit_width as nat) as int;
                !palette@.contains(value) && ref_counts@[cur] == 1 ==> (r.0 matches PalettedContainer::Indirect {
                    palette: p,
                    bit_width: w,
                    ..
                } && w == bit_width && p@ == palette@.update(cur, value))
            }),
    {
        let mut palette = palette;
        let mut data = data;
        let mut ref_counts = ref_counts;
        let ghost palette0 = palette@;
        let ghost data0 = data@;
        let ghost rc0 = ref_counts@;
        let ghost bw = bit_width as nat;
        let ghost view0 = Self::indirect_view(palette0, data0, bw);
        let len = palette.len();
        proof {
            V::lemma_palette_config(len as nat);
            V::lemma_palette_config((len + 1) as nat);
            lemma_covers(data@.len(), SIZE as nat, bw, i as nat);
            vstd::arithmetic::power2::lemma_pow2_pos(bw);
        }
        let current_palette_index = Self::unpack_value(data.as_slice(), i, bit_width) as usize;
        let old_value = palette[current_palette_index];
        let cur = current_palette_index;
        proof {
            lemma_count_bound(data0, bw, cur as nat, SIZE as nat, i as nat);
        }

        match Self::find_in_palette(&palette, &value) {
            Some(palette_index) => {
                proof {
                    if old_value == value {
                        assert(palette0[cur as int] == palette0[palette_index as int]);
                    }
                }
                if palette_index == current_palette_index {
                    let r = PalettedContainer::Indirect { palette, data, bit_width, ref_counts };
                    proof {
                        assert(r@ =~= view0.update(i as int, value));
                    }
                    return (r, old_value);
                }
                proof {
                    lemma_count_bound(data0, bw, palette_index as nat, SIZE as nat, i as nat);
                    lemma_mask_small(palette_index as u64, bw);
                }
                ref_counts.set(current_palette_index, ref_counts[current_palette_index] - 1);
                ref_counts.set(palette_index, ref_counts[palette_index] + 1);

                Self::pack_value(&mut data, i, bit_width, palette_index as u64);
                proof {
                    assert forall|k: nat| k < SIZE implies #[trigger] unpack_spec(data@, k, bw) == if k == i {
                        palette_index as u64
                    } else {
                        unpack_spec(data0, k, bw)
                    } by {
                        lemma_covers(data0.len(), SIZE as nat, bw, k);
                        lemma_unpack_pack(data0, i as nat, k, bw, palette_index as u64);
                    }
                    assert forall|j: int| 0 <= j < ref_counts@.len() implies #[trigger] ref_counts@[j] as nat
                        == count_index(data@, bw, j as nat, SIZE as nat) by {
                        lemma_count_pack(data0, bw, i as nat, palette_index as u64, j as nat, SIZE as nat);
                    }
                    assert(Self::indirect_view(palette@, data@, bw) =~= view0.update(i as int, value));
                }

                if ref_counts[current_palette_index] == 0 {
                    // The old value is gone: shrink the palette.
                    let r = Self::shrink(palette, data, bit_width, ref_counts, current_palette_index, palette_index);
                    return (r, old_value);
                }

                let r = PalettedContainer::Indirect { palette, data, bit_width, ref_counts };
                proof {
                    assert(r@ =~= view0.update(i as int, value));
                }
                (r, old_value)
            },
            None => {
                if ref_counts[current_palette_index] == 1 {
                    // The old value is held only here: reuse its slot without growing the palette.
                    ref_counts.set(current_palette_index, ref_counts[current_palette_index] - 1);
                    let ghost data_before = data@;
                    palette.set(current_palette_index, value);
                    ref_counts.set(current_palette_index, ref_counts[current_palette_index] + 1);
                    proof {
                        lemma_mask_small(cur as u64, bw);
                    }
                    Self::pack_value(&mut data, i, bit_width, current_palette_index as u64);
                    proof {
                        let other: u64 = if cur == 0 { 1 } else { 0 };
                        lemma_mask_small(other, bw);
                        lemma_count_pack(data0, bw, i as nat, other, cur as nat, SIZE as nat);
                        assert forall|k: nat| k < SIZE implies #[trigger] unpack_spec(data@, k, bw) == unpack_spec(data0, k, bw) by {
                            lemma_covers(data0.len(), SIZE as nat, bw, k);
                            lemma_unpack_pack(data0, i as nat, k, bw, cur as u64);
                        }
                        assert forall|k: nat| k < SIZE && k != i implies #[trigger] unpack_spec(data0, k, bw) != cur by {
                            lemma_covers(data0.len(), SIZE as nat, bw, k);
                            lemma_unpack_pack(data0, i as nat, k, bw, other);
                            lemma_count_zero(pack_spec(data0, i as nat, bw, other), bw, cur as nat, SIZE as nat, k);
                        }
                        assert forall|j: int| 0 <= j < ref_counts@.len() implies #[trigger] ref_counts@[j] as nat
                            == count_index(data@, bw, j as nat, SIZE as nat) by {
                            lemma_count_prefix(data@, data0, bw, j as nat, SIZE as nat);
                        }
                        assert(palette@.no_duplicates()) by {
                            assert forall|a: int, b: int| 0 <= a < palette@.len() && 0 <= b < palette@.len() && a != b
                                implies palette@[a] != palette@[b] by {
                                if a == cur {
                                    assert(palette0.contains(palette0[b]));
                                } else if b == cur {
                                    assert(palette0.contains(palette0[a]));
                                }
                            }
                        }
                        assert(Self::indirect_view(palette@, data@, bw) =~= view0.update(i as int, value));
                    }
                    let r = PalettedContainer::Indirect { palette, data, bit_width, ref_counts };
                    return (r, old_value);
                }
                let config = V::get_palette_config(palette.len() + 1);
                match config {
                    PaletteConfig::Uniform => {
                        proof {
                            assert(false);
                        }
                        (PalettedContainer::Uniform(value), old_value)
                    },
                    PaletteConfig::Indirect { bits_per_entry } => {
                        ref_counts.set(current_palette_index, ref_counts[current_palette_index] - 1);

                        if bits_per_entry == bit_width {
                            // The bit width stays the same: no need to reallocate the data.
                            palette.push(value);
                            ref_counts.push(1);
                            proof {
                                lemma_mask_small(len as u64, bw);
                            }
                            Self::pack_value(&mut data, i, bit_width, (palette.len() - 1) as u64);
                            proof {
                                assert forall|k: nat| k < SIZE implies #[trigger] unpack_spec(data@, k, bw) == if k == i {
                                    len as u64
                                } else {
                                    unpack_spec(data0, k, bw)
                                } by {
                                    lemma_covers(data0.len(), SIZE as nat, bw, k);
                                    lemma_unpack_pack(data0, i as nat, k, bw, len as u64);
                                }
                                lemma_count_all(data0, bw, len as nat, SIZE as nat);
                                assert forall|j: int| 0 <= j < ref_counts@.len() implies #[trigger] ref_counts@[j] as nat
                                    == count_index(data@, bw, j as nat, SIZE as nat) by {
                                    lemma_count_pack(data0, bw, i as nat, len as u64, j as nat, SIZE as nat);
                                }
                                assert(palette@.no_duplicates()) by {
                                    assert forall|a: int, b: int| 0 <= a < palette@.len() && 0 <= b < palette@.len() && a != b
                                        implies palette@[a] != palette@[b] by {
                                        if a == len {
                                            assert(palette0.contains(palette0[b]));
                                        } else if b == len {
                                            assert(palette0.contains(palette0[a]));
                                        }
                                    }
                                }
                                assert(Self::indirect_view(palette@, data@, bw) =~= view0.update(i as int, value));
                            }
                            let r = PalettedContainer::Indirect { data, bit_width, palette, ref_counts };
                            (r, old_value)
                        } else {
                            let nbw = bits_per_entry;
                            let mut new_data = Self::repack(&data, bit_width, bits_per_entry, false, 0);
                            let ghost repacked = new_data@;

                            // There is always at least one new entry.
                            palette.push(value);
                            ref_counts.push(1);
                            proof {
                                lemma_covers(repacked.len(), SIZE as nat, nbw as nat, i as nat);
                                lemma_mask_small(len as u64, nbw as nat);
                            }
                            Self::pack_value(&mut new_data, i, bits_per_entry, (palette.len() - 1) as u64);
                            proof {
                                let nb = nbw as nat;
                                assert forall|k: nat| k < SIZE implies #[trigger] unpack_spec(new_data@, k, nb) == if k == i {
                                    len as u64
                                } else {
                                    unpack_spec(data0, k, bw)
                                } by {
                                    lemma_covers(repacked.len(), SIZE as nat, nb, k);
                                    lemma_unpack_pack(repacked, i as nat, k, nb, len as u64);
                                }
                                assert forall|j: int| 0 <= j < ref_counts@.len() implies #[trigger] ref_counts@[j] as nat
                                    == count_index(new_data@, nb, j as nat, SIZE as nat) by {
                                    lemma_count_same(repacked, nb, j as nat, data0, bw, j as nat, SIZE as nat);
                                    lemma_count_all(repacked, nb, len as nat, SIZE as nat);
                                    lemma_count_pack(repacked, nb, i as nat, len as u64, j as nat, SIZE as nat);
                                }
                                assert(palette@.no_duplicates()) by {
                                    assert forall|a: int, b: int| 0 <= a < palette@.len() && 0 <= b < palette@.len() && a != b
                                        implies palette@[a] != palette@[b] by {
                                        if a == len {
                                            assert(palette0.contains(palette0[b]));
                                        } else if b == len {
                                            assert(palette0.contains(palette0[a]));
                                        }
                                    }
                                }
                                assert(Self::indirect_view(palette@, new_data@, nb) =~= view0.update(i as int, value));
                            }
                            let r = PalettedContainer::Indirect {
                                data: new_data,
                                bit_width: bits_per_entry,
                                palette,
                                ref_counts,
                            };
                            (r, old_value)
                        }
                    },
                    PaletteConfig::Direct => {
                        let mut direct_data = Self::expand(&palette, &data, bit_width);
                        direct_data.set(i, value);
                        let r = PalettedContainer::Direct { data: direct_data };
                        proof {
                            assert(len == V::spec_max_unique());
                            let w = palette0.push(value);
                            assert(w.no_duplicates()) by {
                                assert forall|a: int, b: int| 0 <= a < w.len() && 0 <= b < w.len() && a != b
                                    implies w[a] != w[b] by {
                                    if a == len {
                                        assert(palette0.contains(palette0[b]));
                                    } else if b == len {
                                        assert(palette0.contains(palette0[a]));
                                    }
                                }
                            }
                            let other: u64 = if cur == 0 { 1 } else { 0 };
                            lemma_mask_small(other, bw);
                            lemma_count_pack(data0, bw, i as nat, other, cur as nat, SIZE as nat);
                            assert forall|a: int| 0 <= a < w.len() implies direct_data@.contains(#[trigger] w[a]) by {
                                if a == len {
                                    assert(direct_data@[i as int] == value);
                                } else if a == cur {
                                    // The old value is held at some other position too.
                                    let packed = pack_spec(data0, i as nat, bw, other);
                                    let k = lemma_count_witness(packed, bw, cur as nat, SIZE as nat);
                                    lemma_covers(data0.len(), SIZE as nat, bw, k);
                                    lemma_unpack_pack(data0, i as nat, k, bw, other);
                                    assert(k != i);
                                    assert(direct_data@[k as int] == w[a]);
                                } else {
                                    assert(rc0[a] > 0);
                                    let k = lemma_count_witness(data0, bw, a as nat, SIZE as nat);
                                    assert(direct_data@[k as int] == w[a]);
                                }
                            }
                            lemma_distinct_in(w, direct_data@);
                            assert(r@ =~= view0.update(i as int, value));
                        }
                        (r, old_value)
                    },
                }
            },
        }
    }

    /// A direct layout with position index `i` set to `value`, and the value it held: turned
    /// into an indirect layout when few enough distinct values remain.
    fn direct_with(values: Vec<V>, i: usize, value: V) -> (r: (Self, V))
        requires
            2 <= SIZE <= 65535,
            i < SIZE,
            values@.len() == SIZE,
            values@.to_set().len() > V::spec_max_unique(),
        ensures
            r.1 == value ==> r.0.same_layout(PalettedContainer::Direct { data: values }),
            r.0.wf(),
            r.0@ == values@.update(i as int, value),
            r.1 == values@[i as int],
            r.0 is Direct <==> r.0@.to_set().len() > V::spec_max_unique(),
            r.0 is Direct || r.0 is Indirect,
            r.0 matches PalettedContainer::Indirect { bit_width, .. } ==> V::spec_palette_config(r.0@.to_set().len())
                == (PaletteConfig::Indirect { bits_per_entry: bit_width }),
            r.0 matches PalettedContainer::Direct { data } ==> data@ == r.0@,
    {
        let mut data = values;
        let ghost data0 = data@;
        let old_value = data[i];
        data.set(i, value);
        proof {
            if old_value == value {
                assert(data@ =~= data0);
            }
            V::lemma_palette_config(0);
            vstd::seq_lib::seq_to_set_is_finite(data0);
            vstd::seq_lib::seq_to_set_is_finite(data@);
            assert(data0.to_set().remove(old_value).subset_of(data@.to_set())) by {
                assert forall|x: V| data0.to_set().remove(old_value).contains(x) implies data@.to_set().contains(x) by {
                    let l = choose|l: int| 0 <= l < data0.len() && data0[l] == x;
                    assert(l != i);
                    assert(data@[l] == x);
                }
            }
            vstd::set_lib::lemma_len_subset(data0.to_set().remove(old_value), data@.to_set());
            assert(data0.to_set().contains(data0[i as int]));
        }
        let max_unique = V::max_unique();

        // The distinct values in order of first occurrence, and the slot of each.
        let mut unique_values: Vec<V> = Vec::new();
        let mut value_to_index: HashMap<V, usize> = HashMap::new();
        proof {
            V::lemma_key_model();
        }
        let mut k: usize = 0;
        while k < data.len()
            invariant
                vstd::std_specs::hash::obeys_key_model::<V>(),
                forall|x: V| #[trigger] value_to_index@.contains_key(x) <==> unique_values@.contains(x),
                forall|j: int| 0 <= j < unique_values@.len() ==> value_to_index@[#[trigger] unique_values@[j]] == j,
                k <= data@.len(),
                data@.len() == SIZE,
                2 <= SIZE <= 65535,
                i < SIZE,
                data0.len() == SIZE,
                data@ == data0.update(i as int, value),
                data0 == values@,
                old_value == data0[i as int],
                max_unique == V::spec_max_unique(),
                unique_values@.no_duplicates(),
                unique_values@.len() <= max_unique,
                forall|a: int| 0 <= a < unique_values@.len() ==> data@.contains(#[trigger] unique_values@[a]),
                forall|l: int| 0 <= l < k ==> unique_values@.contains(#[trigger] data@[l]),
            decreases data@.len() - k,
        {
            let v = data[k];
            let ghost prev = unique_values@;
            if !value_to_index.contains_key(&v) {
                value_to_index.insert(v, unique_values.len());
                unique_values.push(v);
                proof {
                    assert forall|x: V| #[trigger] value_to_index@.contains_key(x) <==> unique_values@.contains(x) by {
                        if x == v {
                            assert(unique_values@[prev.len() as int] == v);
                        } else if prev.contains(x) {
                            let j = choose|j: int| 0 <= j < prev.len() && prev[j] == x;
                            assert(unique_values@[j] == x);
                        } else if unique_values@.contains(x) {
                            let j = choose|j: int| 0 <= j < unique_values@.len() && unique_values@[j] == x;
                            assert(j < prev.len());
                            assert(prev[j] == x);
                        }
                    }
                    assert forall|j: int| 0 <= j < unique_values@.len() implies value_to_index@[#[trigger] unique_values@[j]] == j by {
                        if j < prev.len() {
                            assert(prev.contains(prev[j]));
                            assert(prev[j] != v);
                        }
                    }
                    assert(unique_values@ == prev.push(v));
                    assert forall|a: int, b: int| 0 <= a < unique_values@.len() && 0 <= b < unique_values@.len() && a != b
                        implies unique_values@[a] != unique_values@[b] by {
                        let n = prev.len();
                        if a == n {
                            assert(unique_values@[b] == prev[b]);
                            assert(prev.contains(prev[b]));
                        } else if b == n {
                            assert(unique_values@[a] == prev[a]);
                            assert(prev.contains(prev[a]));
                        }
                    }
                    assert(data@.contains(data@[k as int]));
                    assert forall|l: int| 0 <= l < k + 1 implies unique_values@.contains(#[trigger] data@[l]) by {
                        if l < k {
                            assert(prev.contains(data@[l]));
                            let a = choose|a: int| 0 <= a < prev.len() && prev[a] == data@[l];
                            assert(unique_values@[a] == data@[l]);
                        } else {
                            assert(unique_values@[prev.len() as int] == data@[l]);
                        }
                    }
                }
            }
            // Early exit when there are too many distinct values for a palette.
            if unique_values.len() > max_unique {
                let r = PalettedContainer::Direct { data };
                proof {
                    lemma_distinct_in(unique_values@, data@);
                    assert(r@ =~= data0.update(i as int, value));
                    assert(r@ =~= data@);
                    if old_value == value {
                        assert(data@ =~= data0);
                    }
                }
                return (r, old_value);
            }
            k += 1;
        }
        proof {
            unique_values@.unique_seq_to_set();
            assert(unique_values@.to_set() =~= data@.to_set()) by {
                assert forall|x: V| data@.to_set().contains(x) implies unique_values@.to_set().contains(x) by {
                    let l = choose|l: int| 0 <= l < data@.len() && data@[l] == x;
                    assert(unique_values@.contains(data@[l]));
                }
            }
            V::lemma_palette_config(unique_values@.len());
            if old_value == value {
                assert(data@ =~= data0);
            }
        }

        let config = V::get_palette_config(unique_values.len());
        match config {
            PaletteConfig::Indirect { bits_per_entry } => {
                let palette = unique_values;
                let ghost bw = bits_per_entry as nat;
                let num_longs = Self::long_count(bits_per_entry);
                let mut indirect_data = Self::zeroed_longs(num_longs);
                let mut ref_counts: Vec<u16> = Vec::new();
                let mut j: usize = 0;
                while j < palette.len()
                    invariant
                        j <= palette@.len(),
                        ref_counts@.len() == j,
                        forall|l: int| 0 <= l < j ==> ref_counts@[l] == 0,
                    decreases palette@.len() - j,
                {
                    ref_counts.push(0);
                    j += 1;
                }
                proof {
                    lemma_count_all(indirect_data@, bw, 0, 0);
                }
                let mut n: usize = 0;
                while n < SIZE
                    invariant
                        n <= SIZE <= 65535,
                        data@.len() == SIZE,
                        1 <= bw <= 16,
                        bits_per_entry == bw,
                        palette@.len() <= pow2(bw),
                        palette@.no_duplicates(),
                        forall|a: int| 0 <= a < palette@.len() ==> data@.contains(#[trigger] palette@[a]),
                        forall|l: int| 0 <= l < SIZE ==> palette@.contains(#[trigger] data@[l]),
                        indirect_data@.len() == num_longs,
                        covers(num_longs as nat, SIZE as nat, bw),
                        ref_counts@.len() == palette@.len(),
                        forall|l: nat| l < n ==> #[trigger] unpack_spec(indirect_data@, l, bw) < palette@.len()
                            && palette@[unpack_spec(indirect_data@, l, bw) as int] == data@[l as int],
                        forall|c: int| 0 <= c < ref_counts@.len() ==> #[trigger] ref_counts@[c] as nat
                            == count_index(indirect_data@, bw, c as nat, n as nat),
                        vstd::std_specs::hash::obeys_key_model::<V>(),
                        forall|x: V| #[trigger] value_to_index@.contains_key(x) <==> palette@.contains(x),
                        forall|j: int| 0 <= j < palette@.len() ==> value_to_index@[#[trigger] palette@[j]] == j,
                    decreases SIZE - n,
                {
                    proof {
                        assert(palette@.contains(data@[n as int]));
                        let j0 = choose|j: int| 0 <= j < palette@.len() && palette@[j] == data@[n as int];
                        assert(value_to_index@[palette@[j0]] == j0);
                    }
                    let palette_index: usize = match value_to_index.get(&data[n]) {
                        Some(j) => *j,
                        None => {
                            proof {
                                assert(false);
                            }
                            0
                        },
                    };
                    proof {
                        let j0 = choose|j: int| 0 <= j < palette@.len() && palette@[j] == data@[n as int];
                        assert(palette_index == j0);
                    }
                    let ghost before = indirect_data@;
                    proof {
                        lemma_covers(num_longs as nat, SIZE as nat, bw, n as nat);
                        lemma_mask_small(palette_index as u64, bw);
                        lemma_count_bound(before, bw, palette_index as nat, n as nat, 0);
                    }
                    ref_counts.set(palette_index, ref_counts[palette_index] + 1);
                    Self::pack_value(&mut indirect_data, n, bits_per_entry, palette_index as u64);
                    proof {
                        assert forall|l: nat| l < n + 1 implies #[trigger] unpack_spec(indirect_data@, l, bw) == if l == n {
                            palette_index as u64
                        } else {
                            unpack_spec(before, l, bw)
                        } by {
                            lemma_covers(num_longs as nat, SIZE as nat, bw, l);
                            lemma_unpack_pack(before, n as nat, l, bw, palette_index as u64);
                        }
                        assert forall|c: int| 0 <= c < ref_counts@.len() implies #[trigger] ref_counts@[c] as nat
                            == count_index(indirect_data@, bw, c as nat, (n + 1) as nat) by {
                            lemma_count_prefix(indirect_data@, before, bw, c as nat, n as nat);
                        }
                    }
                    n += 1;
                }
                let r = PalettedContainer::Indirect {
                    palette,
                    data: indirect_data,
                    bit_width: bits_per_entry,
                    ref_counts,
                };
                proof {
                    assert forall|c: int| 0 <= c < ref_counts@.len() implies #[trigger] ref_counts@[c] > 0 by {
                        let l = choose|l: int| 0 <= l < data@.len() && data@[l] == palette@[c];
                        let u = unpack_spec(indirect_data@, l as nat, bw);
                        assert(palette@[u as int] == palette@[c]);
                        lemma_count_bound(indirect_data@, bw, c as nat, SIZE as nat, l as nat);
                    }
                    assert(r@ =~= data0.update(i as int, value));
                    assert(r@.to_set().len() == palette@.len());
                }
                (r, old_value)
            },
            PaletteConfig::Direct => {
                proof {
                    assert(false);
                }
                (PalettedContainer::Direct { data }, old_value)
            },
            PaletteConfig::Uniform => {
                proof {
                    assert(false);
                }
                (PalettedContainer::Direct { data }, old_value)
            },
        }
    }

    /// What `spec_dimension` is: the least `d >= 1` whose cube reaches `SIZE`.
    pub proof fn lemma_dimension()
        ensures
            Self::spec_dimension() >= 1,
            Self::spec_dimension() * Self::spec_dimension() * Self::spec_dimension() >= SIZE,
            Self::spec_dimension() == 1 || (Self::spec_dimension() - 1) * (Self::spec_dimension()
                - 1) * (Self::spec_dimension() - 1) < SIZE,
    {
        lemma_cube_root_from(1, SIZE as nat);
    }
}

/// The distinct values of a sequence in the order of their first occurrence.
pub open spec fn distinct_values<V>(s: Seq<V>) -> Seq<V>
    decreases s.len(),
{
    if s.len() == 0 {
        Seq::empty()
    } else {
        let d = distinct_values(s.drop_last());
        if d.contains(s.last()) {
            d
        } else {
            d.push(s.last())
        }
    }
}

/// `distinct_values(s)` holds each value of `s` exactly once.
pub proof fn lemma_distinct_values<V>(s: Seq<V>)
    ensures
        distinct_values(s).no_duplicates(),
        forall|x: V| distinct_values(s).contains(x) <==> s.contains(x),
        distinct_values(s).len() <= s.len(),
    decreases s.len(),
{
    if s.len() > 0 {
        let t = s.drop_last();
        lemma_distinct_values(t);
        let d = distinct_values(t);
        assert forall|x: V| s.contains(x) <==> (t.contains(x) || x == s.last()) by {
            if s.contains(x) {
                let i = choose|i: int| 0 <= i < s.len() && s[i] == x;
                if i < s.len() - 1 {
                    assert(t[i] == x);
                }
            }
            if t.contains(x) {
                let i = choose|i: int| 0 <= i < t.len() && t[i] == x;
                assert(s[i] == x);
            }
            if x == s.last() {
                assert(s[s.len() - 1] == x);
            }
        }
        if !d.contains(s.last()) {
            let e = d.push(s.last());
            assert forall|x: V| e.contains(x) <==> (d.contains(x) || x == s.last()) by {
                if e.contains(x) {
                    let i = choose|i: int| 0 <= i < e.len() && e[i] == x;
                    if i < d.len() {
                        assert(d[i] == x);
                    }
                }
                if d.contains(x) {
                    let i = choose|i: int| 0 <= i < d.len() && d[i] == x;
                    assert(e[i] == x);
                }
                if x == s.last() {
                    assert(e[d.len() as int] == x);
                }
            }
            assert forall|a: int, b: int| 0 <= a < e.len() && 0 <= b < e.len() && a != b implies e[a] != e[b] by {
                if a == d.len() {
                    assert(d.contains(d[b]));
                } else if b == d.len() {
                    assert(d.contains(d[a]));
                }
            }
        }
    }
}

/// A sequence holding every value of a duplicate-free sequence has at least as many distinct values.
pub proof fn lemma_distinct_in<V>(w: Seq<V>, s: Seq<V>)
    requires
        w.no_duplicates(),
        forall|a: int| 0 <= a < w.len() ==> s.contains(#[trigger] w[a]),
    ensures
        s.to_set().len() >= w.len(),
{
    w.unique_seq_to_set();
    assert(w.to_set().subset_of(s.to_set())) by {
        assert forall|x: V| w.to_set().contains(x) implies s.to_set().contains(x) by {
            let a = choose|a: int| 0 <= a < w.len() && w[a] == x;
            assert(s.contains(w[a]));
        }
    }
    vstd::seq_lib::seq_to_set_is_finite(s);
    vstd::set_lib::lemma_len_subset(w.to_set(), s.to_set());
}

/// `cube_root_from(start, n)` is the least `d >= start` with `d^3 >= n`.
pub proof fn lemma_cube_root_from(start: nat, n: nat)
    requires
        start >= 1,
        start == 1 || (start - 1) * (start - 1) * (start - 1) < n,
    ensures
        cube_root_from(start, n) >= start,
        cube_root_from(start, n) * cube_root_from(start, n) * cube_root_from(start, n) >= n,
        cube_root_from(start, n) == 1 || (cube_root_from(start, n) - 1) * (cube_root_from(start, n)
            - 1) * (cube_root_from(start, n) - 1) < n,
    decreases n - start,
{
    if start * start * start >= n {
    } else if start >= n {
        assert(start <= start * start * start) by (nonlinear_arith)
            requires start >= 1;
    } else {
        lemma_cube_root_from(start + 1, n);
    }
}

/// Whether a predicate on block states answers each state the same way every time, and can be
/// asked about any state.
pub open spec fn is_predicate<F: Fn(BlockStateId) -> bool>(f: F) -> bool {
    &&& forall|b: BlockStateId| #[trigger] f.requires((b,))
    &&& forall|b: BlockStateId, x: bool, y: bool| #[trigger] f.ensures((b,), x) && #[trigger] f.ensures((b,), y) ==> x == y
}

/// What a predicate answers about a block state (once it has been asked).
pub open spec fn holds_for<F: Fn(BlockStateId) -> bool>(f: F, b: BlockStateId) -> bool {
    f.ensures((b,), true)
}

/// How many of the first `n` values are not air.
pub open spec fn count_non_air_in<F: Fn(BlockStateId) -> bool>(values: Seq<BlockStateId>, is_air: F, n: nat) -> nat
    decreases n,
{
    if n == 0 {
        0
    } else {
        count_non_air_in(values, is_air, (n - 1) as nat) + if holds_for(is_air, values[n - 1]) {
            0nat
        } else {
            1nat
        }
    }
}

/// The reference counts of the first `j` palette entries that are not air, added up.
pub open spec fn non_air_refs<F: Fn(BlockStateId) -> bool>(palette: Seq<BlockStateId>, data: Seq<u64>, bw: nat, is_air: F, j: nat, n: nat) -> nat
    decreases j,
{
    if j == 0 {
        0
    } else {
        non_air_refs(palette, data, bw, is_air, (j - 1) as nat, n) + if holds_for(is_air, palette[j - 1]) {
            0nat
        } else {
            count_index(data, bw, (j - 1) as nat, n)
        }
    }
}

/// Adding one more entry to the counts: it adds one exactly when its palette index is among
/// the first `j` and its value is not air.
proof fn lemma_non_air_refs_step<F: Fn(BlockStateId) -> bool>(palette: Seq<BlockStateId>, data: Seq<u64>, bw: nat, is_air: F, j: nat, n: nat)
    ensures
        non_air_refs(palette, data, bw, is_air, j, n + 1) == non_air_refs(palette, data, bw, is_air, j, n) + if unpack_spec(data, n, bw) < j
            && !holds_for(is_air, palette[unpack_spec(data, n, bw) as int]) {
            1nat
        } else {
            0nat
        },
    decreases j,
{
    if j > 0 {
        lemma_non_air_refs_step(palette, data, bw, is_air, (j - 1) as nat, n);
    }
}

/// Adding up the counts of the non-air palette entries counts the non-air entries.
proof fn lemma_non_air_refs<F: Fn(BlockStateId) -> bool>(palette: Seq<BlockStateId>, data: Seq<u64>, bw: nat, is_air: F, n: nat)
    requires
        forall|k: nat| k < n ==> #[trigger] unpack_spec(data, k, bw) < palette.len(),
    ensures
        non_air_refs(palette, data, bw, is_air, palette.len(), n) == count_non_air_in(
            Seq::new(n, |k: int| palette[unpack_spec(data, k as nat, bw) as int]),
            is_air,
            n,
        ),
    decreases n,
{
    if n > 0 {
        let m = (n - 1) as nat;
        lemma_non_air_refs(palette, data, bw, is_air, m);
        lemma_non_air_refs_step(palette, data, bw, is_air, palette.len(), m);
        lemma_count_non_air_prefix(
            Seq::new(n, |k: int| palette[unpack_spec(data, k as nat, bw) as int]),
            Seq::new(m, |k: int| palette[unpack_spec(data, k as nat, bw) as int]),
            is_air,
            m,
        );
        assert(unpack_spec(data, m, bw) < palette.len());
    }
    if n == 0 {
        lemma_non_air_refs_zero(palette, data, bw, is_air, palette.len());
    }
}

/// With no entries there is nothing to count.
proof fn lemma_non_air_refs_zero<F: Fn(BlockStateId) -> bool>(palette: Seq<BlockStateId>, data: Seq<u64>, bw: nat, is_air: F, j: nat)
    ensures
        non_air_refs(palette, data, bw, is_air, j, 0) == 0,
    decreases j,
{
    if j > 0 {
        lemma_non_air_refs_zero(palette, data, bw, is_air, (j - 1) as nat);
    }
}

/// The count of the first `n` values depends on those values only.
proof fn lemma_count_non_air_prefix<F: Fn(BlockStateId) -> bool>(a: Seq<BlockStateId>, b: Seq<BlockStateId>, is_air: F, n: nat)
    requires
        n <= a.len(),
        n <= b.len(),
        forall|k: int| 0 <= k < n ==> a[k] == b[k],
    ensures
        count_non_air_in(a, is_air, n) == count_non_air_in(b, is_air, n),
    decreases n,
{
    if n > 0 {
        lemma_count_non_air_prefix(a, b, is_air, (n - 1) as nat);
    }
}

/// At most `n` of the first `n` values are not air; all or none of them when they are all the
/// same value.
pub proof fn lemma_count_non_air_bound<F: Fn(BlockStateId) -> bool>(values: Seq<BlockStateId>, is_air: F, n: nat)
    ensures
        count_non_air_in(values, is_air, n) <= n,
        (forall|k: int| 0 <= k < n ==> #[trigger] holds_for(is_air, values[k])) ==> count_non_air_in(values, is_air, n) == 0,
        (forall|k: int| 0 <= k < n ==> !#[trigger] holds_for(is_air, values[k])) ==> count_non_air_in(values, is_air, n) == n,
    decreases n,
{
    if n > 0 {
        lemma_count_non_air_bound(values, is_air, (n - 1) as nat);
    }
}

/// The reference counts of the first `j` palette entries that are not air, added up.
pub open spec fn ref_total<F: Fn(BlockStateId) -> bool>(palette: Seq<BlockStateId>, ref_counts: Seq<u16>, is_air: F, j: nat) -> nat
    decreases j,
{
    if j == 0 {
        0
    } else {
        ref_total(palette, ref_counts, is_air, (j - 1) as nat) + if holds_for(is_air, palette[j - 1]) {
            0nat
        } else {
            ref_counts[j - 1] as nat
        }
    }
}

/// A running total of reference counts never shrinks.
proof fn lemma_ref_total_le<F: Fn(BlockStateId) -> bool>(palette: Seq<BlockStateId>, ref_counts: Seq<u16>, is_air: F, j: nat, k: nat)
    requires
        j <= k,
    ensures
        ref_total(palette, ref_counts, is_air, j) <= ref_total(palette, ref_counts, is_air, k),
    decreases k,
{
    if j < k {
        lemma_ref_total_le(palette, ref_counts, is_air, j, (k - 1) as nat);
    }
}

/// With reference counts that match the entries, the running totals agree.
proof fn lemma_ref_total_counts<F: Fn(BlockStateId) -> bool>(palette: Seq<BlockStateId>, ref_counts: Seq<u16>, data: Seq<u64>, bw: nat, is_air: F, j: nat, n: nat)
    requires
        j <= ref_counts.len(),
        forall|c: int| 0 <= c < ref_counts.len() ==> #[trigger] ref_counts[c] as nat == count_index(data, bw, c as nat, n),
    ensures
        ref_total(palette, ref_counts, is_air, j) == non_air_refs(palette, data, bw, is_air, j, n),
    decreases j,
{
    if j > 0 {
        lemma_ref_total_counts(palette, ref_counts, data, bw, is_air, (j - 1) as nat, n);
    }
}

/// The non-air counts of the palette entries add up to at most the number of entries.
proof fn lemma_non_air_refs_bound<F: Fn(BlockStateId) -> bool>(palette: Seq<BlockStateId>, data: Seq<u64>, bw: nat, is_air: F, j: nat, n: nat)
    ensures
        non_air_refs(palette, data, bw, is_air, j, n) <= n,
    decreases n,
{
    if n == 0 {
        lemma_non_air_refs_zero(palette, data, bw, is_air, j);
    } else {
        lemma_non_air_refs_bound(palette, data, bw, is_air, j, (n - 1) as nat);
        lemma_non_air_refs_step(palette, data, bw, is_air, j, (n - 1) as nat);
    }
}

impl BlockSectionData {
    /// What `count_non_air` adds up: the whole section or nothing when uniform, the reference
    /// counts of the non-air palette entries when indirect, the non-air values when direct.
    pub open spec fn spec_count_non_air<F: Fn(BlockStateId) -> bool>(&self, is_air: F) -> nat {
        match self {
            PalettedContainer::Uniform(value) => if holds_for(is_air, *value) {
                0
            } else {
                4096
            },
            PalettedContainer::Indirect { palette, ref_counts, .. } => ref_total(
                palette@,
                ref_counts@,
                is_air,
                if palette@.len() <= ref_counts@.len() {
                    palette@.len()
                } else {
                    ref_counts@.len()
                },
            ),
            PalettedContainer::Direct { data } => count_non_air_in(data@, is_air, data@.len()),
        }
    }

    /// With reference counts that match the entries, the non-air total is at most the size
    /// of the section.
    pub proof fn lemma_count_fits<F: Fn(BlockStateId) -> bool>(c: Self, is_air: F)
        requires
            c.counts_consistent(),
        ensures
            c.spec_count_non_air(is_air) <= 4096,
    {
        if let PalettedContainer::Indirect { palette, data, bit_width, ref_counts } = c {
            lemma_ref_total_counts(palette@, ref_counts@, data@, bit_width as nat, is_air, palette@.len(), 4096);
            lemma_non_air_refs_bound(palette@, data@, bit_width as nat, is_air, palette@.len(), 4096);
        }
        if let PalettedContainer::Direct { data } = c {
            lemma_count_non_air_bound(data@, is_air, data@.len());
        }
    }

    /// For a well-formed container the non-air total is the number of non-air positions.
    pub proof fn lemma_count_wf<F: Fn(BlockStateId) -> bool>(c: Self, is_air: F)
        requires
            c.wf(),
        ensures
            c.spec_count_non_air(is_air) == count_non_air_in(c@, is_air, 4096),
    {
        match c {
            PalettedContainer::Uniform(value) => {
                lemma_count_non_air_bound(c@, is_air, 4096);
            },
            PalettedContainer::Indirect { palette, data, bit_width, ref_counts } => {
                let bw = bit_width as nat;
                lemma_ref_total_counts(palette@, ref_counts@, data@, bw, is_air, palette@.len(), 4096);
                lemma_non_air_refs(palette@, data@, bw, is_air, 4096);
                assert(c@ =~= Seq::new(4096, |k: int| palette@[unpack_spec(data@, k as nat, bw) as int]));
            },
            PalettedContainer::Direct { data } => {
                assert(c@ =~= data@);
            },
        }
    }

    /// The number of positions whose block is not air, by the given air predicate.
    pub fn count_non_air<F: Fn(BlockStateId) -> bool>(&self, is_air: &F) -> (r: u16)
        requires
            is_predicate(*is_air),
            self is Indirect ==> self.spec_count_non_air(*is_air) <= u16::MAX,
        ensures
            r == self.spec_count_non_air(*is_air) as u16,
            self.wf() ==> r == count_non_air_in(self@, *is_air, 4096),
    {
        match self {
            PalettedContainer::Uniform(value) => {
                let air = is_air(*value);
                proof {
                    lemma_count_non_air_bound(self@, *is_air, 4096);
                    assert(holds_for(*is_air, *value) == air);
                }
                if air {
                    0
                } else {
                    4096
                }
            },
            PalettedContainer::Indirect { ref_counts, palette, data, bit_width } => {
                let ghost bw = *bit_width as nat;
                let n = if palette.len() <= ref_counts.len() {
                    palette.len()
                } else {
                    ref_counts.len()
                };
                let mut total: u16 = 0;
                let mut j: usize = 0;
                while j < n
                    invariant
                        is_predicate(*is_air),
                        n <= palette@.len(),
                        n <= ref_counts@.len(),
                        j <= n,
                        ref_total(palette@, ref_counts@, *is_air, n as nat) <= u16::MAX,
                        total == ref_total(palette@, ref_counts@, *is_air, j as nat),
                    decreases n - j,
                {
                    let air = is_air(palette[j]);
                    proof {
                        assert(holds_for(*is_air, palette@[j as int]) == air);
                        lemma_ref_total_le(palette@, ref_counts@, *is_air, (j + 1) as nat, n as nat);
                    }
                    if !air {
                        total = total + ref_counts[j];
                    }
                    j += 1;
                }
                proof {
                    if self.wf() {
                        lemma_ref_total_counts(palette@, ref_counts@, data@, bw, *is_air, palette@.len(), 4096);
                        lemma_non_air_refs(palette@, data@, bw, *is_air, 4096);
                        assert(self@ =~= Seq::new(4096, |k: int| palette@[unpack_spec(data@, k as nat, bw) as int]));
                    }
                }
                total
            },
            PalettedContainer::Direct { data } => {
                let mut count: usize = 0;
                let mut k: usize = 0;
                while k < data.len()
                    invariant
                        is_predicate(*is_air),
                        k <= data@.len(),
                        count == count_non_air_in(data@, *is_air, k as nat),
                    decreases data@.len() - k,
                {
                    let air = is_air(data[k]);
                    proof {
                        assert(holds_for(*is_air, data@[k as int]) == air);
                        lemma_count_non_air_bound(data@, *is_air, k as nat);
                    }
                    if !air {
                        count += 1;
                    }
                    k += 1;
                }
                proof {
                    lemma_count_non_air_bound(data@, *is_air, data@.len());
                    if self.wf() {
                        assert(self@ =~= data@);
                    }
                }
                count as u16
            },
        }
    }
}

impl BlockSectionData {
    /// Reads the block states of a section from their form on disk.
    pub fn from_disk_nbt(nbt: ChunkSectionBlockStates) -> (r: Self)
        requires
            nbt.palette@.len() < 0x8000_0000_0000_0000,
            Self::disk_readable(nbt.palette@.len(), packed_or_empty(nbt.data).len()),
        ensures
            Self::disk_read(nbt.palette@, packed_or_empty(nbt.data), r),
    {
        let ChunkSectionBlockStates { data, palette } = nbt;
        let empty: Vec<i64> = Vec::new();
        let packed: &[i64] = match &data {
            Some(d) => d.as_slice(),
            None => empty.as_slice(),
        };
        Self::from_palette_and_packed_data(palette, packed)
    }

    /// The block states of a section in their form on disk.
    pub fn to_disk_nbt(&self) -> (r: ChunkSectionBlockStates)
        requires
            self matches PalettedContainer::Direct { data } ==> data@.len() == 4096,
        ensures
            r.palette@ == self.disk_form().0,
            match r.data {
                Some(d) => self.disk_form().1 == Some(d@),
                None => self.disk_form().1 == None::<Seq<i64>>,
            },
    {
        let (palette, packed_data) = self.to_palette_and_packed_data_disk();
        ChunkSectionBlockStates { data: packed_data, palette }
    }
}

impl BiomeSectionData {
    /// Reads the biomes of a section from their form on disk, turning each palette name into
    /// a biome id with `biome_id` (which decides the fallback for names it does not know).
    pub fn from_disk_nbt<F: Fn(&String) -> u8>(nbt: ChunkSectionBiomes, biome_id: F) -> (r: Self)
        requires
            forall|name: &String| #[trigger] biome_id.requires((name,)),
            nbt.palette@.len() < 0x8000_0000_0000_0000,
            Self::disk_readable(nbt.palette@.len(), packed_or_empty(nbt.data).len()),
        ensures
            exists|ids: Seq<u8>|
                {
                    &&& ids.len() == nbt.palette@.len()
                    &&& forall|j: int| 0 <= j < ids.len() ==> biome_id.ensures((&#[trigger] nbt.palette@[j].name,), ids[j])
                    &&& Self::disk_read(ids, packed_or_empty(nbt.data), r)
                },
    {
        let ChunkSectionBiomes { data, palette: entries } = nbt;
        let mut palette: Vec<u8> = Vec::new();
        let mut j: usize = 0;
        while j < entries.len()
            invariant
                forall|name: &String| #[trigger] biome_id.requires((name,)),
                j <= entries@.len(),
                palette@.len() == j,
                forall|l: int| 0 <= l < j ==> biome_id.ensures((&#[trigger] entries@[l].name,), palette@[l]),
            decreases entries@.len() - j,
        {
            let id = biome_id(&entries[j].name);
            palette.push(id);
            j += 1;
        }
        let ghost ids = palette@;
        let empty: Vec<i64> = Vec::new();
        let packed: &[i64] = match &data {
            Some(d) => d.as_slice(),
            None => empty.as_slice(),
        };
        let r = Self::from_palette_and_packed_data(palette, packed);
        proof {
            assert(forall|l: int| 0 <= l < ids.len() ==> biome_id.ensures((&#[trigger] entries@[l].name,), ids[l]));
        }
        r
    }

    /// The biomes of a section in their form on disk, naming each biome id with `biome_name`.
    pub fn to_disk_nbt<F: Fn(u8) -> String>(&self, biome_name: F) -> (r: ChunkSectionBiomes)
        requires
            forall|id: u8| #[trigger] biome_name.requires((id,)),
            self matches PalettedContainer::Direct { data } ==> data@.len() == 64,
        ensures
            r.palette@.len() == self.disk_form().0.len(),
            forall|j: int| 0 <= j < r.palette@.len() ==> biome_name.ensures((self.disk_form().0[j],), #[trigger] r.palette@[j].name),
            match r.data {
                Some(d) => self.disk_form().1 == Some(d@),
                None => self.disk_form().1 == None::<Seq<i64>>,
            },
    {
        let (palette, packed_data) = self.to_palette_and_packed_data_disk();
        let mut entries: Vec<PaletteBiomeEntry> = Vec::new();
        let mut j: usize = 0;
        while j < palette.len()
            invariant
                forall|id: u8| #[trigger] biome_name.requires((id,)),
                j <= palette@.len(),
                entries@.len() == j,
                forall|l: int| 0 <= l < j ==> biome_name.ensures((palette@[l],), #[trigger] entries@[l].name),
            decreases palette@.len() - j,
        {
            let name = biome_name(palette[j]);
            entries.push(PaletteBiomeEntry { name });
            j += 1;
        }
        ChunkSectionBiomes { data: packed_data, palette: entries }
    }
}

impl<V: PaletteValue, const SIZE: usize> Default for PalettedContainer<V, SIZE> {
    /// A container that holds the default value everywhere.
    fn default() -> (r: Self)
        ensures
            r == PalettedContainer::<V, SIZE>::Uniform(V::spec_default()),
    {
        Self::Uniform(V::default_value())
    }
}

} // verus!
