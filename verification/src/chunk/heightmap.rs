//! Column heights of a chunk, nine bits per column, seven columns per long.
use vstd::prelude::*;

use crate::math::BlockPos;
use vstd::string::StringExecFns;

use crate::text::{decimal, pad_left, format_padded};

verus! {

/// The kinds of heightmaps a chunk keeps.
#[derive(Debug, Clone, Copy, PartialEq, Eq, Structural)]
pub enum ChunkHeightmapType {
    WorldSurface,
    MotionBlocking,
    MotionBlockingNoLeaves,
}

impl TryFrom<usize> for ChunkHeightmapType {
    type Error = &'static str;

    fn try_from(value: usize) -> (r: Result<Self, Self::Error>) {
        if value == 0 {
            Ok(Self::WorldSurface)
        } else if value == 1 {
            Ok(Self::MotionBlocking)
        } else if value == 2 {
            Ok(Self::MotionBlockingNoLeaves)
        } else {
            Err("Invalid usize value for ChunkHeightmapType. The value should be 0~2.")
        }
    }
}

impl vstd::std_specs::convert::TryFromSpecImpl<usize> for ChunkHeightmapType {
    open spec fn obeys_try_from_spec() -> bool {
        true
    }

    /// 0, 1 and 2 name the heightmaps in declaration order; anything else is refused.
    open spec fn try_from_spec(value: usize) -> Result<Self, &'static str> {
        if value == 0 {
            Ok(Self::WorldSurface)
        } else if value == 1 {
            Ok(Self::MotionBlocking)
        } else if value == 2 {
            Ok(Self::MotionBlockingNoLeaves)
        } else {
            Err("Invalid usize value for ChunkHeightmapType. The value should be 0~2.")
        }
    }
}

/// The three heightmaps of a chunk: 256 columns of 9-bit heights, packed 7 to a long from the
/// top bit down (the lowest bit of each long stays unused).
#[derive(Debug)]
pub struct ChunkHeightmaps {
    pub world_surface: Vec<i64>,
    pub motion_blocking: Vec<i64>,
    pub motion_blocking_no_leaves: Vec<i64>,
}

/// The index of the column of a block within its 16 * 16 chunk.
pub open spec fn column_index(x: i32, z: i32) -> int {
    (z & 15) as int * 16 + (x & 15) as int
}

/// How far a column's 9 bits are shifted up inside its long.
pub open spec fn slot_shift(column: int) -> int {
    55 - 9 * (column % 7)
}

/// The 9-bit field of a column in its long.
pub open spec fn stored_height(word: i64, column: int) -> u64 {
    ((word as u64) >> (slot_shift(column) as u64)) & 0x1ff
}

/// A long with the field of a column cleared and a height or-ed in at the column's shift
/// (bits of the height above its 9 bits reach into the neighbouring field).
pub open spec fn with_height(word: i64, column: int, height: u64) -> i64 {
    (word & !(0x1ffi64 << (slot_shift(column) as u64))) | ((height << (slot_shift(column) as u64)) as i64)
}

/// The absolute value of an `i32` other than `i32::MIN`.
pub open spec fn abs_spec(x: i32) -> int {
    if x < 0 {
        -x
    } else {
        x as int
    }
}

/// The absolute value, as `i32::abs` computes it; it overflows only on `i32::MIN`, which is
/// excluded.
fn abs_i32(x: i32) -> (r: i32)
    requires
        x != i32::MIN,
    ensures
        r == abs_spec(x),
{
    if x < 0 {
        -x
    } else {
        x
    }
}

/// The bit position of the column's field within its long, counted from the top (a multiple of 9).
proof fn lemma_bit_start(column: int)
    requires
        0 <= column < 256,
    ensures
        (column * 9) % 63 == 9 * (column % 7),
        (column * 9) % 63 <= 54,
        1 <= slot_shift(column) <= 55,
        slot_shift(column) == 64 - (column * 9) % 63 - 9,
        column / 7 <= 36,
{
    assert((column * 9) % 63 == 9 * (column % 7)) by (nonlinear_arith)
        requires 0 <= column < 256,
    {
        let q = column / 7;
        let r = column % 7;
        assert(column == 7 * q + r);
        assert(column * 9 == 63 * q + 9 * r);
        vstd::arithmetic::div_mod::lemma_fundamental_div_mod_converse(column * 9, 63, q, 9 * r);
    }
}

/// The header line of the logged grid: `Z/X` and the sixteen x coordinates.
pub open spec fn header_text(n: nat) -> Seq<char>
    decreases n,
{
    if n == 0 {
        "Z/X"@
    } else {
        header_text((n - 1) as nat) + pad_left(decimal(n - 1), 4)
    }
}

impl ChunkHeightmaps {
    /// The height `get` returns for block `(x, z)`.
    pub open spec fn spec_get(&self, heightmap: ChunkHeightmapType, x: i32, z: i32, min_y: i32) -> int {
        self.spec_stored(heightmap, x, z) - abs_spec(min_y)
    }

    /// Row `z` of the logged grid, up to column `n`.
    pub open spec fn row_text(&self, heightmap: ChunkHeightmapType, min_y: i32, z: int, n: nat) -> Seq<char>
        decreases n,
    {
        if n == 0 {
            pad_left(decimal(z), 3)
        } else {
            self.row_text(heightmap, min_y, z, (n - 1) as nat) + pad_left(
                decimal(self.spec_get(heightmap, (n - 1) as i32, z as i32, min_y)),
                4,
            )
        }
    }

    /// The first `n` rows of the logged grid, one per line.
    pub open spec fn grid_text(&self, heightmap: ChunkHeightmapType, min_y: i32, n: nat) -> Seq<char>
        decreases n,
    {
        if n == 0 {
            Seq::empty()
        } else if n == 1 {
            self.row_text(heightmap, min_y, 0, 16)
        } else {
            self.grid_text(heightmap, min_y, (n - 1) as nat) + "\n"@ + self.row_text(
                heightmap,
                min_y,
                n - 1,
                16,
            )
        }
    }

    /// The message that `log_heightmap` logs: the 16 * 16 heights of one heightmap as a grid.
    pub open spec fn heightmap_text(&self, heightmap: ChunkHeightmapType, min_y: i32) -> Seq<char> {
        "\nHeightMap:\n"@ + header_text(16) + "\n"@ + self.grid_text(heightmap, min_y, 16)
    }

    /// The longs of one heightmap.
    pub open spec fn spec_data(&self, heightmap: ChunkHeightmapType) -> Seq<i64> {
        match heightmap {
            ChunkHeightmapType::WorldSurface => self.world_surface@,
            ChunkHeightmapType::MotionBlocking => self.motion_blocking@,
            ChunkHeightmapType::MotionBlockingNoLeaves => self.motion_blocking_no_leaves@,
        }
    }

    /// The height stored for a column, before the offset of the world's bottom is removed.
    pub open spec fn spec_stored(&self, heightmap: ChunkHeightmapType, x: i32, z: i32) -> u64 {
        let column = column_index(x, z);
        stored_height(self.spec_data(heightmap)[column / 7], column)
    }
}

/// Reading a column's field after writing a 9-bit height into a long: the height at that
/// column, the old field at any other column of the long.
pub proof fn lemma_height_field(word: i64, column: int, height: u64, other: int)
    requires
        0 <= column < 256,
        0 <= other < 256,
        column / 7 == other / 7,
        height < 512,
    ensures
        stored_height(with_height(word, column, height), other) == if other == column {
            height
        } else {
            stored_height(word, other)
        },
{
    lemma_bit_start(column);
    lemma_bit_start(other);
    let s = slot_shift(column) as u64;
    let t = slot_shift(other) as u64;
    if other == column {
        assert(((((word & !(0x1ffi64 << s)) | ((height << s) as i64)) as u64) >> s) & 0x1ff == height)
            by (bit_vector)
            requires 1 <= s <= 55, height < 512;
    } else {
        assert(column % 7 != other % 7) by {
            assert(column == 7 * (column / 7) + column % 7);
            assert(other == 7 * (other / 7) + other % 7);
        }
        assert(s + 9 <= t || t + 9 <= s);
        assert(((((word & !(0x1ffi64 << s)) | ((height << s) as i64)) as u64) >> t) & 0x1ff == ((word as u64)
            >> t) & 0x1ff) by (bit_vector)
            requires 1 <= s <= 55, 1 <= t <= 55, s + 9 <= t || t + 9 <= s, height < 512;
    }
}

impl ChunkHeightmaps {
    /// Reading a height after setting one: for heights below 512 (what 9 bits hold) `get` gives
    /// back the height set in that column of that heightmap and what was there before
    /// everywhere else.
    pub proof fn lemma_get_after_set(
        before: ChunkHeightmaps,
        after: ChunkHeightmaps,
        heightmap: ChunkHeightmapType,
        pos: BlockPos,
        min_y: i32,
        read: ChunkHeightmapType,
        x: i32,
        z: i32,
    )
        requires
            0 <= pos.0.y + abs_spec(min_y) < 512,
            column_index(pos.0.x, pos.0.z) / 7 < before.spec_data(heightmap).len(),
            column_index(x, z) / 7 < before.spec_data(read).len(),
            after.spec_data(heightmap) == before.spec_data(heightmap).update(
                column_index(pos.0.x, pos.0.z) / 7,
                with_height(
                    before.spec_data(heightmap)[column_index(pos.0.x, pos.0.z) / 7],
                    column_index(pos.0.x, pos.0.z),
                    (pos.0.y + abs_spec(min_y)) as u64,
                ),
            ),
            forall|other: ChunkHeightmapType| other != heightmap ==> #[trigger] after.spec_data(other)
                == before.spec_data(other),
        ensures
            column_index(x, z) / 7 < after.spec_data(read).len(),
            after.spec_stored(read, x, z) == if read == heightmap && column_index(x, z) == column_index(
                pos.0.x,
                pos.0.z,
            ) {
                (pos.0.y + abs_spec(min_y)) as u64
            } else {
                before.spec_stored(read, x, z)
            },
    {
        let (px, pz, qx, qz) = (pos.0.x, pos.0.z, x, z);
        assert(0 <= px & 15 < 16) by (bit_vector);
        assert(0 <= pz & 15 < 16) by (bit_vector);
        assert(0 <= qx & 15 < 16) by (bit_vector);
        assert(0 <= qz & 15 < 16) by (bit_vector);
        let c = column_index(px, pz);
        let d = column_index(qx, qz);
        if read == heightmap && c / 7 == d / 7 {
            lemma_height_field(before.spec_data(heightmap)[c / 7], c, (pos.0.y + abs_spec(min_y)) as u64, d);
        } else if read != heightmap {
            assert(after.spec_data(read) == before.spec_data(read));
        }
    }

    /// Each block column of a chunk has a height of its own: after `set` for the block `pos`,
    /// reading any heightmap at a block `(x, z)` in another column of the chunk (another `x & 15`
    /// or `z & 15`), or any other heightmap, gives the height held before; reading the same
    /// heightmap in the same column gives `pos.y` back, for heights below 512 (what 9 bits hold).
    pub proof fn lemma_columns_independent(
        before: ChunkHeightmaps,
        after: ChunkHeightmaps,
        heightmap: ChunkHeightmapType,
        pos: BlockPos,
        min_y: i32,
        read: ChunkHeightmapType,
        x: i32,
        z: i32,
    )
        requires
            min_y != i32::MIN,
            0 <= pos.0.y + abs_spec(min_y) < 512,
            before.spec_data(heightmap).len() >= 37,
            before.spec_data(read).len() >= 37,
            after.spec_data(heightmap) == before.spec_data(heightmap).update(
                column_index(pos.0.x, pos.0.z) / 7,
                with_height(
                    before.spec_data(heightmap)[column_index(pos.0.x, pos.0.z) / 7],
                    column_index(pos.0.x, pos.0.z),
                    (pos.0.y + abs_spec(min_y)) as u64,
                ),
            ),
            forall|other: ChunkHeightmapType| other != heightmap ==> #[trigger] after.spec_data(other)
                == before.spec_data(other),
        ensures
            read == heightmap && x & 15 == pos.0.x & 15 && z & 15 == pos.0.z & 15 ==> after.spec_get(read, x, z, min_y)
                == pos.0.y,
            !(read == heightmap && x & 15 == pos.0.x & 15 && z & 15 == pos.0.z & 15) ==> after.spec_get(
                read,
                x,
                z,
                min_y,
            ) == before.spec_get(read, x, z, min_y),
    {
        let (px, pz, qx, qz) = (pos.0.x, pos.0.z, x, z);
        assert(0 <= px & 15 < 16) by (bit_vector);
        assert(0 <= pz & 15 < 16) by (bit_vector);
        assert(0 <= qx & 15 < 16) by (bit_vector);
        assert(0 <= qz & 15 < 16) by (bit_vector);
        Self::lemma_get_after_set(before, after, heightmap, pos, min_y, read, x, z);
    }

    /// Sets the height of the column of `pos`: `pos.y` raised by `|min_y|`, written into that
    /// column's 9 bits of the chosen heightmap.
    pub fn set(&mut self, heightmap: ChunkHeightmapType, pos: BlockPos, min_y: i32)
        requires
            min_y != i32::MIN,
            0 <= pos.0.y + abs_spec(min_y) <= 2 << 9,
            column_index(pos.0.x, pos.0.z) / 7 < old(self).spec_data(heightmap).len(),
        ensures
            final(self).spec_data(heightmap) == old(self).spec_data(heightmap).update(
                column_index(pos.0.x, pos.0.z) / 7,
                with_height(
                    old(self).spec_data(heightmap)[column_index(pos.0.x, pos.0.z) / 7],
                    column_index(pos.0.x, pos.0.z),
                    (pos.0.y + abs_spec(min_y)) as u64,
                ),
            ),
            forall|other: ChunkHeightmapType| other != heightmap ==> #[trigger] final(self).spec_data(other)
                == old(self).spec_data(other),
    {
        let px = pos.0.x;
        let pz = pos.0.z;
        let local_x = (px & 15) as usize;
        let local_z = (pz & 15) as usize;
        proof {
            assert(0 <= px & 15 < 16) by (bit_vector);
            assert(0 <= pz & 15 < 16) by (bit_vector);
        }

        let adjust_height = (pos.0.y + abs_i32(min_y)) as u64;

        // The column index in the 16 * 16 chunk.
        let column_idx = local_z * 16 + local_x;
        proof {
            lemma_bit_start(column_idx as int);
        }

        // Each height uses 9 bits: where they start in the packed array.
        let bit_start_idx = column_idx * 9;

        // Where those 9 bits start within their long. Taking the start modulo 63 leaves the last
        // bit of each long unused, but no height ever spans two longs.
        let packed_array_bit_start_idx = bit_start_idx as u32 % 63;

        let mask: i64 = if packed_array_bit_start_idx == 0 {
            //0b0000_0000_0111_1111_...
            !(0x1FF << (64 - 9))
        } else {
            !(0x1FF << (64 - packed_array_bit_start_idx - 9))
        };

        let height = adjust_height.wrapping_shl(64 - 9 - packed_array_bit_start_idx) as i64;

        let packed_array_idx = column_idx / 7;

        match heightmap {
            ChunkHeightmapType::WorldSurface => {
                let word = self.world_surface[packed_array_idx];
                self.world_surface.set(packed_array_idx, (word & mask) | height);
            },
            ChunkHeightmapType::MotionBlocking => {
                let word = self.motion_blocking[packed_array_idx];
                self.motion_blocking.set(packed_array_idx, (word & mask) | height);
            },
            ChunkHeightmapType::MotionBlockingNoLeaves => {
                let word = self.motion_blocking_no_leaves[packed_array_idx];
                self.motion_blocking_no_leaves.set(packed_array_idx, (word & mask) | height);
            },
        }
    }

    /// The message that shows one heightmap as a 16 * 16 grid of heights, as it is logged.
    pub fn log_heightmap(&self, _type: ChunkHeightmapType, min_y: i32) -> (r: String)
        requires
            min_y != i32::MIN,
            self.spec_data(_type).len() >= 37,
        ensures
            r@ == self.heightmap_text(_type, min_y),
    {
        let mut header = "Z/X".to_owned();
        let mut x: i32 = 0;
        while x < 16
            invariant
                0 <= x <= 16,
                header@ == header_text(x as nat),
            decreases 16 - x,
        {
            let cell = format_padded(x, 4);
            header.append(cell.as_str());
            x += 1;
        }

        let mut grid = String::new();
        let mut z: i32 = 0;
        while z < 16
            invariant
                0 <= z <= 16,
                min_y != i32::MIN,
                self.spec_data(_type).len() >= 37,
                grid@ == self.grid_text(_type, min_y, z as nat),
            decreases 16 - z,
        {
            let mut row = format_padded(z, 3);
            let mut x: i32 = 0;
            while x < 16
                invariant
                    0 <= x <= 16,
                    0 <= z < 16,
                    min_y != i32::MIN,
                    self.spec_data(_type).len() >= 37,
                    row@ == self.row_text(_type, min_y, z as int, x as nat),
                decreases 16 - x,
            {
                proof {
                    let (a, b) = (x, z);
                    assert(a & 15 == a) by (bit_vector)
                        requires 0 <= a < 16;
                    assert(b & 15 == b) by (bit_vector)
                        requires 0 <= b < 16;
                }
                let cell = format_padded(self.get(_type, x, z, min_y), 4);
                row.append(cell.as_str());
                x += 1;
            }
            if z > 0 {
                grid.append("\n");
            }
            grid.append(row.as_str());
            z += 1;
        }

        let mut text = "\nHeightMap:\n".to_owned();
        text.append(header.as_str());
        text.append("\n");
        text.append(grid.as_str());
        text
    }

    /// The height of the column of block `(x, z)` in the chosen heightmap, lowered by `|min_y|`.
    pub fn get(&self, heightmap: ChunkHeightmapType, x: i32, z: i32, min_y: i32) -> (r: i32)
        requires
            min_y != i32::MIN,
            column_index(x, z) / 7 < self.spec_data(heightmap).len(),
        ensures
            r == self.spec_get(heightmap, x, z, min_y),
    {
        let local_x = (x & 15) as usize;
        let local_z = (z & 15) as usize;
        proof {
            assert(0 <= x & 15 < 16) by (bit_vector);
            assert(0 <= z & 15 < 16) by (bit_vector);
        }

        let column_idx = local_z * 16 + local_x;
        proof {
            lemma_bit_start(column_idx as int);
        }
        let bit_start_idx = column_idx * 9;

        let packed_array_bit_start_idx = bit_start_idx as u32 % 63;

        let mask: i64 = if packed_array_bit_start_idx == 0 {
            //0b1111_1111_1000_0000_...
            0x1ff << (64 - 9)
        } else {
            0x1ff << (64 - packed_array_bit_start_idx - 9)
        };

        let packed_array_idx = column_idx / 7;

        let word = match heightmap {
            ChunkHeightmapType::WorldSurface => self.world_surface[packed_array_idx],
            ChunkHeightmapType::MotionBlocking => self.motion_blocking[packed_array_idx],
            ChunkHeightmapType::MotionBlockingNoLeaves => self.motion_blocking_no_leaves[packed_array_idx],
        };
        let height_bits = (word & mask) as u64;
        let shift = 64 - (packed_array_bit_start_idx + 9);
        proof {
            let s = shift;
            assert(((word & (0x1ffi64 << s)) as u64) >> s == ((word as u64) >> s) & 0x1ff) by (bit_vector)
                requires 1 <= s <= 55;
            assert(((word as u64) >> s) & 0x1ff <= 0x1ff) by (bit_vector);
        }

        (height_bits.wrapping_shr(shift) as i32) - abs_i32(min_y)
    }
}

/// The heightmaps of a completely empty chunk: every height zero.
impl Default for ChunkHeightmaps {
    fn default() -> (r: Self)
        ensures
            r.world_surface@ == Seq::new(37, |i: int| 0i64),
            r.motion_blocking@ == Seq::new(37, |i: int| 0i64),
            r.motion_blocking_no_leaves@ == Seq::new(37, |i: int| 0i64),
    {
        // 9 bits per entry: 0 packed into an i64 7 times.
        Self {
            motion_blocking: zeroed_heights(),
            motion_blocking_no_leaves: zeroed_heights(),
            world_surface: zeroed_heights(),
        }
    }
}

impl Clone for ChunkHeightmaps {
    /// A copy of all three heightmaps.
    fn clone(&self) -> (r: Self)
        ensures
            r.world_surface@ == self.world_surface@,
            r.motion_blocking@ == self.motion_blocking@,
            r.motion_blocking_no_leaves@ == self.motion_blocking_no_leaves@,
    {
        ChunkHeightmaps {
            world_surface: copy_longs(&self.world_surface),
            motion_blocking: copy_longs(&self.motion_blocking),
            motion_blocking_no_leaves: copy_longs(&self.motion_blocking_no_leaves),
        }
    }
}

/// A copy of a heightmap's longs.
fn copy_longs(data: &Vec<i64>) -> (r: Vec<i64>)
    ensures
        r@ == data@,
{
    let mut r: Vec<i64> = Vec::new();
    let mut k: usize = 0;
    while k < data.len()
        invariant
            k <= data@.len(),
            r@ =~= data@.take(k as int),
        decreases data@.len() - k,
    {
        r.push(data[k]);
        k += 1;
    }
    proof {
        assert(r@ =~= data@);
    }
    r
}

/// 37 zero longs: room for 256 heights of 9 bits, 7 per long.
fn zeroed_heights() -> (r: Vec<i64>)
    ensures
        r@ == Seq::new(37, |i: int| 0i64),
{
    let mut r: Vec<i64> = Vec::new();
    let mut k: usize = 0;
    while k < 37
        invariant
            k <= 37,
            r@ =~= Seq::new(k as nat, |i: int| 0i64),
        decreases 37 - k,
    {
        r.push(0);
        k += 1;
    }
    r
}

} // verus!
