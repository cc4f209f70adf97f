//! The kinds of values a paletted container can hold, and how many bits each palette size needs.
use vstd::prelude::*;
use vstd::arithmetic::power2::{pow2, lemma2_to64};
use crate::chunk::palette::packing::bit_length;

verus! {

/// How a container stores its values for a given number of distinct values.
#[derive(Debug, Clone, Copy, PartialEq, Eq, Structural)]
pub enum PaletteConfig {
    Uniform,
    Indirect { bits_per_entry: u8 },
    Direct,
}

/// A value that a paletted container can store.
pub trait PaletteValue: Copy + Sized + std::hash::Hash + Eq {
    /// The number of bits of the value's own encoding.
    spec fn spec_max_bits() -> nat;

    /// The largest number of distinct values held through a palette.
    spec fn spec_max_unique() -> nat;

    /// The storage layout for `unique_count` distinct values.
    spec fn spec_palette_config(unique_count: nat) -> PaletteConfig;

    /// The value a fresh container holds everywhere.
    spec fn spec_default() -> Self;

    fn max_bits() -> (r: u8)
        ensures
            r == Self::spec_max_bits(),
    ;

    fn max_unique() -> (r: usize)
        ensures
            r == Self::spec_max_unique(),
    ;

    fn get_palette_config(unique_count: usize) -> (r: PaletteConfig)
        ensures
            r == Self::spec_palette_config(unique_count as nat),
    ;

    fn default_value() -> (r: Self)
        ensures
            r == Self::spec_default(),
    ;

    fn same_value(&self, other: &Self) -> (r: bool)
        ensures
            r == (*self == *other),
    ;

    /// Values can key hash tables: equal values hash alike and compare equal.
    proof fn lemma_key_model()
        ensures
            vstd::std_specs::hash::obeys_key_model::<Self>(),
    ;

    /// The shape of the layout table: one value is uniform, too many are direct, and an
    /// indirect layout has enough bits for every palette index.
    proof fn lemma_palette_config(unique_count: nat)
        ensures
            3 <= Self::spec_max_unique() <= 4096,
            unique_count <= 1 <==> Self::spec_palette_config(unique_count) is Uniform,
            unique_count > Self::spec_max_unique() <==> Self::spec_palette_config(unique_count) is Direct,
            Self::spec_palette_config(unique_count) matches PaletteConfig::Indirect { bits_per_entry } ==> 1
                <= bits_per_entry <= 16 && unique_count <= pow2(bits_per_entry as nat),
            Self::spec_palette_config(Self::spec_max_unique()) == (PaletteConfig::Indirect {
                bits_per_entry: bit_length((Self::spec_max_unique() - 1) as nat) as u8,
            }),
    ;
}

/// Block states: indirect palettes of 4 to 8 bits, direct storage beyond 256 states.
impl PaletteValue for u16 {
    open spec fn spec_max_bits() -> nat {
        16
    }

    open spec fn spec_max_unique() -> nat {
        256
    }

    open spec fn spec_palette_config(unique_count: nat) -> PaletteConfig {
        if unique_count <= 1 {
            PaletteConfig::Uniform
        } else if unique_count <= 16 {
            PaletteConfig::Indirect { bits_per_entry: 4 }
        } else if unique_count <= 32 {
            PaletteConfig::Indirect { bits_per_entry: 5 }
        } else if unique_count <= 64 {
            PaletteConfig::Indirect { bits_per_entry: 6 }
        } else if unique_count <= 128 {
            PaletteConfig::Indirect { bits_per_entry: 7 }
        } else if unique_count <= 256 {
            PaletteConfig::Indirect { bits_per_entry: 8 }
        } else {
            PaletteConfig::Direct
        }
    }

    open spec fn spec_default() -> u16 {
        0
    }

    fn max_bits() -> (r: u8) {
        16
    }

    fn max_unique() -> (r: usize) {
        256
    }

    fn get_palette_config(unique_count: usize) -> (r: PaletteConfig) {
        if unique_count <= 1 {
            PaletteConfig::Uniform
        } else if unique_count <= 16 {
            // Indirect: 4-8 bits (the protocol has no 1-3 bit block palettes)
            PaletteConfig::Indirect { bits_per_entry: 4 }
        } else if unique_count <= 32 {
            PaletteConfig::Indirect { bits_per_entry: 5 }
        } else if unique_count <= 64 {
            PaletteConfig::Indirect { bits_per_entry: 6 }
        } else if unique_count <= 128 {
            PaletteConfig::Indirect { bits_per_entry: 7 }
        } else if unique_count <= 256 {
            PaletteConfig::Indirect { bits_per_entry: 8 }
        } else {
            // Direct: the full 16 bits
            PaletteConfig::Direct
        }
    }

    fn default_value() -> (r: u16) {
        0
    }

    fn same_value(&self, other: &u16) -> (r: bool) {
        *self == *other
    }

    proof fn lemma_key_model() {
        broadcast use vstd::std_specs::hash::group_hash_axioms;
    }

    proof fn lemma_palette_config(unique_count: nat) {
        lemma2_to64();
        reveal_with_fuel(bit_length, 9);
    }
}

/// Biomes: indirect palettes of 1 to 3 bits, direct storage beyond 8 biomes.
impl PaletteValue for u8 {
    open spec fn spec_max_bits() -> nat {
        8
    }

    open spec fn spec_max_unique() -> nat {
        8
    }

    open spec fn spec_palette_config(unique_count: nat) -> PaletteConfig {
        if unique_count <= 1 {
            PaletteConfig::Uniform
        } else if unique_count == 2 {
            PaletteConfig::Indirect { bits_per_entry: 1 }
        } else if unique_count <= 4 {
            PaletteConfig::Indirect { bits_per_entry: 2 }
        } else if unique_count <= 8 {
            PaletteConfig::Indirect { bits_per_entry: 3 }
        } else {
            PaletteConfig::Direct
        }
    }

    open spec fn spec_default() -> u8 {
        0
    }

    fn max_bits() -> (r: u8) {
        8
    }

    fn max_unique() -> (r: usize) {
        8
    }

    fn get_palette_config(unique_count: usize) -> (r: PaletteConfig) {
        if unique_count <= 1 {
            PaletteConfig::Uniform
        } else if unique_count == 2 {
            // Indirect: 1-3 bits for biomes
            PaletteConfig::Indirect { bits_per_entry: 1 }
        } else if unique_count <= 4 {
            PaletteConfig::Indirect { bits_per_entry: 2 }
        } else if unique_count <= 8 {
            PaletteConfig::Indirect { bits_per_entry: 3 }
        } else {
            // Direct: the full 8 bits
            PaletteConfig::Direct
        }
    }

    fn default_value() -> (r: u8) {
        0
    }

    fn same_value(&self, other: &u8) -> (r: bool) {
        *self == *other
    }

    proof fn lemma_key_model() {
        broadcast use vstd::std_specs::hash::group_hash_axioms;
    }

    proof fn lemma_palette_config(unique_count: nat) {
        lemma2_to64();
        reveal_with_fuel(bit_length, 4);
    }
}

/// Block states take the fewest bits, at least four, that index their palette: a palette of 2 to
/// 256 states is held indirectly with `b` bits where `n <= 2^b`, and either `b` is 4 or
/// `2^(b-1) < n`; more states are held directly, and one state (or none) uniformly.
pub proof fn lemma_block_palette_bits(n: nat)
    ensures
        n <= 1 ==> <u16 as PaletteValue>::spec_palette_config(n) is Uniform,
        n > 256 ==> <u16 as PaletteValue>::spec_palette_config(n) is Direct,
        2 <= n <= 256 ==> (<u16 as PaletteValue>::spec_palette_config(n) matches PaletteConfig::Indirect {
            bits_per_entry: b,
        } && 4 <= b && n <= pow2(b as nat) && (b == 4 || pow2((b - 1) as nat) < n)),
{
    lemma2_to64();
}

/// Biomes take the fewest bits, at least one, that index their palette: a palette of 2 to 8
/// biomes is held indirectly with `b` bits where `n <= 2^b`, and either `b` is 1 or
/// `2^(b-1) < n`; more biomes are held directly, and one biome (or none) uniformly.
pub proof fn lemma_biome_palette_bits(n: nat)
    ensures
        n <= 1 ==> <u8 as PaletteValue>::spec_palette_config(n) is Uniform,
        n > 8 ==> <u8 as PaletteValue>::spec_palette_config(n) is Direct,
        2 <= n <= 8 ==> (<u8 as PaletteValue>::spec_palette_config(n) matches PaletteConfig::Indirect {
            bits_per_entry: b,
        } && 1 <= b && n <= pow2(b as nat) && (b == 1 || pow2((b - 1) as nat) < n)),
{
    lemma2_to64();
}

} // verus!
