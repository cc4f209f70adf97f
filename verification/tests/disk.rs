use pumpkin_world::chunk::format::{ChunkSectionBiomes, ChunkSectionBlockStates, PaletteBiomeEntry};
use pumpkin_world::chunk::palette::{BiomeSectionData, BlockSectionData, PalettedContainer};
use pumpkin_world::math::Vector3;

fn pos(x: u8, y: u8, z: u8) -> Vector3<u8> {
    Vector3 { x, y, z }
}

/// 4096 block indices of `bits` bits each, packed from the low bits of each long up, as many
/// to a long as fit whole.
fn pack(indices: &[u64], bits: u32) -> Vec<i64> {
    let per_long = (64 / bits) as usize;
    let mut longs = vec![0u64; (indices.len() + per_long - 1) / per_long];
    for (k, v) in indices.iter().enumerate() {
        longs[k / per_long] |= v << ((k % per_long) as u32 * bits);
    }
    longs.into_iter().map(|l| l as i64).collect()
}

#[test]
fn empty_and_single_palettes_are_uniform() {
    let c = BlockSectionData::from_palette_and_packed_data(vec![], &[]);
    assert!(matches!(c, PalettedContainer::Uniform(0)));
    let c = BlockSectionData::from_palette_and_packed_data(vec![9], &[]);
    assert!(matches!(c, PalettedContainer::Uniform(9)));
    assert_eq!(c.get_value(pos(15, 15, 15)), 9);
}

#[test]
fn indirect_palette_reads_packed_indices() {
    let mut indices = vec![0u64; 4096];
    indices[1] = 1;
    indices[4095] = 1;
    let packed = pack(&indices, 4);
    assert_eq!(packed.len(), 256);
    assert_eq!(packed[0], 16);
    let c = BlockSectionData::from_palette_and_packed_data(vec![0, 5], &packed);
    assert!(matches!(c, PalettedContainer::Indirect { bit_width: 4, .. }));
    assert_eq!(c.get_value(pos(1, 0, 0)), 5);
    assert_eq!(c.get_value(pos(15, 15, 15)), 5);
    assert_eq!(c.get_value(pos(0, 0, 0)), 0);
    assert_eq!(c.get_value(pos(2, 0, 0)), 0);
    if let PalettedContainer::Indirect { ref_counts, .. } = &c {
        assert_eq!(ref_counts, &vec![4094u16, 2]);
    }
    assert_eq!(c.count_non_air(&|b: u16| b == 0), 2);
}

#[test]
fn block_states_disk_roundtrip() {
    let mut indices = vec![0u64; 4096];
    for k in 0..4096 {
        indices[k] = (k % 3) as u64;
    }
    let packed = pack(&indices, 4);
    let nbt = ChunkSectionBlockStates { data: Some(packed.clone()), palette: vec![1, 20, 300] };
    let c = BlockSectionData::from_disk_nbt(nbt);
    assert_eq!(c.get_value(pos(0, 0, 0)), 1);
    assert_eq!(c.get_value(pos(1, 0, 0)), 20);
    assert_eq!(c.get_value(pos(2, 0, 0)), 300);
    let back = c.to_disk_nbt();
    assert_eq!(back.palette, vec![1, 20, 300]);
    assert_eq!(back.data, Some(packed));
}

#[test]
fn uniform_block_states_store_no_data() {
    let c = BlockSectionData::default();
    let nbt = c.to_disk_nbt();
    assert_eq!(nbt.palette, vec![0]);
    assert_eq!(nbt.data, None);
}

#[test]
fn direct_block_states_roundtrip() {
    // 257 distinct states need more than eight bits: the container stores values directly,
    // and on disk each index takes nine bits.
    let palette: Vec<u16> = (0..257).collect();
    let indices: Vec<u64> = (0..4096).map(|k| (k % 257) as u64).collect();
    let packed = pack(&indices, 9);
    let c = BlockSectionData::from_palette_and_packed_data(palette.clone(), &packed);
    assert!(matches!(c, PalettedContainer::Direct { .. }));
    assert_eq!(c.get_value(pos(0, 0, 0)), 0);
    assert_eq!(c.get_value(pos(0, 1, 0)), 256 % 257);
    assert_eq!(c.get_value(pos(1, 1, 0)), 0);
    let back = c.to_disk_nbt();
    assert_eq!(back.palette, palette);
    assert_eq!(back.data, Some(packed));
}

#[test]
fn set_value_through_every_layout() {
    let mut c = BlockSectionData::default();
    // Uniform, then indirect, growing the bits per entry, then direct.
    for v in 1..300u16 {
        let x = (v % 16) as u8;
        let z = ((v / 16) % 16) as u8;
        let y = (v / 256) as u8;
        assert_eq!(c.set_value(pos(x, y, z), v), 0);
    }
    assert!(matches!(c, PalettedContainer::Direct { .. }));
    for v in 1..300u16 {
        let x = (v % 16) as u8;
        let z = ((v / 16) % 16) as u8;
        let y = (v / 256) as u8;
        assert_eq!(c.get_value(pos(x, y, z)), v);
    }
    assert_eq!(c.get_value(pos(0, 0, 0)), 0);
    assert_eq!(c.get_value(pos(5, 9, 5)), 0);
}

#[test]
fn indirect_grows_past_sixteen_values() {
    // The seventeenth distinct value needs five bits per entry.
    let mut c = BlockSectionData::default();
    for v in 1..17u16 {
        c.set_value(pos(v as u8 - 1, 0, 0), v);
    }
    assert!(matches!(c, PalettedContainer::Indirect { bit_width: 5, .. }));
    for v in 1..17u16 {
        assert_eq!(c.get_value(pos(v as u8 - 1, 0, 0)), v);
    }
    assert_eq!(c.get_value(pos(0, 1, 0)), 0);
}

#[test]
fn set_value_back_to_uniform_value() {
    let mut c = BlockSectionData::default();
    c.set_value(pos(3, 3, 3), 8);
    assert_eq!(c.set_value(pos(3, 3, 3), 0), 8);
    assert_eq!(c.get_value(pos(3, 3, 3)), 0);
    let mut u = BlockSectionData::default();
    assert_eq!(u.set_value(pos(1, 1, 1), 0), 0);
    assert!(matches!(u, PalettedContainer::Uniform(0)));
}

#[test]
fn biomes_disk_roundtrip_by_name() {
    let names = ["plains", "desert", "forest"];
    let id_of = |name: &String| names.iter().position(|n| n == name).unwrap() as u8;
    let name_of = |id: u8| names[id as usize].to_string();
    let indices: Vec<u64> = (0..64).map(|k| (k % 3) as u64).collect();
    let packed = pack(&indices, 2);
    let nbt = ChunkSectionBiomes {
        data: Some(packed.clone()),
        palette: names.iter().map(|n| PaletteBiomeEntry { name: n.to_string() }).collect(),
    };
    let c = BiomeSectionData::from_disk_nbt(nbt, id_of);
    assert_eq!(c.get_value(pos(0, 0, 0)), 0);
    assert_eq!(c.get_value(pos(1, 0, 0)), 1);
    assert_eq!(c.get_value(pos(2, 0, 0)), 2);
    let back = c.to_disk_nbt(name_of);
    let back_names: Vec<String> = back.palette.iter().map(|e| e.name.clone()).collect();
    assert_eq!(back_names, vec!["plains", "desert", "forest"]);
    assert_eq!(back.data, Some(packed));
}

#[test]
fn empty_stored_palette_loads_uniform() {
    let c = BlockSectionData::from_disk_nbt(ChunkSectionBlockStates { data: None, palette: vec![] });
    assert!(matches!(c, PalettedContainer::Uniform(0)));
}

#[test]
fn stored_layout_comes_back() {
    let mut c = BlockSectionData::default();
    for v in 1..20u16 {
        c.set_value(pos(v as u8 % 16, v as u8 / 16, 3), v);
    }
    let loaded = BlockSectionData::from_disk_nbt(c.to_disk_nbt());
    match (&c, &loaded) {
        (
            PalettedContainer::Indirect { palette: p1, data: d1, bit_width: w1, ref_counts: r1 },
            PalettedContainer::Indirect { palette: p2, data: d2, bit_width: w2, ref_counts: r2 },
        ) => {
            assert_eq!(p1, p2);
            assert_eq!(d1, d2);
            assert_eq!(w1, w2);
            assert_eq!(r1, r2);
        },
        _ => panic!("both indirect"),
    }
}
