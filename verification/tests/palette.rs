use pumpkin_world::chunk::palette::value::{PaletteConfig, PaletteValue};
use pumpkin_world::chunk::palette::{BiomeSectionData, BlockSectionData, PalettedContainer};
use pumpkin_world::math::Vector3;

fn pos(x: u8, y: u8, z: u8) -> Vector3<u8> {
    Vector3 { x, y, z }
}

#[test]
fn default_container_is_uniform_default() {
    let c = BlockSectionData::default();
    assert!(matches!(c, PalettedContainer::Uniform(0)));
    assert_eq!(c.get_value(pos(3, 4, 5)), 0);
}

#[test]
fn dimension_of_sections() {
    assert_eq!(BlockSectionData::dimension(), 16);
    assert_eq!(BiomeSectionData::dimension(), 4);
}

#[test]
fn block_palette_configs() {
    assert_eq!(<u16 as PaletteValue>::get_palette_config(0), PaletteConfig::Uniform);
    assert_eq!(<u16 as PaletteValue>::get_palette_config(1), PaletteConfig::Uniform);
    assert_eq!(<u16 as PaletteValue>::get_palette_config(2), PaletteConfig::Indirect { bits_per_entry: 4 });
    assert_eq!(<u16 as PaletteValue>::get_palette_config(16), PaletteConfig::Indirect { bits_per_entry: 4 });
    assert_eq!(<u16 as PaletteValue>::get_palette_config(17), PaletteConfig::Indirect { bits_per_entry: 5 });
    assert_eq!(<u16 as PaletteValue>::get_palette_config(256), PaletteConfig::Indirect { bits_per_entry: 8 });
    assert_eq!(<u16 as PaletteValue>::get_palette_config(257), PaletteConfig::Direct);
}

#[test]
fn biome_palette_configs() {
    assert_eq!(<u8 as PaletteValue>::get_palette_config(1), PaletteConfig::Uniform);
    assert_eq!(<u8 as PaletteValue>::get_palette_config(2), PaletteConfig::Indirect { bits_per_entry: 1 });
    assert_eq!(<u8 as PaletteValue>::get_palette_config(4), PaletteConfig::Indirect { bits_per_entry: 2 });
    assert_eq!(<u8 as PaletteValue>::get_palette_config(8), PaletteConfig::Indirect { bits_per_entry: 3 });
    assert_eq!(<u8 as PaletteValue>::get_palette_config(9), PaletteConfig::Direct);
}

#[test]
fn set_then_get_on_uniform() {
    let mut c = BlockSectionData::default();
    let old = c.set_value(pos(1, 2, 3), 7);
    assert_eq!(old, 0);
    assert_eq!(c.get_value(pos(1, 2, 3)), 7);
    assert_eq!(c.get_value(pos(0, 0, 0)), 0);
    assert!(matches!(c, PalettedContainer::Indirect { bit_width: 4, .. }));
}

#[test]
fn uniform_takes_a_palette_of_two() {
    let mut c = BlockSectionData::Uniform(0);
    assert_eq!(c.set_value(pos(1, 0, 0), 9), 0);
    match &c {
        PalettedContainer::Indirect { palette, data, bit_width, ref_counts } => {
            assert_eq!(palette, &vec![0, 9]);
            assert_eq!(*bit_width, 4);
            assert_eq!(ref_counts, &vec![4095, 1]);
            assert_eq!(data.len(), 256);
            assert_eq!(data[0], 0x10);
            assert!(data[1..].iter().all(|l| *l == 0));
        },
        _ => panic!("indirect"),
    }
    assert_eq!(c.get_value(pos(1, 0, 0)), 9);
    assert_eq!(c.get_value(pos(0, 0, 0)), 0);
}

#[test]
fn writing_the_held_value_changes_nothing() {
    let mut c = BlockSectionData::default();
    c.set_value(pos(1, 0, 0), 9);
    c.set_value(pos(2, 0, 0), 8);
    let (p0, d0, r0) = match &c {
        PalettedContainer::Indirect { palette, data, ref_counts, .. } => (palette.clone(), data.clone(), ref_counts.clone()),
        _ => panic!("indirect"),
    };
    assert_eq!(c.set_value(pos(1, 0, 0), 9), 9);
    match &c {
        PalettedContainer::Indirect { palette, data, ref_counts, .. } => {
            assert_eq!(palette, &p0);
            assert_eq!(data, &d0);
            assert_eq!(ref_counts, &r0);
        },
        _ => panic!("indirect"),
    }
}

#[test]
fn full_palette_reuses_a_freed_slot() {
    // 256 distinct values: 0 and 1..=255, each of the latter held once.
    let mut c = BlockSectionData::default();
    for v in 1..256u16 {
        c.set_value(pos((v % 16) as u8, 0, (v / 16) as u8), v);
    }
    assert!(matches!(c, PalettedContainer::Indirect { bit_width: 8, .. }));
    // Value 1 is held only at (1, 0, 0): a new value takes its slot.
    assert_eq!(c.set_value(pos(1, 0, 0), 1000), 1);
    match &c {
        PalettedContainer::Indirect { palette, bit_width, .. } => {
            assert_eq!(*bit_width, 8);
            assert_eq!(palette.len(), 256);
            assert_eq!(palette[1], 1000);
        },
        _ => panic!("stays indirect"),
    }
    assert_eq!(c.get_value(pos(1, 0, 0)), 1000);
    assert_eq!(c.get_value(pos(2, 0, 0)), 2);
    // A new value where the old one is held elsewhere too needs a direct layout.
    assert_eq!(c.set_value(pos(0, 5, 0), 2000), 0);
    assert!(matches!(c, PalettedContainer::Direct { .. }));
    assert_eq!(c.get_value(pos(0, 5, 0)), 2000);
}

#[test]
fn direct_biomes_become_indirect() {
    let data: Vec<u8> = (0..64).map(|i| if i < 9 { i as u8 } else { 0 }).collect();
    let mut c = BiomeSectionData::Direct { data };
    // Value 8 is held only at index 8: x 0, y 0, z 2.
    assert_eq!(c.set_value(pos(0, 0, 2), 0), 8);
    match &c {
        PalettedContainer::Indirect { palette, data, bit_width, ref_counts } => {
            assert_eq!(*bit_width, 3);
            assert_eq!(palette.len(), 8);
            assert_eq!(data.len(), 4);
            for (k, v) in palette.iter().enumerate() {
                assert_eq!(ref_counts[k], if *v == 0 { 57 } else { 1 });
            }
        },
        _ => panic!("indirect"),
    }
    assert_eq!(c.get_value(pos(0, 0, 2)), 0);
    assert_eq!(c.get_value(pos(3, 0, 1)), 7);
}
