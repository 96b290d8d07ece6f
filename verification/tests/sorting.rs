use gamecube_tools::reloc::{sort_relocations, ElfRelocation};

fn r(dest_module: u32, src_section: u32, src_offset: u32, addend: u32) -> ElfRelocation {
    ElfRelocation { src_section, src_offset, dest_module, dest_section: 1, addend, rtype: 1 }
}

#[test]
fn sorts_by_module_section_offset() {
    let mut v = vec![r(2, 1, 0, 0), r(0, 2, 8, 1), r(0, 1, 4, 2), r(0, 1, 0, 3), r(1, 0, 0, 4)];
    sort_relocations(&mut v);
    let keys: Vec<(u32, u32, u32)> =
        v.iter().map(|x| (x.dest_module, x.src_section, x.src_offset)).collect();
    assert_eq!(keys, vec![(0, 1, 0), (0, 1, 4), (0, 2, 8), (1, 0, 0), (2, 1, 0)]);
}

#[test]
fn sorting_twice_changes_nothing() {
    let mut v = vec![r(5, 0, 0, 0), r(0, 0, 0x10, 1), r(0, 3, 0, 2), r(5, 0, 4, 3)];
    sort_relocations(&mut v);
    let once = v.clone();
    sort_relocations(&mut v);
    assert_eq!(v, once);
}

#[test]
fn equal_keys_keep_arrival_order() {
    // two records with the same (module, section, offset) key but
    // different addends: the stable sort must not swap them
    let mut v = vec![r(1, 1, 0, 0xAAAA), r(0, 0, 0, 1), r(1, 1, 0, 0xBBBB)];
    sort_relocations(&mut v);
    assert_eq!(v[0].addend, 1);
    assert_eq!(v[1].addend, 0xAAAA);
    assert_eq!(v[2].addend, 0xBBBB);
}
