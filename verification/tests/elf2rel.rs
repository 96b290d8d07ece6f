use gamecube_tools::elf2rel::{elf2rel, RelVersion};
use gamecube_tools::errors::Elf2RelError;

// ---- helpers: build tiny big-endian PowerPC ELF objects ----

struct TSec {
    name: &'static str,
    sh_type: u32,
    flags: u32,
    align: u32,
    data: Vec<u8>,
    size: u32,
    relas: Vec<(u32, u32, u8, u32)>,
}

struct TSym {
    name: &'static str,
    shndx: u16,
    value: u32,
}

fn prog(name: &'static str, flags: u32, align: u32, data: Vec<u8>) -> TSec {
    let n: u32 = data.len() as u32;
    TSec { name, sh_type: 1, flags, align, data, size: n, relas: vec![] }
}

fn wb16(v: &mut Vec<u8>, x: u16) {
    v.push((x >> 8) as u8);
    v.push(x as u8);
}

fn wb32(v: &mut Vec<u8>, x: u32) {
    v.push((x >> 24) as u8);
    v.push((x >> 16) as u8);
    v.push((x >> 8) as u8);
    v.push(x as u8);
}

fn ru16(b: &[u8], off: usize) -> u16 {
    ((b[off] as u16) << 8) | b[off + 1] as u16
}

fn ru32(b: &[u8], off: usize) -> u32 {
    ((b[off] as u32) << 24) | ((b[off + 1] as u32) << 16) | ((b[off + 2] as u32) << 8) | b[off
        + 3] as u32
}

fn build_elf(user: Vec<TSec>, syms: Vec<TSym>) -> Vec<u8> {
    let n: usize = user.len();
    let mut names: Vec<String> = vec![String::new()];
    for s in &user {
        names.push(s.name.to_string());
    }
    let mut rela_of: Vec<Option<usize>> = vec![None; n];
    let mut idx: usize = 1 + n;
    for (i, s) in user.iter().enumerate() {
        if !s.relas.is_empty() {
            rela_of[i] = Some(idx);
            idx += 1;
            names.push(format!(".rela{}", s.name));
        }
    }
    let symtab_idx: usize = idx;
    names.push(".symtab".to_string());
    let strtab_idx: usize = idx + 1;
    names.push(".strtab".to_string());
    let shstr_idx: usize = idx + 2;
    names.push(".shstrtab".to_string());
    let nsec: usize = idx + 3;

    let mut shstr: Vec<u8> = vec![0];
    let mut name_off: Vec<u32> = Vec::new();
    for nm in &names {
        if nm.is_empty() {
            name_off.push(0);
        } else {
            name_off.push(shstr.len() as u32);
            shstr.extend_from_slice(nm.as_bytes());
            shstr.push(0);
        }
    }

    let mut strtab: Vec<u8> = vec![0];
    let mut symtab: Vec<u8> = vec![0; 16];
    for sym in &syms {
        let off: u32 = strtab.len() as u32;
        strtab.extend_from_slice(sym.name.as_bytes());
        strtab.push(0);
        wb32(&mut symtab, off);
        wb32(&mut symtab, sym.value);
        wb32(&mut symtab, 0);
        symtab.push(0);
        symtab.push(0);
        wb16(&mut symtab, sym.shndx);
    }

    let base: u32 = 52;
    let mut data_region: Vec<u8> = Vec::new();
    let mut offsets: Vec<u32> = vec![0; nsec];
    let mut sizes: Vec<u32> = vec![0; nsec];
    for (i, s) in user.iter().enumerate() {
        if s.sh_type == 8 {
            sizes[1 + i] = s.size;
        } else {
            offsets[1 + i] = base + data_region.len() as u32;
            sizes[1 + i] = s.data.len() as u32;
            data_region.extend_from_slice(&s.data);
        }
    }
    for (i, s) in user.iter().enumerate() {
        if let Some(ri) = rela_of[i] {
            offsets[ri] = base + data_region.len() as u32;
            sizes[ri] = (12 * s.relas.len()) as u32;
            for &(o, sy, t, a) in &s.relas {
                wb32(&mut data_region, o);
                wb32(&mut data_region, (sy << 8) | t as u32);
                wb32(&mut data_region, a);
            }
        }
    }
    offsets[symtab_idx] = base + data_region.len() as u32;
    sizes[symtab_idx] = symtab.len() as u32;
    data_region.extend_from_slice(&symtab);
    offsets[strtab_idx] = base + data_region.len() as u32;
    sizes[strtab_idx] = strtab.len() as u32;
    data_region.extend_from_slice(&strtab);
    offsets[shstr_idx] = base + data_region.len() as u32;
    sizes[shstr_idx] = shstr.len() as u32;
    data_region.extend_from_slice(&shstr);

    let shoff: u32 = base + data_region.len() as u32;
    let mut out: Vec<u8> = Vec::new();
    out.extend_from_slice(&[0x7f, 0x45, 0x4c, 0x46, 1, 2, 1, 0]);
    out.extend_from_slice(&[0; 8]);
    wb16(&mut out, 1);
    wb16(&mut out, 20);
    wb32(&mut out, 1);
    wb32(&mut out, 0);
    wb32(&mut out, 0);
    wb32(&mut out, shoff);
    wb32(&mut out, 0);
    wb16(&mut out, 52);
    wb16(&mut out, 0);
    wb16(&mut out, 0);
    wb16(&mut out, 40);
    wb16(&mut out, nsec as u16);
    wb16(&mut out, shstr_idx as u16);
    assert_eq!(out.len(), 52);
    out.extend_from_slice(&data_region);

    for si in 0..nsec {
        let (t, fl, al, link, info, ent): (u32, u32, u32, u32, u32, u32) = if si == 0 {
            (0, 0, 0, 0, 0, 0)
        } else if si <= n {
            let s = &user[si - 1];
            (s.sh_type, s.flags, s.align, 0, 0, 0)
        } else if si == symtab_idx {
            (2, 0, 4, strtab_idx as u32, 0, 16)
        } else if si == strtab_idx || si == shstr_idx {
            (3, 0, 1, 0, 0, 0)
        } else {
            // a RELA section: find its target
            let mut target: u32 = 0;
            for (i, _) in user.iter().enumerate() {
                if rela_of[i] == Some(si) {
                    target = (1 + i) as u32;
                }
            }
            (4, 0, 4, symtab_idx as u32, target, 12)
        };
        wb32(&mut out, name_off[si]);
        wb32(&mut out, t);
        wb32(&mut out, fl);
        wb32(&mut out, 0);
        wb32(&mut out, offsets[si]);
        wb32(&mut out, sizes[si]);
        wb32(&mut out, link);
        wb32(&mut out, info);
        wb32(&mut out, al);
        wb32(&mut out, ent);
    }
    out
}

fn std_syms(shndx: u16) -> Vec<TSym> {
    vec![
        TSym { name: "_prolog", shndx, value: 0 },
        TSym { name: "_epilog", shndx, value: 0 },
        TSym { name: "_unresolved", shndx, value: 0 },
    ]
}

// ---- scenarios ----

#[test]
fn bss_only_module() {
    let bss = TSec {
        name: ".bss",
        sh_type: 8,
        flags: 3,
        align: 8,
        data: vec![],
        size: 0x30,
        relas: vec![],
    };
    let elf = build_elf(vec![bss], std_syms(1));
    let out = elf2rel(&elf, b"", 0x1000, RelVersion::V1).unwrap();

    // header fields
    assert_eq!(ru32(&out, 0x00), 0x1000); // id
    assert_eq!(ru32(&out, 0x0c), 5); // section count: null, .bss, and 3 tables
    assert_eq!(ru32(&out, 0x10), 0x40); // section info right after the v1 header
    assert_eq!(ru32(&out, 0x1c), 1); // version
    assert_eq!(ru32(&out, 0x20), 0x30); // total_bss_size
    assert_eq!(ru32(&out, 0x2c), 0); // import_info_size

    // the .bss entry: offset 0, size kept
    assert_eq!(ru32(&out, 0x40 + 8), 0);
    assert_eq!(ru32(&out, 0x40 + 12), 0x30);

    // no data bytes past header/section-info: the import table region is
    // empty and the stream is one trailing DolphinEnd
    let rel_off = ru32(&out, 0x24) as usize;
    assert_eq!(out.len(), rel_off + 8);
    assert_eq!(&out[rel_off..], &[0, 0, 203, 0, 0, 0, 0, 0]);
}

#[test]
fn intra_module_branch_resolved_statically() {
    let mut text = prog(".text", 6, 4, vec![0x48, 0, 0, 1, 0, 0, 0, 0]);
    // branch at .text+0 to a symbol at .text+0x10 (sym index 4: after the
    // three required symbols)
    text.relas = vec![(0, 4, 10, 0)];
    let mut syms = std_syms(1);
    syms.push(TSym { name: "target", shndx: 1, value: 0x10 });
    let elf = build_elf(vec![text], syms);
    let out = elf2rel(&elf, b"", 0x1000, RelVersion::V1).unwrap();

    let si = ru32(&out, 0x10) as usize;
    let text_entry = ru32(&out, si + 8);
    assert_eq!(text_entry & 1, 1); // text flag set
    let text_off = (text_entry & !1) as usize;
    // patched word: old | (0x10 & 0x03FFFFFC)
    assert_eq!(ru32(&out, text_off), 0x48000001 | 0x10);

    // nothing but the trailing end in the stream; one import slot was
    // reserved for the run but left unused
    let rel_off = ru32(&out, 0x24) as usize;
    assert_eq!(&out[rel_off..], &[0, 0, 203, 0, 0, 0, 0, 0]);
    assert_eq!(ru32(&out, 0x2c), 0); // import_info_size
    assert_eq!(ru32(&out, 0x28) + 8, ru32(&out, 0x24)); // one reserved slot
}

#[test]
fn two_external_relocations() {
    let mut text = prog(".text", 6, 4, vec![0; 8]);
    text.relas = vec![(0, 4, 1, 0), (4, 5, 1, 0)];
    let mut syms = std_syms(1);
    syms.push(TSym { name: "A", shndx: 0, value: 0 });
    syms.push(TSym { name: "B", shndx: 0, value: 0 });
    let elf = build_elf(vec![text], syms);
    let map = b"80001000:A\n80002000:B\n";
    let out = elf2rel(&elf, map, 0x1000, RelVersion::V1).unwrap();

    let imp_off = ru32(&out, 0x28) as usize;
    let rel_off = ru32(&out, 0x24) as usize;
    assert_eq!(ru32(&out, 0x2c), 8); // one import entry
    assert_eq!(ru32(&out, imp_off), 0); // external module id 0
    assert_eq!(ru32(&out, imp_off + 4) as usize, rel_off); // group starts the stream

    // DolphinSection for .text (index 1)
    assert_eq!(&out[rel_off..rel_off + 8], &[0, 0, 202, 1, 0, 0, 0, 0]);
    // first record: offset 0, PpcAddr32, section 0, addend 0x80001000
    assert_eq!(&out[rel_off + 8..rel_off + 16], &[0, 0, 1, 0, 0x80, 0, 0x10, 0]);
    // second record: offset 4
    assert_eq!(&out[rel_off + 16..rel_off + 24], &[0, 4, 1, 0, 0x80, 0, 0x20, 0]);
    // the group's terminator, which is the trailing DolphinEnd
    assert_eq!(&out[rel_off + 24..rel_off + 32], &[0, 0, 203, 0, 0, 0, 0, 0]);
    assert_eq!(out.len(), rel_off + 32);
}

#[test]
fn long_gap_walked_with_nops() {
    let mut text = prog(".text", 6, 4, vec![0; 8]);
    text.relas = vec![(0, 4, 1, 0), (0x20000, 4, 1, 0)];
    let mut syms = std_syms(1);
    syms.push(TSym { name: "A", shndx: 0, value: 0 });
    let elf = build_elf(vec![text], syms);
    let out = elf2rel(&elf, b"80001000:A\n", 0x1000, RelVersion::V1).unwrap();

    let rel_off = ru32(&out, 0x24) as usize;
    // section switch, first record, two nops, then the far record
    assert_eq!(out[rel_off + 2], 202);
    assert_eq!(out[rel_off + 10], 1);
    assert_eq!(&out[rel_off + 16..rel_off + 24], &[0xFF, 0xFF, 201, 0, 0, 0, 0, 0]);
    assert_eq!(&out[rel_off + 24..rel_off + 32], &[0xFF, 0xFF, 201, 0, 0, 0, 0, 0]);
    assert_eq!(ru16(&out, rel_off + 32), 2); // 0x20000 - 2 * 0xFFFF
    assert_eq!(out[rel_off + 34], 1);
}

#[test]
fn version_addenda() {
    let text = prog(".text", 6, 4, vec![0; 4]);
    let data = prog(".data", 3, 16, vec![1, 2, 3, 4]);
    let elf = build_elf(vec![text, data], std_syms(1));

    let v1 = elf2rel(&elf, b"", 7, RelVersion::V1).unwrap();
    let v2 = elf2rel(&elf, b"", 7, RelVersion::V2).unwrap();
    let v3 = elf2rel(&elf, b"", 7, RelVersion::V3).unwrap();

    // the section-information table sits right after each header
    assert_eq!(ru32(&v1, 0x10), 0x40);
    assert_eq!(ru32(&v2, 0x10), 0x48);
    assert_eq!(ru32(&v3, 0x10), 0x4c);
    assert_eq!(ru32(&v1, 0x1c), 1);
    assert_eq!(ru32(&v2, 0x1c), 2);
    assert_eq!(ru32(&v3, 0x1c), 3);

    // v2 addendum: alignment maxima (data section align 16)
    assert_eq!(ru32(&v2, 0x40), 16);
    assert_eq!(ru32(&v2, 0x44), 2);
    assert_eq!(ru32(&v3, 0x40), 16);
    assert_eq!(ru32(&v3, 0x44), 2);

    // v3 addendum: fixed_data_size equals relocation_offset
    assert_eq!(ru32(&v3, 0x48), ru32(&v3, 0x24));
}

#[test]
fn converting_twice_is_identical() {
    let mut text = prog(".text", 6, 4, vec![0; 16]);
    text.relas = vec![(0, 4, 1, 0), (8, 5, 10, 4)];
    let mut syms = std_syms(1);
    syms.push(TSym { name: "A", shndx: 0, value: 0 });
    syms.push(TSym { name: "local", shndx: 1, value: 4 });
    let elf = build_elf(vec![text], syms);
    let map = b"80001000:A\n";
    let a = elf2rel(&elf, map, 0x1000, RelVersion::V3).unwrap();
    let b = elf2rel(&elf, map, 0x1000, RelVersion::V3).unwrap();
    assert_eq!(a, b);
}

#[test]
fn section_alignment_and_import_alignment() {
    let text = prog(".text", 6, 32, vec![0xAA; 5]);
    let data = prog(".data", 3, 16, vec![0xBB; 7]);
    let other = prog(".keepout", 0x3, 4, vec![0xCC; 9]);
    let elf = build_elf(vec![text, data, other], std_syms(1));
    let out = elf2rel(&elf, b"", 1, RelVersion::V2).unwrap();

    let si = ru32(&out, 0x10) as usize;
    let text_entry = ru32(&out, si + 8);
    assert_eq!(text_entry & 1, 1);
    assert_eq!((text_entry & !1) % 32, 0);
    let data_entry = ru32(&out, si + 16);
    assert_eq!(data_entry & 1, 0);
    assert_eq!(data_entry % 16, 0);
    // the unselected section got an all-zero entry
    assert_eq!(ru32(&out, si + 24), 0);
    assert_eq!(ru32(&out, si + 28), 0);
    // data bytes really sit at the recorded offsets
    let toff = (text_entry & !1) as usize;
    assert_eq!(&out[toff..toff + 5], &[0xAA; 5]);
    let doff = data_entry as usize;
    assert_eq!(&out[doff..doff + 7], &[0xBB; 7]);
    // import table on an 8-byte boundary
    assert_eq!(ru32(&out, 0x28) % 8, 0);
    // max_align from the text section
    assert_eq!(ru32(&out, 0x40), 32);
}

#[test]
fn dotted_suffix_names_are_selected() {
    let a = prog(".text.init_fn", 6, 4, vec![1, 2, 3, 4]);
    let b = prog(".textual", 1, 4, vec![5, 6, 7, 8]);
    let elf = build_elf(vec![a, b], std_syms(1));
    let out = elf2rel(&elf, b"", 1, RelVersion::V1).unwrap();
    let si = ru32(&out, 0x10) as usize;
    assert_ne!(ru32(&out, si + 8), 0); // .text.init_fn included
    assert_eq!(ru32(&out, si + 16), 0); // .textual excluded
    assert_eq!(ru32(&out, si + 20), 0);
}

// ---- errors ----

#[test]
fn rejects_non_elf() {
    assert_eq!(elf2rel(b"hello", b"", 1, RelVersion::V1), Err(Elf2RelError::NotElf));
}

#[test]
fn rejects_little_endian() {
    let mut elf = build_elf(vec![prog(".text", 6, 4, vec![0; 4])], std_syms(1));
    elf[5] = 1;
    assert_eq!(elf2rel(&elf, b"", 1, RelVersion::V1), Err(Elf2RelError::NotBigEndian));
}

#[test]
fn rejects_wrong_machine() {
    let mut elf = build_elf(vec![prog(".text", 6, 4, vec![0; 4])], std_syms(1));
    elf[18] = 0;
    elf[19] = 62;
    assert_eq!(
        elf2rel(&elf, b"", 1, RelVersion::V1),
        Err(Elf2RelError::UnsupportedArchitecture)
    );
}

#[test]
fn rejects_relocation_without_symbol() {
    let mut text = prog(".text", 6, 4, vec![0; 4]);
    text.relas = vec![(0, 0, 1, 0)];
    let elf = build_elf(vec![text], std_syms(1));
    assert_eq!(
        elf2rel(&elf, b"", 1, RelVersion::V1),
        Err(Elf2RelError::UnsupportedRelocationTarget)
    );
}

#[test]
fn rejects_symbol_index_out_of_range() {
    let mut text = prog(".text", 6, 4, vec![0; 4]);
    text.relas = vec![(0, 99, 1, 0)];
    let elf = build_elf(vec![text], std_syms(1));
    assert_eq!(elf2rel(&elf, b"", 1, RelVersion::V1), Err(Elf2RelError::InvalidSymbolIndex));
}

#[test]
fn rejects_unknown_relocation_type() {
    let mut text = prog(".text", 6, 4, vec![0; 4]);
    text.relas = vec![(0, 1, 99, 0)];
    let elf = build_elf(vec![text], std_syms(1));
    assert_eq!(
        elf2rel(&elf, b"", 1, RelVersion::V1),
        Err(Elf2RelError::UnknownRelocationType(99))
    );
}

#[test]
fn rejects_absolute_symbol_target() {
    let mut text = prog(".text", 6, 4, vec![0; 4]);
    text.relas = vec![(0, 4, 1, 0)];
    let mut syms = std_syms(1);
    syms.push(TSym { name: "abs", shndx: 0xfff1, value: 0 });
    let elf = build_elf(vec![text], syms);
    assert_eq!(
        elf2rel(&elf, b"", 1, RelVersion::V1),
        Err(Elf2RelError::UnsupportedSymbolSection)
    );
}

#[test]
fn rejects_unmapped_external_symbol() {
    let mut text = prog(".text", 6, 4, vec![0; 4]);
    text.relas = vec![(0, 4, 1, 0)];
    let mut syms = std_syms(1);
    syms.push(TSym { name: "missing", shndx: 0, value: 0 });
    let elf = build_elf(vec![text], syms);
    assert_eq!(
        elf2rel(&elf, b"", 1, RelVersion::V1),
        Err(Elf2RelError::ExternalSymbolNotFound(b"missing".to_vec()))
    );
}

#[test]
fn rejects_missing_prolog() {
    let elf = build_elf(
        vec![prog(".text", 6, 4, vec![0; 4])],
        vec![TSym { name: "_epilog", shndx: 1, value: 0 }],
    );
    assert_eq!(
        elf2rel(&elf, b"", 1, RelVersion::V1),
        Err(Elf2RelError::MissingSymbol(b"_prolog".to_vec()))
    );
}

#[test]
fn rejects_stream_only_relative_branch_across_modules() {
    // an external 24-bit relative branch cannot be encoded in the stream
    let mut text = prog(".text", 6, 4, vec![0; 4]);
    text.relas = vec![(0, 4, 11, 0)];
    let mut syms = std_syms(1);
    syms.push(TSym { name: "A", shndx: 0, value: 0 });
    let elf = build_elf(vec![text], syms);
    assert_eq!(
        elf2rel(&elf, b"80001000:A\n", 1, RelVersion::V1),
        Err(Elf2RelError::UnsupportedRelocationType(11))
    );
}

#[test]
fn rejects_static_branch_into_unwritten_section() {
    // the symbol lives in a section that the REL does not carry
    let mut text = prog(".text", 6, 4, vec![0; 4]);
    text.relas = vec![(0, 4, 10, 0)];
    let keepout = prog(".keepout", 3, 4, vec![0; 4]);
    let mut syms = std_syms(1);
    syms.push(TSym { name: "elsewhere", shndx: 2, value: 0 });
    let elf = build_elf(vec![text, keepout], syms);
    assert_eq!(
        elf2rel(&elf, b"", 1, RelVersion::V1),
        Err(Elf2RelError::UnresolvableRelocation)
    );
}

#[test]
fn wrapped_addend_arithmetic() {
    // map address + ELF addend wraps at 32 bits
    let mut text = prog(".text", 6, 4, vec![0; 4]);
    text.relas = vec![(0, 4, 1, 0x20)];
    let mut syms = std_syms(1);
    syms.push(TSym { name: "A", shndx: 0, value: 0 });
    let elf = build_elf(vec![text], syms);
    let out = elf2rel(&elf, b"fffffff0:A\n", 1, RelVersion::V1).unwrap();
    let rel_off = ru32(&out, 0x24) as usize;
    // the record after the section switch carries the wrapped addend 0x10
    assert_eq!(ru32(&out, rel_off + 12), 0x10);
}
