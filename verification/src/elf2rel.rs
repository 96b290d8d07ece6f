//! The ELF to REL conversion engine.
//!
//! A REL file is laid out in one pass: a header placeholder, a section
//! information table, each included section's bytes (aligned, BSS skipped),
//! the import table, and the relocation instruction stream; the header and
//! the two tables are backfilled once every offset is known. Every byte of
//! the output is pinned by the specification functions in this module.

use vstd::prelude::*;

use crate::bebytes::{
    be16, be32, lo32, pad_to_multiple, push_bytes, push_u16_be, push_u32_be, push_zeros, round_up,
    splice, splice_bytes, zeros,
};
use crate::elf::{parse_elf, spec_elf_err, spec_elf_file, ElfFile, SecV, SymV};
use crate::errors::{Elf2RelError, ErrV};
use crate::reloc::ElfRelocation;
use crate::symmap::MapEntryV;

verus! {

broadcast use {crate::bebytes::lemma_be16_len, crate::bebytes::lemma_be32_len};

/// The REL format revision to emit. Revisions 2 and 3 append the alignment
/// and fixed-data addenda to the header.
#[derive(Clone, Copy, PartialEq, Eq, Structural, Debug, Hash)]
pub enum RelVersion {
    V1,
    V2,
    V3,
}

impl RelVersion {
    /// The numeric revision stored in the header.
    pub open spec fn spec_number(self) -> u32 {
        match self {
            RelVersion::V1 => 1,
            RelVersion::V2 => 2,
            RelVersion::V3 => 3,
        }
    }

    /// Whether the v2 addendum (alignment maxima) is present.
    pub open spec fn has_v2(self) -> bool {
        !(self is V1)
    }

    /// Whether the v3 addendum (fixed data size) is present.
    pub open spec fn has_v3(self) -> bool {
        self is V3
    }

    pub fn number(self) -> (n: u8)
        ensures
            n == self.spec_number(),
    {
        match self {
            RelVersion::V1 => 1,
            RelVersion::V2 => 2,
            RelVersion::V3 => 3,
        }
    }

    /// The revision for a numeric version, for 1, 2 or 3 alone.
    pub fn from_number(n: u8) -> (r: Option<RelVersion>)
        ensures
            match r {
                Some(v) => v.spec_number() == n,
                None => n != 1 && n != 2 && n != 3,
            },
    {
        match n {
            1 => Some(RelVersion::V1),
            2 => Some(RelVersion::V2),
            3 => Some(RelVersion::V3),
            _ => None,
        }
    }
}

/// The header length: 0x40 bytes, plus 8 for the v2 addendum and 4 more for
/// the v3 addendum.
pub open spec fn header_size(v: RelVersion) -> int {
    0x40 + (if v.has_v2() {
        8int
    } else {
        0int
    }) + (if v.has_v3() {
        4int
    } else {
        0int
    })
}

// --- Section selection ---

/// The seven section names a REL may carry.
pub open spec fn rel_section_names() -> Seq<Seq<u8>> {
    seq![
        seq![0x2eu8, 0x69, 0x6e, 0x69, 0x74],
        seq![0x2eu8, 0x74, 0x65, 0x78, 0x74],
        seq![0x2eu8, 0x63, 0x74, 0x6f, 0x72, 0x73],
        seq![0x2eu8, 0x64, 0x74, 0x6f, 0x72, 0x73],
        seq![0x2eu8, 0x72, 0x6f, 0x64, 0x61, 0x74, 0x61],
        seq![0x2eu8, 0x64, 0x61, 0x74, 0x61],
        seq![0x2eu8, 0x62, 0x73, 0x73],
    ]
}

/// `n` equals `c`, or begins with `c` followed by a dot.
pub open spec fn name_matches(n: Seq<u8>, c: Seq<u8>) -> bool {
    n == c || (n.len() > c.len() && n.take(c.len() as int) == c && n[c.len() as int] == 0x2e)
}

/// The selection rule: a section goes into the REL iff its name is one of
/// the seven valid names or one of them followed by a dotted suffix.
#[verifier::opaque]
pub open spec fn sel(n: Seq<u8>) -> bool {
    exists|k: int| 0 <= k < 7 && name_matches(n, #[trigger] rel_section_names()[k])
}

fn rel_name_candidate(k: usize) -> (v: Vec<u8>)
    requires
        k < 7,
    ensures
        v@ == rel_section_names()[k as int],
{
    let mut v: Vec<u8> = Vec::new();
    v.push(0x2e);
    if k == 0 {
        v.push(0x69);
        v.push(0x6e);
        v.push(0x69);
        v.push(0x74);
    } else if k == 1 {
        v.push(0x74);
        v.push(0x65);
        v.push(0x78);
        v.push(0x74);
    } else if k == 2 {
        v.push(0x63);
        v.push(0x74);
        v.push(0x6f);
        v.push(0x72);
        v.push(0x73);
    } else if k == 3 {
        v.push(0x64);
        v.push(0x74);
        v.push(0x6f);
        v.push(0x72);
        v.push(0x73);
    } else if k == 4 {
        v.push(0x72);
        v.push(0x6f);
        v.push(0x64);
        v.push(0x61);
        v.push(0x74);
        v.push(0x61);
    } else if k == 5 {
        v.push(0x64);
        v.push(0x61);
        v.push(0x74);
        v.push(0x61);
    } else {
        v.push(0x62);
        v.push(0x73);
        v.push(0x73);
    }
    assert(v@ =~= rel_section_names()[k as int]);
    v
}

fn name_matches_exec(n: &Vec<u8>, c: &Vec<u8>) -> (r: bool)
    ensures
        r == name_matches(n@, c@),
{
    if crate::symmap::eq_bytes(n.as_slice(), c.as_slice()) {
        return true;
    }
    if n.len() > c.len() {
        let pre = vstd::slice::slice_subrange(n.as_slice(), 0, c.len());
        assert(pre@ =~= n@.take(c@.len() as int));
        if crate::symmap::eq_bytes(pre, c.as_slice()) && n[c.len()] == 0x2e {
            return true;
        }
    }
    false
}

/// Decides the selection rule for one section name.
pub fn section_selected(n: &Vec<u8>) -> (r: bool)
    ensures
        r == sel(n@),
{
    let mut k: usize = 0;
    while k < 7
        invariant
            k <= 7,
            forall|m: int| 0 <= m < k ==> !name_matches(n@, #[trigger] rel_section_names()[m]),
        decreases 7 - k,
    {
        let c = rel_name_candidate(k);
        if name_matches_exec(n, &c) {
            proof {
                reveal(sel);
            }
            assert(sel(n@));
            return true;
        }
        k = k + 1;
    }
    proof {
        reveal(sel);
    }
    false
}

// --- Section layout ---

/// 32-bit wraparound addition.
pub open spec fn wadd32(a: u32, b: u32) -> u32 {
    if a + b <= u32::MAX {
        (a + b) as u32
    } else {
        (a + b - 0x100000000) as u32
    }
}

/// The layout state after some prefix of the sections: the output so far,
/// the section-information bytes, each section's data offset (`None` for
/// excluded and BSS sections), and the running totals for the header.
#[verifier::ext_equal]
pub struct LayoutV {
    pub out: Seq<u8>,
    pub info: Seq<u8>,
    pub offs: Seq<Option<usize>>,
    pub total_bss: u32,
    pub max_align: u32,
    pub max_bss_align: u32,
}

/// The state before any section: the given prefix (header placeholder)
/// followed by the zeroed section-information table.
pub open spec fn layout_init(base: Seq<u8>, nsec: int) -> LayoutV {
    LayoutV {
        out: base + zeros(8 * nsec),
        info: Seq::empty(),
        offs: Seq::empty(),
        total_bss: 0,
        max_align: 2,
        max_bss_align: 2,
    }
}

/// Lays out one section. Excluded sections get an all-zero entry; BSS
/// sections count toward `total_bss` and occupy no bytes; any other included
/// section is aligned to `max(align, 2)` and appended, its entry's offset
/// carrying the low bit iff the section is executable text.
pub open spec fn layout_step(st: LayoutV, s: SecV) -> Result<LayoutV, ErrV> {
    if !sel(s.name) {
        Ok(
            LayoutV {
                info: st.info + be32(0) + be32(0),
                offs: st.offs.push(None),
                ..st
            },
        )
    } else if s.bss {
        Ok(
            LayoutV {
                info: st.info + be32(0) + be32(s.size),
                offs: st.offs.push(None),
                total_bss: wadd32(st.total_bss, s.size),
                max_bss_align: if s.align > st.max_bss_align {
                    s.align
                } else {
                    st.max_bss_align
                },
                ..st
            },
        )
    } else {
        let a: int = if s.align < 2 {
            2
        } else {
            s.align as int
        };
        if st.out.len() + a > usize::MAX {
            Err(ErrV::OutputTooLarge)
        } else {
            let p = round_up(st.out.len() as int, a);
            let enc: int = if s.text {
                if p % 2 == 0 {
                    p + 1
                } else {
                    p
                }
            } else {
                p
            };
            Ok(
                LayoutV {
                    out: st.out + zeros(p - st.out.len()) + s.data,
                    info: st.info + be32(lo32(enc)) + be32(s.size),
                    offs: st.offs.push(Some(p as usize)),
                    total_bss: st.total_bss,
                    max_align: if a > st.max_align {
                        a as u32
                    } else {
                        st.max_align
                    },
                    max_bss_align: st.max_bss_align,
                },
            )
        }
    }
}

/// The layout after the first `i` sections.
pub open spec fn spec_layout(secs: Seq<SecV>, i: int, st0: LayoutV) -> Result<LayoutV, ErrV>
    decreases i,
{
    if i <= 0 {
        Ok(st0)
    } else {
        match spec_layout(secs, i - 1, st0) {
            Err(e) => Err(e),
            Ok(st) => layout_step(st, secs[i - 1]),
        }
    }
}

/// An error anywhere in the fold settles every longer fold.
pub proof fn lemma_layout_err(secs: Seq<SecV>, i: int, j: int, st0: LayoutV, e: ErrV)
    requires
        0 <= i <= j,
        spec_layout(secs, i, st0) == Err::<LayoutV, ErrV>(e),
    ensures
        spec_layout(secs, j, st0) == Err::<LayoutV, ErrV>(e),
    decreases j - i,
{
    if j > i {
        lemma_layout_err(secs, i, j - 1, st0, e);
    }
}

/// What the section writer computes besides the bytes.
pub struct SectionStats {
    pub total_bss_size: u32,
    pub max_align: u32,
    pub max_bss_align: u32,
    pub section_info_offset: usize,
    pub section_offsets: Vec<Option<usize>>,
}


/// Lays out one section exactly as [`layout_step`] describes.
#[verifier::loop_isolation(false)]
#[verifier::rlimit(100)]
fn layout_one(
    rel: &mut Vec<u8>,
    info: &mut Vec<u8>,
    offsets: &mut Vec<Option<usize>>,
    total_bss: &mut u32,
    max_align: &mut u32,
    max_bss_align: &mut u32,
    sec: &crate::elf::ElfSection,
) -> (r: Result<(), Elf2RelError>)
    ensures
        ({
            let pre = LayoutV {
                out: old(rel)@,
                info: old(info)@,
                offs: old(offsets)@,
                total_bss: *old(total_bss),
                max_align: *old(max_align),
                max_bss_align: *old(max_bss_align),
            };
            let post = LayoutV {
                out: final(rel)@,
                info: final(info)@,
                offs: final(offsets)@,
                total_bss: *final(total_bss),
                max_align: *final(max_align),
                max_bss_align: *final(max_bss_align),
            };
            match r {
                Ok(u) => layout_step(pre, sec@) == Ok::<LayoutV, ErrV>(post),
                Err(e) => layout_step(pre, sec@) == Err::<LayoutV, ErrV>(e@),
            }
        }),
{
    if !section_selected(&sec.name) {
        push_u32_be(info, 0);
        push_u32_be(info, 0);
        offsets.push(None);
    } else if sec.bss {
        push_u32_be(info, 0);
        push_u32_be(info, sec.size);
        offsets.push(None);
        *total_bss = total_bss.wrapping_add(sec.size);
        if sec.align > *max_bss_align {
            *max_bss_align = sec.align;
        }
    } else {
        let a: usize = if sec.align < 2 {
            2
        } else {
            sec.align as usize
        };
        if rel.len() > usize::MAX - a {
            return Err(Elf2RelError::OutputTooLarge);
        }
        pad_to_multiple(rel, a);
        let p = rel.len();
        let enc: usize = if sec.text {
            if p % 2 == 0 {
                p + 1
            } else {
                p
            }
        } else {
            p
        };
        let enc64: u64 = enc as u64;
        let enc32: u32 = (enc64 % 0x100000000) as u32;
        assert(enc32 == lo32(enc as int));
        push_u32_be(info, enc32);
        push_u32_be(info, sec.size);
        offsets.push(Some(p));
        if a > *max_align as usize {
            *max_align = a as u32;
        }
        push_bytes(rel, &sec.data);
    }
    Ok(())
}

/// Reserves the section-information table, appends every included non-BSS
/// section aligned to `max(align, 2)`, and backfills the table. The result
/// is exactly the [`spec_layout`] fold with the table spliced in.
#[verifier::loop_isolation(false)]
#[verifier::rlimit(100)]
#[verifier::spinoff_prover]
pub fn write_sections(elf: &ElfFile, rel: &mut Vec<u8>) -> (r: Result<SectionStats, Elf2RelError>)
    requires
        elf@.secs.len() <= 0xffff,
    ensures
        match r {
            Ok(st) => {
                &&& spec_layout(
                    elf@.secs,
                    elf@.secs.len() as int,
                    layout_init(old(rel)@, elf@.secs.len() as int),
                ) matches Ok(lay)
                &&& final(rel)@ == splice(lay.out, old(rel)@.len() as int, lay.info)
                &&& st.section_offsets@ == lay.offs
                &&& st.total_bss_size == lay.total_bss
                &&& st.max_align == lay.max_align
                &&& st.max_bss_align == lay.max_bss_align
                &&& st.section_info_offset == old(rel)@.len()
                &&& st.section_offsets@.len() == elf@.secs.len()
                &&& final(rel)@.len() >= old(rel)@.len()
            },
            Err(e) => spec_layout(
                elf@.secs,
                elf@.secs.len() as int,
                layout_init(old(rel)@, elf@.secs.len() as int),
            ) == Err::<LayoutV, ErrV>(e@),
        },
{
    let nsec = elf.sections.len();
    let si = rel.len();
    push_zeros(rel, 8 * nsec);

    let ghost st0 = layout_init(old(rel)@, elf@.secs.len() as int);
    let mut info: Vec<u8> = Vec::new();
    let mut offsets: Vec<Option<usize>> = Vec::new();
    let mut total_bss: u32 = 0;
    let mut max_align: u32 = 2;
    let mut max_bss_align: u32 = 2;

    let mut i: usize = 0;
    assert(rel@ =~= st0.out);
    assert(info@ =~= st0.info);
    assert(offsets@ =~= st0.offs);
    while i < nsec
        invariant
            i <= nsec,
            spec_layout(elf@.secs, i as int, st0) == Ok::<LayoutV, ErrV>(
                LayoutV {
                    out: rel@,
                    info: info@,
                    offs: offsets@,
                    total_bss: total_bss,
                    max_align: max_align,
                    max_bss_align: max_bss_align,
                },
            ),
            rel@.len() >= si + 8 * nsec,
            info@.len() == 8 * i,
            offsets@.len() == i,
        decreases nsec - i,
    {
        let sec = &elf.sections[i];
        let ghost s = elf@.secs[i as int];
        assert(s == sec@);
        let ghost pre = LayoutV {
            out: rel@,
            info: info@,
            offs: offsets@,
            total_bss: total_bss,
            max_align: max_align,
            max_bss_align: max_bss_align,
        };
        match layout_one(
            rel,
            &mut info,
            &mut offsets,
            &mut total_bss,
            &mut max_align,
            &mut max_bss_align,
            sec,
        ) {
            Ok(u) => {
                assert(spec_layout(elf@.secs, i as int + 1, st0) == Ok::<LayoutV, ErrV>(
                    LayoutV {
                        out: rel@,
                        info: info@,
                        offs: offsets@,
                        total_bss: total_bss,
                        max_align: max_align,
                        max_bss_align: max_bss_align,
                    },
                ));
            },
            Err(e) => {
                proof {
                    assert(spec_layout(elf@.secs, i as int + 1, st0) == Err::<LayoutV, ErrV>(e@));
                    lemma_layout_err(elf@.secs, i as int + 1, elf@.secs.len() as int, st0, e@);
                }
                return Err(e);
            },
        }
        i = i + 1;
    }
    assert(info@.len() == 8 * nsec);
    splice_bytes(rel, si, &info);
    Ok(
        SectionStats {
            total_bss_size: total_bss,
            max_align,
            max_bss_align,
            section_info_offset: si,
            section_offsets: offsets,
        },
    )
}

// --- Relocation collection ---

/// Classifies one ELF relocation. The symbol decides: defined in a section
/// means an intra-module relocation against this module; undefined means an
/// external one resolved through the symbol map; anything else is refused.
/// Addends wrap at 32 bits.
pub open spec fn collect_step(
    acc: Seq<ElfRelocation>,
    src: u32,
    r: crate::elf::RelaEntry,
    syms: Seq<SymV>,
    map: Seq<MapEntryV>,
    mid: u32,
) -> Result<Seq<ElfRelocation>, ErrV> {
    if r.sym == 0 {
        Err(ErrV::UnsupportedRelocationTarget)
    } else if r.sym >= syms.len() {
        Err(ErrV::InvalidSymbolIndex)
    } else if !crate::reloc::known_rtype(r.rtype) {
        Err(ErrV::UnknownRelocationType(r.rtype))
    } else {
        let sym = syms[r.sym as int];
        if sym.shndx == 0 {
            match crate::symmap::spec_map_get(map, sym.name) {
                None => Err(ErrV::ExternalSymbolNotFound(sym.name)),
                Some(a) => Ok(
                    acc.push(
                        ElfRelocation {
                            src_section: src,
                            src_offset: r.offset,
                            dest_module: 0,
                            dest_section: 0,
                            addend: wadd32(a, r.addend),
                            rtype: r.rtype,
                        },
                    ),
                ),
            }
        } else if sym.shndx < 0xff00 {
            Ok(
                acc.push(
                    ElfRelocation {
                        src_section: src,
                        src_offset: r.offset,
                        dest_module: mid,
                        dest_section: sym.shndx as u32,
                        addend: wadd32(sym.value, r.addend),
                        rtype: r.rtype,
                    },
                ),
            )
        } else {
            Err(ErrV::UnsupportedSymbolSection)
        }
    }
}

/// The first `k` relocations of one source section, collected onto `acc`.
pub open spec fn collect_sec(
    acc: Seq<ElfRelocation>,
    src: u32,
    relocs: Seq<crate::elf::RelaEntry>,
    k: int,
    syms: Seq<SymV>,
    map: Seq<MapEntryV>,
    mid: u32,
) -> Result<Seq<ElfRelocation>, ErrV>
    decreases k,
{
    if k <= 0 {
        Ok(acc)
    } else {
        match collect_sec(acc, src, relocs, k - 1, syms, map, mid) {
            Err(e) => Err(e),
            Ok(a) => collect_step(a, src, relocs[k - 1], syms, map, mid),
        }
    }
}

/// All relocations of the first `i` sections, in section order; sections
/// that were not written to the output contribute nothing.
pub open spec fn collect_all(
    secs: Seq<SecV>,
    offs: Seq<Option<usize>>,
    syms: Seq<SymV>,
    map: Seq<MapEntryV>,
    mid: u32,
    i: int,
) -> Result<Seq<ElfRelocation>, ErrV>
    decreases i,
{
    if i <= 0 {
        Ok(Seq::empty())
    } else {
        match collect_all(secs, offs, syms, map, mid, i - 1) {
            Err(e) => Err(e),
            Ok(acc) => {
                if offs[i - 1] is Some {
                    collect_sec(
                        acc,
                        (i - 1) as u32,
                        secs[i - 1].relocs,
                        secs[i - 1].relocs.len() as int,
                        syms,
                        map,
                        mid,
                    )
                } else {
                    Ok(acc)
                }
            },
        }
    }
}

/// The collected relocations in stream order: the symbol map parsed, every
/// relocation of every written section classified, and the whole sorted by
/// (destination module, source section, source offset).
pub open spec fn spec_extract(
    secs: Seq<SecV>,
    offs: Seq<Option<usize>>,
    syms: Seq<SymV>,
    mapbytes: Seq<u8>,
    mid: u32,
) -> Result<Seq<ElfRelocation>, ErrV> {
    match crate::symmap::spec_parse_map(mapbytes) {
        Err(e) => Err(e),
        Ok(entries) => match collect_all(secs, offs, syms, entries, mid, secs.len() as int) {
            Err(e) => Err(e),
            Ok(c) => Ok(crate::reloc::spec_sort(c)),
        },
    }
}

pub proof fn lemma_collect_sec_err(
    acc: Seq<ElfRelocation>,
    src: u32,
    relocs: Seq<crate::elf::RelaEntry>,
    k: int,
    j: int,
    syms: Seq<SymV>,
    map: Seq<MapEntryV>,
    mid: u32,
    e: ErrV,
)
    requires
        0 <= k <= j,
        collect_sec(acc, src, relocs, k, syms, map, mid) == Err::<Seq<ElfRelocation>, ErrV>(e),
    ensures
        collect_sec(acc, src, relocs, j, syms, map, mid) == Err::<Seq<ElfRelocation>, ErrV>(e),
    decreases j - k,
{
    if j > k {
        lemma_collect_sec_err(acc, src, relocs, k, j - 1, syms, map, mid, e);
    }
}

pub proof fn lemma_collect_all_err(
    secs: Seq<SecV>,
    offs: Seq<Option<usize>>,
    syms: Seq<SymV>,
    map: Seq<MapEntryV>,
    mid: u32,
    i: int,
    j: int,
    e: ErrV,
)
    requires
        0 <= i <= j,
        collect_all(secs, offs, syms, map, mid, i) == Err::<Seq<ElfRelocation>, ErrV>(e),
    ensures
        collect_all(secs, offs, syms, map, mid, j) == Err::<Seq<ElfRelocation>, ErrV>(e),
    decreases j - i,
{
    if j > i {
        lemma_collect_all_err(secs, offs, syms, map, mid, i, j - 1, e);
    }
}

/// Collects one section's relocations exactly as [`collect_sec`] describes.
#[verifier::loop_isolation(false)]
fn collect_one_section(
    out: &mut Vec<ElfRelocation>,
    src: u32,
    sec: &crate::elf::ElfSection,
    symbols: &Vec<crate::elf::ElfSymbol>,
    map: &crate::symmap::SymbolMap,
    module_id: u32,
) -> (r: Result<(), Elf2RelError>)
    ensures
        match r {
            Ok(u) => collect_sec(
                old(out)@,
                src,
                sec@.relocs,
                sec@.relocs.len() as int,
                symbols@.map_values(|s: crate::elf::ElfSymbol| s@),
                map@,
                module_id,
            ) == Ok::<Seq<ElfRelocation>, ErrV>(final(out)@),
            Err(e) => collect_sec(
                old(out)@,
                src,
                sec@.relocs,
                sec@.relocs.len() as int,
                symbols@.map_values(|s: crate::elf::ElfSymbol| s@),
                map@,
                module_id,
            ) == Err::<Seq<ElfRelocation>, ErrV>(e@),
        },
{
    let ghost syms = symbols@.map_values(|s: crate::elf::ElfSymbol| s@);
    let n = sec.relocs.len();
    let mut k: usize = 0;
    while k < n
        invariant
            k <= n,
            n == sec@.relocs.len(),
            collect_sec(old(out)@, src, sec@.relocs, k as int, syms, map@, module_id) == Ok::<
                Seq<ElfRelocation>,
                ErrV,
            >(out@),
        decreases n - k,
    {
        let r = sec.relocs[k];
        if r.sym == 0 {
            proof {
                lemma_collect_sec_err(
                    old(out)@,
                    src,
                    sec@.relocs,
                    k as int + 1,
                    n as int,
                    syms,
                    map@,
                    module_id,
                    ErrV::UnsupportedRelocationTarget,
                );
            }
            return Err(Elf2RelError::UnsupportedRelocationTarget);
        }
        if r.sym as usize >= symbols.len() {
            proof {
                lemma_collect_sec_err(
                    old(out)@,
                    src,
                    sec@.relocs,
                    k as int + 1,
                    n as int,
                    syms,
                    map@,
                    module_id,
                    ErrV::InvalidSymbolIndex,
                );
            }
            return Err(Elf2RelError::InvalidSymbolIndex);
        }
        if !(r.rtype <= 11 || r.rtype == 26 || r.rtype == 201 || r.rtype == 202 || r.rtype == 203) {
            proof {
                lemma_collect_sec_err(
                    old(out)@,
                    src,
                    sec@.relocs,
                    k as int + 1,
                    n as int,
                    syms,
                    map@,
                    module_id,
                    ErrV::UnknownRelocationType(r.rtype),
                );
            }
            return Err(Elf2RelError::UnknownRelocationType(r.rtype));
        }
        let sym = &symbols[r.sym as usize];
        assert(sym@ == syms[r.sym as int]);
        if sym.shndx == 0 {
            match map.get(sym.name.as_slice()) {
                None => {
                    proof {
                        lemma_collect_sec_err(
                            old(out)@,
                            src,
                            sec@.relocs,
                            k as int + 1,
                            n as int,
                            syms,
                            map@,
                            module_id,
                            ErrV::ExternalSymbolNotFound(sym@.name),
                        );
                    }
                    let mut name_copy: Vec<u8> = Vec::new();
                    push_bytes(&mut name_copy, &sym.name);
                    assert(name_copy@ =~= sym@.name);
                    return Err(Elf2RelError::ExternalSymbolNotFound(name_copy));
                },
                Some(a) => {
                    out.push(
                        ElfRelocation {
                            src_section: src,
                            src_offset: r.offset,
                            dest_module: 0,
                            dest_section: 0,
                            addend: a.wrapping_add(r.addend),
                            rtype: r.rtype,
                        },
                    );
                },
            }
        } else if sym.shndx < 0xff00 {
            out.push(
                ElfRelocation {
                    src_section: src,
                    src_offset: r.offset,
                    dest_module: module_id,
                    dest_section: sym.shndx as u32,
                    addend: sym.value.wrapping_add(r.addend),
                    rtype: r.rtype,
                },
            );
        } else {
            proof {
                lemma_collect_sec_err(
                    old(out)@,
                    src,
                    sec@.relocs,
                    k as int + 1,
                    n as int,
                    syms,
                    map@,
                    module_id,
                    ErrV::UnsupportedSymbolSection,
                );
            }
            return Err(Elf2RelError::UnsupportedSymbolSection);
        }
        k = k + 1;
    }
    Ok(())
}

/// Parses the symbol map, classifies every relocation of every written
/// section, and sorts the result into stream order.
#[verifier::loop_isolation(false)]
pub fn extract_relocations(
    elf: &ElfFile,
    symbol_map: &[u8],
    module_id: u32,
    section_offsets: &Vec<Option<usize>>,
) -> (r: Result<Vec<ElfRelocation>, Elf2RelError>)
    requires
        symbol_map@.len() < usize::MAX,
        section_offsets@.len() == elf@.secs.len(),
    ensures
        match r {
            Ok(v) => spec_extract(
                elf@.secs,
                section_offsets@,
                elf@.syms,
                symbol_map@,
                module_id,
            ) == Ok::<Seq<ElfRelocation>, ErrV>(v@) && crate::reloc::sorted_by_key(v@),
            Err(e) => spec_extract(
                elf@.secs,
                section_offsets@,
                elf@.syms,
                symbol_map@,
                module_id,
            ) == Err::<Seq<ElfRelocation>, ErrV>(e@),
        },
{
    let map = match crate::symmap::parse_symbol_map(symbol_map) {
        Ok(m) => m,
        Err(e) => {
            return Err(e);
        },
    };
    let mut relocations: Vec<ElfRelocation> = Vec::new();
    let nsec = elf.sections.len();
    let mut i: usize = 0;
    assert(collect_all(elf@.secs, section_offsets@, elf@.syms, map@, module_id, 0) == Ok::<
        Seq<ElfRelocation>,
        ErrV,
    >(relocations@));
    while i < nsec
        invariant
            i <= nsec,
            nsec == elf@.secs.len(),
            collect_all(elf@.secs, section_offsets@, elf@.syms, map@, module_id, i as int) == Ok::<
                Seq<ElfRelocation>,
                ErrV,
            >(relocations@),
        decreases nsec - i,
    {
        if section_offsets[i].is_some() {
            match collect_one_section(
                &mut relocations,
                i as u32,
                &elf.sections[i],
                &elf.symbols,
                &map,
                module_id,
            ) {
                Ok(u) => {
                    assert(collect_all(
                        elf@.secs,
                        section_offsets@,
                        elf@.syms,
                        map@,
                        module_id,
                        i as int + 1,
                    ) == Ok::<Seq<ElfRelocation>, ErrV>(relocations@));
                },
                Err(e) => {
                    proof {
                        lemma_collect_all_err(
                            elf@.secs,
                            section_offsets@,
                            elf@.syms,
                            map@,
                            module_id,
                            i as int + 1,
                            nsec as int,
                            e@,
                        );
                    }
                    return Err(e);
                },
            }
        }
        i = i + 1;
    }
    crate::reloc::sort_relocations(&mut relocations);
    Ok(relocations)
}

// --- Static resolution and the relocation stream ---

/// Intra-module relative relocations are resolved in place rather than
/// emitted: a 24-bit relative branch (type 10) or a 32-bit relative word
/// (type 26) against this very module.
pub open spec fn spec_is_static(r: ElfRelocation, mid: u32) -> bool {
    r.dest_module == mid && (r.rtype == 10 || r.rtype == 26)
}

/// Patches one resolved relocation into the laid-out bytes: the delta from
/// the relocation site to its target, folded into the instruction word
/// (branch types keep their opcode bits), all modulo 2^32.
pub open spec fn patch_one(out: Seq<u8>, offs: Seq<Option<usize>>, r: ElfRelocation) -> Result<
    Seq<u8>,
    ErrV,
> {
    if r.src_section >= offs.len() || offs[r.src_section as int] is None {
        Err(ErrV::UnresolvableRelocation)
    } else if r.dest_section >= offs.len() || offs[r.dest_section as int] is None {
        Err(ErrV::UnresolvableRelocation)
    } else {
        let p = offs[r.src_section as int]->Some_0 + r.src_offset;
        if p + 4 > out.len() {
            Err(ErrV::UnresolvableRelocation)
        } else {
            let oldv = crate::bebytes::u32_at(out, p as int);
            let delta = lo32(offs[r.dest_section as int]->Some_0 + r.addend - p);
            let newv: u32 = if r.rtype == 10 {
                oldv | (delta & 0x03FFFFFC)
            } else {
                delta
            };
            Ok(splice(out, p as int, be32(newv)))
        }
    }
}

/// The bytes after resolving the static relocations among the first `i`.
pub open spec fn patch_all(
    out: Seq<u8>,
    offs: Seq<Option<usize>>,
    rs: Seq<ElfRelocation>,
    mid: u32,
    i: int,
) -> Result<Seq<u8>, ErrV>
    decreases i,
{
    if i <= 0 {
        Ok(out)
    } else {
        match patch_all(out, offs, rs, mid, i - 1) {
            Err(e) => Err(e),
            Ok(o) => {
                if spec_is_static(rs[i - 1], mid) {
                    patch_one(o, offs, rs[i - 1])
                } else {
                    Ok(o)
                }
            },
        }
    }
}

pub proof fn lemma_patch_all_err(
    out: Seq<u8>,
    offs: Seq<Option<usize>>,
    rs: Seq<ElfRelocation>,
    mid: u32,
    i: int,
    j: int,
    e: ErrV,
)
    requires
        0 <= i <= j,
        patch_all(out, offs, rs, mid, i) == Err::<Seq<u8>, ErrV>(e),
    ensures
        patch_all(out, offs, rs, mid, j) == Err::<Seq<u8>, ErrV>(e),
    decreases j - i,
{
    if j > i {
        lemma_patch_all_err(out, offs, rs, mid, i, j - 1, e);
    }
}

/// One 8-byte relocation record as it stands in the stream.
pub open spec fn rec8(off: u16, t: u8, sec: u8, add: u32) -> Seq<u8> {
    be16(off) + seq![t, sec] + be32(add)
}

/// The run of `offset = 0xFFFF` nop records that walks a long gap.
pub open spec fn nop_records(d: u32) -> Seq<u8>
    decreases d,
{
    if d > 0xFFFF {
        rec8(0xFFFF, 201, 0, 0) + nop_records((d - 0xFFFF) as u32)
    } else {
        Seq::empty()
    }
}

/// What remains of the gap once the nop records have walked it.
pub open spec fn nop_rem(d: u32) -> u32
    decreases d,
{
    if d > 0xFFFF {
        nop_rem((d - 0xFFFF) as u32)
    } else {
        d
    }
}

pub proof fn lemma_nop_rem_le(d: u32)
    ensures
        nop_rem(d) <= 0xFFFF,
    decreases d,
{
    if d > 0xFFFF {
        lemma_nop_rem_le((d - 0xFFFF) as u32);
    }
}

/// 32-bit wraparound subtraction.
pub open spec fn wsub32(a: u32, b: u32) -> u32 {
    if a - b < 0 {
        (a - b + 0x100000000) as u32
    } else {
        (a - b) as u32
    }
}

/// The stream-writer state: the record bytes so far, the import table bytes
/// so far, and the current destination module, source section and offset.
#[verifier::ext_equal]
pub struct StreamV {
    pub stream: Seq<u8>,
    pub imports: Seq<u8>,
    pub cur_mod: Option<u32>,
    pub cur_sec: Option<u32>,
    pub cur_off: u32,
}

pub open spec fn stream_init() -> StreamV {
    StreamV {
        stream: Seq::empty(),
        imports: Seq::empty(),
        cur_mod: None,
        cur_sec: None,
        cur_off: 0,
    }
}

/// Emits one relocation. Statically resolved ones are skipped. A change of
/// destination module ends the previous group (one `DolphinEnd`, type 203)
/// and opens an import entry pointing at the group's start; a change of
/// source section emits a `DolphinSection` (202); a gap above 0xFFFF is
/// walked with `DolphinNop` (201) records; then the record itself follows,
/// if its type has a stream encoding.
pub open spec fn stream_step(st: StreamV, r: ElfRelocation, mid: u32, rel_off: int) -> Result<
    StreamV,
    ErrV,
> {
    if spec_is_static(r, mid) {
        Ok(st)
    } else {
        let st1 = if st.cur_mod != Some(r.dest_module) {
            let s2 = st.stream + (if st.cur_mod is Some {
                rec8(0, 203, 0, 0)
            } else {
                Seq::empty()
            });
            StreamV {
                stream: s2,
                imports: st.imports + be32(r.dest_module) + be32(lo32(rel_off + s2.len())),
                cur_mod: Some(r.dest_module),
                cur_sec: None,
                cur_off: st.cur_off,
            }
        } else {
            st
        };
        let st2 = if st1.cur_sec != Some(r.src_section) {
            StreamV {
                stream: st1.stream + rec8(0, 202, (r.src_section % 0x100) as u8, 0),
                cur_sec: Some(r.src_section),
                cur_off: 0,
                ..st1
            }
        } else {
            st1
        };
        let d = wsub32(r.src_offset, st2.cur_off);
        if !crate::reloc::stream_rtype(r.rtype) {
            Err(ErrV::UnsupportedRelocationType(r.rtype))
        } else {
            Ok(
                StreamV {
                    stream: st2.stream + nop_records(d) + rec8(
                        nop_rem(d) as u16,
                        r.rtype,
                        (r.dest_section % 0x100) as u8,
                        r.addend,
                    ),
                    cur_off: r.src_offset,
                    ..st2
                },
            )
        }
    }
}

/// The stream state after the first `i` sorted relocations.
pub open spec fn stream_fold(
    rs: Seq<ElfRelocation>,
    i: int,
    mid: u32,
    rel_off: int,
    st0: StreamV,
) -> Result<StreamV, ErrV>
    decreases i,
{
    if i <= 0 {
        Ok(st0)
    } else {
        match stream_fold(rs, i - 1, mid, rel_off, st0) {
            Err(e) => Err(e),
            Ok(st) => stream_step(st, rs[i - 1], mid, rel_off),
        }
    }
}

pub proof fn lemma_stream_fold_err(
    rs: Seq<ElfRelocation>,
    i: int,
    j: int,
    mid: u32,
    rel_off: int,
    st0: StreamV,
    e: ErrV,
)
    requires
        0 <= i <= j,
        stream_fold(rs, i, mid, rel_off, st0) == Err::<StreamV, ErrV>(e),
    ensures
        stream_fold(rs, j, mid, rel_off, st0) == Err::<StreamV, ErrV>(e),
    decreases j - i,
{
    if j > i {
        lemma_stream_fold_err(rs, i, j - 1, mid, rel_off, st0, e);
    }
}

/// The number of module groups: boundaries in the sorted list where the
/// destination module changes, the first element opening the first group.
pub open spec fn runs(rs: Seq<ElfRelocation>, i: int) -> int
    decreases i,
{
    if i <= 0 {
        0
    } else if i == 1 {
        1
    } else if rs[i - 1].dest_module != rs[i - 2].dest_module {
        runs(rs, i - 1) + 1
    } else {
        runs(rs, i - 1)
    }
}

/// Everything the relocation writer appends after the laid-out sections:
/// static patches applied in place, padding to an 8-byte boundary, the
/// import table region (one 8-byte slot per module group), and the record
/// stream closed by one trailing `DolphinEnd`. Returns the final bytes, the
/// import table offset, the stream offset, and the import table size.
pub open spec fn spec_write_relocations(
    out0: Seq<u8>,
    offs: Seq<Option<usize>>,
    rs: Seq<ElfRelocation>,
    mid: u32,
) -> Result<(Seq<u8>, int, int, int), ErrV> {
    match patch_all(out0, offs, rs, mid, rs.len() as int) {
        Err(e) => Err(e),
        Ok(out1) => {
            if out1.len() + 8 > usize::MAX {
                Err(ErrV::OutputTooLarge)
            } else {
                let imp_off = round_up(out1.len() as int, 8);
                let n = runs(rs, rs.len() as int);
                if 8 * n > usize::MAX - imp_off {
                    Err(ErrV::OutputTooLarge)
                } else {
                    let rel_off = imp_off + 8 * n;
                    match stream_fold(rs, rs.len() as int, mid, rel_off, stream_init()) {
                        Err(e) => Err(e),
                        Ok(st) => {
                            let pad_rest = if st.imports.len() <= 8 * n {
                                zeros(8 * n - st.imports.len())
                            } else {
                                Seq::empty()
                            };
                            Ok(
                                (
                                    out1 + zeros(imp_off - out1.len()) + st.imports + pad_rest
                                        + st.stream + rec8(0, 203, 0, 0),
                                    imp_off,
                                    rel_off,
                                    st.imports.len() as int,
                                ),
                            )
                        },
                    }
                }
            }
        },
    }
}

/// Appends one 8-byte record.
fn push_rec(v: &mut Vec<u8>, off: u16, t: u8, sec: u8, add: u32)
    ensures
        final(v)@ == old(v)@ + rec8(off, t, sec, add),
{
    push_u16_be(v, off);
    v.push(t);
    v.push(sec);
    push_u32_be(v, add);
    assert(v@ =~= old(v)@ + rec8(off, t, sec, add));
}

/// Resolves one static relocation in place, exactly as [`patch_one`].
#[verifier::loop_isolation(false)]
fn apply_static(rel: &mut Vec<u8>, offsets: &Vec<Option<usize>>, r: &ElfRelocation) -> (res:
    Result<(), Elf2RelError>)
    ensures
        match res {
            Ok(u) => patch_one(old(rel)@, offsets@, *r) == Ok::<Seq<u8>, ErrV>(final(rel)@)
                && final(rel)@.len() == old(rel)@.len(),
            Err(e) => patch_one(old(rel)@, offsets@, *r) == Err::<Seq<u8>, ErrV>(e@) && final(rel)@
                == old(rel)@,
        },
{
    proof {
        vstd::std_specs::vec::axiom_spec_len(rel);
    }
    if r.src_section as usize >= offsets.len() || offsets[r.src_section as usize].is_none() {
        return Err(Elf2RelError::UnresolvableRelocation);
    }
    if r.dest_section as usize >= offsets.len() || offsets[r.dest_section as usize].is_none() {
        return Err(Elf2RelError::UnresolvableRelocation);
    }
    let src_base: usize = offsets[r.src_section as usize].unwrap();
    let dest_base: usize = offsets[r.dest_section as usize].unwrap();
    if src_base as u64 > u64::MAX - 4 - (r.src_offset as u64) {
        proof {
            vstd::std_specs::vec::axiom_spec_len(rel);
            assert(src_base + r.src_offset + 4 > rel@.len());
        }
        return Err(Elf2RelError::UnresolvableRelocation);
    }
    let p64: u64 = src_base as u64 + r.src_offset as u64;
    if p64 + 4 > rel.len() as u64 {
        return Err(Elf2RelError::UnresolvableRelocation);
    }
    let p: usize = p64 as usize;
    let oldv = crate::bebytes::read_u32_be(rel.as_slice(), p);
    let d32 = crate::bebytes::lo32_u64(dest_base as u64);
    let p32 = crate::bebytes::lo32_u64(p64);
    let t64: u64 = d32 as u64 + r.addend as u64 + 0x100000000u64 - p32 as u64;
    let delta: u32 = crate::bebytes::lo32_u64(t64);
    proof {
        crate::bebytes::lemma_lo32_delta(dest_base as int, r.addend as int, p as int);
        vstd::arithmetic::div_mod::lemma_mod_bound(dest_base as int, 0x100000000);
        vstd::arithmetic::div_mod::lemma_mod_bound(p as int, 0x100000000);
        assert(delta == lo32(dest_base + r.addend - p));
    }
    let newv: u32 = if r.rtype == 10 {
        oldv | (delta & 0x03FFFFFC)
    } else {
        delta
    };
    crate::bebytes::set_u32_be(rel, p, newv);
    proof {
        crate::bebytes::lemma_be32_len(newv);
        assert(rel@.len() == old(rel)@.len());
    }
    Ok(())
}

/// Emits one relocation into the stream buffers, exactly as [`stream_step`].
#[verifier::loop_isolation(false)]
#[verifier::rlimit(100)]
fn stream_one(
    stream: &mut Vec<u8>,
    imports: &mut Vec<u8>,
    cur_mod: &mut Option<u32>,
    cur_sec: &mut Option<u32>,
    cur_off: &mut u32,
    r: &ElfRelocation,
    module_id: u32,
    rel_off: usize,
) -> (res: Result<(), Elf2RelError>)
    ensures
        ({
            let pre = StreamV {
                stream: old(stream)@,
                imports: old(imports)@,
                cur_mod: *old(cur_mod),
                cur_sec: *old(cur_sec),
                cur_off: *old(cur_off),
            };
            let post = StreamV {
                stream: final(stream)@,
                imports: final(imports)@,
                cur_mod: *final(cur_mod),
                cur_sec: *final(cur_sec),
                cur_off: *final(cur_off),
            };
            match res {
                Ok(u) => stream_step(pre, *r, module_id, rel_off as int) == Ok::<StreamV, ErrV>(
                    post,
                ),
                Err(e) => stream_step(pre, *r, module_id, rel_off as int) == Err::<StreamV, ErrV>(
                    e@,
                ),
            }
        }),
{
    let ghost pre = StreamV {
        stream: stream@,
        imports: imports@,
        cur_mod: *cur_mod,
        cur_sec: *cur_sec,
        cur_off: *cur_off,
    };
    if r.dest_module == module_id && (r.rtype == 10 || r.rtype == 26) {
        return Ok(());
    }
    let switch_mod = match *cur_mod {
        None => true,
        Some(m) => m != r.dest_module,
    };
    if switch_mod {
        if cur_mod.is_some() {
            push_rec(stream, 0, 203, 0, 0);
        }
        let a32 = crate::bebytes::lo32_u64(rel_off as u64);
        let b32 = crate::bebytes::lo32_u64(stream.len() as u64);
        let off32 = crate::bebytes::lo32_u64(a32 as u64 + b32 as u64);
        proof {
            crate::bebytes::lemma_lo32_add(rel_off as int, stream@.len() as int);
            assert(off32 == lo32(rel_off + stream@.len()));
        }
        push_u32_be(imports, r.dest_module);
        push_u32_be(imports, off32);
        *cur_mod = Some(r.dest_module);
        *cur_sec = None;
        assert(imports@ =~= pre.imports + be32(r.dest_module) + be32(off32));
    }
    let ghost st1 = StreamV {
        stream: stream@,
        imports: imports@,
        cur_mod: *cur_mod,
        cur_sec: *cur_sec,
        cur_off: *cur_off,
    };
    let switch_sec = match *cur_sec {
        None => true,
        Some(sc) => sc != r.src_section,
    };
    if switch_sec {
        push_rec(stream, 0, 202, (r.src_section % 0x100) as u8, 0);
        *cur_sec = Some(r.src_section);
        *cur_off = 0;
    }
    let ghost st2 = StreamV {
        stream: stream@,
        imports: imports@,
        cur_mod: *cur_mod,
        cur_sec: *cur_sec,
        cur_off: *cur_off,
    };
    let ghost d0 = wsub32(r.src_offset, *cur_off);
    let mut delta: u32 = r.src_offset.wrapping_sub(*cur_off);
    assert(delta == d0);
    while delta > 0xFFFF
        invariant
            st2.stream + nop_records(d0) == stream@ + nop_records(delta),
            nop_rem(d0) == nop_rem(delta),
            imports@ == st2.imports,
        decreases delta,
    {
        push_rec(stream, 0xFFFF, 201, 0, 0);
        assert(stream@ + nop_records((delta - 0xFFFF) as u32) =~= stream@.subrange(
            0,
            stream@.len() - 8,
        ) + nop_records(delta)) by {
            assert(nop_records(delta) == rec8(0xFFFF, 201, 0, 0) + nop_records(
                (delta - 0xFFFF) as u32,
            ));
            assert(stream@.subrange(0, stream@.len() - 8) + rec8(0xFFFF, 201, 0, 0) =~= stream@);
        }
        delta = delta - 0xFFFF;
    }
    if !(r.rtype <= 10 || r.rtype == 201 || r.rtype == 202 || r.rtype == 203) {
        return Err(Elf2RelError::UnsupportedRelocationType(r.rtype));
    }
    proof {
        lemma_nop_rem_le(d0);
        assert(nop_records(delta) =~= Seq::<u8>::empty());
        assert(stream@ =~= st2.stream + nop_records(d0));
    }
    push_rec(stream, delta as u16, r.rtype, (r.dest_section % 0x100) as u8, r.addend);
    *cur_off = r.src_offset;
    assert(stream@ =~= st2.stream + nop_records(d0) + rec8(
        nop_rem(d0) as u16,
        r.rtype,
        (r.dest_section % 0x100) as u8,
        r.addend,
    ));
    Ok(())
}


/// Counts the module groups of the sorted list.
#[verifier::loop_isolation(false)]
fn count_runs(elf_relocations: &Vec<ElfRelocation>) -> (n: usize)
    ensures
        n as int == runs(elf_relocations@, elf_relocations@.len() as int),
        n <= elf_relocations@.len(),
{
    let n_rel = elf_relocations.len();
    let mut import_count: usize = 0;
    let mut last_module: Option<u32> = None;
    let mut j: usize = 0;
    while j < n_rel
        invariant
            j <= n_rel,
            n_rel == elf_relocations@.len(),
            import_count as int == runs(elf_relocations@, j as int),
            import_count <= j,
            last_module == (if j == 0 {
                None::<u32>
            } else {
                Some(elf_relocations@[j as int - 1].dest_module)
            }),
        decreases n_rel - j,
    {
        let m = elf_relocations[j].dest_module;
        let is_new = match last_module {
            None => true,
            Some(lm) => lm != m,
        };
        if is_new {
            import_count = import_count + 1;
        }
        last_module = Some(m);
        j = j + 1;
    }
    import_count
}

/// Resolves every static relocation in place.
#[verifier::loop_isolation(false)]
fn patch_statics(
    rel: &mut Vec<u8>,
    elf_relocations: &Vec<ElfRelocation>,
    module_id: u32,
    section_offsets: &Vec<Option<usize>>,
) -> (r: Result<(), Elf2RelError>)
    ensures
        match r {
            Ok(u) => patch_all(
                old(rel)@,
                section_offsets@,
                elf_relocations@,
                module_id,
                elf_relocations@.len() as int,
            ) == Ok::<Seq<u8>, ErrV>(final(rel)@) && final(rel)@.len() == old(rel)@.len(),
            Err(e) => patch_all(
                old(rel)@,
                section_offsets@,
                elf_relocations@,
                module_id,
                elf_relocations@.len() as int,
            ) == Err::<Seq<u8>, ErrV>(e@),
        },
{
    let n_rel = elf_relocations.len();
    let mut i: usize = 0;
    while i < n_rel
        invariant
            i <= n_rel,
            n_rel == elf_relocations@.len(),
            patch_all(old(rel)@, section_offsets@, elf_relocations@, module_id, i as int) == Ok::<
                Seq<u8>,
                ErrV,
            >(rel@),
            rel@.len() == old(rel)@.len(),
        decreases n_rel - i,
    {
        let r = &elf_relocations[i];
        if r.dest_module == module_id && (r.rtype == 10 || r.rtype == 26) {
            match apply_static(rel, section_offsets, r) {
                Ok(u) => {},
                Err(e) => {
                    proof {
                        lemma_patch_all_err(
                            old(rel)@,
                            section_offsets@,
                            elf_relocations@,
                            module_id,
                            i as int + 1,
                            n_rel as int,
                            e@,
                        );
                    }
                    return Err(e);
                },
            }
        }
        i = i + 1;
    }
    Ok(())
}

/// Runs the stream fold over the whole sorted list.
#[verifier::loop_isolation(false)]
fn build_stream(
    stream: &mut Vec<u8>,
    imports: &mut Vec<u8>,
    elf_relocations: &Vec<ElfRelocation>,
    module_id: u32,
    relocation_offset: usize,
) -> (r: Result<(), Elf2RelError>)
    requires
        old(stream)@.len() == 0,
        old(imports)@.len() == 0,
    ensures
        match r {
            Ok(u) => stream_fold(
                elf_relocations@,
                elf_relocations@.len() as int,
                module_id,
                relocation_offset as int,
                stream_init(),
            ) matches Ok(st) && st.stream == final(stream)@ && st.imports == final(imports)@,
            Err(e) => stream_fold(
                elf_relocations@,
                elf_relocations@.len() as int,
                module_id,
                relocation_offset as int,
                stream_init(),
            ) == Err::<StreamV, ErrV>(e@),
        },
{
    let n_rel = elf_relocations.len();
    let mut cur_mod: Option<u32> = None;
    let mut cur_sec: Option<u32> = None;
    let mut cur_off: u32 = 0;
    let mut k: usize = 0;
    assert(stream@ =~= stream_init().stream);
    assert(imports@ =~= stream_init().imports);
    while k < n_rel
        invariant
            k <= n_rel,
            n_rel == elf_relocations@.len(),
            stream_fold(
                elf_relocations@,
                k as int,
                module_id,
                relocation_offset as int,
                stream_init(),
            ) == Ok::<StreamV, ErrV>(
                StreamV {
                    stream: stream@,
                    imports: imports@,
                    cur_mod: cur_mod,
                    cur_sec: cur_sec,
                    cur_off: cur_off,
                },
            ),
        decreases n_rel - k,
    {
        match stream_one(
            stream,
            imports,
            &mut cur_mod,
            &mut cur_sec,
            &mut cur_off,
            &elf_relocations[k],
            module_id,
            relocation_offset,
        ) {
            Ok(u) => {},
            Err(e) => {
                proof {
                    lemma_stream_fold_err(
                        elf_relocations@,
                        k as int + 1,
                        n_rel as int,
                        module_id,
                        relocation_offset as int,
                        stream_init(),
                        e@,
                    );
                }
                return Err(e);
            },
        }
        k = k + 1;
    }
    Ok(())
}

/// What the relocation writer reports for the header.
pub struct RelocationStats {
    pub relocations_offset: usize,
    pub import_info_offset: usize,
    pub import_info_size: usize,
}

/// Resolves the static relocations in place, reserves the import table at
/// the next 8-byte boundary, and writes the instruction stream, exactly as
/// [`spec_write_relocations`] lays it out.
#[verifier::loop_isolation(false)]
#[verifier::rlimit(100)]
pub fn write_relocations(
    rel: &mut Vec<u8>,
    elf_relocations: &Vec<ElfRelocation>,
    module_id: u32,
    section_offsets: &Vec<Option<usize>>,
) -> (r: Result<RelocationStats, Elf2RelError>)
    ensures
        match r {
            Ok(st) => {
                &&& spec_write_relocations(
                    old(rel)@,
                    section_offsets@,
                    elf_relocations@,
                    module_id,
                ) matches Ok(t)
                &&& final(rel)@ == t.0
                &&& st.import_info_offset as int == t.1
                &&& st.relocations_offset as int == t.2
                &&& st.import_info_size as int == t.3
                &&& final(rel)@.len() >= old(rel)@.len()
            },
            Err(e) => spec_write_relocations(
                old(rel)@,
                section_offsets@,
                elf_relocations@,
                module_id,
            ) == Err::<(Seq<u8>, int, int, int), ErrV>(e@),
        },
{
    match patch_statics(rel, elf_relocations, module_id, section_offsets) {
        Ok(u) => {},
        Err(e) => {
            return Err(e);
        },
    }
    let import_count = count_runs(elf_relocations);

    if rel.len() > usize::MAX - 8 {
        return Err(Elf2RelError::OutputTooLarge);
    }
    let ghost patched = rel@;
    pad_to_multiple(rel, 8);
    let import_info_offset = rel.len();
    if import_count > (usize::MAX - import_info_offset) / 8 {
        proof {
            assert(8 * (import_count as int) > usize::MAX - import_info_offset as int);
        }
        return Err(Elf2RelError::OutputTooLarge);
    }
    proof {
        assert(8 * (import_count as int) <= usize::MAX - import_info_offset as int);
    }
    let reserve: usize = 8 * import_count;
    let relocation_offset: usize = import_info_offset + reserve;
    let ghost afterpad = patched + zeros(import_info_offset - patched.len());
    assert(rel@ =~= afterpad);

    let mut stream: Vec<u8> = Vec::new();
    let mut imports: Vec<u8> = Vec::new();
    match build_stream(&mut stream, &mut imports, elf_relocations, module_id, relocation_offset) {
        Ok(u) => {},
        Err(e) => {
            return Err(e);
        },
    }
    let ghost st = stream_fold(
        elf_relocations@,
        elf_relocations@.len() as int,
        module_id,
        relocation_offset as int,
        stream_init(),
    )->Ok_0;
    push_rec(&mut stream, 0, 203, 0, 0);

    // On the sorted lists this crate feeds in, the entries never outgrow the
    // reservation (`laws::lemma_import_region_sufficient`); the region is the
    // entries followed by the reserve's leftover zero slots.
    let import_info_size = imports.len();
    push_bytes(rel, &imports);
    let ghost pad_rest = if st.imports.len() <= 8 * (import_count as int) {
        zeros(8 * (import_count as int) - st.imports.len())
    } else {
        Seq::<u8>::empty()
    };
    if import_info_size <= reserve {
        push_zeros(rel, reserve - import_info_size);
    }
    assert(rel@ =~= afterpad + st.imports + pad_rest);
    push_bytes(rel, &stream);
    assert(rel@ =~= afterpad + st.imports + pad_rest + st.stream + rec8(0, 203, 0, 0));
    Ok(
        RelocationStats {
            relocations_offset: relocation_offset,
            import_info_offset: import_info_offset,
            import_info_size: import_info_size,
        },
    )
}

// --- Header ---

pub open spec fn prolog_name() -> Seq<u8> {
    seq![0x5fu8, 0x70, 0x72, 0x6f, 0x6c, 0x6f, 0x67]
}

pub open spec fn epilog_name() -> Seq<u8> {
    seq![0x5fu8, 0x65, 0x70, 0x69, 0x6c, 0x6f, 0x67]
}

pub open spec fn unresolved_name() -> Seq<u8> {
    seq![0x5fu8, 0x75, 0x6e, 0x72, 0x65, 0x73, 0x6f, 0x6c, 0x76, 0x65, 0x64]
}

/// The first symbol at index `j` or later whose name is `name`.
pub open spec fn find_sym(syms: Seq<SymV>, name: Seq<u8>, j: int) -> Option<int>
    decreases syms.len() - j,
{
    if j >= syms.len() {
        None
    } else if syms[j].name == name {
        Some(j)
    } else {
        find_sym(syms, name, j + 1)
    }
}

/// The (section byte, offset) of a required symbol: it must exist and be
/// defined in an ordinary section.
pub open spec fn required_symbol(syms: Seq<SymV>, name: Seq<u8>) -> Result<(u8, u32), ErrV> {
    match find_sym(syms, name, 0) {
        None => Err(ErrV::MissingSymbol(name)),
        Some(j) => {
            let sy = syms[j];
            if 1 <= sy.shndx < 0xff00 {
                Ok((((sy.shndx as u32) % 0x100) as u8, sy.value))
            } else {
                Err(ErrV::MissingSymbol(name))
            }
        },
    }
}

/// The header bytes: every field of the fixed layout, all big-endian, then
/// the v2 addendum (alignment maxima) and the v3 addendum (fixed data size,
/// which equals the relocation stream offset) as the revision asks.
pub open spec fn spec_header_bytes(
    mid: u32,
    v: RelVersion,
    nsec: int,
    si: int,
    total_bss: u32,
    rel_off: int,
    imp_off: int,
    imp_size: int,
    pro: (u8, u32),
    epi: (u8, u32),
    unres: (u8, u32),
    maxa: u32,
    maxba: u32,
) -> Seq<u8> {
    be32(mid) + be32(0) + be32(0) + be32(lo32(nsec)) + be32(lo32(si)) + be32(0) + be32(0) + be32(
        v.spec_number(),
    ) + be32(total_bss) + be32(lo32(rel_off)) + be32(lo32(imp_off)) + be32(lo32(imp_size)) + seq![
        pro.0,
        epi.0,
        unres.0,
        0u8,
    ] + be32(pro.1) + be32(epi.1) + be32(unres.1) + (if v.has_v2() {
        be32(maxa) + be32(maxba)
    } else {
        Seq::empty()
    }) + (if v.has_v3() {
        be32(lo32(rel_off))
    } else {
        Seq::empty()
    })
}

/// The output with its header written over the placeholder prefix, after
/// resolving `_prolog`, `_epilog` and `_unresolved`.
pub open spec fn spec_write_header(
    out: Seq<u8>,
    syms: Seq<SymV>,
    mid: u32,
    v: RelVersion,
    si: int,
    nsec: int,
    total_bss: u32,
    maxa: u32,
    maxba: u32,
    rel_off: int,
    imp_off: int,
    imp_size: int,
) -> Result<Seq<u8>, ErrV> {
    match required_symbol(syms, prolog_name()) {
        Err(e) => Err(e),
        Ok(pro) => match required_symbol(syms, epilog_name()) {
            Err(e) => Err(e),
            Ok(epi) => match required_symbol(syms, unresolved_name()) {
                Err(e) => Err(e),
                Ok(unres) => Ok(
                    splice(
                        out,
                        0,
                        spec_header_bytes(
                            mid,
                            v,
                            nsec,
                            si,
                            total_bss,
                            rel_off,
                            imp_off,
                            imp_size,
                            pro,
                            epi,
                            unres,
                            maxa,
                            maxba,
                        ),
                    ),
                ),
            },
        },
    }
}

/// Finds the first symbol with the given name.
#[verifier::loop_isolation(false)]
pub fn find_symbol(symbols: &Vec<crate::elf::ElfSymbol>, name: &Vec<u8>) -> (r: Option<usize>)
    ensures
        ({
            let syms = symbols@.map_values(|s: crate::elf::ElfSymbol| s@);
            match r {
                Some(j) => j < syms.len() && find_sym(syms, name@, 0) == Some(j as int),
                None => find_sym(syms, name@, 0) is None,
            }
        }),
{
    let ghost syms = symbols@.map_values(|s: crate::elf::ElfSymbol| s@);
    let n = symbols.len();
    let mut j: usize = 0;
    while j < n
        invariant
            j <= n,
            n == syms.len(),
            find_sym(syms, name@, 0) == find_sym(syms, name@, j as int),
        decreases n - j,
    {
        if crate::symmap::eq_bytes(symbols[j].name.as_slice(), name.as_slice()) {
            return Some(j);
        }
        j = j + 1;
    }
    None
}

/// Resolves one required symbol as [`required_symbol`] describes.
fn required_symbol_exec(symbols: &Vec<crate::elf::ElfSymbol>, name: &Vec<u8>) -> (r: Result<
    (u8, u32),
    Elf2RelError,
>)
    ensures
        ({
            let syms = symbols@.map_values(|s: crate::elf::ElfSymbol| s@);
            match r {
                Ok(t) => required_symbol(syms, name@) == Ok::<(u8, u32), ErrV>(t),
                Err(e) => required_symbol(syms, name@) == Err::<(u8, u32), ErrV>(e@),
            }
        }),
{
    match find_symbol(symbols, name) {
        None => {
            let mut name_copy: Vec<u8> = Vec::new();
            push_bytes(&mut name_copy, name);
            assert(name_copy@ =~= name@);
            Err(Elf2RelError::MissingSymbol(name_copy))
        },
        Some(j) => {
            let sy = &symbols[j];
            if 1 <= sy.shndx && sy.shndx < 0xff00 {
                Ok((((sy.shndx as u32) % 0x100) as u8, sy.value))
            } else {
                let mut name_copy: Vec<u8> = Vec::new();
                push_bytes(&mut name_copy, name);
                assert(name_copy@ =~= name@);
                Err(Elf2RelError::MissingSymbol(name_copy))
            }
        },
    }
}

fn make_prolog_name() -> (v: Vec<u8>)
    ensures
        v@ == prolog_name(),
{
    let mut v: Vec<u8> = Vec::new();
    v.push(0x5f);
    v.push(0x70);
    v.push(0x72);
    v.push(0x6f);
    v.push(0x6c);
    v.push(0x6f);
    v.push(0x67);
    assert(v@ =~= prolog_name());
    v
}

fn make_epilog_name() -> (v: Vec<u8>)
    ensures
        v@ == epilog_name(),
{
    let mut v: Vec<u8> = Vec::new();
    v.push(0x5f);
    v.push(0x65);
    v.push(0x70);
    v.push(0x69);
    v.push(0x6c);
    v.push(0x6f);
    v.push(0x67);
    assert(v@ =~= epilog_name());
    v
}

fn make_unresolved_name() -> (v: Vec<u8>)
    ensures
        v@ == unresolved_name(),
{
    let mut v: Vec<u8> = Vec::new();
    v.push(0x5f);
    v.push(0x75);
    v.push(0x6e);
    v.push(0x72);
    v.push(0x65);
    v.push(0x73);
    v.push(0x6f);
    v.push(0x6c);
    v.push(0x76);
    v.push(0x65);
    v.push(0x64);
    assert(v@ =~= unresolved_name());
    v
}

/// Fills the module header over the placeholder prefix: identity, region
/// offsets and sizes, the three entry points, and the version addenda.
#[verifier::loop_isolation(false)]
#[verifier::rlimit(100)]
pub fn write_module_header(
    elf: &ElfFile,
    rel: &mut Vec<u8>,
    module_id: u32,
    rel_version: RelVersion,
    section_stats: &SectionStats,
    relocation_stats: &RelocationStats,
) -> (r: Result<(), Elf2RelError>)
    requires
        header_size(rel_version) <= old(rel)@.len(),
    ensures
        ({
            let spec_r = spec_write_header(
                old(rel)@,
                elf@.syms,
                module_id,
                rel_version,
                section_stats.section_info_offset as int,
                elf@.secs.len() as int,
                section_stats.total_bss_size,
                section_stats.max_align,
                section_stats.max_bss_align,
                relocation_stats.relocations_offset as int,
                relocation_stats.import_info_offset as int,
                relocation_stats.import_info_size as int,
            );
            match r {
                Ok(u) => spec_r == Ok::<Seq<u8>, ErrV>(final(rel)@),
                Err(e) => spec_r == Err::<Seq<u8>, ErrV>(e@) && final(rel)@ == old(rel)@,
            }
        }),
{
    let pname = make_prolog_name();
    let ename = make_epilog_name();
    let uname = make_unresolved_name();
    let pro = match required_symbol_exec(&elf.symbols, &pname) {
        Ok(t) => t,
        Err(e) => {
            return Err(e);
        },
    };
    let epi = match required_symbol_exec(&elf.symbols, &ename) {
        Ok(t) => t,
        Err(e) => {
            return Err(e);
        },
    };
    let unres = match required_symbol_exec(&elf.symbols, &uname) {
        Ok(t) => t,
        Err(e) => {
            return Err(e);
        },
    };

    let mut hdr: Vec<u8> = Vec::new();
    push_u32_be(&mut hdr, module_id);
    push_u32_be(&mut hdr, 0);
    push_u32_be(&mut hdr, 0);
    push_u32_be(&mut hdr, crate::bebytes::lo32_u64(elf.sections.len() as u64));
    push_u32_be(&mut hdr, crate::bebytes::lo32_u64(section_stats.section_info_offset as u64));
    push_u32_be(&mut hdr, 0);
    push_u32_be(&mut hdr, 0);
    push_u32_be(&mut hdr, rel_version.number() as u32);
    push_u32_be(&mut hdr, section_stats.total_bss_size);
    push_u32_be(&mut hdr, crate::bebytes::lo32_u64(relocation_stats.relocations_offset as u64));
    push_u32_be(&mut hdr, crate::bebytes::lo32_u64(relocation_stats.import_info_offset as u64));
    push_u32_be(&mut hdr, crate::bebytes::lo32_u64(relocation_stats.import_info_size as u64));
    hdr.push(pro.0);
    hdr.push(epi.0);
    hdr.push(unres.0);
    hdr.push(0);
    push_u32_be(&mut hdr, pro.1);
    push_u32_be(&mut hdr, epi.1);
    push_u32_be(&mut hdr, unres.1);
    let v2 = match rel_version {
        RelVersion::V1 => false,
        RelVersion::V2 => true,
        RelVersion::V3 => true,
    };
    let v3 = match rel_version {
        RelVersion::V3 => true,
        _ => false,
    };
    if v2 {
        push_u32_be(&mut hdr, section_stats.max_align);
        push_u32_be(&mut hdr, section_stats.max_bss_align);
    }
    if v3 {
        push_u32_be(&mut hdr, crate::bebytes::lo32_u64(relocation_stats.relocations_offset as u64));
    }
    assert(hdr@ =~= spec_header_bytes(
        module_id,
        rel_version,
        elf@.secs.len() as int,
        section_stats.section_info_offset as int,
        section_stats.total_bss_size,
        relocation_stats.relocations_offset as int,
        relocation_stats.import_info_offset as int,
        relocation_stats.import_info_size as int,
        pro,
        epi,
        unres,
        section_stats.max_align,
        section_stats.max_bss_align,
    ));
    assert(hdr@.len() == header_size(rel_version));
    splice_bytes(rel, 0, &hdr);
    Ok(())
}

// --- The conversion ---

/// The whole conversion as a function of the input bytes: the parsed ELF
/// laid out section by section, its relocations collected, sorted, resolved
/// or encoded, and the header written over the placeholder. Errors are the
/// first failure in that order.
pub open spec fn spec_elf2rel(eb: Seq<u8>, mb: Seq<u8>, mid: u32, v: RelVersion) -> Result<
    Seq<u8>,
    ErrV,
> {
    match spec_elf_err(eb) {
        Some(e) => Err(e),
        None => {
            let f = spec_elf_file(eb);
            let hs = header_size(v);
            match spec_layout(f.secs, f.secs.len() as int, layout_init(zeros(hs), f.secs.len() as int)) {
                Err(e) => Err(e),
                Ok(lay) => {
                    let out1 = splice(lay.out, hs, lay.info);
                    match spec_extract(f.secs, lay.offs, f.syms, mb, mid) {
                        Err(e) => Err(e),
                        Ok(sorted) => match spec_write_relocations(out1, lay.offs, sorted, mid) {
                            Err(e) => Err(e),
                            Ok(t) => spec_write_header(
                                t.0,
                                f.syms,
                                mid,
                                v,
                                hs,
                                f.secs.len() as int,
                                lay.total_bss,
                                lay.max_align,
                                lay.max_bss_align,
                                t.2,
                                t.1,
                                t.3,
                            ),
                        },
                    }
                },
            }
        },
    }
}

/// Converts a big-endian PowerPC relocatable ELF into a REL module.
///
/// `elf_buf` holds the ELF object, `symbol_map` the plaintext address map
/// for external symbols, `module_id` the module's identity, and
/// `rel_version` the header revision. The returned bytes are exactly
/// [`spec_elf2rel`] of the inputs, which pins the conversion byte for byte;
/// on any invalid input the matching error is returned and nothing else.
#[verifier::loop_isolation(false)]
#[verifier::rlimit(100)]
pub fn elf2rel(
    elf_buf: &[u8],
    symbol_map: &[u8],
    module_id: u32,
    rel_version: RelVersion,
) -> (r: Result<Vec<u8>, Elf2RelError>)
    requires
        symbol_map@.len() < usize::MAX,
    ensures
        match r {
            Ok(v) => spec_elf2rel(elf_buf@, symbol_map@, module_id, rel_version) == Ok::<
                Seq<u8>,
                ErrV,
            >(v@),
            Err(e) => spec_elf2rel(elf_buf@, symbol_map@, module_id, rel_version) == Err::<
                Seq<u8>,
                ErrV,
            >(e@),
        },
{
    let elf = match parse_elf(elf_buf) {
        Ok(f) => f,
        Err(e) => {
            return Err(e);
        },
    };
    assert(elf@ == spec_elf_file(elf_buf@));
    assert(elf@.secs.len() <= 0xffff) by {
        assert(elf@.secs.len() == crate::elf::shnum(elf_buf@));
    }

    let mut rel: Vec<u8> = Vec::new();
    let hs: usize = match rel_version {
        RelVersion::V1 => 0x40,
        RelVersion::V2 => 0x48,
        RelVersion::V3 => 0x4c,
    };
    push_zeros(&mut rel, hs);
    assert(rel@ =~= zeros(header_size(rel_version)));

    let section_stats = match write_sections(&elf, &mut rel) {
        Ok(st) => st,
        Err(e) => {
            return Err(e);
        },
    };
    let relocations = match extract_relocations(
        &elf,
        symbol_map,
        module_id,
        &section_stats.section_offsets,
    ) {
        Ok(v) => v,
        Err(e) => {
            return Err(e);
        },
    };
    let relocation_stats = match write_relocations(
        &mut rel,
        &relocations,
        module_id,
        &section_stats.section_offsets,
    ) {
        Ok(st) => st,
        Err(e) => {
            return Err(e);
        },
    };
    match write_module_header(
        &elf,
        &mut rel,
        module_id,
        rel_version,
        &section_stats,
        &relocation_stats,
    ) {
        Ok(u) => Ok(rel),
        Err(e) => Err(e),
    }
}

} // verus!
