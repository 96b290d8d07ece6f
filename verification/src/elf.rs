//! A reader for big-endian 32-bit PowerPC relocatable ELF objects.
//!
//! The reader exposes exactly what the REL converter consumes: each section's
//! name, kind, alignment, size, raw bytes and RELA relocations, and the symbol
//! table. The specification functions below read every field straight out of
//! the input bytes, so the parsed value is pinned byte for byte.

use vstd::prelude::*;

use crate::bebytes::{read_u16_be, read_u32_be, u16_at, u32_at};
use crate::errors::{Elf2RelError, ErrV};

verus! {

/// One RELA relocation: source offset, symbol index, type code, addend.
#[derive(Clone, Copy, PartialEq, Eq, Structural, Debug)]
pub struct RelaEntry {
    pub offset: u32,
    pub sym: u32,
    pub rtype: u8,
    pub addend: u32,
}

/// One ELF section as the converter sees it.
pub struct ElfSection {
    pub name: Vec<u8>,
    /// `SHT_NOBITS`: occupies no file bytes.
    pub bss: bool,
    /// Executable program text (`SHT_PROGBITS` with `SHF_EXECINSTR`).
    pub text: bool,
    pub align: u32,
    pub size: u32,
    /// Raw bytes; empty for BSS sections.
    pub data: Vec<u8>,
    /// Relocations whose source lies in this section.
    pub relocs: Vec<RelaEntry>,
}

/// One symbol table entry.
pub struct ElfSymbol {
    pub name: Vec<u8>,
    /// Owning section index; 0 means undefined, `0xff00..` are reserved.
    pub shndx: u16,
    pub value: u32,
}

/// A parsed ELF object: all sections in file order, and all symbols.
pub struct ElfFile {
    pub sections: Vec<ElfSection>,
    pub symbols: Vec<ElfSymbol>,
}

/// Mathematical image of [`ElfSection`].
#[verifier::ext_equal]
pub struct SecV {
    pub name: Seq<u8>,
    pub bss: bool,
    pub text: bool,
    pub align: u32,
    pub size: u32,
    pub data: Seq<u8>,
    pub relocs: Seq<RelaEntry>,
}

/// Mathematical image of [`ElfSymbol`].
#[verifier::ext_equal]
pub struct SymV {
    pub name: Seq<u8>,
    pub shndx: u16,
    pub value: u32,
}

/// Mathematical image of [`ElfFile`].
#[verifier::ext_equal]
pub struct ElfV {
    pub secs: Seq<SecV>,
    pub syms: Seq<SymV>,
}

impl View for ElfSection {
    type V = SecV;

    open spec fn view(&self) -> SecV {
        SecV {
            name: self.name@,
            bss: self.bss,
            text: self.text,
            align: self.align,
            size: self.size,
            data: self.data@,
            relocs: self.relocs@,
        }
    }
}

impl View for ElfSymbol {
    type V = SymV;

    open spec fn view(&self) -> SymV {
        SymV { name: self.name@, shndx: self.shndx, value: self.value }
    }
}

impl View for ElfFile {
    type V = ElfV;

    open spec fn view(&self) -> ElfV {
        ElfV {
            secs: self.sections@.map_values(|s: ElfSection| s@),
            syms: self.symbols@.map_values(|s: ElfSymbol| s@),
        }
    }
}

// --- Field readers over the raw bytes (ELF32 big-endian layout) ---

pub open spec fn shoff(b: Seq<u8>) -> int {
    u32_at(b, 32) as int
}

pub open spec fn shentsize(b: Seq<u8>) -> int {
    u16_at(b, 46) as int
}

pub open spec fn shnum(b: Seq<u8>) -> int {
    u16_at(b, 48) as int
}

pub open spec fn shstrndx(b: Seq<u8>) -> int {
    u16_at(b, 50) as int
}

pub open spec fn shbase(b: Seq<u8>, i: int) -> int {
    shoff(b) + 40 * i
}

pub open spec fn sh_name_off(b: Seq<u8>, i: int) -> int {
    u32_at(b, shbase(b, i)) as int
}

pub open spec fn sh_type(b: Seq<u8>, i: int) -> int {
    u32_at(b, shbase(b, i) + 4) as int
}

pub open spec fn sh_flags(b: Seq<u8>, i: int) -> u32 {
    u32_at(b, shbase(b, i) + 8)
}

pub open spec fn sh_offset(b: Seq<u8>, i: int) -> int {
    u32_at(b, shbase(b, i) + 16) as int
}

pub open spec fn sh_size(b: Seq<u8>, i: int) -> int {
    u32_at(b, shbase(b, i) + 20) as int
}

pub open spec fn sh_link(b: Seq<u8>, i: int) -> int {
    u32_at(b, shbase(b, i) + 24) as int
}

pub open spec fn sh_info(b: Seq<u8>, i: int) -> int {
    u32_at(b, shbase(b, i) + 28) as int
}

pub open spec fn sh_addralign(b: Seq<u8>, i: int) -> u32 {
    u32_at(b, shbase(b, i) + 32)
}

pub open spec fn sh_entsize(b: Seq<u8>, i: int) -> int {
    u32_at(b, shbase(b, i) + 36) as int
}

// --- Validity ---

/// ELF magic, 32-bit class, and a complete header.
pub open spec fn magic_ok(b: Seq<u8>) -> bool {
    b.len() >= 52 && b[0] == 0x7f && b[1] == 0x45 && b[2] == 0x4c && b[3] == 0x46 && b[4] == 1
}

/// Per-section structural requirements: data in bounds for sections that own
/// file bytes, and well-formed RELA and symbol tables.
pub open spec fn section_ok(b: Seq<u8>, i: int) -> bool {
    &&& (sh_type(b, i) == 8 || sh_offset(b, i) + sh_size(b, i) <= b.len())
    &&& (sh_type(b, i) == 4 ==> sh_entsize(b, i) == 12 && sh_size(b, i) % 12 == 0 && sh_info(b, i)
        < shnum(b))
    &&& (sh_type(b, i) == 2 ==> sh_entsize(b, i) == 16 && sh_size(b, i) % 16 == 0 && sh_link(b, i)
        < shnum(b))
}

/// The section header table exists, fits, and every section is well-formed.
pub open spec fn structure_ok(b: Seq<u8>) -> bool {
    &&& shnum(b) >= 1
    &&& shentsize(b) == 40
    &&& shoff(b) + 40 * shnum(b) <= b.len()
    &&& shstrndx(b) < shnum(b)
    &&& forall|i: int| 0 <= i < shnum(b) ==> #[trigger] section_ok(b, i)
}

/// The first reason to reject `b`, if any: not ELF, wrong endianness
/// (`EI_DATA` must be 2, big), wrong machine (`e_machine` must be 20, PowerPC),
/// or a malformed section table.
pub open spec fn spec_elf_err(b: Seq<u8>) -> Option<ErrV> {
    if !magic_ok(b) {
        Some(ErrV::NotElf)
    } else if b[5] != 2 {
        Some(ErrV::NotBigEndian)
    } else if u16_at(b, 18) != 20 {
        Some(ErrV::UnsupportedArchitecture)
    } else if !structure_ok(b) {
        Some(ErrV::NotElf)
    } else {
        None
    }
}

// --- The parsed value ---

/// The file region holding section `i`'s bytes: empty for BSS.
pub open spec fn region_start(b: Seq<u8>, i: int) -> int {
    if sh_type(b, i) == 8 {
        0
    } else {
        sh_offset(b, i)
    }
}

pub open spec fn region_size(b: Seq<u8>, i: int) -> int {
    if sh_type(b, i) == 8 {
        0
    } else {
        sh_size(b, i)
    }
}

/// The NUL-terminated byte string at `pos`, stopping at `end` or the end of `b`.
pub open spec fn cstr_at(b: Seq<u8>, pos: int, end: int) -> Seq<u8>
    decreases end - pos,
{
    if pos < 0 || pos >= end || pos >= b.len() || b[pos] == 0 {
        Seq::empty()
    } else {
        seq![b[pos]] + cstr_at(b, pos + 1, end)
    }
}

/// The name at offset `off` of the string-table region `(ro, rs)`.
pub open spec fn name_in_region(b: Seq<u8>, ro: int, rs: int, off: int) -> Seq<u8> {
    if off >= rs {
        Seq::empty()
    } else {
        cstr_at(b, ro + off, ro + rs)
    }
}

/// Section `i`'s name, looked up in the section-name string table.
pub open spec fn section_name(b: Seq<u8>, i: int) -> Seq<u8> {
    name_in_region(
        b,
        region_start(b, shstrndx(b)),
        region_size(b, shstrndx(b)),
        sh_name_off(b, i),
    )
}

/// The RELA record whose 12 bytes start at `base`.
pub open spec fn rela_entry(b: Seq<u8>, base: int) -> RelaEntry {
    RelaEntry {
        offset: u32_at(b, base),
        sym: u32_at(b, base + 4) / 0x100,
        rtype: (u32_at(b, base + 4) % 0x100) as u8,
        addend: u32_at(b, base + 8),
    }
}

/// All records of RELA section `j`.
pub open spec fn rela_entries(b: Seq<u8>, j: int) -> Seq<RelaEntry> {
    Seq::new((sh_size(b, j) / 12) as nat, |k: int| rela_entry(b, sh_offset(b, j) + 12 * k))
}

/// Relocations against section `target`, gathered from RELA sections `0..j`
/// in file order.
pub open spec fn relocs_for(b: Seq<u8>, target: int, j: int) -> Seq<RelaEntry>
    decreases j,
{
    if j <= 0 {
        Seq::empty()
    } else {
        relocs_for(b, target, j - 1) + (if sh_type(b, j - 1) == 4 && sh_info(b, j - 1) == target {
            rela_entries(b, j - 1)
        } else {
            Seq::empty()
        })
    }
}

/// Section `i` of a structurally valid ELF.
pub open spec fn spec_section(b: Seq<u8>, i: int) -> SecV {
    SecV {
        name: section_name(b, i),
        bss: sh_type(b, i) == 8,
        text: sh_type(b, i) == 1 && sh_flags(b, i) & 4 != 0,
        align: sh_addralign(b, i),
        size: sh_size(b, i) as u32,
        data: if sh_type(b, i) == 8 {
            Seq::empty()
        } else {
            b.subrange(sh_offset(b, i), sh_offset(b, i) + sh_size(b, i))
        },
        relocs: relocs_for(b, i, shnum(b)),
    }
}

/// The first section of type `SHT_SYMTAB` at index `j` or later.
pub open spec fn first_symtab(b: Seq<u8>, j: int) -> Option<int>
    decreases shnum(b) - j,
{
    if j >= shnum(b) {
        None
    } else if sh_type(b, j) == 2 {
        Some(j)
    } else {
        first_symtab(b, j + 1)
    }
}

/// The symbol whose 16 bytes start at `base`, with names from region `(ro, rs)`.
pub open spec fn sym_entry(b: Seq<u8>, base: int, ro: int, rs: int) -> SymV {
    SymV {
        name: name_in_region(b, ro, rs, u32_at(b, base) as int),
        shndx: u16_at(b, base + 14),
        value: u32_at(b, base + 4),
    }
}

/// All symbols of the first symbol table; empty when there is none.
pub open spec fn spec_symbols(b: Seq<u8>) -> Seq<SymV> {
    match first_symtab(b, 0) {
        None => Seq::empty(),
        Some(j) => Seq::new(
            (sh_size(b, j) / 16) as nat,
            |k: int| sym_entry(
                b,
                sh_offset(b, j) + 16 * k,
                region_start(b, sh_link(b, j)),
                region_size(b, sh_link(b, j)),
            ),
        ),
    }
}

/// The parsed image of a structurally valid ELF.
pub open spec fn spec_elf_file(b: Seq<u8>) -> ElfV {
    ElfV { secs: Seq::new(shnum(b) as nat, |i: int| spec_section(b, i)), syms: spec_symbols(b) }
}

// --- Executable parser ---

/// Collects the NUL-terminated byte string at `start`, stopping at `end`.
#[verifier::loop_isolation(false)]
fn read_cstr(b: &[u8], start: usize, end: usize) -> (v: Vec<u8>)
    requires
        end <= b@.len(),
        b@.len() <= usize::MAX,
    ensures
        v@ == cstr_at(b@, start as int, end as int),
{
    let mut v: Vec<u8> = Vec::new();
    let mut pos = start;
    while pos < end && b[pos] != 0
        invariant
            start <= pos,
            end <= b@.len(),
            pos <= end || pos == start,
            cstr_at(b@, start as int, end as int) == v@ + cstr_at(b@, pos as int, end as int),
        decreases end - pos,
    {
        let c = b[pos];
        v.push(c);
        assert(cstr_at(b@, pos as int, end as int) == seq![c] + cstr_at(
            b@,
            pos as int + 1,
            end as int,
        ));
        assert(v@ + cstr_at(b@, pos as int + 1, end as int) =~= (v@.drop_last() + seq![c]) + cstr_at(
            b@,
            pos as int + 1,
            end as int,
        ));
        pos = pos + 1;
    }
    proof {
        assert(cstr_at(b@, pos as int, end as int) =~= Seq::<u8>::empty());
        assert(v@ =~= v@ + Seq::<u8>::empty());
    }
    v
}

/// Builds section `i` of a validated ELF.
#[verifier::loop_isolation(false)]
fn build_section(b: &[u8], i: usize) -> (s: ElfSection)
    requires
        magic_ok(b@),
        structure_ok(b@),
        i < shnum(b@),
    ensures
        s@ == spec_section(b@, i as int),
{
    proof {
        broadcast use vstd::slice::axiom_spec_len;

        assert(b@.len() <= usize::MAX) by {
            assert(b.len() == b@.len());
        }
    }
    let nsec = read_u16_be(b, 48) as usize;
    let shoff_u = read_u32_be(b, 32) as usize;
    let strndx = read_u16_be(b, 50) as usize;
    let base = shoff_u + 40 * i;
    assert(base + 40 <= b@.len());

    let stype = read_u32_be(b, base + 4);
    let flags = read_u32_be(b, base + 8);
    let soff = read_u32_be(b, base + 16) as usize;
    let ssize = read_u32_be(b, base + 20) as usize;
    let salign = read_u32_be(b, base + 32);
    let name_off = read_u32_be(b, base) as usize;

    // Name from the section-name string table.
    let strbase = shoff_u + 40 * strndx;
    assert(section_ok(b@, strndx as int));
    let str_type = read_u32_be(b, strbase + 4);
    let (ro, rs): (usize, usize) = if str_type == 8 {
        (0, 0)
    } else {
        (read_u32_be(b, strbase + 16) as usize, read_u32_be(b, strbase + 20) as usize)
    };
    let name: Vec<u8> = if name_off >= rs {
        Vec::new()
    } else {
        read_cstr(b, ro + name_off, ro + rs)
    };
    assert(name@ == section_name(b@, i as int));

    // Raw bytes.
    assert(section_ok(b@, i as int));
    let data: Vec<u8> = if stype == 8 {
        Vec::new()
    } else {
        vstd::slice::slice_to_vec(vstd::slice::slice_subrange(b, soff, soff + ssize))
    };

    // Relocations sourced in this section, from every RELA section in order.
    let mut relocs: Vec<RelaEntry> = Vec::new();
    let mut j: usize = 0;
    while j < nsec
        invariant
            magic_ok(b@),
            structure_ok(b@),
            i < shnum(b@),
            nsec == shnum(b@),
            shoff_u == shoff(b@),
            j <= nsec,
            relocs@ == relocs_for(b@, i as int, j as int),
        decreases nsec - j,
    {
        let jbase = shoff_u + 40 * j;
        assert(section_ok(b@, j as int));
        let jtype = read_u32_be(b, jbase + 4);
        let jinfo = read_u32_be(b, jbase + 28);
        if jtype == 4 && jinfo as usize == i {
            let joff = read_u32_be(b, jbase + 16) as usize;
            let jsize = read_u32_be(b, jbase + 20) as usize;
            let count = jsize / 12;
            let mut k: usize = 0;
            while k < count
                invariant
                    magic_ok(b@),
                    structure_ok(b@),
                    i < shnum(b@),
                    j < shnum(b@),
                    sh_type(b@, j as int) == 4,
                    sh_info(b@, j as int) == i,
                    joff == sh_offset(b@, j as int),
                    jsize == sh_size(b@, j as int),
                    count == jsize / 12,
                    k <= count,
                    relocs@ == relocs_for(b@, i as int, j as int) + rela_entries(
                        b@,
                        j as int,
                    ).take(k as int),
                decreases count - k,
            {
                let ebase = joff + 12 * k;
                assert(ebase + 12 <= b@.len());
                let r_off = read_u32_be(b, ebase);
                let r_info = read_u32_be(b, ebase + 4);
                let r_add = read_u32_be(b, ebase + 8);
                let entry = RelaEntry {
                    offset: r_off,
                    sym: r_info / 0x100,
                    rtype: (r_info % 0x100) as u8,
                    addend: r_add,
                };
                assert(entry == rela_entries(b@, j as int)[k as int]);
                relocs.push(entry);
                assert(relocs@ =~= relocs_for(b@, i as int, j as int) + rela_entries(
                    b@,
                    j as int,
                ).take(k as int + 1));
                k = k + 1;
            }
            assert(rela_entries(b@, j as int).take(count as int) =~= rela_entries(b@, j as int));
            assert(relocs@ =~= relocs_for(b@, i as int, j as int + 1));
        } else {
            assert(relocs@ =~= relocs_for(b@, i as int, j as int + 1));
        }
        j = j + 1;
    }

    let s = ElfSection {
        name,
        bss: stype == 8,
        text: stype == 1 && flags & 4 != 0,
        align: salign,
        size: read_u32_be(b, base + 20),
        data,
        relocs,
    };
    assert(s@ =~= spec_section(b@, i as int));
    s
}

/// Builds the symbol table of a validated ELF.
#[verifier::loop_isolation(false)]
fn build_symbols(b: &[u8]) -> (v: Vec<ElfSymbol>)
    requires
        magic_ok(b@),
        structure_ok(b@),
    ensures
        v@.map_values(|s: ElfSymbol| s@) == spec_symbols(b@),
{
    proof {
        broadcast use vstd::slice::axiom_spec_len;

        assert(b@.len() <= usize::MAX) by {
            assert(b.len() == b@.len());
        }
    }
    let nsec = read_u16_be(b, 48) as usize;
    let shoff_u = read_u32_be(b, 32) as usize;

    // Find the first symbol table.
    let mut t: usize = 0;
    let mut found = false;
    while t < nsec && !found
        invariant
            magic_ok(b@),
            structure_ok(b@),
            nsec == shnum(b@),
            shoff_u == shoff(b@),
            t <= nsec,
            !found ==> first_symtab(b@, 0) == first_symtab(b@, t as int),
            found ==> t < nsec && first_symtab(b@, 0) == Some(t as int) && sh_type(b@, t as int)
                == 2,
        decreases nsec - t + (if found { 0int } else { 1int }),
    {
        let tbase = shoff_u + 40 * t;
        if read_u32_be(b, tbase + 4) == 2 {
            found = true;
        } else {
            t = t + 1;
        }
    }
    if !found {
        assert(first_symtab(b@, 0) is None);
        let v: Vec<ElfSymbol> = Vec::new();
        assert(v@.map_values(|s: ElfSymbol| s@) =~= spec_symbols(b@));
        return v;
    }
    assert(first_symtab(b@, 0) == Some(t as int));
    assert(section_ok(b@, t as int));

    let tbase = shoff_u + 40 * t;
    let soff = read_u32_be(b, tbase + 16) as usize;
    let ssize = read_u32_be(b, tbase + 20) as usize;
    let link = read_u32_be(b, tbase + 24) as usize;
    assert(section_ok(b@, link as int));
    let lbase = shoff_u + 40 * link;
    let ltype = read_u32_be(b, lbase + 4);
    let (ro, rs): (usize, usize) = if ltype == 8 {
        (0, 0)
    } else {
        (read_u32_be(b, lbase + 16) as usize, read_u32_be(b, lbase + 20) as usize)
    };
    assert(ro == region_start(b@, link as int) && rs == region_size(b@, link as int));

    let count = ssize / 16;
    let mut v: Vec<ElfSymbol> = Vec::new();
    let mut k: usize = 0;
    while k < count
        invariant
            magic_ok(b@),
            structure_ok(b@),
            first_symtab(b@, 0) == Some(t as int),
            t < shnum(b@),
            soff == sh_offset(b@, t as int),
            ssize == sh_size(b@, t as int),
            ro == region_start(b@, sh_link(b@, t as int)),
            rs == region_size(b@, sh_link(b@, t as int)),
            rs as int + ro as int <= b@.len(),
            count == ssize / 16,
            k <= count,
            v@.len() == k,
            forall|m: int| 0 <= m < k ==> #[trigger] v@[m]@ == spec_symbols(b@)[m],
        decreases count - k,
    {
        let ebase = soff + 16 * k;
        assert(ebase + 16 <= b@.len());
        let name_off = read_u32_be(b, ebase) as usize;
        let value = read_u32_be(b, ebase + 4);
        let shndx = read_u16_be(b, ebase + 14);
        let name: Vec<u8> = if name_off >= rs {
            Vec::new()
        } else {
            read_cstr(b, ro + name_off, ro + rs)
        };
        let sym = ElfSymbol { name, shndx, value };
        assert(sym@ =~= spec_symbols(b@)[k as int]);
        v.push(sym);
        k = k + 1;
    }
    assert(v@.map_values(|s: ElfSymbol| s@) =~= spec_symbols(b@));
    v
}

/// Parses `b` as a big-endian 32-bit PowerPC ELF object, validating the
/// container exactly as [`spec_elf_err`] describes and returning the image
/// that [`spec_elf_file`] reads out of the bytes.
#[verifier::loop_isolation(false)]
pub fn parse_elf(b: &[u8]) -> (r: Result<ElfFile, Elf2RelError>)
    ensures
        match r {
            Ok(f) => spec_elf_err(b@) is None && f@ == spec_elf_file(b@),
            Err(e) => spec_elf_err(b@) == Some(e@),
        },
{
    proof {
        broadcast use vstd::slice::axiom_spec_len;

        assert(b@.len() <= usize::MAX) by {
            assert(b.len() == b@.len());
        }
    }
    if b.len() < 52 {
        return Err(Elf2RelError::NotElf);
    }
    if !(b[0] == 0x7f && b[1] == 0x45 && b[2] == 0x4c && b[3] == 0x46 && b[4] == 1) {
        return Err(Elf2RelError::NotElf);
    }
    if b[5] != 2 {
        return Err(Elf2RelError::NotBigEndian);
    }
    if read_u16_be(b, 18) != 20 {
        return Err(Elf2RelError::UnsupportedArchitecture);
    }
    let shoff_u = read_u32_be(b, 32) as usize;
    let shent = read_u16_be(b, 46);
    let nsec = read_u16_be(b, 48) as usize;
    let strndx = read_u16_be(b, 50) as usize;
    if nsec == 0 || shent != 40 {
        return Err(Elf2RelError::NotElf);
    }
    if b.len() < 40 * nsec || shoff_u > b.len() - 40 * nsec {
        return Err(Elf2RelError::NotElf);
    }
    if strndx >= nsec {
        return Err(Elf2RelError::NotElf);
    }

    // Validate every section header.
    let mut i: usize = 0;
    while i < nsec
        invariant
            magic_ok(b@),
            nsec == shnum(b@),
            shoff_u == shoff(b@),
            shoff(b@) + 40 * shnum(b@) <= b@.len(),
            i <= nsec,
            forall|m: int| 0 <= m < i ==> #[trigger] section_ok(b@, m),
        decreases nsec - i,
    {
        let base = shoff_u + 40 * i;
        let stype = read_u32_be(b, base + 4);
        let soff = read_u32_be(b, base + 16) as usize;
        let ssize = read_u32_be(b, base + 20) as usize;
        let slink = read_u32_be(b, base + 24) as usize;
        let sinfo = read_u32_be(b, base + 28) as usize;
        let sent = read_u32_be(b, base + 36);
        if stype != 8 {
            if soff > b.len() || ssize > b.len() - soff {
                assert(!section_ok(b@, i as int));
                return Err(Elf2RelError::NotElf);
            }
        }
        if stype == 4 {
            if !(sent == 12 && ssize % 12 == 0 && sinfo < nsec) {
                assert(!section_ok(b@, i as int));
                return Err(Elf2RelError::NotElf);
            }
        }
        if stype == 2 {
            if !(sent == 16 && ssize % 16 == 0 && slink < nsec) {
                assert(!section_ok(b@, i as int));
                return Err(Elf2RelError::NotElf);
            }
        }
        assert(section_ok(b@, i as int));
        i = i + 1;
    }
    assert(structure_ok(b@));

    // Build the parsed image.
    let mut sections: Vec<ElfSection> = Vec::new();
    let mut s: usize = 0;
    while s < nsec
        invariant
            magic_ok(b@),
            structure_ok(b@),
            nsec == shnum(b@),
            s <= nsec,
            sections@.len() == s,
            forall|m: int| 0 <= m < s ==> #[trigger] sections@[m]@ == spec_section(b@, m),
        decreases nsec - s,
    {
        let sec = build_section(b, s);
        sections.push(sec);
        s = s + 1;
    }
    let symbols = build_symbols(b);
    let f = ElfFile { sections, symbols };
    assert(f@.secs =~= spec_elf_file(b@).secs);
    assert(f@ =~= spec_elf_file(b@));
    Ok(f)
}

} // verus!
