//! Failure cases of the ELF to REL conversion. The conversion fails fast:
//! the first problem found is returned and no output is produced.

use vstd::prelude::*;

verus! {

/// Why a conversion was refused.
#[derive(Debug, PartialEq, Eq)]
pub enum Elf2RelError {
    /// The input is not a well-formed 32-bit ELF object.
    NotElf,
    /// The ELF is little-endian; only big-endian PowerPC is handled.
    NotBigEndian,
    /// The ELF machine type is not PowerPC.
    UnsupportedArchitecture,
    /// A relocation names no symbol (symbol index zero).
    UnsupportedRelocationTarget,
    /// A relocation's symbol index is outside the symbol table.
    InvalidSymbolIndex,
    /// A relocation carries a type code outside the recognized PowerPC set.
    UnknownRelocationType(u8),
    /// A relocation's symbol lives in a special section (absolute, common, ...).
    UnsupportedSymbolSection,
    /// An undefined symbol does not appear in the symbol map.
    ExternalSymbolNotFound(Vec<u8>),
    /// The symbol map is not valid UTF-8.
    MapNotUtf8,
    /// A symbol map line has no `:` separator (1-based line number).
    MapMissingSeparator(usize),
    /// A symbol map line has an empty name after the `:` (1-based line number).
    MapEmptyName(usize),
    /// A symbol map address is not a hexadecimal `u32` (1-based line number).
    MapBadAddress(usize),
    /// `_prolog`, `_epilog` or `_unresolved` is absent or has no defining section.
    MissingSymbol(Vec<u8>),
    /// An intra-module branch relocation points at a section that was not
    /// written to the output, or outside the written bytes.
    UnresolvableRelocation,
    /// A relocation type that the REL instruction stream cannot carry.
    UnsupportedRelocationType(u8),
    /// The laid-out file would not fit in this machine's address space.
    OutputTooLarge,
}

/// Mathematical image of [`Elf2RelError`]: byte vectors become sequences.
pub enum ErrV {
    NotElf,
    NotBigEndian,
    UnsupportedArchitecture,
    UnsupportedRelocationTarget,
    InvalidSymbolIndex,
    UnknownRelocationType(u8),
    UnsupportedSymbolSection,
    ExternalSymbolNotFound(Seq<u8>),
    MapNotUtf8,
    MapMissingSeparator(usize),
    MapEmptyName(usize),
    MapBadAddress(usize),
    MissingSymbol(Seq<u8>),
    UnresolvableRelocation,
    UnsupportedRelocationType(u8),
    OutputTooLarge,
}

impl View for Elf2RelError {
    type V = ErrV;

    open spec fn view(&self) -> ErrV {
        match self {
            Elf2RelError::NotElf => ErrV::NotElf,
            Elf2RelError::NotBigEndian => ErrV::NotBigEndian,
            Elf2RelError::UnsupportedArchitecture => ErrV::UnsupportedArchitecture,
            Elf2RelError::UnsupportedRelocationTarget => ErrV::UnsupportedRelocationTarget,
            Elf2RelError::InvalidSymbolIndex => ErrV::InvalidSymbolIndex,
            Elf2RelError::UnknownRelocationType(t) => ErrV::UnknownRelocationType(*t),
            Elf2RelError::UnsupportedSymbolSection => ErrV::UnsupportedSymbolSection,
            Elf2RelError::ExternalSymbolNotFound(n) => ErrV::ExternalSymbolNotFound(n@),
            Elf2RelError::MapNotUtf8 => ErrV::MapNotUtf8,
            Elf2RelError::MapMissingSeparator(l) => ErrV::MapMissingSeparator(*l),
            Elf2RelError::MapEmptyName(l) => ErrV::MapEmptyName(*l),
            Elf2RelError::MapBadAddress(l) => ErrV::MapBadAddress(*l),
            Elf2RelError::MissingSymbol(n) => ErrV::MissingSymbol(n@),
            Elf2RelError::UnresolvableRelocation => ErrV::UnresolvableRelocation,
            Elf2RelError::UnsupportedRelocationType(t) => ErrV::UnsupportedRelocationType(*t),
            Elf2RelError::OutputTooLarge => ErrV::OutputTooLarge,
        }
    }
}

} // verus!
