//! The plaintext symbol map: `HEXADDR:NAME` lines, `//` comments, blank
//! lines. Parsed into a name-to-address list where a repeated name's last
//! occurrence wins.

use vstd::prelude::*;

use crate::errors::{Elf2RelError, ErrV};

verus! {

/// One parsed map line: a symbol name and its absolute address.
#[derive(Debug)]
pub struct MapEntry {
    pub name: Vec<u8>,
    pub addr: u32,
}

/// Mathematical image of [`MapEntry`].
#[verifier::ext_equal]
pub struct MapEntryV {
    pub name: Seq<u8>,
    pub addr: u32,
}

impl View for MapEntry {
    type V = MapEntryV;

    open spec fn view(&self) -> MapEntryV {
        MapEntryV { name: self.name@, addr: self.addr }
    }
}

/// The parsed symbol map, in line order.
#[derive(Debug)]
pub struct SymbolMap {
    pub entries: Vec<MapEntry>,
}

impl View for SymbolMap {
    type V = Seq<MapEntryV>;

    open spec fn view(&self) -> Seq<MapEntryV> {
        self.entries@.map_values(|e: MapEntry| e@)
    }
}

// --- Character classes ---

/// ASCII whitespace, as trimmed from map lines.
pub open spec fn is_space(c: u8) -> bool {
    c == 0x20 || c == 0x09 || c == 0x0a || c == 0x0b || c == 0x0c || c == 0x0d
}

pub open spec fn is_hex_digit(c: u8) -> bool {
    (0x30 <= c <= 0x39) || (0x41 <= c <= 0x46) || (0x61 <= c <= 0x66)
}

pub open spec fn hex_digit_val(c: u8) -> int {
    if 0x30 <= c <= 0x39 {
        c - 0x30
    } else if 0x41 <= c <= 0x46 {
        c - 0x41 + 10
    } else if 0x61 <= c <= 0x66 {
        c - 0x61 + 10
    } else {
        0
    }
}

// --- Index arithmetic over the raw bytes ---

/// First index in `[i, end)` holding `c`, else `end`.
pub open spec fn find_in(b: Seq<u8>, i: int, end: int, c: u8) -> int
    decreases end - i,
{
    if i >= end {
        end
    } else if b[i] == c {
        i
    } else {
        find_in(b, i + 1, end, c)
    }
}

/// First index in `[i, end)` holding a non-space byte, else `end`.
pub open spec fn skip_spaces(b: Seq<u8>, i: int, end: int) -> int
    decreases end - i,
{
    if i >= end {
        end
    } else if is_space(b[i]) {
        skip_spaces(b, i + 1, end)
    } else {
        i
    }
}

/// One past the last non-space byte of `[i, end)`, else `i`.
pub open spec fn rskip_spaces(b: Seq<u8>, i: int, end: int) -> int
    decreases end - i,
{
    if end <= i {
        i
    } else if is_space(b[end - 1]) {
        rskip_spaces(b, i, end - 1)
    } else {
        end
    }
}

// --- Hexadecimal address parsing ---

/// Every byte of `[lo, hi)` is a hexadecimal digit.
pub open spec fn all_hex(b: Seq<u8>, lo: int, hi: int) -> bool {
    forall|k: int| lo <= k < hi ==> is_hex_digit(#[trigger] b[k])
}

/// The value of the digits `[lo, hi)`, read base 16 left to right.
pub open spec fn hex_val(b: Seq<u8>, lo: int, hi: int) -> int
    decreases hi - lo,
{
    if hi <= lo {
        0
    } else {
        hex_val(b, lo, hi - 1) * 16 + hex_digit_val(b[hi - 1])
    }
}

/// `[lo, hi)` parsed as a hexadecimal `u32`, tolerating one leading `+`:
/// `None` on an empty digit string, a stray byte, or overflow.
pub open spec fn spec_parse_hex(b: Seq<u8>, lo: int, hi: int) -> Option<u32> {
    let dlo = if hi > lo && b[lo] == 0x2b {
        lo + 1
    } else {
        lo
    };
    if dlo == hi || !all_hex(b, dlo, hi) || hex_val(b, dlo, hi) > u32::MAX {
        None
    } else {
        Some(hex_val(b, dlo, hi) as u32)
    }
}

pub proof fn lemma_find_in_bounds(b: Seq<u8>, i: int, end: int, c: u8)
    requires
        i <= end,
    ensures
        i <= find_in(b, i, end, c) <= end,
    decreases end - i,
{
    if i < end && b[i] != c {
        lemma_find_in_bounds(b, i + 1, end, c);
    }
}

pub proof fn lemma_hex_val_nonneg(b: Seq<u8>, lo: int, hi: int)
    ensures
        hex_val(b, lo, hi) >= 0,
    decreases hi - lo,
{
    if hi > lo {
        lemma_hex_val_nonneg(b, lo, hi - 1);
        assert(hex_val(b, lo, hi - 1) * 16 >= 0) by (nonlinear_arith)
            requires
                hex_val(b, lo, hi - 1) >= 0,
        ;
    }
}

pub proof fn lemma_hex_val_mono(b: Seq<u8>, lo: int, mid: int, hi: int)
    requires
        lo <= mid <= hi,
    ensures
        hex_val(b, lo, hi) >= hex_val(b, lo, mid),
    decreases hi - mid,
{
    if mid < hi {
        lemma_hex_val_mono(b, lo, mid, hi - 1);
        lemma_hex_val_nonneg(b, lo, hi - 1);
        assert(hex_val(b, lo, hi - 1) * 16 >= hex_val(b, lo, hi - 1)) by (nonlinear_arith)
            requires
                hex_val(b, lo, hi - 1) >= 0,
        ;
    }
}

// --- Line-by-line parse ---

/// The line end with a trailing carriage return stripped.
pub open spec fn line_hi(b: Seq<u8>, i: int, j: int) -> int {
    if j > i && b[j - 1] == 0x0d {
        j - 1
    } else {
        j
    }
}

/// Parses the line occupying `[lo, hi)` (1-based line `ln`): `Ok(None)` for a
/// blank or `//` comment line, otherwise the entry or the first error.
pub open spec fn spec_parse_line(b: Seq<u8>, lo: int, hi: int, ln: usize) -> Result<
    Option<MapEntryV>,
    ErrV,
> {
    let tlo = skip_spaces(b, lo, hi);
    let thi = rskip_spaces(b, tlo, hi);
    if tlo == thi || (thi - tlo >= 2 && b[tlo] == 0x2f && b[tlo + 1] == 0x2f) {
        Ok(None)
    } else {
        let c = find_in(b, tlo, thi, 0x3a);
        if c == thi {
            Err(ErrV::MapMissingSeparator(ln))
        } else {
            let nlo = skip_spaces(b, c + 1, thi);
            let nhi = rskip_spaces(b, nlo, thi);
            if nlo == nhi {
                Err(ErrV::MapEmptyName(ln))
            } else {
                let alo = skip_spaces(b, tlo, c);
                let ahi = rskip_spaces(b, alo, c);
                match spec_parse_hex(b, alo, ahi) {
                    None => Err(ErrV::MapBadAddress(ln)),
                    Some(a) => Ok(Some(MapEntryV { name: b.subrange(nlo, nhi), addr: a })),
                }
            }
        }
    }
}

/// Parses the lines of `b` from position `i` on (line number `ln`), appending
/// entries to `acc`. Lines end at a line feed; a last line without one counts.
pub open spec fn spec_parse_from(b: Seq<u8>, i: int, ln: usize, acc: Seq<MapEntryV>) -> Result<
    Seq<MapEntryV>,
    ErrV,
>
    decreases b.len() - i + 1,
    via spec_parse_from_dec
{
    if i >= b.len() || ln == usize::MAX {
        Ok(acc)
    } else {
        let j = find_in(b, i, b.len() as int, 0x0a);
        let hi = line_hi(b, i, j);
        match spec_parse_line(b, i, hi, ln) {
            Err(e) => Err(e),
            Ok(None) => spec_parse_from(b, j + 1, (ln + 1) as usize, acc),
            Ok(Some(e)) => spec_parse_from(b, j + 1, (ln + 1) as usize, acc.push(e)),
        }
    }
}

#[via_fn]
proof fn spec_parse_from_dec(b: Seq<u8>, i: int, ln: usize, acc: Seq<MapEntryV>) {
    if i < b.len() && ln != usize::MAX {
        lemma_find_in_bounds(b, i, b.len() as int, 0x0a);
    }
}

/// The parsed image of a symbol map: its entries in line order, or the first
/// error. The bytes must be UTF-8.
pub open spec fn spec_parse_map(b: Seq<u8>) -> Result<Seq<MapEntryV>, ErrV> {
    if !vstd::utf8::valid_utf8(b) {
        Err(ErrV::MapNotUtf8)
    } else {
        spec_parse_from(b, 0, 1, Seq::empty())
    }
}

/// The address the map gives `name`: the last matching entry wins.
pub open spec fn spec_map_get(entries: Seq<MapEntryV>, name: Seq<u8>) -> Option<u32>
    decreases entries.len(),
{
    if entries.len() == 0 {
        None
    } else if entries.last().name == name {
        Some(entries.last().addr)
    } else {
        spec_map_get(entries.drop_last(), name)
    }
}

// --- Executable parser ---

/// Relies on `core::str::from_utf8`: it succeeds exactly on valid UTF-8,
/// the property `vstd::utf8::valid_utf8` states of a byte sequence.
#[verifier::external_body]
fn utf8_valid(b: &[u8]) -> (r: bool)
    ensures
        r == vstd::utf8::valid_utf8(b@),
{
    core::str::from_utf8(b).is_ok()
}

/// Byte-for-byte equality.
pub fn eq_bytes(a: &[u8], b: &[u8]) -> (r: bool)
    ensures
        r == (a@ == b@),
{
    if a.len() != b.len() {
        assert(a@.len() != b@.len());
        return false;
    }
    let mut k: usize = 0;
    while k < a.len()
        invariant
            k <= a@.len(),
            a@.len() == b@.len(),
            forall|m: int| 0 <= m < k ==> a@[m] == b@[m],
        decreases a@.len() - k,
    {
        if a[k] != b[k] {
            return false;
        }
        k = k + 1;
    }
    proof {
        assert(a@ =~= b@);
    }
    true
}

/// First position of `c` in `[lo, hi)`, else `hi`.
#[verifier::loop_isolation(false)]
fn find_byte(b: &[u8], lo: usize, hi: usize, c: u8) -> (r: usize)
    requires
        lo <= hi <= b@.len(),
    ensures
        r == find_in(b@, lo as int, hi as int, c),
        lo <= r <= hi,
{
    let mut k = lo;
    while k < hi && b[k] != c
        invariant
            lo <= k <= hi,
            find_in(b@, lo as int, hi as int, c) == find_in(b@, k as int, hi as int, c),
        decreases hi - k,
    {
        k = k + 1;
    }
    k
}

/// The trim of `[lo, hi)`: start and end indices after dropping ASCII
/// whitespace on both sides.
#[verifier::loop_isolation(false)]
fn trim_range(b: &[u8], lo: usize, hi: usize) -> (r: (usize, usize))
    requires
        lo <= hi <= b@.len(),
    ensures
        r.0 == skip_spaces(b@, lo as int, hi as int),
        r.1 == rskip_spaces(b@, r.0 as int, hi as int),
        lo <= r.0 <= r.1 <= hi,
{
    let mut s = lo;
    while s < hi && (b[s] == 0x20 || b[s] == 0x09 || b[s] == 0x0a || b[s] == 0x0b || b[s] == 0x0c
        || b[s] == 0x0d)
        invariant
            lo <= s <= hi,
            skip_spaces(b@, lo as int, hi as int) == skip_spaces(b@, s as int, hi as int),
        decreases hi - s,
    {
        s = s + 1;
    }
    let mut e = hi;
    while e > s && (b[e - 1] == 0x20 || b[e - 1] == 0x09 || b[e - 1] == 0x0a || b[e - 1] == 0x0b
        || b[e - 1] == 0x0c || b[e - 1] == 0x0d)
        invariant
            s <= e <= hi,
            rskip_spaces(b@, s as int, hi as int) == rskip_spaces(b@, s as int, e as int),
        decreases e,
    {
        e = e - 1;
    }
    (s, e)
}

/// Parses `[lo, hi)` as a hexadecimal `u32` exactly as [`spec_parse_hex`].
#[verifier::loop_isolation(false)]
fn parse_hex_range(b: &[u8], lo: usize, hi: usize) -> (r: Option<u32>)
    requires
        lo <= hi <= b@.len(),
    ensures
        r == spec_parse_hex(b@, lo as int, hi as int),
{
    let dlo = if hi > lo && b[lo] == 0x2b {
        lo + 1
    } else {
        lo
    };
    if dlo == hi {
        return None;
    }
    let mut acc: u64 = 0;
    let mut k = dlo;
    while k < hi
        invariant
            dlo <= k <= hi,
            all_hex(b@, dlo as int, k as int),
            acc == hex_val(b@, dlo as int, k as int),
            acc <= u32::MAX,
        decreases hi - k,
    {
        let c = b[k];
        let d: u64 = if 0x30 <= c && c <= 0x39 {
            (c - 0x30) as u64
        } else if 0x41 <= c && c <= 0x46 {
            (c - 0x41) as u64 + 10
        } else if 0x61 <= c && c <= 0x66 {
            (c - 0x61) as u64 + 10
        } else {
            assert(!is_hex_digit(b@[k as int]));
            return None;
        };
        acc = acc * 16 + d;
        k = k + 1;
        if acc > 0xFFFF_FFFF {
            proof {
                lemma_hex_val_mono(b@, dlo as int, k as int, hi as int);
            }
            return None;
        }
    }
    Some(acc as u32)
}

/// Parses a symbol map: UTF-8 text whose data lines read `HEXADDR:NAME`.
/// Blank lines and `//` comments are skipped; names and addresses are
/// whitespace-trimmed; a repeated name's last line wins on lookup.
#[verifier::loop_isolation(false)]
pub fn parse_symbol_map(buf: &[u8]) -> (r: Result<SymbolMap, Elf2RelError>)
    requires
        buf@.len() < usize::MAX,
    ensures
        match r {
            Ok(m) => spec_parse_map(buf@) == Ok::<Seq<MapEntryV>, ErrV>(m@),
            Err(e) => spec_parse_map(buf@) == Err::<Seq<MapEntryV>, ErrV>(e@),
        },
{
    if !utf8_valid(buf) {
        return Err(Elf2RelError::MapNotUtf8);
    }
    let mut entries: Vec<MapEntry> = Vec::new();
    assert(entries@.map_values(|e: MapEntry| e@) =~= Seq::<MapEntryV>::empty());
    let mut i: usize = 0;
    let mut ln: usize = 1;
    while i < buf.len()
        invariant
            i <= buf@.len() + 1,
            1 <= ln <= i + 1,
            spec_parse_from(buf@, 0, 1, Seq::empty()) == spec_parse_from(
                buf@,
                i as int,
                ln,
                entries@.map_values(|e: MapEntry| e@),
            ),
        decreases buf@.len() + 1 - i,
    {
        assert(i < buf@.len());
        let j = find_byte(buf, i, buf.len(), 0x0a);
        let hi = if j > i && buf[j - 1] == 0x0d {
            j - 1
        } else {
            j
        };
        assert(hi == line_hi(buf@, i as int, j as int));
        let ghost entries0 = entries@.map_values(|e: MapEntry| e@);
        let (tlo, thi) = trim_range(buf, i, hi);
        if tlo == thi || (thi - tlo >= 2 && buf[tlo] == 0x2f && buf[tlo + 1] == 0x2f) {
            assert(spec_parse_line(buf@, i as int, hi as int, ln) == Ok::<Option<MapEntryV>, ErrV>(
                None,
            ));
        } else {
            let c = find_byte(buf, tlo, thi, 0x3a);
            if c == thi {
                return Err(Elf2RelError::MapMissingSeparator(ln));
            }
            let (nlo, nhi) = trim_range(buf, c + 1, thi);
            if nlo == nhi {
                return Err(Elf2RelError::MapEmptyName(ln));
            }
            let (alo, ahi) = trim_range(buf, tlo, c);
            match parse_hex_range(buf, alo, ahi) {
                None => {
                    return Err(Elf2RelError::MapBadAddress(ln));
                },
                Some(a) => {
                    let name = vstd::slice::slice_to_vec(vstd::slice::slice_subrange(buf, nlo, nhi));
                    entries.push(MapEntry { name, addr: a });
                    assert(entries@.map_values(|e: MapEntry| e@) =~= entries0.push(
                        MapEntryV { name: buf@.subrange(nlo as int, nhi as int), addr: a },
                    ));
                },
            }
        }
        i = j + 1;
        ln = ln + 1;
    }
    let m = SymbolMap { entries };
    assert(spec_parse_from(buf@, i as int, ln, m@) == Ok::<Seq<MapEntryV>, ErrV>(m@));
    Ok(m)
}

impl SymbolMap {
    /// Looks `name` up; the last matching entry wins.
    pub fn get(&self, name: &[u8]) -> (r: Option<u32>)
        ensures
            r == spec_map_get(self@, name@),
    {
        let mut idx = self.entries.len();
        assert(self@.take(idx as int) =~= self@);
        while idx > 0
            invariant
                idx <= self.entries@.len(),
                spec_map_get(self@, name@) == spec_map_get(self@.take(idx as int), name@),
            decreases idx,
        {
            let e = &self.entries[idx - 1];
            if eq_bytes(e.name.as_slice(), name) {
                assert(self@.take(idx as int).last() == self@[idx - 1]);
                return Some(e.addr);
            }
            assert(self@.take(idx as int).drop_last() =~= self@.take(idx - 1));
            idx = idx - 1;
        }
        assert(self@.take(0).len() == 0);
        None
    }
}

} // verus!
