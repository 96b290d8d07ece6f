//! The laws the converter obeys, stated over the specification functions
//! that pin its output, and proved once and for all.

use vstd::prelude::*;

use crate::bebytes::{
    be32, lemma_round_up, lemma_u16_at_be16, lemma_u32_at_be32, lo32, round_up, splice, u16_at,
    u32_at,
};
use crate::elf::SecV;
use crate::elf2rel::{
    header_size, layout_step, patch_all, rec8, runs, sel, spec_header_bytes, spec_is_static,
    spec_layout, spec_write_relocations, stream_step, LayoutV, RelVersion, StreamV,
};
use crate::errors::ErrV;
use crate::reloc::ElfRelocation;

verus! {

broadcast use {crate::bebytes::lemma_be16_len, crate::bebytes::lemma_be32_len};

/// The layout records one offset slot per section.
pub proof fn lemma_layout_len(secs: Seq<SecV>, j: int, st0: LayoutV)
    requires
        0 <= j <= secs.len(),
        spec_layout(secs, j, st0) is Ok,
    ensures
        (spec_layout(secs, j, st0)->Ok_0).offs.len() == st0.offs.len() + j,
        (spec_layout(secs, j, st0)->Ok_0).out.len() >= st0.out.len(),
        (spec_layout(secs, j, st0)->Ok_0).info.len() == st0.info.len() + 8 * j,
    decreases j,
{
    if j > 0 {
        assert(spec_layout(secs, j - 1, st0) is Ok);
        lemma_layout_len(secs, j - 1, st0);
        let st = spec_layout(secs, j - 1, st0)->Ok_0;
        let s = secs[j - 1];
        if sel(s.name) && !s.bss {
            let a: int = if s.align < 2 {
                2
            } else {
                s.align as int
            };
            lemma_round_up(st.out.len() as int, a);
        }
    }
}

/// A section owns file bytes exactly when it is selected and not BSS, and
/// then its recorded data offset is a multiple of `max(align, 2)`.
pub proof fn lemma_section_offsets_aligned(secs: Seq<SecV>, j: int, st0: LayoutV, i: int)
    requires
        st0.offs.len() == 0,
        0 <= i < j <= secs.len(),
        spec_layout(secs, j, st0) is Ok,
    ensures
        ({
            let lay = spec_layout(secs, j, st0)->Ok_0;
            let a: int = if secs[i].align < 2 {
                2
            } else {
                secs[i].align as int
            };
            &&& lay.offs.len() == j
            &&& (lay.offs[i] is Some <==> (sel(secs[i].name) && !secs[i].bss))
            &&& (lay.offs[i] is Some ==> (lay.offs[i]->Some_0 as int) % a == 0)
        }),
    decreases j,
{
    lemma_layout_len(secs, j, st0);
    assert(spec_layout(secs, j - 1, st0) is Ok);
    lemma_layout_len(secs, j - 1, st0);
    let st = spec_layout(secs, j - 1, st0)->Ok_0;
    let s = secs[j - 1];
    if i < j - 1 {
        lemma_section_offsets_aligned(secs, j - 1, st0, i);
        let lay = spec_layout(secs, j, st0)->Ok_0;
        assert(lay.offs[i] == st.offs[i]);
    } else {
        // the step for section i itself
        if sel(s.name) && !s.bss {
            let a: int = if s.align < 2 {
                2
            } else {
                s.align as int
            };
            let p = round_up(st.out.len() as int, a);
            lemma_round_up(st.out.len() as int, a);
            assert((p as usize) as int == p);
        }
    }
}

/// For an evenly aligned executable text section the recorded entry offset
/// carries the low bit; for any other included data-owning section the low
/// bit is clear. (An odd `align` would make the padded offset itself odd;
/// ELF alignments are powers of two, so the law asks for an even one.)
pub proof fn lemma_text_flag(st: LayoutV, s: SecV)
    requires
        sel(s.name),
        !s.bss,
        (if s.align < 2 {
            2int
        } else {
            s.align as int
        }) % 2 == 0,
        layout_step(st, s) is Ok,
    ensures
        ({
            let st2 = layout_step(st, s)->Ok_0;
            let entry = u32_at(st2.info, st.info.len() as int);
            &&& st2.info.len() == st.info.len() + 8
            &&& entry % 2 == (if s.text {
                1u32
            } else {
                0u32
            })
        }),
{
    let a: int = if s.align < 2 {
        2
    } else {
        s.align as int
    };
    let p = round_up(st.out.len() as int, a);
    lemma_round_up(st.out.len() as int, a);
    // p is a multiple of the even a, so p is even
    vstd::arithmetic::div_mod::lemma_fundamental_div_mod(p, a);
    let q = p / a;
    assert(a == 2 * (a / 2)) by {
        vstd::arithmetic::div_mod::lemma_fundamental_div_mod(a, 2);
    }
    assert(p == 2 * (q * (a / 2))) by (nonlinear_arith)
        requires
            p == a * q && a == 2 * (a / 2),
    ;
    vstd::arithmetic::div_mod::lemma_mod_multiples_vanish(q * (a / 2), 0, 2);
    assert(p % 2 == 0);
    let enc: int = if s.text {
        p + 1
    } else {
        p
    };
    // the low bit survives the 32-bit truncation
    vstd::arithmetic::div_mod::lemma_fundamental_div_mod(enc, 0x100000000);
    let qq = enc / 0x100000000;
    vstd::arithmetic::div_mod::lemma_mod_multiples_vanish(qq * 0x80000000, enc - 0x100000000 * qq, 2);
    assert(2 * (qq * 0x80000000) == 0x100000000 * qq) by (nonlinear_arith);
    assert((lo32(enc) as int) % 2 == enc % 2);
    // and the recorded entry is exactly that value
    let st2 = layout_step(st, s)->Ok_0;
    lemma_u32_at_be32(lo32(enc));
    assert(st2.info.len() == st.info.len() + 8);
    assert forall|k: int| 0 <= k < 4 implies st2.info[st.info.len() + k] == be32(lo32(enc))[k] by {}
    assert(u32_at(st2.info, st.info.len() as int) == u32_at(be32(lo32(enc)), 0));
}

/// Static patching rewrites bytes in place and never changes the length.
pub proof fn lemma_patch_all_len(
    out: Seq<u8>,
    offs: Seq<Option<usize>>,
    rs: Seq<ElfRelocation>,
    mid: u32,
    i: int,
)
    requires
        patch_all(out, offs, rs, mid, i) is Ok,
    ensures
        (patch_all(out, offs, rs, mid, i)->Ok_0).len() == out.len(),
    decreases i,
{
    if i > 0 {
        assert(patch_all(out, offs, rs, mid, i - 1) is Ok);
        lemma_patch_all_len(out, offs, rs, mid, i - 1);
    }
}

/// The header block has exactly the header length of its revision.
pub proof fn lemma_header_len(
    mid: u32,
    v: RelVersion,
    nsec: int,
    si: int,
    total_bss: u32,
    rel_off: int,
    imp_off: int,
    imp_size: int,
    pro: (u8, u32),
    epi: (u8, u32),
    unres: (u8, u32),
    maxa: u32,
    maxba: u32,
)
    ensures
        spec_header_bytes(
            mid,
            v,
            nsec,
            si,
            total_bss,
            rel_off,
            imp_off,
            imp_size,
            pro,
            epi,
            unres,
            maxa,
            maxba,
        ).len() == header_size(v),
{
}

/// The import table always starts on an 8-byte boundary.
pub proof fn lemma_import_table_aligned(
    out0: Seq<u8>,
    offs: Seq<Option<usize>>,
    rs: Seq<ElfRelocation>,
    mid: u32,
)
    requires
        spec_write_relocations(out0, offs, rs, mid) is Ok,
    ensures
        (spec_write_relocations(out0, offs, rs, mid)->Ok_0).1 % 8 == 0,
{
    let out1 = crate::elf2rel::patch_all(out0, offs, rs, mid, rs.len() as int)->Ok_0;
    lemma_round_up(out1.len() as int, 8);
}

/// Every record the stream writer emits keeps its offset within 16 bits:
/// the offset field is a `u16`, and the remainder after the nop run fits it.
pub proof fn lemma_record_offset_bounded(off: u16, t: u8, sec: u8, add: u32, d: u32)
    ensures
        u16_at(rec8(off, t, sec, add), 0) == off,
        off <= 0xFFFF,
        crate::elf2rel::nop_rem(d) <= 0xFFFF,
        u16_at(rec8(0xFFFF, 201, 0, 0), 0) == 0xFFFF,
{
    lemma_u16_at_be16(off);
    lemma_u16_at_be16(0xFFFF);
    crate::elf2rel::lemma_nop_rem_le(d);
    assert forall|k: int| 0 <= k < 2 implies rec8(off, t, sec, add)[k] == crate::bebytes::be16(
        off,
    )[k] by {}
    assert(u16_at(rec8(off, t, sec, add), 0) == u16_at(crate::bebytes::be16(off), 0));
    assert forall|k: int| 0 <= k < 2 implies rec8(0xFFFF, 201, 0, 0)[k] == crate::bebytes::be16(
        0xFFFF,
    )[k] by {}
    assert(u16_at(rec8(0xFFFF, 201, 0, 0), 0) == u16_at(crate::bebytes::be16(0xFFFF), 0));
}

/// A change of destination module closes the open group with exactly one
/// `DolphinEnd` record, placed right at the end of the group's records; the
/// first group is opened without one.
pub proof fn lemma_group_terminator(st: StreamV, r: ElfRelocation, mid: u32, rel_off: int)
    requires
        !spec_is_static(r, mid),
        st.cur_mod != Some(r.dest_module),
        stream_step(st, r, mid, rel_off) is Ok,
    ensures
        ({
            let st2 = stream_step(st, r, mid, rel_off)->Ok_0;
            &&& (st.cur_mod is Some ==> st2.stream.subrange(
                st.stream.len() as int,
                st.stream.len() as int + 8,
            ) == rec8(0, 203, 0, 0))
            &&& (st.cur_mod is None ==> st2.stream.subrange(0, st.stream.len() as int)
                == st.stream)
            &&& st2.imports.len() == st.imports.len() + 8
        }),
{
    let st2 = stream_step(st, r, mid, rel_off)->Ok_0;
    if st.cur_mod is Some {
        assert(st2.stream.subrange(st.stream.len() as int, st.stream.len() as int + 8) =~= rec8(
            0,
            203,
            0,
            0,
        ));
    } else {
        assert(st2.stream.subrange(0, st.stream.len() as int) =~= st.stream);
    }
}

/// The relocation region always ends with one trailing `DolphinEnd`.
pub proof fn lemma_trailing_end(
    out0: Seq<u8>,
    offs: Seq<Option<usize>>,
    rs: Seq<ElfRelocation>,
    mid: u32,
)
    requires
        spec_write_relocations(out0, offs, rs, mid) is Ok,
    ensures
        ({
            let t = spec_write_relocations(out0, offs, rs, mid)->Ok_0;
            &&& t.0.len() >= out0.len() + 8
            &&& t.0.subrange(t.0.len() - 8, t.0.len() as int) == rec8(0, 203, 0, 0)
        }),
{
    let t = spec_write_relocations(out0, offs, rs, mid)->Ok_0;
    lemma_patch_all_len(out0, offs, rs, mid, rs.len() as int);
    let out1 = patch_all(out0, offs, rs, mid, rs.len() as int)->Ok_0;
    lemma_round_up(out1.len() as int, 8);
    lemma_count_ends_rec8(0, 203, 0, 0);
    assert(t.0.len() >= out0.len() + 8);
    assert(t.0.subrange(t.0.len() - 8, t.0.len() as int) =~= rec8(0, 203, 0, 0));
}

/// A statically resolved relocation leaves no trace in the stream, and its
/// four target bytes now hold the patched instruction: the old word with
/// `delta & 0x03FFFFFC` folded in for a 24-bit relative branch, or the bare
/// delta for a 32-bit relative word, where `delta` is target address minus
/// relocation site modulo 2^32.
pub proof fn lemma_static_resolution(
    st: StreamV,
    out: Seq<u8>,
    offs: Seq<Option<usize>>,
    r: ElfRelocation,
    mid: u32,
    rel_off: int,
)
    requires
        spec_is_static(r, mid),
        crate::elf2rel::patch_one(out, offs, r) is Ok,
    ensures
        stream_step(st, r, mid, rel_off) == Ok::<StreamV, ErrV>(st),
        ({
            let res = crate::elf2rel::patch_one(out, offs, r)->Ok_0;
            let p = offs[r.src_section as int]->Some_0 + r.src_offset;
            let delta = lo32(offs[r.dest_section as int]->Some_0 + r.addend - p);
            let newv: u32 = if r.rtype == 10 {
                u32_at(out, p as int) | (delta & 0x03FFFFFC)
            } else {
                delta
            };
            &&& res.len() == out.len()
            &&& u32_at(res, p as int) == newv
            &&& forall|k: int|
                0 <= k < out.len() && !(p <= k < p + 4) ==> res[k] == out[k]
        }),
{
    let res = crate::elf2rel::patch_one(out, offs, r)->Ok_0;
    let p = offs[r.src_section as int]->Some_0 + r.src_offset;
    let delta = lo32(offs[r.dest_section as int]->Some_0 + r.addend - p);
    let newv: u32 = if r.rtype == 10 {
        u32_at(out, p as int) | (delta & 0x03FFFFFC)
    } else {
        delta
    };
    assert(res == splice(out, p as int, be32(newv)));
    assert(res.len() == out.len());
    lemma_u32_at_be32(newv);
    assert forall|k: int| 0 <= k < 4 implies res[p + k] == be32(newv)[k] by {}
    assert(u32_at(res, p as int) == u32_at(be32(newv), 0));
}

/// The conversion is a function of its inputs: two runs on equal inputs
/// give byte-identical outputs.
pub proof fn lemma_convert_deterministic(
    eb: Seq<u8>,
    mb: Seq<u8>,
    mid: u32,
    v: RelVersion,
    r1: Seq<u8>,
    r2: Seq<u8>,
)
    requires
        crate::elf2rel::spec_elf2rel(eb, mb, mid, v) == Ok::<Seq<u8>, ErrV>(r1),
        crate::elf2rel::spec_elf2rel(eb, mb, mid, v) == Ok::<Seq<u8>, ErrV>(r2),
    ensures
        r1 == r2,
{
}

/// The header's integer fields hold exactly the offsets and sizes of the
/// regions they point at, and the version addenda are present exactly for
/// the revisions that define them, the v3 fixed-data size repeating the
/// relocation stream offset.
pub proof fn lemma_header_fields(
    mid: u32,
    v: RelVersion,
    nsec: int,
    si: int,
    total_bss: u32,
    rel_off: int,
    imp_off: int,
    imp_size: int,
    pro: (u8, u32),
    epi: (u8, u32),
    unres: (u8, u32),
    maxa: u32,
    maxba: u32,
)
    ensures
        ({
            let h = spec_header_bytes(
                mid,
                v,
                nsec,
                si,
                total_bss,
                rel_off,
                imp_off,
                imp_size,
                pro,
                epi,
                unres,
                maxa,
                maxba,
            );
            &&& h.len() == header_size(v)
            &&& u32_at(h, 0) == mid
            &&& u32_at(h, 0x0c) == lo32(nsec)
            &&& u32_at(h, 0x10) == lo32(si)
            &&& u32_at(h, 0x1c) == v.spec_number()
            &&& u32_at(h, 0x20) == total_bss
            &&& u32_at(h, 0x24) == lo32(rel_off)
            &&& u32_at(h, 0x28) == lo32(imp_off)
            &&& u32_at(h, 0x2c) == lo32(imp_size)
            &&& (v.has_v2() ==> u32_at(h, 0x40) == maxa && u32_at(h, 0x44) == maxba)
            &&& (v.has_v3() ==> u32_at(h, 0x48) == lo32(rel_off))
        }),
{
    let h = spec_header_bytes(
        mid,
        v,
        nsec,
        si,
        total_bss,
        rel_off,
        imp_off,
        imp_size,
        pro,
        epi,
        unres,
        maxa,
        maxba,
    );
    lemma_u32_at_be32(mid);
    lemma_u32_at_be32(lo32(nsec));
    lemma_u32_at_be32(lo32(si));
    lemma_u32_at_be32(v.spec_number());
    lemma_u32_at_be32(total_bss);
    lemma_u32_at_be32(lo32(rel_off));
    lemma_u32_at_be32(lo32(imp_off));
    lemma_u32_at_be32(lo32(imp_size));
    lemma_u32_at_be32(maxa);
    lemma_u32_at_be32(maxba);
    assert forall|k: int| 0 <= k < 4 implies h[0x00 + k] == be32(mid)[k] by {}
    assert(u32_at(h, 0) == u32_at(be32(mid), 0));
    assert forall|k: int| 0 <= k < 4 implies h[0x0c + k] == be32(lo32(nsec))[k] by {}
    assert(u32_at(h, 0x0c) == u32_at(be32(lo32(nsec)), 0));
    assert forall|k: int| 0 <= k < 4 implies h[0x10 + k] == be32(lo32(si))[k] by {}
    assert(u32_at(h, 0x10) == u32_at(be32(lo32(si)), 0));
    assert forall|k: int| 0 <= k < 4 implies h[0x1c + k] == be32(v.spec_number())[k] by {}
    assert(u32_at(h, 0x1c) == u32_at(be32(v.spec_number()), 0));
    assert forall|k: int| 0 <= k < 4 implies h[0x20 + k] == be32(total_bss)[k] by {}
    assert(u32_at(h, 0x20) == u32_at(be32(total_bss), 0));
    assert forall|k: int| 0 <= k < 4 implies h[0x24 + k] == be32(lo32(rel_off))[k] by {}
    assert(u32_at(h, 0x24) == u32_at(be32(lo32(rel_off)), 0));
    assert forall|k: int| 0 <= k < 4 implies h[0x28 + k] == be32(lo32(imp_off))[k] by {}
    assert(u32_at(h, 0x28) == u32_at(be32(lo32(imp_off)), 0));
    assert forall|k: int| 0 <= k < 4 implies h[0x2c + k] == be32(lo32(imp_size))[k] by {}
    assert(u32_at(h, 0x2c) == u32_at(be32(lo32(imp_size)), 0));
    if v.has_v2() {
        assert forall|k: int| 0 <= k < 4 implies h[0x40 + k] == be32(maxa)[k] by {}
        assert(u32_at(h, 0x40) == u32_at(be32(maxa), 0));
        assert forall|k: int| 0 <= k < 4 implies h[0x44 + k] == be32(maxba)[k] by {}
        assert(u32_at(h, 0x44) == u32_at(be32(maxba), 0));
    }
    if v.has_v3() {
        assert forall|k: int| 0 <= k < 4 implies h[0x48 + k] == be32(lo32(rel_off))[k] by {}
        assert(u32_at(h, 0x48) == u32_at(be32(lo32(rel_off)), 0));
    }
}

/// An included section's bytes really sit at its recorded offset: the laid
/// out buffer holds the section data verbatim there.
pub proof fn lemma_section_data_placed(secs: Seq<SecV>, j: int, st0: LayoutV, i: int)
    requires
        st0.offs.len() == 0,
        0 <= i < j <= secs.len(),
        spec_layout(secs, j, st0) is Ok,
    ensures
        ({
            let lay = spec_layout(secs, j, st0)->Ok_0;
            &&& lay.offs.len() == j
            &&& (lay.offs[i] is Some ==> lay.offs[i]->0 + secs[i].data.len() <= lay.out.len()
                && lay.out.subrange(
                lay.offs[i]->0 as int,
                lay.offs[i]->0 + secs[i].data.len(),
            ) == secs[i].data)
        }),
    decreases j,
{
    lemma_layout_len(secs, j, st0);
    assert(spec_layout(secs, j - 1, st0) is Ok);
    lemma_layout_len(secs, j - 1, st0);
    let st = spec_layout(secs, j - 1, st0)->Ok_0;
    let lay = spec_layout(secs, j, st0)->Ok_0;
    let s = secs[j - 1];
    if i < j - 1 {
        lemma_section_data_placed(secs, j - 1, st0, i);
        assert(lay.offs[i] == st.offs[i]);
        if st.offs[i] is Some {
            let p = st.offs[i]->0 as int;
            let n = secs[i].data.len() as int;
            // the step only appends, so the placed bytes survive
            assert(lay.out.subrange(p, p + n) =~= st.out.subrange(p, p + n));
        }
    } else {
        if sel(s.name) && !s.bss {
            let a: int = if s.align < 2 {
                2
            } else {
                s.align as int
            };
            let p = round_up(st.out.len() as int, a);
            lemma_round_up(st.out.len() as int, a);
            assert((p as usize) as int == p);
            assert(lay.out.subrange(p, p + s.data.len()) =~= s.data);
        }
    }
}

/// An included section's step appends only zero padding and then its data:
/// the bytes between the old end and the recorded offset are all zero.
pub proof fn lemma_padding_zeroed(st: LayoutV, s: SecV)
    requires
        sel(s.name),
        !s.bss,
        layout_step(st, s) is Ok,
    ensures
        ({
            let st2 = layout_step(st, s)->Ok_0;
            let a: int = if s.align < 2 {
                2
            } else {
                s.align as int
            };
            let p = round_up(st.out.len() as int, a);
            &&& st2.out.len() == p + s.data.len()
            &&& forall|k: int| st.out.len() <= k < p ==> st2.out[k] == 0u8
            &&& st2.out.subrange(p, p + s.data.len()) == s.data
        }),
{
    let a: int = if s.align < 2 {
        2
    } else {
        s.align as int
    };
    let p = round_up(st.out.len() as int, a);
    lemma_round_up(st.out.len() as int, a);
    let st2 = layout_step(st, s)->Ok_0;
    assert(st2.out.subrange(p, p + s.data.len()) =~= s.data);
}

/// The nop run decomposes a long gap exactly: the remainder the record
/// carries plus 0xFFFF for each nop, with as few nops as possible (the
/// remainder after a nonempty run is never zero, so one fewer nop would
/// leave a remainder above 0xFFFF).
pub proof fn lemma_nop_decomposition(d: u32)
    ensures
        crate::elf2rel::nop_records(d).len() % 8 == 0,
        d == crate::elf2rel::nop_rem(d) + 0xFFFF * (crate::elf2rel::nop_records(d).len() / 8),
        crate::elf2rel::nop_rem(d) <= 0xFFFF,
        crate::elf2rel::nop_records(d).len() > 0 ==> crate::elf2rel::nop_rem(d) >= 1,
    decreases d,
{
    crate::elf2rel::lemma_nop_rem_le(d);
    if d > 0xFFFF {
        lemma_nop_decomposition((d - 0xFFFF) as u32);
        let rest = crate::elf2rel::nop_records((d - 0xFFFF) as u32);
        lemma_count_ends_rec8(0xFFFF, 201, 0, 0);
        assert(crate::elf2rel::nop_records(d).len() == 8 + rest.len());
        let q = rest.len() as int / 8;
        vstd::arithmetic::div_mod::lemma_fundamental_div_mod(rest.len() as int, 8);
        vstd::arithmetic::div_mod::lemma_fundamental_div_mod_converse(
            8 + rest.len() as int,
            8,
            1 + q,
            0,
        );
        assert((1 + q) * 8 == 8 + 8 * q) by (nonlinear_arith);
        assert(0xFFFF * (1 + q) == 0xFFFF + 0xFFFF * q) by (nonlinear_arith);
        if rest.len() == 0 {
            assert(crate::elf2rel::nop_rem(d) == d - 0xFFFF >= 1);
        }
    }
}

/// Group counting starts at one and never falls.
pub proof fn lemma_runs_monotone(rs: Seq<ElfRelocation>, i: int)
    requires
        1 <= i,
    ensures
        1 <= runs(rs, i),
        runs(rs, i) <= runs(rs, i + 1),
    decreases i,
{
    if i > 1 {
        lemma_runs_monotone(rs, i - 1);
    }
}

/// On a sorted relocation list the stream writer never opens more module
/// groups than [`runs`] counted, so the reserved import table region always
/// holds every entry: one 8-byte entry per group actually opened.
pub proof fn lemma_import_region_sufficient(
    rs: Seq<ElfRelocation>,
    k: int,
    mid: u32,
    rel_off: int,
)
    requires
        crate::reloc::sorted_by_key(rs),
        0 <= k <= rs.len(),
        crate::elf2rel::stream_fold(rs, k, mid, rel_off, crate::elf2rel::stream_init()) is Ok,
    ensures
        ({
            let st = crate::elf2rel::stream_fold(
                rs,
                k,
                mid,
                rel_off,
                crate::elf2rel::stream_init(),
            )->Ok_0;
            &&& st.imports.len() % 8 == 0
            &&& st.imports.len() <= 8 * runs(rs, k)
            &&& (st.cur_mod is None ==> st.imports.len() == 0)
            &&& (st.cur_mod is Some ==> k >= 1 && st.cur_mod->0 <= rs[k - 1].dest_module && (
            st.cur_mod->0 < rs[k - 1].dest_module ==> st.imports.len() + 8 <= 8 * runs(rs, k)))
        }),
    decreases k,
{
    let init = crate::elf2rel::stream_init();
    if k > 0 {
        assert(crate::elf2rel::stream_fold(rs, k - 1, mid, rel_off, init) is Ok);
        lemma_import_region_sufficient(rs, k - 1, mid, rel_off);
        let st = crate::elf2rel::stream_fold(rs, k - 1, mid, rel_off, init)->Ok_0;
        let r = rs[k - 1];
        if k >= 2 {
            assert(crate::reloc::key_le(rs[k - 2], rs[k - 1]));
            lemma_runs_monotone(rs, k - 1);
        }
        if crate::elf2rel::spec_is_static(r, mid) {
            // nothing emitted; a lower open module stays strictly below a
            // counted boundary
            if st.cur_mod is Some && st.cur_mod->0 < r.dest_module && st.cur_mod->0 == rs[k
                - 2].dest_module {
                assert(runs(rs, k) == runs(rs, k - 1) + 1);
            }
        } else if st.cur_mod != Some(r.dest_module) {
            // a new group opens: on the first one the table was empty, and a
            // later one always crosses a counted boundary
            if st.cur_mod is Some {
                if st.cur_mod->0 == rs[k - 2].dest_module {
                    assert(rs[k - 1].dest_module != rs[k - 2].dest_module);
                    assert(runs(rs, k) == runs(rs, k - 1) + 1);
                }
            } else {
                lemma_runs_monotone(rs, k);
            }
        }
    }
}

/// The low 32 bits keep divisibility by 8.
pub proof fn lemma_lo32_mod8(x: int)
    requires
        x >= 0,
        x % 8 == 0,
    ensures
        (lo32(x) as int) % 8 == 0,
{
    vstd::arithmetic::div_mod::lemma_fundamental_div_mod(x, 0x100000000);
    let q = x / 0x100000000;
    vstd::arithmetic::div_mod::lemma_mod_multiples_vanish(-(q * 0x20000000), x, 8);
    assert(8 * (-(q * 0x20000000)) + x == x - 0x100000000 * q) by (nonlinear_arith);
}

/// What the finished REL file's header promises holds of the file itself:
/// the section table sits right after the header, the import table offset is
/// a multiple of 8, the version number matches the revision asked for, and a
/// v3 header's fixed-data size repeats the relocation stream offset.
#[verifier::rlimit(100)]
#[verifier::spinoff_prover]
pub proof fn lemma_output_header(eb: Seq<u8>, mb: Seq<u8>, mid: u32, v: RelVersion)
    requires
        crate::elf2rel::spec_elf2rel(eb, mb, mid, v) is Ok,
    ensures
        ({
            let out = crate::elf2rel::spec_elf2rel(eb, mb, mid, v)->Ok_0;
            &&& u32_at(out, 0) == mid
            &&& u32_at(out, 0x10) == lo32(header_size(v))
            &&& u32_at(out, 0x1c) == v.spec_number()
            &&& u32_at(out, 0x0c) == lo32(crate::elf::shnum(eb))
            &&& (u32_at(out, 0x28) as int) % 8 == 0
            &&& (v.has_v3() ==> u32_at(out, 0x48) == u32_at(out, 0x24))
            &&& ({
                let f = crate::elf::spec_elf_file(eb);
                let lay = spec_layout(
                    f.secs,
                    f.secs.len() as int,
                    crate::elf2rel::layout_init(
                        crate::bebytes::zeros(header_size(v)),
                        f.secs.len() as int,
                    ),
                )->Ok_0;
                let t = spec_write_relocations(
                    splice(lay.out, header_size(v), lay.info),
                    lay.offs,
                    crate::elf2rel::spec_extract(f.secs, lay.offs, f.syms, mb, mid)->Ok_0,
                    mid,
                )->Ok_0;
                &&& u32_at(out, 0x20) == lay.total_bss
                &&& u32_at(out, 0x24) == lo32(t.2)
                &&& u32_at(out, 0x28) == lo32(t.1)
                &&& u32_at(out, 0x2c) == lo32(t.3)
            })
        }),
{
    let f = crate::elf::spec_elf_file(eb);
    let hs = header_size(v);
    let lay = spec_layout(
        f.secs,
        f.secs.len() as int,
        crate::elf2rel::layout_init(crate::bebytes::zeros(hs), f.secs.len() as int),
    )->Ok_0;
    let out1 = splice(lay.out, hs, lay.info);
    let sorted = crate::elf2rel::spec_extract(f.secs, lay.offs, f.syms, mb, mid)->Ok_0;
    let t = spec_write_relocations(out1, lay.offs, sorted, mid)->Ok_0;
    let pro = crate::elf2rel::required_symbol(f.syms, crate::elf2rel::prolog_name())->Ok_0;
    let epi = crate::elf2rel::required_symbol(f.syms, crate::elf2rel::epilog_name())->Ok_0;
    let unres = crate::elf2rel::required_symbol(f.syms, crate::elf2rel::unresolved_name())->Ok_0;
    let h = spec_header_bytes(
        mid,
        v,
        f.secs.len() as int,
        hs,
        lay.total_bss,
        t.2,
        t.1,
        t.3,
        pro,
        epi,
        unres,
        lay.max_align,
        lay.max_bss_align,
    );
    let out = crate::elf2rel::spec_elf2rel(eb, mb, mid, v)->Ok_0;
    assert(out == splice(t.0, 0, h));
    lemma_header_fields(
        mid,
        v,
        f.secs.len() as int,
        hs,
        lay.total_bss,
        t.2,
        t.1,
        t.3,
        pro,
        epi,
        unres,
        lay.max_align,
        lay.max_bss_align,
    );
    assert forall|k: int| 0 <= k < h.len() implies out[k] == h[k] by {}
    assert(u32_at(out, 0) == u32_at(h, 0));
    assert(u32_at(out, 0x0c) == u32_at(h, 0x0c));
    assert(u32_at(out, 0x10) == u32_at(h, 0x10));
    assert(u32_at(out, 0x1c) == u32_at(h, 0x1c));
    assert(u32_at(out, 0x24) == u32_at(h, 0x24));
    assert(u32_at(out, 0x28) == u32_at(h, 0x28));
    lemma_import_table_aligned(out1, lay.offs, sorted, mid);
    lemma_lo32_mod8(t.1);
    if v.has_v3() {
        assert(u32_at(out, 0x48) == u32_at(h, 0x48));
    }
}

/// The finished file ends with the trailing `DolphinEnd` record, past the
/// header: the placeholder is long enough that writing the header cannot
/// reach it.
#[verifier::rlimit(100)]
#[verifier::spinoff_prover]
pub proof fn lemma_output_trailing_end(eb: Seq<u8>, mb: Seq<u8>, mid: u32, v: RelVersion)
    requires
        crate::elf2rel::spec_elf2rel(eb, mb, mid, v) is Ok,
    ensures
        ({
            let out = crate::elf2rel::spec_elf2rel(eb, mb, mid, v)->Ok_0;
            &&& out.len() >= header_size(v) + 8
            &&& out.subrange(out.len() - 8, out.len() as int) == rec8(0, 203, 0, 0)
        }),
{
    let f = crate::elf::spec_elf_file(eb);
    let hs = header_size(v);
    let st0 = crate::elf2rel::layout_init(crate::bebytes::zeros(hs), f.secs.len() as int);
    let lay = spec_layout(f.secs, f.secs.len() as int, st0)->Ok_0;
    let out1 = splice(lay.out, hs, lay.info);
    let sorted = crate::elf2rel::spec_extract(f.secs, lay.offs, f.syms, mb, mid)->Ok_0;
    let t = spec_write_relocations(out1, lay.offs, sorted, mid)->Ok_0;
    let out = crate::elf2rel::spec_elf2rel(eb, mb, mid, v)->Ok_0;
    lemma_layout_len(f.secs, f.secs.len() as int, st0);
    assert(lay.out.len() >= hs);
    assert(out1.len() == lay.out.len());
    lemma_trailing_end(out1, lay.offs, sorted, mid);
    let pro = crate::elf2rel::required_symbol(f.syms, crate::elf2rel::prolog_name())->Ok_0;
    let epi = crate::elf2rel::required_symbol(f.syms, crate::elf2rel::epilog_name())->Ok_0;
    let unres = crate::elf2rel::required_symbol(f.syms, crate::elf2rel::unresolved_name())->Ok_0;
    let h = spec_header_bytes(
        mid,
        v,
        f.secs.len() as int,
        hs,
        lay.total_bss,
        t.2,
        t.1,
        t.3,
        pro,
        epi,
        unres,
        lay.max_align,
        lay.max_bss_align,
    );
    lemma_header_len(
        mid,
        v,
        f.secs.len() as int,
        hs,
        lay.total_bss,
        t.2,
        t.1,
        t.3,
        pro,
        epi,
        unres,
        lay.max_align,
        lay.max_bss_align,
    );
    assert(out == splice(t.0, 0, h));
    assert(out.len() == t.0.len());
    assert(out.subrange(out.len() - 8, out.len() as int) =~= t.0.subrange(
        t.0.len() - 8,
        t.0.len() as int,
    ));
}


/// The type byte of each 8-byte record in a record region, counted when it
/// is the `DolphinEnd` opcode.
pub open spec fn count_ends(s: Seq<u8>) -> int
    decreases s.len(),
{
    if s.len() < 8 {
        0
    } else {
        (if s[2] == 203 {
            1int
        } else {
            0int
        }) + count_ends(s.skip(8))
    }
}

pub proof fn lemma_count_ends_concat(a: Seq<u8>, b: Seq<u8>)
    requires
        a.len() % 8 == 0,
    ensures
        count_ends(a + b) == count_ends(a) + count_ends(b),
    decreases a.len(),
{
    if a.len() == 0 {
        assert(a + b =~= b);
    } else {
        assert(a.len() >= 8);
        assert((a + b).skip(8) =~= a.skip(8) + b);
        assert(a.skip(8).len() % 8 == 0);
        lemma_count_ends_concat(a.skip(8), b);
        assert((a + b)[2] == a[2]);
    }
}

pub proof fn lemma_count_ends_rec8(off: u16, t: u8, sec: u8, add: u32)
    ensures
        rec8(off, t, sec, add).len() == 8,
        count_ends(rec8(off, t, sec, add)) == (if t == 203 {
            1int
        } else {
            0int
        }),
{
    let r = rec8(off, t, sec, add);
    assert(r[2] == t);
    assert(count_ends(Seq::<u8>::empty()) == 0);
    assert(r.skip(8) =~= Seq::<u8>::empty());
}

pub proof fn lemma_count_ends_nops(d: u32)
    ensures
        crate::elf2rel::nop_records(d).len() % 8 == 0,
        count_ends(crate::elf2rel::nop_records(d)) == 0,
    decreases d,
{
    if d > 0xFFFF {
        lemma_count_ends_nops((d - 0xFFFF) as u32);
        lemma_count_ends_rec8(0xFFFF, 201, 0, 0);
        lemma_count_ends_concat(rec8(0xFFFF, 201, 0, 0), crate::elf2rel::nop_records(
            (d - 0xFFFF) as u32,
        ));
    }
}

/// While the stream is written (for an ELF whose relocations carry none of
/// the reserved Dolphin opcodes themselves), the `DolphinEnd` records seen
/// so far are exactly the closed groups: one per import entry, minus the
/// group still open.
pub proof fn lemma_group_end_count(rs: Seq<ElfRelocation>, k: int, mid: u32, rel_off: int)
    requires
        0 <= k <= rs.len(),
        forall|i: int| 0 <= i < rs.len() ==> #[trigger] rs[i].rtype < 201,
        crate::elf2rel::stream_fold(rs, k, mid, rel_off, crate::elf2rel::stream_init()) is Ok,
    ensures
        ({
            let st = crate::elf2rel::stream_fold(
                rs,
                k,
                mid,
                rel_off,
                crate::elf2rel::stream_init(),
            )->Ok_0;
            &&& st.stream.len() % 8 == 0
            &&& st.imports.len() % 8 == 0
            &&& 8 * count_ends(st.stream) == st.imports.len() - (if st.cur_mod is Some {
                8int
            } else {
                0int
            })
        }),
    decreases k,
{
    let init = crate::elf2rel::stream_init();
    if k > 0 {
        assert(crate::elf2rel::stream_fold(rs, k - 1, mid, rel_off, init) is Ok);
        lemma_group_end_count(rs, k - 1, mid, rel_off);
        let st = crate::elf2rel::stream_fold(rs, k - 1, mid, rel_off, init)->Ok_0;
        let r = rs[k - 1];
        if !crate::elf2rel::spec_is_static(r, mid) {
            let st1 = if st.cur_mod != Some(r.dest_module) {
                let s2 = st.stream + (if st.cur_mod is Some {
                    rec8(0, 203, 0, 0)
                } else {
                    Seq::<u8>::empty()
                });
                if st.cur_mod is Some {
                    lemma_count_ends_rec8(0, 203, 0, 0);
                    lemma_count_ends_concat(st.stream, rec8(0, 203, 0, 0));
                } else {
                    assert(s2 =~= st.stream);
                }
                crate::elf2rel::StreamV {
                    stream: s2,
                    imports: st.imports + be32(r.dest_module) + be32(
                        lo32(rel_off + s2.len()),
                    ),
                    cur_mod: Some(r.dest_module),
                    cur_sec: None,
                    cur_off: st.cur_off,
                }
            } else {
                st
            };
            let st2 = if st1.cur_sec != Some(r.src_section) {
                lemma_count_ends_rec8(0, 202, (r.src_section % 0x100) as u8, 0);
                lemma_count_ends_concat(st1.stream, rec8(0, 202, (r.src_section % 0x100) as u8, 0));
                crate::elf2rel::StreamV {
                    stream: st1.stream + rec8(0, 202, (r.src_section % 0x100) as u8, 0),
                    cur_sec: Some(r.src_section),
                    cur_off: 0,
                    ..st1
                }
            } else {
                st1
            };
            let d = crate::elf2rel::wsub32(r.src_offset, st2.cur_off);
            lemma_count_ends_nops(d);
            lemma_count_ends_concat(st2.stream, crate::elf2rel::nop_records(d));
            lemma_count_ends_rec8(
                crate::elf2rel::nop_rem(d) as u16,
                r.rtype,
                (r.dest_section % 0x100) as u8,
                r.addend,
            );
            lemma_count_ends_concat(
                st2.stream + crate::elf2rel::nop_records(d),
                rec8(
                    crate::elf2rel::nop_rem(d) as u16,
                    r.rtype,
                    (r.dest_section % 0x100) as u8,
                    r.addend,
                ),
            );
        }
    }
}

/// The whole relocation record region of a finished module carries exactly
/// one `DolphinEnd` per module group, the last group closed by the trailing
/// one; a module without stream records carries the trailing one alone.
/// (An ELF-sourced relocation whose type code is itself a Dolphin opcode
/// would be copied into the stream and break the count, so the law asks for
/// none.)
pub proof fn lemma_one_end_per_group(
    out0: Seq<u8>,
    offs: Seq<Option<usize>>,
    rs: Seq<ElfRelocation>,
    mid: u32,
)
    requires
        crate::reloc::sorted_by_key(rs),
        forall|i: int| 0 <= i < rs.len() ==> #[trigger] rs[i].rtype < 201,
        spec_write_relocations(out0, offs, rs, mid) is Ok,
    ensures
        ({
            let t = spec_write_relocations(out0, offs, rs, mid)->Ok_0;
            let region = t.0.skip(t.2);
            &&& count_ends(region) == (if t.3 > 0 {
                t.3 / 8
            } else {
                1int
            })
        }),
{
    let t = spec_write_relocations(out0, offs, rs, mid)->Ok_0;
    let out1 = crate::elf2rel::patch_all(out0, offs, rs, mid, rs.len() as int)->Ok_0;
    let imp_off = round_up(out1.len() as int, 8);
    let n = runs(rs, rs.len() as int);
    let rel_off = imp_off + 8 * n;
    let st = crate::elf2rel::stream_fold(
        rs,
        rs.len() as int,
        mid,
        rel_off,
        crate::elf2rel::stream_init(),
    )->Ok_0;
    lemma_group_end_count(rs, rs.len() as int, mid, rel_off);
    lemma_round_up(out1.len() as int, 8);
    lemma_import_region_sufficient(rs, rs.len() as int, mid, rel_off);
    assert(st.imports.len() <= 8 * n);
    assert(t.0.skip(t.2) =~= st.stream + rec8(0, 203, 0, 0));
    lemma_count_ends_concat(st.stream, rec8(0, 203, 0, 0));
    lemma_count_ends_rec8(0, 203, 0, 0);
    lemma_count_ends_nonneg(st.stream);
    if st.imports.len() > 0 {
        assert(st.cur_mod is Some);
        let c = count_ends(st.stream) + 1;
        assert(8 * c == st.imports.len());
        vstd::arithmetic::div_mod::lemma_fundamental_div_mod_converse(
            st.imports.len() as int,
            8,
            c,
            0,
        );
        assert(c * 8 == 8 * c) by (nonlinear_arith);
    } else {
        assert(st.cur_mod is None);
        assert(count_ends(st.stream) == 0);
    }
}

pub proof fn lemma_count_ends_nonneg(s: Seq<u8>)
    ensures
        count_ends(s) >= 0,
    decreases s.len(),
{
    if s.len() >= 8 {
        lemma_count_ends_nonneg(s.skip(8));
    }
}

/// Records that carry a relocation proper: the type byte is below the
/// reserved Dolphin opcodes.
pub open spec fn count_payload(s: Seq<u8>) -> int
    decreases s.len(),
{
    if s.len() < 8 {
        0
    } else {
        (if s[2] < 201 {
            1int
        } else {
            0int
        }) + count_payload(s.skip(8))
    }
}

/// Relocations the stream must carry: those not resolved in place.
pub open spec fn streamed_count(rs: Seq<ElfRelocation>, k: int, mid: u32) -> int
    decreases k,
{
    if k <= 0 {
        0
    } else {
        streamed_count(rs, k - 1, mid) + (if spec_is_static(rs[k - 1], mid) {
            0int
        } else {
            1int
        })
    }
}

pub proof fn lemma_count_payload_concat(a: Seq<u8>, b: Seq<u8>)
    requires
        a.len() % 8 == 0,
    ensures
        count_payload(a + b) == count_payload(a) + count_payload(b),
    decreases a.len(),
{
    if a.len() == 0 {
        assert(a + b =~= b);
    } else {
        assert(a.len() >= 8);
        assert((a + b).skip(8) =~= a.skip(8) + b);
        assert(a.skip(8).len() % 8 == 0);
        lemma_count_payload_concat(a.skip(8), b);
        assert((a + b)[2] == a[2]);
    }
}

pub proof fn lemma_count_payload_rec8(off: u16, t: u8, sec: u8, add: u32)
    ensures
        count_payload(rec8(off, t, sec, add)) == (if t < 201 {
            1int
        } else {
            0int
        }),
{
    let r = rec8(off, t, sec, add);
    assert(r[2] == t);
    assert(count_payload(Seq::<u8>::empty()) == 0);
    assert(r.skip(8) =~= Seq::<u8>::empty());
}

pub proof fn lemma_count_payload_nops(d: u32)
    ensures
        count_payload(crate::elf2rel::nop_records(d)) == 0,
    decreases d,
{
    if d > 0xFFFF {
        lemma_count_payload_nops((d - 0xFFFF) as u32);
        lemma_count_ends_rec8(0xFFFF, 201, 0, 0);
        lemma_count_payload_rec8(0xFFFF, 201, 0, 0);
        lemma_count_payload_concat(rec8(0xFFFF, 201, 0, 0), crate::elf2rel::nop_records(
            (d - 0xFFFF) as u32,
        ));
    }
}

/// Every relocation that is not resolved in place puts exactly one record
/// of its own into the stream (for an ELF whose relocations carry none of
/// the reserved Dolphin opcodes themselves): the payload records seen so
/// far are exactly the streamed relocations.
pub proof fn lemma_one_record_per_relocation(
    rs: Seq<ElfRelocation>,
    k: int,
    mid: u32,
    rel_off: int,
)
    requires
        0 <= k <= rs.len(),
        forall|i: int| 0 <= i < rs.len() ==> #[trigger] rs[i].rtype < 201,
        crate::elf2rel::stream_fold(rs, k, mid, rel_off, crate::elf2rel::stream_init()) is Ok,
    ensures
        ({
            let st = crate::elf2rel::stream_fold(
                rs,
                k,
                mid,
                rel_off,
                crate::elf2rel::stream_init(),
            )->Ok_0;
            &&& st.stream.len() % 8 == 0
            &&& count_payload(st.stream) == streamed_count(rs, k, mid)
        }),
    decreases k,
{
    let init = crate::elf2rel::stream_init();
    if k > 0 {
        assert(crate::elf2rel::stream_fold(rs, k - 1, mid, rel_off, init) is Ok);
        lemma_one_record_per_relocation(rs, k - 1, mid, rel_off);
        let st = crate::elf2rel::stream_fold(rs, k - 1, mid, rel_off, init)->Ok_0;
        let r = rs[k - 1];
        if !crate::elf2rel::spec_is_static(r, mid) {
            let st1 = if st.cur_mod != Some(r.dest_module) {
                let s2 = st.stream + (if st.cur_mod is Some {
                    rec8(0, 203, 0, 0)
                } else {
                    Seq::<u8>::empty()
                });
                if st.cur_mod is Some {
                    lemma_count_ends_rec8(0, 203, 0, 0);
                    lemma_count_payload_rec8(0, 203, 0, 0);
                    lemma_count_payload_concat(st.stream, rec8(0, 203, 0, 0));
                } else {
                    assert(s2 =~= st.stream);
                }
                crate::elf2rel::StreamV {
                    stream: s2,
                    imports: st.imports + be32(r.dest_module) + be32(
                        lo32(rel_off + s2.len()),
                    ),
                    cur_mod: Some(r.dest_module),
                    cur_sec: None,
                    cur_off: st.cur_off,
                }
            } else {
                st
            };
            let st2 = if st1.cur_sec != Some(r.src_section) {
                lemma_count_ends_rec8(0, 202, (r.src_section % 0x100) as u8, 0);
                lemma_count_payload_rec8(0, 202, (r.src_section % 0x100) as u8, 0);
                lemma_count_payload_concat(st1.stream, rec8(0, 202, (r.src_section % 0x100) as u8, 0));
                crate::elf2rel::StreamV {
                    stream: st1.stream + rec8(0, 202, (r.src_section % 0x100) as u8, 0),
                    cur_sec: Some(r.src_section),
                    cur_off: 0,
                    ..st1
                }
            } else {
                st1
            };
            let d = crate::elf2rel::wsub32(r.src_offset, st2.cur_off);
            lemma_count_ends_nops(d);
            lemma_count_payload_nops(d);
            lemma_count_payload_concat(st2.stream, crate::elf2rel::nop_records(d));
            lemma_count_ends_rec8(
                crate::elf2rel::nop_rem(d) as u16,
                r.rtype,
                (r.dest_section % 0x100) as u8,
                r.addend,
            );
            lemma_count_payload_rec8(
                crate::elf2rel::nop_rem(d) as u16,
                r.rtype,
                (r.dest_section % 0x100) as u8,
                r.addend,
            );
            lemma_count_payload_concat(
                st2.stream + crate::elf2rel::nop_records(d),
                rec8(
                    crate::elf2rel::nop_rem(d) as u16,
                    r.rtype,
                    (r.dest_section % 0x100) as u8,
                    r.addend,
                ),
            );
        }
    }
}

/// Over the whole record region: the trailing `DolphinEnd` adds no payload
/// record, so the region carries exactly one record per relocation that was
/// not resolved in place.
pub proof fn lemma_region_payload_count(
    out0: Seq<u8>,
    offs: Seq<Option<usize>>,
    rs: Seq<ElfRelocation>,
    mid: u32,
)
    requires
        crate::reloc::sorted_by_key(rs),
        forall|i: int| 0 <= i < rs.len() ==> #[trigger] rs[i].rtype < 201,
        spec_write_relocations(out0, offs, rs, mid) is Ok,
    ensures
        ({
            let t = spec_write_relocations(out0, offs, rs, mid)->Ok_0;
            count_payload(t.0.skip(t.2)) == streamed_count(rs, rs.len() as int, mid)
        }),
{
    let t = spec_write_relocations(out0, offs, rs, mid)->Ok_0;
    let out1 = crate::elf2rel::patch_all(out0, offs, rs, mid, rs.len() as int)->Ok_0;
    let imp_off = round_up(out1.len() as int, 8);
    let n = runs(rs, rs.len() as int);
    let rel_off = imp_off + 8 * n;
    let st = crate::elf2rel::stream_fold(
        rs,
        rs.len() as int,
        mid,
        rel_off,
        crate::elf2rel::stream_init(),
    )->Ok_0;
    lemma_one_record_per_relocation(rs, rs.len() as int, mid, rel_off);
    lemma_round_up(out1.len() as int, 8);
    lemma_import_region_sufficient(rs, rs.len() as int, mid, rel_off);
    assert(t.0.skip(t.2) =~= st.stream + rec8(0, 203, 0, 0));
    lemma_count_payload_concat(st.stream, rec8(0, 203, 0, 0));
    lemma_count_payload_rec8(0, 203, 0, 0);
}

} // verus!
