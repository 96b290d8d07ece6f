//! Collected relocations and their ordering. The REL stream wants its
//! relocations grouped by destination module, then by source section, then by
//! rising source offset; a stable insertion sort realizes exactly that order.

use vstd::prelude::*;

verus! {

/// PowerPC relocation type codes recognized from the ELF, together with the
/// three Dolphin stream opcodes (`201` nop, `202` section change, `203` end).
pub open spec fn known_rtype(t: u8) -> bool {
    t <= 11 || t == 26 || t == 201 || t == 202 || t == 203
}

/// Type codes the REL instruction stream can carry. `11` (a relative branch
/// hint form) and `26` (a 32-bit relative word) are recognized from the ELF
/// but have no stream encoding.
pub open spec fn stream_rtype(t: u8) -> bool {
    t <= 10 || t == 201 || t == 202 || t == 203
}

/// One collected relocation, classified and with its addend resolved.
/// External relocations carry `dest_module == 0` and `dest_section == 0`.
#[derive(Clone, Copy, PartialEq, Eq, Structural, Debug)]
pub struct ElfRelocation {
    pub src_section: u32,
    pub src_offset: u32,
    pub dest_module: u32,
    pub dest_section: u32,
    pub addend: u32,
    pub rtype: u8,
}

/// The stream order: lexicographic on (destination module, source section,
/// source offset). A total preorder; ties are broken by input order.
pub open spec fn key_le(a: ElfRelocation, b: ElfRelocation) -> bool {
    ||| a.dest_module < b.dest_module
    ||| (a.dest_module == b.dest_module && (a.src_section < b.src_section || (a.src_section
        == b.src_section && a.src_offset <= b.src_offset)))
}

pub open spec fn sorted_by_key(s: Seq<ElfRelocation>) -> bool {
    forall|i: int, j: int| 0 <= i < j < s.len() ==> key_le(#[trigger] s[i], #[trigger] s[j])
}

/// `x` inserted into `s` after every element whose key is not above `x`'s:
/// on a sorted `s` this is the rightmost fitting slot, which keeps equal
/// keys in arrival order.
pub open spec fn insert_sorted(s: Seq<ElfRelocation>, x: ElfRelocation) -> Seq<ElfRelocation>
    decreases s.len(),
{
    if s.len() == 0 {
        seq![x]
    } else if key_le(s.last(), x) {
        s.push(x)
    } else {
        insert_sorted(s.drop_last(), x).push(s.last())
    }
}

/// Stable sort by [`key_le`], defined as iterated insertion.
pub open spec fn spec_sort(s: Seq<ElfRelocation>) -> Seq<ElfRelocation>
    decreases s.len(),
{
    if s.len() == 0 {
        s
    } else {
        insert_sorted(spec_sort(s.drop_last()), s.last())
    }
}

pub proof fn lemma_key_le_total(a: ElfRelocation, b: ElfRelocation)
    ensures
        key_le(a, b) || key_le(b, a),
        key_le(a, b) && key_le(b, a) ==> (a.dest_module == b.dest_module && a.src_section
            == b.src_section && a.src_offset == b.src_offset),
{
}

pub proof fn lemma_insert_sorted_len(s: Seq<ElfRelocation>, x: ElfRelocation)
    ensures
        insert_sorted(s, x).len() == s.len() + 1,
    decreases s.len(),
{
    if s.len() > 0 && !key_le(s.last(), x) {
        lemma_insert_sorted_len(s.drop_last(), x);
    }
}

/// Inserting into a sorted sequence keeps it sorted.
pub proof fn lemma_insert_sorted_sorted(s: Seq<ElfRelocation>, x: ElfRelocation)
    requires
        sorted_by_key(s),
    ensures
        sorted_by_key(insert_sorted(s, x)),
    decreases s.len(),
{
    if s.len() == 0 {
    } else if key_le(s.last(), x) {
        let r = s.push(x);
        assert forall|i: int, j: int| 0 <= i < j < r.len() implies key_le(r[i], r[j]) by {
            if j == r.len() - 1 {
                if i < s.len() - 1 {
                    assert(key_le(s[i], s.last()));
                }
            }
        }
    } else {
        assert(sorted_by_key(s.drop_last()));
        lemma_insert_sorted_sorted(s.drop_last(), x);
        lemma_insert_sorted_len(s.drop_last(), x);
        let t = insert_sorted(s.drop_last(), x);
        let r = t.push(s.last());
        // every element of t is either from s.drop_last() or is x; both are
        // key_le the final element s.last()
        assert forall|i: int, j: int| 0 <= i < j < r.len() implies key_le(r[i], r[j]) by {
            if j == r.len() - 1 {
                lemma_insert_sorted_elems(s.drop_last(), x, i);
                lemma_key_le_total(x, s.last());
                assert(forall|m: int| 0 <= m < s.len() - 1 ==> key_le(#[trigger] s[m], s.last()));
            }
        }
    }
}

/// Every element of `insert_sorted(s, x)` is an element of `s` or is `x`.
pub proof fn lemma_insert_sorted_elems(s: Seq<ElfRelocation>, x: ElfRelocation, i: int)
    requires
        0 <= i < insert_sorted(s, x).len(),
    ensures
        insert_sorted(s, x)[i] == x || exists|m: int|
            0 <= m < s.len() && s[m] == insert_sorted(s, x)[i],
    decreases s.len(),
{
    lemma_insert_sorted_len(s, x);
    if s.len() == 0 {
    } else if key_le(s.last(), x) {
        if i < s.len() {
            assert(s[i] == insert_sorted(s, x)[i]);
        }
    } else {
        lemma_insert_sorted_len(s.drop_last(), x);
        if i < insert_sorted(s.drop_last(), x).len() {
            lemma_insert_sorted_elems(s.drop_last(), x, i);
            if insert_sorted(s.drop_last(), x)[i] != x {
                let m = choose|m: int|
                    0 <= m < s.drop_last().len() && s.drop_last()[m] == insert_sorted(
                        s.drop_last(),
                        x,
                    )[i];
                assert(s[m] == insert_sorted(s, x)[i]);
            }
        } else {
            assert(insert_sorted(s, x)[i] == s.last());
            assert(s[s.len() - 1] == insert_sorted(s, x)[i]);
        }
    }
}

/// The sort really sorts.
pub proof fn lemma_sort_sorted(s: Seq<ElfRelocation>)
    ensures
        sorted_by_key(spec_sort(s)),
        spec_sort(s).len() == s.len(),
    decreases s.len(),
{
    if s.len() > 0 {
        lemma_sort_sorted(s.drop_last());
        lemma_insert_sorted_sorted(spec_sort(s.drop_last()), s.last());
        lemma_insert_sorted_len(spec_sort(s.drop_last()), s.last());
    }
}

/// Inserting at the end of a sorted run whose elements all fit below keeps
/// the sequence itself: sorting something sorted changes nothing.
pub proof fn lemma_sort_of_sorted(s: Seq<ElfRelocation>)
    requires
        sorted_by_key(s),
    ensures
        spec_sort(s) == s,
    decreases s.len(),
{
    if s.len() > 0 {
        assert(sorted_by_key(s.drop_last()));
        lemma_sort_of_sorted(s.drop_last());
        if s.len() >= 2 {
            assert(key_le(s[s.len() - 2], s[s.len() - 1]));
        }
        assert(insert_sorted(s.drop_last(), s.last()) =~= s);
    }
}

/// Sorting is idempotent.
pub proof fn lemma_sort_idempotent(s: Seq<ElfRelocation>)
    ensures
        spec_sort(spec_sort(s)) == spec_sort(s),
{
    lemma_sort_sorted(s);
    lemma_sort_of_sorted(spec_sort(s));
}

/// Which position `insert_sorted` fills: the slot `p` found by scanning from
/// the right past every element whose key is above `x`'s.
pub proof fn lemma_insert_at(s: Seq<ElfRelocation>, x: ElfRelocation, p: int)
    requires
        0 <= p <= s.len(),
        forall|k: int| p <= k < s.len() ==> !key_le(#[trigger] s[k], x),
        p > 0 ==> key_le(s[p - 1], x),
    ensures
        insert_sorted(s, x) == s.take(p) + seq![x] + s.skip(p),
    decreases s.len(),
{
    if s.len() == 0 {
        assert(insert_sorted(s, x) =~= s.take(0) + seq![x] + s.skip(0));
    } else if key_le(s.last(), x) {
        assert(p == s.len());
        assert(insert_sorted(s, x) =~= s.take(p) + seq![x] + s.skip(p));
    } else {
        assert(p < s.len());
        lemma_insert_at(s.drop_last(), x, p);
        assert(insert_sorted(s, x) == (s.drop_last().take(p) + seq![x] + s.drop_last().skip(
            p,
        )).push(s.last()));
        assert(s.drop_last().take(p) =~= s.take(p));
        assert((s.take(p) + seq![x] + s.drop_last().skip(p)).push(s.last()) =~= s.take(p)
            + seq![x] + s.skip(p));
    }
}

/// Sorts the collected relocations into stream order: the result is the
/// stable [`spec_sort`] of the input, hence sorted by [`key_le`].
pub fn sort_relocations(v: &mut Vec<ElfRelocation>)
    ensures
        final(v)@ == spec_sort(old(v)@),
        sorted_by_key(final(v)@),
        final(v)@.len() == old(v)@.len(),
{
    let mut out: Vec<ElfRelocation> = Vec::new();
    let mut i: usize = 0;
    assert(old(v)@.take(0) =~= Seq::<ElfRelocation>::empty());
    while i < v.len()
        invariant
            i <= v@.len(),
            v@ == old(v)@,
            out@ == spec_sort(v@.take(i as int)),
            sorted_by_key(out@),
        decreases v@.len() - i,
    {
        let x = v[i];
        // find the insertion slot from the right
        let mut p: usize = out.len();
        while p > 0 && !key_le_exec(&out[p - 1], &x)
            invariant
                p <= out@.len(),
                forall|k: int| p <= k < out@.len() ==> !key_le(#[trigger] out@[k], x),
            decreases p,
        {
            p = p - 1;
        }
        proof {
            lemma_insert_at(out@, x, p as int);
            lemma_insert_sorted_sorted(out@, x);
            assert(v@.take(i + 1).drop_last() =~= v@.take(i as int));
            assert(v@.take(i + 1).last() == v@[i as int]);
        }
        let ghost prev = out@;
        out.insert(p, x);
        proof {
            assert(out@ =~= prev.take(p as int) + seq![x] + prev.skip(p as int));
            assert(out@ == spec_sort(v@.take(i + 1)));
        }
        i = i + 1;
    }
    proof {
        assert(v@.take(v@.len() as int) =~= v@);
        lemma_sort_sorted(v@);
    }
    *v = out;
}

/// The stream comparison, executable form.
pub fn key_le_exec(a: &ElfRelocation, b: &ElfRelocation) -> (r: bool)
    ensures
        r == key_le(*a, *b),
{
    if a.dest_module != b.dest_module {
        a.dest_module < b.dest_module
    } else if a.src_section != b.src_section {
        a.src_section < b.src_section
    } else {
        a.src_offset <= b.src_offset
    }
}

/// Two relocations carry the same sort key.
pub open spec fn same_key(a: ElfRelocation, b: ElfRelocation) -> bool {
    a.dest_module == b.dest_module && a.src_section == b.src_section && a.src_offset
        == b.src_offset
}

/// Inserting `y` into a sorted sequence leaves each key class in arrival
/// order: `y` lands after every element of its own class.
pub proof fn lemma_insert_sorted_stable(s: Seq<ElfRelocation>, y: ElfRelocation, x: ElfRelocation)
    requires
        sorted_by_key(s),
    ensures
        insert_sorted(s, y).filter(|e: ElfRelocation| same_key(e, x)) == (if same_key(y, x) {
            s.filter(|e: ElfRelocation| same_key(e, x)).push(y)
        } else {
            s.filter(|e: ElfRelocation| same_key(e, x))
        }),
    decreases s.len(),
{
    reveal_with_fuel(Seq::<_>::filter, 4);
    let p = |e: ElfRelocation| same_key(e, x);
    if s.len() == 0 {
        assert(insert_sorted(s, y) =~= Seq::empty().push(y));
        assert(insert_sorted(s, y).drop_last() =~= Seq::<ElfRelocation>::empty());
    } else if key_le(s.last(), y) {
        assert(s.push(y).drop_last() =~= s);
    } else {
        assert(sorted_by_key(s.drop_last()));
        lemma_insert_sorted_stable(s.drop_last(), y, x);
        lemma_insert_sorted_len(s.drop_last(), y);
        let t = insert_sorted(s.drop_last(), y);
        assert(t.push(s.last()).drop_last() =~= t);
        // the displaced last element has a strictly larger key than y, so it
        // cannot share a key with y
        if same_key(y, x) && same_key(s.last(), x) {
            assert(key_le(s.last(), y));
        }
        if p(s.last()) {
            assert(s.drop_last().filter(p).push(s.last()) == s.filter(p));
        } else {
            assert(s.drop_last().filter(p) == s.filter(p));
        }
    }
}

/// Sorting is stable: for every key, the subsequence of relocations with
/// that key is the same before and after the sort.
pub proof fn lemma_sort_stable(s: Seq<ElfRelocation>, x: ElfRelocation)
    ensures
        spec_sort(s).filter(|e: ElfRelocation| same_key(e, x)) == s.filter(
            |e: ElfRelocation| same_key(e, x),
        ),
    decreases s.len(),
{
    reveal_with_fuel(Seq::<_>::filter, 4);
    let p = |e: ElfRelocation| same_key(e, x);
    if s.len() > 0 {
        lemma_sort_stable(s.drop_last(), x);
        lemma_sort_sorted(s.drop_last());
        lemma_insert_sorted_stable(spec_sort(s.drop_last()), s.last(), x);
    }
}

} // verus!
