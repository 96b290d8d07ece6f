//! Packing a payload into a GCI memory-card container: a 0x40-byte header,
//! then a metadata block (banner, icon, title, description, payload size),
//! then the payload, zero-padded so that everything after the header fills
//! a whole number of 0x2000-byte blocks. Every multibyte field is
//! big-endian.

use vstd::prelude::*;

use crate::bebytes::{be16, be32, lo32, push_u16_be, push_u32_be, push_zeros, round_up, zeros};
use vstd::string::StringSliceAdditionalSpecFns;

verus! {

broadcast use {crate::bebytes::lemma_be16_len, crate::bebytes::lemma_be32_len};

/// Which text field was refused.
#[derive(Clone, Copy, PartialEq, Eq, Structural, Debug)]
pub enum StringKind {
    FileName,
    Title,
    Description,
    GameCode,
}

/// Which image was refused.
#[derive(Clone, Copy, PartialEq, Eq, Structural, Debug)]
pub enum ImageKind {
    Banner,
    Icon,
}

/// Why packing was refused.
#[allow(inconsistent_fields)]
#[derive(Clone, Copy, PartialEq, Eq, Structural, Debug)]
pub enum GciPackError {
    /// The image does not have its fixed byte size.
    ImageInvalidSize { kind: ImageKind, actual: usize },
    /// The text is longer than its field (or not exactly the field size,
    /// for the game code).
    StringInvalidSize { kind: StringKind, limit: usize, actual: usize },
    /// The text is not ASCII.
    StringNonAscii(StringKind),
}

/// The banner is 96x32 RGB5A3 pixels.
pub const BANNER_SIZE: usize = 0x1800;

/// The icon is 32x32 RGB5A3 pixels.
pub const ICON_SIZE: usize = 0x800;

/// Memory cards store files in 0x2000-byte blocks.
pub const BLOCK_SIZE: usize = 0x2000;

/// A text field padded with zero bytes to the 0x20-byte field size.
pub open spec fn pad32(s: Seq<u8>) -> Seq<u8> {
    s + zeros(0x20 - s.len())
}

/// The low 16 bits of an integer.
pub open spec fn lo16(x: int) -> u16 {
    (x % 0x10000) as u16
}

/// What [`validate_str`] decides: ASCII and within the size limit.
pub open spec fn spec_validate_str(s: &str, kind: StringKind, max_size: usize) -> Result<
    (),
    GciPackError,
> {
    if !vstd::string::is_ascii(s) {
        Err(GciPackError::StringNonAscii(kind))
    } else if s.spec_bytes().len() > max_size {
        Err(
            GciPackError::StringInvalidSize {
                kind,
                limit: max_size,
                actual: s.spec_bytes().len() as usize,
            },
        )
    } else {
        Ok(())
    }
}

/// Checks that `s` is ASCII and at most `max_size` bytes.
pub fn validate_str(s: &str, kind: StringKind, max_size: usize) -> (r: Result<(), GciPackError>)
    ensures
        r == spec_validate_str(s, kind, max_size),
{
    proof {
        broadcast use vstd::slice::axiom_spec_len;

    }
    if !s.is_ascii() {
        return Err(GciPackError::StringNonAscii(kind));
    }
    let b = s.as_bytes();
    if b.len() > max_size {
        return Err(
            GciPackError::StringInvalidSize { kind, limit: max_size, actual: b.len() },
        );
    }
    Ok(())
}

/// The first reason to refuse a text destined for an exactly `n`-byte field.
pub open spec fn exact_str_err(s: &str, kind: StringKind, n: int) -> Option<GciPackError> {
    if !vstd::string::is_ascii(s) {
        Some(GciPackError::StringNonAscii(kind))
    } else if s.spec_bytes().len() != n {
        Some(
            GciPackError::StringInvalidSize {
                kind,
                limit: n as usize,
                actual: s.spec_bytes().len() as usize,
            },
        )
    } else {
        None
    }
}

/// The first reason to refuse a text destined for an at-most-`n`-byte field.
pub open spec fn padded_str_err(s: &str, kind: StringKind, n: int) -> Option<GciPackError> {
    if !vstd::string::is_ascii(s) {
        Some(GciPackError::StringNonAscii(kind))
    } else if s.spec_bytes().len() > n {
        Some(
            GciPackError::StringInvalidSize {
                kind,
                limit: n as usize,
                actual: s.spec_bytes().len() as usize,
            },
        )
    } else {
        None
    }
}

/// The ASCII bytes of `input` as an exactly `N`-byte array.
pub fn str_to_array<const N: usize>(input: &str, kind: StringKind) -> (r: Result<
    [u8; N],
    GciPackError,
>)
    ensures
        match r {
            Ok(a) => exact_str_err(input, kind, N as int) is None && a@ == input.spec_bytes(),
            Err(e) => exact_str_err(input, kind, N as int) == Some(e),
        },
{
    proof {
        broadcast use vstd::slice::axiom_spec_len;

    }
    if !input.is_ascii() {
        return Err(GciPackError::StringNonAscii(kind));
    }
    let b = input.as_bytes();
    if b.len() != N {
        return Err(GciPackError::StringInvalidSize { kind, limit: N, actual: b.len() });
    }
    let mut a: [u8; N] = vstd::array::array_fill_for_copy_types(0u8);
    let mut k: usize = 0;
    while k < N
        invariant
            k <= N,
            b@.len() == N,
            b@ == input.spec_bytes(),
            a@.len() == N,
            forall|m: int| 0 <= m < k ==> a@[m] == b@[m],
        decreases N - k,
    {
        a[k] = b[k];
        k = k + 1;
    }
    assert(a@ =~= input.spec_bytes());
    Ok(a)
}

/// The ASCII bytes of `input` zero-padded into an `N`-byte array.
pub fn str_to_padded_array<const N: usize>(input: &str, kind: StringKind) -> (r: Result<
    [u8; N],
    GciPackError,
>)
    ensures
        match r {
            Ok(a) => padded_str_err(input, kind, N as int) is None && a@ == input.spec_bytes()
                + zeros(N - input.spec_bytes().len()),
            Err(e) => padded_str_err(input, kind, N as int) == Some(e),
        },
{
    proof {
        broadcast use vstd::slice::axiom_spec_len;

    }
    if !input.is_ascii() {
        return Err(GciPackError::StringNonAscii(kind));
    }
    let b = input.as_bytes();
    if b.len() > N {
        return Err(GciPackError::StringInvalidSize { kind, limit: N, actual: b.len() });
    }
    let mut a: [u8; N] = vstd::array::array_fill_for_copy_types(0u8);
    let mut k: usize = 0;
    while k < b.len()
        invariant
            k <= b@.len() <= N,
            b@ == input.spec_bytes(),
            a@.len() == N,
            forall|m: int| 0 <= m < k ==> a@[m] == b@[m],
            forall|m: int| k <= m < N ==> a@[m] == 0u8,
        decreases b@.len() - k,
    {
        a[k] = b[k];
        k = k + 1;
    }
    assert(a@ =~= input.spec_bytes() + zeros(N - input.spec_bytes().len()));
    Ok(a)
}

/// Relies on `std::time::SystemTime::now`: the wall clock, read as whole
/// seconds since 2000-01-01 UTC. Two calls need not agree, so nothing more
/// is stated of the result. A clock that reads before 2000 gives 0 rather
/// than a failure.
#[verifier::external_body]
pub fn get_modified_time_sec() -> u32 {
    let base = std::time::SystemTime::UNIX_EPOCH + std::time::Duration::from_secs(946684800);
    let now = std::time::SystemTime::now();
    now.duration_since(base).map(|d| d.as_secs() as u32).unwrap_or(0)
}

/// The number of memory-card blocks the metadata block and payload occupy
/// (the metadata block is 0x2200 bytes).
pub open spec fn spec_blocks(file_len: int) -> int {
    round_up(0x2200 + file_len, 0x2000) / 0x2000
}

/// The 0x40-byte GCI header.
pub open spec fn spec_gci_header(gamecode: Seq<u8>, fname: Seq<u8>, t: u32, file_len: int) -> Seq<
    u8,
> {
    gamecode + seq![0xffu8, 2u8] + pad32(fname) + be32(t) + be32(0) + be16(2) + be16(3) + seq![
        4u8,
        0u8,
    ] + be16(0) + be16(lo16(spec_blocks(file_len))) + be16(0xff) + be32(0x2000)
}

/// The 0x200-byte metadata block.
pub open spec fn spec_gci_metadata(
    banner: Seq<u8>,
    icon: Seq<u8>,
    title: Seq<u8>,
    desc: Seq<u8>,
    file_len: int,
) -> Seq<u8> {
    banner + icon + pad32(title) + pad32(desc) + be32(lo32(file_len)) + zeros(0x1bc)
}

/// The packed container for a last-modified stamp `t`: header, metadata,
/// payload, and zero padding up to a whole number of blocks.
pub open spec fn spec_gci_bytes(
    file: Seq<u8>,
    fname: Seq<u8>,
    title: Seq<u8>,
    desc: Seq<u8>,
    banner: Seq<u8>,
    icon: Seq<u8>,
    gamecode: Seq<u8>,
    t: u32,
) -> Seq<u8> {
    spec_gci_header(gamecode, fname, t, file.len() as int) + spec_gci_metadata(
        banner,
        icon,
        title,
        desc,
        file.len() as int,
    ) + file + zeros(round_up(0x2200 + file.len() as int, 0x2000) - (0x2200 + file.len() as int))
}

/// The first reason to refuse the inputs, in the order they are examined:
/// game code, file name, banner, icon, title, description.
pub open spec fn spec_gci_err(
    file_name: &str,
    title: &str,
    description: &str,
    banner: Seq<u8>,
    icon: Seq<u8>,
    gamecode: &str,
) -> Option<GciPackError> {
    if exact_str_err(gamecode, StringKind::GameCode, 6) is Some {
        exact_str_err(gamecode, StringKind::GameCode, 6)
    } else if padded_str_err(file_name, StringKind::FileName, 0x20) is Some {
        padded_str_err(file_name, StringKind::FileName, 0x20)
    } else if banner.len() != 0x1800 {
        Some(GciPackError::ImageInvalidSize { kind: ImageKind::Banner, actual: banner.len() as usize })
    } else if icon.len() != 0x800 {
        Some(GciPackError::ImageInvalidSize { kind: ImageKind::Icon, actual: icon.len() as usize })
    } else if padded_str_err(title, StringKind::Title, 0x20) is Some {
        padded_str_err(title, StringKind::Title, 0x20)
    } else {
        padded_str_err(description, StringKind::Description, 0x20)
    }
}

/// Appends every byte of a slice.
fn push_slice(v: &mut Vec<u8>, s: &[u8])
    ensures
        final(v)@ == old(v)@ + s@,
{
    let mut k: usize = 0;
    while k < s.len()
        invariant
            k <= s@.len(),
            v@ == old(v)@ + s@.take(k as int),
        decreases s@.len() - k,
    {
        v.push(s[k]);
        assert(v@ =~= old(v)@ + s@.take(k as int + 1));
        k = k + 1;
    }
    assert(v@ =~= old(v)@ + s@);
}

/// Packs `file` into a GCI container stamped `last_modified` (seconds since
/// 2000-01-01 UTC). The output is pinned byte for byte by [`spec_gci_bytes`];
/// the inputs are refused exactly as [`spec_gci_err`] says.
#[verifier::loop_isolation(false)]
#[verifier::rlimit(100)]
pub fn gcipack_with_timestamp(
    file: &[u8],
    file_name: &str,
    title: &str,
    description: &str,
    banner: &[u8],
    icon: &[u8],
    gamecode: &str,
    last_modified: u32,
) -> (r: Result<Vec<u8>, GciPackError>)
    requires
        file@.len() <= usize::MAX - 0x2200,
    ensures
        match r {
            Ok(v) => spec_gci_err(file_name, title, description, banner@, icon@, gamecode)
                is None && v@ == spec_gci_bytes(
                file@,
                file_name.spec_bytes(),
                title.spec_bytes(),
                description.spec_bytes(),
                banner@,
                icon@,
                gamecode.spec_bytes(),
                last_modified,
            ),
            Err(e) => spec_gci_err(file_name, title, description, banner@, icon@, gamecode)
                == Some(e),
        },
{
    let gamecode_a: [u8; 6] = match str_to_array(gamecode, StringKind::GameCode) {
        Ok(a) => a,
        Err(e) => {
            return Err(e);
        },
    };
    let fname_a: [u8; 32] = match str_to_padded_array(file_name, StringKind::FileName) {
        Ok(a) => a,
        Err(e) => {
            return Err(e);
        },
    };
    if banner.len() != BANNER_SIZE {
        return Err(
            GciPackError::ImageInvalidSize { kind: ImageKind::Banner, actual: banner.len() },
        );
    }
    if icon.len() != ICON_SIZE {
        return Err(GciPackError::ImageInvalidSize { kind: ImageKind::Icon, actual: icon.len() });
    }
    let title_a: [u8; 32] = match str_to_padded_array(title, StringKind::Title) {
        Ok(a) => a,
        Err(e) => {
            return Err(e);
        },
    };
    let desc_a: [u8; 32] = match str_to_padded_array(description, StringKind::Description) {
        Ok(a) => a,
        Err(e) => {
            return Err(e);
        },
    };

    // Block arithmetic.
    let unpadded: usize = 0x2200 + file.len();
    let blocks: usize = if unpadded % 0x2000 == 0 {
        unpadded / 0x2000
    } else {
        unpadded / 0x2000 + 1
    };
    let pad: usize = if unpadded % 0x2000 == 0 {
        0
    } else {
        0x2000 - unpadded % 0x2000
    };
    proof {
        crate::bebytes::lemma_round_up(unpadded as int, 0x2000);
        vstd::arithmetic::div_mod::lemma_fundamental_div_mod(unpadded as int, 0x2000);
        if unpadded as int % 0x2000 != 0 {
            vstd::arithmetic::div_mod::lemma_fundamental_div_mod_converse(
                round_up(unpadded as int, 0x2000),
                0x2000,
                unpadded as int / 0x2000 + 1,
                0,
            );
        } else {
            vstd::arithmetic::div_mod::lemma_fundamental_div_mod_converse(
                round_up(unpadded as int, 0x2000),
                0x2000,
                unpadded as int / 0x2000,
                0,
            );
        }
        assert(blocks as int == spec_blocks(file@.len() as int));
        assert(pad as int == round_up(unpadded as int, 0x2000) - unpadded as int);
    }
    let blocks16: u16 = ((blocks as u64) % 0x10000) as u16;
    assert(blocks16 == lo16(spec_blocks(file@.len() as int)));

    // Header.
    let mut gci: Vec<u8> = Vec::new();
    push_slice(&mut gci, vstd::array::array_as_slice(&gamecode_a));
    gci.push(0xff);
    gci.push(2);
    push_slice(&mut gci, vstd::array::array_as_slice(&fname_a));
    push_u32_be(&mut gci, last_modified);
    push_u32_be(&mut gci, 0);
    push_u16_be(&mut gci, 2);
    push_u16_be(&mut gci, 3);
    gci.push(4);
    gci.push(0);
    push_u16_be(&mut gci, 0);
    push_u16_be(&mut gci, blocks16);
    push_u16_be(&mut gci, 0xff);
    push_u32_be(&mut gci, 0x2000);
    assert(gci@ =~= spec_gci_header(
        gamecode.spec_bytes(),
        file_name.spec_bytes(),
        last_modified,
        file@.len() as int,
    ));
    let ghost header = gci@;

    // Metadata block.
    push_slice(&mut gci, banner);
    push_slice(&mut gci, icon);
    push_slice(&mut gci, vstd::array::array_as_slice(&title_a));
    push_slice(&mut gci, vstd::array::array_as_slice(&desc_a));
    let file_len32: u32 = ((file.len() as u64) % 0x100000000) as u32;
    assert(file_len32 == lo32(file@.len() as int));
    push_u32_be(&mut gci, file_len32);
    push_zeros(&mut gci, 0x1bc);
    assert(gci@ =~= header + spec_gci_metadata(
        banner@,
        icon@,
        title.spec_bytes(),
        description.spec_bytes(),
        file@.len() as int,
    ));

    // Payload and block padding.
    push_slice(&mut gci, file);
    push_zeros(&mut gci, pad);
    assert(gci@ =~= spec_gci_bytes(
        file@,
        file_name.spec_bytes(),
        title.spec_bytes(),
        description.spec_bytes(),
        banner@,
        icon@,
        gamecode.spec_bytes(),
        last_modified,
    ));
    Ok(gci)
}

/// Packs `file` into a GCI container stamped with the wall clock. Apart
/// from the last-modified field, which takes whatever the clock read, the
/// output is the same function of the inputs as [`gcipack_with_timestamp`]
/// computes.
pub fn gcipack(
    file: &[u8],
    file_name: &str,
    title: &str,
    description: &str,
    banner: &[u8],
    icon: &[u8],
    gamecode: &str,
) -> (r: Result<Vec<u8>, GciPackError>)
    requires
        file@.len() <= usize::MAX - 0x2200,
    ensures
        match r {
            Ok(v) => spec_gci_err(file_name, title, description, banner@, icon@, gamecode)
                is None && exists|t: u32|
                v@ == spec_gci_bytes(
                    file@,
                    file_name.spec_bytes(),
                    title.spec_bytes(),
                    description.spec_bytes(),
                    banner@,
                    icon@,
                    gamecode.spec_bytes(),
                    t,
                ),
            Err(e) => spec_gci_err(file_name, title, description, banner@, icon@, gamecode)
                == Some(e),
        },
{
    let t = get_modified_time_sec();
    let r = gcipack_with_timestamp(file, file_name, title, description, banner, icon, gamecode, t);
    proof {
        if r is Ok {
            assert(r->Ok_0@ == spec_gci_bytes(
                file@,
                file_name.spec_bytes(),
                title.spec_bytes(),
                description.spec_bytes(),
                banner@,
                icon@,
                gamecode.spec_bytes(),
                t,
            ));
        }
    }
    r
}

} // verus!
