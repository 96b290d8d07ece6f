use gamecube_tools::gcipack::{
    gcipack, gcipack_with_timestamp, str_to_array, str_to_padded_array, validate_str, GciPackError,
    ImageKind, StringKind,
};

fn ru16(b: &[u8], off: usize) -> u16 {
    ((b[off] as u16) << 8) | b[off + 1] as u16
}

fn ru32(b: &[u8], off: usize) -> u32 {
    ((b[off] as u32) << 24) | ((b[off + 1] as u32) << 16) | ((b[off + 2] as u32) << 8) | b[off
        + 3] as u32
}

#[test]
fn packs_small_payload() {
    let file: Vec<u8> = vec![7; 100];
    let banner: Vec<u8> = vec![1; 0x1800];
    let icon: Vec<u8> = vec![2; 0x800];
    let out = gcipack_with_timestamp(&file, "rel", "game", "desc", &banner, &icon, "GAMEID", 5)
        .unwrap();

    // header
    assert_eq!(&out[0..6], b"GAMEID");
    assert_eq!(out[6], 0xff);
    assert_eq!(out[7], 2);
    assert_eq!(&out[8..11], b"rel");
    assert_eq!(out[11], 0);
    assert_eq!(ru32(&out, 40), 5); // last modified
    assert_eq!(ru32(&out, 44), 0); // image offset
    assert_eq!(ru16(&out, 48), 2); // icon format
    assert_eq!(ru16(&out, 50), 3); // icon speed
    assert_eq!(out[52], 4); // permissions
    assert_eq!(out[53], 0); // copy times
    assert_eq!(ru16(&out, 54), 0); // first block
    assert_eq!(ru16(&out, 56), 2); // block count: 0x2200 + 100 needs 2 blocks
    assert_eq!(ru16(&out, 58), 0xff);
    assert_eq!(ru32(&out, 60), 0x2000); // comment offset

    // metadata
    assert_eq!(&out[0x40..0x40 + 0x1800], &banner[..]);
    assert_eq!(&out[0x1840..0x1840 + 0x800], &icon[..]);
    assert_eq!(&out[0x2040..0x2044], b"game");
    assert_eq!(out[0x2044], 0);
    assert_eq!(&out[0x2060..0x2064], b"desc");
    assert_eq!(ru32(&out, 0x2080), 100); // payload size

    // payload and total size: header + 2 blocks
    assert_eq!(&out[0x2240..0x2240 + 100], &file[..]);
    assert_eq!(out.len(), 0x40 + 2 * 0x2000);
    assert!(out[0x2240 + 100..].iter().all(|b| *b == 0));
}

#[test]
fn exact_block_needs_no_padding() {
    let file: Vec<u8> = vec![3; 0x2000 - 0x200];
    let banner: Vec<u8> = vec![0; 0x1800];
    let icon: Vec<u8> = vec![0; 0x800];
    let out = gcipack_with_timestamp(&file, "a", "b", "c", &banner, &icon, "ABCDEF", 0).unwrap();
    assert_eq!(out.len(), 0x40 + 2 * 0x2000);
    assert_eq!(ru16(&out, 56), 2);
}

#[test]
fn clock_stamped_pack_matches_apart_from_timestamp() {
    let file: Vec<u8> = vec![9; 10];
    let banner: Vec<u8> = vec![0; 0x1800];
    let icon: Vec<u8> = vec![0; 0x800];
    let a = gcipack(&file, "n", "t", "d", &banner, &icon, "ABCDEF").unwrap();
    let b = gcipack_with_timestamp(&file, "n", "t", "d", &banner, &icon, "ABCDEF", 0).unwrap();
    assert_eq!(a.len(), b.len());
    assert_eq!(&a[..40], &b[..40]);
    assert_eq!(&a[44..], &b[44..]);
}

#[test]
fn rejects_wrong_banner_size() {
    let r = gcipack_with_timestamp(b"x", "n", "t", "d", &[0; 10], &[0; 0x800], "ABCDEF", 0);
    assert_eq!(
        r.unwrap_err(),
        GciPackError::ImageInvalidSize { kind: ImageKind::Banner, actual: 10 }
    );
}

#[test]
fn rejects_wrong_icon_size() {
    let banner: Vec<u8> = vec![0; 0x1800];
    let r = gcipack_with_timestamp(b"x", "n", "t", "d", &banner, &[0; 11], "ABCDEF", 0);
    assert_eq!(
        r.unwrap_err(),
        GciPackError::ImageInvalidSize { kind: ImageKind::Icon, actual: 11 }
    );
}

#[test]
fn rejects_wrong_gamecode_length() {
    let banner: Vec<u8> = vec![0; 0x1800];
    let icon: Vec<u8> = vec![0; 0x800];
    let r = gcipack_with_timestamp(b"x", "n", "t", "d", &banner, &icon, "AB", 0);
    assert_eq!(
        r.unwrap_err(),
        GciPackError::StringInvalidSize { kind: StringKind::GameCode, limit: 6, actual: 2 }
    );
}

#[test]
fn rejects_non_ascii_title() {
    let banner: Vec<u8> = vec![0; 0x1800];
    let icon: Vec<u8> = vec![0; 0x800];
    let r = gcipack_with_timestamp(b"x", "n", "übertitel", "d", &banner, &icon, "ABCDEF", 0);
    assert_eq!(r.unwrap_err(), GciPackError::StringNonAscii(StringKind::Title));
}

#[test]
fn rejects_oversized_file_name() {
    let banner: Vec<u8> = vec![0; 0x1800];
    let icon: Vec<u8> = vec![0; 0x800];
    let long = "abcdefghijklmnopqrstuvwxyz0123456789";
    let r = gcipack_with_timestamp(b"x", long, "t", "d", &banner, &icon, "ABCDEF", 0);
    assert_eq!(
        r.unwrap_err(),
        GciPackError::StringInvalidSize { kind: StringKind::FileName, limit: 32, actual: 36 }
    );
}

#[test]
fn validate_str_checks() {
    assert_eq!(validate_str("ok", StringKind::Title, 5), Ok(()));
    assert_eq!(
        validate_str("toolong", StringKind::Title, 5),
        Err(GciPackError::StringInvalidSize { kind: StringKind::Title, limit: 5, actual: 7 })
    );
    assert_eq!(
        validate_str("nön", StringKind::GameCode, 5),
        Err(GciPackError::StringNonAscii(StringKind::GameCode))
    );
}

#[test]
fn string_array_helpers() {
    let a: [u8; 6] = str_to_array("ABCDEF", StringKind::GameCode).unwrap();
    assert_eq!(&a, b"ABCDEF");
    let p: [u8; 8] = str_to_padded_array("hi", StringKind::FileName).unwrap();
    assert_eq!(&p, b"hi\0\0\0\0\0\0");
    let e: Result<[u8; 4], GciPackError> = str_to_array("abc", StringKind::GameCode);
    assert_eq!(
        e.unwrap_err(),
        GciPackError::StringInvalidSize { kind: StringKind::GameCode, limit: 4, actual: 3 }
    );
}
