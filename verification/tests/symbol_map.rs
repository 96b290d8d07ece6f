use gamecube_tools::errors::Elf2RelError;
use gamecube_tools::symmap::parse_symbol_map;

#[test]
fn comment_and_whitespace_line() {
    let m = parse_symbol_map(b"// comment\n  deadbeef : foo  \n").unwrap();
    assert_eq!(m.get(b"foo"), Some(0xdeadbeef));
    assert_eq!(m.get(b"bar"), None);
}

#[test]
fn several_lines_and_formats() {
    let m = parse_symbol_map(b"80003100:main\n\n//x\n  80003200\t:  helper\nFFFFFFFF:top\n")
        .unwrap();
    assert_eq!(m.get(b"main"), Some(0x80003100));
    assert_eq!(m.get(b"helper"), Some(0x80003200));
    assert_eq!(m.get(b"top"), Some(0xFFFFFFFF));
}

#[test]
fn last_duplicate_wins() {
    let m = parse_symbol_map(b"1:dup\n2:dup\n").unwrap();
    assert_eq!(m.get(b"dup"), Some(2));
}

#[test]
fn final_line_without_newline() {
    let m = parse_symbol_map(b"12:tail").unwrap();
    assert_eq!(m.get(b"tail"), Some(0x12));
}

#[test]
fn carriage_returns_are_stripped() {
    let m = parse_symbol_map(b"a0:crlf\r\n").unwrap();
    assert_eq!(m.get(b"crlf"), Some(0xa0));
}

#[test]
fn name_is_trimmed() {
    let m = parse_symbol_map(b"ff: spaced name here \n").unwrap();
    assert_eq!(m.get(b"spaced name here"), Some(0xff));
}

#[test]
fn rejects_non_utf8() {
    assert_eq!(parse_symbol_map(b"\xff\xfe").unwrap_err(), Elf2RelError::MapNotUtf8);
}

#[test]
fn rejects_missing_separator() {
    assert_eq!(
        parse_symbol_map(b"//ok\ndeadbeef foo\n").unwrap_err(),
        Elf2RelError::MapMissingSeparator(2)
    );
}

#[test]
fn rejects_empty_name() {
    assert_eq!(parse_symbol_map(b"deadbeef:   \n").unwrap_err(), Elf2RelError::MapEmptyName(1));
}

#[test]
fn rejects_bad_hex_address() {
    assert_eq!(parse_symbol_map(b"xyz:foo\n").unwrap_err(), Elf2RelError::MapBadAddress(1));
}

#[test]
fn rejects_address_overflow() {
    assert_eq!(
        parse_symbol_map(b"100000000:foo\n").unwrap_err(),
        Elf2RelError::MapBadAddress(1)
    );
}

#[test]
fn empty_map_parses() {
    let m = parse_symbol_map(b"").unwrap();
    assert_eq!(m.get(b"anything"), None);
}
