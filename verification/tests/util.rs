use smbc::util::{
    cstr, cstring, result_from_ptr, result_from_ptr_mut, to_result_with_errno, to_result_with_le,
    write_to_cstr, PtrConst, PtrMut, SmbError,
};

#[test]
fn null_pointer_fails_with_os_error() {
    match result_from_ptr_mut(PtrMut { addr: 0 }) {
        Err(SmbError::Os { .. }) => {}
        other => panic!("expected an OS error, got {:?}", other),
    }
    match result_from_ptr(PtrConst { addr: 0 }) {
        Err(SmbError::Os { .. }) => {}
        other => panic!("expected an OS error, got {:?}", other),
    }
}

#[test]
fn non_null_pointer_passes_through_unchanged() {
    let p = PtrMut { addr: 0x1f00 };
    assert_eq!(result_from_ptr_mut(p), Ok(p));
    let q = PtrConst { addr: 0x2a };
    assert_eq!(result_from_ptr(q), Ok(q));
}

#[test]
fn sentinel_minus_one_fails() {
    match to_result_with_le(-1i32) {
        Err(SmbError::Os { .. }) => {}
        other => panic!("expected an OS error, got {:?}", other),
    }
    match to_result_with_le(-1i64) {
        Err(SmbError::Os { .. }) => {}
        other => panic!("expected an OS error, got {:?}", other),
    }
}

#[test]
fn sentinel_other_values_succeed() {
    assert_eq!(to_result_with_le(0i32), Ok(0i32));
    assert_eq!(to_result_with_le(42i32), Ok(42i32));
    assert_eq!(to_result_with_le(-2i32), Ok(-2i32));
    assert_eq!(to_result_with_le(i32::MIN), Ok(i32::MIN));
    assert_eq!(to_result_with_le(i32::MAX), Ok(i32::MAX));
    assert_eq!(to_result_with_le(i64::MIN), Ok(i64::MIN));
    assert_eq!(to_result_with_le(i64::MAX), Ok(i64::MAX));
}

#[test]
fn sentinel_with_explicit_errno() {
    assert_eq!(
        to_result_with_errno(-1i32, 13),
        Err(SmbError::Os { code: 13 })
    );
    assert_eq!(to_result_with_errno(7i32, 13), Ok(7i32));
    assert_eq!(
        to_result_with_errno(-1i64, 2),
        Err(SmbError::Os { code: 2 })
    );
    assert_eq!(to_result_with_errno(0i64, 2), Ok(0i64));
}

#[test]
fn encode_rejects_embedded_null() {
    match cstring("a\0b") {
        Err(e) => assert_eq!(e, SmbError::InvalidInput { nul_position: 1 }),
        Ok(_) => panic!("embedded null must be rejected"),
    }
    match cstring("\0") {
        Err(e) => assert_eq!(e, SmbError::InvalidInput { nul_position: 0 }),
        Ok(_) => panic!("embedded null must be rejected"),
    }
}

#[test]
fn encode_appends_terminator() {
    let buf = cstring("ab").unwrap();
    assert_eq!(buf.as_bytes(), &[b'a', b'b', 0]);
    let empty = cstring("").unwrap();
    assert_eq!(empty.as_bytes(), &[0]);
}

#[test]
fn decode_stops_at_first_null() {
    assert_eq!(cstr(b"abc\0def"), "abc".to_string());
    assert_eq!(cstr(b"\0"), "".to_string());
    assert_eq!(cstr(b"\0xyz"), "".to_string());
}

#[test]
fn decode_replaces_invalid_sequences() {
    assert_eq!(cstr(b"\xffa\0"), "\u{FFFD}a".to_string());
    assert_eq!(cstr(b"ab\xc3\0"), "ab\u{FFFD}".to_string());
}

#[test]
fn round_trip_preserves_text() {
    for s in ["", "hello", "h\u{e9}llo", "\u{65e5}\u{672c}\u{8a9e}", "a b c"] {
        let buf = cstring(s).unwrap();
        assert_eq!(cstr(buf.as_bytes()), s.to_string());
    }
}

#[test]
fn write_fixed_short_source_terminates_after_content() {
    let mut buf = vec![7u8, 7, 7, 7, 7];
    write_to_cstr(&mut buf, "hi");
    assert_eq!(buf, vec![b'h', b'i', 0, 7, 0]);
}

#[test]
fn write_fixed_exact_fit_uses_last_byte_for_terminator() {
    let mut buf = vec![7u8, 7, 7, 7, 7];
    write_to_cstr(&mut buf, "hell");
    assert_eq!(buf, vec![b'h', b'e', b'l', b'l', 0]);
}

#[test]
fn write_fixed_truncates_long_source() {
    let mut buf = vec![7u8, 7, 7, 7, 7];
    write_to_cstr(&mut buf, "hello world");
    assert_eq!(buf, vec![b'h', b'e', b'l', b'l', 0]);
}

#[test]
fn write_fixed_one_byte_buffer_holds_only_terminator() {
    let mut buf = vec![9u8];
    write_to_cstr(&mut buf, "anything");
    assert_eq!(buf, vec![0]);
}

#[test]
fn write_fixed_empty_source() {
    let mut buf = vec![5u8, 5, 5];
    write_to_cstr(&mut buf, "");
    assert_eq!(buf, vec![0, 5, 0]);
}

#[test]
fn write_fixed_may_split_multibyte_character() {
    // "é" encodes as two bytes; only the first fits before the terminator.
    let mut buf = vec![1u8, 1];
    write_to_cstr(&mut buf, "\u{e9}");
    assert_eq!(buf, vec![0xc3, 0]);
}

#[test]
fn write_fixed_twice_latest_write_wins() {
    let mut buf = vec![0u8; 10];
    write_to_cstr(&mut buf, "abcdefgh");
    write_to_cstr(&mut buf, "xy");
    assert_eq!(cstr(&buf), "xy".to_string());
    assert_eq!(buf[2], 0);
    assert_eq!(buf[9], 0);
    // Leftovers of the longer write sit only behind the terminator.
    assert_eq!(&buf[3..8], &[b'd', b'e', b'f', b'g', b'h']);
}

#[test]
fn write_fixed_twice_short_then_long() {
    let mut buf = vec![0u8; 6];
    write_to_cstr(&mut buf, "a");
    write_to_cstr(&mut buf, "uvwxyz");
    assert_eq!(cstr(&buf), "uvwxy".to_string());
    assert_eq!(buf, vec![b'u', b'v', b'w', b'x', b'y', 0]);
}
