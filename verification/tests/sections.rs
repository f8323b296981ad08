use be_engine::map::error::{Fault, Malformed, ParseError, ParseErrorContext, SectionKind, Truncated};
use be_engine::map::header::{
    check_header_valid, parse_section_header, SectionHeader, FILE_HEADER, FILE_HEADER_LEN,
    MAX_SECTION_HEADER_LEN, MAX_SECTION_LEN, MIN_SECTION_HEADER_LEN,
};
use be_engine::map::section::{parse_entities_save_leftovers, read_section_and_alloc_with_leftovers};

#[test]
fn the_magic_header_is_eleven_bytes() {
    assert_eq!(&FILE_HEADER, b"1113be_map\n");
    assert_eq!(FILE_HEADER_LEN, 11);
    assert_eq!(MIN_SECTION_HEADER_LEN, ".B 0\n".len());
    assert_eq!(MAX_SECTION_HEADER_LEN, ".B 18446744073709551615\n".len());
    assert_eq!(MAX_SECTION_LEN, i32::MAX as usize);
}

#[test]
fn the_magic_header_has_to_match_byte_for_byte() {
    assert!(check_header_valid(b"1113be_map\n").is_ok());
    assert!(check_header_valid(b"1113be_map\n.B 0\n").is_ok());
    for i in 0..11 {
        let mut bytes = *b"1113be_map\nrest";
        bytes[i] ^= 0x20;
        match check_header_valid(&bytes) {
            Err(ParseError::BadHeader(actual)) => assert_eq!(actual, bytes[..11].to_vec()),
            other => panic!("{other:?}"),
        }
    }
    for len in 0..11 {
        let err = check_header_valid(&b"1113be_map\n"[..len]).unwrap_err();
        assert!(matches!(err, ParseError::UnexpectedEOF(1, Truncated::MagicHeader)), "{err:?}");
    }
}

#[test]
fn a_section_header_declares_kind_and_length() {
    assert_eq!(
        parse_section_header(b".B 0\n", false, false),
        Ok(SectionHeader { kind: SectionKind::Brushes, size: 0, len: 5 })
    );
    assert_eq!(
        parse_section_header(b".E 1234\nbody", false, false),
        Ok(SectionHeader { kind: SectionKind::Entities, size: 1234, len: 8 })
    );
    assert_eq!(
        parse_section_header(b".B 0048\nb\n+0.0 +0.0 +0.0\n", false, true),
        Ok(SectionHeader { kind: SectionKind::Brushes, size: 48, len: 8 })
    );
    assert_eq!(
        parse_section_header(b".B 2147483647\n", false, false),
        Ok(SectionHeader { kind: SectionKind::Brushes, size: 2147483647, len: 14 })
    );
    assert_eq!(
        parse_section_header(b".B 00000000000000000012\n", false, false),
        Ok(SectionHeader { kind: SectionKind::Brushes, size: 12, len: 24 })
    );
}

#[test]
fn a_section_may_be_declared_once() {
    assert_eq!(
        parse_section_header(b".B 0\n", true, false),
        Err(Fault::Malformed(Malformed::DuplicateSection { kind: SectionKind::Brushes }))
    );
    assert_eq!(
        parse_section_header(b".E 0\n", false, true),
        Err(Fault::Malformed(Malformed::DuplicateSection { kind: SectionKind::Entities }))
    );
    assert!(parse_section_header(b".E 0\n", true, false).is_ok());
    assert!(parse_section_header(b".B 0\n", false, true).is_ok());
}

#[test]
fn a_section_header_ends_inside_its_window() {
    assert_eq!(
        parse_section_header(b".B 000000000000000000012\n", false, false),
        Err(Fault::Truncated(Truncated::SectionHeader))
    );
    assert_eq!(
        parse_section_header(b".B 12", false, false),
        Err(Fault::Truncated(Truncated::SectionHeader))
    );
    assert_eq!(
        parse_section_header(b".B 1", false, false),
        Err(Fault::Truncated(Truncated::SectionHeader))
    );
    assert_eq!(parse_section_header(b"", false, false), Err(Fault::Truncated(Truncated::SectionHeader)));
    // A header shorter than the shortest is cut short, whatever it starts with.
    assert_eq!(
        parse_section_header(b"x", false, false),
        Err(Fault::Truncated(Truncated::SectionHeader))
    );
    // Bytes past the window are not looked at.
    assert_eq!(
        parse_section_header(b".B 1\n...................x", false, false),
        Ok(SectionHeader { kind: SectionKind::Brushes, size: 1, len: 5 })
    );
}

#[test]
fn section_header_faults_in_order() {
    let fault = |w: &[u8]| parse_section_header(w, true, true).unwrap_err();
    assert_eq!(fault(b"xX_x\n"), Fault::Malformed(Malformed::SectionStart { found: b'x' }));
    assert_eq!(fault(b".X_x\n"), Fault::Malformed(Malformed::SectionType { found: b'X' }));
    assert_eq!(
        fault(b".B_x\n"),
        Fault::Malformed(Malformed::DuplicateSection { kind: SectionKind::Brushes })
    );
    let fault = |w: &[u8]| parse_section_header(w, false, false).unwrap_err();
    assert_eq!(fault(b".B_x\n"), Fault::Malformed(Malformed::SectionSpace { found: b'_' }));
    assert_eq!(fault(b".B x\n"), Fault::Malformed(Malformed::SectionDigit { found: b'x' }));
    assert_eq!(fault(b".B 1 \n"), Fault::Malformed(Malformed::SectionDigit { found: b' ' }));
    assert_eq!(fault(b".B \n\n"), Fault::Malformed(Malformed::SectionLengthMissing));
    assert_eq!(fault(b".B 2147483648\n"), Fault::Malformed(Malformed::SectionTooLarge));
    assert_eq!(fault(b".B 99999999999999999999\n"), Fault::Malformed(Malformed::SectionTooLarge));
    assert_eq!(fault(b".B 99999999999999999999x"), Fault::Malformed(Malformed::SectionDigit { found: b'x' }));
}

#[test]
fn the_body_is_cut_out_of_the_bytes_at_hand() {
    let ctx = ParseErrorContext::with_lines(3);
    let cut = |size: usize, leftover: &[u8], fresh: &[u8]| {
        read_section_and_alloc_with_leftovers(&ctx, size, leftover, fresh).unwrap()
    };
    assert_eq!(cut(5, b"ab", b"cde"), (b"abcde".to_vec(), b"".to_vec()));
    assert_eq!(cut(5, b"", b"abcde"), (b"abcde".to_vec(), b"".to_vec()));
    assert_eq!(cut(5, b"abcde", b""), (b"abcde".to_vec(), b"".to_vec()));
    assert_eq!(cut(2, b"abcde", b""), (b"ab".to_vec(), b"cde".to_vec()));
    assert_eq!(cut(0, b"abcde", b""), (b"".to_vec(), b"abcde".to_vec()));
    assert_eq!(cut(0, b"", b""), (b"".to_vec(), b"".to_vec()));
    assert_eq!(cut(3, b"a\n", b"\ncd"), (b"a\n\n".to_vec(), b"cd".to_vec()));
    assert_eq!(cut(1, b"ab", b"cd"), (b"a".to_vec(), b"bcd".to_vec()));
}

#[test]
fn no_byte_is_lost_or_doubled() {
    let ctx = ParseErrorContext::with_lines(3);
    let leftover = b"0123456";
    let fresh = b"789abcdef";
    for size in 0..=16 {
        let (body, rest) =
            read_section_and_alloc_with_leftovers(&ctx, size, leftover, fresh).unwrap();
        assert_eq!(body.len(), size);
        let mut all = body;
        all.extend_from_slice(&rest);
        assert_eq!(all, b"0123456789abcdef".to_vec());
    }
}

#[test]
fn a_body_longer_than_the_bytes_at_hand_is_an_early_end() {
    let ctx = ParseErrorContext::with_lines(9);
    let err = read_section_and_alloc_with_leftovers(&ctx, 6, b"ab", b"cde").unwrap_err();
    assert!(matches!(err, ParseError::UnexpectedEOF(9, Truncated::SectionBody)), "{err:?}");
    let err = read_section_and_alloc_with_leftovers(&ctx, 1, b"", b"").unwrap_err();
    assert!(matches!(err, ParseError::UnexpectedEOF(9, Truncated::SectionBody)), "{err:?}");
}

#[test]
fn an_empty_entities_section_holds_no_entities() {
    let ctx = ParseErrorContext::with_lines(4);
    let (entities, leftover) = parse_entities_save_leftovers(&ctx, 0, b".B 0\n").unwrap();
    assert!(entities.is_empty());
    assert_eq!(leftover, b".B 0\n".to_vec());
    let err = parse_entities_save_leftovers(&ctx, 1, b"x.B 0\n").unwrap_err();
    assert!(matches!(err, ParseError::BadInput(4, Malformed::EntitiesUnsupported)), "{err:?}");
}
