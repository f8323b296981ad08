use be_engine::map::error::{
    Fault, Malformed, ParseError, ParseErrorContext, SectionKind, Truncated,
};
use be_engine::map::lines::{find_line_end, is_comment, read_until_after_byte, read_until_after_newline};

#[test]
fn a_comment_starts_with_two_slashes() {
    let buf = b"a//b/ /";
    assert!(!is_comment(buf, 0));
    assert!(is_comment(buf, 1));
    assert!(!is_comment(buf, 2));
    assert!(!is_comment(buf, 4));
    assert!(!is_comment(buf, 6));
    assert!(!is_comment(buf, 7));
    assert!(!is_comment(buf, 8));
    assert!(!is_comment(buf, usize::MAX));
    assert!(!is_comment(b"", 0));
    assert!(!is_comment(b"/", 0));
    assert!(is_comment(b"//", 0));
}

#[test]
fn a_line_ends_at_its_newline_or_with_the_input() {
    let buf = b"ab\n\ncd";
    assert_eq!(find_line_end(buf, 0), 2);
    assert_eq!(find_line_end(buf, 1), 2);
    assert_eq!(find_line_end(buf, 2), 2);
    assert_eq!(find_line_end(buf, 3), 3);
    assert_eq!(find_line_end(buf, 4), 6);
    assert_eq!(find_line_end(buf, 6), 6);
    assert_eq!(find_line_end(b"", 0), 0);
}

#[test]
fn reading_past_the_newline_counts_one_line() {
    let buf = b"// comment\nnext";
    let mut ctx = ParseErrorContext::with_lines(7);
    let mut ptr = 0;
    read_until_after_newline(buf, &mut ctx, &mut ptr).unwrap();
    assert_eq!(ptr, 11);
    assert_eq!(ctx.line_count, 8);
    let err = read_until_after_newline(buf, &mut ctx, &mut ptr).unwrap_err();
    assert!(matches!(err, ParseError::UnexpectedEOF(8, Truncated::Until { byte: b'\n' })), "{err:?}");
    assert_eq!(ptr, 11);
    assert_eq!(ctx.line_count, 8);
}

#[test]
fn reading_past_a_byte_counts_the_newlines_on_the_way() {
    let buf = b"one\ntwo\nthree;four";
    let mut ctx = ParseErrorContext::with_lines(1);
    let mut ptr = 1;
    read_until_after_byte(buf, &mut ctx, &mut ptr, b';').unwrap();
    assert_eq!(ptr, 14);
    assert_eq!(ctx.line_count, 3);
    let err = read_until_after_byte(buf, &mut ctx, &mut ptr, b';').unwrap_err();
    assert!(matches!(err, ParseError::UnexpectedEOF(3, Truncated::Until { byte: b';' })), "{err:?}");
    assert_eq!(ptr, 14);
}

#[test]
fn reading_past_a_byte_skips_comments() {
    let buf = b"a // e in a comment\n// another e\nthe end";
    let mut ctx = ParseErrorContext::with_lines(1);
    let mut ptr = 0;
    read_until_after_byte(buf, &mut ctx, &mut ptr, b'e').unwrap();
    assert_eq!(&buf[ptr..], b" end");
    assert_eq!(ctx.line_count, 3);

    // A comment that the input cuts short hides the byte, too.
    let buf = b"x\n// e";
    let mut ctx = ParseErrorContext::with_lines(1);
    let mut ptr = 0;
    let err = read_until_after_byte(buf, &mut ctx, &mut ptr, b'e').unwrap_err();
    assert!(matches!(err, ParseError::UnexpectedEOF(2, Truncated::Until { byte: b'e' })), "{err:?}");
    assert_eq!(ptr, 0);
}

#[test]
fn the_error_context_stamps_errors_with_its_line() {
    let ctx = ParseErrorContext::with_lines(12);
    assert_eq!(ctx.line_count, 12);
    assert!(matches!(
        ctx.bad_input(Malformed::SectionTooLarge),
        ParseError::BadInput(12, Malformed::SectionTooLarge)
    ));
    assert!(matches!(
        ctx.unexpected_eof(Truncated::Plane),
        ParseError::UnexpectedEOF(12, Truncated::Plane)
    ));
    assert!(matches!(
        ctx.fault(Fault::Malformed(Malformed::Sign { found: b'x' })),
        ParseError::BadInput(12, Malformed::Sign { found: b'x' })
    ));
    assert!(matches!(
        ctx.fault(Fault::Truncated(Truncated::Vertex)),
        ParseError::UnexpectedEOF(12, Truncated::Vertex)
    ));
    match ctx.io_err(std::io::Error::new(std::io::ErrorKind::NotFound, "gone")) {
        ParseError::ReadError(e) => assert_eq!(e.kind(), std::io::ErrorKind::NotFound),
        other => panic!("{other:?}"),
    }
}

#[test]
fn faults_say_what_is_wrong() {
    assert_eq!(Malformed::Sign { found: b'x' }.found(), Some(b'x'));
    assert_eq!(Malformed::TrailingData { found: b'\n' }.found(), Some(b'\n'));
    assert_eq!(Malformed::TooFewVertices { count: 2 }.found(), None);
    assert_eq!(Malformed::SectionTooLarge.found(), None);
    assert_eq!(
        Malformed::DuplicateSection { kind: SectionKind::Brushes }.describe(),
        "brushes section declared multiple times"
    );
    assert_eq!(
        Malformed::DuplicateSection { kind: SectionKind::Entities }.describe(),
        "entities section declared multiple times"
    );
    assert_eq!(
        Malformed::TooFewVertices { count: 2 }.describe(),
        "vertices count too small! expected 3 or more"
    );
    assert_eq!(Truncated::MagicHeader.describe(), "the magic header");
    assert_eq!(Truncated::Until { byte: b'\n' }.describe(), "a line, up to its newline");
    let all = [
        Malformed::SectionStart { found: 0 },
        Malformed::SectionType { found: 0 },
        Malformed::DuplicateSection { kind: SectionKind::Brushes },
        Malformed::DuplicateSection { kind: SectionKind::Entities },
        Malformed::SectionSpace { found: 0 },
        Malformed::SectionDigit { found: 0 },
        Malformed::SectionLengthMissing,
        Malformed::SectionTooLarge,
        Malformed::TrailingData { found: 0 },
        Malformed::EntitiesUnsupported,
        Malformed::BrushStart { found: 0 },
        Malformed::BrushNewline { found: 0 },
        Malformed::Sign { found: 0 },
        Malformed::Numeral { found: 0 },
        Malformed::Separator { found: 0 },
        Malformed::TooFewVertices { count: 0 },
    ];
    for (i, a) in all.iter().enumerate() {
        assert!(!a.describe().is_empty());
        for b in &all[..i] {
            assert_ne!(a.describe(), b.describe());
        }
    }
}
