use be_engine::map::brushes::{parse_brush_data, parse_brushes_save_leftovers};
use be_engine::map::data::BrushData;
use be_engine::map::error::{Malformed, ParseError, ParseErrorContext, Truncated};

fn section(body: &str) -> Result<(Vec<BrushData>, usize), ParseError> {
    let mut ctx = ParseErrorContext::with_lines(3);
    let (brushes, leftover) =
        parse_brushes_save_leftovers(&mut ctx, body.len(), &[], body.as_bytes())?;
    assert!(leftover.is_empty());
    Ok((brushes, ctx.line_count))
}

fn texts(brushes: &[BrushData]) -> Vec<Vec<Vec<[String; 3]>>> {
    let text = |n: &be_engine::vertex::Number| String::from_utf8(n.as_bytes().clone()).unwrap();
    let mut out = Vec::new();
    for brush in brushes {
        let mut planes = Vec::new();
        for plane in &brush.planes {
            let mut verts = Vec::new();
            for v in plane.verts() {
                verts.push([text(&v.x), text(&v.y), text(&v.z)]);
            }
            planes.push(verts);
        }
        out.push(planes);
    }
    out
}

const TRIANGLE: &str = "b\n+0.0 +0.0 +0.0\n+1.0 +0.0 +0.0\n+0.0 +1.0 +0.0\n\n";

#[test]
fn empty_section_holds_no_brushes() {
    let (brushes, line) = section("").unwrap();
    assert!(brushes.is_empty());
    assert_eq!(line, 3);
}

#[test]
fn blank_lines_and_comments_hold_no_brushes() {
    let (brushes, line) = section("\n// nothing here\n\n//\n").unwrap();
    assert!(brushes.is_empty());
    assert_eq!(line, 7);
}

#[test]
fn numerals_are_kept_as_written() {
    let (brushes, line) = section("b\n+0.50 -12 +007.125\n-0 +0 -0.0\n+1 +2 +3\n\n").unwrap();
    assert_eq!(
        texts(&brushes),
        vec![vec![vec![
            ["+0.50".to_string(), "-12".to_string(), "+007.125".to_string()],
            ["-0".to_string(), "+0".to_string(), "-0.0".to_string()],
            ["+1".to_string(), "+2".to_string(), "+3".to_string()],
        ]]]
    );
    assert_eq!(line, 8);
    let first = &brushes[0].planes[0].verts()[0];
    assert!(!first.x.is_negative());
    assert!(first.y.is_negative());
    assert_eq!(std::str::from_utf8(first.z.as_bytes()).unwrap().parse::<f32>().unwrap(), 7.125);
}

#[test]
fn a_blank_line_ends_a_plane_and_a_sign_starts_the_next() {
    let body = "b\n+1 +1 +1\n+2 +2 +2\n+3 +3 +3\n\n+4 +4 +4\n+5 +5 +5\n+6 +6 +6\n+7 +7 +7\n\n";
    let (brushes, _) = section(body).unwrap();
    assert_eq!(brushes.len(), 1);
    assert_eq!(brushes[0].planes.len(), 2);
    assert!(brushes[0].planes[0].is_triangle());
    assert!(!brushes[0].planes[1].is_triangle());
    assert_eq!(brushes[0].planes[1].len(), 4);
}

#[test]
fn a_brush_ends_before_the_line_that_starts_no_vertex() {
    let body = format!("{TRIANGLE}\n\n{TRIANGLE}// between\n{TRIANGLE}");
    let (brushes, _) = section(&body).unwrap();
    assert_eq!(brushes.len(), 3);
    for brush in &brushes {
        assert_eq!(brush.planes.len(), 1);
    }
}

#[test]
fn comment_lines_change_nothing_but_line_counts() {
    let plain = format!("\n{TRIANGLE}+1 +1 +1\n+2 +2 +2\n+3 +3 +3\n\n\n{TRIANGLE}");
    let (expected, end_line) = section(&plain).unwrap();
    let comment = "// a comment, with // more slashes and a + sign\n";
    let mut starts = vec![0];
    for (i, b) in plain.bytes().enumerate() {
        if b == b'\n' {
            starts.push(i + 1);
        }
    }
    assert_eq!(starts.len(), 17);
    for p in starts {
        let mut with = plain.clone();
        with.insert_str(p, comment);
        let (brushes, line) = section(&with).unwrap();
        assert_eq!(brushes, expected, "comment put in at {p}");
        assert_eq!(line, end_line + 1);
    }
}

#[test]
fn a_comment_may_stand_before_any_vertex_line() {
    let body = "b\n// first\n+1 +1 +1\n// second\n// third\n+2 +2 +2\n+3 +3 +3\n//\n\n";
    let (brushes, line) = section(body).unwrap();
    assert_eq!(texts(&brushes), texts(&section("b\n+1 +1 +1\n+2 +2 +2\n+3 +3 +3\n\n").unwrap().0));
    assert_eq!(line, 12);
}

#[test]
fn a_comment_that_the_section_cuts_short_is_an_early_end() {
    let err = section("\n// no newline").unwrap_err();
    assert!(
        matches!(err, ParseError::UnexpectedEOF(4, Truncated::Until { byte: b'\n' })),
        "{err:?}"
    );
    let err = section("b\n+1 +1 +1\n// no newline").unwrap_err();
    assert!(
        matches!(err, ParseError::UnexpectedEOF(5, Truncated::Until { byte: b'\n' })),
        "{err:?}"
    );
}

#[test]
fn a_line_that_starts_no_brush_is_malformed() {
    let err = section("\nx\n").unwrap_err();
    assert!(matches!(err, ParseError::BadInput(4, Malformed::BrushStart { found: b'x' })), "{err:?}");
    let err = section("p\n+1 +1 +1\n").unwrap_err();
    assert!(matches!(err, ParseError::BadInput(3, Malformed::BrushStart { found: b'p' })), "{err:?}");
    let err = section("/ not a comment\n").unwrap_err();
    assert!(matches!(err, ParseError::BadInput(3, Malformed::BrushStart { found: b'/' })), "{err:?}");
    let err = section("+1 +1 +1\n").unwrap_err();
    assert!(matches!(err, ParseError::BadInput(3, Malformed::BrushStart { found: b'+' })), "{err:?}");
}

#[test]
fn the_brush_starter_stands_alone_on_its_line() {
    let err = section("b +1 +1 +1\n").unwrap_err();
    assert!(matches!(err, ParseError::BadInput(3, Malformed::BrushNewline { found: b' ' })), "{err:?}");
    let err = section("b").unwrap_err();
    assert!(matches!(err, ParseError::UnexpectedEOF(3, Truncated::BrushStart)), "{err:?}");
}

#[test]
fn a_brush_has_a_plane() {
    let err = section("b\n").unwrap_err();
    assert!(matches!(err, ParseError::UnexpectedEOF(4, Truncated::Brush)), "{err:?}");
    let err = section("b\n\n").unwrap_err();
    assert!(matches!(err, ParseError::BadInput(4, Malformed::Sign { found: b'\n' })), "{err:?}");
    let err = section("b\nb\n").unwrap_err();
    assert!(matches!(err, ParseError::BadInput(4, Malformed::Sign { found: b'b' })), "{err:?}");
}

#[test]
fn a_plane_has_three_vertices() {
    let err = section("b\n+1 +1 +1\n\n").unwrap_err();
    assert!(matches!(err, ParseError::BadInput(5, Malformed::TooFewVertices { count: 1 })), "{err:?}");
    let err = section("b\n+1 +1 +1\n+2 +2 +2\n\n").unwrap_err();
    assert!(matches!(err, ParseError::BadInput(6, Malformed::TooFewVertices { count: 2 })), "{err:?}");
    let err = section(&format!("{TRIANGLE}+1 +1 +1\n+2 +2 +2\n\n")).unwrap_err();
    assert!(matches!(err, ParseError::BadInput(10, Malformed::TooFewVertices { count: 2 })), "{err:?}");
}

#[test]
fn a_plane_is_closed_by_a_blank_line() {
    let err = section("b\n+1 +1 +1\n+2 +2 +2\n+3 +3 +3\n").unwrap_err();
    assert!(matches!(err, ParseError::UnexpectedEOF(7, Truncated::Plane)), "{err:?}");
    let err = section("b\n+1 +1 +1\n+2 +2 +2\n+3 +3 +3\nb\n").unwrap_err();
    assert!(matches!(err, ParseError::BadInput(7, Malformed::Sign { found: b'b' })), "{err:?}");
}

#[test]
fn a_letter_in_a_numeral_is_malformed() {
    let err = section("b\n+1a.5 +0 +0\n").unwrap_err();
    assert!(matches!(err, ParseError::BadInput(4, Malformed::Numeral { found: b'a' })), "{err:?}");
    let err = section("b\n+1 +1 +1\n+0 +0 +0.5e3\n").unwrap_err();
    assert!(matches!(err, ParseError::BadInput(5, Malformed::Numeral { found: b'e' })), "{err:?}");
}

#[test]
fn a_field_without_a_sign_is_malformed() {
    let err = section("b\n1.5 +0 +0\n").unwrap_err();
    assert!(matches!(err, ParseError::BadInput(4, Malformed::Sign { found: b'1' })), "{err:?}");
    let err = section("b\n+1.5 0 +0\n").unwrap_err();
    assert!(matches!(err, ParseError::BadInput(4, Malformed::Sign { found: b'0' })), "{err:?}");
    let err = section("b\n+1.5 +0  +0\n").unwrap_err();
    assert!(matches!(err, ParseError::BadInput(4, Malformed::Sign { found: b' ' })), "{err:?}");
}

#[test]
fn malformed_numerals() {
    let bad = |line: &str| section(&format!("b\n{line}")).unwrap_err();
    let err = bad("+ +0 +0\n");
    assert!(matches!(err, ParseError::BadInput(4, Malformed::Numeral { found: b' ' })), "{err:?}");
    let err = bad("+.5 +0 +0\n");
    assert!(matches!(err, ParseError::BadInput(4, Malformed::Numeral { found: b'.' })), "{err:?}");
    let err = bad("+1. +0 +0\n");
    assert!(matches!(err, ParseError::BadInput(4, Malformed::Numeral { found: b' ' })), "{err:?}");
    let err = bad("+1.2.3 +0 +0\n");
    assert!(matches!(err, ParseError::BadInput(4, Malformed::Numeral { found: b'.' })), "{err:?}");
    let err = bad("+-1 +0 +0\n");
    assert!(matches!(err, ParseError::BadInput(4, Malformed::Numeral { found: b'-' })), "{err:?}");
    let err = bad("+1 +0 +\n");
    assert!(matches!(err, ParseError::BadInput(4, Malformed::Numeral { found: b'\n' })), "{err:?}");
}

#[test]
fn a_vertex_has_exactly_three_fields() {
    let bad = |line: &str| section(&format!("b\n{line}")).unwrap_err();
    let err = bad("+1 +2\n");
    assert!(matches!(err, ParseError::BadInput(4, Malformed::Separator { found: b'\n' })), "{err:?}");
    let err = bad("+1\n");
    assert!(matches!(err, ParseError::BadInput(4, Malformed::Separator { found: b'\n' })), "{err:?}");
    let err = bad("+1 +2 +3 +4\n");
    assert!(matches!(err, ParseError::BadInput(4, Malformed::Separator { found: b' ' })), "{err:?}");
    let err = bad("+1 +2 +3 \n");
    assert!(matches!(err, ParseError::BadInput(4, Malformed::Separator { found: b' ' })), "{err:?}");
    let err = bad("+1 +2 +3// no comment here\n");
    assert!(matches!(err, ParseError::BadInput(4, Malformed::Numeral { found: b'/' })), "{err:?}");
}

#[test]
fn a_vertex_that_the_section_cuts_short_is_an_early_end() {
    for cut in ["+", "+1", "+1.", "+1.5", "+1.5 ", "+1.5 +2 ", "+1.5 +2 +3"] {
        let err = section(&format!("b\n+0 +0 +0\n{cut}")).unwrap_err();
        assert!(matches!(err, ParseError::UnexpectedEOF(5, Truncated::Vertex)), "{cut}: {err:?}");
    }
}

#[test]
fn one_brush_record_is_read_off_the_front() {
    let buf = format!("// c\n+1 +1 +1\n+2 +2 +2\n+3 +3 +3\n\n\nb\nrest");
    let mut ctx = ParseErrorContext::with_lines(10);
    let (brush, used) = parse_brush_data(buf.as_bytes(), &mut ctx, true).unwrap();
    assert_eq!(brush.planes.len(), 1);
    assert_eq!(&buf[used..], "\nb\nrest");
    assert_eq!(ctx.line_count, 15);
}

#[test]
fn bytes_read_ahead_come_first_and_bytes_past_the_body_are_handed_on() {
    let body = TRIANGLE.as_bytes();
    let mut ctx = ParseErrorContext::with_lines(3);
    let (brushes, leftover) =
        parse_brushes_save_leftovers(&mut ctx, body.len(), &body[..10], &body[10..]).unwrap();
    assert_eq!(brushes.len(), 1);
    assert!(leftover.is_empty());
    assert_eq!(ctx.line_count, 8);

    let mut ahead = body.to_vec();
    ahead.extend_from_slice(b".E 0\n");
    let mut ctx = ParseErrorContext::with_lines(3);
    let (again, leftover) =
        parse_brushes_save_leftovers(&mut ctx, body.len(), &ahead, &[]).unwrap();
    assert_eq!(again, brushes);
    assert_eq!(leftover, b".E 0\n".to_vec());

    let mut ctx = ParseErrorContext::with_lines(3);
    let (none, leftover) = parse_brushes_save_leftovers(&mut ctx, 0, b".E 0\n", &[]).unwrap();
    assert!(none.is_empty());
    assert_eq!(leftover, b".E 0\n".to_vec());
    assert_eq!(ctx.line_count, 3);

    let mut ctx = ParseErrorContext::with_lines(3);
    let err = parse_brushes_save_leftovers(&mut ctx, body.len() + 1, &body[..10], &body[10..])
        .unwrap_err();
    assert!(matches!(err, ParseError::UnexpectedEOF(3, Truncated::SectionBody)), "{err:?}");
}

#[test]
fn brushes_written_out_plainly_parse_back() {
    let v = |x: &str, y: &str, z: &str| [x.to_string(), y.to_string(), z.to_string()];
    let brushes = vec![
        vec![
            vec![v("+0", "+0", "+0"), v("+1", "+0", "+0"), v("+0", "+1", "+0")],
            vec![
                v("-0.5", "+0.25", "-10"),
                v("+1.0", "-0.0", "+7"),
                v("+0", "+1", "+0"),
                v("-3.125", "-4", "+5.5"),
            ],
        ],
        vec![vec![
            v("+1", "+2", "+3"),
            v("+4", "+5", "+6"),
            v("+7", "+8", "+9"),
            v("-1", "-2", "-3"),
            v("-4", "-5", "-6"),
        ]],
    ];
    let mut text = String::new();
    let mut lines = 0;
    for brush in &brushes {
        text.push_str("b\n");
        lines += 1;
        for plane in brush {
            for vertex in plane {
                text.push_str(&vertex.join(" "));
                text.push('\n');
                lines += 1;
            }
            text.push('\n');
            lines += 1;
        }
    }
    let (parsed, end_line) = section(&text).unwrap();
    assert_eq!(texts(&parsed), brushes);
    assert_eq!(end_line, 3 + lines);
    assert_eq!(lines, 17);
}
