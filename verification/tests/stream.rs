use std::io::Read;

use be_engine::map::data::MapData;
use be_engine::map::error::{Malformed, ParseError, Truncated};
use be_engine::map::parser::{parse_map, parse_map_chunks, MapParser};

/// A stream that hands out its bytes in reads of the given lengths, over
/// and over, and then ends.
struct Slow<'a> {
    bytes: &'a [u8],
    lens: Vec<usize>,
    reads: usize,
}

impl Read for Slow<'_> {
    fn read(&mut self, buf: &mut [u8]) -> std::io::Result<usize> {
        let len = self.lens[self.reads % self.lens.len()];
        self.reads += 1;
        let n = len.min(buf.len()).min(self.bytes.len());
        buf[..n].copy_from_slice(&self.bytes[..n]);
        self.bytes = &self.bytes[n..];
        Ok(n)
    }
}

/// Reads a map from a stream the way a program does: ask the parser how
/// much it wants, read, feed.
fn read_map(mut input: impl Read) -> Result<MapData, ParseError> {
    let mut parser = MapParser::new();
    let mut buf = [0u8; 64];
    loop {
        let want = parser.wanted();
        if want == 0 {
            break;
        }
        let want = want.min(buf.len());
        match input.read(&mut buf[..want]) {
            Ok(0) => parser.end_of_input(),
            Ok(n) => parser.feed(&buf[..n]),
            Err(e) => parser.read_failed(e),
        }
    }
    assert!(parser.is_done());
    parser.finish()
}

fn same(a: &Result<MapData, ParseError>, b: &Result<MapData, ParseError>) -> bool {
    match (a, b) {
        (Ok(x), Ok(y)) => x == y,
        (Err(x), Err(y)) => format!("{x:?}") == format!("{y:?}"),
        _ => false,
    }
}

fn inputs() -> Vec<Vec<u8>> {
    let tri = "b\n+0.0 +0.0 +0.0\n+1.0 +0.0 +0.0\n+0.0 +1.0 +0.0\n\n";
    let two = format!("// two brushes\n{tri}\n{tri}+1 +2 +3\n+4 +5 +6\n+7 +8 +9\n-1 -2 -3\n\n");
    let mut all = vec![
        b"1113be_map\n.B 0\n.E 0\n".to_vec(),
        b"1113be_map\n.E 0\n.B 0\n".to_vec(),
        format!("1113be_map\n.B {}\n{}.E 0\n", tri.len(), tri).into_bytes(),
        format!("1113be_map\n.E 0\n.B {}\n{}", two.len(), two).into_bytes(),
        format!("1113be_map\n.B {}\n{}.E 0\n", two.len(), two).into_bytes(),
        format!("1113be_map\n.B 1\n\n.E 0\n").into_bytes(),
        format!("1113be_map\n.B 19\n// short comment \n\n.E 0\n").into_bytes(),
    ];
    // Inputs that fail, each in another place.
    all.push(b"1113be_map\n.B 0\n.E 0\nmore".to_vec());
    all.push(b"1113be_map\n.B 0\n.B 0\n".to_vec());
    all.push(b"1113be_map\n.B 0\n.E 3\nabc".to_vec());
    all.push(b"1113be_map\n.B 0\n".to_vec());
    all.push(b"1113be_map\n.B 40\nb\n+0.0".to_vec());
    all.push(b"1113be_mop\n.B 0\n.E 0\n".to_vec());
    all.push(b"1113be_".to_vec());
    all.push(b"".to_vec());
    all.push(format!("1113be_map\n.B {}\n{}.E 0\n", tri.len() - 3, tri).into_bytes());
    all.push(format!("1113be_map\n.B {}\n{}.E 0\n", tri.len() + 3, tri).into_bytes());
    all.push(format!("1113be_map\n.B {}\n{}.E 0\n", two.len(), two.replace("+4", "+4x")).into_bytes());
    all
}

#[test]
fn a_stream_read_whole_parses_like_a_buffer() {
    for input in inputs() {
        let expected = parse_map(&input);
        let got = read_map(&input[..]);
        assert!(same(&got, &expected), "{got:?} != {expected:?}");
    }
}

#[test]
fn reads_of_any_one_length_parse_alike() {
    for input in inputs() {
        let expected = parse_map(&input);
        for len in 1..=40 {
            let got = read_map(Slow { bytes: &input, lens: vec![len], reads: 0 });
            assert!(same(&got, &expected), "reads of {len}: {got:?} != {expected:?}");
        }
    }
}

#[test]
fn reads_of_mixed_lengths_parse_alike() {
    let patterns: Vec<Vec<usize>> = vec![
        vec![1, 2, 3],
        vec![5, 1],
        vec![24, 1, 1],
        vec![3, 11, 2, 7],
        vec![10, 6],
        vec![11, 5, 48],
        vec![13, 64],
    ];
    for input in inputs() {
        let expected = parse_map(&input);
        for lens in &patterns {
            let got = read_map(Slow { bytes: &input, lens: lens.clone(), reads: 0 });
            assert!(same(&got, &expected), "reads of {lens:?}: {got:?} != {expected:?}");
        }
    }
}

#[test]
fn pieces_cut_anywhere_parse_like_the_whole() {
    for input in inputs() {
        let expected = parse_map(&input);
        for a in 0..=input.len() {
            let (head, tail) = input.split_at(a);
            let got = parse_map_chunks(&[head, tail]);
            assert!(same(&got, &expected), "cut at {a}: {got:?} != {expected:?}");
            let b = a + (input.len() - a) / 2;
            let got = parse_map_chunks(&[&input[..a], &[], &input[a..b], &input[b..]]);
            assert!(same(&got, &expected), "cut at {a} and {b}: {got:?} != {expected:?}");
        }
        let bytes: Vec<&[u8]> = input.chunks(1).collect();
        let got = parse_map_chunks(&bytes);
        assert!(same(&got, &expected), "byte by byte: {got:?} != {expected:?}");
        let got = parse_map_chunks(&[]);
        assert!(matches!(got, Err(ParseError::UnexpectedEOF(1, Truncated::MagicHeader))));
    }
}

#[test]
fn the_parser_asks_for_what_it_can_use() {
    let mut parser = MapParser::new();
    assert!(!parser.is_done());
    assert_eq!(parser.wanted(), 11);
    parser.feed(b"1113");
    assert_eq!(parser.wanted(), 7);
    parser.feed(b"");
    assert_eq!(parser.wanted(), 7);
    parser.feed(b"be_map\n");
    // A section header: its window is filled.
    assert_eq!(parser.wanted(), 24);
    parser.feed(b".B 48\nb\n+0.0 +0.0");
    assert_eq!(parser.wanted(), 7);
    parser.feed(b" +0.0\n+");
    // The body: 48 bytes, 18 of which were read ahead with the header.
    assert_eq!(parser.wanted(), 30);
    parser.feed(b"1.0 +0.0 +0.0\n+0.0 +1.0 +0.0\n");
    assert_eq!(parser.wanted(), 1);
    parser.feed(b"\n");
    assert_eq!(parser.wanted(), 24);
    parser.feed(b".E 0\n");
    assert_eq!(parser.wanted(), 19);
    assert!(!parser.is_done());
    parser.end_of_input();
    assert!(parser.is_done());
    assert_eq!(parser.wanted(), 0);
    let map = parser.finish().unwrap();
    assert_eq!(map.brushes().len(), 1);
}

#[test]
fn the_parser_waits_for_the_end_of_the_input() {
    let mut parser = MapParser::new();
    parser.feed(b"1113be_map\n");
    parser.feed(b".B 0\n.E 0\n12345678901234");
    // The second header is held whole, but its window is not full yet.
    assert_eq!(parser.wanted(), 5);
    parser.feed(b"56789");
    // Now it is, and what follows the header is trailing data.
    assert!(parser.is_done());
    let err = parser.finish().unwrap_err();
    assert!(matches!(err, ParseError::BadInput(4, Malformed::TrailingData { found: b'1' })), "{err:?}");

    let mut parser = MapParser::new();
    let body = "//34567890123456789\n";
    assert_eq!(body.len(), 20);
    let input = format!("1113be_map\n.E 0\n.B 20\n{body}");
    let mut rest = input.as_bytes();
    while !rest.is_empty() {
        let n = parser.wanted().min(rest.len());
        assert!(n > 0);
        parser.feed(&rest[..n]);
        rest = &rest[n..];
    }
    // Both sections are read: one more byte is asked for, to see the end.
    assert!(!parser.is_done());
    assert_eq!(parser.wanted(), 1);
    parser.feed(b"!");
    assert!(parser.is_done());
    let err = parser.finish().unwrap_err();
    assert!(matches!(err, ParseError::BadInput(5, Malformed::TrailingData { found: b'!' })), "{err:?}");
}

#[test]
fn a_failed_read_ends_the_parse() {
    let mut parser = MapParser::new();
    parser.feed(b"1113be_map\n.B");
    parser.read_failed(std::io::Error::new(std::io::ErrorKind::Other, "unplugged"));
    assert!(parser.is_done());
    assert_eq!(parser.wanted(), 0);
    match parser.finish() {
        Err(ParseError::ReadError(e)) => assert_eq!(e.to_string(), "unplugged"),
        other => panic!("{other:?}"),
    }
}

#[test]
fn a_failed_read_after_the_outcome_changes_nothing() {
    let mut parser = MapParser::new();
    parser.feed(b"1113be_mop\n");
    assert!(parser.is_done());
    parser.read_failed(std::io::Error::new(std::io::ErrorKind::Other, "late"));
    parser.end_of_input();
    assert!(matches!(parser.finish(), Err(ParseError::BadHeader(_))));
}
