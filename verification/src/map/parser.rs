//! Exports [`parse_map`].
//!
//! A map file is the magic header and two sections, one of brushes and
//! one of entities, in either order. Nothing may follow the second
//! section.
//!
//! [`MapParser`] reads a map from a stream without touching the stream:
//! it says how many bytes it wants next, and is fed what a read gave. It
//! asks for no more than it can use, except while it looks for the end of
//! a section header, whose length it cannot know: there it fills a window
//! of [`MAX_SECTION_HEADER_LEN`] bytes, and what it read ahead is carried
//! into the section and on into the next header. However the stream cuts
//! the bytes into reads, the outcome is that of the whole input.
//!
//! Line numbers start at one, on the magic header, and count every
//! newline of the input before the place of an error, the newlines of
//! comments included.

use vstd::prelude::*;
use crate::map::brushes::{
    lemma_brush_section_prefix,
    parse_brushes_save_leftovers,
    spec_brush_section,
};
use crate::map::data::{brushes_view, BrushData, EntityData, MapData, MapView};
use crate::map::error::{
    Failure,
    Fault,
    Malformed,
    ParseError,
    ParseErrorContext,
    SectionKind,
};
use crate::map::header::{
    check_header_valid,
    header_window,
    parse_section_header,
    spec_check_header,
    spec_section_header,
    SectionHeader,
    FILE_HEADER_LEN,
    MIN_SECTION_HEADER_LEN,
    MAX_SECTION_HEADER_LEN,
    MAX_SECTION_LEN,
};
use crate::map::laws::lemma_parsed_map_well_formed;
use crate::map::section::{append_range, parse_entities_save_leftovers};
use crate::vertex::VertexView;

verus! {

/// The number of sections that are not read yet.
pub open spec fn missing_sections(
    brushes: Option<Seq<Seq<Seq<VertexView>>>>,
    entities: Option<Seq<EntityData>>,
) -> nat {
    (if brushes is None {
        1nat
    } else {
        0nat
    }) + (if entities is None {
        1nat
    } else {
        0nat
    })
}

/// Reads the sections of a map from `rest`, which starts on line `line`,
/// with the sections already read given.
///
/// While a section is missing, `rest` starts with a section header. Once
/// both are read, `rest` has to be empty.
#[verifier::opaque]
pub open spec fn spec_sections(
    rest: Seq<u8>,
    line: nat,
    brushes: Option<Seq<Seq<Seq<VertexView>>>>,
    entities: Option<Seq<EntityData>>,
) -> Result<MapView, Failure>
    decreases missing_sections(brushes, entities), 0nat,
{
    if brushes is Some && entities is Some {
        if rest.len() > 0 {
            Err(Failure::BadInput(line, Malformed::TrailingData { found: rest[0] }))
        } else {
            Ok(MapView { brushes: brushes->0, entities: entities->0 })
        }
    } else {
        match spec_section_header(header_window(rest), brushes is Some, entities is Some) {
            Err(fault) => Err(fault.on_line(line)),
            Ok(header) => {
                let body = rest.skip(header.len as int);
                match header.kind {
                    SectionKind::Entities => if header.size != 0 {
                        Err(Failure::BadInput(line + 1, Malformed::EntitiesUnsupported))
                    } else {
                        spec_sections(body, line + 1, brushes, Some(Seq::empty()))
                    },
                    SectionKind::Brushes => spec_after_brushes(
                        spec_brush_section(body, header.size as nat, line + 1),
                        entities,
                    ),
                }
            },
        }
    }
}

/// Goes on after the brushes section: with its failure, or with the
/// sections that follow it.
#[verifier::opaque]
pub open spec fn spec_after_brushes(
    section: Result<(Seq<Seq<Seq<VertexView>>>, Seq<u8>, nat), Failure>,
    entities: Option<Seq<EntityData>>,
) -> Result<MapView, Failure>
    decreases
        (if entities is None {
            1nat
        } else {
            0nat
        }),
        1nat,
{
    match section {
        Err(failure) => Err(failure),
        Ok((brushes, rest, line)) => spec_sections(rest, line, Some(brushes), entities),
    }
}

/// The map that the input `s` holds, or the failure that reading it ends in.
#[verifier::opaque]
pub open spec fn spec_parse_map(s: Seq<u8>) -> Result<MapView, Failure> {
    match spec_check_header(s) {
        Err(failure) => Err(failure),
        Ok(_) => spec_sections(s.skip(FILE_HEADER_LEN as int), 2, None, None),
    }
}

/// The outcome of a parse as a mathematical value.
pub open spec fn outcome_view(r: Result<MapData, ParseError>) -> Result<MapView, Failure> {
    match r {
        Ok(map) => Ok(map@),
        Err(e) => Err(e@),
    }
}

/// Whether the bytes `bytes` are what the input `s` holds from index `at` on.
pub open spec fn continues(s: Seq<u8>, at: nat, bytes: Seq<u8>) -> bool {
    at + bytes.len() <= s.len() && s.subrange(at as int, (at + bytes.len()) as int) == bytes
}

/// What a [`MapParser`] is reading.
#[derive(Clone, Copy, Debug, PartialEq, Eq, Structural)]
enum Phase {
    /// The magic header.
    Magic,
    /// A section header: the window in which it has to end is being filled.
    Header,
    /// The body of the brushes section.
    Body,
    /// The end of the input, which has to follow the second section.
    Trailer,
    /// Nothing more: the outcome is known.
    Done,
}

/// A map parser that is fed the input piece by piece.
pub struct MapParser {
    /// What is being read.
    phase: Phase,
    /// The line that the next byte is on.
    err_ctx: ParseErrorContext,
    /// The bytes fed for what is being read.
    pending: Vec<u8>,
    /// While a body is read: the bytes that were read ahead of it.
    leftover: Vec<u8>,
    /// While a body is read: its declared length.
    size: usize,
    /// The brushes, once their section is read.
    brushes: Option<Vec<BrushData>>,
    /// The entities, once their section is read.
    entities: Option<Vec<EntityData>>,
    /// The failure that ended the parse.
    failure: Option<ParseError>,
    /// The number of bytes fed so far.
    consumed: Ghost<nat>,
}

impl MapParser {
    spec fn line(&self) -> nat {
        self.err_ctx.line_count as nat
    }

    spec fn brushes_seen(&self) -> Option<Seq<Seq<Seq<VertexView>>>> {
        match self.brushes {
            Some(brushes) => Some(brushes_view(brushes@)),
            None => None,
        }
    }

    spec fn entities_seen(&self) -> Option<Seq<EntityData>> {
        match self.entities {
            Some(entities) => Some(entities@),
            None => None,
        }
    }

    /// The bytes that were fed and not yet made sense of.
    spec fn held(&self) -> Seq<u8> {
        self.leftover@ + self.pending@
    }

    /// The number of held bytes.
    spec fn held_len(&self) -> nat {
        self.leftover@.len() + self.pending@.len()
    }

    /// The number of bytes after which what is being read is complete.
    spec fn target(&self) -> nat {
        match self.phase {
            Phase::Magic => FILE_HEADER_LEN as nat,
            Phase::Header => MAX_SECTION_HEADER_LEN as nat,
            Phase::Body => self.size as nat,
            Phase::Trailer => 1,
            Phase::Done => 0,
        }
    }

    /// What holds of a parser between any two of its steps.
    spec fn inv(&self) -> bool {
        &&& self.held_len() <= self.consumed@
        &&& self.err_ctx.line_count <= MAX_SECTION_LEN + 8
        &&& self.phase != Phase::Done ==> self.failure is None
        &&& match self.phase {
            Phase::Magic => self.leftover@.len() == 0 && self.brushes is None && self.entities
                is None && self.consumed@ == self.pending@.len() && self.pending@.len()
                <= FILE_HEADER_LEN,
            Phase::Header => self.leftover@.len() == 0 && !(self.brushes is Some && self.entities
                is Some) && (self.brushes is None ==> self.err_ctx.line_count <= 3) && (self.brushes
                is None && self.entities is None ==> self.err_ctx.line_count <= 2)
                && self.err_ctx.line_count <= MAX_SECTION_LEN + 4 && self.pending@.len()
                <= MAX_SECTION_HEADER_LEN,
            Phase::Body => self.brushes is None && self.size <= MAX_SECTION_LEN
                && self.err_ctx.line_count <= 4 && self.leftover@.len() < MAX_SECTION_HEADER_LEN && (
            self.pending@.len() > 0 ==> self.held_len() <= self.size),
            Phase::Trailer => self.brushes is Some && self.entities is Some && self.held_len()
                == 0,
            Phase::Done => self.failure is Some || (self.brushes is Some && self.entities is Some),
        }
    }

    /// Whether the parser can be fed, asked or finished: it is between
    /// two reads, with what it is reading incomplete.
    pub closed spec fn wf(&self) -> bool {
        self.inv() && (self.phase != Phase::Done ==> self.held_len() < self.target())
    }

    /// The number of bytes that the parser was fed.
    pub closed spec fn consumed(&self) -> nat {
        self.consumed@
    }

    /// Whether the outcome is known.
    pub closed spec fn done(&self) -> bool {
        self.phase == Phase::Done
    }

    /// The number of bytes that the parser asks for next.
    pub closed spec fn wanted_spec(&self) -> nat {
        if self.target() >= self.held_len() {
            (self.target() - self.held_len()) as nat
        } else {
            0
        }
    }

    /// The outcome of the parse, once it is known.
    pub closed spec fn outcome(&self) -> Result<MapView, Failure> {
        match self.failure {
            Some(e) => Err(e@),
            None => Ok(
                MapView { brushes: self.brushes_seen()->0, entities: self.entities_seen()->0 },
            ),
        }
    }

    /// What reading `rest`, the input from the first held byte on, comes to.
    spec fn expected(&self, rest: Seq<u8>) -> Result<MapView, Failure> {
        match self.phase {
            Phase::Magic => spec_parse_map(rest),
            Phase::Header | Phase::Trailer => spec_sections(
                rest,
                self.line(),
                self.brushes_seen(),
                self.entities_seen(),
            ),
            Phase::Body => spec_after_brushes(
                spec_brush_section(rest, self.size as nat, self.line()),
                self.entities_seen(),
            ),
            Phase::Done => self.outcome(),
        }
    }

    /// Whether the parser has so far been fed the start of the input `s`,
    /// byte for byte. Its outcome is then the outcome of parsing `s`.
    #[verifier::opaque]
    pub closed spec fn tracks(&self, s: Seq<u8>) -> bool {
        let start = self.consumed@ - self.held_len();
        &&& self.consumed@ <= s.len()
        &&& self.phase != Phase::Done ==> self.held() == s.subrange(start, self.consumed@ as int)
        &&& spec_parse_map(s) == self.expected(s.skip(start))
    }

    /// A parser that has read nothing yet.
    pub fn new() -> (parser: Self)
        ensures
            parser.wf(),
            !parser.done(),
            parser.consumed() == 0,
            forall|s: Seq<u8>| #[trigger] parser.tracks(s),
    {
        proof {
            reveal(MapParser::tracks);
        }
        let parser = MapParser {
            phase: Phase::Magic,
            err_ctx: ParseErrorContext::with_lines(1),
            pending: Vec::new(),
            leftover: Vec::new(),
            size: 0,
            brushes: None,
            entities: None,
            failure: None,
            consumed: Ghost(0),
        };
        proof {
            assert forall|s: Seq<u8>| #[trigger] parser.tracks(s) by {
                assert(parser.held() =~= s.subrange(0, 0));
                assert(s.skip(0) =~= s);
            }
        }
        parser
    }

    /// Whether the outcome is known.
    pub fn is_done(&self) -> (done: bool)
        ensures
            done == self.done(),
    {
        self.phase == Phase::Done
    }

    /// The number of bytes to ask the stream for next, so as not to read
    /// ahead of what is being read: none once the outcome is known, and
    /// one or more until then.
    pub fn wanted(&self) -> (n: usize)
        requires
            self.wf(),
        ensures
            n == self.wanted_spec(),
            n == 0 <==> self.done(),
    {
        match self.phase {
            Phase::Magic => FILE_HEADER_LEN - self.pending.len(),
            Phase::Header => MAX_SECTION_HEADER_LEN - self.pending.len(),
            Phase::Body => self.size - self.leftover.len() - self.pending.len(),
            Phase::Trailer => 1,
            Phase::Done => 0,
        }
    }

    /// How far the parser is from its outcome, in steps.
    spec fn rank(&self) -> nat {
        let missing = missing_sections(self.brushes_seen(), self.entities_seen());
        match self.phase {
            Phase::Magic => 7,
            Phase::Header => 2 * missing + 2,
            Phase::Body => 2 * missing + 1,
            Phase::Trailer => 1,
            Phase::Done => 0,
        }
    }

    /// Whether the held bytes are all that the current phase gets of the
    /// input `s`: they are complete, or `s` ends with them.
    spec fn ready(&self, s: Seq<u8>) -> bool {
        self.held_len() >= self.target() || s.len() == self.consumed@
    }

    /// Ends the parse with a failure.
    fn fail(&mut self, e: ParseError)
        ensures
            *final(self) == (MapParser { phase: Phase::Done, failure: Some(e), ..*old(self) }),
    {
        self.failure = Some(e);
        self.phase = Phase::Done;
    }

    /// Checks the magic header, which is held whole unless the input ended.
    fn process_magic(&mut self)
        requires
            old(self).inv(),
            old(self).phase == Phase::Magic,
        ensures
            final(self).wf(),
            final(self).consumed@ == old(self).consumed@,
            final(self).rank() < old(self).rank(),
            forall|s: Seq<u8>| #[trigger]
                old(self).tracks(s) && old(self).ready(s) ==> final(self).tracks(s),
    {
        proof {
            reveal(MapParser::tracks);
        }
        let ghost before = *self;
        match check_header_valid(self.pending.as_slice()) {
            Ok(()) => {
                self.phase = Phase::Header;
                self.pending = Vec::new();
                self.err_ctx = ParseErrorContext::with_lines(2);
            },
            Err(e) => {
                self.fail(e);
            },
        }
        proof {
            assert forall|s: Seq<u8>| #[trigger] before.tracks(s) && before.ready(s) implies self.tracks(
                s,
            ) by {
                reveal(spec_parse_map);
                assert(s.skip(0) =~= s);
                assert(before.held() =~= before.pending@);
                if before.pending@.len() < FILE_HEADER_LEN {
                    assert(s =~= before.pending@);
                } else {
                    assert(s.take(FILE_HEADER_LEN as int) =~= before.pending@.take(
                        FILE_HEADER_LEN as int,
                    ));
                }
                if self.phase == Phase::Header {
                    assert(self.held() =~= s.subrange(
                        FILE_HEADER_LEN as int,
                        FILE_HEADER_LEN as int,
                    ));
                }
            }
        }
    }

    /// Whether, with `carry` read ahead of the next section, the parser
    /// has been fed the start of the input `s`.
    spec fn resumes(&self, carry: Seq<u8>, s: Seq<u8>) -> bool {
        let start = self.consumed@ - carry.len();
        &&& self.consumed@ <= s.len()
        &&& carry == s.subrange(start, self.consumed@ as int)
        &&& spec_parse_map(s) == spec_sections(
            s.skip(start),
            self.line(),
            self.brushes_seen(),
            self.entities_seen(),
        )
    }

    /// Goes on after a section, with `carry` read ahead of what follows it.
    #[verifier::rlimit(30)]
    fn advance(&mut self, carry: Vec<u8>)
        requires
            old(self).phase != Phase::Done,
            old(self).failure is None,
            old(self).brushes is Some || old(self).entities is Some,
            old(self).brushes is None ==> old(self).err_ctx.line_count <= 3,
            old(self).err_ctx.line_count <= MAX_SECTION_LEN + 8,
            old(self).brushes is None || old(self).entities is None ==> old(self).err_ctx.line_count
                <= MAX_SECTION_LEN + 4,
            carry@.len() <= old(self).consumed@,
            carry@.len() < MAX_SECTION_HEADER_LEN,
        ensures
            final(self).wf(),
            final(self).consumed@ == old(self).consumed@,
            final(self).brushes == old(self).brushes,
            final(self).entities == old(self).entities,
            final(self).phase == Phase::Header || final(self).rank() <= 1,
            forall|s: Seq<u8>| #[trigger]
                old(self).resumes(carry@, s) ==> final(self).tracks(s),
    {
        proof {
            reveal(MapParser::tracks);
        }
        let ghost before = *self;
        self.leftover = Vec::new();
        if self.brushes.is_some() && self.entities.is_some() {
            if carry.len() > 0 {
                self.pending = Vec::new();
                let e = self.err_ctx.bad_input(Malformed::TrailingData { found: carry[0] });
                self.fail(e);
            } else {
                self.pending = carry;
                self.phase = Phase::Trailer;
            }
        } else {
            self.pending = carry;
            self.phase = Phase::Header;
        }
        proof {
            assert forall|s: Seq<u8>| #[trigger] before.resumes(carry@, s) implies self.tracks(s) by {
                reveal(spec_sections);
                reveal(spec_after_brushes);
                let start = before.consumed@ - carry@.len();
                if self.phase == Phase::Done {
                    assert(s.skip(start)[0] == carry@[0]);
                } else {
                    assert(self.held() =~= carry@);
                }
            }
        }
    }

    /// Reads the brushes out of the held bytes, which hold the body whole
    /// unless the input ended.
    #[verifier::rlimit(30)]
    fn process_body(&mut self)
        requires
            old(self).inv(),
            old(self).phase == Phase::Body,
        ensures
            final(self).wf(),
            final(self).consumed@ == old(self).consumed@,
            final(self).rank() < old(self).rank(),
            forall|s: Seq<u8>| #[trigger]
                old(self).tracks(s) && old(self).ready(s) ==> final(self).tracks(s),
    {
        proof {
            reveal(MapParser::tracks);
        }
        let ghost before = *self;
        match parse_brushes_save_leftovers(
            &mut self.err_ctx,
            self.size,
            self.leftover.as_slice(),
            self.pending.as_slice(),
        ) {
            Ok((brushes, carry)) => {
                self.brushes = Some(brushes);
                let ghost stored = *self;
                self.advance(carry);
                proof {
                    assert forall|s: Seq<u8>| #[trigger]
                        before.tracks(s) && before.ready(s) implies self.tracks(s) by {
                        before.lemma_body_read(s);
                        reveal(spec_sections);
                        reveal(spec_after_brushes);
                        assert(stored.resumes(carry@, s));
                    }
                }
            },
            Err(e) => {
                self.fail(e);
                proof {
                    assert forall|s: Seq<u8>| #[trigger]
                        before.tracks(s) && before.ready(s) implies self.tracks(s) by {
                        before.lemma_body_read(s);
                        reveal(spec_after_brushes);
                    }
                }
            },
        }
    }

    /// Once the body of the brushes section is held, it reads as it does
    /// in the whole input, and what is held past it is what follows it there.
    #[verifier::rlimit(30)]
    proof fn lemma_body_read(self, s: Seq<u8>)
        requires
            self.inv(),
            self.phase == Phase::Body,
            self.tracks(s),
            self.ready(s),
        ensures
            ({
                let start = self.consumed@ - self.held_len();
                let section = spec_brush_section(self.held(), self.size as nat, self.line());
                &&& spec_parse_map(s) == spec_after_brushes(
                    match section {
                        Err(failure) => Err(failure),
                        Ok((brushes, _, end_line)) => Ok(
                            (brushes, s.skip(start + self.size), end_line),
                        ),
                    },
                    self.entities_seen(),
                )
                &&& section matches Ok((_, carry, _)) ==> carry == s.subrange(
                    start + self.size,
                    self.consumed@ as int,
                ) && carry.len() == self.held_len() - self.size
            }),
    {
        reveal(MapParser::tracks);
        let start = self.consumed@ - self.held_len();
        let rest = s.skip(start);
        let all = self.held();
        assert(all =~= rest.take(all.len() as int));
        lemma_brush_section_prefix(all, rest, self.size as nat, self.line());
        if all.len() >= self.size {
            assert(rest.skip(self.size as int) =~= s.skip(start + self.size));
            assert(all.skip(self.size as int) =~= s.subrange(
                start + self.size,
                self.consumed@ as int,
            ));
        }
    }

    /// What the parse comes to once the section header `header` is read
    /// off the front of `rest`, which starts on line `line`.
    spec fn expected_after_header(
        &self,
        header: SectionHeader,
        rest: Seq<u8>,
        line: nat,
    ) -> Result<MapView, Failure> {
        match header.kind {
            SectionKind::Entities => if header.size != 0 {
                Err(Failure::BadInput(line + 1, Malformed::EntitiesUnsupported))
            } else {
                spec_sections(
                    rest.skip(header.len as int),
                    line + 1,
                    self.brushes_seen(),
                    Some(Seq::empty()),
                )
            },
            SectionKind::Brushes => spec_after_brushes(
                spec_brush_section(rest.skip(header.len as int), header.size as nat, line + 1),
                self.entities_seen(),
            ),
        }
    }

    /// Once the window of a section header is held, the header reads as
    /// it does in the whole input.
    #[verifier::rlimit(30)]
    proof fn lemma_header_read(self, s: Seq<u8>)
        requires
            self.inv(),
            self.phase == Phase::Header,
            self.tracks(s),
            self.ready(s),
        ensures
            header_window(self.pending@) == self.pending@,
            spec_parse_map(s) == match spec_section_header(
                self.pending@,
                self.brushes is Some,
                self.entities is Some,
            ) {
                Err(fault) => Err(fault.on_line(self.line())),
                Ok(header) => self.expected_after_header(
                    header,
                    s.skip(self.consumed@ - self.held_len()),
                    self.line(),
                ),
            },
    {
        reveal(MapParser::tracks);
        let rest = s.skip(self.consumed@ - self.held_len());
        reveal(spec_sections);
        reveal(spec_after_brushes);
        assert(self.held() =~= self.pending@);
        assert(header_window(rest) =~= self.pending@);
    }

    /// What holds of a parser that has just read a section header and
    /// moved the line count past it.
    spec fn opening(&self, header: SectionHeader, window: Seq<u8>, leftover: Seq<u8>) -> bool {
        &&& self.phase == Phase::Header
        &&& self.failure is None
        &&& self.pending@.len() == 0
        &&& self.leftover@.len() == 0
        &&& !(self.brushes is Some && self.entities is Some)
        &&& self.err_ctx.line_count <= MAX_SECTION_LEN + 5
        &&& self.brushes is None ==> self.err_ctx.line_count <= 4
        &&& self.brushes is None && self.entities is None ==> self.err_ctx.line_count <= 3
        &&& MIN_SECTION_HEADER_LEN <= header.len <= window.len() <= MAX_SECTION_HEADER_LEN
        &&& header.size <= MAX_SECTION_LEN
        &&& window.len() <= self.consumed@
        &&& leftover == window.skip(header.len as int)
    }

    /// Fails with the fault of a section header.
    fn fail_header(&mut self, fault: Fault)
        requires
            old(self).inv(),
            old(self).phase == Phase::Header,
            spec_section_header(
                old(self).pending@,
                old(self).brushes is Some,
                old(self).entities is Some,
            ) == Err::<SectionHeader, Fault>(fault),
        ensures
            final(self).wf(),
            final(self).done(),
            final(self).consumed@ == old(self).consumed@,
            forall|s: Seq<u8>| #[trigger]
                old(self).tracks(s) && old(self).ready(s) ==> final(self).tracks(s),
    {
        proof {
            reveal(MapParser::tracks);
        }
        let ghost before = *self;
        let e = self.err_ctx.fault(fault);
        self.fail(e);
        proof {
            assert forall|s: Seq<u8>| #[trigger]
                before.tracks(s) && before.ready(s) implies self.tracks(s) by {
                before.lemma_header_read(s);
            }
        }
    }

    /// Reads the entities section, all of which a read header decides.
    #[verifier::rlimit(30)]
    fn open_entities(&mut self, header: SectionHeader, leftover: Vec<u8>, Ghost(window): Ghost<
        Seq<u8>,
    >)
        requires
            old(self).opening(header, window, leftover@),
            old(self).entities is None,
            header.kind == SectionKind::Entities,
        ensures
            final(self).wf(),
            final(self).consumed@ == old(self).consumed@,
            final(self).brushes == old(self).brushes,
            final(self).done() || final(self).entities is Some,
            final(self).phase == Phase::Header || final(self).rank() <= 1,
            forall|s: Seq<u8>| #[trigger]
                old(self).opens(window, header, s) ==> final(self).tracks(s),
    {
        proof {
            reveal(MapParser::tracks);
        }
        let ghost before = *self;
        match parse_entities_save_leftovers(&self.err_ctx, header.size, leftover.as_slice()) {
            Ok((entities, carry)) => {
                proof {
                    assert(entities@ =~= Seq::empty());
                }
                self.entities = Some(entities);
                let ghost stored = *self;
                self.advance(carry);
                proof {
                    assert forall|s: Seq<u8>| #[trigger]
                        before.opens(window, header, s) implies self.tracks(s) by {
                        let start = before.consumed@ - window.len();
                        assert(carry@ =~= s.subrange(start + header.len, before.consumed@ as int));
                        assert(s.skip(start).skip(header.len as int) =~= s.skip(
                            start + header.len,
                        ));
                        assert(stored.resumes(carry@, s));
                    }
                }
            },
            Err(e) => {
                self.fail(e);
            },
        }
    }

    /// Whether, with the section header `header` just read off the window
    /// `window` and the line count moved past it, the parser has been fed
    /// the start of the input `s`.
    spec fn opens(&self, window: Seq<u8>, header: SectionHeader, s: Seq<u8>) -> bool {
        let start = self.consumed@ - window.len();
        &&& self.consumed@ <= s.len()
        &&& window == s.subrange(start, self.consumed@ as int)
        &&& self.line() >= 1
        &&& spec_parse_map(s) == self.expected_after_header(
            header,
            s.skip(start),
            (self.line() - 1) as nat,
        )
    }

    /// Starts on the body of the brushes section.
    #[verifier::rlimit(30)]
    fn open_brushes(&mut self, header: SectionHeader, leftover: Vec<u8>, Ghost(window): Ghost<
        Seq<u8>,
    >)
        requires
            old(self).opening(header, window, leftover@),
            old(self).brushes is None,
            header.kind == SectionKind::Brushes,
        ensures
            final(self).inv(),
            final(self).phase == Phase::Body,
            final(self).pending@.len() == 0,
            final(self).leftover@ == leftover@,
            final(self).size == header.size,
            final(self).consumed@ == old(self).consumed@,
            final(self).entities == old(self).entities,
            forall|s: Seq<u8>| #[trigger]
                old(self).opens(window, header, s) ==> final(self).tracks(s),
    {
        proof {
            reveal(MapParser::tracks);
        }
        let ghost before = *self;
        self.leftover = leftover;
        self.size = header.size;
        self.phase = Phase::Body;
        proof {
            assert forall|s: Seq<u8>| #[trigger] before.opens(window, header, s) implies self.tracks(
                s,
            ) by {
                let start = before.consumed@ - window.len();
                assert(self.held() =~= s.subrange(start + header.len, before.consumed@ as int));
                assert(s.skip(start).skip(header.len as int) =~= s.skip(start + header.len));
            }
        }
    }

    /// Reads the section header out of the held bytes, which hold its
    /// window whole unless the input ended, and as much of the section as
    /// was read ahead with it.
    #[verifier::rlimit(30)]
    fn process_header(&mut self)
        requires
            old(self).inv(),
            old(self).phase == Phase::Header,
        ensures
            final(self).wf(),
            final(self).consumed@ == old(self).consumed@,
            final(self).rank() < old(self).rank(),
            forall|s: Seq<u8>| #[trigger]
                old(self).tracks(s) && old(self).ready(s) ==> final(self).tracks(s),
    {
        proof {
            reveal(MapParser::tracks);
        }
        let ghost before = *self;
        proof {
            assert(header_window(self.pending@) =~= self.pending@);
        }
        let header = match parse_section_header(
            self.pending.as_slice(),
            self.brushes.is_some(),
            self.entities.is_some(),
        ) {
            Ok(header) => header,
            Err(fault) => {
                self.fail_header(fault);
                return ;
            },
        };
        let mut leftover: Vec<u8> = Vec::new();
        append_range(&mut leftover, self.pending.as_slice(), header.len, self.pending.len());
        let ghost window = self.pending@;
        self.pending = Vec::new();
        self.err_ctx.line_count += 1;
        let ghost read = *self;
        proof {
            assert(leftover@ =~= window.skip(header.len as int));
            assert forall|s: Seq<u8>| #[trigger]
                before.tracks(s) && before.ready(s) implies read.opens(window, header, s) by {
                before.lemma_header_read(s);
                assert(before.held() =~= window);
            }
        }
        match header.kind {
            SectionKind::Entities => self.open_entities(header, leftover, Ghost(window)),
            SectionKind::Brushes => {
                self.open_brushes(header, leftover, Ghost(window));
                if self.leftover.len() >= self.size {
                    self.process_body();
                }
            },
        }
    }

    /// Makes the step that is due once the held bytes are all that the
    /// current phase gets.
    fn step(&mut self)
        requires
            old(self).inv(),
            old(self).phase != Phase::Done,
        ensures
            final(self).wf(),
            final(self).consumed@ == old(self).consumed@,
            final(self).rank() < old(self).rank(),
            forall|s: Seq<u8>| #[trigger]
                old(self).tracks(s) && old(self).ready(s) ==> final(self).tracks(s),
    {
        proof {
            reveal(MapParser::tracks);
        }
        match self.phase {
            Phase::Magic => self.process_magic(),
            Phase::Header => self.process_header(),
            Phase::Body => self.process_body(),
            _ => {
                let ghost before = *self;
                self.phase = Phase::Done;
                proof {
                    assert forall|s: Seq<u8>| #[trigger]
                        before.tracks(s) && before.ready(s) implies self.tracks(s) by {
                        reveal(spec_sections);
                        reveal(spec_after_brushes);
                    }
                }
            },
        }
    }

    /// Whether the held bytes are all that the current phase asks for.
    fn complete(&self) -> (complete: bool)
        requires
            self.inv(),
            self.phase != Phase::Done,
            self.held_len() <= usize::MAX,
        ensures
            complete == (self.held_len() >= self.target()),
    {
        let held = self.leftover.len() + self.pending.len();
        match self.phase {
            Phase::Magic => held >= FILE_HEADER_LEN,
            Phase::Header => held >= MAX_SECTION_HEADER_LEN,
            Phase::Body => held >= self.size,
            _ => held >= 1,
        }
    }

    /// Takes the bytes that a read gave, any number of them.
    ///
    /// If the parser had been fed the start of an input up to these
    /// bytes, it has now been fed that start with them. Bytes that come
    /// after the outcome is known are counted and not looked at.
    pub fn feed(&mut self, bytes: &[u8])
        requires
            old(self).wf(),
        ensures
            final(self).wf(),
            final(self).consumed() == old(self).consumed() + bytes@.len(),
            old(self).done() ==> final(self).done() && final(self).outcome() == old(self).outcome(),
            forall|s: Seq<u8>| #[trigger]
                old(self).tracks(s) && continues(s, old(self).consumed(), bytes@)
                    ==> final(self).tracks(s),
    {
        let mut pos: usize = 0;
        while pos < bytes.len()
            invariant
                pos <= bytes.len(),
                self.wf(),
                self.consumed@ == old(self).consumed@ + pos,
                old(self).done() ==> self.done() && self.outcome() == old(self).outcome(),
                forall|s: Seq<u8>| #[trigger]
                    old(self).tracks(s) && continues(s, old(self).consumed(), bytes@)
                        ==> self.tracks(s),
            decreases bytes.len() - pos,
        {
            let ghost before = *self;
            let want = self.wanted();
            let left = bytes.len() - pos;
            if want == 0 {
                self.consumed = Ghost((self.consumed@ + left) as nat);
                pos = bytes.len();
                proof {
                    assert forall|s: Seq<u8>| #[trigger]
                        old(self).tracks(s) && continues(
                            s,
                            old(self).consumed(),
                            bytes@,
                        ) implies self.tracks(s) by {
                        reveal(MapParser::tracks);
                        assert(before.tracks(s));
                    }
                }
            } else {
                let n = if want < left {
                    want
                } else {
                    left
                };
                let part = vstd::slice::slice_subrange(bytes, pos, pos + n);
                self.feed_part(part);
                proof {
                    assert forall|s: Seq<u8>| #[trigger]
                        old(self).tracks(s) && continues(
                            s,
                            old(self).consumed(),
                            bytes@,
                        ) implies self.tracks(s) by {
                        assert(s.subrange(before.consumed@ as int, before.consumed@ + n)
                            =~= part@);
                        assert(before.tracks(s) && continues(s, before.consumed(), part@));
                    }
                }
                pos += n;
            }
        }
    }

    /// Takes bytes that a read gave: no more than are wanted.
    #[verifier::rlimit(30)]
    fn feed_part(&mut self, bytes: &[u8])
        requires
            old(self).wf(),
            !old(self).done(),
            bytes@.len() <= old(self).wanted_spec(),
        ensures
            final(self).wf(),
            final(self).consumed() == old(self).consumed() + bytes@.len(),
            forall|s: Seq<u8>| #[trigger]
                old(self).tracks(s) && continues(s, old(self).consumed(), bytes@)
                    ==> final(self).tracks(s),
    {
        proof {
            reveal(MapParser::tracks);
        }
        let ghost before = *self;
        if bytes.len() == 0 {
            proof {
                assert(before.consumed@ == self.consumed@);
            }
            return ;
        }
        match self.phase {
            Phase::Trailer => {
                let e = self.err_ctx.bad_input(Malformed::TrailingData { found: bytes[0] });
                self.consumed = Ghost(self.consumed@ + 1);
                self.fail(e);
                proof {
                    assert forall|s: Seq<u8>| #[trigger]
                        before.tracks(s) && continues(s, before.consumed(), bytes@) implies self.tracks(
                        s,
                    ) by {
                        reveal(spec_sections);
                        assert(s.skip(before.consumed@ as int)[0] == bytes@[0]);
                    }
                }
            },
            _ => {
                append_range(&mut self.pending, bytes, 0, bytes.len());
                self.consumed = Ghost(self.consumed@ + bytes@.len());
                let ghost grown = *self;
                proof {
                    assert(bytes@.subrange(0, bytes@.len() as int) =~= bytes@);
                    assert forall|s: Seq<u8>| #[trigger]
                        before.tracks(s) && continues(s, before.consumed(), bytes@) implies grown.tracks(
                        s,
                    ) by {
                        let start = before.consumed@ - before.held_len();
                        assert(grown.held() =~= s.subrange(start, grown.consumed@ as int));
                    }
                }
                if self.complete() {
                    self.step();
                }
            },
        }
    }

    /// Takes the news that the stream has ended.
    ///
    /// The outcome is known afterwards. If the parser had been fed all of
    /// an input, the outcome is that of the input.
    pub fn end_of_input(&mut self)
        requires
            old(self).wf(),
        ensures
            final(self).wf(),
            final(self).done(),
            final(self).consumed() == old(self).consumed(),
            forall|s: Seq<u8>| #[trigger]
                old(self).tracks(s) && s.len() == old(self).consumed() ==> final(self).tracks(s),
    {
        while self.phase != Phase::Done
            invariant
                self.wf(),
                self.consumed@ == old(self).consumed@,
                forall|s: Seq<u8>| #[trigger]
                    old(self).tracks(s) && s.len() == old(self).consumed@ ==> self.tracks(s),
            decreases self.rank(),
        {
            let ghost before = *self;
            self.step();
            proof {
                assert forall|s: Seq<u8>| #[trigger]
                    old(self).tracks(s) && s.len() == old(self).consumed@ implies self.tracks(
                    s,
                ) by {
                    assert(before.tracks(s) && before.ready(s));
                }
            }
        }
    }

    /// Takes the news that reading the stream failed, which ends the parse
    /// unless its outcome was known before.
    pub fn read_failed(&mut self, err: std::io::Error)
        requires
            old(self).wf(),
        ensures
            final(self).wf(),
            final(self).done(),
            final(self).consumed() == old(self).consumed(),
            final(self).outcome() == if old(self).done() {
                old(self).outcome()
            } else {
                Err(Failure::Read)
            },
    {
        if self.phase != Phase::Done {
            let e = self.err_ctx.io_err(err);
            self.fail(e);
        }
    }

    /// The outcome of the parse. A parser that does not know it yet takes
    /// the input to have ended.
    ///
    /// If the parser had been fed all of an input, or as much of it as
    /// made the outcome known, it is the outcome of parsing the input.
    pub fn finish(self) -> (r: Result<MapData, ParseError>)
        requires
            self.wf(),
        ensures
            self.done() ==> outcome_view(r) == self.outcome(),
            forall|s: Seq<u8>| #[trigger]
                self.tracks(s) && (self.done() || s.len() == self.consumed()) ==> outcome_view(r)
                    == spec_parse_map(s),
    {
        let mut parser = self;
        if !parser.is_done() {
            parser.end_of_input();
        }
        proof {
            assert forall|s: Seq<u8>| #[trigger]
                self.tracks(s) && (self.done() || s.len() == self.consumed()) implies parser.outcome()
                == spec_parse_map(s) by {
                reveal(MapParser::tracks);
                assert(parser.tracks(s));
            }
        }
        let MapParser { failure, brushes, entities, .. } = parser;
        match failure {
            Some(e) => Err(e),
            None => Ok(MapData::new(entities.unwrap(), brushes.unwrap())),
        }
    }
}

/// Parses a map that is held in memory whole.
pub fn parse_map(input: &[u8]) -> (r: Result<MapData, ParseError>)
    ensures
        outcome_view(r) == spec_parse_map(input@),
        r matches Ok(map) ==> map@.well_formed(),
{
    proof {
        lemma_parsed_map_well_formed(input@);
    }
    let mut parser = MapParser::new();
    proof {
        assert(input@.subrange(0, input@.len() as int) =~= input@);
        assert(parser.tracks(input@));
    }
    parser.feed(input);
    assert(parser.tracks(input@));
    parser.end_of_input();
    assert(parser.tracks(input@));
    parser.finish()
}

/// The bytes of the given pieces, one piece after the other.
pub open spec fn joined(chunks: Seq<&[u8]>) -> Seq<u8>
    decreases chunks.len(),
{
    if chunks.len() == 0 {
        Seq::empty()
    } else {
        joined(chunks.drop_last()) + chunks.last()@
    }
}

/// The first pieces joined, and the next piece after them, are how all
/// the pieces joined begin.
pub proof fn lemma_joined_prefix(chunks: Seq<&[u8]>, i: int)
    requires
        0 <= i < chunks.len(),
    ensures
        joined(chunks.take(i + 1)) == joined(chunks.take(i)) + chunks[i]@,
        joined(chunks.take(i + 1)).len() <= joined(chunks).len(),
        joined(chunks).take(joined(chunks.take(i + 1)).len() as int) == joined(chunks.take(i + 1)),
    decreases chunks.len() - i,
{
    assert(chunks.take(i + 1).drop_last() =~= chunks.take(i));
    if i + 1 < chunks.len() {
        lemma_joined_prefix(chunks, i + 1);
        assert(chunks.take(i + 2).drop_last() =~= chunks.take(i + 1));
        assert(joined(chunks).take(joined(chunks.take(i + 1)).len() as int) =~= joined(
            chunks.take(i + 1),
        ));
    } else {
        assert(chunks.take(i + 1) =~= chunks);
        assert(joined(chunks).take(joined(chunks).len() as int) =~= joined(chunks));
    }
}

/// Parses a map that is held in memory in pieces, as a stream hands it
/// over read by read.
///
/// The pieces may cut the input anywhere: the outcome is that of parsing
/// the pieces joined.
pub fn parse_map_chunks(chunks: &[&[u8]]) -> (r: Result<MapData, ParseError>)
    ensures
        outcome_view(r) == spec_parse_map(joined(chunks@)),
        r matches Ok(map) ==> map@.well_formed(),
{
    proof {
        lemma_parsed_map_well_formed(joined(chunks@));
    }
    let ghost whole = joined(chunks@);
    let mut parser = MapParser::new();
    let mut i: usize = 0;
    proof {
        assert(chunks@.take(0) =~= Seq::<&[u8]>::empty());
    }
    while i < chunks.len()
        invariant
            whole == joined(chunks@),
            i <= chunks.len(),
            parser.wf(),
            parser.tracks(whole),
            parser.consumed() == joined(chunks@.take(i as int)).len(),
        decreases chunks.len() - i,
    {
        let chunk = chunks[i];
        proof {
            lemma_joined_prefix(chunks@, i as int);
            let fed = joined(chunks@.take(i as int)).len() as int;
            let head = joined(chunks@.take(i + 1));
            assert(whole.subrange(fed, fed + chunk@.len()) =~= whole.take(
                head.len() as int,
            ).subrange(fed, fed + chunk@.len()));
            assert(head.subrange(fed, fed + chunk@.len()) =~= chunk@);
        }
        parser.feed(chunk);
        i += 1;
    }
    proof {
        assert(chunks@.take(i as int) =~= chunks@);
    }
    parser.end_of_input();
    assert(parser.tracks(whole));
    parser.finish()
}

} // verus!
