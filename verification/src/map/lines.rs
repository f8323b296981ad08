//! Lines and comments: where a line ends, and how the cursor gets past it.

use vstd::prelude::*;
use crate::map::error::{ParseError, ParseErrorContext, Truncated};

verus! {

/// The index of the first newline of `s` at or after `from`; the length of
/// `s` where there is none.
pub open spec fn line_end(s: Seq<u8>, from: int) -> int
    decreases s.len() - from,
{
    if 0 <= from < s.len() && s[from] != 0x0a {
        line_end(s, from + 1)
    } else {
        from
    }
}

/// Whether a `//` comment starts at index `pos` of `s`.
pub open spec fn comment_at(s: Seq<u8>, pos: int) -> bool {
    0 <= pos && pos + 1 < s.len() && s[pos] == 0x2f && s[pos + 1] == 0x2f
}

/// No newline lies before the end of a line, and a newline or the end of the input at it.
pub proof fn lemma_line_end(s: Seq<u8>, from: int)
    requires
        0 <= from <= s.len(),
    ensures
        from <= line_end(s, from) <= s.len(),
        forall|i: int| from <= i < line_end(s, from) ==> #[trigger] s[i] != 0x0a,
        line_end(s, from) < s.len() ==> s[line_end(s, from)] == 0x0a,
    decreases s.len() - from,
{
    if from < s.len() && s[from] != 0x0a {
        lemma_line_end(s, from + 1);
    }
}

/// The end of a line is the only index with no newline before it and a
/// newline, or the end of the input, at it.
pub proof fn lemma_line_end_unique(s: Seq<u8>, from: int, end: int)
    requires
        0 <= from <= end <= s.len(),
        forall|i: int| from <= i < end ==> #[trigger] s[i] != 0x0a,
        end < s.len() ==> s[end] == 0x0a,
    ensures
        line_end(s, from) == end,
    decreases end - from,
{
    if from < end {
        lemma_line_end_unique(s, from + 1, end);
    }
}

/// The first line of the input from index `p` on is the line of the whole
/// input that holds index `p`.
pub proof fn lemma_suffix_line(s: Seq<u8>, p: int)
    requires
        0 <= p <= s.len(),
    ensures
        p <= line_end(s, p) <= s.len(),
        line_end(s.skip(p), 0) == line_end(s, p) - p,
        comment_at(s.skip(p), 0) == comment_at(s, p),
        s.skip(p).take(line_end(s, p) - p) == s.subrange(p, line_end(s, p)),
        line_end(s, p) < s.len() ==> s.skip(p).skip(line_end(s, p) - p + 1) == s.skip(
            line_end(s, p) + 1,
        ),
        p < s.len() ==> s.skip(p)[0] == s[p] && s.skip(p).skip(1) == s.skip(p + 1),
{
    let end = line_end(s, p);
    let rest = s.skip(p);
    lemma_line_end(s, p);
    assert forall|i: int| 0 <= i < end - p implies #[trigger] rest[i] != 0x0a by {
        assert(rest[i] == s[p + i]);
    }
    lemma_line_end_unique(rest, 0, end - p);
    assert(rest.take(end - p) =~= s.subrange(p, end));
    if end < s.len() {
        assert(rest.skip(end - p + 1) =~= s.skip(end + 1));
    }
    if p < s.len() {
        assert(rest.skip(1) =~= s.skip(p + 1));
    }
}

/// What seeking a byte from an index comes to.
pub struct Seek {
    /// The index just past the byte, where it was found.
    pub after: Option<int>,
    /// The number of newlines passed on the way, the sought one included.
    pub lines: nat,
}

/// Seeks `byte` in `s` from index `pos` on. While another byte than the
/// newline is sought, a comment on the way is skipped whole, so a match
/// inside a comment does not count.
pub open spec fn spec_seek(s: Seq<u8>, pos: int, byte: u8) -> Seek
    decreases s.len() - pos,
{
    if pos < 0 || pos >= s.len() {
        Seek { after: None, lines: 0 }
    } else if byte != 0x0a && comment_at(s, pos) {
        let end = line_end(s, pos + 2);
        proof {
            lemma_line_end(s, pos + 2);
        }
        if end >= s.len() {
            Seek { after: None, lines: 0 }
        } else {
            let rest = spec_seek(s, end + 1, byte);
            Seek { after: rest.after, lines: rest.lines + 1 }
        }
    } else if s[pos] == byte {
        Seek { after: Some(pos + 1), lines: if byte == 0x0a { 1 } else { 0 } }
    } else {
        let rest = spec_seek(s, pos + 1, byte);
        Seek { after: rest.after, lines: rest.lines + if s[pos] == 0x0a { 1nat } else { 0nat } }
    }
}

/// Seeking the newline finds the end of the line, and passes that one newline.
pub proof fn lemma_seek_newline(s: Seq<u8>, pos: int)
    requires
        0 <= pos <= s.len(),
    ensures
        line_end(s, pos) < s.len() ==> spec_seek(s, pos, 0x0a) == (Seek {
            after: Some(line_end(s, pos) + 1),
            lines: 1,
        }),
        line_end(s, pos) >= s.len() ==> spec_seek(s, pos, 0x0a) == (Seek { after: None, lines: 0 }),
    decreases s.len() - pos,
{
    if pos < s.len() && s[pos] != 0x0a {
        lemma_seek_newline(s, pos + 1);
    }
}

/// A seek ends inside the input and passes no more newlines than bytes.
pub proof fn lemma_seek_bounds(s: Seq<u8>, pos: int, byte: u8)
    requires
        0 <= pos <= s.len(),
    ensures
        spec_seek(s, pos, byte).lines <= s.len() - pos,
        spec_seek(s, pos, byte).after matches Some(after) ==> pos < after <= s.len(),
    decreases s.len() - pos,
{
    if pos < s.len() {
        if byte != 0x0a && comment_at(s, pos) {
            lemma_line_end(s, pos + 2);
            if line_end(s, pos + 2) < s.len() {
                lemma_seek_bounds(s, line_end(s, pos + 2) + 1, byte);
            }
        } else if s[pos] != byte {
            lemma_seek_bounds(s, pos + 1, byte);
        }
    }
}

/// Whether a comment starts at `ptr`: the byte there and the next are both `/`.
pub fn is_comment(buf: &[u8], ptr: usize) -> (comment: bool)
    ensures
        comment == comment_at(buf@, ptr as int),
{
    ptr < buf.len() && buf.len() - ptr >= 2 && buf[ptr] == 0x2f && buf[ptr + 1] == 0x2f
}

/// The index at which the line that holds index `from` ends.
pub fn find_line_end(buf: &[u8], from: usize) -> (end: usize)
    requires
        from <= buf.len(),
    ensures
        end == line_end(buf@, from as int),
        from <= end <= buf.len(),
{
    let mut end = from;
    proof {
        lemma_line_end(buf@, from as int);
    }
    while end < buf.len() && buf[end] != 0x0a
        invariant
            from <= end <= buf.len(),
            line_end(buf@, from as int) == line_end(buf@, end as int),
        decreases buf.len() - end,
    {
        end += 1;
    }
    end
}

/// Moves `ptr` just past the next newline and counts the line.
///
/// Fails, with `ptr` unmoved, where the input ends before a newline.
pub fn read_until_after_newline(
    buf: &[u8],
    err_ctx: &mut ParseErrorContext,
    ptr: &mut usize,
) -> (r: Result<(), ParseError>)
    requires
        old(err_ctx).line_count + buf.len() - *old(ptr) <= usize::MAX,
    ensures
        line_end(buf@, *old(ptr) as int) < buf.len() ==> r is Ok && *final(ptr) == line_end(
            buf@,
            *old(ptr) as int,
        ) + 1 && final(err_ctx).line_count == old(err_ctx).line_count + 1,
        line_end(buf@, *old(ptr) as int) >= buf.len() ==> r == Err::<(), ParseError>(
            ParseError::UnexpectedEOF(old(err_ctx).line_count, (Truncated::Until { byte: 0x0a })),
        ) && *final(ptr) == *old(ptr) && final(err_ctx).line_count == old(err_ctx).line_count,
{
    proof {
        if *ptr <= buf.len() {
            lemma_seek_newline(buf@, *ptr as int);
        }
    }
    read_until_after_byte(buf, err_ctx, ptr, 0x0a)
}

/// Moves `ptr` just past the next occurrence of `byte`, counting the
/// newlines on the way. While another byte than the newline is sought,
/// comments are skipped whole.
///
/// Fails, with `ptr` unmoved, where the input ends first; the error is
/// stamped with the line on which the input ends.
pub fn read_until_after_byte(
    buf: &[u8],
    err_ctx: &mut ParseErrorContext,
    ptr: &mut usize,
    byte: u8,
) -> (r: Result<(), ParseError>)
    requires
        old(err_ctx).line_count + buf.len() - *old(ptr) <= usize::MAX,
    ensures
        final(err_ctx).line_count == old(err_ctx).line_count + spec_seek(
            buf@,
            *old(ptr) as int,
            byte,
        ).lines,
        match spec_seek(buf@, *old(ptr) as int, byte).after {
            Some(after) => r is Ok && *final(ptr) == after,
            None => r == Err::<(), ParseError>(
                ParseError::UnexpectedEOF(final(err_ctx).line_count, (Truncated::Until { byte })),
            ) && *final(ptr) == *old(ptr),
        },
{
    if *ptr > buf.len() {
        return Err(err_ctx.unexpected_eof(Truncated::Until { byte }));
    }
    let mut our_ptr = *ptr;
    let ghost start = *ptr as int;
    let ghost first_line = err_ctx.line_count as int;
    proof {
        lemma_seek_bounds(buf@, start, byte);
    }
    loop
        invariant_except_break
            spec_seek(buf@, start, byte).after == spec_seek(buf@, our_ptr as int, byte).after,
            spec_seek(buf@, start, byte).lines == spec_seek(buf@, our_ptr as int, byte).lines + (
            err_ctx.line_count - first_line),
        invariant
            start <= our_ptr <= buf.len(),
            *ptr == start == *old(ptr),
            first_line == old(err_ctx).line_count,
            first_line + buf.len() - start <= usize::MAX,
            first_line <= err_ctx.line_count,
            err_ctx.line_count - first_line <= our_ptr - start,
        ensures
            start < our_ptr <= buf.len(),
            *ptr == start,
            spec_seek(buf@, start, byte).after == Some(our_ptr as int),
            err_ctx.line_count == first_line + spec_seek(buf@, start, byte).lines,
        decreases buf.len() - our_ptr,
    {
        if our_ptr >= buf.len() {
            return Err(err_ctx.unexpected_eof(Truncated::Until { byte }));
        }
        let byte_at_idx = buf[our_ptr];
        if byte != 0x0a && is_comment(buf, our_ptr) {
            let end = find_line_end(buf, our_ptr + 2);
            if end >= buf.len() {
                return Err(err_ctx.unexpected_eof(Truncated::Until { byte }));
            }
            err_ctx.line_count += 1;
            our_ptr = end + 1;
            continue ;
        }
        if byte_at_idx == byte {
            if byte == 0x0a {
                err_ctx.line_count += 1;
            }
            our_ptr += 1;
            break ;
        } else if byte_at_idx == 0x0a {
            err_ctx.line_count += 1;
        }
        our_ptr += 1;
    }
    *ptr = our_ptr;
    Ok(())
}

} // verus!
