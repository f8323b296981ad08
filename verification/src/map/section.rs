//! Section bodies: a declared number of bytes, cut out of what was read
//! ahead and what was read for them.

use vstd::prelude::*;
use crate::map::data::EntityData;
use crate::map::error::{Malformed, ParseError, ParseErrorContext, Truncated};

verus! {

/// Appends the bytes of `src` from index `from` up to index `to` to `dst`.
pub(crate) fn append_range(dst: &mut Vec<u8>, src: &[u8], from: usize, to: usize)
    requires
        from <= to <= src.len(),
    ensures
        final(dst)@ == old(dst)@ + src@.subrange(from as int, to as int),
{
    let mut i = from;
    while i < to
        invariant
            from <= i <= to <= src.len(),
            dst@ == old(dst)@ + src@.subrange(from as int, i as int),
        decreases to - i,
    {
        dst.push(src[i]);
        i += 1;
    }
}

/// Cuts the body of a section of `size` bytes out of the bytes already at
/// hand: `leftover_bytes`, read ahead of the section, and after them
/// `fresh`, read for it.
///
/// Returns the body, exactly `size` bytes, and all bytes that follow it,
/// untouched: no byte is lost and none is doubled. Fails where fewer than
/// `size` bytes are at hand, which is the case when the stream ended early.
pub fn read_section_and_alloc_with_leftovers(
    err_ctx: &ParseErrorContext,
    size: usize,
    leftover_bytes: &[u8],
    fresh: &[u8],
) -> (r: Result<(Vec<u8>, Vec<u8>), ParseError>)
    ensures
        leftover_bytes@.len() + fresh@.len() < size ==> r == Err::<(Vec<u8>, Vec<u8>), ParseError>(
            ParseError::UnexpectedEOF(err_ctx.line_count, Truncated::SectionBody),
        ),
        leftover_bytes@.len() + fresh@.len() >= size ==> (r matches Ok((buf, ret_leftovers))
            && buf@ == (leftover_bytes@ + fresh@).take(size as int) && ret_leftovers@ == (
        leftover_bytes@ + fresh@).skip(size as int)),
        r matches Ok((buf, ret_leftovers)) ==> buf@ + ret_leftovers@ == leftover_bytes@ + fresh@,
{
    let min_len = if leftover_bytes.len() < size {
        leftover_bytes.len()
    } else {
        size
    };
    let need = size - min_len;
    if fresh.len() < need {
        return Err(err_ctx.unexpected_eof(Truncated::SectionBody));
    }
    let mut buf: Vec<u8> = Vec::new();
    append_range(&mut buf, leftover_bytes, 0, min_len);
    append_range(&mut buf, fresh, 0, need);
    let mut ret_leftovers: Vec<u8> = Vec::new();
    append_range(&mut ret_leftovers, leftover_bytes, min_len, leftover_bytes.len());
    append_range(&mut ret_leftovers, fresh, need, fresh.len());
    proof {
        let all = leftover_bytes@ + fresh@;
        assert(buf@ =~= all.take(size as int));
        assert(ret_leftovers@ =~= all.skip(size as int));
        assert(buf@ + ret_leftovers@ =~= all);
    }
    Ok((buf, ret_leftovers))
}

/// Reads the entities section, whose body has `size` bytes, and hands the
/// bytes read ahead on.
///
/// An empty section holds no entities. The format defines no grammar for
/// a non-empty one, so it is refused rather than skipped.
pub fn parse_entities_save_leftovers(
    err_ctx: &ParseErrorContext,
    size: usize,
    leftover_bytes: &[u8],
) -> (r: Result<(Vec<EntityData>, Vec<u8>), ParseError>)
    ensures
        size == 0 ==> (r matches Ok((entities, leftover)) && entities@.len() == 0 && leftover@
            == leftover_bytes@),
        size != 0 ==> r == Err::<(Vec<EntityData>, Vec<u8>), ParseError>(
            ParseError::BadInput(err_ctx.line_count, Malformed::EntitiesUnsupported),
        ),
{
    if size == 0 {
        let mut leftover: Vec<u8> = Vec::new();
        append_range(&mut leftover, leftover_bytes, 0, leftover_bytes.len());
        assert(leftover@ =~= leftover_bytes@);
        return Ok((Vec::new(), leftover));
    }
    Err(err_ctx.bad_input(Malformed::EntitiesUnsupported))
}

} // verus!
