//! The chunks of a note file, as far as it takes to tell the files that
//! the parser cannot be given.
//!
//! A note file is a run of chunks: four bytes of name, four bytes of
//! length with the high byte first, and the data. A chunk named `MThd` is a
//! header: two bytes of format, two of track count and two of timing. A
//! timing with the top bit set tells frames a second as the negative of
//! its high byte. The parser negates that byte as a signed byte, and the
//! least signed byte has no negative: on the byte `0x80` the parser fails in
//! a way that cannot be caught. Such a file is told here, before the parser
//! sees it.
//!
//! A note file may also stand inside a RIFF container, as the chunk named
//! `data` of a form `RMID`; the lengths of the container have the low byte
//! first.

use vstd::prelude::*;

verus! {

/// The high byte of a timing that the parser cannot read.
pub const TIMING_WITHOUT_NEGATIVE: u8 = 0x80;

/// The name `MThd` of a header, as the number that its four letters are
/// with the high byte first.
pub const NAME_HEADER: u32 = 0x4d54_6864;

/// The name `MTrk` of a track.
pub const NAME_TRACK: u32 = 0x4d54_726b;

/// The name `RIFF` of a container.
pub const NAME_CONTAINER: u32 = 0x5249_4646;

/// The name `RMID` of the form of a container that holds a note file.
pub const NAME_FORM: u32 = 0x524d_4944;

/// The name `data` of the chunk of a container that holds the note file.
pub const NAME_DATA: u32 = 0x6461_7461;

/// The number in the four bytes at `at`, the high byte first.
pub open spec fn spec_be32(bytes: Seq<u8>, at: int) -> int {
    bytes[at] * 0x100_0000 + bytes[at + 1] * 0x1_0000 + bytes[at + 2] * 0x100 + bytes[at + 3]
}

/// The four bytes at `at` are the letters of `name`.
pub open spec fn spec_named(bytes: Seq<u8>, at: int, name: u32) -> bool {
    spec_be32(bytes, at) == name
}

/// The number in the four bytes at `at`, the low byte first.
pub open spec fn spec_le32(bytes: Seq<u8>, at: int) -> int {
    bytes[at] + bytes[at + 1] * 0x100 + bytes[at + 2] * 0x1_0000 + bytes[at + 3] * 0x100_0000
}

/// Where the data of a chunk ends: `len` bytes after `from`, or at `end`
/// where the chunk is cut short.
pub open spec fn data_end(from: int, len: int, end: int) -> int {
    if len <= end - from {
        from + len
    } else {
        end
    }
}

/// How the parser fares with a header.
#[derive(Clone, Copy, Debug, PartialEq, Eq, Structural)]
pub enum HeaderRead {
    /// It reads the header.
    Good,
    /// It refuses the header.
    Bad,
    /// It fails on the timing.
    Overflow,
}

/// The high byte of a timing in frames tells 24, 25, 29 or 30 frames a
/// second, as their negatives.
pub open spec fn frames_known(high: u8) -> bool {
    high == 256 - 24 || high == 256 - 25 || high == 256 - 29 || high == 256 - 30
}

/// How the parser fares with the header whose data are the bytes from
/// `from` up to `to`. A header is refused that is shorter than six bytes,
/// whose format is over 2, or whose frames a second are not known.
pub open spec fn spec_header_read(bytes: Seq<u8>, from: int, to: int) -> HeaderRead {
    if to - from < 6 {
        HeaderRead::Bad
    } else if bytes[from] * 0x100 + bytes[from + 1] > 2 {
        HeaderRead::Bad
    } else if bytes[from + 4] == TIMING_WITHOUT_NEGATIVE {
        HeaderRead::Overflow
    } else if bytes[from + 4] > TIMING_WITHOUT_NEGATIVE && !frames_known(bytes[from + 4]) {
        HeaderRead::Bad
    } else {
        HeaderRead::Good
    }
}

/// The parser, reading the chunks from `pos` up to `end`, comes to a
/// header on whose timing it fails. `first` tells that it has found no
/// header yet. It reads on after a header that it can read, after a track
/// that follows a header, and after a chunk of another name; it stops at a
/// header that it refuses, at a track before any header, and where fewer
/// than eight bytes are left.
pub open spec fn chunks_overflow(bytes: Seq<u8>, pos: int, end: int, first: bool) -> bool
    decreases end - pos,
{
    if end - pos < 8 {
        false
    } else {
        let from = pos + 8;
        let to = data_end(from, spec_be32(bytes, pos + 4), end);
        if spec_named(bytes, pos, NAME_HEADER) {
            match spec_header_read(bytes, from, to) {
                HeaderRead::Overflow => true,
                HeaderRead::Bad => false,
                HeaderRead::Good => chunks_overflow(bytes, to, end, false),
            }
        } else if spec_named(bytes, pos, NAME_TRACK) {
            if first {
                false
            } else {
                chunks_overflow(bytes, to, end, false)
            }
        } else {
            chunks_overflow(bytes, to, end, first)
        }
    }
}

/// Where the chunk named `data` stands among the chunks of a container
/// from `pos` up to `end`: the first and the last offset of its data, if
/// there is such a chunk. A chunk of odd length is followed by one byte of
/// padding.
pub open spec fn riff_find(bytes: Seq<u8>, pos: int, end: int) -> Option<(int, int)>
    decreases end - pos,
{
    if end - pos < 8 {
        None
    } else {
        let from = pos + 8;
        let len = spec_le32(bytes, pos + 4);
        let to = data_end(from, len, end);
        let next = if len % 2 == 1 && to < end {
            to + 1
        } else {
            to
        };
        if spec_named(bytes, pos, NAME_DATA) {
            Some((from, to))
        } else {
            riff_find(bytes, next, end)
        }
    }
}

/// Where the note file stands in a container: the data of the chunk named
/// `data` in the form `RMID` of the one chunk of the container.
pub open spec fn riff_data(bytes: Seq<u8>) -> Option<(int, int)> {
    if bytes.len() < 8 {
        None
    } else {
        let end = data_end(8, spec_le32(bytes, 4), bytes.len() as int);
        if end - 8 < 4 || !spec_named(bytes, 8, NAME_FORM) {
            None
        } else {
            riff_find(bytes, 12, end)
        }
    }
}

/// The parser fails on `bytes`: they are a note file, bare or in a
/// container, and the parser comes to a header on whose timing it fails.
pub open spec fn spec_timing_overflows(bytes: Seq<u8>) -> bool {
    if bytes.len() < 4 {
        false
    } else if spec_named(bytes, 0, NAME_HEADER) {
        chunks_overflow(bytes, 0, bytes.len() as int, true)
    } else if spec_named(bytes, 0, NAME_CONTAINER) {
        match riff_data(bytes) {
            Some((from, to)) => chunks_overflow(bytes, from, to, true),
            None => false,
        }
    } else {
        false
    }
}

/// Reads the number in the four bytes at `at`, the high byte first.
fn be32(bytes: &[u8], at: usize) -> (r: u32)
    requires
        at + 4 <= bytes@.len(),
    ensures
        r == spec_be32(bytes@, at as int),
{
    (bytes[at] as u32) * 0x100_0000 + (bytes[at + 1] as u32) * 0x1_0000 + (bytes[at + 2] as u32)
        * 0x100 + (bytes[at + 3] as u32)
}

/// Tells whether the four bytes at `at` are the letters of `name`.
fn named(bytes: &[u8], at: usize, name: u32) -> (r: bool)
    requires
        at + 4 <= bytes@.len(),
    ensures
        r == spec_named(bytes@, at as int, name),
{
    be32(bytes, at) == name
}

/// Reads the number in the four bytes at `at`, the low byte first.
fn le32(bytes: &[u8], at: usize) -> (r: u32)
    requires
        at + 4 <= bytes@.len(),
    ensures
        r == spec_le32(bytes@, at as int),
{
    (bytes[at] as u32) + (bytes[at + 1] as u32) * 0x100 + (bytes[at + 2] as u32) * 0x1_0000 + (
    bytes[at + 3] as u32) * 0x100_0000
}

/// Where the data of a chunk ends.
fn end_of_data(from: usize, len: u32, end: usize) -> (r: usize)
    requires
        from <= end,
    ensures
        r == data_end(from as int, len as int, end as int),
        from <= r <= end,
{
    if len as usize <= end - from {
        from + len as usize
    } else {
        end
    }
}

/// Tells how the parser fares with the header whose data are the bytes
/// from `from` up to `to`.
pub fn header_read(bytes: &[u8], from: usize, to: usize) -> (r: HeaderRead)
    requires
        from <= to <= bytes@.len(),
    ensures
        r == spec_header_read(bytes@, from as int, to as int),
{
    if to - from < 6 {
        HeaderRead::Bad
    } else if (bytes[from] as u16) * 0x100 + (bytes[from + 1] as u16) > 2 {
        HeaderRead::Bad
    } else {
        let high = bytes[from + 4];
        if high == TIMING_WITHOUT_NEGATIVE {
            HeaderRead::Overflow
        } else if high > TIMING_WITHOUT_NEGATIVE && !(high == 232 || high == 231 || high == 227
            || high == 226) {
            HeaderRead::Bad
        } else {
            HeaderRead::Good
        }
    }
}

/// Tells whether the parser, reading the chunks from `start` up to `end`,
/// comes to a header on whose timing it fails.
fn walk_chunks(bytes: &[u8], start: usize, end: usize) -> (r: bool)
    requires
        start <= end <= bytes@.len(),
    ensures
        r == chunks_overflow(bytes@, start as int, end as int, true),
{
    let mut pos = start;
    let mut first = true;
    while end - pos >= 8
        invariant
            start <= pos <= end <= bytes@.len(),
            chunks_overflow(bytes@, pos as int, end as int, first) == chunks_overflow(
                bytes@,
                start as int,
                end as int,
                true,
            ),
        decreases end - pos,
    {
        let from = pos + 8;
        let to = end_of_data(from, be32(bytes, pos + 4), end);
        if named(bytes, pos, NAME_HEADER) {
            match header_read(bytes, from, to) {
                HeaderRead::Overflow => {
                    return true;
                },
                HeaderRead::Bad => {
                    return false;
                },
                HeaderRead::Good => {
                    first = false;
                },
            }
        } else if named(bytes, pos, NAME_TRACK) {
            if first {
                return false;
            }
        }
        pos = to;
    }
    false
}

/// Finds the chunk named `data` among the chunks of a container from
/// `start` up to `end`.
fn find_data(bytes: &[u8], start: usize, end: usize) -> (r: Option<(usize, usize)>)
    requires
        start <= end <= bytes@.len(),
    ensures
        match r {
            Some((from, to)) => riff_find(bytes@, start as int, end as int) == Some(
                (from as int, to as int),
            ) && from <= to <= end,
            None => riff_find(bytes@, start as int, end as int).is_none(),
        },
{
    let mut pos = start;
    while end - pos >= 8
        invariant
            start <= pos <= end <= bytes@.len(),
            riff_find(bytes@, pos as int, end as int) == riff_find(
                bytes@,
                start as int,
                end as int,
            ),
        decreases end - pos,
    {
        let from = pos + 8;
        let len = le32(bytes, pos + 4);
        let to = end_of_data(from, len, end);
        if named(bytes, pos, NAME_DATA) {
            return Some((from, to));
        }
        pos = if len % 2 == 1 && to < end {
            to + 1
        } else {
            to
        };
    }
    None
}

/// Tells whether the parser fails on `bytes`.
pub fn timing_overflows(bytes: &[u8]) -> (r: bool)
    ensures
        r == spec_timing_overflows(bytes@),
{
    let len = bytes.len();
    if len < 4 {
        false
    } else if named(bytes, 0, NAME_HEADER) {
        walk_chunks(bytes, 0, len)
    } else if named(bytes, 0, NAME_CONTAINER) {
        if len < 8 {
            return false;
        }
        let end = end_of_data(8, le32(bytes, 4), len);
        if end - 8 < 4 || !named(bytes, 8, NAME_FORM) {
            return false;
        }
        match find_data(bytes, 12, end) {
            Some((from, to)) => walk_chunks(bytes, from, to),
            None => false,
        }
    } else {
        false
    }
}

} // verus!
