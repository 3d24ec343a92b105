//! Which files the SMAF reader reads to an end.
//!
//! The reader, `smaf::Smaf::parse`, answers most malformed files with an error.
//! On some it panics, and on some it never returns.  This module walks a file
//! the way the reader does, and tells those files from the others before the
//! reader sees them.  Memory is taken to suffice: the reader reserves as much for
//! a compressed sequence as the file declares, whatever the code spells.
use crate::container::FormatType;
use crate::huffman::{
    decode_text, decoded_text, law_lone_leaves_repeat_their_byte, lone_byte, repeated, tree_at,
};
use vstd::prelude::*;
use vstd::slice::slice_subrange;

verus! {

/// How the reader ends on a part of a file: it takes the whole part, it refuses
/// it, or it panics or never returns.
#[derive(Clone, Copy, Debug, PartialEq, Eq, Structural)]
pub enum Reading {
    Whole,
    Refused,
    Stuck,
}

/// What one step of the reader comes to: a place from which it goes on, or the
/// end of its reading.
pub enum Step {
    Next(int),
    Ends(Reading),
}

/// How the events of a sequence are written.
#[derive(Clone, Copy, Debug, PartialEq, Eq, Structural)]
pub enum Notation {
    Mobile,
    Handy,
    Softbank,
    PcmAudio,
}

/// A variable-length number: seven bits of each byte, the highest first, up to a
/// byte whose high bit is clear.  Yields the number's low 32 bits, behind the
/// bits of `value`, and the place behind it.
pub open spec fn number(data: Seq<u8>, at: int, value: u32) -> Option<(u32, int)>
    decreases data.len() - at,
{
    if at < 0 || at >= data.len() {
        None
    } else {
        let longer = (value << 7) | (data[at] & 0x7f) as u32;
        if data[at] < 0x80 {
            Some((longer, at + 1))
        } else {
            number(data, at + 1, longer)
        }
    }
}

/// The place behind a number of one or two bytes.
pub open spec fn short_number(data: Seq<u8>, at: int) -> Option<int> {
    if at < 0 || at >= data.len() {
        None
    } else if data[at] < 0x80 {
        Some(at + 1)
    } else if at + 1 >= data.len() {
        None
    } else {
        Some(at + 2)
    }
}

/// A step over `count` bytes.
pub open spec fn skip(data: Seq<u8>, at: int, count: int) -> Step {
    if at + count > data.len() {
        Step::Ends(Reading::Refused)
    } else {
        Step::Next(at + count)
    }
}

/// The place behind the first 0xf7 from `at` on, or the end.
pub open spec fn behind_mark(data: Seq<u8>, at: int) -> int
    decreases data.len() - at,
{
    if at < 0 || at >= data.len() {
        data.len() as int
    } else if data[at] == 0xf7 {
        at + 1
    } else {
        behind_mark(data, at + 1)
    }
}

/// Four zero bytes.
pub open spec fn zeros(data: Seq<u8>, at: int) -> bool {
    &&& at + 4 <= data.len()
    &&& data[at] == 0
    &&& data[at + 1] == 0
    &&& data[at + 2] == 0
    &&& data[at + 3] == 0
}

/// One event of a Mobile Standard sequence.  A status byte below 0x80, or from
/// 0xf1 to 0xfe, is one that the reader never gets past.
pub open spec fn mobile_step(data: Seq<u8>, at: int) -> Step {
    match number(data, at, 0) {
        None => Step::Ends(Reading::Refused),
        Some((_, place)) => if place >= data.len() {
            Step::Ends(Reading::Refused)
        } else {
            let status = data[place];
            let body = place + 1;
            if status < 0x80 || 0xf1 <= status <= 0xfe {
                Step::Ends(Reading::Stuck)
            } else if status < 0xa0 {
                // A note, perhaps with a velocity, and its gate time.
                match number(
                    data,
                    if status < 0x90 {
                        body + 1
                    } else {
                        body + 2
                    },
                    0,
                ) {
                    None => Step::Ends(Reading::Refused),
                    Some((_, end)) => Step::Next(end),
                }
            } else if status < 0xc0 || 0xe0 <= status <= 0xef {
                skip(data, body, 2)
            } else if status < 0xe0 {
                skip(data, body, 1)
            } else if status == 0xf0 {
                match number(data, body, 0) {
                    None => Step::Ends(Reading::Refused),
                    Some((length, start)) => skip(data, start, length as int),
                }
            } else if body >= data.len() {
                Step::Ends(Reading::Refused)
            } else if data[body] != 0x2f {
                Step::Next(body + 1)
            } else if body + 2 == data.len() {
                Step::Ends(Reading::Whole)
            } else {
                Step::Ends(Reading::Refused)
            }
        },
    }
}

/// One event of a Handy Phone or Softbank sequence.  The reader panics on 0xff
/// in front of anything but an exclusive message or zero; on short pitch bends
/// from 0x14 on a 16-bit product overflows in it.
pub open spec fn handy_step(data: Seq<u8>, at: int, softbank: bool) -> Step {
    if at >= data.len() {
        Step::Ends(Reading::Whole)
    } else if zeros(data, at) {
        if at + 4 == data.len() {
            Step::Ends(Reading::Whole)
        } else {
            Step::Ends(Reading::Refused)
        }
    } else {
        match short_number(data, at) {
            None => Step::Ends(Reading::Refused),
            Some(place) => if place >= data.len() {
                Step::Ends(Reading::Refused)
            } else if 1 <= data[place] <= 0xfe {
                match short_number(data, place + 1) {
                    None => Step::Ends(Reading::Refused),
                    Some(end) => Step::Next(end),
                }
            } else if place + 1 >= data.len() {
                Step::Ends(Reading::Refused)
            } else if data[place] == 0 {
                let kind = data[place + 1] & 0x3f;
                if 0x14 <= kind <= 0x1e {
                    Step::Ends(Reading::Stuck)
                } else if kind == 0 || 0x30 <= kind <= 0x34 || kind == 0x36 || kind == 0x37
                    || kind == 0x3a || kind == 0x3b {
                    skip(data, place + 2, 1)
                } else {
                    Step::Next(place + 2)
                }
            } else if data[place + 1] == 0xf0 {
                if !softbank {
                    Step::Next(behind_mark(data, place + 2))
                } else if place + 2 >= data.len() {
                    Step::Ends(Reading::Refused)
                } else {
                    skip(data, place + 3, data[place + 2] as int)
                }
            } else if data[place + 1] == 0 {
                Step::Next(place + 2)
            } else {
                Step::Ends(Reading::Stuck)
            },
        }
    }
}

/// One event of a PCM audio sequence.  The reader panics on 0xff in front of
/// anything but an exclusive message or zero, and on events that it does not know.
pub open spec fn pcm_step(data: Seq<u8>, at: int) -> Step {
    if at + 4 == data.len() && zeros(data, at) {
        Step::Ends(Reading::Whole)
    } else {
        match number(data, at, 0) {
            None => Step::Ends(Reading::Refused),
            Some((_, place)) => if place >= data.len() {
                Step::Ends(Reading::Refused)
            } else if 1 <= data[place] <= 0xfe {
                match number(data, place + 1, 0) {
                    None => Step::Ends(Reading::Refused),
                    Some((_, end)) => Step::Next(end),
                }
            } else if place + 1 >= data.len() {
                Step::Ends(Reading::Refused)
            } else if data[place] == 0xff {
                if data[place + 1] == 0xf0 {
                    if place + 2 >= data.len() {
                        Step::Ends(Reading::Refused)
                    } else {
                        skip(data, place + 3, data[place + 2] as int)
                    }
                } else if data[place + 1] == 0 {
                    Step::Next(place + 2)
                } else {
                    Step::Ends(Reading::Stuck)
                }
            } else {
                let kind = data[place + 1] & 0x3f;
                if kind <= 0x0e || 0x11 <= kind <= 0x1e {
                    Step::Next(place + 2)
                } else if kind == 0x34 || kind == 0x36 || kind == 0x37 || kind == 0x3a || kind
                    == 0x3b {
                    skip(data, place + 2, 1)
                } else {
                    Step::Ends(Reading::Stuck)
                }
            },
        }
    }
}

/// One event of a sequence.
pub open spec fn sequence_step(notation: Notation, data: Seq<u8>, at: int) -> Step {
    match notation {
        Notation::Mobile => mobile_step(data, at),
        Notation::Handy => handy_step(data, at, false),
        Notation::Softbank => handy_step(data, at, true),
        Notation::PcmAudio => pcm_step(data, at),
    }
}

/// A number ends behind its place.
pub proof fn lemma_number_end(data: Seq<u8>, at: int, value: u32)
    ensures
        number(data, at, value) matches Some((_, end)) ==> at < end <= data.len(),
    decreases data.len() - at,
{
    if 0 <= at < data.len() && data[at] >= 0x80 {
        lemma_number_end(data, at + 1, (value << 7) | (data[at] & 0x7f) as u32);
    }
}

/// The place behind a mark lies behind its place.
pub proof fn lemma_behind_mark(data: Seq<u8>, at: int)
    requires
        0 <= at <= data.len(),
    ensures
        at <= behind_mark(data, at) <= data.len(),
    decreases data.len() - at,
{
    if at < data.len() && data[at] != 0xf7 {
        lemma_behind_mark(data, at + 1);
    }
}

/// A step leads onward.
pub proof fn lemma_sequence_step(notation: Notation, data: Seq<u8>, at: int)
    requires
        0 <= at,
    ensures
        sequence_step(notation, data, at) matches Step::Next(next) ==> at < next <= data.len(),
{
    lemma_number_end(data, at, 0);
    if let Some((_, place)) = number(data, at, 0) {
        lemma_number_end(data, place + 1, 0);
        lemma_number_end(data, place + 2, 0);
        lemma_number_end(data, place + 3, 0);
    }
    if let Some(place) = short_number(data, at) {
        if place + 2 <= data.len() {
            lemma_behind_mark(data, place + 2);
        }
    }
}

/// How the reader ends on a sequence, from `at` on.
pub open spec fn sequence_reading(notation: Notation, data: Seq<u8>, at: int) -> Reading
    decreases data.len() - at,
{
    if at < 0 {
        Reading::Refused
    } else {
        proof {
            lemma_sequence_step(notation, data, at);
        }
        match sequence_step(notation, data, at) {
            Step::Ends(reading) => reading,
            Step::Next(next) => sequence_reading(notation, data, next),
        }
    }
}

/// How the reader ends on a compressed sequence: the length of the text, then
/// the coded text.  It panics where no vector can be as long as the text is to be.
pub open spec fn compressed_reading(data: Seq<u8>) -> Reading {
    if data.len() < 4 {
        Reading::Refused
    } else {
        let code = data.subrange(4, data.len() as int);
        let length = be_u32(data, 0);
        if tree_at(code, 0, 0) is None {
            Reading::Refused
        } else if length > isize::MAX {
            Reading::Stuck
        } else {
            match decoded_text(code, length as nat) {
                None => Reading::Refused,
                Some(text) => sequence_reading(Notation::Mobile, text, 0),
            }
        }
    }
}

/// How the reader ends on a text of one byte over and over: a low byte is a status
/// that it never gets past, a high one belongs to a number without an end.
proof fn lemma_repeated_byte(byte: u8, count: nat)
    ensures
        sequence_reading(Notation::Mobile, repeated(byte, count), 0) == (if byte < 0x80 && count
            >= 2 {
            Reading::Stuck
        } else {
            Reading::Refused
        }),
{
    if byte >= 0x80 {
        lemma_endless_number(byte, count, 0, 0);
    }
}

proof fn lemma_endless_number(byte: u8, count: nat, at: int, value: u32)
    requires
        byte >= 0x80,
    ensures
        number(repeated(byte, count), at, value) is None,
    decreases count - at,
{
    if 0 <= at < count {
        lemma_endless_number(byte, count, at + 1, (value << 7) | (byte & 0x7f) as u32);
    }
}

/// The big-endian number in the four bytes from `at` on.
pub open spec fn be_u32(data: Seq<u8>, at: int) -> u32 {
    (data[at] * 0x100_0000 + data[at + 1] * 0x1_0000 + data[at + 2] * 0x100 + data[at + 3]) as u32
}

/// The place behind the chunk at `at`: four bytes of tag, four of length, and
/// the chunk's bytes.  None where there is no whole chunk.
pub open spec fn chunk_end(data: Seq<u8>, at: int) -> Option<int> {
    if at + 8 > data.len() {
        None
    } else if at + 8 + be_u32(data, at + 4) > data.len() {
        None
    } else {
        Some(at + 8 + be_u32(data, at + 4))
    }
}

/// Whether the tag at `at` starts with three given bytes.
pub open spec fn tag_starts(data: Seq<u8>, at: int, a: u8, b: u8, c: u8) -> bool {
    data[at] == a && data[at + 1] == b && data[at + 2] == c
}

/// Whether a tag consists of four given bytes.
pub open spec fn tag_is(data: Seq<u8>, at: int, a: u8, b: u8, c: u8, d: u8) -> bool {
    tag_starts(data, at, a, b, c) && data[at + 3] == d
}

/// How the reader ends on a wave of a score track.  It panics on encodings and
/// sample widths that it does not know.
pub open spec fn wave_reading(data: Seq<u8>) -> Reading {
    if data.len() < 3 {
        Reading::Refused
    } else if (data[0] & 0x70) >> 4 > 2 || data[0] & 0x0f > 3 {
        Reading::Stuck
    } else {
        Reading::Whole
    }
}

/// How the reader ends on a list of chunks where no whole chunk follows.
pub open spec fn list_end(data: Seq<u8>, at: int) -> Reading {
    if at == data.len() {
        Reading::Whole
    } else {
        Reading::Refused
    }
}

/// How the reader ends on a wave table, from `at` on.
pub open spec fn wave_table_reading(data: Seq<u8>, at: int) -> Reading
    decreases data.len() - at,
{
    match chunk_end(data, at) {
        None => list_end(data, at),
        Some(end) => if !tag_starts(data, at, 0x4d, 0x77, 0x61) {
            Reading::Refused
        } else {
            match wave_reading(data.subrange(at + 8, end)) {
                Reading::Whole => wave_table_reading(data, end),
                reading => reading,
            }
        },
    }
}

/// How the reader ends on a chunk of a score track, whose tag is at `at`.
pub open spec fn score_chunk_reading(
    format_type: FormatType,
    data: Seq<u8>,
    at: int,
    content: Seq<u8>,
) -> Reading {
    if tag_is(data, at, 0x4d, 0x74, 0x73, 0x71) {
        match format_type {
            FormatType::MobileStandardNoCompress => sequence_reading(Notation::Mobile, content, 0),
            FormatType::MobileStandardCompress => compressed_reading(content),
            FormatType::HandyPhoneStandard => sequence_reading(Notation::Handy, content, 0),
        }
    } else if tag_is(data, at, 0x53, 0x45, 0x51, 0x55) {
        sequence_reading(Notation::Softbank, content, 0)
    } else if tag_is(data, at, 0x4d, 0x74, 0x73, 0x70) {
        wave_table_reading(content, 0)
    } else {
        Reading::Whole
    }
}

/// How the reader ends on the chunks of a score track, from `at` on.
pub open spec fn score_chunks_reading(format_type: FormatType, data: Seq<u8>, at: int) -> Reading
    decreases data.len() - at,
{
    match chunk_end(data, at) {
        None => list_end(data, at),
        Some(end) => match score_chunk_reading(format_type, data, at, data.subrange(at + 8, end)) {
            Reading::Whole => score_chunks_reading(format_type, data, end),
            reading => reading,
        },
    }
}

/// The time bases that the reader knows.
pub open spec fn known_timebase(code: u8) -> bool {
    code <= 3 || 0x10 <= code <= 0x13
}

/// How the reader ends on a score track.  It panics on time bases that it does
/// not know.
pub open spec fn score_reading(data: Seq<u8>) -> Reading {
    if data.len() == 0 || data[0] > 2 || data.len() < 3 {
        Reading::Refused
    } else if !known_timebase(data[2]) {
        Reading::Stuck
    } else if data.len() < 4 {
        Reading::Refused
    } else if !known_timebase(data[3]) {
        Reading::Stuck
    } else if data[0] == 0 {
        if data.len() < 6 {
            Reading::Refused
        } else {
            score_chunks_reading(FormatType::HandyPhoneStandard, data, 6)
        }
    } else if data.len() < 20 {
        Reading::Refused
    } else if data[0] == 1 {
        score_chunks_reading(FormatType::MobileStandardCompress, data, 20)
    } else {
        score_chunks_reading(FormatType::MobileStandardNoCompress, data, 20)
    }
}

/// How the reader ends on the chunks of a PCM audio track, from `at` on.
pub open spec fn pcm_chunks_reading(data: Seq<u8>, at: int) -> Reading
    decreases data.len() - at,
{
    match chunk_end(data, at) {
        None => list_end(data, at),
        Some(end) => if !tag_is(data, at, 0x41, 0x74, 0x73, 0x71) {
            pcm_chunks_reading(data, end)
        } else {
            match sequence_reading(Notation::PcmAudio, data.subrange(at + 8, end), 0) {
                Reading::Whole => pcm_chunks_reading(data, end),
                reading => reading,
            }
        },
    }
}

/// Whether the reader knows all that the header of a PCM audio track says:
/// encoding, sampling rate, sample width and time bases.
pub open spec fn known_pcm_header(data: Seq<u8>) -> bool {
    &&& (data[2] & 0x70) >> 4 <= 3
    &&& data[2] & 0x0f <= 4
    &&& data[3] >> 4 <= 3
    &&& known_timebase(data[4])
    &&& known_timebase(data[5])
}

/// How the reader ends on a PCM audio track.  It looks into the header behind
/// the chunks, and panics on what it does not know there.
pub open spec fn pcm_track_reading(data: Seq<u8>) -> Reading {
    if data.len() < 6 {
        Reading::Refused
    } else {
        let chunks = pcm_chunks_reading(data, 6);
        if !known_pcm_header(data) {
            Reading::Stuck
        } else {
            chunks
        }
    }
}

/// How the reader ends on a chunk of a file, whose tag is at `at`.
pub open spec fn file_chunk_reading(data: Seq<u8>, at: int, content: Seq<u8>) -> Reading {
    if tag_is(data, at, 0x43, 0x4e, 0x54, 0x49) {
        if content.len() < 5 {
            Reading::Refused
        } else {
            Reading::Whole
        }
    } else if tag_starts(data, at, 0x4d, 0x54, 0x52) {
        score_reading(content)
    } else if tag_starts(data, at, 0x41, 0x54, 0x52) {
        pcm_track_reading(content)
    } else if tag_is(data, at, 0x53, 0x45, 0x51, 0x55) {
        sequence_reading(Notation::Softbank, content, 0)
    } else {
        Reading::Whole
    }
}

/// How the reader ends on the chunks of a file, from `at` on; they are followed
/// by a two-byte checksum.
pub open spec fn file_chunks_reading(data: Seq<u8>, at: int) -> Reading
    decreases data.len() - at,
{
    match chunk_end(data, at) {
        None => if at + 2 == data.len() {
            Reading::Whole
        } else {
            Reading::Refused
        },
        Some(end) => match file_chunk_reading(data, at, data.subrange(at + 8, end)) {
            Reading::Whole => file_chunks_reading(data, end),
            reading => reading,
        },
    }
}

/// How the reader ends on a file: the tag `MMMD`, the length of the body, and
/// the body.
pub open spec fn file_reading(raw: Seq<u8>) -> Reading {
    if raw.len() < 8 || !tag_is(raw, 0, 0x4d, 0x4d, 0x4d, 0x44) {
        Reading::Refused
    } else if 8 + be_u32(raw, 4) > raw.len() {
        Reading::Refused
    } else {
        file_chunks_reading(raw.subrange(8, 8 + be_u32(raw, 4)), 0)
    }
}

/// A step of the reader.
enum Walk {
    Next(usize),
    Ends(Reading),
}

impl View for Walk {
    type V = Step;

    closed spec fn view(&self) -> Step {
        match *self {
            Walk::Next(next) => Step::Next(next as int),
            Walk::Ends(reading) => Step::Ends(reading),
        }
    }
}

fn read_number(data: &[u8], at: usize) -> (found: Option<(u32, usize)>)
    ensures
        match number(data@, at as int, 0) {
            None => found is None,
            Some((value, end)) => found is Some && found.unwrap().0 == value && found.unwrap().1
                == end && at < end <= data.len(),
        },
{
    let mut value: u32 = 0;
    let mut place = at;
    while place < data.len()
        invariant
            at <= place,
            number(data@, at as int, 0) == number(data@, place as int, value),
        decreases data.len() - place,
    {
        let byte = data[place];
        value = (value << 7) | (byte & 0x7f) as u32;
        place += 1;
        if byte < 0x80 {
            return Some((value, place));
        }
    }
    None
}

fn skip_short_number(data: &[u8], at: usize) -> (found: Option<usize>)
    ensures
        match short_number(data@, at as int) {
            None => found is None,
            Some(end) => found is Some && found.unwrap() == end && at < end <= data.len(),
        },
{
    if at >= data.len() {
        None
    } else if data[at] < 0x80 {
        Some(at + 1)
    } else if data.len() - at < 2 {
        None
    } else {
        Some(at + 2)
    }
}

fn skip_bytes(data: &[u8], at: usize, count: usize) -> (walk: Walk)
    requires
        at <= data.len(),
    ensures
        walk@ == skip(data@, at as int, count as int),
{
    if count > data.len() - at {
        Walk::Ends(Reading::Refused)
    } else {
        Walk::Next(at + count)
    }
}

fn find_behind_mark(data: &[u8], at: usize) -> (end: usize)
    requires
        at <= data.len(),
    ensures
        end == behind_mark(data@, at as int),
{
    let mut place = at;
    while place < data.len()
        invariant
            at <= place <= data.len(),
            behind_mark(data@, at as int) == behind_mark(data@, place as int),
        decreases data.len() - place,
    {
        if data[place] == 0xf7 {
            return place + 1;
        }
        place += 1;
    }
    place
}

fn has_zeros(data: &[u8], at: usize) -> (found: bool)
    requires
        at <= data.len(),
    ensures
        found == zeros(data@, at as int),
{
    data.len() - at >= 4 && data[at] == 0 && data[at + 1] == 0 && data[at + 2] == 0 && data[at + 3]
        == 0
}

fn walk_mobile(data: &[u8], at: usize) -> (walk: Walk)
    requires
        at <= data.len(),
    ensures
        walk@ == mobile_step(data@, at as int),
{
    let place = match read_number(data, at) {
        Some((_, place)) => place,
        None => return Walk::Ends(Reading::Refused),
    };
    if place >= data.len() {
        return Walk::Ends(Reading::Refused);
    }
    let status = data[place];
    let body = place + 1;
    if status < 0x80 || (0xf1 <= status && status <= 0xfe) {
        Walk::Ends(Reading::Stuck)
    } else if status < 0xa0 {
        let before_gate: usize = if status < 0x90 {
            1
        } else {
            2
        };
        if data.len() - body < before_gate {
            return Walk::Ends(Reading::Refused);
        }
        match read_number(data, body + before_gate) {
            Some((_, end)) => Walk::Next(end),
            None => Walk::Ends(Reading::Refused),
        }
    } else if status < 0xc0 || (0xe0 <= status && status <= 0xef) {
        skip_bytes(data, body, 2)
    } else if status < 0xe0 {
        skip_bytes(data, body, 1)
    } else if status == 0xf0 {
        match read_number(data, body) {
            Some((length, start)) => skip_bytes(data, start, length as usize),
            None => Walk::Ends(Reading::Refused),
        }
    } else if body >= data.len() {
        Walk::Ends(Reading::Refused)
    } else if data[body] != 0x2f {
        Walk::Next(body + 1)
    } else if data.len() - body == 2 {
        Walk::Ends(Reading::Whole)
    } else {
        Walk::Ends(Reading::Refused)
    }
}

fn walk_handy(data: &[u8], at: usize, softbank: bool) -> (walk: Walk)
    requires
        at <= data.len(),
    ensures
        walk@ == handy_step(data@, at as int, softbank),
{
    if at >= data.len() {
        return Walk::Ends(Reading::Whole);
    }
    if has_zeros(data, at) {
        return if data.len() - at == 4 {
            Walk::Ends(Reading::Whole)
        } else {
            Walk::Ends(Reading::Refused)
        };
    }
    let place = match skip_short_number(data, at) {
        Some(place) => place,
        None => return Walk::Ends(Reading::Refused),
    };
    if place >= data.len() {
        return Walk::Ends(Reading::Refused);
    }
    if 1 <= data[place] && data[place] <= 0xfe {
        return match skip_short_number(data, place + 1) {
            Some(end) => Walk::Next(end),
            None => Walk::Ends(Reading::Refused),
        };
    }
    if data.len() - place < 2 {
        return Walk::Ends(Reading::Refused);
    }
    if data[place] == 0 {
        let kind = data[place + 1] & 0x3f;
        if 0x14 <= kind && kind <= 0x1e {
            Walk::Ends(Reading::Stuck)
        } else if kind == 0 || (0x30 <= kind && kind <= 0x34) || kind == 0x36 || kind == 0x37
            || kind == 0x3a || kind == 0x3b {
            skip_bytes(data, place + 2, 1)
        } else {
            Walk::Next(place + 2)
        }
    } else if data[place + 1] == 0xf0 {
        if !softbank {
            Walk::Next(find_behind_mark(data, place + 2))
        } else if data.len() - place < 3 {
            Walk::Ends(Reading::Refused)
        } else {
            skip_bytes(data, place + 3, data[place + 2] as usize)
        }
    } else if data[place + 1] == 0 {
        Walk::Next(place + 2)
    } else {
        Walk::Ends(Reading::Stuck)
    }
}

fn walk_pcm(data: &[u8], at: usize) -> (walk: Walk)
    requires
        at <= data.len(),
    ensures
        walk@ == pcm_step(data@, at as int),
{
    if data.len() - at == 4 && has_zeros(data, at) {
        return Walk::Ends(Reading::Whole);
    }
    let place = match read_number(data, at) {
        Some((_, place)) => place,
        None => return Walk::Ends(Reading::Refused),
    };
    if place >= data.len() {
        return Walk::Ends(Reading::Refused);
    }
    if 1 <= data[place] && data[place] <= 0xfe {
        return match read_number(data, place + 1) {
            Some((_, end)) => Walk::Next(end),
            None => Walk::Ends(Reading::Refused),
        };
    }
    if data.len() - place < 2 {
        return Walk::Ends(Reading::Refused);
    }
    if data[place] == 0xff {
        if data[place + 1] == 0xf0 {
            if data.len() - place < 3 {
                Walk::Ends(Reading::Refused)
            } else {
                skip_bytes(data, place + 3, data[place + 2] as usize)
            }
        } else if data[place + 1] == 0 {
            Walk::Next(place + 2)
        } else {
            Walk::Ends(Reading::Stuck)
        }
    } else {
        let kind = data[place + 1] & 0x3f;
        if kind <= 0x0e || (0x11 <= kind && kind <= 0x1e) {
            Walk::Next(place + 2)
        } else if kind == 0x34 || kind == 0x36 || kind == 0x37 || kind == 0x3a || kind == 0x3b {
            skip_bytes(data, place + 2, 1)
        } else {
            Walk::Ends(Reading::Stuck)
        }
    }
}

fn read_sequence(notation: Notation, data: &[u8]) -> (reading: Reading)
    ensures
        reading == sequence_reading(notation, data@, 0),
{
    let mut at: usize = 0;
    loop
        invariant
            at <= data.len(),
            sequence_reading(notation, data@, 0) == sequence_reading(notation, data@, at as int),
        decreases data.len() - at,
    {
        proof {
            lemma_sequence_step(notation, data@, at as int);
        }
        let walk = match notation {
            Notation::Mobile => walk_mobile(data, at),
            Notation::Handy => walk_handy(data, at, false),
            Notation::Softbank => walk_handy(data, at, true),
            Notation::PcmAudio => walk_pcm(data, at),
        };
        match walk {
            Walk::Next(next) => {
                at = next;
            },
            Walk::Ends(reading) => {
                return reading;
            },
        }
    }
}

fn read_be_u32(data: &[u8], at: usize) -> (value: u32)
    requires
        at + 4 <= data.len(),
    ensures
        value == be_u32(data@, at as int),
{
    data[at] as u32 * 0x100_0000 + data[at + 1] as u32 * 0x1_0000 + data[at + 2] as u32 * 0x100
        + data[at + 3] as u32
}

fn find_chunk_end(data: &[u8], at: usize) -> (found: Option<usize>)
    requires
        at <= data.len(),
    ensures
        match chunk_end(data@, at as int) {
            None => found is None,
            Some(end) => found is Some && found.unwrap() == end && at + 8 <= end <= data.len(),
        },
{
    if data.len() - at < 8 {
        return None;
    }
    let length = read_be_u32(data, at + 4) as usize;
    if length > data.len() - at - 8 {
        None
    } else {
        Some(at + 8 + length)
    }
}

fn has_tag_start(data: &[u8], at: usize, a: u8, b: u8, c: u8) -> (found: bool)
    requires
        at + 4 <= data.len(),
    ensures
        found == tag_starts(data@, at as int, a, b, c),
{
    data[at] == a && data[at + 1] == b && data[at + 2] == c
}

fn has_tag(data: &[u8], at: usize, a: u8, b: u8, c: u8, d: u8) -> (found: bool)
    requires
        at + 4 <= data.len(),
    ensures
        found == tag_is(data@, at as int, a, b, c, d),
{
    has_tag_start(data, at, a, b, c) && data[at + 3] == d
}

fn read_list_end(data: &[u8], at: usize) -> (reading: Reading)
    ensures
        reading == list_end(data@, at as int),
{
    if at == data.len() {
        Reading::Whole
    } else {
        Reading::Refused
    }
}

fn read_compressed(data: &[u8]) -> (reading: Reading)
    ensures
        reading == compressed_reading(data@),
{
    if data.len() < 4 {
        return Reading::Refused;
    }
    let length = read_be_u32(data, 0) as usize;
    let code = slice_subrange(data, 4, data.len());
    if length > isize::MAX as usize {
        return match decode_text(code, 0) {
            Some(_) => Reading::Stuck,
            None => Reading::Refused,
        };
    }
    // A code of a single leaf spells a text of any length, so its text is not
    // written out.
    if let Some(byte) = lone_byte(code) {
        proof {
            law_lone_leaves_repeat_their_byte(code@, length as nat);
            lemma_repeated_byte(byte, length as nat);
        }
        return if byte < 0x80 && length >= 2 {
            Reading::Stuck
        } else {
            Reading::Refused
        };
    }
    match decode_text(code, length) {
        Some(text) => read_sequence(Notation::Mobile, text.as_slice()),
        None => Reading::Refused,
    }
}

fn read_wave(data: &[u8]) -> (reading: Reading)
    ensures
        reading == wave_reading(data@),
{
    if data.len() < 3 {
        Reading::Refused
    } else if (data[0] & 0x70) >> 4 > 2 || data[0] & 0x0f > 3 {
        Reading::Stuck
    } else {
        Reading::Whole
    }
}

fn read_wave_table(data: &[u8]) -> (reading: Reading)
    ensures
        reading == wave_table_reading(data@, 0),
{
    let mut at: usize = 0;
    loop
        invariant
            at <= data.len(),
            wave_table_reading(data@, 0) == wave_table_reading(data@, at as int),
        decreases data.len() - at,
    {
        let end = match find_chunk_end(data, at) {
            Some(end) => end,
            None => return read_list_end(data, at),
        };
        if !has_tag_start(data, at, 0x4d, 0x77, 0x61) {
            return Reading::Refused;
        }
        match read_wave(slice_subrange(data, at + 8, end)) {
            Reading::Whole => {
                at = end;
            },
            reading => {
                return reading;
            },
        }
    }
}

fn read_score_chunk(format_type: FormatType, data: &[u8], at: usize, content: &[u8]) -> (reading:
    Reading)
    requires
        at + 4 <= data.len(),
    ensures
        reading == score_chunk_reading(format_type, data@, at as int, content@),
{
    if has_tag(data, at, 0x4d, 0x74, 0x73, 0x71) {
        match format_type {
            FormatType::MobileStandardNoCompress => read_sequence(Notation::Mobile, content),
            FormatType::MobileStandardCompress => read_compressed(content),
            FormatType::HandyPhoneStandard => read_sequence(Notation::Handy, content),
        }
    } else if has_tag(data, at, 0x53, 0x45, 0x51, 0x55) {
        read_sequence(Notation::Softbank, content)
    } else if has_tag(data, at, 0x4d, 0x74, 0x73, 0x70) {
        read_wave_table(content)
    } else {
        Reading::Whole
    }
}

fn read_score_chunks(format_type: FormatType, data: &[u8], start: usize) -> (reading: Reading)
    requires
        start <= data.len(),
    ensures
        reading == score_chunks_reading(format_type, data@, start as int),
{
    let mut at = start;
    loop
        invariant
            at <= data.len(),
            score_chunks_reading(format_type, data@, start as int) == score_chunks_reading(
                format_type,
                data@,
                at as int,
            ),
        decreases data.len() - at,
    {
        let end = match find_chunk_end(data, at) {
            Some(end) => end,
            None => return read_list_end(data, at),
        };
        match read_score_chunk(format_type, data, at, slice_subrange(data, at + 8, end)) {
            Reading::Whole => {
                at = end;
            },
            reading => {
                return reading;
            },
        }
    }
}

fn is_known_timebase(code: u8) -> (known: bool)
    ensures
        known == known_timebase(code),
{
    code <= 3 || (0x10 <= code && code <= 0x13)
}

fn read_score(data: &[u8]) -> (reading: Reading)
    ensures
        reading == score_reading(data@),
{
    if data.len() == 0 || data[0] > 2 || data.len() < 3 {
        Reading::Refused
    } else if !is_known_timebase(data[2]) {
        Reading::Stuck
    } else if data.len() < 4 {
        Reading::Refused
    } else if !is_known_timebase(data[3]) {
        Reading::Stuck
    } else if data[0] == 0 {
        if data.len() < 6 {
            Reading::Refused
        } else {
            read_score_chunks(FormatType::HandyPhoneStandard, data, 6)
        }
    } else if data.len() < 20 {
        Reading::Refused
    } else if data[0] == 1 {
        read_score_chunks(FormatType::MobileStandardCompress, data, 20)
    } else {
        read_score_chunks(FormatType::MobileStandardNoCompress, data, 20)
    }
}

fn read_pcm_chunks(data: &[u8], start: usize) -> (reading: Reading)
    requires
        start <= data.len(),
    ensures
        reading == pcm_chunks_reading(data@, start as int),
{
    let mut at = start;
    loop
        invariant
            at <= data.len(),
            pcm_chunks_reading(data@, start as int) == pcm_chunks_reading(data@, at as int),
        decreases data.len() - at,
    {
        let end = match find_chunk_end(data, at) {
            Some(end) => end,
            None => return read_list_end(data, at),
        };
        if has_tag(data, at, 0x41, 0x74, 0x73, 0x71) {
            match read_sequence(Notation::PcmAudio, slice_subrange(data, at + 8, end)) {
                Reading::Whole => {},
                reading => {
                    return reading;
                },
            }
        }
        at = end;
    }
}

fn read_pcm_track(data: &[u8]) -> (reading: Reading)
    ensures
        reading == pcm_track_reading(data@),
{
    if data.len() < 6 {
        return Reading::Refused;
    }
    let known = (data[2] & 0x70) >> 4 <= 3 && data[2] & 0x0f <= 4 && data[3] >> 4 <= 3
        && is_known_timebase(data[4]) && is_known_timebase(data[5]);
    if known {
        read_pcm_chunks(data, 6)
    } else {
        Reading::Stuck
    }
}

fn read_file_chunk(data: &[u8], at: usize, content: &[u8]) -> (reading: Reading)
    requires
        at + 4 <= data.len(),
    ensures
        reading == file_chunk_reading(data@, at as int, content@),
{
    if has_tag(data, at, 0x43, 0x4e, 0x54, 0x49) {
        if content.len() < 5 {
            Reading::Refused
        } else {
            Reading::Whole
        }
    } else if has_tag_start(data, at, 0x4d, 0x54, 0x52) {
        read_score(content)
    } else if has_tag_start(data, at, 0x41, 0x54, 0x52) {
        read_pcm_track(content)
    } else if has_tag(data, at, 0x53, 0x45, 0x51, 0x55) {
        read_sequence(Notation::Softbank, content)
    } else {
        Reading::Whole
    }
}

fn read_file_chunks(data: &[u8]) -> (reading: Reading)
    ensures
        reading == file_chunks_reading(data@, 0),
{
    let mut at: usize = 0;
    loop
        invariant
            at <= data.len(),
            file_chunks_reading(data@, 0) == file_chunks_reading(data@, at as int),
        decreases data.len() - at,
    {
        let end = match find_chunk_end(data, at) {
            Some(end) => end,
            None => {
                return if data.len() - at == 2 {
                    Reading::Whole
                } else {
                    Reading::Refused
                };
            },
        };
        match read_file_chunk(data, at, slice_subrange(data, at + 8, end)) {
            Reading::Whole => {
                at = end;
            },
            reading => {
                return reading;
            },
        }
    }
}

/// Tells how the reader ends on a file.
pub fn read_through(raw: &[u8]) -> (reading: Reading)
    ensures
        reading == file_reading(raw@),
{
    if raw.len() < 8 || !has_tag(raw, 0, 0x4d, 0x4d, 0x4d, 0x44) {
        return Reading::Refused;
    }
    let length = read_be_u32(raw, 4) as usize;
    if length > raw.len() - 8 {
        return Reading::Refused;
    }
    read_file_chunks(slice_subrange(raw, 8, 8 + length))
}

/// The lengths of Mobile Standard events behind a time of one byte: notes have a number, a
/// velocity from 0x90 on, and a gate time; controls and pitch bends have two bytes,
/// programs and 0xd0 one; nothing leads past a status below 0x80 or from 0xf1 to 0xfe.
pub proof fn law_mobile_events_have_their_length(data: Seq<u8>, at: int)
    requires
        0 <= at,
        at + 6 <= data.len(),
        data[at] < 0x80,
    ensures
        ({
            let status = data[at + 1];
            let step = sequence_step(Notation::Mobile, data, at);
            &&& 0x80 <= status <= 0x8f && data[at + 3] < 0x80 ==> step == Step::Next(at + 4)
            &&& 0x80 <= status <= 0x8f && data[at + 3] >= 0x80 && data[at + 4] < 0x80 ==> step
                == Step::Next(at + 5)
            &&& 0x90 <= status <= 0x9f && data[at + 4] < 0x80 ==> step == Step::Next(at + 5)
            &&& 0xa0 <= status <= 0xbf ==> step == Step::Next(at + 4)
            &&& 0xc0 <= status <= 0xdf ==> step == Step::Next(at + 3)
            &&& 0xe0 <= status <= 0xef ==> step == Step::Next(at + 4)
            &&& status < 0x80 || 0xf1 <= status <= 0xfe ==> step == Step::Ends(Reading::Stuck)
            &&& status == 0xff && data[at + 2] != 0x2f ==> step == Step::Next(at + 3)
            &&& status == 0xff && data[at + 2] == 0x2f ==> step == Step::Ends(Reading::Refused)
        }),
{
    reveal_with_fuel(number, 3);
}

/// A Mobile Standard sequence is taken whole exactly at its end mark, 0xff 0x2f and one
/// more byte, as its last three.
pub proof fn law_mobile_sequences_close_with_their_mark(data: Seq<u8>, at: int)
    requires
        0 <= at,
        at < data.len(),
        data[at] < 0x80,
    ensures
        sequence_step(Notation::Mobile, data, at) == Step::Ends(Reading::Whole) <==> at + 4
            == data.len() && data[at + 1] == 0xff && data[at + 2] == 0x2f,
        at + 1 == data.len() ==> sequence_step(Notation::Mobile, data, at) == Step::Ends(
            Reading::Refused,
        ),
{
    reveal_with_fuel(number, 2);
}

/// The lengths of Handy Phone and Softbank events behind a time of one byte: a note has its
/// byte and a gate time of one or two bytes.
pub proof fn law_handy_notes_have_their_length(data: Seq<u8>, at: int)
    requires
        0 <= at,
        at + 4 <= data.len(),
        data[at] < 0x80,
        1 <= data[at + 1] <= 0xfe,
    ensures
        data[at + 2] < 0x80 ==> sequence_step(Notation::Handy, data, at) == Step::Next(at + 3),
        data[at + 2] >= 0x80 ==> sequence_step(Notation::Handy, data, at) == Step::Next(at + 4),
        sequence_step(Notation::Softbank, data, at) == sequence_step(Notation::Handy, data, at),
{
}

/// Sequences of Handy Phone and Softbank tracks are taken whole at their end, and at four
/// zeros that are their last bytes.
pub proof fn law_handy_sequences_close(data: Seq<u8>, at: int)
    requires
        0 <= at <= data.len(),
    ensures
        at == data.len() ==> sequence_step(Notation::Handy, data, at) == Step::Ends(Reading::Whole),
        at + 4 == data.len() && data.skip(at) == seq![0u8, 0, 0, 0] ==> sequence_step(
            Notation::Handy,
            data,
            at,
        ) == Step::Ends(Reading::Whole),
        at + 4 < data.len() && data.subrange(at, at + 4) == seq![0u8, 0, 0, 0] ==> sequence_step(
            Notation::Handy,
            data,
            at,
        ) == Step::Ends(Reading::Refused),
{
    if at + 4 <= data.len() {
        let next = data.subrange(at, at + 4);
        assert(next[0] == data[at] && next[1] == data[at + 1] && next[2] == data[at + 2] && next[3]
            == data[at + 3]);
        if at + 4 == data.len() {
            assert(data.skip(at) =~= next);
        }
    }
}

/// A chunk: a tag of four bytes, the length in four bytes from the highest on, and the
/// content.
pub open spec fn is_chunk(bytes: Seq<u8>, tag: Seq<u8>, content: Seq<u8>) -> bool {
    &&& tag.len() == 4
    &&& bytes.len() == 8 + content.len()
    &&& bytes.take(4) == tag
    &&& content.len() == bytes[4] * 0x100_0000 + bytes[5] * 0x1_0000 + bytes[6] * 0x100 + bytes[7]
    &&& bytes.skip(8) == content
}

proof fn lemma_place_behind(prefix: Seq<u8>, data: Seq<u8>, at: int)
    requires
        0 <= at,
        at + 8 <= data.len(),
    ensures
        ({
            let all = prefix + data;
            let place = prefix.len() + at;
            &&& all[place] == data[at] && all[place + 1] == data[at + 1]
            &&& all[place + 2] == data[at + 2] && all[place + 3] == data[at + 3]
            &&& be_u32(all, place + 4) == be_u32(data, at + 4)
        }),
{
    let all = prefix + data;
    let place = prefix.len() + at;
    assert(all[place + 4] == data[at + 4] && all[place + 5] == data[at + 5]);
    assert(all[place + 6] == data[at + 6] && all[place + 7] == data[at + 7]);
}

proof fn lemma_same_tag(one: Seq<u8>, at: int, other: Seq<u8>, place: int, content: Seq<u8>)
    requires
        one[at] == other[place],
        one[at + 1] == other[place + 1],
        one[at + 2] == other[place + 2],
        one[at + 3] == other[place + 3],
    ensures
        file_chunk_reading(one, at, content) == file_chunk_reading(other, place, content),
{
}

proof fn lemma_chunks_behind(prefix: Seq<u8>, data: Seq<u8>, at: int)
    requires
        0 <= at,
    ensures
        file_chunks_reading(prefix + data, prefix.len() + at) == file_chunks_reading(data, at),
    decreases data.len() - at,
{
    let all = prefix + data;
    let place = prefix.len() + at;
    if at + 8 <= data.len() {
        lemma_place_behind(prefix, data, at);
        if let Some(end) = chunk_end(data, at) {
            let content = data.subrange(at + 8, end);
            assert(all.subrange(place + 8, prefix.len() + end) =~= content);
            lemma_same_tag(all, place, data, at, content);
            lemma_chunks_behind(prefix, data, end);
        }
    }
}

/// How a chunk of a file's body is read: content information needs five bytes, score
/// tracks, PCM audio tracks and Softbank sequences are read through, and chunks with other
/// tags are passed over, whatever they hold.
pub open spec fn read_by_tag(tag: Seq<u8>, content: Seq<u8>) -> Reading {
    if tag == seq![0x43u8, 0x4e, 0x54, 0x49] {
        if content.len() < 5 {
            Reading::Refused
        } else {
            Reading::Whole
        }
    } else if tag.take(3) == seq![0x4du8, 0x54, 0x52] {
        score_reading(content)
    } else if tag.take(3) == seq![0x41u8, 0x54, 0x52] {
        pcm_track_reading(content)
    } else if tag == seq![0x53u8, 0x45, 0x51, 0x55] {
        sequence_reading(Notation::Softbank, content, 0)
    } else {
        Reading::Whole
    }
}

proof fn lemma_letters(tag: Seq<u8>, letters: Seq<u8>)
    requires
        tag.len() == 4,
        letters.len() == 4,
    ensures
        tag == letters <==> tag[0] == letters[0] && tag[1] == letters[1] && tag[2] == letters[2]
            && tag[3] == letters[3],
        tag.take(3) == letters.take(3) <==> tag[0] == letters[0] && tag[1] == letters[1] && tag[2]
            == letters[2],
{
    if tag[0] == letters[0] && tag[1] == letters[1] && tag[2] == letters[2] {
        assert(tag.take(3) =~= letters.take(3));
        if tag[3] == letters[3] {
            assert(tag =~= letters);
        }
    }
    if tag.take(3) == letters.take(3) {
        assert(tag.take(3)[0] == tag[0] && tag.take(3)[1] == tag[1] && tag.take(3)[2] == tag[2]);
        assert(letters.take(3)[0] == letters[0] && letters.take(3)[1] == letters[1]
            && letters.take(3)[2] == letters[2]);
    }
}

proof fn lemma_read_by_tag(tag: Seq<u8>, content: Seq<u8>)
    requires
        tag.len() == 4,
    ensures
        file_chunk_reading(tag, 0, content) == read_by_tag(tag, content),
{
    lemma_letters(tag, seq![0x43u8, 0x4e, 0x54, 0x49]);
    lemma_letters(tag, seq![0x53u8, 0x45, 0x51, 0x55]);
    let score = seq![0x4du8, 0x54, 0x52, 0];
    let audio = seq![0x41u8, 0x54, 0x52, 0];
    lemma_letters(tag, score);
    lemma_letters(tag, audio);
    assert(score.take(3) =~= seq![0x4du8, 0x54, 0x52]);
    assert(audio.take(3) =~= seq![0x41u8, 0x54, 0x52]);
}

/// The first chunk of a file's body is read by its tag and content, and the rest as if it
/// came first.
pub proof fn law_chunks_are_read_one_by_one(
    chunk: Seq<u8>,
    tag: Seq<u8>,
    content: Seq<u8>,
    rest: Seq<u8>,
)
    requires
        is_chunk(chunk, tag, content),
    ensures
        file_chunks_reading(chunk + rest, 0) == (if read_by_tag(tag, content) == Reading::Whole {
            file_chunks_reading(rest, 0)
        } else {
            read_by_tag(tag, content)
        }),
{
    let data = chunk + rest;
    let start = chunk.take(4);
    assert(start[0] == data[0] && start[1] == data[1] && start[2] == data[2] && start[3]
        == data[3]);
    assert(data[4] == chunk[4] && data[5] == chunk[5] && data[6] == chunk[6] && data[7]
        == chunk[7]);
    assert(be_u32(data, 4) == content.len());
    assert(chunk_end(data, 0) == Some(chunk.len() as int));
    assert(data.subrange(8, chunk.len() as int) =~= chunk.skip(8));
    lemma_same_tag(data, 0, tag, 0, content);
    lemma_read_by_tag(tag, content);
    lemma_chunks_behind(chunk, rest, 0);
}

/// A body without chunks is two bytes of checksum.
pub proof fn law_bodies_end_with_a_checksum(body: Seq<u8>)
    requires
        body.len() < 8,
    ensures
        file_chunks_reading(body, 0) == Reading::Whole <==> body.len() == 2,
{
}

/// A file is its four letters, the length of its body in four bytes from the highest on,
/// and the body; bytes behind the body do not count.
pub proof fn law_files_are_their_body(raw: Seq<u8>, body: Seq<u8>, behind: Seq<u8>)
    requires
        raw.len() == 8 + body.len() + behind.len(),
        raw.take(4) == seq![0x4du8, 0x4d, 0x4d, 0x44],
        body.len() == raw[4] * 0x100_0000 + raw[5] * 0x1_0000 + raw[6] * 0x100 + raw[7],
        raw.subrange(8, 8 + body.len() as int) == body,
    ensures
        file_reading(raw) == file_chunks_reading(body, 0),
{
    let start = raw.take(4);
    assert(start[0] == raw[0] && start[1] == raw[1] && start[2] == raw[2] && start[3] == raw[3]);
}

/// A score track without chunks is its header: six bytes for Handy Phone tracks, twenty for
/// Mobile Standard tracks, with two time bases out of 0 to 3 and 16 to 19.
pub proof fn law_score_headers(data: Seq<u8>)
    requires
        data.len() >= 4,
        data.len() == 6 && data[0] == 0 || data.len() == 20 && (data[0] == 1 || data[0] == 2),
    ensures
        score_reading(data) == Reading::Whole <==> (data[2] <= 3 || 16 <= data[2] <= 19) && (data[3]
            <= 3 || 16 <= data[3] <= 19),
{
}

/// The lengths of PCM audio events behind a time of one byte: a wave message has its byte
/// and a gate time; short events are two bytes long, volume, pan, expression and pitch bend
/// three; an exclusive message has its length.
pub proof fn law_pcm_events_have_their_length(data: Seq<u8>, at: int)
    requires
        0 <= at,
        at + 5 <= data.len(),
        data[at] < 0x80,
    ensures
        ({
            let (first, second) = (data[at + 1], data[at + 2]);
            let step = sequence_step(Notation::PcmAudio, data, at);
            let kind = second % 64;
            &&& 1 <= first <= 0xfe && second < 0x80 ==> step == Step::Next(at + 3)
            &&& 1 <= first <= 0xfe && second >= 0x80 && data[at + 3] < 0x80 ==> step == Step::Next(
                at + 4,
            )
            &&& first == 0 && (kind <= 14 || 17 <= kind <= 30) ==> step == Step::Next(at + 3)
            &&& first == 0 && (kind == 0x34 || kind == 0x36 || kind == 0x37 || kind == 0x3a || kind
                == 0x3b) ==> step == Step::Next(at + 4)
            &&& first == 0xff && second == 0 ==> step == Step::Next(at + 3)
            &&& first == 0xff && second == 0xf0 && at + 4 + data[at + 3] <= data.len() ==> step
                == Step::Next(at + 4 + data[at + 3])
            &&& first == 0xff && second != 0 && second != 0xf0 ==> step == Step::Ends(
                Reading::Stuck,
            )
        }),
{
    reveal_with_fuel(number, 3);
    lemma_low_bits(data[at + 2]);
}

proof fn lemma_low_bits(byte: u8)
    by (bit_vector)
    ensures
        byte & 0x3f == byte % 64,
        (byte & 0x70) >> 4 == byte / 16 % 8,
        byte & 0x0f == byte % 16,
        byte >> 4 == byte / 16,
{
}

/// The lengths of short Handy Phone events behind a time of one byte: two bytes, and one
/// more for 0 and for octaves, banks, programs, modulation, volume, pan, expression and
/// pitch bend.
pub proof fn law_short_handy_events_have_their_length(data: Seq<u8>, at: int)
    requires
        0 <= at,
        at + 5 <= data.len(),
        data[at] < 0x80,
        data[at + 1] == 0,
        data[at + 2] != 0 || data[at] != 0,
    ensures
        ({
            let kind = data[at + 2] % 64;
            let step = sequence_step(Notation::Handy, data, at);
            &&& kind == 0 || 0x30 <= kind <= 0x34 || kind == 0x36 || kind == 0x37 || kind == 0x3a
                || kind == 0x3b ==> step == Step::Next(at + 4)
            &&& 1 <= kind < 0x14 ==> step == Step::Next(at + 3)
            &&& 0x14 <= kind <= 0x1e ==> step == Step::Ends(Reading::Stuck)
        }),
{
    lemma_low_bits(data[at + 2]);
}

/// A wave of a score track has a header of three bytes, with an encoding below 3 and a
/// width below 4; the header of a PCM audio track has six, with an encoding below 4, a rate
/// below 5, a width below 4 and two time bases out of 0 to 3 and 16 to 19.
pub proof fn law_wave_headers(data: Seq<u8>)
    requires
        data.len() >= 6,
    ensures
        wave_reading(data) == Reading::Whole <==> data[0] / 16 % 8 <= 2 && data[0] % 16 <= 3,
        known_pcm_header(data) <==> data[2] / 16 % 8 <= 3 && data[2] % 16 <= 4 && data[3] / 16 <= 3
            && (data[4] <= 3 || 16 <= data[4] <= 19) && (data[5] <= 3 || 16 <= data[5] <= 19),
{
    lemma_low_bits(data[0]);
    lemma_low_bits(data[2]);
    lemma_low_bits(data[3]);
}

/// A compressed sequence is the length of its text in four bytes from the highest on and
/// the coded text, and is read as its text is.
pub proof fn law_compressed_sequences_are_their_text(data: Seq<u8>, text: Seq<u8>)
    requires
        data.len() >= 4,
        text.len() == data[0] * 0x100_0000 + data[1] * 0x1_0000 + data[2] * 0x100 + data[3],
        text.len() <= isize::MAX,
        decoded_text(data.skip(4), text.len()) == Some(text),
    ensures
        compressed_reading(data) == sequence_reading(Notation::Mobile, text, 0),
{
    assert(data.subrange(4, data.len() as int) =~= data.skip(4));
}

} // verus!
