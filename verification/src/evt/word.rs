//! The words of an EVT 2.0 stream.
//!
//! Each word is 32 bits; its type tag is bits `[31:28]`.

use vstd::prelude::*;

use super::bitfield::{extract_field, lemma_field_bound, lemma_field_masks, spec_field};

verus! {

/// One decoded EVT 2.0 word.
#[derive(Debug, PartialEq, Eq, Structural)]
pub enum Word {
    /// `CD_OFF` (tag 0x0) or `CD_ON` (tag 0x1).
    Event2D { time_low: u8, polarity: u8, x: u16, y: u16 },
    /// `EVT_TIME_HIGH` (tag 0x8): timestamp bits `[33:6]`.
    TimeHigh { timestamp: u32 },
    /// `EXT_TRIGGER` (tag 0xA).
    ExtTrigger { time_low: u8, id: u8, value: u8 },
    /// `IMU_EVT` (tag 0xD).
    EventImu { data: u32 },
    /// `OTHERS` (tag 0xE): vendor extensions.
    Others { time_low: u8, class: u8, subtype: u16 },
    /// `CONTINUED` (tag 0xF): payload of a multi-word event.
    Continued { data: u32 },
}

/// The field of `width` bits at `lsb` of a 32-bit word.
pub open spec fn word_field(w: u32, lsb: u32, width: u32) -> u64 {
    spec_field(w as u64, lsb, width)
}

/// The type tag, bits `[31:28]`.
pub open spec fn word_tag(w: u32) -> u64 {
    word_field(w, 28, 4)
}

/// What a 32-bit word decodes to: `None` for the reserved tags
/// 0x2-0x7, 0x9, 0xB and 0xC.
pub open spec fn spec_word(w: u32) -> Option<Word> {
    let tag = word_tag(w);
    if tag == 0x0 || tag == 0x1 {
        Some(
            Word::Event2D {
                time_low: word_field(w, 22, 6) as u8,
                polarity: word_field(w, 28, 4) as u8,
                x: word_field(w, 11, 11) as u16,
                y: word_field(w, 0, 11) as u16,
            },
        )
    } else if tag == 0x8 {
        Some(Word::TimeHigh { timestamp: word_field(w, 0, 28) as u32 })
    } else if tag == 0xA {
        Some(
            Word::ExtTrigger {
                time_low: word_field(w, 22, 6) as u8,
                id: word_field(w, 8, 5) as u8,
                value: word_field(w, 0, 1) as u8,
            },
        )
    } else if tag == 0xD {
        Some(Word::EventImu { data: word_field(w, 0, 28) as u32 })
    } else if tag == 0xE {
        Some(
            Word::Others {
                time_low: word_field(w, 22, 6) as u8,
                class: word_field(w, 16, 1) as u8,
                subtype: word_field(w, 0, 16) as u16,
            },
        )
    } else if tag == 0xF {
        Some(Word::Continued { data: word_field(w, 0, 28) as u32 })
    } else {
        None
    }
}

/// Bounds of every field of a word, by width.
pub proof fn lemma_word_fields(w: u32)
    ensures
        word_tag(w) <= 0xF,
        word_field(w, 22, 6) <= 0x3F,
        word_field(w, 11, 11) <= 0x7FF,
        word_field(w, 0, 11) <= 0x7FF,
        word_field(w, 0, 28) <= 0x0FFF_FFFF,
        word_field(w, 8, 5) <= 0x1F,
        word_field(w, 0, 1) <= 0x1,
        word_field(w, 16, 1) <= 0x1,
        word_field(w, 0, 16) <= 0xFFFF,
{
    lemma_field_masks();
    lemma_field_bound(w as u64, 28, 4);
    lemma_field_bound(w as u64, 22, 6);
    lemma_field_bound(w as u64, 11, 11);
    lemma_field_bound(w as u64, 0, 11);
    lemma_field_bound(w as u64, 0, 28);
    lemma_field_bound(w as u64, 8, 5);
    lemma_field_bound(w as u64, 0, 1);
    lemma_field_bound(w as u64, 16, 1);
    lemma_field_bound(w as u64, 0, 16);
}

proof fn lemma_cd_fields(t: u32, tl: u32, x: u32, y: u32)
    by (bit_vector)
    requires
        t <= 1,
        tl < 64,
        x < 2048,
        y < 2048,
    ensures
        ({
            let w = (t << 28u32) | (tl << 22u32) | (x << 11u32) | y;
            &&& ((w as u64) >> 28u32) & !(0xFFFF_FFFF_FFFF_FFFFu64 << 4u32) == t as u64
            &&& ((w as u64) >> 22u32) & !(0xFFFF_FFFF_FFFF_FFFFu64 << 6u32) == tl as u64
            &&& ((w as u64) >> 11u32) & !(0xFFFF_FFFF_FFFF_FFFFu64 << 11u32) == x as u64
            &&& ((w as u64) >> 0u32) & !(0xFFFF_FFFF_FFFF_FFFFu64 << 11u32) == y as u64
        }),
{
}

proof fn lemma_time_high_fields(ts: u32)
    by (bit_vector)
    requires
        ts <= 0x0FFF_FFFF,
    ensures
        ({
            let w = (8u32 << 28u32) | ts;
            &&& ((w as u64) >> 28u32) & !(0xFFFF_FFFF_FFFF_FFFFu64 << 4u32) == 8u64
            &&& ((w as u64) >> 0u32) & !(0xFFFF_FFFF_FFFF_FFFFu64 << 28u32) == ts as u64
        }),
{
}

proof fn lemma_trigger_fields(tl: u32, id: u32, v: u32)
    by (bit_vector)
    requires
        tl < 64,
        id < 32,
        v <= 1,
    ensures
        ({
            let w = (0xAu32 << 28u32) | (tl << 22u32) | (id << 8u32) | v;
            &&& ((w as u64) >> 28u32) & !(0xFFFF_FFFF_FFFF_FFFFu64 << 4u32) == 0xAu64
            &&& ((w as u64) >> 22u32) & !(0xFFFF_FFFF_FFFF_FFFFu64 << 6u32) == tl as u64
            &&& ((w as u64) >> 8u32) & !(0xFFFF_FFFF_FFFF_FFFFu64 << 5u32) == id as u64
            &&& ((w as u64) >> 0u32) & !(0xFFFF_FFFF_FFFF_FFFFu64 << 1u32) == v as u64
        }),
{
}

/// A CD word laid out as the format describes (type `0x0` or `0x1` in
/// `[31:28]`, `ts_lo` in `[27:22]`, `x` in `[21:11]`, `y` in `[10:0]`)
/// decodes to exactly those fields, with the type as polarity.
pub proof fn lemma_cd_word_layout(polarity: u32, time_low: u32, x: u32, y: u32)
    requires
        polarity <= 1,
        time_low < 64,
        x < 2048,
        y < 2048,
    ensures
        spec_word((polarity << 28u32) | (time_low << 22u32) | (x << 11u32) | y) == Some(
            Word::Event2D {
                time_low: time_low as u8,
                polarity: polarity as u8,
                x: x as u16,
                y: y as u16,
            },
        ),
{
    lemma_cd_fields(polarity, time_low, x, y);
}

/// An `EVT_TIME_HIGH` word (type `0x8`, 28-bit timestamp) decodes to its
/// timestamp.
pub proof fn lemma_time_high_word_layout(timestamp: u32)
    requires
        timestamp <= 0x0FFF_FFFF,
    ensures
        spec_word((8u32 << 28u32) | timestamp) == Some(Word::TimeHigh { timestamp }),
{
    lemma_time_high_fields(timestamp);
}

/// An `EXT_TRIGGER` word (type `0xA`, `ts_lo` in `[27:22]`, `id` in
/// `[12:8]`, `value` in bit 0) decodes to exactly those fields.
pub proof fn lemma_trigger_word_layout(time_low: u32, id: u32, value: u32)
    requires
        time_low < 64,
        id < 32,
        value <= 1,
    ensures
        spec_word((0xAu32 << 28u32) | (time_low << 22u32) | (id << 8u32) | value) == Some(
            Word::ExtTrigger { time_low: time_low as u8, id: id as u8, value: value as u8 },
        ),
{
    lemma_trigger_fields(time_low, id, value);
}

impl Word {
    /// Decodes one word by its type tag.
    pub fn decode(word: u32) -> (res: Option<Self>)
        ensures
            res == spec_word(word),
    {
        proof {
            lemma_field_masks();
        }
        let w = word as u64;
        let tag = extract_field(w, 28, 4) as u32;
        match tag {
            0x0 | 0x1 => Some(
                Word::Event2D {
                    time_low: extract_field(w, 22, 6) as u8,
                    polarity: extract_field(w, 28, 4) as u8,
                    x: extract_field(w, 11, 11) as u16,
                    y: extract_field(w, 0, 11) as u16,
                },
            ),
            0x8 => Some(Word::TimeHigh { timestamp: extract_field(w, 0, 28) as u32 }),
            0xA => Some(
                Word::ExtTrigger {
                    time_low: extract_field(w, 22, 6) as u8,
                    id: extract_field(w, 8, 5) as u8,
                    value: extract_field(w, 0, 1) as u8,
                },
            ),
            0xD => Some(Word::EventImu { data: extract_field(w, 0, 28) as u32 }),
            0xE => Some(
                Word::Others {
                    time_low: extract_field(w, 22, 6) as u8,
                    class: extract_field(w, 16, 1) as u8,
                    subtype: extract_field(w, 0, 16) as u16,
                },
            ),
            0xF => Some(Word::Continued { data: extract_field(w, 0, 28) as u32 }),
            _ => None,
        }
    }

    /// Decodes one 32-bit word of the stream.
    pub fn from_u32(data: u32) -> (res: Option<Self>)
        ensures
            res == spec_word(data),
    {
        Self::decode(data)
    }
}

} // verus!
