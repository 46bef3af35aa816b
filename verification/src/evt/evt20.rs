//! The EVT 2.0 stream decoder.
//!
//! EVT 2.0 encodes each event as a single little-endian 32-bit word.
//! Timestamps are 34 bits wide, split between a 28-bit `EVT_TIME_HIGH` word
//! and a 6-bit field embedded in each CD / trigger word. The decoder keeps the
//! last `EVT_TIME_HIGH` value from one buffer to the next; no events are
//! emitted until the first `EVT_TIME_HIGH` word of the stream.

use vstd::prelude::*;

use super::word::{lemma_word_fields, spec_word, word_tag, Word};
use super::EvtDecoder;
use crate::events::{EventCD, ExtTrigger};

verus! {

/// The `i`-th little-endian 32-bit word of `buf`.
pub open spec fn le_word(buf: Seq<u8>, i: int) -> u32 {
    (buf[4 * i] as int + buf[4 * i + 1] as int * 0x100 + buf[4 * i + 2] as int * 0x1_0000
        + buf[4 * i + 3] as int * 0x100_0000) as u32
}

/// The full 34-bit timestamp from the last `EVT_TIME_HIGH` value and the
/// 6 low bits carried by an event word.
pub open spec fn event_time(time_high: u32, time_low: u8) -> i64 {
    (time_high as int * 64 + time_low as int) as i64
}

/// What a decoder knows after a prefix of the stream: the last
/// `EVT_TIME_HIGH` value and the events emitted so far.
pub struct DecodeState {
    pub time_high: Option<u32>,
    pub events: Seq<EventCD>,
    pub triggers: Seq<ExtTrigger>,
}

/// The state before any word of a buffer, given the `EVT_TIME_HIGH` value
/// known from before it.
pub open spec fn start_state(time_high: Option<u32>) -> DecodeState {
    DecodeState { time_high, events: Seq::empty(), triggers: Seq::empty() }
}

/// The effect of one word on the decoder's state.
pub open spec fn decode_step(s: DecodeState, w: u32) -> DecodeState {
    match spec_word(w) {
        Some(Word::TimeHigh { timestamp }) => DecodeState { time_high: Some(timestamp), ..s },
        Some(Word::Event2D { time_low, polarity, x, y }) => match s.time_high {
            Some(th) => DecodeState {
                events: s.events.push(
                    EventCD { x, y, p: polarity as i16, t: event_time(th, time_low) },
                ),
                ..s
            },
            None => s,
        },
        Some(Word::ExtTrigger { time_low, id, value }) => match s.time_high {
            Some(th) => DecodeState {
                triggers: s.triggers.push(
                    ExtTrigger { p: value as i16, c: id as i16, t: event_time(th, time_low) },
                ),
                ..s
            },
            None => s,
        },
        _ => s,
    }
}

/// The state after the first `n` words of `buf`, starting from the
/// `EVT_TIME_HIGH` value `start`.
pub open spec fn decode_prefix(start: Option<u32>, buf: Seq<u8>, n: nat) -> DecodeState
    decreases n,
{
    if n == 0 {
        start_state(start)
    } else {
        decode_step(decode_prefix(start, buf, (n - 1) as nat), le_word(buf, n - 1))
    }
}

/// The state after every whole word of `buf`, starting from the
/// `EVT_TIME_HIGH` value `start`; a trailing partial word is ignored.
pub open spec fn decode_from(start: Option<u32>, buf: Seq<u8>) -> DecodeState {
    decode_prefix(start, buf, buf.len() / 4)
}

/// Decoding looks at whole words only: two buffers whose first `n` words
/// agree have the same state after those words.
pub proof fn lemma_words_agree(start: Option<u32>, a: Seq<u8>, b: Seq<u8>, n: nat)
    requires
        forall|i: int| 0 <= i < n ==> le_word(a, i) == le_word(b, i),
    ensures
        decode_prefix(start, a, n) == decode_prefix(start, b, n),
    decreases n,
{
    if n > 0 {
        lemma_words_agree(start, a, b, (n - 1) as nat);
    }
}

/// Bytes after the last whole word are ignored: appending fewer than four
/// bytes to a buffer of whole words does not change what it decodes to.
pub proof fn lemma_trailing_bytes_ignored(start: Option<u32>, buf: Seq<u8>, extra: Seq<u8>)
    requires
        buf.len() % 4 == 0,
        extra.len() < 4,
    ensures
        decode_from(start, buf + extra) == decode_from(start, buf),
{
    let whole = buf + extra;
    assert(whole.len() / 4 == buf.len() / 4);
    assert forall|i: int| 0 <= i < buf.len() / 4 implies le_word(whole, i) == le_word(buf, i) by {
        assert(whole[4 * i] == buf[4 * i]);
        assert(whole[4 * i + 1] == buf[4 * i + 1]);
        assert(whole[4 * i + 2] == buf[4 * i + 2]);
        assert(whole[4 * i + 3] == buf[4 * i + 3]);
    }
    lemma_words_agree(start, whole, buf, buf.len() / 4);
}

/// A buffer in which no whole word is an `EVT_TIME_HIGH` word leaves the
/// known `EVT_TIME_HIGH` value as it was; when none was known, it yields no
/// events and no triggers.
pub proof fn lemma_no_time_high(start: Option<u32>, buf: Seq<u8>)
    requires
        forall|i: int| 0 <= i < buf.len() / 4 ==> word_tag(#[trigger] le_word(buf, i)) != 0x8,
    ensures
        decode_from(start, buf).time_high == start,
        start is None ==> decode_from(start, buf).events.len() == 0,
        start is None ==> decode_from(start, buf).triggers.len() == 0,
{
    lemma_no_time_high_prefix(start, buf, buf.len() / 4);
}

proof fn lemma_no_time_high_prefix(start: Option<u32>, buf: Seq<u8>, n: nat)
    requires
        forall|i: int| 0 <= i < n ==> word_tag(#[trigger] le_word(buf, i)) != 0x8,
    ensures
        decode_prefix(start, buf, n).time_high == start,
        start is None ==> decode_prefix(start, buf, n).events.len() == 0,
        start is None ==> decode_prefix(start, buf, n).triggers.len() == 0,
    decreases n,
{
    if n > 0 {
        lemma_no_time_high_prefix(start, buf, (n - 1) as nat);
        assert(word_tag(le_word(buf, n - 1)) != 0x8);
    }
}

/// The `EVT_TIME_HIGH` value in force before word `i` of `buf`: that of the
/// last `EVT_TIME_HIGH` word among the first `i` words, or `start` where
/// there is none.
pub open spec fn time_high_before(start: Option<u32>, buf: Seq<u8>, i: int) -> Option<u32>
    decreases i,
{
    if i <= 0 {
        start
    } else {
        match spec_word(le_word(buf, i - 1)) {
            Some(Word::TimeHigh { timestamp }) => Some(timestamp),
            _ => time_high_before(start, buf, i - 1),
        }
    }
}

/// The CD event that word `i` of `buf` gives: a CD word with an
/// `EVT_TIME_HIGH` value in force before it, stamped with that value above
/// its 6 low bits.
pub open spec fn cd_event_at(start: Option<u32>, buf: Seq<u8>, i: int) -> Option<EventCD> {
    match spec_word(le_word(buf, i)) {
        Some(Word::Event2D { time_low, polarity, x, y }) => match time_high_before(start, buf, i) {
            Some(th) => Some(EventCD { x, y, p: polarity as i16, t: event_time(th, time_low) }),
            None => None,
        },
        _ => None,
    }
}

/// The trigger that word `i` of `buf` gives: an `EXT_TRIGGER` word with an
/// `EVT_TIME_HIGH` value in force before it, stamped with that value above
/// its 6 low bits.
pub open spec fn trigger_at(start: Option<u32>, buf: Seq<u8>, i: int) -> Option<ExtTrigger> {
    match spec_word(le_word(buf, i)) {
        Some(Word::ExtTrigger { time_low, id, value }) => match time_high_before(start, buf, i) {
            Some(th) => Some(ExtTrigger { p: value as i16, c: id as i16, t: event_time(th, time_low) }),
            None => None,
        },
        _ => None,
    }
}

/// The indices of the first `n` words.
pub open spec fn word_indices(n: nat) -> Seq<int> {
    Seq::new(n, |i: int| i)
}

/// The CD event of each word, by index.
pub open spec fn cd_events_of(start: Option<u32>, buf: Seq<u8>) -> spec_fn(int) -> Option<EventCD> {
    |i: int| cd_event_at(start, buf, i)
}

/// The trigger of each word, by index.
pub open spec fn triggers_of(start: Option<u32>, buf: Seq<u8>) -> spec_fn(int) -> Option<ExtTrigger> {
    |i: int| trigger_at(start, buf, i)
}

proof fn lemma_prefix_by_word(start: Option<u32>, buf: Seq<u8>, n: nat)
    ensures
        decode_prefix(start, buf, n).time_high == time_high_before(start, buf, n as int),
        decode_prefix(start, buf, n).events == word_indices(n).filter_map(cd_events_of(start, buf)),
        decode_prefix(start, buf, n).triggers == word_indices(n).filter_map(triggers_of(start, buf)),
    decreases n,
{
    if n > 0 {
        let m = (n - 1) as nat;
        lemma_prefix_by_word(start, buf, m);
        assert(word_indices(n).drop_last() =~= word_indices(m));
        assert(word_indices(n).last() == m);
    }
}

/// What decoding gives, word by word: the events are, in word order, the CD
/// words that have an `EVT_TIME_HIGH` value in force before them (the last
/// `EVT_TIME_HIGH` word before them, or `start`), each stamped with that
/// value; the triggers likewise from the `EXT_TRIGGER` words; every other
/// word gives nothing; and the decoder is left with the value in force after
/// the last whole word.
pub proof fn lemma_decode_word_by_word(start: Option<u32>, buf: Seq<u8>)
    ensures
        decode_from(start, buf).events == word_indices(buf.len() / 4).filter_map(
            cd_events_of(start, buf),
        ),
        decode_from(start, buf).triggers == word_indices(buf.len() / 4).filter_map(
            triggers_of(start, buf),
        ),
        decode_from(start, buf).time_high == time_high_before(start, buf, (buf.len() / 4) as int),
{
    lemma_prefix_by_word(start, buf, buf.len() / 4);
}

/// Every decoded value lies in the range of its encoding: coordinates below
/// 2048, polarities and trigger values 0 or 1, channels below 32, timestamps
/// in `[0, 2^34)`, and the stored `EVT_TIME_HIGH` value in 28 bits. At most
/// one event or trigger comes from each word.
pub proof fn lemma_decoded_ranges(start: Option<u32>, buf: Seq<u8>)
    requires
        start matches Some(th) ==> th <= 0x0FFF_FFFF,
    ensures
        decode_from(start, buf).time_high matches Some(th) ==> th <= 0x0FFF_FFFF,
        forall|i: int|
            0 <= i < decode_from(start, buf).events.len() ==> {
                let e = #[trigger] decode_from(start, buf).events[i];
                &&& e.x < 2048
                &&& e.y < 2048
                &&& e.p == 0 || e.p == 1
                &&& 0 <= e.t < 0x4_0000_0000
            },
        forall|i: int|
            0 <= i < decode_from(start, buf).triggers.len() ==> {
                let g = #[trigger] decode_from(start, buf).triggers[i];
                &&& g.p == 0 || g.p == 1
                &&& 0 <= g.c < 32
                &&& 0 <= g.t < 0x4_0000_0000
            },
        decode_from(start, buf).events.len() + decode_from(start, buf).triggers.len() <= buf.len()
            / 4,
{
    lemma_ranges_prefix(start, buf, buf.len() / 4);
}

proof fn lemma_ranges_prefix(start: Option<u32>, buf: Seq<u8>, n: nat)
    requires
        start matches Some(th) ==> th <= 0x0FFF_FFFF,
    ensures
        decode_prefix(start, buf, n).time_high matches Some(th) ==> th <= 0x0FFF_FFFF,
        forall|i: int|
            0 <= i < decode_prefix(start, buf, n).events.len() ==> {
                let e = #[trigger] decode_prefix(start, buf, n).events[i];
                &&& e.x < 2048
                &&& e.y < 2048
                &&& e.p == 0 || e.p == 1
                &&& 0 <= e.t < 0x4_0000_0000
            },
        forall|i: int|
            0 <= i < decode_prefix(start, buf, n).triggers.len() ==> {
                let g = #[trigger] decode_prefix(start, buf, n).triggers[i];
                &&& g.p == 0 || g.p == 1
                &&& 0 <= g.c < 32
                &&& 0 <= g.t < 0x4_0000_0000
            },
        decode_prefix(start, buf, n).events.len() + decode_prefix(start, buf, n).triggers.len()
            <= n,
    decreases n,
{
    if n > 0 {
        lemma_ranges_prefix(start, buf, (n - 1) as nat);
        lemma_word_fields(le_word(buf, n - 1));
    }
}

/// The state of decoding `a` and then `b`: the events of both, in order,
/// and the `EVT_TIME_HIGH` value after `b`.
pub open spec fn then_state(sa: DecodeState, sb: DecodeState) -> DecodeState {
    DecodeState {
        time_high: sb.time_high,
        events: sa.events + sb.events,
        triggers: sa.triggers + sb.triggers,
    }
}

/// Splitting a stream at any whole-word boundary and decoding the two parts
/// one after the other, the second from the `EVT_TIME_HIGH` value the first
/// left, yields the events, triggers and final `EVT_TIME_HIGH` value of
/// decoding the whole stream.
pub proof fn lemma_split(start: Option<u32>, a: Seq<u8>, b: Seq<u8>)
    requires
        a.len() % 4 == 0,
    ensures
        decode_from(start, a + b) == then_state(
            decode_from(start, a),
            decode_from(decode_from(start, a).time_high, b),
        ),
{
    let ab = a + b;
    let na = a.len() / 4;
    assert(ab.len() / 4 == na + b.len() / 4);
    assert forall|i: int| 0 <= i < na implies le_word(ab, i) == le_word(a, i) by {
        assert(ab[4 * i] == a[4 * i]);
        assert(ab[4 * i + 1] == a[4 * i + 1]);
        assert(ab[4 * i + 2] == a[4 * i + 2]);
        assert(ab[4 * i + 3] == a[4 * i + 3]);
    }
    assert forall|i: int| 0 <= i < b.len() / 4 implies le_word(ab, na + i) == le_word(b, i) by {
        assert(ab[4 * (na + i)] == b[4 * i]);
        assert(ab[4 * (na + i) + 1] == b[4 * i + 1]);
        assert(ab[4 * (na + i) + 2] == b[4 * i + 2]);
        assert(ab[4 * (na + i) + 3] == b[4 * i + 3]);
    }
    lemma_words_agree(start, ab, a, na);
    lemma_split_prefix(start, a, b, (b.len() / 4) as nat);
}

proof fn lemma_split_prefix(start: Option<u32>, a: Seq<u8>, b: Seq<u8>, k: nat)
    requires
        a.len() % 4 == 0,
        k <= b.len() / 4,
        decode_prefix(start, a + b, a.len() / 4) == decode_prefix(start, a, a.len() / 4),
        forall|i: int|
            0 <= i < b.len() / 4 ==> le_word(a + b, a.len() / 4 + i) == #[trigger] le_word(b, i),
    ensures
        decode_prefix(start, a + b, (a.len() / 4 + k) as nat) == then_state(
            decode_prefix(start, a, a.len() / 4),
            decode_prefix(decode_prefix(start, a, a.len() / 4).time_high, b, k),
        ),
    decreases k,
{
    let na = a.len() / 4;
    let sa = decode_prefix(start, a, na);
    if k == 0 {
        assert(sa.events + Seq::<EventCD>::empty() =~= sa.events);
        assert(sa.triggers + Seq::<ExtTrigger>::empty() =~= sa.triggers);
    } else {
        lemma_split_prefix(start, a, b, (k - 1) as nat);
        let w = le_word(b, k - 1);
        assert(le_word(a + b, na + (k - 1)) == w);
        let prev_b = decode_prefix(sa.time_high, b, (k - 1) as nat);
        match spec_word(w) {
            Some(Word::Event2D { time_low, polarity, x, y }) => {
                if let Some(th) = prev_b.time_high {
                    let e = EventCD { x, y, p: polarity as i16, t: event_time(th, time_low) };
                    assert((sa.events + prev_b.events).push(e) =~= sa.events + prev_b.events.push(e));
                }
            },
            Some(Word::ExtTrigger { time_low, id, value }) => {
                if let Some(th) = prev_b.time_high {
                    let g = ExtTrigger { p: value as i16, c: id as i16, t: event_time(th, time_low) };
                    assert((sa.triggers + prev_b.triggers).push(g) =~= sa.triggers
                        + prev_b.triggers.push(g));
                }
            },
            _ => {},
        }
    }
}

proof fn lemma_start_forgotten(x: Option<u32>, y: Option<u32>, b: Seq<u8>, k: nat)
    requires
        1 <= k,
        word_tag(le_word(b, 0)) == 0x8,
    ensures
        decode_prefix(x, b, k) == decode_prefix(y, b, k),
    decreases k,
{
    if k > 1 {
        lemma_start_forgotten(x, y, b, (k - 1) as nat);
    } else {
        assert(decode_prefix(x, b, 0) == start_state(x));
        assert(decode_prefix(y, b, 0) == start_state(y));
        assert(spec_word(le_word(b, 0)) is Some);
    }
}

/// A buffer that starts with an `EVT_TIME_HIGH` word decodes the same
/// whatever `EVT_TIME_HIGH` value was known before it.
pub proof fn lemma_time_high_first(x: Option<u32>, y: Option<u32>, b: Seq<u8>)
    requires
        b.len() >= 4,
        word_tag(le_word(b, 0)) == 0x8,
    ensures
        decode_from(x, b) == decode_from(y, b),
{
    lemma_start_forgotten(x, y, b, b.len() / 4);
}

/// Words before the first `EVT_TIME_HIGH` word of a stream contribute
/// nothing: a stream of whole words without one, followed by a stream that
/// starts with one, decodes exactly as that second stream does.
pub proof fn lemma_events_start_at_first_time_high(a: Seq<u8>, b: Seq<u8>)
    requires
        a.len() % 4 == 0,
        forall|i: int| 0 <= i < a.len() / 4 ==> word_tag(#[trigger] le_word(a, i)) != 0x8,
        b.len() >= 4,
        word_tag(le_word(b, 0)) == 0x8,
    ensures
        decode_from(None, a + b) == decode_from(None, b),
{
    lemma_no_time_high(None, a);
    lemma_split(None, a, b);
    lemma_time_high_first(decode_from(None, a).time_high, None, b);
    assert(decode_from(None, a).events + decode_from(None, b).events =~= decode_from(
        None,
        b,
    ).events);
    assert(decode_from(None, a).triggers + decode_from(None, b).triggers =~= decode_from(
        None,
        b,
    ).triggers);
}

/// Stateful decoder for the EVT 2.0 event stream format.
#[derive(Debug)]
pub struct Evt20Decoder {
    /// Upper 28 bits of the current timestamp, set by `EVT_TIME_HIGH`;
    /// `None` until the first `EVT_TIME_HIGH` is received.
    time_high: Option<u32>,
}

proof fn lemma_le_word(b0: u8, b1: u8, b2: u8, b3: u8)
    by (bit_vector)
    ensures
        (b0 as u32) | ((b1 as u32) << 8) | ((b2 as u32) << 16) | ((b3 as u32) << 24) == (b0 as int
            + b1 as int * 0x100 + b2 as int * 0x1_0000 + b3 as int * 0x100_0000) as u32,
{
}

proof fn lemma_time_bits(th: u32, tl: u8)
    by (bit_vector)
    requires
        th <= 0x0FFF_FFFF,
        tl < 64,
    ensures
        ((th as i64) << 6) | (tl as i64) == th as i64 * 64 + tl as i64,
        (((th as i64) << 6) | (tl as i64)) >> 6 == th as i64,
        (((th as i64) << 6) | (tl as i64)) & 0x3F == tl as i64,
        0 <= ((th as i64) << 6) | (tl as i64) < 0x4_0000_0000,
{
}

/// An event's 34-bit timestamp holds its `EVT_TIME_HIGH` value in bits
/// `[33:6]` and its 6 low bits below them: shifting right by 6 gives the
/// `EVT_TIME_HIGH` value back, the low 6 bits give `time_low`, and the
/// timestamp lies in `[0, 2^34)`.
pub proof fn lemma_event_time_bits(time_high: u32, time_low: u8)
    requires
        time_high <= 0x0FFF_FFFF,
        time_low < 64,
    ensures
        event_time(time_high, time_low) >> 6 == time_high as i64,
        event_time(time_high, time_low) & 0x3F == time_low as i64,
        0 <= event_time(time_high, time_low) < 0x4_0000_0000,
{
    lemma_time_bits(time_high, time_low);
}

impl Evt20Decoder {
    /// A stored `EVT_TIME_HIGH` value fits in its 28 bits.
    #[verifier::type_invariant]
    spec fn time_high_fits(self) -> bool {
        self.time_high matches Some(th) ==> th <= 0x0FFF_FFFF
    }

    /// The last `EVT_TIME_HIGH` value this decoder has seen.
    pub closed spec fn time_high(&self) -> Option<u32> {
        self.time_high
    }

    /// A decoder that has not seen any `EVT_TIME_HIGH`.
    pub fn new() -> (d: Self)
        ensures
            d.time_high() is None,
    {
        Self { time_high: None }
    }

    /// The full timestamp of an event word carrying `time_low`: the last
    /// `EVT_TIME_HIGH` value (0 if none) above the 6 low bits.
    pub fn full_timestamp(&self, time_low: u8) -> (t: i64)
        ensures
            t == ((self.time_high().unwrap_or(0) as i64) << 6) | (time_low as i64),
            time_low < 64 ==> {
                &&& t == self.time_high().unwrap_or(0) as int * 64 + time_low as int
                &&& t >> 6 == self.time_high().unwrap_or(0) as i64
                &&& t & 0x3F == time_low as i64
                &&& 0 <= t < 0x4_0000_0000
            },
    {
        proof {
            use_type_invariant(self);
        }
        let th = self.time_high.unwrap_or(0);
        proof {
            if time_low < 64 {
                lemma_time_bits(th, time_low);
            }
        }
        ((th as i64) << 6) | (time_low as i64)
    }
}

impl EvtDecoder for Evt20Decoder {
    /// Decodes every whole word of `buf`, starting from the `EVT_TIME_HIGH`
    /// value left by the previous buffer, and keeps the last one for the next.
    fn decode(&mut self, buf: &[u8]) -> (res: (Vec<EventCD>, Vec<ExtTrigger>))
        ensures
            res.0@ == decode_from(old(self).time_high(), buf@).events,
            res.1@ == decode_from(old(self).time_high(), buf@).triggers,
            final(self).time_high() == decode_from(old(self).time_high(), buf@).time_high,
            final(self).time_high() matches Some(th) ==> th <= 0x0FFF_FFFF,
    {
        proof {
            use_type_invariant(&*self);
        }
        let ghost start = self.time_high;
        let mut cd_events: Vec<EventCD> = Vec::new();
        let mut triggers: Vec<ExtTrigger> = Vec::new();

        let mut pos: usize = 0;
        let ghost mut n: nat = 0;

        while buf.len() - pos >= 4
            invariant
                pos <= buf.len(),
                pos == 4 * n,
                self.time_high == decode_prefix(start, buf@, n).time_high,
                cd_events@ == decode_prefix(start, buf@, n).events,
                triggers@ == decode_prefix(start, buf@, n).triggers,
                self.time_high matches Some(th) ==> th <= 0x0FFF_FFFF,
            decreases buf.len() - pos,
        {
            proof {
                lemma_le_word(buf@[pos as int], buf@[pos + 1], buf@[pos + 2], buf@[pos + 3]);
            }
            let raw: u32 = (buf[pos] as u32) | ((buf[pos + 1] as u32) << 8) | ((buf[pos + 2] as u32)
                << 16) | ((buf[pos + 3] as u32) << 24);
            assert(raw == le_word(buf@, n as int));
            proof {
                lemma_word_fields(raw);
            }

            let word = match Word::from_u32(raw) {
                Some(w) => w,
                None => {
                    // Unknown event type: the word is skipped.
                    pos += 4;
                    proof {
                        n = n + 1;
                    }
                    continue;
                },
            };

            match word {
                Word::TimeHigh { timestamp } => {
                    self.time_high = Some(timestamp);
                    pos += 4;
                },
                Word::Event2D { time_low, polarity, x, y } => {
                    // No events before the first EVT_TIME_HIGH.
                    if self.time_high.is_none() {
                        pos += 4;
                        proof {
                            n = n + 1;
                        }
                        continue;
                    }
                    let t = self.full_timestamp(time_low);
                    cd_events.push(EventCD { x, y, p: polarity as i16, t });
                    pos += 4;
                },
                Word::ExtTrigger { time_low, id, value } => {
                    if self.time_high.is_none() {
                        pos += 4;
                        proof {
                            n = n + 1;
                        }
                        continue;
                    }
                    let t = self.full_timestamp(time_low);
                    triggers.push(ExtTrigger { p: value as i16, c: id as i16, t });
                    pos += 4;
                },
                Word::EventImu { .. } | Word::Others { .. } | Word::Continued { .. } => {
                    pos += 4;
                },
            }
            proof {
                n = n + 1;
            }
        }
        assert(n == buf@.len() / 4);
        (cd_events, triggers)
    }
}

} // verus!
