use ebkit::events::{EventCD, ExtTrigger};
use ebkit::evt::{Evt20Decoder, EvtDecoder};

fn word(ev_type: u32, payload: u32) -> u32 {
    (ev_type << 28) | (payload & 0x0FFF_FFFF)
}

fn bytes(words: &[u32]) -> Vec<u8> {
    let mut buf = Vec::new();
    for w in words {
        buf.extend_from_slice(&w.to_le_bytes());
    }
    buf
}

#[test]
fn split_before_time_high_gives_same_events() {
    let a = bytes(&[word(0x8, 7), word(0x1, (1 << 22) | (2 << 11) | 3), word(0xA, (4 << 22) | 1)]);
    let b = bytes(&[word(0x8, 9), word(0x0, (5 << 22) | (6 << 11) | 7)]);
    let mut whole = a.clone();
    whole.extend_from_slice(&b);
    let mut dec = Evt20Decoder::new();
    let (cd_all, tr_all) = dec.decode(&whole);
    let (mut cd_a, mut tr_a) = dec.decode(&a);
    let (cd_b, tr_b) = dec.decode(&b);
    cd_a.extend(cd_b);
    tr_a.extend(tr_b);
    assert_eq!(cd_all, cd_a);
    assert_eq!(tr_all, tr_a);
}

#[test]
fn words_before_first_time_high_contribute_nothing() {
    let before = bytes(&[word(0x1, 1), word(0xA, 1), word(0xE, 0)]);
    let after = bytes(&[word(0x8, 3), word(0x1, (2 << 22) | 1)]);
    let mut whole = before.clone();
    whole.extend_from_slice(&after);
    let mut dec = Evt20Decoder::new();
    let (cd_whole, tr_whole) = dec.decode(&whole);
    let (cd_after, tr_after) = dec.decode(&after);
    assert_eq!(cd_whole, cd_after);
    assert_eq!(tr_whole, tr_after);
    assert_eq!(cd_after, vec![EventCD { x: 0, y: 1, p: 1, t: 3 * 64 + 2 }]);
}

#[test]
fn decoded_values_stay_in_range() {
    let buf = bytes(&[word(0x8, 0x0FFF_FFFF), word(0x1, 0x0FFF_FFFF), word(0xA, 0x0FFF_FFFF)]);
    let mut dec = Evt20Decoder::new();
    let (cd, tr) = dec.decode(&buf);
    assert_eq!(cd.len(), 1);
    assert_eq!(cd[0].x, 2047);
    assert_eq!(cd[0].y, 2047);
    assert_eq!(cd[0].p, 1);
    assert_eq!(cd[0].t, (1i64 << 34) - 1);
    assert_eq!(tr.len(), 1);
    assert_eq!(tr[0].c, 31);
    assert_eq!(tr[0].p, 1);
    assert_eq!(tr[0].t, (1i64 << 34) - 1);
}

#[test]
fn partial_trailing_word_is_ignored() {
    let whole = bytes(&[word(0x8, 2), word(0x0, (3 << 22) | 4)]);
    let mut longer = whole.clone();
    longer.extend_from_slice(&[0x01, 0x02]);
    let mut dec = Evt20Decoder::new();
    assert_eq!(dec.decode(&whole), dec.decode(&longer));
}

#[test]
fn time_high_carries_across_calls() {
    let mut dec = Evt20Decoder::new();
    let (cd, trig) = dec.decode(&0x8000_000Au32.to_le_bytes());
    assert!(cd.is_empty() && trig.is_empty());
    let (cd, trig) = dec.decode(&0x1140_0000u32.to_le_bytes());
    assert_eq!(cd, vec![EventCD { x: 0, y: 0, p: 1, t: 645 }]);
    assert!(trig.is_empty());
}

#[test]
fn fresh_decoder_drops_events_before_time_high() {
    let mut dec = Evt20Decoder::new();
    let (cd, _) = dec.decode(&bytes(&[word(0x1, 5)]));
    assert!(cd.is_empty());
}

#[test]
fn timestamp_combines_high_and_low_bits() {
    let buf = bytes(&[word(0x8, 0x0ABC_DEF1), word(0x0, (0x2A << 22) | (0x10 << 11) | 0x20)]);
    let mut dec = Evt20Decoder::new();
    let (cd, _) = dec.decode(&buf);
    assert_eq!(
        cd,
        vec![EventCD { x: 0x10, y: 0x20, p: 0, t: (0x0ABC_DEF1i64 << 6) | 0x2A }]
    );
}

#[test]
fn full_timestamp_puts_time_high_above_six_low_bits() {
    let mut dec = Evt20Decoder::new();
    assert_eq!(dec.full_timestamp(5), 5);
    let _ = dec.decode(&0x8000_000Au32.to_le_bytes());
    assert_eq!(dec.full_timestamp(5), 645);
    let _ = dec.decode(&0x8FFF_FFFFu32.to_le_bytes());
    let t = dec.full_timestamp(63);
    assert_eq!(t, (1i64 << 34) - 1);
    assert_eq!(t >> 6, 0x0FFF_FFFF);
    assert_eq!(t & 0x3F, 63);
}

#[test]
fn events_follow_the_last_time_high_before_them() {
    // CD before any time high: dropped; trigger after first time high;
    // CD after the second time high uses the second value.
    let buf = bytes(&[word(0x1, 0), word(0x8, 1), word(0xA, (2 << 22) | (3 << 8) | 1), word(0x8, 2), word(0x0, (4 << 22) | (5 << 11) | 6)]);
    let mut dec = Evt20Decoder::new();
    let (cd, trig) = dec.decode(&buf);
    assert_eq!(cd, vec![EventCD { x: 5, y: 6, p: 0, t: (2 << 6) | 4 }]);
    assert_eq!(trig, vec![ExtTrigger { p: 1, c: 3, t: (1 << 6) | 2 }]);
}
