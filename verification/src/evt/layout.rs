//! The decode that an event word enum's layout describes.
//!
//! An enum of event words is described by where its tag sits and, for each
//! variant in declaration order, the tag values that select it and the
//! `(lsb, width)` of each of its fields. Decoding a word reads the tag by
//! shift and mask, takes it as a `u32`, picks the first variant that lists
//! it, and reads each of that variant's fields by shift and mask.

use vstd::prelude::*;

use super::bitfield::{extract_field, field_fits, lemma_field_masks, spec_field};
use super::word::{lemma_word_fields, spec_word, word_tag, Word};

verus! {

/// The layout of one variant: the tag values that select it and the
/// `(lsb, width)` of each of its fields, in declaration order.
pub struct VariantLayout {
    pub tags: Vec<u32>,
    pub fields: Vec<(u32, u32)>,
}

/// The layouts of a list of variants as plain sequences.
pub open spec fn layouts_view(variants: Seq<VariantLayout>) -> Seq<(Seq<u32>, Seq<(u32, u32)>)> {
    variants.map_values(|v: VariantLayout| (v.tags@, v.fields@))
}

/// The index of the first variant from `i` on that lists `tag`.
pub open spec fn first_variant(variants: Seq<(Seq<u32>, Seq<(u32, u32)>)>, tag: u32, i: int) -> Option<
    int,
>
    decreases variants.len() - i,
{
    if i < 0 || i >= variants.len() {
        None
    } else if variants[i].0.contains(tag) {
        Some(i)
    } else {
        first_variant(variants, tag, i + 1)
    }
}

/// What a word decodes to under a layout: the index of the variant its tag
/// selects and the values of that variant's fields, or `None` when no
/// variant lists the tag.
pub open spec fn layout_decode(
    word: u64,
    tag_lsb: u32,
    tag_width: u32,
    variants: Seq<(Seq<u32>, Seq<(u32, u32)>)>,
) -> Option<(int, Seq<u64>)> {
    match first_variant(variants, spec_field(word, tag_lsb, tag_width) as u32, 0) {
        None => None,
        Some(i) => Some((i, variants[i].1.map_values(|f: (u32, u32)| spec_field(word, f.0, f.1)))),
    }
}

/// Whether `tags` holds `tag`.
fn lists_tag(tags: &[u32], tag: u32) -> (r: bool)
    ensures
        r == tags@.contains(tag),
{
    let mut i: usize = 0;
    while i < tags.len()
        invariant
            i <= tags@.len(),
            forall|j: int| 0 <= j < i ==> tags@[j] != tag,
        decreases tags@.len() - i,
    {
        if tags[i] == tag {
            assert(tags@[i as int] == tag);
            return true;
        }
        i = i + 1;
    }
    false
}

/// Decodes `word` under a layout: the index of the variant its tag selects
/// and the values of that variant's fields. Every field, the tag among them,
/// must lie inside a 64-bit word.
pub fn decode_layout(word: u64, tag_lsb: u32, tag_width: u32, variants: &[VariantLayout]) -> (r:
    Option<(usize, Vec<u64>)>)
    requires
        field_fits(tag_lsb, tag_width, 64),
        forall|i: int, j: int|
            0 <= i < variants@.len() && 0 <= j < variants@[i].fields@.len() ==> field_fits(
                #[trigger] variants@[i].fields@[j].0,
                variants@[i].fields@[j].1,
                64,
            ),
    ensures
        layout_decode(word, tag_lsb, tag_width, layouts_view(variants@)) == (match r {
            Some((i, values)) => Some((i as int, values@)),
            None => None,
        }),
{
    let ghost lv = layouts_view(variants@);
    let tag = extract_field(word, tag_lsb, tag_width) as u32;
    let mut i: usize = 0;
    while i < variants.len()
        invariant
            i <= variants@.len(),
            lv == layouts_view(variants@),
            tag == spec_field(word, tag_lsb, tag_width) as u32,
            first_variant(lv, tag, 0) == first_variant(lv, tag, i as int),
            forall|a: int, b: int|
                0 <= a < variants@.len() && 0 <= b < variants@[a].fields@.len() ==> field_fits(
                    #[trigger] variants@[a].fields@[b].0,
                    variants@[a].fields@[b].1,
                    64,
                ),
        decreases variants@.len() - i,
    {
        let v = &variants[i];
        assert(lv[i as int] == (v.tags@, v.fields@));
        if lists_tag(v.tags.as_slice(), tag) {
            let mut values: Vec<u64> = Vec::new();
            let mut j: usize = 0;
            while j < v.fields.len()
                invariant
                    j <= v.fields@.len(),
                    v == variants@[i as int],
                    i < variants@.len(),
                    values@.len() == j,
                    forall|k: int|
                        0 <= k < j ==> #[trigger] values@[k] == spec_field(
                            word,
                            v.fields@[k].0,
                            v.fields@[k].1,
                        ),
                    forall|a: int, b: int|
                        0 <= a < variants@.len() && 0 <= b < variants@[a].fields@.len()
                            ==> field_fits(
                            #[trigger] variants@[a].fields@[b].0,
                            variants@[a].fields@[b].1,
                            64,
                        ),
                decreases v.fields@.len() - j,
            {
                let (lsb, width) = v.fields[j];
                assert(field_fits(variants@[i as int].fields@[j as int].0, variants@[i as int].fields@[j as int].1, 64));
                values.push(extract_field(word, lsb, width));
                j = j + 1;
            }
            assert(values@ =~= v.fields@.map_values(|f: (u32, u32)| spec_field(word, f.0, f.1)));
            return Some((i, values));
        }
        i = i + 1;
    }
    None
}

/// The layout that `Word`'s variants are declared with: the tag in bits
/// `[31:28]`, then `Event2D`, `TimeHigh`, `ExtTrigger`, `EventImu`,
/// `Others` and `Continued`, each with its tags and its fields in
/// declaration order.
pub open spec fn word_layout() -> Seq<(Seq<u32>, Seq<(u32, u32)>)> {
    seq![
        (seq![0x0u32, 0x1], seq![(22u32, 6u32), (28, 4), (11, 11), (0, 11)]),
        (seq![0x8u32], seq![(0u32, 28u32)]),
        (seq![0xAu32], seq![(22u32, 6u32), (8, 5), (0, 1)]),
        (seq![0xDu32], seq![(0u32, 28u32)]),
        (seq![0xEu32], seq![(22u32, 6u32), (16, 1), (0, 16)]),
        (seq![0xFu32], seq![(0u32, 28u32)]),
    ]
}

/// The `Word` built from a variant index and field values, each value cast
/// to its field's type.
pub open spec fn word_from_fields(d: Option<(int, Seq<u64>)>) -> Option<Word> {
    match d {
        None => None,
        Some((i, f)) => if i == 0 {
            Some(
                Word::Event2D {
                    time_low: f[0] as u8,
                    polarity: f[1] as u8,
                    x: f[2] as u16,
                    y: f[3] as u16,
                },
            )
        } else if i == 1 {
            Some(Word::TimeHigh { timestamp: f[0] as u32 })
        } else if i == 2 {
            Some(Word::ExtTrigger { time_low: f[0] as u8, id: f[1] as u8, value: f[2] as u8 })
        } else if i == 3 {
            Some(Word::EventImu { data: f[0] as u32 })
        } else if i == 4 {
            Some(Word::Others { time_low: f[0] as u8, class: f[1] as u8, subtype: f[2] as u16 })
        } else {
            Some(Word::Continued { data: f[0] as u32 })
        },
    }
}

proof fn lemma_lists_one(a: u32, x: u32)
    ensures
        seq![a].contains(x) <==> x == a,
{
    if x == a {
        assert(seq![a][0] == x);
    }
}

proof fn lemma_lists_two(a: u32, b: u32, x: u32)
    ensures
        seq![a, b].contains(x) <==> (x == a || x == b),
{
    if x == a {
        assert(seq![a, b][0] == x);
    }
    if x == b {
        assert(seq![a, b][1] == x);
    }
}

/// `Word::decode` is the decode that `Word`'s layout describes: the tag in
/// bits `[31:28]` picks the variant, each field is read by shift and mask
/// and cast to its type, and a tag that no variant lists gives `None`.
pub proof fn lemma_word_follows_layout(w: u32)
    ensures
        spec_word(w) == word_from_fields(layout_decode(w as u64, 28, 4, word_layout())),
{
    lemma_word_fields(w);
    lemma_field_masks();
    let t = word_tag(w);
    let tag = spec_field(w as u64, 28, 4) as u32;
    assert(tag == t);
    let l = word_layout();
    lemma_lists_two(0x0, 0x1, tag);
    lemma_lists_one(0x8, tag);
    lemma_lists_one(0xA, tag);
    lemma_lists_one(0xD, tag);
    lemma_lists_one(0xE, tag);
    lemma_lists_one(0xF, tag);
    assert(l[0].0 == seq![0x0u32, 0x1]);
    assert(l[1].0 == seq![0x8u32]);
    assert(l[2].0 == seq![0xAu32]);
    assert(l[3].0 == seq![0xDu32]);
    assert(l[4].0 == seq![0xEu32]);
    assert(l[5].0 == seq![0xFu32]);
    reveal_with_fuel(first_variant, 7);
    let f = |p: (u32, u32)| spec_field(w as u64, p.0, p.1);
    match first_variant(l, tag, 0) {
        None => {},
        Some(i) => {
            let vals = l[i].1.map_values(f);
            if i == 0 {
                assert(vals[0] == spec_field(w as u64, 22, 6));
                assert(vals[1] == spec_field(w as u64, 28, 4));
                assert(vals[2] == spec_field(w as u64, 11, 11));
                assert(vals[3] == spec_field(w as u64, 0, 11));
            } else if i == 2 {
                assert(vals[0] == spec_field(w as u64, 22, 6));
                assert(vals[1] == spec_field(w as u64, 8, 5));
                assert(vals[2] == spec_field(w as u64, 0, 1));
            } else if i == 4 {
                assert(vals[0] == spec_field(w as u64, 22, 6));
                assert(vals[1] == spec_field(w as u64, 16, 1));
                assert(vals[2] == spec_field(w as u64, 0, 16));
            } else {
                assert(vals[0] == spec_field(w as u64, 0, 28));
            }
        },
    }
}

} // verus!
