//! What each header line does to the metadata, stated by comparing the
//! reading of a header with the reading of the same header with one more
//! `% KEY VALUE\n` line; and that the additional fields hold only keys
//! without a place of their own.

use vstd::prelude::*;
use vstd::utf8::{decode_utf8, encode_utf8, valid_utf8};

use crate::header::{
    field_end, find_byte, header_line, header_lines, key_evt, key_format, key_geometry, key_line,
    spec_raw_headers, text_at, LineStep, LF, SPACE,
};
use crate::header_laws::{agree, header_body, lemma_line_frame};
use crate::metadata::{no_fields, MetadataFields};

verus! {

/// `format`
pub open spec fn name_format() -> Seq<u8> {
    seq![0x66u8, 0x6F, 0x72, 0x6D, 0x61, 0x74]
}

/// `evt`
pub open spec fn name_evt() -> Seq<u8> {
    seq![0x65u8, 0x76, 0x74]
}

/// `geometry`
pub open spec fn name_geometry() -> Seq<u8> {
    seq![0x67u8, 0x65, 0x6F, 0x6D, 0x65, 0x74, 0x72, 0x79]
}

/// `camera_integrator_name`
pub open spec fn name_camera_integrator_name() -> Seq<u8> {
    seq![0x63u8, 0x61, 0x6D, 0x65, 0x72, 0x61, 0x5F, 0x69, 0x6E, 0x74, 0x65, 0x67, 0x72, 0x61, 0x74, 0x6F, 0x72, 0x5F, 0x6E, 0x61, 0x6D, 0x65]
}

/// `integrator_name`
pub open spec fn name_integrator_name() -> Seq<u8> {
    seq![0x69u8, 0x6E, 0x74, 0x65, 0x67, 0x72, 0x61, 0x74, 0x6F, 0x72, 0x5F, 0x6E, 0x61, 0x6D, 0x65]
}

/// `plugin_integrator_name`
pub open spec fn name_plugin_integrator_name() -> Seq<u8> {
    seq![0x70u8, 0x6C, 0x75, 0x67, 0x69, 0x6E, 0x5F, 0x69, 0x6E, 0x74, 0x65, 0x67, 0x72, 0x61, 0x74, 0x6F, 0x72, 0x5F, 0x6E, 0x61, 0x6D, 0x65]
}

/// `plugin_name`
pub open spec fn name_plugin_name() -> Seq<u8> {
    seq![0x70u8, 0x6C, 0x75, 0x67, 0x69, 0x6E, 0x5F, 0x6E, 0x61, 0x6D, 0x65]
}

/// `serial_number`
pub open spec fn name_serial_number() -> Seq<u8> {
    seq![0x73u8, 0x65, 0x72, 0x69, 0x61, 0x6C, 0x5F, 0x6E, 0x75, 0x6D, 0x62, 0x65, 0x72]
}

/// `system_ID`
pub open spec fn name_system_id() -> Seq<u8> {
    seq![0x73u8, 0x79, 0x73, 0x74, 0x65, 0x6D, 0x5F, 0x49, 0x44]
}

/// `date`
pub open spec fn name_date() -> Seq<u8> {
    seq![0x64u8, 0x61, 0x74, 0x65]
}

/// `generation`
pub open spec fn name_generation() -> Seq<u8> {
    seq![0x67u8, 0x65, 0x6E, 0x65, 0x72, 0x61, 0x74, 0x69, 0x6F, 0x6E]
}

/// `sensor_generation`
pub open spec fn name_sensor_generation() -> Seq<u8> {
    seq![0x73u8, 0x65, 0x6E, 0x73, 0x6F, 0x72, 0x5F, 0x67, 0x65, 0x6E, 0x65, 0x72, 0x61, 0x74, 0x69, 0x6F, 0x6E]
}

/// The keys that have a place of their own in the metadata.
pub open spec fn known_key(k: Seq<u8>) -> bool {
    ||| k == name_format()
    ||| k == name_evt()
    ||| k == name_geometry()
    ||| k == name_camera_integrator_name()
    ||| k == name_integrator_name()
    ||| k == name_plugin_integrator_name()
    ||| k == name_plugin_name()
    ||| k == name_serial_number()
    ||| k == name_system_id()
    ||| k == name_date()
    ||| k == name_generation()
    ||| k == name_sensor_generation()
}

/// The line `% KEY VALUE\n`.
pub open spec fn text_line(key: Seq<u8>, value: Seq<u8>) -> Seq<u8> {
    seq![0x25u8, 0x20] + key + seq![0x20u8] + value + seq![0x0Au8]
}

/// A key that can head a line with a text value: UTF-8, not empty, with no
/// space or line feed, and none of `format`, `evt` and `geometry`, whose
/// values are not text.
pub open spec fn text_key(key: Seq<u8>) -> bool {
    &&& 0 < key.len()
    &&& valid_utf8(key)
    &&& forall|i: int| 0 <= i < key.len() ==> #[trigger] key[i] != 0x20u8 && key[i] != 0x0Au8
    &&& key != name_format()
    &&& key != name_evt()
    &&& key != name_geometry()
}

/// A text value: UTF-8, not empty, with no line feed.
pub open spec fn text_value(value: Seq<u8>) -> bool {
    &&& 0 < value.len()
    &&& valid_utf8(value)
    &&& forall|i: int| 0 <= i < value.len() ==> #[trigger] value[i] != 0x0Au8
}

/// The fields read from `h`, taken as a run of whole header lines.
pub open spec fn fields_of(h: Seq<u8>) -> MetadataFields {
    header_body(h, 0, no_fields())->Some_0
}

/// `h` is a run of whole header lines.
pub open spec fn whole_lines(h: Seq<u8>) -> bool {
    header_body(h, 0, no_fields()) is Some
}

proof fn lemma_find_first(s: Seq<u8>, a: int, m: int, d: u8)
    requires
        0 <= a,
        0 <= m,
        a + m < s.len(),
        forall|i: int| a <= i < a + m ==> s[i] != d,
        s[a + m] == d,
    ensures
        find_byte(s, a, d) == a + m,
    decreases m,
{
    if m > 0 {
        lemma_find_first(s, a + 1, m - 1, d);
    }
}

/// Reading a run of whole lines and then more bytes reads the run first.
proof fn lemma_body_then(h: Seq<u8>, x: Seq<u8>, pos: int, b: MetadataFields)
    requires
        0 <= pos <= h.len(),
        header_body(h, pos, b) is Some,
    ensures
        header_body(h + x, pos, b) == header_body(
            h + x,
            h.len() as int,
            header_body(h, pos, b)->Some_0,
        ),
    decreases h.len() - pos,
{
    if pos < h.len() {
        let s = h + x;
        assert(agree(h, s, h.len() as int));
        let p = header_line(h, pos, b)->Next_0;
        let b2 = header_line(h, pos, b)->Next_1;
        lemma_line_frame(h, s, h.len() as int, pos, b);
        lemma_body_then(h, x, p, b2);
    }
}

/// The bytes of a text line standing at `q` and running to the end of `s`.
pub open spec fn text_line_at(s: Seq<u8>, q: int, key: Seq<u8>, value: Seq<u8>) -> bool {
    let kl = key.len() as int;
    let vl = value.len() as int;
    &&& 0 <= q
    &&& s.len() == q + kl + vl + 4
    &&& s[q] == 0x25u8
    &&& s[q + 1] == 0x20u8
    &&& forall|i: int| 0 <= i < kl ==> #[trigger] s[q + 2 + i] == key[i]
    &&& s[q + 2 + kl] == 0x20u8
    &&& forall|i: int| 0 <= i < vl ==> #[trigger] s[q + 3 + kl + i] == value[i]
    &&& s[q + 3 + kl + vl] == 0x0Au8
}

proof fn lemma_text_line_bytes(h: Seq<u8>, key: Seq<u8>, value: Seq<u8>)
    ensures
        text_line_at(h + text_line(key, value), h.len() as int, key, value),
{
    let l = text_line(key, value);
    let s = h + l;
    let q = h.len() as int;
    let kl = key.len() as int;
    let vl = value.len() as int;
    assert(l.len() == kl + vl + 4);
    assert forall|i: int| 0 <= i < l.len() implies #[trigger] s[q + i] == l[i] by {}
    assert(s[q] == l[0] && s[q + 1] == l[1]);
    assert forall|i: int| 0 <= i < kl implies #[trigger] s[q + 2 + i] == key[i] by {
        assert(s[q + (2 + i)] == l[2 + i]);
    }
    assert(s[q + (2 + kl)] == l[2 + kl]);
    assert forall|i: int| 0 <= i < vl implies #[trigger] s[q + 3 + kl + i] == value[i] by {
        assert(s[q + (3 + kl + i)] == l[3 + kl + i]);
    }
    assert(s[q + (3 + kl + vl)] == l[3 + kl + vl]);
}

/// A text line is read as one line that sets the fields by its key.
proof fn lemma_text_line_read(
    s: Seq<u8>,
    q: int,
    key: Seq<u8>,
    value: Seq<u8>,
    f: MetadataFields,
)
    requires
        text_line_at(s, q, key, value),
        text_key(key),
        text_value(value),
    ensures
        header_line(s, q, f) == LineStep::Next(
            s.len() as int,
            crate::header::assign_text(f, key, decode_utf8(value)),
        ),
{
    let kl = key.len() as int;
    let vl = value.len() as int;
    assert(s.subrange(q, q + 2) =~= seq![0x25u8, 0x20]);
    if kl >= 4 {
        assert(s[q + 2 + 3] == key[3]);
    } else if kl == 3 {
        assert(s[q + 5] == 0x20u8);
    } else if kl == 2 {
        assert(s[q + 4] == 0x20u8);
    } else {
        assert(s[q + 3] == 0x20u8);
    }
    assert(s.subrange(q + 2, q + 6) != crate::header::end_marker());
    assert forall|i: int| q + 2 <= i < q + 2 + kl implies s[i] != SPACE by {
        assert(s[q + 2 + (i - q - 2)] == key[i - q - 2]);
    }
    lemma_find_first(s, q + 2, kl, SPACE);
    let k = q + 2 + kl;
    assert(field_end(s, q + 2, SPACE) == Some(k));
    assert forall|i: int| 0 <= i < kl implies #[trigger] s.subrange(q + 2, k)[i] == key[i] by {
        assert(s[q + 2 + i] == key[i]);
    }
    assert(s.subrange(q + 2, k) =~= key);
    assert forall|i: int| k + 1 <= i < k + 1 + vl implies s[i] != LF by {
        assert(s[q + 3 + kl + (i - k - 1)] == value[i - k - 1]);
    }
    lemma_find_first(s, k + 1, vl, LF);
    assert(field_end(s, k + 1, LF) == Some(k + 1 + vl));
    assert forall|i: int| 0 <= i < vl implies #[trigger] s.subrange(k + 1, k + 1 + vl)[i]
        == value[i] by {
        assert(s[q + 3 + kl + i] == value[i]);
    }
    assert(s.subrange(k + 1, k + 1 + vl) =~= value);
    assert(text_at(s, k + 1) == Some((k + 2 + vl, decode_utf8(value))));
    assert(key != key_format() && key != key_evt() && key != key_geometry());
}

/// What one more text line does, as the line reader sees it.
proof fn lemma_append_text_line(h: Seq<u8>, key: Seq<u8>, value: Seq<u8>)
    requires
        whole_lines(h),
        text_key(key),
        text_value(value),
    ensures
        whole_lines(h + text_line(key, value)),
        fields_of(h + text_line(key, value)) == crate::header::assign_text(
            fields_of(h),
            key,
            decode_utf8(value),
        ),
{
    let l = text_line(key, value);
    let s = h + l;
    let q = h.len() as int;
    let f = fields_of(h);
    let g = crate::header::assign_text(f, key, decode_utf8(value));
    lemma_body_then(h, l, 0, no_fields());
    lemma_text_line_bytes(h, key, value);
    lemma_text_line_read(s, q, key, value, f);
    assert(header_body(s, s.len() as int, g) == Some(g));
    assert(header_body(s, q, f) == Some(g));
}

/// A line whose key has a place of its own leaves the additional fields as
/// they were.
pub proof fn lemma_known_key_keeps_extra(h: Seq<u8>, key: Seq<u8>, value: Seq<u8>)
    requires
        whole_lines(h),
        text_key(key),
        text_value(value),
        known_key(key),
    ensures
        whole_lines(h + text_line(key, value)),
        fields_of(h + text_line(key, value)).extra == fields_of(h).extra,
{
    lemma_append_text_line(h, key, value);
}

/// A line whose key has no place of its own adds that key, with its value,
/// to the additional fields (replacing an earlier value) and changes
/// nothing else.
pub proof fn lemma_unknown_key_adds_extra(h: Seq<u8>, key: Seq<u8>, value: Seq<u8>)
    requires
        whole_lines(h),
        text_key(key),
        text_value(value),
        !known_key(key),
    ensures
        whole_lines(h + text_line(key, value)),
        fields_of(h + text_line(key, value)) == (MetadataFields {
            extra: fields_of(h).extra.insert(decode_utf8(key), decode_utf8(value)),
            ..fields_of(h)
        }),
{
    lemma_append_text_line(h, key, value);
}

/// What the lines with a place of their own set: `generation` sets the
/// generation; `sensor_generation` sets it only while it is unset;
/// `camera_integrator_name` sets the camera integrator name and
/// `integrator_name` sets it only while it is unset; `plugin_integrator_name`,
/// `plugin_name`, `serial_number`, `system_ID` and `date` set their own
/// field. Nothing else changes.
pub proof fn lemma_text_line_sets_its_field(h: Seq<u8>, key: Seq<u8>, value: Seq<u8>)
    requires
        whole_lines(h),
        text_key(key),
        text_value(value),
    ensures
        whole_lines(h + text_line(key, value)),
        ({
            let f = fields_of(h);
            let g = fields_of(h + text_line(key, value));
            let t = decode_utf8(value);
            &&& key == name_generation() ==> g == MetadataFields { generation: Some(t), ..f }
            &&& key == name_sensor_generation() ==> g == MetadataFields {
                generation: if f.generation is None {
                    Some(t)
                } else {
                    f.generation
                },
                ..f
            }
            &&& key == name_camera_integrator_name() ==> g == MetadataFields {
                camera_integrator_name: Some(t),
                ..f
            }
            &&& key == name_integrator_name() ==> g == MetadataFields {
                camera_integrator_name: if f.camera_integrator_name is None {
                    Some(t)
                } else {
                    f.camera_integrator_name
                },
                ..f
            }
            &&& key == name_plugin_integrator_name() ==> g == MetadataFields {
                plugin_integrator_name: Some(t),
                ..f
            }
            &&& key == name_plugin_name() ==> g == MetadataFields { plugin_name: Some(t), ..f }
            &&& key == name_serial_number() ==> g == MetadataFields {
                serial_number: Some(t),
                ..f
            }
            &&& key == name_system_id() ==> g == MetadataFields { system_id: Some(t), ..f }
            &&& key == name_date() ==> g == MetadataFields { date: Some(t), ..f }
        }),
{
    lemma_append_text_line(h, key, value);
}

/// `% end\n`
pub open spec fn end_line() -> Seq<u8> {
    seq![0x25u8, 0x20, 0x65, 0x6E, 0x64, 0x0A]
}

/// A run of whole lines closed by `% end\n` reads as its lines: the header
/// ends after the end line, with the fields the lines set, unless the
/// encoding or else the geometry is missing.
pub proof fn lemma_header_of_lines(h: Seq<u8>)
    requires
        whole_lines(h),
    ensures
        spec_raw_headers(h + end_line()) == (if fields_of(h).encoding is None {
            Err::<(int, MetadataFields), crate::header::HeaderError>(
                crate::header::HeaderError::MissingEncoding,
            )
        } else if fields_of(h).geometry is None {
            Err(crate::header::HeaderError::MissingGeometry)
        } else {
            Ok((h.len() + 6int, fields_of(h)))
        }),
{
    let s = h + end_line();
    crate::header_laws::lemma_end_marker_closes(h, Seq::empty());
    assert(h + crate::header::line_start() + crate::header::end_marker() + Seq::<u8>::empty() =~= s);
    assert(header_lines(s, 0, no_fields()) == Ok::<
        (int, MetadataFields),
        crate::header::HeaderError,
    >((h.len() + 6int, fields_of(h))));
}

/// Fields whose additional keys all lack a place of their own.
pub open spec fn extra_keys_unknown(f: MetadataFields) -> bool {
    forall|k: Seq<char>| #[trigger] f.extra.contains_key(k) ==> !known_key(encode_utf8(k))
}

proof fn lemma_line_keeps_unknown(s: Seq<u8>, pos: int, b: MetadataFields)
    requires
        0 <= pos,
        extra_keys_unknown(b),
    ensures
        header_line(s, pos, b) matches LineStep::Next(p, b2) ==> extra_keys_unknown(b2),
{
    if header_line(s, pos, b) is Next {
        let k = field_end(s, pos + 2, SPACE)->Some_0;
        let key = s.subrange(pos + 2, k);
        if key != key_format() && key != key_evt() && key != key_geometry() && !known_key(key) {
            vstd::utf8::decode_utf8_encode_utf8(key);
        }
    }
}

proof fn lemma_lines_keep_unknown(s: Seq<u8>, pos: int, b: MetadataFields)
    requires
        0 <= pos,
        extra_keys_unknown(b),
    ensures
        header_lines(s, pos, b) matches Ok((n, f)) ==> extra_keys_unknown(f),
    decreases s.len() - pos,
{
    lemma_line_keeps_unknown(s, pos, b);
    if let LineStep::Next(p, b2) = header_line(s, pos, b) {
        if pos < p <= s.len() {
            lemma_lines_keep_unknown(s, p, b2);
        }
    }
}

/// Every key of the additional fields of a header that is read is a key
/// without a place of its own: lines such as `sensor_generation` or
/// `integrator_name` never add to them.
pub proof fn lemma_extra_keys_are_unknown(s: Seq<u8>)
    ensures
        spec_raw_headers(s) matches Ok((n, f)) ==> forall|k: Seq<char>|
            #[trigger] f.extra.contains_key(k) ==> !known_key(encode_utf8(k)),
{
    lemma_lines_keep_unknown(s, 0, no_fields());
}

/// The text lines with these keys and values, in order.
pub open spec fn text_lines(entries: Seq<(Seq<u8>, Seq<u8>)>) -> Seq<u8>
    decreases entries.len(),
{
    if entries.len() == 0 {
        Seq::empty()
    } else {
        text_lines(entries.drop_last()) + text_line(entries.last().0, entries.last().1)
    }
}

/// The value of the first `sensor_generation` entry, if there is one.
pub open spec fn first_sensor_generation(entries: Seq<(Seq<u8>, Seq<u8>)>) -> Option<Seq<char>>
    decreases entries.len(),
{
    if entries.len() == 0 {
        None
    } else {
        match first_sensor_generation(entries.drop_last()) {
            Some(v) => Some(v),
            None => if entries.last().0 == name_sensor_generation() {
                Some(decode_utf8(entries.last().1))
            } else {
                None
            },
        }
    }
}

/// Without a `generation` line, the generation comes from the first
/// `sensor_generation` line: after lines that left it unset, a run of text
/// lines with no `generation` key sets it to the value of the first
/// `sensor_generation` line, and leaves it unset when there is none.
pub proof fn lemma_sensor_generation_fallback(h: Seq<u8>, entries: Seq<(Seq<u8>, Seq<u8>)>)
    requires
        whole_lines(h),
        fields_of(h).generation is None,
        forall|i: int|
            0 <= i < entries.len() ==> text_key(#[trigger] entries[i].0) && text_value(
                entries[i].1,
            ) && entries[i].0 != name_generation(),
    ensures
        whole_lines(h + text_lines(entries)),
        fields_of(h + text_lines(entries)).generation == first_sensor_generation(entries),
    decreases entries.len(),
{
    if entries.len() == 0 {
        assert(h + text_lines(entries) =~= h);
    } else {
        let rest = entries.drop_last();
        let e = entries.last();
        assert forall|i: int| 0 <= i < rest.len() implies text_key(#[trigger] rest[i].0)
            && text_value(rest[i].1) && rest[i].0 != name_generation() by {
            assert(rest[i] == entries[i]);
        }
        lemma_sensor_generation_fallback(h, rest);
        let hr = h + text_lines(rest);
        assert(entries[entries.len() - 1] == e);
        lemma_generation_step(hr, e.0, e.1);
        assert(hr + text_line(e.0, e.1) =~= h + text_lines(entries));
    }
}

/// A text line other than `generation` changes the generation only when it
/// is a `sensor_generation` line and the generation is unset.
proof fn lemma_generation_step(h: Seq<u8>, key: Seq<u8>, value: Seq<u8>)
    requires
        whole_lines(h),
        text_key(key),
        text_value(value),
        key != name_generation(),
    ensures
        whole_lines(h + text_line(key, value)),
        fields_of(h + text_line(key, value)).generation == (if key == name_sensor_generation()
            && fields_of(h).generation is None {
            Some(decode_utf8(value))
        } else {
            fields_of(h).generation
        }),
{
    lemma_append_text_line(h, key, value);
    let f = fields_of(h);
    let t = decode_utf8(value);
    let g = crate::header::assign_text(f, key, t);
    assert(key != crate::header::key_generation());
    if key == crate::header::key_sensor_generation() {
        assert(g.generation == (if f.generation is None {
            Some(t)
        } else {
            f.generation
        }));
    } else {
        assert(g.generation == f.generation);
    }
}

} // verus!
