//! The ASCII header of a RAW recording.
//!
//! Each header line is `% <key> <value>\n`. The header ends with the line
//! `% end\n`, or at the first line that does not start with `% `; the binary
//! event data starts at the exact byte where the header stops.

use vstd::prelude::*;
use vstd::utf8::{decode_utf8, valid_utf8};

use crate::metadata::{no_fields, EventEncoding, Geometry, Metadata, MetadataBuilder, MetadataFields};
use crate::number::{decimal_at, spec_decimal_at};
use crate::text::{bytes_equal, utf8_string};

verus! {

/// Why a RAW header was refused.
#[derive(Debug, Clone, Copy, PartialEq, Eq, Structural)]
pub enum HeaderError {
    /// The header line that starts at this offset does not follow the syntax
    /// of its key.
    InvalidLine(usize),
    /// No `format` or `evt` line gave the encoding.
    MissingEncoding,
    /// No `format` or `geometry` line gave the geometry.
    MissingGeometry,
    /// Bytes remain after the header that ends at this offset, where the
    /// input had to be the header alone.
    TrailingBytes(usize),
}

/// Line feed, which ends every header line.
pub const LF: u8 = 0x0A;

/// Space, which ends a key.
pub const SPACE: u8 = 0x20;

/// `;`, between the parts of a `format` value.
pub const SEMICOLON: u8 = 0x3B;

/// `x`, between the width and the height of a `geometry` value.
pub const TIMES: u8 = 0x78;

/// The start of a header line, `% `.
pub open spec fn line_start() -> Seq<u8> {
    seq![0x25u8, 0x20]
}

/// The header terminator after `% `: `end\n`.
pub open spec fn end_marker() -> Seq<u8> {
    seq![0x65u8, 0x6E, 0x64, 0x0A]
}

/// `EVT2`
pub open spec fn evt2_name() -> Seq<u8> {
    seq![0x45u8, 0x56, 0x54, 0x32]
}

/// `EVT21`
pub open spec fn evt21_name() -> Seq<u8> {
    seq![0x45u8, 0x56, 0x54, 0x32, 0x31]
}

/// `EVT3`
pub open spec fn evt3_name() -> Seq<u8> {
    seq![0x45u8, 0x56, 0x54, 0x33]
}

/// `height=`
pub open spec fn height_eq() -> Seq<u8> {
    seq![0x68u8, 0x65, 0x69, 0x67, 0x68, 0x74, 0x3D]
}

/// `width=`
pub open spec fn width_eq() -> Seq<u8> {
    seq![0x77u8, 0x69, 0x64, 0x74, 0x68, 0x3D]
}

/// `2.0`
pub open spec fn version_2_0() -> Seq<u8> {
    seq![0x32u8, 0x2E, 0x30]
}

/// `2.1`
pub open spec fn version_2_1() -> Seq<u8> {
    seq![0x32u8, 0x2E, 0x31]
}

/// `3.0`
pub open spec fn version_3_0() -> Seq<u8> {
    seq![0x33u8, 0x2E, 0x30]
}

/// `format`
pub open spec fn key_format() -> Seq<u8> {
    seq![0x66u8, 0x6F, 0x72, 0x6D, 0x61, 0x74]
}

/// `evt`
pub open spec fn key_evt() -> Seq<u8> {
    seq![0x65u8, 0x76, 0x74]
}

/// `geometry`
pub open spec fn key_geometry() -> Seq<u8> {
    seq![0x67u8, 0x65, 0x6F, 0x6D, 0x65, 0x74, 0x72, 0x79]
}

/// `camera_integrator_name`
pub open spec fn key_camera_integrator_name() -> Seq<u8> {
    seq![0x63u8, 0x61, 0x6D, 0x65, 0x72, 0x61, 0x5F, 0x69, 0x6E, 0x74, 0x65, 0x67, 0x72, 0x61, 0x74, 0x6F, 0x72, 0x5F, 0x6E, 0x61, 0x6D, 0x65]
}

/// `integrator_name`
pub open spec fn key_integrator_name() -> Seq<u8> {
    seq![0x69u8, 0x6E, 0x74, 0x65, 0x67, 0x72, 0x61, 0x74, 0x6F, 0x72, 0x5F, 0x6E, 0x61, 0x6D, 0x65]
}

/// `plugin_integrator_name`
pub open spec fn key_plugin_integrator_name() -> Seq<u8> {
    seq![0x70u8, 0x6C, 0x75, 0x67, 0x69, 0x6E, 0x5F, 0x69, 0x6E, 0x74, 0x65, 0x67, 0x72, 0x61, 0x74, 0x6F, 0x72, 0x5F, 0x6E, 0x61, 0x6D, 0x65]
}

/// `plugin_name`
pub open spec fn key_plugin_name() -> Seq<u8> {
    seq![0x70u8, 0x6C, 0x75, 0x67, 0x69, 0x6E, 0x5F, 0x6E, 0x61, 0x6D, 0x65]
}

/// `serial_number`
pub open spec fn key_serial_number() -> Seq<u8> {
    seq![0x73u8, 0x65, 0x72, 0x69, 0x61, 0x6C, 0x5F, 0x6E, 0x75, 0x6D, 0x62, 0x65, 0x72]
}

/// `system_ID`
pub open spec fn key_system_id() -> Seq<u8> {
    seq![0x73u8, 0x79, 0x73, 0x74, 0x65, 0x6D, 0x5F, 0x49, 0x44]
}

/// `date`
pub open spec fn key_date() -> Seq<u8> {
    seq![0x64u8, 0x61, 0x74, 0x65]
}

/// `generation`
pub open spec fn key_generation() -> Seq<u8> {
    seq![0x67u8, 0x65, 0x6E, 0x65, 0x72, 0x61, 0x74, 0x69, 0x6F, 0x6E]
}

/// `sensor_generation`
pub open spec fn key_sensor_generation() -> Seq<u8> {
    seq![0x73u8, 0x65, 0x6E, 0x73, 0x6F, 0x72, 0x5F, 0x67, 0x65, 0x6E, 0x65, 0x72, 0x61, 0x74, 0x69, 0x6F, 0x6E]
}

/// Byte `b` stands at `pos`.
pub open spec fn byte_at(s: Seq<u8>, pos: int, b: u8) -> bool {
    0 <= pos < s.len() && s[pos] == b
}

/// `lit` stands at `pos`.
pub open spec fn lit_at(s: Seq<u8>, pos: int, lit: Seq<u8>) -> bool {
    0 <= pos && pos + lit.len() <= s.len() && s.subrange(pos, pos + lit.len()) == lit
}

/// The first offset at or after `pos` that holds `d`, or the length of `s`.
pub open spec fn find_byte(s: Seq<u8>, pos: int, d: u8) -> int
    decreases s.len() - pos,
{
    if pos < 0 || pos >= s.len() {
        s.len() as int
    } else if s[pos] == d {
        pos
    } else {
        find_byte(s, pos + 1, d)
    }
}

/// A non-empty field from `pos` up to a delimiter `d`: the offset of the
/// delimiter.
pub open spec fn field_end(s: Seq<u8>, pos: int, d: u8) -> Option<int> {
    let k = find_byte(s, pos, d);
    if pos < k && k < s.len() {
        Some(k)
    } else {
        None
    }
}

/// A text value from `pos` up to the end of its line: the offset after the
/// line feed, and the text.
pub open spec fn text_at(s: Seq<u8>, pos: int) -> Option<(int, Seq<char>)> {
    match field_end(s, pos, LF) {
        Some(k) => if valid_utf8(s.subrange(pos, k)) {
            Some((k + 1, decode_utf8(s.subrange(pos, k))))
        } else {
            None
        },
        None => None,
    }
}

/// The encoding name of a `format` value, longest name first: `EVT21`,
/// then `EVT2`, then `EVT3`.
pub open spec fn format_name(s: Seq<u8>, pos: int) -> Option<(int, EventEncoding)> {
    if lit_at(s, pos, evt21_name()) {
        Some((pos + 5, EventEncoding::Evt21))
    } else if lit_at(s, pos, evt2_name()) {
        Some((pos + 4, EventEncoding::Evt20))
    } else if lit_at(s, pos, evt3_name()) {
        Some((pos + 4, EventEncoding::Evt30))
    } else {
        None
    }
}

/// A `format` value: `NAME;height=H;width=W\n`.
pub open spec fn format_value(s: Seq<u8>, pos: int) -> Option<(int, EventEncoding, Geometry)> {
    match format_name(s, pos) {
        None => None,
        Some((p1, encoding)) => if byte_at(s, p1, SEMICOLON) && lit_at(s, p1 + 1, height_eq()) {
            match spec_decimal_at(s, p1 + 8) {
                None => None,
                Some((p2, height)) => if byte_at(s, p2, SEMICOLON) && lit_at(s, p2 + 1, width_eq()) {
                    match spec_decimal_at(s, p2 + 7) {
                        None => None,
                        Some((p3, width)) => if byte_at(s, p3, LF) {
                            Some((p3 + 1, encoding, Geometry { width, height }))
                        } else {
                            None
                        },
                    }
                } else {
                    None
                },
            }
        } else {
            None
        },
    }
}

/// An `evt` value: `2.0`, `2.1` or `3.0`, then a line feed.
pub open spec fn evt_version(s: Seq<u8>, pos: int) -> Option<(int, EventEncoding)> {
    let encoding = if lit_at(s, pos, version_2_0()) {
        Some(EventEncoding::Evt20)
    } else if lit_at(s, pos, version_2_1()) {
        Some(EventEncoding::Evt21)
    } else if lit_at(s, pos, version_3_0()) {
        Some(EventEncoding::Evt30)
    } else {
        None
    };
    match encoding {
        Some(e) => if byte_at(s, pos + 3, LF) {
            Some((pos + 4, e))
        } else {
            None
        },
        None => None,
    }
}

/// A `geometry` value: `WxH\n`.
pub open spec fn geometry_value(s: Seq<u8>, pos: int) -> Option<(int, Geometry)> {
    match spec_decimal_at(s, pos) {
        None => None,
        Some((p1, width)) => if byte_at(s, p1, TIMES) {
            match spec_decimal_at(s, p1 + 1) {
                None => None,
                Some((p2, height)) => if byte_at(s, p2, LF) {
                    Some((p2 + 1, Geometry { width, height }))
                } else {
                    None
                },
            }
        } else {
            None
        },
    }
}

/// The effect of a text-valued line with key bytes `key` and text `t`.
/// `integrator_name` and `sensor_generation` only fill a field that is
/// still empty; a key without a slot of its own goes to the extra fields.
pub open spec fn assign_text(b: MetadataFields, key: Seq<u8>, t: Seq<char>) -> MetadataFields {
    if key == key_camera_integrator_name() {
        MetadataFields { camera_integrator_name: Some(t), ..b }
    } else if key == key_integrator_name() {
        if b.camera_integrator_name is None {
            MetadataFields { camera_integrator_name: Some(t), ..b }
        } else {
            b
        }
    } else if key == key_plugin_integrator_name() {
        MetadataFields { plugin_integrator_name: Some(t), ..b }
    } else if key == key_plugin_name() {
        MetadataFields { plugin_name: Some(t), ..b }
    } else if key == key_serial_number() {
        MetadataFields { serial_number: Some(t), ..b }
    } else if key == key_system_id() {
        MetadataFields { system_id: Some(t), ..b }
    } else if key == key_date() {
        MetadataFields { date: Some(t), ..b }
    } else if key == key_generation() {
        MetadataFields { generation: Some(t), ..b }
    } else if key == key_sensor_generation() {
        if b.generation is None {
            MetadataFields { generation: Some(t), ..b }
        } else {
            b
        }
    } else {
        MetadataFields { extra: b.extra.insert(decode_utf8(key), t), ..b }
    }
}

/// What one header line does.
pub enum LineStep {
    /// No header line starts here: the header ends before it.
    Stop,
    /// The `% end\n` line: the header ends at the given offset.
    End(int),
    /// A header line, up to the given offset, and the fields after it.
    Next(int, MetadataFields),
    /// A malformed header line.
    Invalid,
}

/// The line whose value starts at `v`, for key bytes `key`.
pub open spec fn key_line(s: Seq<u8>, v: int, key: Seq<u8>, b: MetadataFields) -> LineStep {
    if key == key_format() {
        match format_value(s, v) {
            Some((p, encoding, geometry)) => LineStep::Next(
                p,
                MetadataFields { encoding: Some(encoding), geometry: Some(geometry), ..b },
            ),
            None => LineStep::Invalid,
        }
    } else if key == key_evt() {
        match evt_version(s, v) {
            Some((p, encoding)) => LineStep::Next(
                p,
                MetadataFields { encoding: Some(encoding), ..b },
            ),
            None => LineStep::Invalid,
        }
    } else if key == key_geometry() {
        match geometry_value(s, v) {
            Some((p, geometry)) => LineStep::Next(
                p,
                MetadataFields { geometry: Some(geometry), ..b },
            ),
            None => LineStep::Invalid,
        }
    } else {
        match text_at(s, v) {
            Some((p, t)) => LineStep::Next(p, assign_text(b, key, t)),
            None => LineStep::Invalid,
        }
    }
}

/// The header line at `pos`, given the fields before it. A key runs from
/// after `% ` up to the next space and must be UTF-8.
pub open spec fn header_line(s: Seq<u8>, pos: int, b: MetadataFields) -> LineStep {
    if !lit_at(s, pos, line_start()) {
        LineStep::Stop
    } else if lit_at(s, pos + 2, end_marker()) {
        LineStep::End(pos + 6)
    } else {
        match field_end(s, pos + 2, SPACE) {
            None => LineStep::Invalid,
            Some(k) => if valid_utf8(s.subrange(pos + 2, k)) {
                key_line(s, k + 1, s.subrange(pos + 2, k), b)
            } else {
                LineStep::Invalid
            },
        }
    }
}

/// The header lines from `pos` on, given the fields before them: where the
/// header ends and the fields it sets, or the first malformed line. A line
/// always moves forward within `s` (`header_laws::lemma_line_advances`).
pub open spec fn header_lines(s: Seq<u8>, pos: int, b: MetadataFields) -> Result<
    (int, MetadataFields),
    HeaderError,
>
    decreases s.len() - pos,
{
    match header_line(s, pos, b) {
        LineStep::Stop => Ok((pos, b)),
        LineStep::End(p) => Ok((p, b)),
        LineStep::Invalid => Err(HeaderError::InvalidLine(pos as usize)),
        LineStep::Next(p, b2) => if pos < p <= s.len() {
            header_lines(s, p, b2)
        } else {
            Err(HeaderError::InvalidLine(pos as usize))
        },
    }
}

/// A whole RAW header at the start of `s`: where it ends and the metadata it
/// gives, which must include the encoding and the geometry.
pub open spec fn spec_raw_headers(s: Seq<u8>) -> Result<(int, MetadataFields), HeaderError> {
    match header_lines(s, 0, no_fields()) {
        Err(e) => Err(e),
        Ok((p, b)) => if b.encoding is None {
            Err(HeaderError::MissingEncoding)
        } else if b.geometry is None {
            Err(HeaderError::MissingGeometry)
        } else {
            Ok((p, b))
        },
    }
}

/// What a line does, as seen by the code that reads it.
enum LineOutcome {
    Stop,
    End(usize),
    Next(usize),
    Invalid,
}

/// The outcome `o` with fields `after` is the step `step` from a line at `pos`.
spec fn outcome_is(
    o: LineOutcome,
    after: MetadataFields,
    step: LineStep,
    before: MetadataFields,
    pos: int,
    len: int,
) -> bool {
    match step {
        LineStep::Stop => o is Stop && after == before,
        LineStep::End(p) => o matches LineOutcome::End(q) && q == p && after == before && pos < p
            <= len,
        LineStep::Next(p, f) => o matches LineOutcome::Next(q) && q == p && after == f && pos < p
            <= len,
        LineStep::Invalid => o is Invalid,
    }
}

/// Matches `lit` at `pos`: the offset just after it.
fn lit_after(s: &[u8], pos: usize, lit: &[u8]) -> (r: Option<usize>)
    ensures
        r is Some <==> lit_at(s@, pos as int, lit@),
        r matches Some(p) ==> p == pos + lit@.len(),
{
    if pos > s.len() || lit.len() > s.len() - pos {
        return None;
    }
    let mut i: usize = 0;
    while i < lit.len()
        invariant
            pos + lit@.len() <= s@.len(),
            s@.len() <= usize::MAX,
            i <= lit@.len(),
            forall|j: int| 0 <= j < i ==> s@[pos + j] == lit@[j],
        decreases lit.len() - i,
    {
        if s[pos + i] != lit[i] {
            assert(s@.subrange(pos as int, pos + lit@.len())[i as int] != lit@[i as int]);
            return None;
        }
        i = i + 1;
    }
    assert(s@.subrange(pos as int, pos + lit@.len()) =~= lit@);
    Some(pos + lit.len())
}

/// The first offset at or after `pos` that holds `d`, or the length of `s`.
fn find_byte_exec(s: &[u8], pos: usize, d: u8) -> (k: usize)
    requires
        pos <= s@.len(),
    ensures
        k == find_byte(s@, pos as int, d),
{
    let mut i = pos;
    while i < s.len()
        invariant
            pos <= i <= s@.len(),
            find_byte(s@, i as int, d) == find_byte(s@, pos as int, d),
        decreases s.len() - i,
    {
        if s[i] == d {
            return i;
        }
        i = i + 1;
    }
    i
}

/// A non-empty field from `pos` up to `d`: the offset of the delimiter and
/// the offset after it.
fn field_end_exec(s: &[u8], pos: usize, d: u8) -> (r: Option<(usize, usize)>)
    requires
        pos <= s@.len(),
    ensures
        match r {
            Some((k, next)) => field_end(s@, pos as int, d) == Some(k as int) && pos < k && next
                == k + 1 && next <= s@.len(),
            None => field_end(s@, pos as int, d) is None,
        },
{
    let k = find_byte_exec(s, pos, d);
    if pos < k && k < s.len() {
        Some((k, k + 1))
    } else {
        None
    }
}

/// The text value from `pos` up to the end of its line.
fn text_at_exec(s: &[u8], pos: usize) -> (r: Option<(usize, String)>)
    requires
        pos <= s@.len(),
    ensures
        match r {
            Some((p, t)) => text_at(s@, pos as int) == Some((p as int, t@)) && pos < p <= s@.len(),
            None => text_at(s@, pos as int) is None,
        },
{
    match field_end_exec(s, pos, LF) {
        Some((k, next)) => {
            let field = vstd::slice::slice_subrange(s, pos, k);
            match utf8_string(field) {
                Some(t) => Some((next, t)),
                None => None,
            }
        },
        None => None,
    }
}

/// The encoding name of a `format` value.
fn format_name_exec(s: &[u8], pos: usize) -> (r: Option<(usize, EventEncoding)>)
    ensures
        match r {
            Some((p, e)) => format_name(s@, pos as int) == Some((p as int, e)) && pos < p <= s@.len(),
            None => format_name(s@, pos as int) is None,
        },
{
    let lit: [u8; 5] = [0x45, 0x56, 0x54, 0x32, 0x31]; // "EVT21"
    assert(lit@ =~= evt21_name());
    if let Some(p) = lit_after(s, pos, &lit) {
        return Some((p, EventEncoding::Evt21));
    }
    let lit: [u8; 4] = [0x45, 0x56, 0x54, 0x32]; // "EVT2"
    assert(lit@ =~= evt2_name());
    if let Some(p) = lit_after(s, pos, &lit) {
        return Some((p, EventEncoding::Evt20));
    }
    let lit: [u8; 4] = [0x45, 0x56, 0x54, 0x33]; // "EVT3"
    assert(lit@ =~= evt3_name());
    if let Some(p) = lit_after(s, pos, &lit) {
        return Some((p, EventEncoding::Evt30));
    }
    None
}

/// A `format` value.
fn format_value_exec(s: &[u8], pos: usize) -> (r: Option<(usize, EventEncoding, Geometry)>)
    ensures
        match r {
            Some((p, e, g)) => format_value(s@, pos as int) == Some((p as int, e, g)) && pos < p
                <= s@.len(),
            None => format_value(s@, pos as int) is None,
        },
{
    let (p1, encoding) = match format_name_exec(s, pos) {
        Some(x) => x,
        None => return None,
    };
    if !(p1 < s.len() && s[p1] == SEMICOLON) {
        return None;
    }
    let lit: [u8; 7] = [0x68, 0x65, 0x69, 0x67, 0x68, 0x74, 0x3D]; // "height="
    assert(lit@ =~= height_eq());
    let h = match lit_after(s, p1 + 1, &lit) {
        Some(h) => h,
        None => return None,
    };
    let (p2, height) = match decimal_at(s, h) {
        Some(x) => x,
        None => return None,
    };
    if !(p2 < s.len() && s[p2] == SEMICOLON) {
        return None;
    }
    let lit: [u8; 6] = [0x77, 0x69, 0x64, 0x74, 0x68, 0x3D]; // "width="
    assert(lit@ =~= width_eq());
    let w = match lit_after(s, p2 + 1, &lit) {
        Some(w) => w,
        None => return None,
    };
    let (p3, width) = match decimal_at(s, w) {
        Some(x) => x,
        None => return None,
    };
    if !(p3 < s.len() && s[p3] == LF) {
        return None;
    }
    Some((p3 + 1, encoding, Geometry { width, height }))
}

/// An `evt` value.
fn evt_version_exec(s: &[u8], pos: usize) -> (r: Option<(usize, EventEncoding)>)
    ensures
        match r {
            Some((p, e)) => evt_version(s@, pos as int) == Some((p as int, e)) && pos < p <= s@.len(),
            None => evt_version(s@, pos as int) is None,
        },
{
    let lit: [u8; 3] = [0x32, 0x2E, 0x30]; // "2.0"
    assert(lit@ =~= version_2_0());
    let (p, encoding) = match lit_after(s, pos, &lit) {
        Some(p) => (p, EventEncoding::Evt20),
        None => {
            let lit: [u8; 3] = [0x32, 0x2E, 0x31]; // "2.1"
            assert(lit@ =~= version_2_1());
            match lit_after(s, pos, &lit) {
                Some(p) => (p, EventEncoding::Evt21),
                None => {
                    let lit: [u8; 3] = [0x33, 0x2E, 0x30]; // "3.0"
                    assert(lit@ =~= version_3_0());
                    match lit_after(s, pos, &lit) {
                        Some(p) => (p, EventEncoding::Evt30),
                        None => return None,
                    }
                },
            }
        },
    };
    if p < s.len() && s[p] == LF {
        Some((p + 1, encoding))
    } else {
        None
    }
}

/// A `geometry` value.
fn geometry_value_exec(s: &[u8], pos: usize) -> (r: Option<(usize, Geometry)>)
    ensures
        match r {
            Some((p, g)) => geometry_value(s@, pos as int) == Some((p as int, g)) && pos < p <= s@.len(),
            None => geometry_value(s@, pos as int) is None,
        },
{
    let (p1, width) = match decimal_at(s, pos) {
        Some(x) => x,
        None => return None,
    };
    if !(p1 < s.len() && s[p1] == TIMES) {
        return None;
    }
    let (p2, height) = match decimal_at(s, p1 + 1) {
        Some(x) => x,
        None => return None,
    };
    if !(p2 < s.len() && s[p2] == LF) {
        return None;
    }
    Some((p2 + 1, Geometry { width, height }))
}

/// Applies a text-valued line with key bytes `key` (whose text is
/// `key_text`) and value `t`.
fn assign_text_exec(b: MetadataBuilder, key: &[u8], key_text: String, t: String) -> (r:
    MetadataBuilder)
    requires
        key_text@ == decode_utf8(key@),
    ensures
        r@ == assign_text(b@, key@, t@),
{
    let lit: [u8; 22] = [0x63, 0x61, 0x6D, 0x65, 0x72, 0x61, 0x5F, 0x69, 0x6E, 0x74, 0x65, 0x67, 0x72, 0x61, 0x74, 0x6F, 0x72, 0x5F, 0x6E, 0x61, 0x6D, 0x65]; // "camera_integrator_name"
    assert(lit@ =~= key_camera_integrator_name());
    if bytes_equal(key, &lit) {
        return b.with_camera_integrator_name(t);
    }
    let lit: [u8; 15] = [0x69, 0x6E, 0x74, 0x65, 0x67, 0x72, 0x61, 0x74, 0x6F, 0x72, 0x5F, 0x6E, 0x61, 0x6D, 0x65]; // "integrator_name"
    assert(lit@ =~= key_integrator_name());
    if bytes_equal(key, &lit) {
        if b.camera_integrator_name().is_none() {
            return b.with_camera_integrator_name(t);
        } else {
            return b;
        }
    }
    let lit: [u8; 22] = [0x70, 0x6C, 0x75, 0x67, 0x69, 0x6E, 0x5F, 0x69, 0x6E, 0x74, 0x65, 0x67, 0x72, 0x61, 0x74, 0x6F, 0x72, 0x5F, 0x6E, 0x61, 0x6D, 0x65]; // "plugin_integrator_name"
    assert(lit@ =~= key_plugin_integrator_name());
    if bytes_equal(key, &lit) {
        return b.with_plugin_integrator_name(t);
    }
    let lit: [u8; 11] = [0x70, 0x6C, 0x75, 0x67, 0x69, 0x6E, 0x5F, 0x6E, 0x61, 0x6D, 0x65]; // "plugin_name"
    assert(lit@ =~= key_plugin_name());
    if bytes_equal(key, &lit) {
        return b.with_plugin_name(t);
    }
    let lit: [u8; 13] = [0x73, 0x65, 0x72, 0x69, 0x61, 0x6C, 0x5F, 0x6E, 0x75, 0x6D, 0x62, 0x65, 0x72]; // "serial_number"
    assert(lit@ =~= key_serial_number());
    if bytes_equal(key, &lit) {
        return b.with_serial_number(t);
    }
    let lit: [u8; 9] = [0x73, 0x79, 0x73, 0x74, 0x65, 0x6D, 0x5F, 0x49, 0x44]; // "system_ID"
    assert(lit@ =~= key_system_id());
    if bytes_equal(key, &lit) {
        return b.with_system_id(t);
    }
    let lit: [u8; 4] = [0x64, 0x61, 0x74, 0x65]; // "date"
    assert(lit@ =~= key_date());
    if bytes_equal(key, &lit) {
        return b.with_date(t);
    }
    let lit: [u8; 10] = [0x67, 0x65, 0x6E, 0x65, 0x72, 0x61, 0x74, 0x69, 0x6F, 0x6E]; // "generation"
    assert(lit@ =~= key_generation());
    if bytes_equal(key, &lit) {
        return b.with_generation(t);
    }
    let lit: [u8; 17] = [0x73, 0x65, 0x6E, 0x73, 0x6F, 0x72, 0x5F, 0x67, 0x65, 0x6E, 0x65, 0x72, 0x61, 0x74, 0x69, 0x6F, 0x6E]; // "sensor_generation"
    assert(lit@ =~= key_sensor_generation());
    if bytes_equal(key, &lit) {
        if b.generation().is_none() {
            return b.with_generation(t);
        } else {
            return b;
        }
    }
    b.with_extra(key_text, t)
}

/// Reads the line whose value starts at `v`, for key bytes `key`.
fn key_line_exec(s: &[u8], v: usize, key: &[u8], key_text: String, b: MetadataBuilder) -> (r: (
    LineOutcome,
    MetadataBuilder,
))
    requires
        v <= s@.len(),
        key_text@ == decode_utf8(key@),
    ensures
        match key_line(s@, v as int, key@, b@) {
            LineStep::Next(p, f) => r.0 matches LineOutcome::Next(q) && q == p && r.1@ == f && v < p
                <= s@.len(),
            LineStep::Invalid => r.0 is Invalid,
            _ => false,
        },
{
    let lit: [u8; 6] = [0x66, 0x6F, 0x72, 0x6D, 0x61, 0x74]; // "format"
    assert(lit@ =~= key_format());
    if bytes_equal(key, &lit) {
        return match format_value_exec(s, v) {
            Some((p, encoding, geometry)) => (
                LineOutcome::Next(p),
                b.with_encoding(encoding).with_geometry(geometry),
            ),
            None => (LineOutcome::Invalid, b),
        };
    }
    let lit: [u8; 3] = [0x65, 0x76, 0x74]; // "evt"
    assert(lit@ =~= key_evt());
    if bytes_equal(key, &lit) {
        return match evt_version_exec(s, v) {
            Some((p, encoding)) => (LineOutcome::Next(p), b.with_encoding(encoding)),
            None => (LineOutcome::Invalid, b),
        };
    }
    let lit: [u8; 8] = [0x67, 0x65, 0x6F, 0x6D, 0x65, 0x74, 0x72, 0x79]; // "geometry"
    assert(lit@ =~= key_geometry());
    if bytes_equal(key, &lit) {
        return match geometry_value_exec(s, v) {
            Some((p, geometry)) => (LineOutcome::Next(p), b.with_geometry(geometry)),
            None => (LineOutcome::Invalid, b),
        };
    }
    match text_at_exec(s, v) {
        Some((p, t)) => (LineOutcome::Next(p), assign_text_exec(b, key, key_text, t)),
        None => (LineOutcome::Invalid, b),
    }
}

/// Reads the header line at `pos`.
fn header_line_exec(s: &[u8], pos: usize, b: MetadataBuilder) -> (r: (LineOutcome, MetadataBuilder))
    requires
        pos <= s@.len(),
    ensures
        outcome_is(r.0, r.1@, header_line(s@, pos as int, b@), b@, pos as int, s@.len() as int),
{
    let lit: [u8; 2] = [0x25, 0x20]; // "% "
    assert(lit@ =~= line_start());
    let key_start = match lit_after(s, pos, &lit) {
        Some(p) => p,
        None => return (LineOutcome::Stop, b),
    };
    let lit: [u8; 4] = [0x65, 0x6E, 0x64, 0x0A]; // "end\n"
    assert(lit@ =~= end_marker());
    if let Some(end) = lit_after(s, key_start, &lit) {
        return (LineOutcome::End(end), b);
    }
    let (k, value_start) = match field_end_exec(s, key_start, SPACE) {
        Some(x) => x,
        None => return (LineOutcome::Invalid, b),
    };
    let key = vstd::slice::slice_subrange(s, key_start, k);
    let key_text = match utf8_string(key) {
        Some(t) => t,
        None => return (LineOutcome::Invalid, b),
    };
    key_line_exec(s, value_start, key, key_text, b)
}

/// Parses the RAW header at the start of `input`: the number of bytes it
/// takes (the binary event data starts right after them) and the metadata.
pub fn raw_headers(input: &[u8]) -> (res: Result<(usize, Metadata), HeaderError>)
    ensures
        match res {
            Ok((n, m)) => n <= input@.len() && spec_raw_headers(input@) == Ok::<
                (int, MetadataFields),
                HeaderError,
            >((n as int, m@)),
            Err(e) => spec_raw_headers(input@) == Err::<(int, MetadataFields), HeaderError>(e),
        },
{
    let mut builder = MetadataBuilder::new();
    let mut pos: usize = 0;
    let mut end: usize = 0;
    loop
        invariant
            pos <= input@.len(),
            header_lines(input@, pos as int, builder@) == header_lines(input@, 0, no_fields()),
        ensures
            end <= input@.len(),
            header_lines(input@, 0, no_fields()) == Ok::<(int, MetadataFields), HeaderError>(
                (end as int, builder@),
            ),
        decreases input@.len() - pos,
    {
        let (outcome, b) = header_line_exec(input, pos, builder);
        builder = b;
        match outcome {
            LineOutcome::Stop => {
                end = pos;
                break;
            },
            LineOutcome::End(p) => {
                end = p;
                break;
            },
            LineOutcome::Invalid => {
                return Err(HeaderError::InvalidLine(pos));
            },
            LineOutcome::Next(p) => {
                pos = p;
            },
        }
    }

    if builder.encoding().is_none() {
        return Err(HeaderError::MissingEncoding);
    }
    if builder.geometry().is_none() {
        return Err(HeaderError::MissingGeometry);
    }
    match builder.build() {
        Some(metadata) => Ok((end, metadata)),
        None => Err(HeaderError::MissingEncoding),
    }
}

/// Parses `input` as a RAW header and nothing else.
pub fn parse_raw_headers(input: &[u8]) -> (res: Result<Metadata, HeaderError>)
    ensures
        match spec_raw_headers(input@) {
            Ok((n, f)) => if n == input@.len() {
                res matches Ok(m) && m@ == f
            } else {
                res == Err::<Metadata, HeaderError>(HeaderError::TrailingBytes(n as usize))
            },
            Err(e) => res == Err::<Metadata, HeaderError>(e),
        },
{
    match raw_headers(input) {
        Ok((n, m)) => if n == input.len() {
            Ok(m)
        } else {
            Err(HeaderError::TrailingBytes(n))
        },
        Err(e) => Err(e),
    }
}

/// Parses the RAW header at the start of `input`: the bytes after it (the
/// binary event data) and the metadata.
pub fn parse_raw_headers_peek(input: &[u8]) -> (res: Result<(&[u8], Metadata), HeaderError>)
    ensures
        match spec_raw_headers(input@) {
            Ok((n, f)) => res matches Ok((rest, m)) && rest@ == input@.subrange(n, input@.len() as int)
                && m@ == f,
            Err(e) => res matches Err(e2) && e2 == e,
        },
{
    match raw_headers(input) {
        Ok((n, m)) => Ok((vstd::slice::slice_subrange(input, n, input.len()), m)),
        Err(e) => Err(e),
    }
}

} // verus!
