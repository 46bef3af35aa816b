//! What holds of every RAW header read: where the header ends, and that the
//! bytes after it do not change how it is read.

use vstd::prelude::*;

use crate::header::{
    byte_at, end_marker, evt_version, field_end, find_byte, format_name, format_value,
    geometry_value, header_line, header_lines, key_line, line_start, lit_at, spec_raw_headers,
    text_at, LineStep, LF, SPACE,
};
use crate::metadata::{no_fields, MetadataFields};
use crate::number::{digits_end, digits_value, spec_decimal_at};

verus! {

/// The header lines from `pos` end inside `s`, either before bytes that do
/// not start with `% ` or right after a `% end\n` line.
proof fn lemma_lines_end(s: Seq<u8>, pos: int, b: MetadataFields)
    requires
        0 <= pos <= s.len(),
    ensures
        header_lines(s, pos, b) matches Ok((n, f)) ==> {
            &&& pos <= n <= s.len()
            &&& !lit_at(s, n, line_start()) || (pos <= n - 6 && s.subrange(n - 6, n) == line_start()
                + end_marker())
        },
    decreases s.len() - pos,
{
    match header_line(s, pos, b) {
        LineStep::End(p) => {
            assert(s.subrange(pos, pos + 6) =~= s.subrange(pos, pos + 2) + s.subrange(
                pos + 2,
                pos + 6,
            ));
        },
        LineStep::Next(p, b2) => {
            if pos < p <= s.len() {
                lemma_lines_end(s, p, b2);
            }
        },
        _ => {},
    }
}

/// A header line from `a` up to `b`: it starts with `% ` and its last byte,
/// at `b - 1`, is a line feed.
pub open spec fn line_at(s: Seq<u8>, a: int, b: int) -> bool {
    &&& a + 3 <= b
    &&& lit_at(s, a, line_start())
    &&& byte_at(s, b - 1, LF)
}

/// Consecutive header lines between the offsets in `cuts`.
pub open spec fn line_run(s: Seq<u8>, cuts: Seq<int>) -> bool
    decreases cuts.len(),
{
    if cuts.len() <= 1 {
        true
    } else {
        line_at(s, cuts[0], cuts[1]) && line_run(s, cuts.drop_first())
    }
}

/// The bytes of `s` from `pos` up to `n` are header lines, one after
/// another, split at the offsets in `cuts`.
pub open spec fn lines_between(s: Seq<u8>, cuts: Seq<int>, pos: int, n: int) -> bool {
    &&& cuts.len() >= 1
    &&& cuts[0] == pos
    &&& cuts.last() == n
    &&& line_run(s, cuts)
}

proof fn lemma_find_hits(s: Seq<u8>, pos: int, d: u8)
    requires
        0 <= pos,
    ensures
        find_byte(s, pos, d) < s.len() ==> s[find_byte(s, pos, d)] == d,
    decreases s.len() - pos,
{
    if pos < s.len() && s[pos] != d {
        lemma_find_hits(s, pos + 1, d);
    }
}

/// A header line that is read, the end marker among them, starts with `% `
/// and ends with a line feed.
proof fn lemma_line_shape(s: Seq<u8>, pos: int, b: MetadataFields)
    requires
        0 <= pos,
    ensures
        header_line(s, pos, b) matches LineStep::Next(p, f) ==> line_at(s, pos, p),
        header_line(s, pos, b) matches LineStep::End(p) ==> line_at(s, pos, p),
{
    match header_line(s, pos, b) {
        LineStep::End(p) => {
            assert(s[pos + 5] == s.subrange(pos + 2, pos + 6)[3]);
        },
        LineStep::Next(p, f) => {
            lemma_line_advances(s, pos, b);
            let k = field_end(s, pos + 2, SPACE)->Some_0;
            let key = s.subrange(pos + 2, k);
            let v = k + 1;
            if key != crate::header::key_format() && key != crate::header::key_evt() && key
                != crate::header::key_geometry() {
                lemma_find_hits(s, v, LF);
            }
        },
        _ => {},
    }
}

/// The header lines from `pos` on, where they are read without error, are a
/// run of whole lines up to where the header ends.
proof fn lemma_lines_shape(s: Seq<u8>, pos: int, b: MetadataFields) -> (cuts: Seq<int>)
    requires
        0 <= pos <= s.len(),
    ensures
        header_lines(s, pos, b) matches Ok((n, f)) ==> lines_between(s, cuts, pos, n),
    decreases s.len() - pos,
{
    lemma_line_shape(s, pos, b);
    match header_line(s, pos, b) {
        LineStep::End(p) => {
            let cuts = seq![pos, p];
            assert(line_run(s, cuts.drop_first()));
            cuts
        },
        LineStep::Next(p, b2) => {
            if pos < p <= s.len() {
                let rest = lemma_lines_shape(s, p, b2);
                let cuts = seq![pos] + rest;
                if header_lines(s, p, b2) is Ok {
                    assert(cuts.drop_first() =~= rest);
                    assert(cuts[1] == p);
                }
                cuts
            } else {
                seq![pos]
            }
        },
        _ => seq![pos],
    }
}

/// Where a RAW header ends, and what it is made of: it ends within the
/// input, either at bytes that do not start a header line (`% `) or right
/// after the `% end\n` line, and the bytes before that point are header
/// lines, each starting with `% ` and ending with a line feed. The binary
/// event data starts at that byte.
pub proof fn lemma_header_end(s: Seq<u8>)
    ensures
        spec_raw_headers(s) matches Ok((n, f)) ==> {
            &&& 0 <= n <= s.len()
            &&& !lit_at(s, n, line_start()) || (n >= 6 && s.subrange(n - 6, n) == line_start()
                + end_marker())
            &&& exists|cuts: Seq<int>| #[trigger] lines_between(s, cuts, 0, n)
        },
{
    lemma_lines_end(s, 0, no_fields());
    let cuts = lemma_lines_shape(s, 0, no_fields());
    if spec_raw_headers(s) is Ok {
        assert(lines_between(s, cuts, 0, spec_raw_headers(s)->Ok_0.0));
    }
}

/// `s` and `t` hold the same first `q` bytes.
pub open spec fn agree(s: Seq<u8>, t: Seq<u8>, q: int) -> bool {
    &&& 0 <= q <= s.len()
    &&& q <= t.len()
    &&& forall|i: int| 0 <= i < q ==> #[trigger] s[i] == t[i]
}

proof fn lemma_lit_frame(s: Seq<u8>, t: Seq<u8>, q: int, pos: int, lit: Seq<u8>)
    requires
        agree(s, t, q),
        0 <= pos,
        pos + lit.len() <= q,
    ensures
        lit_at(s, pos, lit) == lit_at(t, pos, lit),
{
    assert(s.subrange(pos, pos + lit.len()) =~= t.subrange(pos, pos + lit.len()));
}

proof fn lemma_find_bounds(s: Seq<u8>, pos: int, d: u8)
    requires
        0 <= pos,
    ensures
        pos <= s.len() ==> pos <= find_byte(s, pos, d) <= s.len(),
    decreases s.len() - pos,
{
    if pos < s.len() && s[pos] != d {
        lemma_find_bounds(s, pos + 1, d);
    }
}

proof fn lemma_find_frame(s: Seq<u8>, t: Seq<u8>, q: int, pos: int, d: u8)
    requires
        agree(s, t, q),
        0 <= pos,
        find_byte(s, pos, d) < q,
    ensures
        find_byte(t, pos, d) == find_byte(s, pos, d),
    decreases s.len() - pos,
{
    if pos < s.len() {
        lemma_find_bounds(s, pos, d);
        assert(s[pos] == t[pos]);
        if s[pos] != d {
            lemma_find_frame(s, t, q, pos + 1, d);
        }
    }
}

proof fn lemma_field_end_frame(s: Seq<u8>, t: Seq<u8>, q: int, pos: int, d: u8)
    requires
        agree(s, t, q),
        0 <= pos,
        field_end(s, pos, d) matches Some(k) && k < q,
    ensures
        field_end(t, pos, d) == field_end(s, pos, d),
{
    lemma_find_frame(s, t, q, pos, d);
}

proof fn lemma_text_frame(s: Seq<u8>, t: Seq<u8>, q: int, pos: int)
    requires
        agree(s, t, q),
        0 <= pos,
        text_at(s, pos) matches Some((p, v)) && p <= q,
    ensures
        text_at(t, pos) == text_at(s, pos),
        text_at(s, pos) matches Some((p, v)) && pos + 2 <= p,
{
    lemma_field_end_frame(s, t, q, pos, LF);
    let k = field_end(s, pos, LF)->Some_0;
    assert(s.subrange(pos, k) =~= t.subrange(pos, k));
}

proof fn lemma_digits_end_frame(a: Seq<u8>, b: Seq<u8>, m: int, i: int)
    requires
        agree(a, b, m),
        0 <= i,
        digits_end(a, i) < m,
    ensures
        digits_end(b, i) == digits_end(a, i),
    decreases a.len() - i,
{
    if 0 <= i < a.len() {
        crate::number::lemma_digits_end(a, i);
        assert(a[i] == b[i]);
        if crate::number::is_digit(a[i]) {
            lemma_digits_end_frame(a, b, m, i + 1);
        }
    }
}

proof fn lemma_digits_value_frame(a: Seq<u8>, b: Seq<u8>, m: int, n: int)
    requires
        agree(a, b, m),
        n <= m,
    ensures
        digits_value(b, n) == digits_value(a, n),
    decreases n,
{
    if n > 0 {
        assert(a[n - 1] == b[n - 1]);
        lemma_digits_value_frame(a, b, m, n - 1);
    }
}

/// A decimal number takes at least one byte, within the input.
proof fn lemma_decimal_advances(s: Seq<u8>, pos: int)
    ensures
        spec_decimal_at(s, pos) matches Some((p, v)) ==> 0 <= pos < p <= s.len(),
{
    if 0 <= pos <= s.len() {
        crate::number::lemma_decimal_prefix_len(s.subrange(pos, s.len() as int));
    }
}

proof fn lemma_decimal_frame(s: Seq<u8>, t: Seq<u8>, q: int, pos: int)
    requires
        agree(s, t, q),
        spec_decimal_at(s, pos) matches Some((p, v)) && p < q,
    ensures
        spec_decimal_at(t, pos) == spec_decimal_at(s, pos),
        spec_decimal_at(s, pos) matches Some((p, v)) && pos < p,
{
    lemma_decimal_advances(s, pos);
    let a = s.subrange(pos, s.len() as int);
    let b = t.subrange(pos, t.len() as int);
    let m = q - pos;
    assert forall|i: int| 0 <= i < m implies #[trigger] a[i] == b[i] by {
        assert(s[pos + i] == t[pos + i]);
    }
    assert(agree(a, b, m));
    crate::number::lemma_decimal_prefix_len(a);
    if a.len() > 0 && 0x31 <= a[0] <= 0x39 {
        lemma_digits_end_frame(a, b, m, 0);
        lemma_digits_value_frame(a, b, m, digits_end(a, 0));
    }
}

proof fn lemma_format_frame(s: Seq<u8>, t: Seq<u8>, q: int, pos: int)
    requires
        agree(s, t, q),
        0 <= pos,
        format_value(s, pos) matches Some((p, e, g)) && p <= q,
    ensures
        format_value(t, pos) == format_value(s, pos),
        format_value(s, pos) matches Some((p, e, g)) && pos + 2 <= p,
{
    let p1 = format_name(s, pos)->Some_0.0;
    assert(pos + 4 <= p1);
    let p2 = spec_decimal_at(s, p1 + 8)->Some_0.0;
    let p3 = spec_decimal_at(s, p2 + 7)->Some_0.0;
    lemma_decimal_advances(s, p1 + 8);
    lemma_decimal_advances(s, p2 + 7);
    assert(p1 + 8 < p2 + 7 < p3 < format_value(s, pos)->Some_0.0);
    lemma_lit_frame(s, t, q, pos, crate::header::evt2_name());
    lemma_lit_frame(s, t, q, pos, crate::header::evt21_name());
    lemma_lit_frame(s, t, q, pos, crate::header::evt3_name());
    assert(format_name(t, pos) == format_name(s, pos));
    lemma_lit_frame(s, t, q, p1 + 1, crate::header::height_eq());
    lemma_decimal_frame(s, t, q, p1 + 8);
    lemma_lit_frame(s, t, q, p2 + 1, crate::header::width_eq());
    lemma_decimal_frame(s, t, q, p2 + 7);
}

proof fn lemma_evt_frame(s: Seq<u8>, t: Seq<u8>, q: int, pos: int)
    requires
        agree(s, t, q),
        0 <= pos,
        evt_version(s, pos) matches Some((p, e)) && p <= q,
    ensures
        evt_version(t, pos) == evt_version(s, pos),
        evt_version(s, pos) matches Some((p, e)) && pos + 2 <= p,
{
    lemma_lit_frame(s, t, q, pos, crate::header::version_2_0());
    lemma_lit_frame(s, t, q, pos, crate::header::version_2_1());
    lemma_lit_frame(s, t, q, pos, crate::header::version_3_0());
}

proof fn lemma_geometry_frame(s: Seq<u8>, t: Seq<u8>, q: int, pos: int)
    requires
        agree(s, t, q),
        0 <= pos,
        geometry_value(s, pos) matches Some((p, g)) && p <= q,
    ensures
        geometry_value(t, pos) == geometry_value(s, pos),
        geometry_value(s, pos) matches Some((p, g)) && pos + 2 <= p,
{
    let p1 = spec_decimal_at(s, pos)->Some_0.0;
    lemma_decimal_advances(s, pos);
    lemma_decimal_advances(s, p1 + 1);
    lemma_decimal_frame(s, t, q, pos);
    lemma_decimal_frame(s, t, q, p1 + 1);
}

proof fn lemma_key_line_frame(
    s: Seq<u8>,
    t: Seq<u8>,
    q: int,
    v: int,
    key: Seq<u8>,
    b: MetadataFields,
)
    requires
        agree(s, t, q),
        0 <= v,
        key_line(s, v, key, b) matches LineStep::Next(p, f) && p <= q,
    ensures
        key_line(t, v, key, b) == key_line(s, v, key, b),
        key_line(s, v, key, b) matches LineStep::Next(p, f) && v + 2 <= p,
{
    if key == crate::header::key_format() {
        lemma_format_frame(s, t, q, v);
    } else if key == crate::header::key_evt() {
        lemma_evt_frame(s, t, q, v);
    } else if key == crate::header::key_geometry() {
        lemma_geometry_frame(s, t, q, v);
    } else {
        lemma_text_frame(s, t, q, v);
    }
}

/// A header line reads the same from any input that holds the same bytes up
/// to its end, and it is at least six bytes long.
pub(crate) proof fn lemma_line_frame(s: Seq<u8>, t: Seq<u8>, q: int, pos: int, b: MetadataFields)
    requires
        agree(s, t, q),
        0 <= pos,
        header_line(s, pos, b) matches LineStep::Next(p, f) && p <= q,
    ensures
        header_line(t, pos, b) == header_line(s, pos, b),
        header_line(s, pos, b) matches LineStep::Next(p, f) && pos + 6 <= p,
{
    let k = field_end(s, pos + 2, SPACE)->Some_0;
    let key = s.subrange(pos + 2, k);
    lemma_key_line_frame(s, t, q, k + 1, key, b);
    lemma_lit_frame(s, t, q, pos, line_start());
    lemma_lit_frame(s, t, q, pos + 2, end_marker());
    lemma_field_end_frame(s, t, q, pos + 2, SPACE);
    assert(key =~= t.subrange(pos + 2, k));
}

/// Every header line that is read moves forward by at least six bytes and
/// stays within the input: the guard in `header_lines` always holds.
pub proof fn lemma_line_advances(s: Seq<u8>, pos: int, b: MetadataFields)
    requires
        0 <= pos,
    ensures
        header_line(s, pos, b) matches LineStep::Next(p, f) ==> pos + 6 <= p <= s.len(),
{
    if header_line(s, pos, b) is Next {
        let k = field_end(s, pos + 2, SPACE)->Some_0;
        let key = s.subrange(pos + 2, k);
        let v = k + 1;
        if key == crate::header::key_format() {
            let p1 = format_name(s, v)->Some_0.0;
            let p2 = spec_decimal_at(s, p1 + 8)->Some_0.0;
            let p3 = spec_decimal_at(s, p2 + 7)->Some_0.0;
            assert(p3 < s.len());
        } else if key == crate::header::key_geometry() {
            let p1 = spec_decimal_at(s, v)->Some_0.0;
            let p2 = spec_decimal_at(s, p1 + 1)->Some_0.0;
            assert(p2 < s.len());
        }
        assert(agree(s, s, s.len() as int));
        lemma_line_frame(s, s, s.len() as int, pos, b);
    }
}

/// The lines from `pos` to the end of `s` are whole header lines (none of
/// them the end marker); the fields after them.
pub open spec fn header_body(s: Seq<u8>, pos: int, b: MetadataFields) -> Option<MetadataFields>
    decreases s.len() - pos,
{
    if pos == s.len() {
        Some(b)
    } else if 0 <= pos < s.len() {
        match header_line(s, pos, b) {
            LineStep::Next(p, b2) => if pos < p <= s.len() {
                header_body(s, p, b2)
            } else {
                None
            },
            _ => None,
        }
    } else {
        None
    }
}

proof fn lemma_body_frame(h: Seq<u8>, x: Seq<u8>, pos: int, b: MetadataFields)
    requires
        0 <= pos <= h.len(),
        header_body(h, pos, b) is Some,
    ensures
        header_lines(h + x, pos, b) == header_lines(h + x, h.len() as int, header_body(h, pos, b)->Some_0),
    decreases h.len() - pos,
{
    if pos < h.len() {
        let s = h + x;
        assert(agree(h, s, h.len() as int));
        let p = header_line(h, pos, b)->Next_0;
        let b2 = header_line(h, pos, b)->Next_1;
        lemma_line_frame(h, s, h.len() as int, pos, b);
        lemma_body_frame(h, x, p, b2);
    }
}

/// A header made of whole lines and closed by `% end\n` reads the same, and
/// ends right after the end marker, whatever data follows it.
pub proof fn lemma_end_marker_closes(h: Seq<u8>, data: Seq<u8>)
    requires
        header_body(h, 0, no_fields()) is Some,
    ensures
        header_lines(h + line_start() + end_marker() + data, 0, no_fields()) == Ok::<
            (int, MetadataFields),
            crate::header::HeaderError,
        >((h.len() + 6int, header_body(h, 0, no_fields())->Some_0)),
        spec_raw_headers(h + line_start() + end_marker() + data) == spec_raw_headers(
            h + line_start() + end_marker(),
        ),
{
    lemma_end_marker_lines(h, data);
    lemma_end_marker_lines(h, Seq::empty());
    assert(h + line_start() + end_marker() + Seq::<u8>::empty() =~= h + line_start()
        + end_marker());
}

proof fn lemma_end_marker_lines(h: Seq<u8>, data: Seq<u8>)
    requires
        header_body(h, 0, no_fields()) is Some,
    ensures
        header_lines(h + line_start() + end_marker() + data, 0, no_fields()) == Ok::<
            (int, MetadataFields),
            crate::header::HeaderError,
        >((h.len() + 6int, header_body(h, 0, no_fields())->Some_0)),
{
    let x = line_start() + end_marker() + data;
    let s = h + x;
    assert(h + line_start() + end_marker() + data =~= s);
    lemma_body_frame(h, x, 0, no_fields());
    assert(s.subrange(h.len() as int, h.len() + 2int) =~= line_start());
    assert(s.subrange(h.len() + 2int, h.len() + 6int) =~= end_marker());
}

/// A header made of whole lines and followed by data that does not start
/// with `% ` ends right before that data, whatever the data holds.
pub proof fn lemma_data_after_lines(h: Seq<u8>, data: Seq<u8>)
    requires
        header_body(h, 0, no_fields()) is Some,
        !lit_at(data, 0, line_start()),
    ensures
        header_lines(h + data, 0, no_fields()) == Ok::<
            (int, MetadataFields),
            crate::header::HeaderError,
        >((h.len() as int, header_body(h, 0, no_fields())->Some_0)),
        spec_raw_headers(h + data) == spec_raw_headers(h),
{
    let s = h + data;
    lemma_body_frame(h, data, 0, no_fields());
    if lit_at(s, h.len() as int, line_start()) {
        assert(data.subrange(0, 2) =~= s.subrange(h.len() as int, h.len() + 2int));
    }
    lemma_body_frame(h, Seq::empty(), 0, no_fields());
    assert(h + Seq::<u8>::empty() =~= h);
}

} // verus!
