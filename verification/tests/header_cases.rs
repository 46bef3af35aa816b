use ebkit::header::{parse_raw_headers, parse_raw_headers_peek, raw_headers, HeaderError};
use ebkit::metadata::{EventEncoding, Geometry};

#[test]
fn unsupported_format_name_is_invalid_line() {
    let input: &[u8] = b"% format EVT4;height=480;width=640\n% end\n";
    assert_eq!(parse_raw_headers(input).unwrap_err(), HeaderError::InvalidLine(0));
}

#[test]
fn evt21_format_name_selects_evt21() {
    let input: &[u8] = b"% format EVT21;height=480;width=640\n% end\n";
    let (n, m) = raw_headers(input).unwrap();
    assert_eq!(n, input.len());
    assert_eq!(m.encoding, Some(EventEncoding::Evt21));
    assert_eq!(m.geometry, Geometry { width: 640, height: 480 });
}

#[test]
fn invalid_line_reports_its_offset() {
    let input: &[u8] = b"% evt 3.0\n% geometry 12x\n% end\n";
    assert_eq!(parse_raw_headers(input).unwrap_err(), HeaderError::InvalidLine(10));
}

#[test]
fn missing_geometry_fails() {
    let input: &[u8] = b"% evt 2.0\n% end\n";
    assert_eq!(parse_raw_headers(input).unwrap_err(), HeaderError::MissingGeometry);
}

#[test]
fn missing_encoding_error_kind() {
    let input: &[u8] = b"% geometry 1280x720\n% end\n";
    assert_eq!(parse_raw_headers(input).unwrap_err(), HeaderError::MissingEncoding);
}

#[test]
fn trailing_bytes_refused_by_whole_input_parse() {
    let input: &[u8] = b"% format EVT2;height=480;width=640\n% end\n\x00";
    assert_eq!(parse_raw_headers(input).unwrap_err(), HeaderError::TrailingBytes(41));
}

#[test]
fn raw_headers_reports_consumed_length() {
    let input: &[u8] = b"% format EVT2;height=480;width=640\n% end\nDATA";
    let (n, m) = raw_headers(input).unwrap();
    assert_eq!(n, 41);
    assert_eq!(m.geometry, Geometry { width: 640, height: 480 });
}

#[test]
fn data_after_end_marker_does_not_matter() {
    let a: &[u8] = b"% evt 2.0\n% geometry 3x4\n% end\n% evt 3.0\n";
    let b: &[u8] = b"% evt 2.0\n% geometry 3x4\n% end\n\xFF\xFE";
    let (ra, ma) = parse_raw_headers_peek(a).unwrap();
    let (rb, mb) = parse_raw_headers_peek(b).unwrap();
    assert_eq!(ma, mb);
    assert_eq!(ra, b"% evt 3.0\n");
    assert_eq!(rb, b"\xFF\xFE");
}

#[test]
fn header_stops_before_line_without_marker() {
    let input: &[u8] = b"% evt 2.0\n% geometry 3x4\n%x rest";
    let (rest, m) = parse_raw_headers_peek(input).unwrap();
    assert_eq!(rest, b"%x rest");
    assert_eq!(m.encoding, Some(EventEncoding::Evt20));
}

#[test]
fn geometry_value_that_overflows_u16_is_invalid() {
    let input: &[u8] = b"% evt 2.0\n% geometry 65536x1\n% end\n";
    assert_eq!(parse_raw_headers(input).unwrap_err(), HeaderError::InvalidLine(10));
    let input: &[u8] = b"% evt 2.0\n% geometry 65535x0\n% end\n";
    let m = parse_raw_headers(input).unwrap();
    assert_eq!(m.geometry, Geometry { width: 65535, height: 0 });
}

#[test]
fn leading_zero_is_a_number_of_its_own() {
    let input: &[u8] = b"% evt 2.0\n% geometry 01x2\n% end\n";
    assert_eq!(parse_raw_headers(input).unwrap_err(), HeaderError::InvalidLine(10));
}

#[test]
fn integrator_name_fills_only_an_empty_camera_integrator_name() {
    let input: &[u8] =
        b"% evt 2.0\n% geometry 1x1\n% integrator_name First\n% integrator_name Second\n% end\n";
    let m = parse_raw_headers(input).unwrap();
    assert_eq!(m.camera_integrator_name.as_deref(), Some("First"));
    let input: &[u8] =
        b"% evt 2.0\n% geometry 1x1\n% integrator_name First\n% camera_integrator_name Cam\n% end\n";
    let m = parse_raw_headers(input).unwrap();
    assert_eq!(m.camera_integrator_name.as_deref(), Some("Cam"));
}

#[test]
fn sensor_generation_fills_only_an_empty_generation() {
    let input: &[u8] =
        b"% evt 2.0\n% geometry 1x1\n% sensor_generation 3.1\n% generation 4.2\n% sensor_generation 5\n% end\n";
    let m = parse_raw_headers(input).unwrap();
    assert_eq!(m.generation.as_deref(), Some("4.2"));
}

#[test]
fn later_lines_override_earlier_ones() {
    let input: &[u8] =
        b"% format EVT3;height=720;width=1280\n% evt 2.0\n% geometry 10x20\n% k 1\n% k 2\n% end\n";
    let m = parse_raw_headers(input).unwrap();
    assert_eq!(m.encoding, Some(EventEncoding::Evt20));
    assert_eq!(m.geometry, Geometry { width: 10, height: 20 });
    assert_eq!(m.extra.get("k"), Some("2"));
    assert_eq!(m.extra.get("missing"), None);
}

#[test]
fn non_utf8_key_or_value_is_invalid() {
    let input: &[u8] = b"% evt 2.0\n% geometry 1x1\n% k\xFF v\n% end\n";
    assert_eq!(parse_raw_headers(input).unwrap_err(), HeaderError::InvalidLine(25));
    let input: &[u8] = b"% evt 2.0\n% geometry 1x1\n% k \xFF\n% end\n";
    assert_eq!(parse_raw_headers(input).unwrap_err(), HeaderError::InvalidLine(25));
}

#[test]
fn line_without_value_is_invalid() {
    let input: &[u8] = b"% evt 2.0\n% geometry 1x1\n% key \n% end\n";
    assert_eq!(parse_raw_headers(input).unwrap_err(), HeaderError::InvalidLine(25));
}

#[test]
fn key_runs_to_the_next_space() {
    // The key is everything up to the next space, line feeds included.
    let input: &[u8] = b"% evt 2.0\n% geometry 1x1\n% key\n% end\n";
    let m = parse_raw_headers(input).unwrap();
    assert_eq!(m.extra.get("key\n%"), Some("end"));
}

#[test]
fn end_marker_without_newline_is_invalid() {
    let input: &[u8] = b"% evt 2.0\n% geometry 1x1\n% end";
    assert_eq!(parse_raw_headers(input).unwrap_err(), HeaderError::InvalidLine(25));
}

#[test]
fn utf8_values_are_kept() {
    let input = "% evt 3.0\n% geometry 1x1\n% owner Zoë\n% end\n".as_bytes();
    let m = parse_raw_headers(input).unwrap();
    assert_eq!(m.extra.get("owner"), Some("Zoë"));
}

#[test]
fn empty_input_has_no_encoding() {
    assert_eq!(parse_raw_headers(b"").unwrap_err(), HeaderError::MissingEncoding);
}
