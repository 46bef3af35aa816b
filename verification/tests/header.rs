use ebkit::header::{parse_raw_headers, parse_raw_headers_peek};
use ebkit::metadata::EventEncoding;

#[test]
fn parse_typical_header() {
    let input: &[u8] = b"% camera_integrator_name Prophesee\n\
        % date 2023-03-29 16:37:46\n\
        % evt 3.0\n\
        % format EVT3;height=720;width=1280\n\
        % generation 4.2\n\
        % geometry 1280x720\n\
        % integrator_name Prophesee\n\
        % plugin_integrator_name Prophesee\n\
        % plugin_name hal_plugin_imx636_evk4\n\
        % sensor_generation 4.2\n\
        % serial_number 00ca0009\n\
        % system_ID 49\n\
        % end\n";

    let result = parse_raw_headers(input).unwrap();

    assert_eq!(result.encoding, Some(EventEncoding::Evt30));
    assert_eq!(result.geometry.width, 1280);
    assert_eq!(result.geometry.height, 720);
    assert_eq!(result.camera_integrator_name.as_deref(), Some("Prophesee"));
    assert_eq!(result.plugin_integrator_name.as_deref(), Some("Prophesee"));
    assert_eq!(
        result.plugin_name.as_deref(),
        Some("hal_plugin_imx636_evk4")
    );
    assert_eq!(result.serial_number.as_deref(), Some("00ca0009"));
    assert_eq!(result.system_id.as_deref(), Some("49"));
    assert_eq!(result.date.as_deref(), Some("2023-03-29 16:37:46"));
    assert_eq!(result.generation.as_deref(), Some("4.2"));
}

#[test]
fn stops_at_non_header_bytes() {
    let input: &[u8] = b"% format EVT3;height=720;width=1280\n% evt 3.0\n\x00\x01\x02";

    let (remaining, result) = parse_raw_headers_peek(input).unwrap();

    assert_eq!(result.encoding, Some(EventEncoding::Evt30));
    assert_eq!(result.geometry.width, 1280);
    assert_eq!(result.geometry.height, 720);
    assert_eq!(remaining, b"\x00\x01\x02");
}

#[test]
fn stops_at_end_marker() {
    let input: &[u8] = b"% format EVT2;height=480;width=640\n% end\n\x00\x01";

    let (remaining, result) = parse_raw_headers_peek(input).unwrap();

    assert_eq!(result.encoding, Some(EventEncoding::Evt20));
    assert_eq!(result.geometry.width, 640);
    assert_eq!(result.geometry.height, 480);
    assert_eq!(remaining, b"\x00\x01");
}

#[test]
fn missing_encoding_fails() {
    let input: &[u8] = b"% geometry 1280x720\n% end\n";

    assert!(parse_raw_headers(input).is_err());
}

#[test]
fn evt_fallback_works() {
    let input: &[u8] = b"% evt 2.1\n% geometry 1280x720\n% end\n";

    let result = parse_raw_headers(input).unwrap();

    assert_eq!(result.encoding, Some(EventEncoding::Evt21));
    assert_eq!(result.geometry.width, 1280);
    assert_eq!(result.geometry.height, 720);
}

#[test]
fn unknown_keys_land_in_extra() {
    let input: &[u8] = b"% format EVT2;height=480;width=640\n% custom_key custom_val\n% end\n";

    let result = parse_raw_headers(input).unwrap();

    assert_eq!(result.extra.get("custom_key"), Some("custom_val"));
}
