use radar_pipeline::config::RadarConfig;
use radar_pipeline::json::{
    format_config_json, format_infraction_json, format_target_data_json, parse_config_json,
};
use radar_pipeline::lex::tokenize;
use radar_pipeline::numtext::{format_i64, format_u64, parse_digits_bounded, parse_i16};
use radar_pipeline::recorder::TargetSample;
use radar_pipeline::uploader::format_multipart_body;

#[test]
fn decimal_formatting_is_canonical() {
    assert_eq!(format_u64(0), b"0".to_vec());
    assert_eq!(format_u64(7), b"7".to_vec());
    assert_eq!(format_u64(10), b"10".to_vec());
    assert_eq!(format_u64(65535), b"65535".to_vec());
    assert_eq!(format_i64(-1), b"-1".to_vec());
    assert_eq!(format_i64(-32768), b"-32768".to_vec());
    assert_eq!(format_i64(i64::MIN), b"-9223372036854775808".to_vec());
    assert_eq!(format_i64(i64::MAX), b"9223372036854775807".to_vec());
}

#[test]
fn decimal_parsing_matches_rust_semantics() {
    assert_eq!(parse_i16(b"40"), Some(40));
    assert_eq!(parse_i16(b"+40"), Some(40));
    assert_eq!(parse_i16(b"-40"), Some(-40));
    assert_eq!(parse_i16(b"007"), Some(7));
    assert_eq!(parse_i16(b"-32768"), Some(-32768));
    assert_eq!(parse_i16(b"32767"), Some(32767));
    assert_eq!(parse_i16(b"32768"), None);
    assert_eq!(parse_i16(b"-32769"), None);
    assert_eq!(parse_i16(b""), None);
    assert_eq!(parse_i16(b"-"), None);
    assert_eq!(parse_i16(b"+"), None);
    assert_eq!(parse_i16(b"4 0"), None);
    assert_eq!(parse_i16(b"9999999999999999999999"), None);

    assert_eq!(parse_digits_bounded(b"1000", 1000), Some(1000));
    assert_eq!(parse_digits_bounded(b"1001", 1000), None);
    assert_eq!(parse_digits_bounded(b"x", 1000), None);
}

#[test]
fn tokenizer_splits_on_whitespace_runs() {
    let toks = tokenize(b"  40  1000\t2000 ");
    assert_eq!(toks, vec![b"40".to_vec(), b"1000".to_vec(), b"2000".to_vec()]);
    assert_eq!(tokenize(b""), Vec::<Vec<u8>>::new());
    assert_eq!(tokenize(b"   "), Vec::<Vec<u8>>::new());
    assert_eq!(tokenize(b"one"), vec![b"one".to_vec()]);
}

#[test]
fn infraction_json_has_the_documented_shape() {
    let out = format_infraction_json(40, 25, b"Lorgues", b"2024-06-01T12:00:00+00:00");
    assert_eq!(
        out,
        br#"{"recorded_speed":40,"authorized_speed":25,"location":"Lorgues","datetime_taken":"2024-06-01T12:00:00+00:00"}"#.to_vec()
    );
}

#[test]
fn infraction_json_escapes_the_location() {
    let out = format_infraction_json(1, 2, b"a\"b\\c\n", b"t");
    assert_eq!(
        out,
        b"{\"recorded_speed\":1,\"authorized_speed\":2,\"location\":\"a\\\"b\\\\c\\u000a\",\"datetime_taken\":\"t\"}".to_vec()
    );
}

#[test]
fn config_json_round_trips() {
    let cfg = RadarConfig {
        authorized_speed: -5,
        min_dist_mm: 100,
        max_dist_mm: 10000,
        trigger_cooldown_ms: 1500,
    };
    let text = format_config_json(&cfg);
    assert_eq!(
        text,
        br#"{"authorized_speed":-5,"min_dist":100,"max_dist":10000,"trigger_cooldown":1500}"#.to_vec()
    );
    let back = parse_config_json(&text).expect("canonical text parses");
    assert_eq!(back.authorized_speed, cfg.authorized_speed);
    assert_eq!(back.min_dist_mm, cfg.min_dist_mm);
    assert_eq!(back.max_dist_mm, cfg.max_dist_mm);
    assert_eq!(back.trigger_cooldown_ms, cfg.trigger_cooldown_ms);
}

#[test]
fn config_parsing_rejects_broken_payloads() {
    // Wrong key order.
    assert!(parse_config_json(br#"{"min_dist":0,"authorized_speed":25,"max_dist":1,"trigger_cooldown":1}"#).is_none());
    // Missing field.
    assert!(parse_config_json(br#"{"authorized_speed":25,"min_dist":0,"max_dist":1}"#).is_none());
    // Trailing garbage.
    assert!(parse_config_json(br#"{"authorized_speed":25,"min_dist":0,"max_dist":1,"trigger_cooldown":1}x"#).is_none());
    // Not a number.
    assert!(parse_config_json(br#"{"authorized_speed":a,"min_dist":0,"max_dist":1,"trigger_cooldown":1}"#).is_none());
    // Shape fine, values invalid: min above max.
    assert!(parse_config_json(br#"{"authorized_speed":25,"min_dist":2,"max_dist":1,"trigger_cooldown":1}"#).is_none());
    // Shape fine, speed out of range.
    assert!(parse_config_json(br#"{"authorized_speed":40000,"min_dist":0,"max_dist":1,"trigger_cooldown":1}"#).is_none());
    assert!(parse_config_json(b"").is_none());
}

#[test]
fn target_data_json_carries_the_sample() {
    let sample = TargetSample { speed: 40, x: -1000, y: 2000, distance_mm: 2236, triggered: true };
    assert_eq!(
        format_target_data_json(&sample),
        br#"{"speed":40,"x":-1000,"y":2000,"distance":2236,"triggered":true}"#.to_vec()
    );
    let sample = TargetSample { speed: 3, x: 0, y: 0, distance_mm: 0, triggered: false };
    assert_eq!(
        format_target_data_json(&sample),
        br#"{"speed":3,"x":0,"y":0,"distance":0,"triggered":false}"#.to_vec()
    );
}

#[test]
fn multipart_body_has_both_parts_in_order() {
    let body = format_multipart_body(b"BOUND", b"t.jpg", b"JPEGDATA", b"{\"a\":1}");
    let expected = b"--BOUND\r\n\
Content-Disposition: form-data; name=\"photo\"; filename=\"t.jpg\"\r\n\
Content-Type: image/jpeg\r\n\r\n\
JPEGDATA\r\n\
--BOUND\r\n\
Content-Disposition: form-data; name=\"infraction\"\r\n\r\n\
{\"a\":1}\r\n\
--BOUND--\r\n"
        .to_vec();
    assert_eq!(body, expected);
}
