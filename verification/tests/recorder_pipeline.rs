use radar_pipeline::config::{validate_config, RadarConfig};
use radar_pipeline::evidence::EvidenceDir;
use radar_pipeline::recorder::{decide, parse_target_line, RecorderState, TargetEvent};
use radar_pipeline::uploader::{after_upload, uploader_step, UploaderAction, UploaderCommand};

#[test]
fn single_trigger_produces_one_evidence_pair() {
    // Config: authorized 25 km/h, window 0..10000 mm, cooldown 1000 ms.
    let state = RecorderState::new(25);
    let line = b"EVENTS: TARGET: 40 1000 2000";

    let (sample, pending) = state.observe(line, 10_000).expect("a target line");
    assert!(sample.triggered);
    assert_eq!(sample.speed, 40);
    assert_eq!(sample.x, 1000);
    assert_eq!(sample.y, 2000);
    // distance = floor(sqrt(1000^2 + 2000^2)) = 2236 mm
    assert_eq!(sample.distance_mm, 2236);

    let infraction = pending.expect("a pending infraction");
    assert_eq!(infraction.recorded_speed, 40);
    assert_eq!(infraction.authorized_speed, 25);
    assert_eq!(infraction.location, "Lorgues");
    assert_eq!(infraction.datetime_taken_ms, 10_000);

    // Photo first, JSON second; then the uploader is notified.
    let mut dir = EvidenceDir::new();
    dir.record_photo(b"t0");
    dir.record_json(b"t0");
    assert_eq!(dir.pending().len(), 1);
    assert!(matches!(
        uploader_step(&UploaderCommand::NotifyInfraction),
        UploaderAction::ScanAndUpload
    ));
}

#[test]
fn cooldown_suppresses_the_second_trigger() {
    let mut state = RecorderState::new(25);

    let (first, pending) = state.observe(b"EVENTS: TARGET: 40 0 1000", 0).unwrap();
    assert!(first.triggered);
    state.record(pending.unwrap(), true);

    // 500 ms later: within the 1000 ms cooldown.
    let (second, pending) = state.observe(b"EVENTS: TARGET: 45 0 1000", 500).unwrap();
    assert!(!second.triggered);
    assert!(pending.is_none());

    // After the cooldown has elapsed the next event triggers again.
    let (third, pending) = state.observe(b"EVENTS: TARGET: 45 0 1000", 1000).unwrap();
    assert!(third.triggered);
    assert!(pending.is_some());
}

#[test]
fn out_of_range_target_does_not_trigger() {
    let mut state = RecorderState::new(25);
    state.apply_config(RadarConfig {
        authorized_speed: 25,
        min_dist_mm: 5000,
        max_dist_mm: 10000,
        trigger_cooldown_ms: 1000,
    });

    let (sample, pending) = state.observe(b"EVENTS: TARGET: 40 0 1000", 0).unwrap();
    assert!(!sample.triggered);
    assert_eq!(sample.distance_mm, 1000);
    assert!(pending.is_none());
}

#[test]
fn junk_line_is_ignored_and_next_line_triggers() {
    let state = RecorderState::new(25);

    assert!(state.observe(b"EVENTS: MAX_SPEED: 99", 0).is_none());

    let (sample, pending) = state.observe(b"EVENTS: TARGET: 30 0 1000", 0).unwrap();
    assert!(sample.triggered);
    assert!(pending.is_some());
}

#[test]
fn failed_capture_does_not_open_a_cooldown_window() {
    let mut state = RecorderState::new(25);

    let (first, pending) = state.observe(b"EVENTS: TARGET: 40 0 1000", 0).unwrap();
    assert!(first.triggered);
    // The camera failed: nothing is recorded.
    state.record(pending.unwrap(), false);

    // 500 ms later the next over-speed event still triggers: the failed
    // attempt did not start a cooldown.
    let (second, pending) = state.observe(b"EVENTS: TARGET: 41 0 1000", 500).unwrap();
    assert!(second.triggered);
    assert!(pending.is_some());
}

#[test]
fn config_update_changes_the_decision() {
    let mut state = RecorderState::new(25);

    let (sample, _) = state.observe(b"EVENTS: TARGET: 30 0 1000", 0).unwrap();
    assert!(sample.triggered);

    state.apply_config(RadarConfig {
        authorized_speed: 50,
        min_dist_mm: 0,
        max_dist_mm: 10000,
        trigger_cooldown_ms: 1000,
    });
    let (sample, _) = state.observe(b"EVENTS: TARGET: 30 0 1000", 0).unwrap();
    assert!(!sample.triggered);
}

#[test]
fn parse_accepts_exactly_three_integer_tokens() {
    assert!(parse_target_line(b"EVENTS: TARGET: 1 2 3").is_some());
    assert!(parse_target_line(b"EVENTS: TARGET:  1  2  3 ").is_some());
    assert!(parse_target_line(b"EVENTS: TARGET: -7 -30 1500").is_some());
    assert!(parse_target_line(b"EVENTS: TARGET: 1 2").is_none());
    assert!(parse_target_line(b"EVENTS: TARGET: 1 2 3 4").is_none());
    assert!(parse_target_line(b"EVENTS: TARGET: a 2 3").is_none());
    assert!(parse_target_line(b"EVENTS: TARGET: 40000 2 3").is_none());
    assert!(parse_target_line(b"EVENTS: TARGET:").is_none());
    assert!(parse_target_line(b"EVENTS: MAX_SPEED: 99").is_none());
    assert!(parse_target_line(b"").is_none());

    let ev = parse_target_line(b"EVENTS: TARGET: -32768 32767 0").unwrap();
    assert_eq!((ev.speed, ev.x, ev.y), (-32768, 32767, 0));
}

#[test]
fn speed_must_be_strictly_above_the_limit() {
    let cfg = RadarConfig::initial(25);
    let at_limit = TargetEvent { speed: 25, x: 0, y: 1000 };
    let over = TargetEvent { speed: 26, x: 0, y: 1000 };
    assert!(!decide(&cfg, None, &at_limit, 0).triggered);
    assert!(decide(&cfg, None, &over, 0).triggered);
}

#[test]
fn range_bounds_are_inclusive() {
    let cfg = RadarConfig {
        authorized_speed: 25,
        min_dist_mm: 1000,
        max_dist_mm: 2000,
        trigger_cooldown_ms: 0,
    };
    let at_min = TargetEvent { speed: 30, x: 0, y: 1000 };
    let at_max = TargetEvent { speed: 30, x: 0, y: 2000 };
    let below = TargetEvent { speed: 30, x: 0, y: 999 };
    let above = TargetEvent { speed: 30, x: 0, y: 2001 };
    assert!(decide(&cfg, None, &at_min, 0).triggered);
    assert!(decide(&cfg, None, &at_max, 0).triggered);
    assert!(!decide(&cfg, None, &below, 0).triggered);
    assert!(!decide(&cfg, None, &above, 0).triggered);
}

#[test]
fn initial_config_defaults() {
    let cfg = RadarConfig::initial(25);
    assert_eq!(cfg.authorized_speed, 25);
    assert_eq!(cfg.min_dist_mm, 0);
    assert_eq!(cfg.max_dist_mm, 10000);
    assert_eq!(cfg.trigger_cooldown_ms, 1000);
}

#[test]
fn validate_config_rejects_bad_payloads() {
    assert!(validate_config(25, 0, 10000, 1000).is_some());
    // speed outside i16
    assert!(validate_config(40000, 0, 10000, 1000).is_none());
    // min above max
    assert!(validate_config(25, 11000, 10000, 1000).is_none());
    // negative distance
    assert!(validate_config(25, -1, 10000, 1000).is_none());
    // negative cooldown
    assert!(validate_config(25, 0, 10000, -1).is_none());
    // distance beyond 32 bits
    assert!(validate_config(25, 0, 5_000_000_000, 1000).is_none());

    let cfg = validate_config(30, 500, 9000, 2000).unwrap();
    assert_eq!(cfg.authorized_speed, 30);
    assert_eq!(cfg.min_dist_mm, 500);
    assert_eq!(cfg.max_dist_mm, 9000);
    assert_eq!(cfg.trigger_cooldown_ms, 2000);
}

#[test]
fn upload_retry_keeps_evidence_until_accepted() {
    let mut dir = EvidenceDir::new();
    dir.record_photo(b"t1");
    dir.record_json(b"t1");

    // Backend answered 500: the pair stays for the next notification.
    after_upload(&mut dir, b"t1", false);
    assert!(dir.has_json(b"t1"));
    assert!(dir.has_photo(b"t1"));

    // Backend answered 2xx: both files go.
    after_upload(&mut dir, b"t1", true);
    assert!(!dir.has_json(b"t1"));
    assert!(!dir.has_photo(b"t1"));
}

#[test]
fn photo_is_on_disk_before_every_sidecar() {
    let mut dir = EvidenceDir::new();
    dir.record_photo(b"a");
    dir.record_photo(b"b");
    dir.record_json(b"a");
    // Only the complete pair is pending; "b" has no sidecar yet.
    let pending = dir.pending();
    assert_eq!(pending.len(), 1);
    assert_eq!(pending[0], b"a".to_vec());
    assert!(dir.has_photo(b"b"));
    assert!(!dir.has_json(b"b"));
}

#[test]
fn shutdown_stops_the_uploader() {
    assert!(matches!(uploader_step(&UploaderCommand::Shutdown), UploaderAction::Stop));
}
