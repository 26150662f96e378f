use radar_pipeline::bridge::{bridge_step, ws_url_of, BridgeAction, BridgeEvent, BridgeState};
use radar_pipeline::clock::infraction_base_name;
use radar_pipeline::fake::{
    advance_fake_target, format_target_line, has_passed, new_fake_target, step_fake_target,
    to_event, FakeTarget,
};
use radar_pipeline::reader::{DecodeAction, DecodeEvent, ReadAction, ReadEvent, ReaderState};
use radar_pipeline::recorder::{parse_target_line, RecorderState, TargetSample};
use radar_pipeline::uploader::{jpg_name, json_name, upload_candidates};

#[test]
fn endpoint_is_rewritten_to_its_socket_url() {
    assert_eq!(
        ws_url_of(b"https://radar.example.org"),
        b"wss://radar.example.org/socket/websocket".to_vec()
    );
    assert_eq!(
        ws_url_of(b"http://localhost:4000"),
        b"ws://localhost:4000/socket/websocket".to_vec()
    );
    assert_eq!(
        ws_url_of(b"ftp://odd"),
        b"ftp://odd/socket/websocket".to_vec()
    );
}

#[test]
fn telemetry_is_throttled_to_five_hertz() {
    let sample = TargetSample { speed: 10, x: 0, y: 100, distance_mm: 100, triggered: false };
    let mut state = BridgeState { last_send_ms: 0 };

    // 100 ms after the last send: dropped.
    assert!(matches!(
        bridge_step(&mut state, &BridgeEvent::Sample(sample, 100)),
        BridgeAction::DropSample
    ));
    assert_eq!(state.last_send_ms, 0);

    // 200 ms after: sent, and the clock advances.
    let sample = TargetSample { speed: 10, x: 0, y: 100, distance_mm: 100, triggered: false };
    assert!(matches!(
        bridge_step(&mut state, &BridgeEvent::Sample(sample, 200)),
        BridgeAction::SendTargetData
    ));
    assert_eq!(state.last_send_ms, 200);

    assert!(matches!(
        bridge_step(&mut state, &BridgeEvent::Lagged),
        BridgeAction::KeepGoing
    ));
    assert!(matches!(
        bridge_step(&mut state, &BridgeEvent::Closed),
        BridgeAction::EndIteration
    ));
}

#[test]
fn reader_reactions_match_the_error_table() {
    let mut state = ReaderState::new();
    assert!(matches!(state.on_read(&ReadEvent::Data(100)), ReadAction::FeedDecoder));
    assert_eq!(state.offset, 100);
    assert!(matches!(state.on_read(&ReadEvent::TimedOut), ReadAction::Ignore));
    assert_eq!(state.offset, 100);

    assert!(matches!(
        state.on_decode(&DecodeEvent::NeedMoreData, true),
        DecodeAction::AwaitMoreData
    ));
    assert_eq!(state.offset, 100);
    assert!(matches!(
        state.on_decode(&DecodeEvent::Malformed, true),
        DecodeAction::SkipFrame
    ));
    assert!(matches!(
        state.on_decode(&DecodeEvent::Malformed, false),
        DecodeAction::DropBuffer
    ));
    assert_eq!(state.offset, 0);

    let mut state = ReaderState::new();
    state.on_read(&ReadEvent::Data(42));
    assert!(matches!(
        state.on_decode(&DecodeEvent::FrameDecoded, true),
        DecodeAction::HandleFrame
    ));
    assert_eq!(state.offset, 0);
    assert!(matches!(state.on_read(&ReadEvent::Fatal), ReadAction::Terminate));
}

#[test]
fn fake_target_walks_towards_the_radar() {
    let mut t = new_fake_target();
    assert!((9000..14000).contains(&t.y));
    assert!((-3000..3000).contains(&t.x));
    assert!((-600..=600).contains(&t.vx));
    assert!((-4200..=-800).contains(&t.vy));

    let mut ticks = 0;
    while !has_passed(&t) {
        let before = t.y;
        advance_fake_target(&mut t);
        assert!(t.y <= before - 160);
        assert!((-600..=600).contains(&t.vx));
        assert!((-4200..=-800).contains(&t.vy));
        ticks += 1;
        assert!(ticks < 200, "target must retire in a bounded number of ticks");
    }
}

#[test]
fn fake_step_clamps_the_velocities() {
    let mut t = FakeTarget { x: 0, y: 10000, vx: 590, vy: -4150 };
    step_fake_target(&mut t, 40, -100);
    assert_eq!(t.vx, 600);
    assert_eq!(t.vy, -4200);
    assert_eq!(t.x, 120);
    assert_eq!(t.y, 10000 - 840);

    let mut t = FakeTarget { x: 0, y: 10000, vx: -590, vy: -850 };
    step_fake_target(&mut t, -40, 100);
    assert_eq!(t.vx, -600);
    assert_eq!(t.vy, -800);
    assert_eq!(t.x, -120);
    assert_eq!(t.y, 10000 - 160);
}

#[test]
fn fake_line_round_trips_through_the_parser() {
    let t = FakeTarget { x: -250, y: 9400, vx: 300, vy: -2500 };
    let ev = to_event(&t);
    assert_eq!(ev.x, -250);
    assert_eq!(ev.y, 9400);
    // |v| = sqrt(300^2 + 2500^2) = 2517 mm/s -> 9 km/h
    assert_eq!(ev.speed, 9);

    let line = format_target_line(&ev);
    assert_eq!(line, b"EVENTS: TARGET: 9 -250 9400".to_vec());

    let parsed = parse_target_line(&line).expect("the emitted line parses");
    assert_eq!((parsed.speed, parsed.x, parsed.y), (ev.speed, ev.x, ev.y));

    // And the sample projection keeps the coordinates.
    let state = RecorderState::new(25);
    let (sample, _) = state.observe(&line, 0).expect("a target line");
    assert_eq!((sample.x, sample.y, sample.speed), (ev.x, ev.y, ev.speed));
}

#[test]
fn evidence_names_are_rfc3339_timestamps() {
    assert_eq!(
        infraction_base_name(0).unwrap(),
        b"1970-01-01T00:00:00+00:00".to_vec()
    );
    assert_eq!(
        infraction_base_name(1500).unwrap(),
        b"1970-01-01T00:00:01.500+00:00".to_vec()
    );
    assert_eq!(
        infraction_base_name(1_717_243_200_123).unwrap(),
        b"2024-06-01T12:00:00.123+00:00".to_vec()
    );
}

#[test]
fn upload_candidates_pair_json_with_jpg() {
    let listing = vec![
        b"2024.json".to_vec(),
        b"2024.jpg".to_vec(),
        b"notes.txt".to_vec(),
        b"2025.json".to_vec(),
    ];
    let stems = upload_candidates(&listing);
    assert_eq!(stems, vec![b"2024".to_vec(), b"2025".to_vec()]);
    assert_eq!(jpg_name(b"2024"), b"2024.jpg".to_vec());
    assert_eq!(json_name(b"2024"), b"2024.json".to_vec());
}
