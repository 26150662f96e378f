//! The infraction recorder: log-line parsing, the trigger policy, and the
//! state it carries between events.
//!
//! A decoded log line either is a target report — `EVENTS: TARGET: <speed>
//! <x> <y>` with speed in km/h and coordinates in millimetres — or is
//! ignored. Every parsed report yields a sample for telemetry; a sample
//! whose target is in the configured window, above the authorised speed,
//! and outside the cooldown window of the previous infraction becomes an
//! infraction to be photographed and persisted.

use crate::arith::isqrt;
use crate::config::RadarConfig;
use crate::lex::tokens_of;
use crate::numtext::{literal_val, valid_i16_literal};
use vstd::prelude::*;

verus! {

/// The bytes of `"EVENTS: TARGET: "`.
pub open spec fn target_prefix() -> Seq<u8> {
    seq![
        0x45u8,
        0x56u8,
        0x45u8,
        0x4Eu8,
        0x54u8,
        0x53u8,
        0x3Au8,
        0x20u8,
        0x54u8,
        0x41u8,
        0x52u8,
        0x47u8,
        0x45u8,
        0x54u8,
        0x3Au8,
        0x20u8,
    ]
}

/// A parsed target report.
#[derive(Clone, Copy)]
pub struct TargetEvent {
    /// Speed in km/h.
    pub speed: i16,
    /// X coordinate in mm.
    pub x: i16,
    /// Y coordinate in mm.
    pub y: i16,
}

/// What a log line means: `None` for anything that is not a well-formed
/// target report, the parsed event otherwise. The remainder after the
/// prefix must split into exactly three tokens, each a 16-bit integer.
pub open spec fn target_line_of(s: Seq<u8>) -> Option<TargetEvent> {
    if s.len() >= 16 && s.take(16) == target_prefix() {
        let toks = tokens_of(s.skip(16));
        if toks.len() == 3 && valid_i16_literal(toks[0]) && valid_i16_literal(toks[1])
            && valid_i16_literal(toks[2]) {
            Some(
                TargetEvent {
                    speed: literal_val(toks[0]) as i16,
                    x: literal_val(toks[1]) as i16,
                    y: literal_val(toks[2]) as i16,
                },
            )
        } else {
            None
        }
    } else {
        None
    }
}

/// Parses a log line, accepting exactly the lines `target_line_of` accepts.
pub fn parse_target_line(line: &[u8]) -> (r: Option<TargetEvent>)
    ensures
        r == target_line_of(line@),
{
    if line.len() < 16 {
        return None;
    }
    let prefix: [u8; 16] = [
        0x45, 0x56, 0x45, 0x4E, 0x54, 0x53, 0x3A, 0x20, 0x54, 0x41, 0x52, 0x47, 0x45, 0x54, 0x3A,
        0x20,
    ];
    let mut i: usize = 0;
    while i < 16
        invariant
            i <= 16,
            line@.len() >= 16,
            prefix@ == target_prefix(),
            forall|m: int| 0 <= m < i ==> line@[m] == #[trigger] target_prefix()[m],
        decreases 16 - i,
    {
        if line[i] != prefix[i] {
            proof {
                assert(line@.take(16)[i as int] != target_prefix()[i as int]);
            }
            return None;
        }
        i = i + 1;
    }
    proof {
        assert(line@.take(16) =~= target_prefix());
    }
    let rest = vstd::slice::slice_subrange(line, 16, line.len());
    proof {
        assert(rest@ =~= line@.skip(16));
    }
    let tokens = crate::lex::tokenize(rest);
    if tokens.len() != 3 {
        return None;
    }
    proof {
        assert(tokens.deep_view()[0] =~= tokens@[0]@);
        assert(tokens.deep_view()[1] =~= tokens@[1]@);
        assert(tokens.deep_view()[2] =~= tokens@[2]@);
    }
    let speed = match crate::numtext::parse_i16(tokens[0].as_slice()) {
        Some(v) => v,
        None => {
            return None;
        },
    };
    let x = match crate::numtext::parse_i16(tokens[1].as_slice()) {
        Some(v) => v,
        None => {
            return None;
        },
    };
    let y = match crate::numtext::parse_i16(tokens[2].as_slice()) {
        Some(v) => v,
        None => {
            return None;
        },
    };
    Some(TargetEvent { speed, x, y })
}

/// Squared distance of a target from the radar, in mm².
pub open spec fn dist_sq(ev: TargetEvent) -> int {
    ev.x * ev.x + ev.y * ev.y
}

/// The target lies inside the configured window; bounds are compared on
/// squares, which agrees with comparing the exact euclidean distance
/// against the bounds.
pub open spec fn in_range(cfg: RadarConfig, ev: TargetEvent) -> bool {
    &&& cfg.min_dist_mm * cfg.min_dist_mm <= dist_sq(ev)
    &&& dist_sq(ev) <= cfg.max_dist_mm * cfg.max_dist_mm
}

/// Strictly above the authorised speed.
pub open spec fn over_speed(cfg: RadarConfig, ev: TargetEvent) -> bool {
    ev.speed > cfg.authorized_speed
}

/// No infraction yet, or the previous one is at least a cooldown ago.
pub open spec fn cooldown_elapsed(cfg: RadarConfig, last_taken_ms: Option<i64>, now_ms: i64) -> bool {
    match last_taken_ms {
        Option::None => true,
        Option::Some(t) => now_ms - t >= cfg.trigger_cooldown_ms,
    }
}

/// The trigger policy: in range, over speed, and out of cooldown.
pub open spec fn spec_triggered(
    cfg: RadarConfig,
    last_taken_ms: Option<i64>,
    ev: TargetEvent,
    now_ms: i64,
) -> bool {
    in_range(cfg, ev) && over_speed(cfg, ev) && cooldown_elapsed(cfg, last_taken_ms, now_ms)
}

/// A sample published for every parsed target report.
#[derive(Clone, Copy)]
pub struct TargetSample {
    /// Speed in km/h.
    pub speed: i16,
    /// X coordinate in mm.
    pub x: i16,
    /// Y coordinate in mm.
    pub y: i16,
    /// Euclidean distance from the radar, rounded down to whole mm.
    pub distance_mm: u32,
    /// Whether this sample triggered an infraction.
    pub triggered: bool,
}

/// Applies the trigger policy to one parsed event.
pub fn decide(cfg: &RadarConfig, last_taken_ms: Option<i64>, ev: &TargetEvent, now_ms: i64) -> (s:
    TargetSample)
    ensures
        s.speed == ev.speed,
        s.x == ev.x,
        s.y == ev.y,
        s.distance_mm * s.distance_mm <= dist_sq(*ev) < (s.distance_mm + 1) * (s.distance_mm + 1),
        s.triggered == spec_triggered(*cfg, last_taken_ms, *ev, now_ms),
{
    let x64: i64 = ev.x as i64;
    let y64: i64 = ev.y as i64;
    proof {
        assert(x64 * x64 <= 32768i64 * 32768i64 && y64 * y64 <= 32768i64 * 32768i64 && x64 * x64
            >= 0 && y64 * y64 >= 0) by (nonlinear_arith)
            requires
                -32768 <= x64 <= 32767,
                -32768 <= y64 <= 32767,
        ;
    }
    let dsq: u64 = (x64 * x64 + y64 * y64) as u64;
    let min64: u64 = cfg.min_dist_mm as u64;
    let max64: u64 = cfg.max_dist_mm as u64;
    proof {
        assert(min64 * min64 <= 0xFFFF_FFFFu64 * 0xFFFF_FFFFu64 && max64 * max64
            <= 0xFFFF_FFFFu64 * 0xFFFF_FFFFu64) by (nonlinear_arith)
            requires
                min64 <= 0xFFFF_FFFFu64,
                max64 <= 0xFFFF_FFFFu64,
        ;
    }
    let range_ok = min64 * min64 <= dsq && dsq <= max64 * max64;
    let speed_ok = ev.speed > cfg.authorized_speed;
    let cooldown_ok = match last_taken_ms {
        Option::None => true,
        Option::Some(t) => (now_ms as i128) - (t as i128) >= cfg.trigger_cooldown_ms as i128,
    };
    let root = isqrt(dsq);
    proof {
        assert(root < 0x10000) by (nonlinear_arith)
            requires
                root * root <= dsq,
                dsq < 0x1_0000_0000u64 * 0x1_0000_0000u64,
                dsq <= 2 * (32768i64 * 32768i64),
        ;
    }
    TargetSample {
        speed: ev.speed,
        x: ev.x,
        y: ev.y,
        distance_mm: root as u32,
        triggered: range_ok && speed_ok && cooldown_ok,
    }
}

/// One recorded infraction.
pub struct Infraction {
    /// The speed that was measured, km/h.
    pub recorded_speed: i16,
    /// The speed that was authorised at that moment, km/h.
    pub authorized_speed: i16,
    /// Where the radar stands.
    pub location: String,
    /// When the evidence was taken, ms since the Unix epoch, UTC.
    pub datetime_taken_ms: i64,
}

/// The fixed site name stamped on every infraction.
pub open spec fn location_name() -> Seq<char> {
    "Lorgues"@
}

/// The recorder's state between log lines.
pub struct RecorderState {
    /// The configuration currently in force.
    pub cfg: RadarConfig,
    /// The most recently recorded infraction, if any.
    pub last_infraction: Option<Infraction>,
}

/// Timestamp of the last recorded infraction, if any.
pub open spec fn last_taken_of(state: RecorderState) -> Option<i64> {
    match state.last_infraction {
        Option::None => Option::None,
        Option::Some(i) => Option::Some(i.datetime_taken_ms),
    }
}

impl RecorderState {
    pub open spec fn wf(self) -> bool {
        self.cfg.wf()
    }

    /// A fresh recorder: initial configuration, no infraction yet.
    pub fn new(authorized_speed: i16) -> (s: RecorderState)
        ensures
            s.cfg.authorized_speed == authorized_speed,
            s.cfg.min_dist_mm == 0,
            s.cfg.max_dist_mm == 10000,
            s.cfg.trigger_cooldown_ms == 1000,
            s.last_infraction is None,
            s.wf(),
    {
        RecorderState { cfg: RadarConfig::initial(authorized_speed), last_infraction: None }
    }

    /// Handles one decoded log line at time `now_ms`.
    ///
    /// A line that is not a target report is ignored (`None`). A target
    /// report yields the sample to publish and, when the sample triggered,
    /// the infraction that is now to be photographed; the state itself is
    /// not changed until the photograph succeeds (`record`).
    pub fn observe(&self, line: &[u8], now_ms: i64) -> (r: Option<(TargetSample, Option<Infraction>)>)
        requires
            self.wf(),
        ensures
            match target_line_of(line@) {
                Option::None => r is None,
                Option::Some(ev) => match r {
                    Option::Some((sample, pending)) => {
                        &&& sample.speed == ev.speed
                        &&& sample.x == ev.x
                        &&& sample.y == ev.y
                        &&& sample.distance_mm * sample.distance_mm <= dist_sq(ev) < (
                        sample.distance_mm + 1) * (sample.distance_mm + 1)
                        &&& sample.triggered == spec_triggered(
                            self.cfg,
                            last_taken_of(*self),
                            ev,
                            now_ms,
                        )
                        &&& if sample.triggered {
                            match pending {
                                Option::Some(inf) => {
                                    &&& inf.recorded_speed == ev.speed
                                    &&& inf.authorized_speed == self.cfg.authorized_speed
                                    &&& inf.location@ == location_name()
                                    &&& inf.datetime_taken_ms == now_ms
                                },
                                Option::None => false,
                            }
                        } else {
                            pending is None
                        }
                    },
                    Option::None => false,
                },
            },
    {
        let ev = match parse_target_line(line) {
            Some(ev) => ev,
            None => {
                return None;
            },
        };
        let last = match &self.last_infraction {
            Some(i) => Some(i.datetime_taken_ms),
            None => None,
        };
        let sample = decide(&self.cfg, last, &ev, now_ms);
        let pending = if sample.triggered {
            Some(
                Infraction {
                    recorded_speed: ev.speed,
                    authorized_speed: self.cfg.authorized_speed,
                    location: location_string(),
                    datetime_taken_ms: now_ms,
                },
            )
        } else {
            None
        };
        Some((sample, pending))
    }

    /// Commits an infraction after its photograph was captured
    /// successfully; a failed capture leaves the state untouched, so a
    /// failed attempt does not open a cooldown window.
    pub fn record(&mut self, infraction: Infraction, capture_ok: bool)
        ensures
            final(self).cfg == old(self).cfg,
            capture_ok ==> match final(self).last_infraction {
                Option::Some(i) => {
                    &&& i.recorded_speed == infraction.recorded_speed
                    &&& i.authorized_speed == infraction.authorized_speed
                    &&& i.location@ == infraction.location@
                    &&& i.datetime_taken_ms == infraction.datetime_taken_ms
                },
                Option::None => false,
            },
            !capture_ok ==> final(self).last_infraction == old(self).last_infraction,
            old(self).wf() ==> final(self).wf(),
    {
        if capture_ok {
            self.last_infraction = Some(infraction);
        }
    }

    /// Installs a configuration update; the cooldown history is kept.
    pub fn apply_config(&mut self, cfg: RadarConfig)
        requires
            cfg.wf(),
        ensures
            final(self).cfg == cfg,
            final(self).last_infraction == old(self).last_infraction,
            final(self).wf(),
    {
        self.cfg = cfg;
    }
}

/// The site name as an owned string.
pub fn location_string() -> (r: String)
    ensures
        r@ == location_name(),
{
    let r: &str = "Lorgues";
    r.to_owned()
}

/// Once an infraction is recorded, any event triggering within the same
/// cooldown window is impossible: a trigger at `now_ms` implies the
/// previous infraction lies at least a full cooldown in the past.
pub proof fn lemma_cooldown_separation(
    cfg: RadarConfig,
    prev_taken_ms: i64,
    ev: TargetEvent,
    now_ms: i64,
)
    requires
        cfg.wf(),
        spec_triggered(cfg, Option::Some(prev_taken_ms), ev, now_ms),
    ensures
        now_ms - prev_taken_ms >= cfg.trigger_cooldown_ms,
{
}

} // verus!
