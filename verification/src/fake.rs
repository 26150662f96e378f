//! The synthetic target generator for test mode: a smooth random walk
//! towards the radar, emitted in the same log-line format the firmware
//! writes, so the recorder cannot tell the two apart.
//!
//! Positions are in millimetres, velocities in millimetres per second; one
//! tick advances the walk by a fifth of a second.

use crate::arith::isqrt;
use crate::lex::{is_ws, tokens_of};
use crate::numtext::{int_seq, lemma_dec_seq_digits, lemma_int_seq_literal};
use crate::recorder::{target_line_of, target_prefix, TargetEvent};
use vstd::prelude::*;

verus! {

/// Relies on rand's `random_range`: a draw from a nonempty half-open
/// range lies in that range.
#[verifier::external_body]
fn random_in_range(lo: i64, hi: i64) -> (r: i64)
    requires
        lo < hi,
    ensures
        lo <= r < hi,
{
    rand::random_range(lo..hi)
}

/// Milliseconds between two ticks of the walk.
pub const TICK_MS: u64 = 200;

/// A fifth of `v`, rounded towards zero: how far a velocity moves a
/// coordinate in one tick.
pub open spec fn per_tick(v: int) -> int {
    if v >= 0 {
        v / 5
    } else {
        -((-v) / 5)
    }
}

fn div_per_tick(v: i32) -> (r: i32)
    requires
        -100000 <= v <= 100000,
    ensures
        r == per_tick(v as int),
{
    if v >= 0 {
        ((v as u32) / 5) as i32
    } else {
        -((((-v) as u32) / 5) as i32)
    }
}

pub open spec fn clamp_spec(v: int, lo: int, hi: int) -> int {
    if v < lo {
        lo
    } else if v > hi {
        hi
    } else {
        v
    }
}

fn clamp_i32(v: i32, lo: i32, hi: i32) -> (r: i32)
    requires
        lo <= hi,
    ensures
        r == clamp_spec(v as int, lo as int, hi as int),
{
    if v < lo {
        lo
    } else if v > hi {
        hi
    } else {
        v
    }
}

/// A simulated target approaching the radar.
pub struct FakeTarget {
    /// Lateral position, mm.
    pub x: i32,
    /// Forward distance from the radar, mm.
    pub y: i32,
    /// Lateral velocity, mm/s.
    pub vx: i32,
    /// Forward velocity, mm/s; negative means approaching.
    pub vy: i32,
}

/// The walk's envelope: pedestrian velocities, and a position that cannot
/// have strayed further sideways than the ground covered forward allows —
/// every coordinate the walk can reach fits a log-line value.
pub open spec fn fake_wf(t: FakeTarget) -> bool {
    &&& -600 <= t.vx <= 600
    &&& -4200 <= t.vy <= -800
    &&& -1340 <= t.y <= 14000
    &&& -(3000 + (14000 - t.y)) <= t.x <= 3000 + (14000 - t.y)
}

/// Spawns a target between 9 and 14 metres out, up to 3 metres off axis,
/// walking towards the radar at 3 to 15 km/h.
pub fn new_fake_target() -> (t: FakeTarget)
    ensures
        fake_wf(t),
        9000 <= t.y < 14000,
        -3000 <= t.x < 3000,
{
    let y = random_in_range(9000, 14000) as i32;
    let x = random_in_range(-3000, 3000) as i32;
    let speed_kmh = random_in_range(3, 15);
    let magnitude = ((speed_kmh as u64) * 2500) / 9;
    let vy = -(magnitude as i32);
    let vx = random_in_range(-300, 300) as i32;
    FakeTarget { x, y, vx, vy }
}

/// One tick of the walk with the given velocity nudges: velocities are
/// nudged and clamped to the pedestrian envelope, then the position moves
/// one tick's worth.
pub fn step_fake_target(t: &mut FakeTarget, dvx: i32, dvy: i32)
    requires
        fake_wf(*old(t)),
        old(t).y >= -500,
        -40 <= dvx <= 40,
        -100 <= dvy <= 100,
    ensures
        fake_wf(*final(t)),
        final(t).vx == clamp_spec(old(t).vx + dvx, -600, 600),
        final(t).vy == clamp_spec(old(t).vy + dvy, -4200, -800),
        final(t).x == old(t).x + per_tick(final(t).vx as int),
        final(t).y == old(t).y + per_tick(final(t).vy as int),
        final(t).y <= old(t).y - 160,
{
    t.vx = clamp_i32(t.vx + dvx, -600, 600);
    t.vy = clamp_i32(t.vy + dvy, -4200, -800);
    t.x = t.x + div_per_tick(t.vx);
    t.y = t.y + div_per_tick(t.vy);
}

/// One tick of the walk with fresh random nudges.
pub fn advance_fake_target(t: &mut FakeTarget)
    requires
        fake_wf(*old(t)),
        old(t).y >= -500,
    ensures
        fake_wf(*final(t)),
        final(t).y <= old(t).y - 160,
{
    let dvx = random_in_range(-40, 40) as i32;
    let dvy = random_in_range(-100, 100) as i32;
    step_fake_target(t, dvx, dvy);
}

/// The target has walked past the radar and is retired.
pub fn has_passed(t: &FakeTarget) -> (r: bool)
    ensures
        r == (t.y < -500),
{
    t.y < -500
}

/// The target as the recorder would parse it: position as it stands,
/// speed in km/h from the velocity's magnitude.
pub fn to_event(t: &FakeTarget) -> (ev: TargetEvent)
    requires
        fake_wf(*t),
    ensures
        ev.x as int == t.x,
        ev.y as int == t.y,
        exists|root: int|
            0 <= root && #[trigger] (root * root) <= t.vx * t.vx + t.vy * t.vy && t.vx * t.vx
                + t.vy * t.vy < (root + 1) * (root + 1) && ev.speed as int == root * 36 / 10000,
{
    let vx64: i64 = t.vx as i64;
    let vy64: i64 = t.vy as i64;
    proof {
        assert(0 <= vx64 * vx64 <= 600i64 * 600i64 && 0 <= vy64 * vy64 <= 4200i64 * 4200i64)
            by (nonlinear_arith)
            requires
                -600 <= vx64 <= 600,
                -4200 <= vy64 <= 4200,
        ;
    }
    let sq: u64 = (vx64 * vx64 + vy64 * vy64) as u64;
    let root = isqrt(sq);
    proof {
        assert(root <= 4242) by (nonlinear_arith)
            requires
                root * root <= sq,
                sq <= 600i64 * 600i64 + 4200i64 * 4200i64,
        ;
    }
    let speed = ((root * 36) / 10000) as i16;
    let ev = TargetEvent { speed, x: t.x as i16, y: t.y as i16 };
    proof {
        let rt = root as int;
        assert(0 <= rt && rt * rt <= t.vx * t.vx + t.vy * t.vy && t.vx * t.vx + t.vy * t.vy < (rt
            + 1) * (rt + 1) && ev.speed as int == rt * 36 / 10000);
    }
    ev
}

/// The log line announcing one target event.
pub open spec fn target_line(speed: int, x: int, y: int) -> Seq<u8> {
    target_prefix() + int_seq(speed) + seq![0x20u8] + int_seq(x) + seq![0x20u8] + int_seq(y)
}

/// Formats the log line for one target event, exactly as the firmware
/// writes it.
pub fn format_target_line(ev: &TargetEvent) -> (out: Vec<u8>)
    ensures
        out@ == target_line(ev.speed as int, ev.x as int, ev.y as int),
{
    let mut out: Vec<u8> = Vec::new();
    let prefix: [u8; 16] = [
        0x45, 0x56, 0x45, 0x4E, 0x54, 0x53, 0x3A, 0x20, 0x54, 0x41, 0x52, 0x47, 0x45, 0x54, 0x3A,
        0x20,
    ];
    proof {
        assert(prefix@ =~= target_prefix());
    }
    crate::json::push_bytes(&mut out, prefix.as_slice());
    let digits = crate::numtext::format_i64(ev.speed as i64);
    crate::json::push_bytes(&mut out, digits.as_slice());
    out.push(0x20);
    let digits = crate::numtext::format_i64(ev.x as i64);
    crate::json::push_bytes(&mut out, digits.as_slice());
    out.push(0x20);
    let digits = crate::numtext::format_i64(ev.y as i64);
    crate::json::push_bytes(&mut out, digits.as_slice());
    proof {
        assert(out@ =~= target_line(ev.speed as int, ev.x as int, ev.y as int));
    }
    out
}

/// The canonical text of an integer holds no whitespace.
proof fn lemma_int_seq_no_ws(v: int)
    ensures
        int_seq(v).len() >= 1,
        forall|i: int| 0 <= i < int_seq(v).len() ==> !is_ws(#[trigger] int_seq(v)[i]),
{
    if v < 0 {
        lemma_dec_seq_digits((-v) as nat);
        assert forall|i: int| 0 <= i < int_seq(v).len() implies !is_ws(
            #[trigger] int_seq(v)[i],
        ) by {
            if i > 0 {
                assert(int_seq(v)[i] == crate::numtext::dec_seq((-v) as nat)[i - 1]);
                assert(crate::numtext::is_digit(crate::numtext::dec_seq((-v) as nat)[i - 1]));
            }
        }
    } else {
        lemma_dec_seq_digits(v as nat);
        assert forall|i: int| 0 <= i < int_seq(v).len() implies !is_ws(
            #[trigger] int_seq(v)[i],
        ) by {
            assert(crate::numtext::is_digit(int_seq(v)[i]));
        }
    }
}

/// Tokenisation of a token followed by whitespace (or the end): the token
/// comes off whole.
proof fn lemma_tokens_of_token(tok: Seq<u8>, rest: Seq<u8>)
    requires
        tok.len() >= 1,
        forall|i: int| 0 <= i < tok.len() ==> !is_ws(#[trigger] tok[i]),
        rest.len() == 0 || is_ws(rest[0]),
    ensures
        tokens_of(tok + rest) == seq![tok] + tokens_of(rest),
{
    let s = tok + rest;
    assert(!is_ws(s[0]));
    assert forall|m: int| 0 <= m < tok.len() implies !is_ws(#[trigger] s[m]) by {
        assert(s[m] == tok[m]);
    }
    assert(tok.len() < s.len() ==> is_ws(s[tok.len() as int]));
    crate::lex::lemma_token_len_char(s, tok.len() as int);
    assert(s.take(tok.len() as int) =~= tok);
    assert(s.skip(tok.len() as int) =~= rest);
}

/// A line the synthetic reader emits parses back to exactly its event:
/// speed and both coordinates round-trip through the log-line format.
pub proof fn lemma_target_line_roundtrip(speed: int, x: int, y: int)
    requires
        -32768 <= speed <= 32767,
        -32768 <= x <= 32767,
        -32768 <= y <= 32767,
    ensures
        target_line_of(target_line(speed, x, y)) matches Some(ev) && ev.speed as int == speed
            && ev.x as int == x && ev.y as int == y,
{
    let line = target_line(speed, x, y);
    lemma_int_seq_no_ws(speed);
    lemma_int_seq_no_ws(x);
    lemma_int_seq_no_ws(y);
    assert(line.len() >= 16);
    assert(line.take(16) =~= target_prefix());
    let r0 = line.skip(16);
    let r1 = seq![0x20u8] + (int_seq(x) + (seq![0x20u8] + int_seq(y)));
    assert(r0 =~= int_seq(speed) + r1);
    lemma_tokens_of_token(int_seq(speed), r1);
    let r2 = int_seq(x) + (seq![0x20u8] + int_seq(y));
    assert(r1.drop_first() =~= r2);
    assert(tokens_of(r1) == tokens_of(r2));
    let r3 = seq![0x20u8] + int_seq(y);
    lemma_tokens_of_token(int_seq(x), r3);
    assert(r3.drop_first() =~= int_seq(y));
    assert(tokens_of(r3) == tokens_of(int_seq(y)));
    assert(int_seq(y) =~= int_seq(y) + Seq::<u8>::empty());
    lemma_tokens_of_token(int_seq(y), Seq::empty());
    assert(tokens_of(Seq::<u8>::empty()) =~= Seq::<Seq<u8>>::empty());
    let toks = tokens_of(r0);
    assert(toks =~= seq![int_seq(speed), int_seq(x), int_seq(y)]);
    lemma_int_seq_literal(speed);
    lemma_int_seq_literal(x);
    lemma_int_seq_literal(y);
}

} // verus!
