//! The wire texts the pipeline writes and reads: the evidence JSON that
//! sits beside each photograph, the configuration payload, and the
//! telemetry sample. Each formatter's output is pinned byte for byte, and
//! the canonical configuration text parses back to the value it was
//! written from.

use crate::config::RadarConfig;
use crate::numtext::{dec_seq, dec_val, int_seq, is_digit, format_i64, parse_digits_bounded};
use vstd::prelude::*;

verus! {

/// Appends `s` to `out`.
pub(crate) fn push_bytes(out: &mut Vec<u8>, s: &[u8])
    ensures
        final(out)@ == old(out)@ + s@,
{
    let mut i: usize = 0;
    proof {
        assert(out@ =~= old(out)@ + s@.take(0));
    }
    while i < s.len()
        invariant
            i <= s@.len(),
            out@ == old(out)@ + s@.take(i as int),
        decreases s@.len() - i,
    {
        out.push(s[i]);
        i = i + 1;
        proof {
            assert(out@ =~= old(out)@ + s@.take(i as int));
        }
    }
    proof {
        assert(s@.take(i as int) =~= s@);
    }
}

/// The bytes of `{"authorized_speed":` as the wire text carries them.
pub open spec fn lit_obj_open_speed() -> Seq<u8> {
    seq![0x7Bu8, 0x22u8, 0x61u8, 0x75u8, 0x74u8, 0x68u8, 0x6Fu8, 0x72u8, 0x69u8, 0x7Au8, 0x65u8, 0x64u8, 0x5Fu8, 0x73u8, 0x70u8, 0x65u8, 0x65u8, 0x64u8, 0x22u8, 0x3Au8]
}

fn push_obj_open_speed(out: &mut Vec<u8>)
    ensures
        final(out)@ == old(out)@ + lit_obj_open_speed(),
{
    let bytes: [u8; 20] = [0x7B, 0x22, 0x61, 0x75, 0x74, 0x68, 0x6F, 0x72, 0x69, 0x7A, 0x65, 0x64, 0x5F, 0x73, 0x70, 0x65, 0x65, 0x64, 0x22, 0x3A];
    push_bytes(out, bytes.as_slice());
    proof {
        assert(bytes@ =~= lit_obj_open_speed());
    }
}

/// The bytes of `,"min_dist":` as the wire text carries them.
pub open spec fn lit_key_min_dist() -> Seq<u8> {
    seq![0x2Cu8, 0x22u8, 0x6Du8, 0x69u8, 0x6Eu8, 0x5Fu8, 0x64u8, 0x69u8, 0x73u8, 0x74u8, 0x22u8, 0x3Au8]
}

fn push_key_min_dist(out: &mut Vec<u8>)
    ensures
        final(out)@ == old(out)@ + lit_key_min_dist(),
{
    let bytes: [u8; 12] = [0x2C, 0x22, 0x6D, 0x69, 0x6E, 0x5F, 0x64, 0x69, 0x73, 0x74, 0x22, 0x3A];
    push_bytes(out, bytes.as_slice());
    proof {
        assert(bytes@ =~= lit_key_min_dist());
    }
}

/// The bytes of `,"max_dist":` as the wire text carries them.
pub open spec fn lit_key_max_dist() -> Seq<u8> {
    seq![0x2Cu8, 0x22u8, 0x6Du8, 0x61u8, 0x78u8, 0x5Fu8, 0x64u8, 0x69u8, 0x73u8, 0x74u8, 0x22u8, 0x3Au8]
}

fn push_key_max_dist(out: &mut Vec<u8>)
    ensures
        final(out)@ == old(out)@ + lit_key_max_dist(),
{
    let bytes: [u8; 12] = [0x2C, 0x22, 0x6D, 0x61, 0x78, 0x5F, 0x64, 0x69, 0x73, 0x74, 0x22, 0x3A];
    push_bytes(out, bytes.as_slice());
    proof {
        assert(bytes@ =~= lit_key_max_dist());
    }
}

/// The bytes of `,"trigger_cooldown":` as the wire text carries them.
pub open spec fn lit_key_cooldown() -> Seq<u8> {
    seq![0x2Cu8, 0x22u8, 0x74u8, 0x72u8, 0x69u8, 0x67u8, 0x67u8, 0x65u8, 0x72u8, 0x5Fu8, 0x63u8, 0x6Fu8, 0x6Fu8, 0x6Cu8, 0x64u8, 0x6Fu8, 0x77u8, 0x6Eu8, 0x22u8, 0x3Au8]
}

fn push_key_cooldown(out: &mut Vec<u8>)
    ensures
        final(out)@ == old(out)@ + lit_key_cooldown(),
{
    let bytes: [u8; 20] = [0x2C, 0x22, 0x74, 0x72, 0x69, 0x67, 0x67, 0x65, 0x72, 0x5F, 0x63, 0x6F, 0x6F, 0x6C, 0x64, 0x6F, 0x77, 0x6E, 0x22, 0x3A];
    push_bytes(out, bytes.as_slice());
    proof {
        assert(bytes@ =~= lit_key_cooldown());
    }
}

/// The bytes of `}` as the wire text carries them.
pub open spec fn lit_obj_close() -> Seq<u8> {
    seq![0x7Du8]
}

fn push_obj_close(out: &mut Vec<u8>)
    ensures
        final(out)@ == old(out)@ + lit_obj_close(),
{
    let bytes: [u8; 1] = [0x7D];
    push_bytes(out, bytes.as_slice());
    proof {
        assert(bytes@ =~= lit_obj_close());
    }
}

/// The bytes of `{"recorded_speed":` as the wire text carries them.
pub open spec fn lit_obj_open_recorded() -> Seq<u8> {
    seq![0x7Bu8, 0x22u8, 0x72u8, 0x65u8, 0x63u8, 0x6Fu8, 0x72u8, 0x64u8, 0x65u8, 0x64u8, 0x5Fu8, 0x73u8, 0x70u8, 0x65u8, 0x65u8, 0x64u8, 0x22u8, 0x3Au8]
}

fn push_obj_open_recorded(out: &mut Vec<u8>)
    ensures
        final(out)@ == old(out)@ + lit_obj_open_recorded(),
{
    let bytes: [u8; 18] = [0x7B, 0x22, 0x72, 0x65, 0x63, 0x6F, 0x72, 0x64, 0x65, 0x64, 0x5F, 0x73, 0x70, 0x65, 0x65, 0x64, 0x22, 0x3A];
    push_bytes(out, bytes.as_slice());
    proof {
        assert(bytes@ =~= lit_obj_open_recorded());
    }
}

/// The bytes of `,"authorized_speed":` as the wire text carries them.
pub open spec fn lit_key_authorized() -> Seq<u8> {
    seq![0x2Cu8, 0x22u8, 0x61u8, 0x75u8, 0x74u8, 0x68u8, 0x6Fu8, 0x72u8, 0x69u8, 0x7Au8, 0x65u8, 0x64u8, 0x5Fu8, 0x73u8, 0x70u8, 0x65u8, 0x65u8, 0x64u8, 0x22u8, 0x3Au8]
}

fn push_key_authorized(out: &mut Vec<u8>)
    ensures
        final(out)@ == old(out)@ + lit_key_authorized(),
{
    let bytes: [u8; 20] = [0x2C, 0x22, 0x61, 0x75, 0x74, 0x68, 0x6F, 0x72, 0x69, 0x7A, 0x65, 0x64, 0x5F, 0x73, 0x70, 0x65, 0x65, 0x64, 0x22, 0x3A];
    push_bytes(out, bytes.as_slice());
    proof {
        assert(bytes@ =~= lit_key_authorized());
    }
}

/// The bytes of `,"location":"` as the wire text carries them.
pub open spec fn lit_key_location() -> Seq<u8> {
    seq![0x2Cu8, 0x22u8, 0x6Cu8, 0x6Fu8, 0x63u8, 0x61u8, 0x74u8, 0x69u8, 0x6Fu8, 0x6Eu8, 0x22u8, 0x3Au8, 0x22u8]
}

fn push_key_location(out: &mut Vec<u8>)
    ensures
        final(out)@ == old(out)@ + lit_key_location(),
{
    let bytes: [u8; 13] = [0x2C, 0x22, 0x6C, 0x6F, 0x63, 0x61, 0x74, 0x69, 0x6F, 0x6E, 0x22, 0x3A, 0x22];
    push_bytes(out, bytes.as_slice());
    proof {
        assert(bytes@ =~= lit_key_location());
    }
}

/// The bytes of `","datetime_taken":"` as the wire text carries them.
pub open spec fn lit_key_datetime() -> Seq<u8> {
    seq![0x22u8, 0x2Cu8, 0x22u8, 0x64u8, 0x61u8, 0x74u8, 0x65u8, 0x74u8, 0x69u8, 0x6Du8, 0x65u8, 0x5Fu8, 0x74u8, 0x61u8, 0x6Bu8, 0x65u8, 0x6Eu8, 0x22u8, 0x3Au8, 0x22u8]
}

fn push_key_datetime(out: &mut Vec<u8>)
    ensures
        final(out)@ == old(out)@ + lit_key_datetime(),
{
    let bytes: [u8; 20] = [0x22, 0x2C, 0x22, 0x64, 0x61, 0x74, 0x65, 0x74, 0x69, 0x6D, 0x65, 0x5F, 0x74, 0x61, 0x6B, 0x65, 0x6E, 0x22, 0x3A, 0x22];
    push_bytes(out, bytes.as_slice());
    proof {
        assert(bytes@ =~= lit_key_datetime());
    }
}

/// The bytes of `"}` as the wire text carries them.
pub open spec fn lit_str_obj_close() -> Seq<u8> {
    seq![0x22u8, 0x7Du8]
}

fn push_str_obj_close(out: &mut Vec<u8>)
    ensures
        final(out)@ == old(out)@ + lit_str_obj_close(),
{
    let bytes: [u8; 2] = [0x22, 0x7D];
    push_bytes(out, bytes.as_slice());
    proof {
        assert(bytes@ =~= lit_str_obj_close());
    }
}

/// The bytes of `{"speed":` as the wire text carries them.
pub open spec fn lit_obj_open_tspeed() -> Seq<u8> {
    seq![0x7Bu8, 0x22u8, 0x73u8, 0x70u8, 0x65u8, 0x65u8, 0x64u8, 0x22u8, 0x3Au8]
}

fn push_obj_open_tspeed(out: &mut Vec<u8>)
    ensures
        final(out)@ == old(out)@ + lit_obj_open_tspeed(),
{
    let bytes: [u8; 9] = [0x7B, 0x22, 0x73, 0x70, 0x65, 0x65, 0x64, 0x22, 0x3A];
    push_bytes(out, bytes.as_slice());
    proof {
        assert(bytes@ =~= lit_obj_open_tspeed());
    }
}

/// The bytes of `,"x":` as the wire text carries them.
pub open spec fn lit_key_x() -> Seq<u8> {
    seq![0x2Cu8, 0x22u8, 0x78u8, 0x22u8, 0x3Au8]
}

fn push_key_x(out: &mut Vec<u8>)
    ensures
        final(out)@ == old(out)@ + lit_key_x(),
{
    let bytes: [u8; 5] = [0x2C, 0x22, 0x78, 0x22, 0x3A];
    push_bytes(out, bytes.as_slice());
    proof {
        assert(bytes@ =~= lit_key_x());
    }
}

/// The bytes of `,"y":` as the wire text carries them.
pub open spec fn lit_key_y() -> Seq<u8> {
    seq![0x2Cu8, 0x22u8, 0x79u8, 0x22u8, 0x3Au8]
}

fn push_key_y(out: &mut Vec<u8>)
    ensures
        final(out)@ == old(out)@ + lit_key_y(),
{
    let bytes: [u8; 5] = [0x2C, 0x22, 0x79, 0x22, 0x3A];
    push_bytes(out, bytes.as_slice());
    proof {
        assert(bytes@ =~= lit_key_y());
    }
}

/// The bytes of `,"distance":` as the wire text carries them.
pub open spec fn lit_key_distance() -> Seq<u8> {
    seq![0x2Cu8, 0x22u8, 0x64u8, 0x69u8, 0x73u8, 0x74u8, 0x61u8, 0x6Eu8, 0x63u8, 0x65u8, 0x22u8, 0x3Au8]
}

fn push_key_distance(out: &mut Vec<u8>)
    ensures
        final(out)@ == old(out)@ + lit_key_distance(),
{
    let bytes: [u8; 12] = [0x2C, 0x22, 0x64, 0x69, 0x73, 0x74, 0x61, 0x6E, 0x63, 0x65, 0x22, 0x3A];
    push_bytes(out, bytes.as_slice());
    proof {
        assert(bytes@ =~= lit_key_distance());
    }
}

/// The bytes of `,"triggered":` as the wire text carries them.
pub open spec fn lit_key_triggered() -> Seq<u8> {
    seq![0x2Cu8, 0x22u8, 0x74u8, 0x72u8, 0x69u8, 0x67u8, 0x67u8, 0x65u8, 0x72u8, 0x65u8, 0x64u8, 0x22u8, 0x3Au8]
}

fn push_key_triggered(out: &mut Vec<u8>)
    ensures
        final(out)@ == old(out)@ + lit_key_triggered(),
{
    let bytes: [u8; 13] = [0x2C, 0x22, 0x74, 0x72, 0x69, 0x67, 0x67, 0x65, 0x72, 0x65, 0x64, 0x22, 0x3A];
    push_bytes(out, bytes.as_slice());
    proof {
        assert(bytes@ =~= lit_key_triggered());
    }
}

/// The bytes of `true` as the wire text carries them.
pub open spec fn lit_word_true() -> Seq<u8> {
    seq![0x74u8, 0x72u8, 0x75u8, 0x65u8]
}

fn push_word_true(out: &mut Vec<u8>)
    ensures
        final(out)@ == old(out)@ + lit_word_true(),
{
    let bytes: [u8; 4] = [0x74, 0x72, 0x75, 0x65];
    push_bytes(out, bytes.as_slice());
    proof {
        assert(bytes@ =~= lit_word_true());
    }
}

/// The bytes of `false` as the wire text carries them.
pub open spec fn lit_word_false() -> Seq<u8> {
    seq![0x66u8, 0x61u8, 0x6Cu8, 0x73u8, 0x65u8]
}

fn push_word_false(out: &mut Vec<u8>)
    ensures
        final(out)@ == old(out)@ + lit_word_false(),
{
    let bytes: [u8; 5] = [0x66, 0x61, 0x6C, 0x73, 0x65];
    push_bytes(out, bytes.as_slice());
    proof {
        assert(bytes@ =~= lit_word_false());
    }
}

/// Hexadecimal digit, lower case.
pub open spec fn hex_digit(n: int) -> u8 {
    if n < 10 {
        (0x30 + n) as u8
    } else {
        (0x57 + n) as u8
    }
}

/// JSON string escaping of one byte: quotes and backslashes get a
/// backslash, control bytes are written as a unicode escape, everything
/// else stands as it is.
pub open spec fn escape_byte(b: u8) -> Seq<u8> {
    if b == 0x22 {
        seq![0x5Cu8, 0x22u8]
    } else if b == 0x5C {
        seq![0x5Cu8, 0x5Cu8]
    } else if b < 0x20 {
        seq![0x5Cu8, 0x75u8, 0x30u8, 0x30u8, hex_digit(b as int / 16), hex_digit(b as int % 16)]
    } else {
        seq![b]
    }
}

/// JSON string escaping of a byte string.
pub open spec fn escape_bytes(s: Seq<u8>) -> Seq<u8>
    decreases s.len(),
{
    if s.len() == 0 {
        Seq::empty()
    } else {
        escape_bytes(s.drop_last()) + escape_byte(s.last())
    }
}

/// Appends the JSON escaping of `s` to `out`.
fn push_escaped(out: &mut Vec<u8>, s: &[u8])
    ensures
        final(out)@ == old(out)@ + escape_bytes(s@),
{
    let mut i: usize = 0;
    proof {
        assert(escape_bytes(s@.take(0)) =~= Seq::<u8>::empty());
        assert(out@ =~= old(out)@ + escape_bytes(s@.take(0)));
    }
    while i < s.len()
        invariant
            i <= s@.len(),
            out@ == old(out)@ + escape_bytes(s@.take(i as int)),
        decreases s@.len() - i,
    {
        let b = s[i];
        if b == 0x22 {
            out.push(0x5C);
            out.push(0x22);
        } else if b == 0x5C {
            out.push(0x5C);
            out.push(0x5C);
        } else if b < 0x20 {
            out.push(0x5C);
            out.push(0x75);
            out.push(0x30);
            out.push(0x30);
            let hi = b / 16;
            let lo = b % 16;
            out.push(if hi < 10 { 0x30 + hi } else { 0x57 + hi });
            out.push(if lo < 10 { 0x30 + lo } else { 0x57 + lo });
        } else {
            out.push(b);
        }
        i = i + 1;
        proof {
            assert(s@.take(i as int).drop_last() =~= s@.take(i - 1));
            assert(out@ =~= old(out)@ + escape_bytes(s@.take(i as int)));
        }
    }
    proof {
        assert(s@.take(i as int) =~= s@);
    }
}

/// The evidence JSON written beside each photograph.
pub open spec fn infraction_json(
    recorded_speed: int,
    authorized_speed: int,
    location: Seq<u8>,
    datetime: Seq<u8>,
) -> Seq<u8> {
    lit_obj_open_recorded() + int_seq(recorded_speed) + lit_key_authorized() + int_seq(
        authorized_speed,
    ) + lit_key_location() + escape_bytes(location) + lit_key_datetime() + escape_bytes(datetime)
        + lit_str_obj_close()
}

/// Formats the evidence JSON for one infraction.
pub fn format_infraction_json(
    recorded_speed: i16,
    authorized_speed: i16,
    location: &[u8],
    datetime: &[u8],
) -> (out: Vec<u8>)
    ensures
        out@ == infraction_json(
            recorded_speed as int,
            authorized_speed as int,
            location@,
            datetime@,
        ),
{
    let mut out: Vec<u8> = Vec::new();
    push_obj_open_recorded(&mut out);
    let digits = format_i64(recorded_speed as i64);
    push_bytes(&mut out, digits.as_slice());
    push_key_authorized(&mut out);
    let digits = format_i64(authorized_speed as i64);
    push_bytes(&mut out, digits.as_slice());
    push_key_location(&mut out);
    push_escaped(&mut out, location);
    push_key_datetime(&mut out);
    push_escaped(&mut out, datetime);
    push_str_obj_close(&mut out);
    proof {
        assert(out@ =~= infraction_json(
            recorded_speed as int,
            authorized_speed as int,
            location@,
            datetime@,
        ));
    }
    out
}

/// The configuration payload in its canonical shape.
pub open spec fn config_json(
    authorized_speed: int,
    min_dist_mm: int,
    max_dist_mm: int,
    trigger_cooldown_ms: int,
) -> Seq<u8> {
    lit_obj_open_speed() + int_seq(authorized_speed) + lit_key_min_dist() + int_seq(min_dist_mm)
        + lit_key_max_dist() + int_seq(max_dist_mm) + lit_key_cooldown() + int_seq(
        trigger_cooldown_ms,
    ) + lit_obj_close()
}

/// Formats a configuration in its canonical shape.
pub fn format_config_json(cfg: &RadarConfig) -> (out: Vec<u8>)
    ensures
        out@ == config_json(
            cfg.authorized_speed as int,
            cfg.min_dist_mm as int,
            cfg.max_dist_mm as int,
            cfg.trigger_cooldown_ms as int,
        ),
{
    let mut out: Vec<u8> = Vec::new();
    push_obj_open_speed(&mut out);
    let digits = format_i64(cfg.authorized_speed as i64);
    push_bytes(&mut out, digits.as_slice());
    push_key_min_dist(&mut out);
    let digits = format_i64(cfg.min_dist_mm as i64);
    push_bytes(&mut out, digits.as_slice());
    push_key_max_dist(&mut out);
    let digits = format_i64(cfg.max_dist_mm as i64);
    push_bytes(&mut out, digits.as_slice());
    push_key_cooldown(&mut out);
    let digits = format_i64(cfg.trigger_cooldown_ms);
    push_bytes(&mut out, digits.as_slice());
    push_obj_close(&mut out);
    proof {
        assert(out@ =~= config_json(
            cfg.authorized_speed as int,
            cfg.min_dist_mm as int,
            cfg.max_dist_mm as int,
            cfg.trigger_cooldown_ms as int,
        ));
    }
    out
}

/// The telemetry text published for one sample.
pub open spec fn target_data_json(
    speed: int,
    x: int,
    y: int,
    distance_mm: int,
    triggered: bool,
) -> Seq<u8> {
    lit_obj_open_tspeed() + int_seq(speed) + lit_key_x() + int_seq(x) + lit_key_y() + int_seq(y)
        + lit_key_distance() + int_seq(distance_mm) + lit_key_triggered() + (if triggered {
        lit_word_true()
    } else {
        lit_word_false()
    }) + lit_obj_close()
}

/// Formats the telemetry text for one sample.
pub fn format_target_data_json(sample: &crate::recorder::TargetSample) -> (out: Vec<u8>)
    ensures
        out@ == target_data_json(
            sample.speed as int,
            sample.x as int,
            sample.y as int,
            sample.distance_mm as int,
            sample.triggered,
        ),
{
    let mut out: Vec<u8> = Vec::new();
    push_obj_open_tspeed(&mut out);
    let digits = format_i64(sample.speed as i64);
    push_bytes(&mut out, digits.as_slice());
    push_key_x(&mut out);
    let digits = format_i64(sample.x as i64);
    push_bytes(&mut out, digits.as_slice());
    push_key_y(&mut out);
    let digits = format_i64(sample.y as i64);
    push_bytes(&mut out, digits.as_slice());
    push_key_distance(&mut out);
    let digits = format_i64(sample.distance_mm as i64);
    push_bytes(&mut out, digits.as_slice());
    push_key_triggered(&mut out);
    if sample.triggered {
        push_word_true(&mut out);
    } else {
        push_word_false(&mut out);
    }
    push_obj_close(&mut out);
    proof {
        assert(out@ =~= target_data_json(
            sample.speed as int,
            sample.x as int,
            sample.y as int,
            sample.distance_mm as int,
            sample.triggered,
        ));
    }
    out
}


/// Strips `lit` from the head of `s`.
pub open spec fn strip_lit(s: Seq<u8>, lit: Seq<u8>) -> Option<Seq<u8>> {
    if s.len() >= lit.len() && s.take(lit.len() as int) == lit {
        Some(s.skip(lit.len() as int))
    } else {
        None
    }
}

/// Length of the run of decimal digits at the head of `s`.
pub open spec fn digit_run_len(s: Seq<u8>) -> int
    decreases s.len(),
{
    if s.len() == 0 || !is_digit(s[0]) {
        0
    } else {
        1 + digit_run_len(s.drop_first())
    }
}

pub proof fn lemma_digit_run_len_bounds(s: Seq<u8>)
    ensures
        0 <= digit_run_len(s) <= s.len(),
    decreases s.len(),
{
    if s.len() > 0 && is_digit(s[0]) {
        lemma_digit_run_len_bounds(s.drop_first());
    }
}

/// `digit_run_len` is the position of the first non-digit byte (or the
/// length of `s` when there is none).
pub proof fn lemma_digit_run_len_char(s: Seq<u8>, k: int)
    requires
        0 <= k <= s.len(),
        forall|m: int| 0 <= m < k ==> is_digit(#[trigger] s[m]),
        k < s.len() ==> !is_digit(s[k]),
    ensures
        digit_run_len(s) == k,
    decreases s.len(),
{
    if k == 0 {
    } else {
        let t = s.drop_first();
        assert forall|m: int| 0 <= m < k - 1 implies is_digit(#[trigger] t[m]) by {
            assert(t[m] == s[m + 1]);
        }
        assert(k - 1 < t.len() ==> !is_digit(t[k - 1]));
        lemma_digit_run_len_char(t, k - 1);
    }
}

/// Reads one signed decimal number from the head of `s`: an optional `-`,
/// then a nonempty digit run; hands back the value and the remainder.
pub open spec fn split_int(s: Seq<u8>) -> Option<(int, Seq<u8>)> {
    let neg = s.len() > 0 && s[0] == 0x2D;
    let body = if neg {
        s.drop_first()
    } else {
        s
    };
    let k = digit_run_len(body);
    if k == 0 {
        None
    } else {
        let v = dec_val(body.take(k));
        Some(((if neg { -v } else { v }), body.skip(k)))
    }
}

/// What a canonical configuration text means: the four numbers, provided
/// the text has exactly the canonical shape.
pub open spec fn config_of_json(s: Seq<u8>) -> Option<(int, int, int, int)> {
    match strip_lit(s, lit_obj_open_speed()) {
        Option::None => Option::None,
        Option::Some(s1) => match split_int(s1) {
            Option::None => Option::None,
            Option::Some((a, s2)) => match strip_lit(s2, lit_key_min_dist()) {
                Option::None => Option::None,
                Option::Some(s3) => match split_int(s3) {
                    Option::None => Option::None,
                    Option::Some((m, s4)) => match strip_lit(s4, lit_key_max_dist()) {
                        Option::None => Option::None,
                        Option::Some(s5) => match split_int(s5) {
                            Option::None => Option::None,
                            Option::Some((x, s6)) => match strip_lit(s6, lit_key_cooldown()) {
                                Option::None => Option::None,
                                Option::Some(s7) => match split_int(s7) {
                                    Option::None => Option::None,
                                    Option::Some((t, s8)) => match strip_lit(s8, lit_obj_close()) {
                                        Option::None => Option::None,
                                        Option::Some(s9) => if s9.len() == 0 {
                                            Option::Some((a, m, x, t))
                                        } else {
                                            Option::None
                                        },
                                    },
                                },
                            },
                        },
                    },
                },
            },
        },
    }
}

/// Stripping a literal off a text that starts with it leaves the rest.
pub proof fn lemma_strip_lit_concat(lit: Seq<u8>, rest: Seq<u8>)
    ensures
        strip_lit(lit + rest, lit) == Some(rest),
{
    assert((lit + rest).take(lit.len() as int) =~= lit);
    assert((lit + rest).skip(lit.len() as int) =~= rest);
}

/// Reading a number off a text that starts with its canonical digits
/// yields the number, provided the text goes on with a non-digit.
pub proof fn lemma_split_int_concat(v: int, rest: Seq<u8>)
    requires
        rest.len() > 0,
        !is_digit(rest[0]),
    ensures
        split_int(int_seq(v) + rest) == Some((v, rest)),
{
    let s = int_seq(v) + rest;
    if v < 0 {
        let d = dec_seq((-v) as nat);
        crate::numtext::lemma_dec_seq_digits((-v) as nat);
        assert(s[0] == 0x2D);
        assert(!is_digit(0x2Du8));
        let body = s.drop_first();
        assert(body =~= d + rest);
        assert forall|m: int| 0 <= m < d.len() implies is_digit(#[trigger] body[m]) by {
            assert(body[m] == d[m]);
        }
        assert(body[d.len() as int] == rest[0]);
        lemma_digit_run_len_char(body, d.len() as int);
        assert(body.take(d.len() as int) =~= d);
        assert(body.skip(d.len() as int) =~= rest);
        crate::numtext::lemma_dec_roundtrip((-v) as nat);
    } else {
        let d = dec_seq(v as nat);
        crate::numtext::lemma_dec_seq_digits(v as nat);
        assert(s[0] == d[0]);
        assert(is_digit(d[0]));
        assert(s[0] != 0x2D);
        assert forall|m: int| 0 <= m < d.len() implies is_digit(#[trigger] s[m]) by {
            assert(s[m] == d[m]);
        }
        assert(s[d.len() as int] == rest[0]);
        lemma_digit_run_len_char(s, d.len() as int);
        assert(s.take(d.len() as int) =~= d);
        assert(s.skip(d.len() as int) =~= rest);
        crate::numtext::lemma_dec_roundtrip(v as nat);
    }
}

/// The canonical configuration text parses back to the four numbers it
/// was written from: `parse` inverts `format`.
#[verifier::rlimit(100)]
pub proof fn lemma_config_json_roundtrip(a: int, m: int, x: int, t: int)
    requires
        m >= 0,
        x >= 0,
        t >= 0,
    ensures
        config_of_json(config_json(a, m, x, t)) == Some((a, m, x, t)),
{
    let r1 = int_seq(a) + (lit_key_min_dist() + (int_seq(m) + (lit_key_max_dist() + (int_seq(x)
        + (lit_key_cooldown() + (int_seq(t) + lit_obj_close()))))));
    assert(config_json(a, m, x, t) =~= lit_obj_open_speed() + r1);
    lemma_strip_lit_concat(lit_obj_open_speed(), r1);

    let r2 = lit_key_min_dist() + (int_seq(m) + (lit_key_max_dist() + (int_seq(x) + (
    lit_key_cooldown() + (int_seq(t) + lit_obj_close())))));
    assert(r1 =~= int_seq(a) + r2);
    assert(!is_digit(r2[0]));
    lemma_split_int_concat(a, r2);

    let r3 = int_seq(m) + (lit_key_max_dist() + (int_seq(x) + (lit_key_cooldown() + (int_seq(t)
        + lit_obj_close()))));
    assert(r2 =~= lit_key_min_dist() + r3);
    lemma_strip_lit_concat(lit_key_min_dist(), r3);

    let r4 = lit_key_max_dist() + (int_seq(x) + (lit_key_cooldown() + (int_seq(t)
        + lit_obj_close())));
    assert(r3 =~= int_seq(m) + r4);
    assert(!is_digit(r4[0]));
    lemma_split_int_concat(m, r4);

    let r5 = int_seq(x) + (lit_key_cooldown() + (int_seq(t) + lit_obj_close()));
    assert(r4 =~= lit_key_max_dist() + r5);
    lemma_strip_lit_concat(lit_key_max_dist(), r5);

    let r6 = lit_key_cooldown() + (int_seq(t) + lit_obj_close());
    assert(r5 =~= int_seq(x) + r6);
    assert(!is_digit(r6[0]));
    lemma_split_int_concat(x, r6);

    let r7 = int_seq(t) + lit_obj_close();
    assert(r6 =~= lit_key_cooldown() + r7);
    lemma_strip_lit_concat(lit_key_cooldown(), r7);

    let r8 = lit_obj_close();
    assert(r7 =~= int_seq(t) + r8);
    assert(!is_digit(r8[0]));
    lemma_split_int_concat(t, r8);

    let r9 = Seq::<u8>::empty();
    assert(r8 =~= lit_obj_close() + r9);
    lemma_strip_lit_concat(lit_obj_close(), r9);
}


/// Matches `lit` at position `i` of `s`; on success the cursor stands
/// right after it.
fn match_lit(s: &[u8], i: usize, lit: &[u8]) -> (r: Option<usize>)
    requires
        i <= s@.len(),
    ensures
        match r {
            Option::Some(j) => i <= j <= s@.len() && strip_lit(s@.skip(i as int), lit@) == Some(
                s@.skip(j as int),
            ),
            Option::None => strip_lit(s@.skip(i as int), lit@) is None,
        },
{
    let n = s.len();
    let tail_len = n - i;
    if tail_len < lit.len() {
        return None;
    }
    let mut k: usize = 0;
    while k < lit.len()
        invariant
            k <= lit@.len(),
            i <= s@.len(),
            n == s@.len(),
            i + lit@.len() <= n,
            forall|m: int| 0 <= m < k ==> s@.skip(i as int)[m] == #[trigger] lit@[m],
        decreases lit@.len() - k,
    {
        if s[i + k] != lit[k] {
            proof {
                assert(s@.skip(i as int)[k as int] != lit@[k as int]);
                assert(s@.skip(i as int).take(lit@.len() as int)[k as int] != lit@[k as int]);
            }
            return None;
        }
        proof {
            assert(s@.skip(i as int)[k as int] == s@[i + k]);
        }
        k = k + 1;
    }
    let j = i + lit.len();
    proof {
        assert(s@.skip(i as int).take(lit@.len() as int) =~= lit@);
        assert(s@.skip(i as int).skip(lit@.len() as int) =~= s@.skip(j as int));
    }
    Some(j)
}

fn digit_byte(b: u8) -> (r: bool)
    ensures
        r == is_digit(b),
{
    0x30 <= b && b <= 0x39
}

/// Reads one signed decimal number at position `i` of `s`. Magnitudes
/// beyond `i64` are refused; such a number can never form a valid
/// configuration value.
fn scan_int(s: &[u8], i: usize) -> (r: Option<(i64, usize)>)
    requires
        i <= s@.len(),
    ensures
        match split_int(s@.skip(i as int)) {
            Option::None => r is None,
            Option::Some((v, rest)) => if -0x7FFF_FFFF_FFFF_FFFF <= v <= 0x7FFF_FFFF_FFFF_FFFF {
                match r {
                    Option::Some((value, j)) => value == v && i <= j <= s@.len() && s@.skip(
                        j as int,
                    ) == rest,
                    Option::None => false,
                }
            } else {
                r is None
            },
        },
{
    let ghost tail = s@.skip(i as int);
    let negative = i < s.len() && s[i] == 0x2D;
    let start: usize = if negative {
        i + 1
    } else {
        i
    };
    let ghost body = if negative {
        tail.drop_first()
    } else {
        tail
    };
    proof {
        assert(body =~= s@.skip(start as int));
    }
    let mut j: usize = start;
    while j < s.len() && digit_byte(s[j])
        invariant
            start <= j <= s@.len(),
            i <= start <= s@.len(),
            forall|m: int| start <= m < j ==> is_digit(#[trigger] s@[m]),
        decreases s@.len() - j,
    {
        j = j + 1;
    }
    proof {
        assert forall|m: int| 0 <= m < j - start implies is_digit(#[trigger] body[m]) by {
            assert(body[m] == s@[start + m]);
        }
        assert(j - start < body.len() ==> !is_digit(body[j - start]));
        lemma_digit_run_len_char(body, j - start);
    }
    if j == start {
        return None;
    }
    let digits = vstd::slice::slice_subrange(s, start, j);
    proof {
        assert(digits@ =~= body.take(j - start));
    }
    match parse_digits_bounded(digits, 0x7FFF_FFFF_FFFF_FFFF) {
        Option::None => {
            proof {
                crate::numtext::lemma_dec_val_nonneg(digits@);
            }
            None
        },
        Option::Some(mag) => {
            proof {
                assert(body.skip(j - start) =~= s@.skip(j as int));
            }
            if negative {
                Some((-(mag as i64), j))
            } else {
                Some((mag as i64, j))
            }
        },
    }
}

/// Parses the canonical configuration text; returns the configuration
/// exactly when the text has the canonical shape and its four numbers are
/// valid.
#[verifier::rlimit(100)]
pub fn parse_config_json(s: &[u8]) -> (r: Option<RadarConfig>)
    ensures
        match config_of_json(s@) {
            Option::None => r is None,
            Option::Some((a, m, x, t)) => {
                if crate::config::config_ints_valid(a, m, x, t) {
                    match r {
                        Option::Some(c) => c.authorized_speed as int == a && c.min_dist_mm as int
                            == m && c.max_dist_mm as int == x && c.trigger_cooldown_ms as int == t
                            && c.wf(),
                        Option::None => false,
                    }
                } else {
                    r is None
                }
            },
        },
{
    proof {
        assert(s@.skip(0) =~= s@);
    }
    let lit1: [u8; 20] = [
        0x7B, 0x22, 0x61, 0x75, 0x74, 0x68, 0x6F, 0x72, 0x69, 0x7A, 0x65, 0x64, 0x5F, 0x73, 0x70,
        0x65, 0x65, 0x64, 0x22, 0x3A,
    ];
    proof {
        assert(lit1@ =~= lit_obj_open_speed());
    }
    let i1 = match match_lit(s, 0, lit1.as_slice()) {
        Some(j) => j,
        None => {
            return None;
        },
    };
    let (a, i2) = match scan_int(s, i1) {
        Some(p) => p,
        None => {
            return None;
        },
    };
    let lit2: [u8; 12] = [0x2C, 0x22, 0x6D, 0x69, 0x6E, 0x5F, 0x64, 0x69, 0x73, 0x74, 0x22, 0x3A];
    proof {
        assert(lit2@ =~= lit_key_min_dist());
    }
    let i3 = match match_lit(s, i2, lit2.as_slice()) {
        Some(j) => j,
        None => {
            return None;
        },
    };
    let (m, i4) = match scan_int(s, i3) {
        Some(p) => p,
        None => {
            return None;
        },
    };
    let lit3: [u8; 12] = [0x2C, 0x22, 0x6D, 0x61, 0x78, 0x5F, 0x64, 0x69, 0x73, 0x74, 0x22, 0x3A];
    proof {
        assert(lit3@ =~= lit_key_max_dist());
    }
    let i5 = match match_lit(s, i4, lit3.as_slice()) {
        Some(j) => j,
        None => {
            return None;
        },
    };
    let (x, i6) = match scan_int(s, i5) {
        Some(p) => p,
        None => {
            return None;
        },
    };
    let lit4: [u8; 20] = [
        0x2C, 0x22, 0x74, 0x72, 0x69, 0x67, 0x67, 0x65, 0x72, 0x5F, 0x63, 0x6F, 0x6F, 0x6C, 0x64,
        0x6F, 0x77, 0x6E, 0x22, 0x3A,
    ];
    proof {
        assert(lit4@ =~= lit_key_cooldown());
    }
    let i7 = match match_lit(s, i6, lit4.as_slice()) {
        Some(j) => j,
        None => {
            return None;
        },
    };
    let (t, i8) = match scan_int(s, i7) {
        Some(p) => p,
        None => {
            return None;
        },
    };
    let lit5: [u8; 1] = [0x7D];
    proof {
        assert(lit5@ =~= lit_obj_close());
    }
    let i9 = match match_lit(s, i8, lit5.as_slice()) {
        Some(j) => j,
        None => {
            return None;
        },
    };
    if i9 != s.len() {
        proof {
            assert(s@.skip(i9 as int).len() > 0);
        }
        return None;
    }
    proof {
        assert(s@.skip(i9 as int).len() == 0);
    }
    crate::config::validate_config(a, m, x, t)
}

} // verus!
