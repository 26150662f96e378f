//! Runtime configuration of the recorder.
//!
//! Distances are carried as whole millimetres and the cooldown as whole
//! milliseconds, so every rule of the trigger policy is decided in integer
//! arithmetic.

use vstd::prelude::*;

verus! {

/// The recorder's configuration.
pub struct RadarConfig {
    /// Highest authorised speed, km/h.
    pub authorized_speed: i16,
    /// Lower bound of the detection window, mm.
    pub min_dist_mm: u32,
    /// Upper bound of the detection window, mm.
    pub max_dist_mm: u32,
    /// Quiet window after a recorded infraction, ms.
    pub trigger_cooldown_ms: i64,
}

impl RadarConfig {
    /// The detection window is ordered and the cooldown nonnegative.
    pub open spec fn wf(self) -> bool {
        &&& self.min_dist_mm <= self.max_dist_mm
        &&& self.trigger_cooldown_ms >= 0
    }

    /// The configuration in force before the first update arrives:
    /// the commissioning speed limit, a 0–10 m window, and a one second
    /// cooldown.
    pub fn initial(authorized_speed: i16) -> (c: RadarConfig)
        ensures
            c.authorized_speed == authorized_speed,
            c.min_dist_mm == 0,
            c.max_dist_mm == 10000,
            c.trigger_cooldown_ms == 1000,
            c.wf(),
    {
        RadarConfig {
            authorized_speed,
            min_dist_mm: 0,
            max_dist_mm: 10000,
            trigger_cooldown_ms: 1000,
        }
    }
}

/// Whether raw payload numbers form a valid configuration: the speed fits
/// its field, the distances are nonnegative millimetre counts that fit
/// theirs and are ordered, and the cooldown is nonnegative.
pub open spec fn config_values_valid(
    authorized_speed: i64,
    min_dist_mm: i64,
    max_dist_mm: i64,
    trigger_cooldown_ms: i64,
) -> bool {
    &&& -0x8000 <= authorized_speed <= 0x7FFF
    &&& 0 <= min_dist_mm <= max_dist_mm <= 0xFFFF_FFFF
    &&& trigger_cooldown_ms >= 0
}

/// The same validity over unbounded integers, as the canonical payload
/// text carries them.
pub open spec fn config_ints_valid(
    authorized_speed: int,
    min_dist_mm: int,
    max_dist_mm: int,
    trigger_cooldown_ms: int,
) -> bool {
    &&& -0x8000 <= authorized_speed <= 0x7FFF
    &&& 0 <= min_dist_mm <= max_dist_mm <= 0xFFFF_FFFF
    &&& 0 <= trigger_cooldown_ms <= 0x7FFF_FFFF_FFFF_FFFF
}

/// Validates the four numbers of a configuration payload.
///
/// Returns the configuration exactly when `config_values_valid` holds of
/// them; every other combination is rejected.
pub fn validate_config(
    authorized_speed: i64,
    min_dist_mm: i64,
    max_dist_mm: i64,
    trigger_cooldown_ms: i64,
) -> (r: Option<RadarConfig>)
    ensures
        match r {
            Some(c) => {
                &&& config_values_valid(
                    authorized_speed,
                    min_dist_mm,
                    max_dist_mm,
                    trigger_cooldown_ms,
                )
                &&& c.authorized_speed as int == authorized_speed
                &&& c.min_dist_mm as int == min_dist_mm
                &&& c.max_dist_mm as int == max_dist_mm
                &&& c.trigger_cooldown_ms == trigger_cooldown_ms
                &&& c.wf()
            },
            None => !config_values_valid(
                authorized_speed,
                min_dist_mm,
                max_dist_mm,
                trigger_cooldown_ms,
            ),
        },
{
    if authorized_speed < -0x8000 || authorized_speed > 0x7FFF {
        return None;
    }
    if min_dist_mm < 0 || min_dist_mm > max_dist_mm || max_dist_mm > 0xFFFF_FFFF {
        return None;
    }
    if trigger_cooldown_ms < 0 {
        return None;
    }
    Some(
        RadarConfig {
            authorized_speed: authorized_speed as i16,
            min_dist_mm: min_dist_mm as u32,
            max_dist_mm: max_dist_mm as u32,
            trigger_cooldown_ms,
        },
    )
}

} // verus!
