//! Parsing of the radar module's target report frames.
//!
//! A report is `header(4) + up to 4 target slots of 8 bytes + footer(2)`.
//! Coordinates use the module's sign convention: the most significant bit
//! selects the side of the axis, and the remaining 15 bits carry the
//! magnitude.

use vstd::prelude::*;

verus! {

pub open spec fn report_header_seq() -> Seq<u8> {
    seq![0xAAu8, 0xFFu8, 0x03u8, 0x00u8]
}

pub open spec fn report_footer_seq() -> Seq<u8> {
    seq![0x55u8, 0xCCu8]
}

/// Value of the radar's custom 16-bit encoding: two bytes little endian;
/// with the top bit set the value is `raw - 0x8000`, otherwise `-raw`.
pub open spec fn custom_i16_of(b0: u8, b1: u8) -> int {
    let raw = b0 + 256 * b1;
    if raw >= 0x8000 {
        raw - 0x8000
    } else {
        -raw
    }
}

/// Decodes the radar's custom signed encoding from two little-endian bytes.
pub fn parse_custom_i16(slice: &[u8]) -> (r: i16)
    requires
        slice@.len() == 2,
    ensures
        r as int == custom_i16_of(slice@[0], slice@[1]),
{
    let b0 = slice[0];
    let b1 = slice[1];
    let raw: u16 = b0 as u16 + 256 * (b1 as u16);
    if raw >= 0x8000 {
        (raw - 0x8000) as i16
    } else {
        -(raw as i16)
    }
}

#[derive(Debug)]
pub enum TargetParseError {
    InvalidDataLength,
    Empty,
}

/// One detected target, decoded from an 8-byte slot.
pub struct Target {
    /// X coordinate in mm.
    pub x: i16,
    /// Y coordinate in mm.
    pub y: i16,
    /// Speed in km/h.
    pub speed: i16,
    /// Distance resolution in mm.
    pub distance_resolution: u16,
}

/// An 8-byte slot is empty when every byte is zero.
pub open spec fn slot_is_empty(s: Seq<u8>) -> bool {
    forall|i: int| 0 <= i < s.len() ==> #[trigger] s[i] == 0u8
}

impl Target {
    /// Decodes a target from its 8-byte slot.
    ///
    /// Fails with `InvalidDataLength` unless the slot is exactly 8 bytes,
    /// and with `Empty` when the slot is all zeros.
    pub fn parse(value: &[u8]) -> (r: Result<Target, TargetParseError>)
        ensures
            match r {
                Ok(t) => value@.len() == 8 && !slot_is_empty(value@) && t.x as int
                    == custom_i16_of(value@[0], value@[1]) && t.y as int == custom_i16_of(
                    value@[2],
                    value@[3],
                ) && t.speed as int == custom_i16_of(value@[4], value@[5])
                    && t.distance_resolution as int == value@[6] + 256 * value@[7],
                Err(TargetParseError::InvalidDataLength) => value@.len() != 8,
                Err(TargetParseError::Empty) => value@.len() == 8 && slot_is_empty(value@),
            },
    {
        if value.len() != 8 {
            return Err(TargetParseError::InvalidDataLength);
        }
        let mut empty = true;
        let mut i: usize = 0;
        while i < 8
            invariant
                i <= 8,
                value@.len() == 8,
                empty ==> slot_is_empty(value@.take(i as int)),
                !empty ==> !slot_is_empty(value@),
            decreases 8 - i,
        {
            let b = value[i];
            if b != 0 {
                empty = false;
            }
            i = i + 1;
            proof {
                if b != 0 {
                    assert(value@[i - 1] != 0u8);
                } else if empty {
                    assert forall|j: int| 0 <= j < i implies #[trigger] value@.take(i as int)[j]
                        == 0u8 by {
                        if j < i - 1 {
                            assert(value@.take(i - 1)[j] == 0u8);
                        }
                    }
                }
            }
        }
        proof {
            assert(value@.take(8) =~= value@);
        }
        if empty {
            return Err(TargetParseError::Empty);
        }
        let x = parse_custom_i16(vstd::slice::slice_subrange(value, 0, 2));
        let y = parse_custom_i16(vstd::slice::slice_subrange(value, 2, 4));
        let speed = parse_custom_i16(vstd::slice::slice_subrange(value, 4, 6));
        let d0 = value[6];
        let d1 = value[7];
        let distance_resolution: u16 = d0 as u16 + 256 * (d1 as u16);
        Ok(Target { x, y, speed, distance_resolution })
    }
}

/// The sign convention never produces `i16::MIN`, so negating a decoded
/// speed is always possible.
pub proof fn lemma_custom_i16_range(b0: u8, b1: u8)
    ensures
        -0x7FFF <= custom_i16_of(b0, b1) <= 0x7FFF,
{
}

#[derive(Debug)]
pub enum TargetsListParseError {
    DataTooShort(usize),
    InvalidHeader([u8; 4]),
    InvalidFooter([u8; 2]),
}

/// The value reported for a slot when computing the fastest target:
/// `-speed` for a detected target (the module reports approach as
/// negative), `0` for an empty slot.
pub open spec fn slot_speed(o: Option<Target>) -> int {
    match o {
        Some(t) => -(t.speed as int),
        None => 0,
    }
}

/// Up to four decoded target slots from one report frame.
pub struct TargetsList {
    targets: Vec<Option<Target>>,
}

impl View for TargetsList {
    type V = Seq<Option<Target>>;

    closed spec fn view(&self) -> Seq<Option<Target>> {
        self.targets@
    }
}

/// Every decoded slot carries a speed the custom encoding can produce.
pub open spec fn targets_list_wf(l: TargetsList) -> bool {
    &&& l@.len() == 4
    &&& forall|i: int|
        0 <= i < 4 ==> match #[trigger] l@[i] {
            Some(t) => -0x7FFF <= t.speed as int <= 0x7FFF,
            None => true,
        }
}

impl TargetsList {
    /// The fastest approach speed over the slots, in km/h; `0` when no
    /// slot reports one above zero.
    pub fn max_speed(&self) -> (r: i16)
        requires
            targets_list_wf(*self),
        ensures
            r as int == vstd::math::max(
                vstd::math::max(slot_speed(self@[0]), slot_speed(self@[1])),
                vstd::math::max(slot_speed(self@[2]), slot_speed(self@[3])),
            ),
    {
        let mut best: i16 = match &self.targets[0] {
            Some(t) => -t.speed,
            None => 0,
        };
        let s1: i16 = match &self.targets[1] {
            Some(t) => -t.speed,
            None => 0,
        };
        if s1 > best {
            best = s1;
        }
        let s2: i16 = match &self.targets[2] {
            Some(t) => -t.speed,
            None => 0,
        };
        if s2 > best {
            best = s2;
        }
        let s3: i16 = match &self.targets[3] {
            Some(t) => -t.speed,
            None => 0,
        };
        if s3 > best {
            best = s3;
        }
        best
    }

    /// The decoded slots, in report order.
    pub fn targets(&self) -> (r: &Vec<Option<Target>>)
        ensures
            r@ == self@,
    {
        &self.targets
    }

    /// Decodes a report frame: checks length, header and footer, then
    /// decodes each 8-byte slot that fits before the end of the frame,
    /// keeping `None` for slots that are empty or cut short.
    pub fn parse(value: &[u8]) -> (r: Result<TargetsList, TargetsListParseError>)
        ensures
            match r {
                Ok(l) => {
                    &&& value@.len() >= 14
                    &&& value@.take(4) == report_header_seq()
                    &&& value@.skip(value@.len() - 2) == report_footer_seq()
                    &&& targets_list_wf(l)
                    &&& forall|i: int|
                        0 <= i < 4 ==> #[trigger] l@[i] == spec_slot(value@, i)
                },
                Err(TargetsListParseError::DataTooShort(n)) => value@.len() < 14 && n == value@.len(),
                Err(TargetsListParseError::InvalidHeader(h)) => {
                    &&& value@.len() >= 14
                    &&& h@ == value@.take(4)
                    &&& value@.take(4) != report_header_seq()
                },
                Err(TargetsListParseError::InvalidFooter(f)) => {
                    &&& value@.len() >= 14
                    &&& value@.take(4) == report_header_seq()
                    &&& f@ == value@.skip(value@.len() - 2)
                    &&& value@.skip(value@.len() - 2) != report_footer_seq()
                },
            },
    {
        if value.len() < 14 {
            return Err(TargetsListParseError::DataTooShort(value.len()));
        }
        let header: [u8; 4] = [value[0], value[1], value[2], value[3]];
        proof {
            assert(header@ =~= value@.take(4));
        }
        if !(value[0] == 0xAA && value[1] == 0xFF && value[2] == 0x03 && value[3] == 0x00) {
            proof {
                assert(value@.take(4) != report_header_seq());
            }
            return Err(TargetsListParseError::InvalidHeader(header));
        }
        proof {
            assert(value@.take(4) =~= report_header_seq());
        }
        let footer: [u8; 2] = [value[value.len() - 2], value[value.len() - 1]];
        proof {
            assert(footer@ =~= value@.skip(value@.len() - 2));
        }
        if !(value[value.len() - 2] == 0x55 && value[value.len() - 1] == 0xCC) {
            proof {
                assert(value@.skip(value@.len() - 2) != report_footer_seq());
            }
            return Err(TargetsListParseError::InvalidFooter(footer));
        }
        proof {
            assert(value@.skip(value@.len() - 2) =~= report_footer_seq());
        }
        let mut targets: Vec<Option<Target>> = Vec::new();
        let mut i: usize = 0;
        while i < 4
            invariant
                i <= 4,
                value@.len() >= 14,
                targets@.len() == i,
                forall|j: int| 0 <= j < i ==> #[trigger] targets@[j] == spec_slot(value@, j),
                forall|j: int|
                    0 <= j < i ==> match #[trigger] targets@[j] {
                        Some(t) => -0x7FFF <= t.speed as int <= 0x7FFF,
                        None => true,
                    },
            decreases 4 - i,
        {
            let offset = 4 + i * 8;
            let slot: Option<Target> = if offset + 8 <= value.len() {
                let bytes = vstd::slice::slice_subrange(value, offset, offset + 8);
                match Target::parse(bytes) {
                    Ok(t) => {
                        proof {
                            lemma_custom_i16_range(value@[offset + 4], value@[offset + 5]);
                        }
                        Some(t)
                    },
                    Err(_) => None,
                }
            } else {
                None
            };
            targets.push(slot);
            i = i + 1;
        }
        Ok(TargetsList { targets })
    }
}

/// What slot `i` of a report decodes to: `None` when it is cut short,
/// empty, or otherwise undecodable.
pub open spec fn spec_slot(value: Seq<u8>, i: int) -> Option<Target> {
    let offset = 4 + i * 8;
    if offset + 8 <= value.len() {
        let s = value.subrange(offset, offset + 8);
        if slot_is_empty(s) {
            None
        } else {
            Some(
                Target {
                    x: custom_i16_of(s[0], s[1]) as i16,
                    y: custom_i16_of(s[2], s[3]) as i16,
                    speed: custom_i16_of(s[4], s[5]) as i16,
                    distance_resolution: (s[6] + 256 * s[7]) as u16,
                },
            )
        }
    } else {
        None
    }
}

} // verus!
