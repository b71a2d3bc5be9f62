//! Utility types shared across the driver: the source-voltage wire encoding,
//! the measurement mode and device power switches, and the logic-port model.

use vstd::prelude::*;

use crate::text::{dec_value, is_uint_text, lower_eq, lower_matches, parse_u64, uint_digits};

verus! {

/// Error from parsing one of this crate's types out of text: the rejected
/// input, and a description of what was expected.
#[derive(Debug, Clone)]
pub struct ParseTypeError(pub String, pub &'static str);

/// Lowest source voltage the instrument accepts, in millivolts.
pub const VDD_MIN_MV: u16 = 800;

/// Highest source voltage the instrument accepts, in millivolts.
pub const VDD_MAX_MV: u16 = 5000;

/// Offset the wire encoding adds to the distance from [`VDD_MIN_MV`].
pub const VDD_ENCODING_OFFSET: u16 = 32;

/// The requested millivolt value after clamping to the instrument's range.
pub open spec fn clamped_millivolts(mv: u16) -> int {
    if mv < VDD_MIN_MV {
        VDD_MIN_MV as int
    } else if mv > VDD_MAX_MV {
        VDD_MAX_MV as int
    } else {
        mv as int
    }
}

/// The two-byte wire encoding of a source-voltage request: with
/// `d = clamped + 32 - 800`, the bytes are `d / 256 + 3` and `d % 256`.
pub open spec fn voltage_encoding(mv: u16) -> Seq<u8> {
    let d = clamped_millivolts(mv) - VDD_MIN_MV + VDD_ENCODING_OFFSET;
    seq![(d / 256 + 3) as u8, (d % 256) as u8]
}

/// Device source voltage, held in its two-byte wire encoding.
#[derive(Debug, Clone, Copy)]
pub struct SourceVoltage {
    raw: [u8; 2],
}

impl View for SourceVoltage {
    type V = Seq<u8>;

    closed spec fn view(&self) -> Seq<u8> {
        seq![self.raw[0], self.raw[1]]
    }
}

/// A [`SourceVoltage`] always views as exactly its two wire bytes.
pub broadcast proof fn lemma_source_voltage_view_len(v: SourceVoltage)
    ensures
        #[trigger] v@.len() == 2,
{
}

impl SourceVoltage {
    /// Encode the given amount of millivolts, clamping it to the range the
    /// instrument accepts.
    pub fn from_millivolts(mv: u16) -> (r: Self)
        ensures
            r@ == voltage_encoding(mv),
    {
        let clamped: u16 = if mv < VDD_MIN_MV {
            VDD_MIN_MV
        } else if mv > VDD_MAX_MV {
            VDD_MAX_MV
        } else {
            mv
        };
        let d: u16 = clamped - VDD_MIN_MV + VDD_ENCODING_OFFSET;
        let ratio: u8 = (d / 256) as u8;
        let remainder: u8 = (d % 256) as u8;
        let r = SourceVoltage { raw: [ratio + 3, remainder] };
        proof {
            assert(r.raw@ =~= voltage_encoding(mv));
        }
        r
    }

    /// The raw two-byte encoding, as it goes on the wire.
    pub fn raw(&self) -> (r: &[u8; 2])
        ensures
            r@ == self@,
    {
        &self.raw
    }
}

impl Default for SourceVoltage {
    /// The all-zero encoding, matching a zeroed request before any voltage
    /// was chosen.
    fn default() -> (r: Self)
        ensures
            r@ == seq![0u8, 0u8],
    {
        let r = SourceVoltage { raw: [0, 0] };
        proof {
            assert(r.raw@ =~= seq![0u8, 0u8]);
        }
        r
    }
}

/// Device current measurement mode.
#[derive(Debug, Clone, Copy, PartialEq, Eq, Structural)]
pub enum MeasurementMode {
    /// Act as ammeter, measuring the current through the VIN and GND pins.
    Ampere,
    /// Act as source meter, returning the current supplied from the device
    /// voltage source.
    Source,
}

impl MeasurementMode {
    /// The wire byte for this mode.
    pub open spec fn spec_byte(self) -> u8 {
        match self {
            MeasurementMode::Ampere => 0x01,
            MeasurementMode::Source => 0x02,
        }
    }

    /// Encode the mode as its wire byte.
    pub fn to_byte(self) -> (b: u8)
        ensures
            b == self.spec_byte(),
    {
        match self {
            MeasurementMode::Ampere => 0x01,
            MeasurementMode::Source => 0x02,
        }
    }

    /// Decode a wire byte; only `0x01` and `0x02` name a mode.
    pub fn from_byte(b: u8) -> (r: Option<MeasurementMode>)
        ensures
            r matches Some(m) ==> m.spec_byte() == b,
            r is None <==> b != 0x01 && b != 0x02,
    {
        if b == 0x01 {
            Some(MeasurementMode::Ampere)
        } else if b == 0x02 {
            Some(MeasurementMode::Source)
        } else {
            None
        }
    }
}

impl Default for MeasurementMode {
    fn default() -> (r: Self)
        ensures
            r == MeasurementMode::Source,
    {
        MeasurementMode::Source
    }
}

/// Device power switch.
#[derive(Debug, Clone, Copy, PartialEq, Eq, Structural)]
pub enum DevicePower {
    /// Device power is off.
    Disabled,
    /// Device power is on.
    Enabled,
}

impl DevicePower {
    /// The wire byte for this switch position.
    pub open spec fn spec_byte(self) -> u8 {
        match self {
            DevicePower::Disabled => 0x00,
            DevicePower::Enabled => 0x01,
        }
    }

    /// Encode the switch position as its wire byte.
    pub fn to_byte(self) -> (b: u8)
        ensures
            b == self.spec_byte(),
    {
        match self {
            DevicePower::Disabled => 0x00,
            DevicePower::Enabled => 0x01,
        }
    }
}

impl Default for DevicePower {
    fn default() -> (r: Self)
        ensures
            r == DevicePower::Disabled,
    {
        DevicePower::Disabled
    }
}

/// Logic level of one logic-port pin.
#[derive(Debug, Clone, Copy, PartialEq, Eq, Structural)]
pub enum Level {
    /// Low level.
    Low,
    /// High level.
    High,
    /// Either level; used for matching only.
    Either,
}

impl Level {
    /// Whether the level is [`Level::High`].
    pub fn is_high(&self) -> (r: bool)
        ensures
            r == (*self == Level::High),
    {
        matches!(self, Level::High)
    }

    /// Whether the level is [`Level::Low`].
    pub fn is_low(&self) -> (r: bool)
        ensures
            r == (*self == Level::Low),
    {
        matches!(self, Level::Low)
    }

    /// What it means for a measured level to match a pattern level:
    /// [`Level::Either`] on either side matches anything, and the two
    /// definite levels match only themselves.
    pub open spec fn spec_matches(self, other: Level) -> bool {
        self == Level::Either || other == Level::Either || self == other
    }

    /// Whether this level matches `other`.
    pub fn matches(&self, other: Level) -> (r: bool)
        ensures
            r == self.spec_matches(other),
    {
        match (self, other) {
            (_, Level::Either) => true,
            (Level::Either, _) => true,
            (Level::Low, Level::Low) => true,
            (Level::High, Level::High) => true,
            _ => false,
        }
    }
}

impl Default for Level {
    fn default() -> (r: Self)
        ensures
            r == Level::Either,
    {
        Level::Either
    }
}

/// The per-pin levels a logic-port bitmask spells: bit `i` set means pin
/// `i` is high, clear means low.
pub open spec fn levels_of_mask(mask: u8) -> Seq<Level> {
    Seq::new(
        8,
        |i: int|
            if mask & (1u8 << i) != 0 {
                Level::High
            } else {
                Level::Low
            },
    )
}

/// A [`LogicPortPins`] always views as exactly its eight pins.
pub broadcast proof fn lemma_logic_port_pins_view_len(p: LogicPortPins)
    ensures
        #[trigger] p@.len() == 8,
{
}

/// State of the 8-pin digital logic port: one [`Level`] per pin.
#[derive(Debug, Clone, Copy)]
pub struct LogicPortPins {
    pin_levels: [Level; 8],
}

impl View for LogicPortPins {
    type V = Seq<Level>;

    closed spec fn view(&self) -> Seq<Level> {
        self.pin_levels@
    }
}

impl LogicPortPins {
    /// Set one pin's level, leaving the others untouched.
    pub fn set_level(self, pin: usize, level: Level) -> (r: Self)
        requires
            pin < 8,
        ensures
            r@ == self@.update(pin as int, level),
    {
        let a = self.pin_levels;
        let updated = [
            if pin == 0 { level } else { a[0] },
            if pin == 1 { level } else { a[1] },
            if pin == 2 { level } else { a[2] },
            if pin == 3 { level } else { a[3] },
            if pin == 4 { level } else { a[4] },
            if pin == 5 { level } else { a[5] },
            if pin == 6 { level } else { a[6] },
            if pin == 7 { level } else { a[7] },
        ];
        let r = LogicPortPins { pin_levels: updated };
        proof {
            assert(r.pin_levels@ =~= self.pin_levels@.update(pin as int, level));
        }
        r
    }

    /// Wrap the given per-pin levels.
    pub fn with_levels(pin_levels: [Level; 8]) -> (r: Self)
        ensures
            r@ == pin_levels@,
    {
        LogicPortPins { pin_levels }
    }

    /// Whether the given pin is high.
    pub fn pin_is_high(&self, pin: usize) -> (r: bool)
        requires
            pin < 8,
        ensures
            r == (self@[pin as int] == Level::High),
    {
        self.pin_levels[pin].is_high()
    }

    /// Whether the given pin is not high.
    pub fn pin_is_low(&self, pin: usize) -> (r: bool)
        requires
            pin < 8,
        ensures
            r == (self@[pin as int] != Level::High),
    {
        !self.pin_is_high(pin)
    }

    /// The internal pin array.
    pub fn inner(&self) -> (r: &[Level; 8])
        ensures
            r@ == self@,
    {
        &self.pin_levels
    }

    /// Build the port state from a bitmask: bit `i` set means pin `i` is
    /// high, clear means low.
    pub fn from_mask(mask: u8) -> (r: Self)
        ensures
            r@ == levels_of_mask(mask),
    {
        let levels = [
            Level::from_bit(mask & 1 != 0),
            Level::from_bit(mask & 2 != 0),
            Level::from_bit(mask & 4 != 0),
            Level::from_bit(mask & 8 != 0),
            Level::from_bit(mask & 16 != 0),
            Level::from_bit(mask & 32 != 0),
            Level::from_bit(mask & 64 != 0),
            Level::from_bit(mask & 128 != 0),
        ];
        let r = LogicPortPins { pin_levels: levels };
        proof {
            assert forall|i: int| 0 <= i < 8 implies r@[i] == (if mask & (1u8 << i) != 0 {
                Level::High
            } else {
                Level::Low
            }) by {
                assert(
                    (mask & (1u8 << 0) != 0) == (mask & 1 != 0)
                    && (mask & (1u8 << 1) != 0) == (mask & 2 != 0)
                    && (mask & (1u8 << 2) != 0) == (mask & 4 != 0)
                    && (mask & (1u8 << 3) != 0) == (mask & 8 != 0)
                    && (mask & (1u8 << 4) != 0) == (mask & 16 != 0)
                    && (mask & (1u8 << 5) != 0) == (mask & 32 != 0)
                    && (mask & (1u8 << 6) != 0) == (mask & 64 != 0)
                    && (mask & (1u8 << 7) != 0) == (mask & 128 != 0)
                ) by (bit_vector);
            }
            assert(r.pin_levels@ =~= levels_of_mask(mask));
        }
        r
    }
}

impl Level {
    /// The definite level a single mask bit stands for.
    pub fn from_bit(high: bool) -> (r: Self)
        ensures
            r == (if high {
                Level::High
            } else {
                Level::Low
            }),
    {
        if high {
            Level::High
        } else {
            Level::Low
        }
    }
}

impl Default for LogicPortPins {
    /// The wildcard port pattern: every pin is [`Level::Either`].
    fn default() -> (r: Self)
        ensures
            r@.len() == 8,
            forall|i: int| 0 <= i < 8 ==> r@[i] == Level::Either,
    {
        LogicPortPins { pin_levels: [Level::Either; 8] }
    }
}


/// The word `ampere`.
pub open spec fn ampere_text() -> Seq<u8> {
    seq![0x61u8, 0x6Du8, 0x70u8, 0x65u8, 0x72u8, 0x65u8]
}

/// The word `amp`.
pub open spec fn amp_text() -> Seq<u8> {
    seq![0x61u8, 0x6Du8, 0x70u8]
}

/// The letter `a`.
pub open spec fn a_text() -> Seq<u8> {
    seq![0x61u8]
}

/// The word `source`.
pub open spec fn source_text() -> Seq<u8> {
    seq![0x73u8, 0x6Fu8, 0x75u8, 0x72u8, 0x63u8, 0x65u8]
}

/// The letter `s`.
pub open spec fn s_text() -> Seq<u8> {
    seq![0x73u8]
}

/// The word `disabled`.
pub open spec fn disabled_text() -> Seq<u8> {
    seq![0x64u8, 0x69u8, 0x73u8, 0x61u8, 0x62u8, 0x6Cu8, 0x65u8, 0x64u8]
}

/// The letter `d`.
pub open spec fn d_text() -> Seq<u8> {
    seq![0x64u8]
}

/// The word `enabled`.
pub open spec fn enabled_text() -> Seq<u8> {
    seq![0x65u8, 0x6Eu8, 0x61u8, 0x62u8, 0x6Cu8, 0x65u8, 0x64u8]
}

/// The letter `e`.
pub open spec fn e_text() -> Seq<u8> {
    seq![0x65u8]
}

/// The mode a name spells, compared without regard to ASCII case:
/// `ampere`, `amp` and `a` name the ammeter; `source` and `s` the source
/// meter.
pub open spec fn spec_mode_of_text(s: Seq<u8>) -> Option<MeasurementMode> {
    if lower_eq(s, ampere_text()) || lower_eq(s, amp_text()) || lower_eq(s, a_text()) {
        Some(MeasurementMode::Ampere)
    } else if lower_eq(s, source_text()) || lower_eq(s, s_text()) {
        Some(MeasurementMode::Source)
    } else {
        None
    }
}

impl MeasurementMode {
    /// Parse a mode name.
    pub fn from_text(s: &[u8]) -> (r: Option<MeasurementMode>)
        ensures
            r == spec_mode_of_text(s@),
    {
        let ampere: Vec<u8> = vec![0x61, 0x6D, 0x70, 0x65, 0x72, 0x65];
        let amp: Vec<u8> = vec![0x61, 0x6D, 0x70];
        let a: Vec<u8> = vec![0x61];
        let source: Vec<u8> = vec![0x73, 0x6F, 0x75, 0x72, 0x63, 0x65];
        let sw: Vec<u8> = vec![0x73];
        proof {
            assert(ampere@ =~= ampere_text());
            assert(amp@ =~= amp_text());
            assert(a@ =~= a_text());
            assert(source@ =~= source_text());
            assert(sw@ =~= s_text());
        }
        if lower_matches(s, ampere.as_slice()) || lower_matches(s, amp.as_slice())
            || lower_matches(s, a.as_slice()) {
            Some(MeasurementMode::Ampere)
        } else if lower_matches(s, source.as_slice()) || lower_matches(s, sw.as_slice()) {
            Some(MeasurementMode::Source)
        } else {
            None
        }
    }
}

impl core::str::FromStr for MeasurementMode {
    type Err = ParseTypeError;

    fn from_str(s: &str) -> Result<Self, ParseTypeError> {
        match MeasurementMode::from_text(s.as_bytes()) {
            Some(mode) => Ok(mode),
            None => Err(ParseTypeError(s.to_owned(), "[ampere | amp | a | source | s]")),
        }
    }
}

/// The power switch a name spells, compared without regard to ASCII case:
/// `disabled` and `d` switch off; `enabled` and `e` switch on.
pub open spec fn spec_power_of_text(s: Seq<u8>) -> Option<DevicePower> {
    if lower_eq(s, disabled_text()) || lower_eq(s, d_text()) {
        Some(DevicePower::Disabled)
    } else if lower_eq(s, enabled_text()) || lower_eq(s, e_text()) {
        Some(DevicePower::Enabled)
    } else {
        None
    }
}

impl DevicePower {
    /// Parse a power-switch name.
    pub fn from_text(s: &[u8]) -> (r: Option<DevicePower>)
        ensures
            r == spec_power_of_text(s@),
    {
        let disabled: Vec<u8> = vec![0x64, 0x69, 0x73, 0x61, 0x62, 0x6C, 0x65, 0x64];
        let d: Vec<u8> = vec![0x64];
        let enabled: Vec<u8> = vec![0x65, 0x6E, 0x61, 0x62, 0x6C, 0x65, 0x64];
        let e: Vec<u8> = vec![0x65];
        proof {
            assert(disabled@ =~= disabled_text());
            assert(d@ =~= d_text());
            assert(enabled@ =~= enabled_text());
            assert(e@ =~= e_text());
        }
        if lower_matches(s, disabled.as_slice()) || lower_matches(s, d.as_slice()) {
            Some(DevicePower::Disabled)
        } else if lower_matches(s, enabled.as_slice()) || lower_matches(s, e.as_slice()) {
            Some(DevicePower::Enabled)
        } else {
            None
        }
    }
}

impl core::str::FromStr for DevicePower {
    type Err = ParseTypeError;

    fn from_str(s: &str) -> Result<Self, ParseTypeError> {
        match DevicePower::from_text(s.as_bytes()) {
            Some(power) => Ok(power),
            None => Err(ParseTypeError(s.to_owned(), "[disabled | d | enabled | e]")),
        }
    }
}

impl SourceVoltage {
    /// Parse a millivolt number and encode it.
    pub fn from_text(s: &[u8]) -> (r: Option<SourceVoltage>)
        ensures
            match r {
                Some(v) => is_uint_text(s@) && dec_value(uint_digits(s@)) <= u16::MAX && v@
                    == voltage_encoding(dec_value(uint_digits(s@)) as u16),
                None => !is_uint_text(s@) || dec_value(uint_digits(s@)) > u16::MAX,
            },
    {
        match parse_u64(s) {
            Some(x) => {
                if x <= 0xFFFF {
                    Some(SourceVoltage::from_millivolts(x as u16))
                } else {
                    None
                }
            },
            None => {
                proof {
                    if is_uint_text(s@) {
                        crate::text::lemma_dec_value_nonneg(uint_digits(s@));
                    }
                }
                None
            },
        }
    }
}

impl core::str::FromStr for SourceVoltage {
    type Err = ParseTypeError;

    fn from_str(s: &str) -> Result<Self, ParseTypeError> {
        match SourceVoltage::from_text(s.as_bytes()) {
            Some(vdd) => Ok(vdd),
            None => Err(ParseTypeError(s.to_owned(), "[a number of millivolts]")),
        }
    }
}

impl From<bool> for Level {
    /// A set mask bit is a high level, a clear one a low level.
    fn from(level: bool) -> (r: Self) {
        if level {
            Level::High
        } else {
            Level::Low
        }
    }
}

impl vstd::std_specs::convert::FromSpecImpl<bool> for Level {
    open spec fn obeys_from_spec() -> bool {
        true
    }

    open spec fn from_spec(level: bool) -> Level {
        if level {
            Level::High
        } else {
            Level::Low
        }
    }
}

} // verus!
