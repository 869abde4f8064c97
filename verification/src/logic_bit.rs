//! The four-valued logic state of a single bit, and the truth tables of the logic operations.
use vstd::prelude::*;
use vstd::string::StringSliceAdditionalSpecFns;
use vstd::std_specs::convert::{FromSpecImpl, TryFromSpecImpl};

verus! {

/// An error that can occur when parsing a logic state
#[derive(Debug, Clone, PartialEq, Eq, Structural)]
pub enum LogicStateFromStrError {
    /// The number of bits was not between 1 and 256 inclusive
    InvalidBitWidth,
    /// The string contained a character other than `x`, `X`, `z`, `Z`, `0` or `1`
    IllegalCharacter(u8),
}

/// The logic state of a single bit
///
/// In the bit-plane representation a bit is stored as the pair `(plane 0, plane 1)`:
/// `(0, 0)` is `Logic0`, `(1, 0)` is `Logic1`, `(0, 1)` is `HighZ` and `(1, 1)` is `Undefined`.
#[derive(Debug, Clone, Copy, PartialEq, Eq, Hash, Structural)]
pub enum LogicBitState {
    /// The low logic level
    Logic0,
    /// The high logic level
    Logic1,
    /// The high impedance state
    HighZ,
    /// An undefined logic level
    Undefined,
}

/// The bit state stored as the plane pair `(p0, p1)`
pub open spec fn bit_state(p0: bool, p1: bool) -> LogicBitState {
    if !p1 {
        if p0 {
            LogicBitState::Logic1
        } else {
            LogicBitState::Logic0
        }
    } else {
        if p0 {
            LogicBitState::Undefined
        } else {
            LogicBitState::HighZ
        }
    }
}

/// Plane 0 of a bit state
pub open spec fn plane_0_of(b: LogicBitState) -> bool {
    b == LogicBitState::Logic1 || b == LogicBitState::Undefined
}

/// Plane 1 of a bit state
pub open spec fn plane_1_of(b: LogicBitState) -> bool {
    b == LogicBitState::HighZ || b == LogicBitState::Undefined
}

/// The two-bit code of a bit state (plane 0 in bit 0, plane 1 in bit 1)
pub open spec fn spec_to_bits(b: LogicBitState) -> u8 {
    match b {
        LogicBitState::Logic0 => 0,
        LogicBitState::Logic1 => 1,
        LogicBitState::HighZ => 2,
        LogicBitState::Undefined => 3,
    }
}

/// Whether a bit carries a boolean value
pub open spec fn is_valid_bit(b: LogicBitState) -> bool {
    b == LogicBitState::Logic0 || b == LogicBitState::Logic1
}

/// The boolean value of a valid bit
pub open spec fn bit_value(b: LogicBitState) -> bool {
    b == LogicBitState::Logic1
}

/// The bit state representing a boolean
pub open spec fn spec_from_bool(v: bool) -> LogicBitState {
    if v {
        LogicBitState::Logic1
    } else {
        LogicBitState::Logic0
    }
}

/// NOT: flips valid bits, everything else becomes undefined
pub open spec fn not_bit(a: LogicBitState) -> LogicBitState {
    match a {
        LogicBitState::Logic0 => LogicBitState::Logic1,
        LogicBitState::Logic1 => LogicBitState::Logic0,
        _ => LogicBitState::Undefined,
    }
}

/// AND: a `0` on either side wins, two `1`s give `1`, everything else is undefined
pub open spec fn and_bit(a: LogicBitState, b: LogicBitState) -> LogicBitState {
    if a == LogicBitState::Logic0 || b == LogicBitState::Logic0 {
        LogicBitState::Logic0
    } else if a == LogicBitState::Logic1 && b == LogicBitState::Logic1 {
        LogicBitState::Logic1
    } else {
        LogicBitState::Undefined
    }
}

/// OR: a `1` on either side wins, two `0`s give `0`, everything else is undefined
pub open spec fn or_bit(a: LogicBitState, b: LogicBitState) -> LogicBitState {
    if a == LogicBitState::Logic1 || b == LogicBitState::Logic1 {
        LogicBitState::Logic1
    } else if a == LogicBitState::Logic0 && b == LogicBitState::Logic0 {
        LogicBitState::Logic0
    } else {
        LogicBitState::Undefined
    }
}

/// XOR: defined only when both sides are valid
pub open spec fn xor_bit(a: LogicBitState, b: LogicBitState) -> LogicBitState {
    if is_valid_bit(a) && is_valid_bit(b) {
        spec_from_bool(bit_value(a) != bit_value(b))
    } else {
        LogicBitState::Undefined
    }
}

pub open spec fn nand_bit(a: LogicBitState, b: LogicBitState) -> LogicBitState {
    not_bit(and_bit(a, b))
}

pub open spec fn nor_bit(a: LogicBitState, b: LogicBitState) -> LogicBitState {
    not_bit(or_bit(a, b))
}

pub open spec fn xnor_bit(a: LogicBitState, b: LogicBitState) -> LogicBitState {
    not_bit(xor_bit(a, b))
}

/// High impedance becomes undefined, every other state is kept
pub open spec fn high_z_to_undefined_bit(a: LogicBitState) -> LogicBitState {
    if a == LogicBitState::HighZ {
        LogicBitState::Undefined
    } else {
        a
    }
}

/// The state of a wire driven by two sources: high impedance yields to the other source
pub open spec fn combine_bit(a: LogicBitState, b: LogicBitState) -> LogicBitState {
    bit_state(plane_0_of(a) || plane_0_of(b), plane_1_of(a) && plane_1_of(b))
}

/// Two sources conflict when neither of them is in high impedance
pub open spec fn conflict_bit(a: LogicBitState, b: LogicBitState) -> bool {
    a != LogicBitState::HighZ && b != LogicBitState::HighZ
}

/// The bit named by an ASCII character, if any
pub open spec fn spec_from_ascii_char(c: u8) -> Option<LogicBitState> {
    if c == 0x5A || c == 0x7A {
        Some(LogicBitState::HighZ)
    } else if c == 0x58 || c == 0x78 {
        Some(LogicBitState::Undefined)
    } else if c == 0x30 {
        Some(LogicBitState::Logic0)
    } else if c == 0x31 {
        Some(LogicBitState::Logic1)
    } else {
        None
    }
}

/// The ASCII character that names a bit
pub open spec fn spec_to_ascii_char(b: LogicBitState) -> u8 {
    match b {
        LogicBitState::Logic0 => 0x30,
        LogicBitState::Logic1 => 0x31,
        LogicBitState::HighZ => 0x5A,
        LogicBitState::Undefined => 0x58,
    }
}

/// The character that names a bit
pub open spec fn spec_to_char(b: LogicBitState) -> char {
    match b {
        LogicBitState::Logic0 => '0',
        LogicBitState::Logic1 => '1',
        LogicBitState::HighZ => 'Z',
        LogicBitState::Undefined => 'X',
    }
}

/// The bit named by a character, if any
pub open spec fn spec_from_char(c: char) -> Option<LogicBitState> {
    if c == 'Z' || c == 'z' {
        Some(LogicBitState::HighZ)
    } else if c == 'X' || c == 'x' {
        Some(LogicBitState::Undefined)
    } else if c == '0' {
        Some(LogicBitState::Logic0)
    } else if c == '1' {
        Some(LogicBitState::Logic1)
    } else {
        None
    }
}

/// The result of parsing a single-character string as a bit
pub open spec fn spec_parse_bit(s: Seq<u8>) -> Result<LogicBitState, LogicStateFromStrError> {
    if s.len() != 1 {
        Err(LogicStateFromStrError::InvalidBitWidth)
    } else {
        match spec_from_ascii_char(s[0]) {
            Some(b) => Ok(b),
            None => Err(LogicStateFromStrError::IllegalCharacter(s[0])),
        }
    }
}

impl LogicBitState {
    /// The bit state whose two-bit code is `bits`
    pub fn from_bits(bits: u8) -> (r: LogicBitState)
        requires
            bits < 4,
        ensures
            spec_to_bits(r) == bits,
            r == bit_state(bits % 2 == 1, bits >= 2),
    {
        match bits {
            0 => LogicBitState::Logic0,
            1 => LogicBitState::Logic1,
            2 => LogicBitState::HighZ,
            _ => LogicBitState::Undefined,
        }
    }

    /// The bit state stored as the plane pair `(p0, p1)`
    pub fn from_planes(p0: bool, p1: bool) -> (r: LogicBitState)
        ensures
            r == bit_state(p0, p1),
            plane_0_of(r) == p0,
            plane_1_of(r) == p1,
    {
        match (p0, p1) {
            (false, false) => LogicBitState::Logic0,
            (true, false) => LogicBitState::Logic1,
            (false, true) => LogicBitState::HighZ,
            (true, true) => LogicBitState::Undefined,
        }
    }

    /// The two-bit code of this bit state
    pub fn to_bits(self) -> (r: u8)
        ensures
            r == spec_to_bits(self),
            r < 4,
            (r % 2 == 1) == plane_0_of(self),
            (r >= 2) == plane_1_of(self),
    {
        match self {
            LogicBitState::Logic0 => 0,
            LogicBitState::Logic1 => 1,
            LogicBitState::HighZ => 2,
            LogicBitState::Undefined => 3,
        }
    }

    /// Creates a logic bit state representing a boolean value
    pub fn from_bool(value: bool) -> (r: LogicBitState)
        ensures
            r == spec_from_bool(value),
    {
        if value {
            LogicBitState::Logic1
        } else {
            LogicBitState::Logic0
        }
    }

    /// The boolean value this logic bit state represents, if any
    pub fn to_bool(self) -> (r: Option<bool>)
        ensures
            r is Some <==> is_valid_bit(self),
            r matches Some(v) ==> v == bit_value(self),
    {
        match self {
            LogicBitState::HighZ | LogicBitState::Undefined => None,
            LogicBitState::Logic0 => Some(false),
            LogicBitState::Logic1 => Some(true),
        }
    }

    /// - `b'Z'` | `b'z'` => `HighZ`
    /// - `b'X'` | `b'x'` => `Undefined`
    /// - `b'0'` => `Logic0`
    /// - `b'1'` => `Logic1`
    pub fn from_ascii_char(c: u8) -> (r: Option<LogicBitState>)
        ensures
            r == spec_from_ascii_char(c),
    {
        if c == 0x5A || c == 0x7A {
            Some(LogicBitState::HighZ)
        } else if c == 0x58 || c == 0x78 {
            Some(LogicBitState::Undefined)
        } else if c == 0x30 {
            Some(LogicBitState::Logic0)
        } else if c == 0x31 {
            Some(LogicBitState::Logic1)
        } else {
            None
        }
    }

    /// - `HighZ` => `b'Z'`
    /// - `Undefined` => `b'X'`
    /// - `Logic0` => `b'0'`
    /// - `Logic1` => `b'1'`
    pub fn to_ascii_char(self) -> (r: u8)
        ensures
            r == spec_to_ascii_char(self),
            spec_from_ascii_char(r) == Some(self),
    {
        match self {
            LogicBitState::Logic0 => 0x30,
            LogicBitState::Logic1 => 0x31,
            LogicBitState::HighZ => 0x5A,
            LogicBitState::Undefined => 0x58,
        }
    }

    /// - `'Z'` | `'z'` => `HighZ`
    /// - `'X'` | `'x'` => `Undefined`
    /// - `'0'` => `Logic0`
    /// - `'1'` => `Logic1`
    pub fn from_char(c: char) -> (r: Option<LogicBitState>)
        ensures
            r == spec_from_char(c),
    {
        if c == 'Z' || c == 'z' {
            Some(LogicBitState::HighZ)
        } else if c == 'X' || c == 'x' {
            Some(LogicBitState::Undefined)
        } else if c == '0' {
            Some(LogicBitState::Logic0)
        } else if c == '1' {
            Some(LogicBitState::Logic1)
        } else {
            None
        }
    }

    /// - `HighZ` => `'Z'`
    /// - `Undefined` => `'X'`
    /// - `Logic0` => `'0'`
    /// - `Logic1` => `'1'`
    pub fn to_char(self) -> (r: char)
        ensures
            r == spec_to_char(self),
            spec_from_char(r) == Some(self),
    {
        match self {
            LogicBitState::Logic0 => '0',
            LogicBitState::Logic1 => '1',
            LogicBitState::HighZ => 'Z',
            LogicBitState::Undefined => 'X',
        }
    }

    /// Parses a single-character ASCII string (`0`, `1`, `z`, `Z`, `x` or `X`)
    pub fn parse_ascii(s: &[u8]) -> (r: Result<LogicBitState, LogicStateFromStrError>)
        ensures
            r == spec_parse_bit(s@),
    {
        if s.len() != 1 {
            Err(LogicStateFromStrError::InvalidBitWidth)
        } else {
            match Self::from_ascii_char(s[0]) {
                Some(b) => Ok(b),
                None => Err(LogicStateFromStrError::IllegalCharacter(s[0])),
            }
        }
    }

    /// Parses a single-character string (`0`, `1`, `z`, `Z`, `x` or `X`)
    pub fn parse(s: &str) -> (r: Result<LogicBitState, LogicStateFromStrError>)
        ensures
            r == spec_parse_bit(s.spec_bytes()),
    {
        Self::parse_ascii(s.as_bytes())
    }
}

/// Converting a character to a bit and back gives the canonical spelling of the bit
pub proof fn lemma_char_round_trip(b: LogicBitState)
    ensures
        spec_from_char(spec_to_char(b)) == Some(b),
        spec_from_ascii_char(spec_to_ascii_char(b)) == Some(b),
        bit_state(plane_0_of(b), plane_1_of(b)) == b,
{
}

impl From<bool> for LogicBitState {
    fn from(value: bool) -> (r: LogicBitState) {
        LogicBitState::from_bool(value)
    }
}

impl FromSpecImpl<bool> for LogicBitState {
    open spec fn obeys_from_spec() -> bool {
        true
    }

    open spec fn from_spec(v: bool) -> LogicBitState {
        spec_from_bool(v)
    }
}

impl TryFrom<LogicBitState> for bool {
    type Error = ();

    fn try_from(value: LogicBitState) -> (r: Result<bool, ()>) {
        match value.to_bool() {
            Some(b) => Ok(b),
            None => Err(()),
        }
    }
}

impl TryFromSpecImpl<LogicBitState> for bool {
    open spec fn obeys_try_from_spec() -> bool {
        true
    }

    open spec fn try_from_spec(v: LogicBitState) -> Result<bool, ()> {
        if is_valid_bit(v) {
            Ok(bit_value(v))
        } else {
            Err(())
        }
    }
}

impl TryFrom<char> for LogicBitState {
    type Error = ();

    fn try_from(value: char) -> (r: Result<LogicBitState, ()>) {
        match LogicBitState::from_char(value) {
            Some(b) => Ok(b),
            None => Err(()),
        }
    }
}

impl TryFromSpecImpl<char> for LogicBitState {
    open spec fn obeys_try_from_spec() -> bool {
        true
    }

    open spec fn try_from_spec(v: char) -> Result<LogicBitState, ()> {
        match spec_from_char(v) {
            Some(b) => Ok(b),
            None => Err(()),
        }
    }
}

impl From<LogicBitState> for char {
    fn from(value: LogicBitState) -> (r: char) {
        value.to_char()
    }
}

impl FromSpecImpl<LogicBitState> for char {
    open spec fn obeys_from_spec() -> bool {
        true
    }

    open spec fn from_spec(v: LogicBitState) -> char {
        spec_to_char(v)
    }
}

impl std::str::FromStr for LogicBitState {
    type Err = LogicStateFromStrError;

    fn from_str(s: &str) -> (r: Result<LogicBitState, LogicStateFromStrError>)
        ensures
            r == spec_parse_bit(s.spec_bytes()),
    {
        LogicBitState::parse(s)
    }
}


/// Resolving two sources on one wire: a source in high impedance yields to the other, the
/// order of the sources does not matter, and two sources that agree on a valid bit give that
/// bit
pub proof fn law_combine_sources(a: LogicBitState, b: LogicBitState)
    ensures
        combine_bit(LogicBitState::HighZ, b) == b,
        combine_bit(a, LogicBitState::HighZ) == a,
        combine_bit(a, b) == combine_bit(b, a),
        is_valid_bit(a) ==> combine_bit(a, a) == a,
        conflict_bit(a, b) <==> (a != LogicBitState::HighZ && b != LogicBitState::HighZ),
{
}

} // verus!
