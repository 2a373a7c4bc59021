use vstd::prelude::*;

verus! {

/// The primitive numeric column types.
#[derive(Debug, Clone, Copy, PartialEq, Eq, Structural)]
pub enum NumberDataType {
    UInt8,
    UInt16,
    UInt32,
    UInt64,
    Int8,
    Int16,
    Int32,
    Int64,
    Float32,
    Float64,
}

/// A closed range `[min, max]` of values of one numeric type.
#[derive(Debug, Clone, Copy, PartialEq, Eq)]
pub struct SimpleDomain<T> {
    pub min: T,
    pub max: T,
}

/// The widths that a numeric type may have.
pub open spec fn valid_width(w: u8) -> bool {
    w == 8 || w == 16 || w == 32 || w == 64
}

/// Whether `(width, signed, float)` describes one of the supported types.
pub open spec fn valid_shape(w: u8, signed: bool, float: bool) -> bool {
    if float {
        signed && (w == 32 || w == 64)
    } else {
        valid_width(w)
    }
}

pub open spec fn spec_next_bit_width(w: u8) -> Option<u8> {
    if w == 8 {
        Some(16u8)
    } else if w == 16 {
        Some(32u8)
    } else if w == 32 {
        Some(64u8)
    } else {
        None
    }
}

pub open spec fn spec_max(a: u8, b: u8) -> u8 {
    if a > b { a } else { b }
}

impl NumberDataType {
    pub open spec fn width(self) -> u8 {
        match self {
            NumberDataType::UInt8 | NumberDataType::Int8 => 8,
            NumberDataType::UInt16 | NumberDataType::Int16 => 16,
            NumberDataType::UInt32 | NumberDataType::Int32 | NumberDataType::Float32 => 32,
            NumberDataType::UInt64 | NumberDataType::Int64 | NumberDataType::Float64 => 64,
        }
    }

    pub open spec fn signed(self) -> bool {
        !(self is UInt8 || self is UInt16 || self is UInt32 || self is UInt64)
    }

    pub open spec fn float(self) -> bool {
        self is Float32 || self is Float64
    }

    /// Whether every value of `self` is represented exactly in `dest`.
    pub open spec fn lossless_to(self, dest: NumberDataType) -> bool {
        if self.float() {
            dest.float() && self.width() <= dest.width()
        } else if dest.float() {
            self.width() < dest.width()
        } else if self.signed() == dest.signed() {
            self.width() <= dest.width()
        } else if !self.signed() {
            match spec_next_bit_width(self.width()) {
                Some(n) => n <= dest.width(),
                None => false,
            }
        } else {
            false
        }
    }

    /// The type that `(width, signed, float)` names, where `valid_shape` holds.
    pub open spec fn of_shape(w: u8, signed: bool, float: bool) -> NumberDataType {
        if float {
            if w == 32 { NumberDataType::Float32 } else { NumberDataType::Float64 }
        } else if signed {
            if w == 8 {
                NumberDataType::Int8
            } else if w == 16 {
                NumberDataType::Int16
            } else if w == 32 {
                NumberDataType::Int32
            } else {
                NumberDataType::Int64
            }
        } else {
            if w == 8 {
                NumberDataType::UInt8
            } else if w == 16 {
                NumberDataType::UInt16
            } else if w == 32 {
                NumberDataType::UInt32
            } else {
                NumberDataType::UInt64
            }
        }
    }

    /// The smallest common type of `self` and `other`, where one exists.
    pub open spec fn spec_super_type(self, other: NumberDataType) -> Option<NumberDataType> {
        if self.float() && other.float() {
            Some(Self::of_shape(spec_max(self.width(), other.width()), true, true))
        } else if self.float() {
            match spec_next_bit_width(other.width()) {
                Some(n) => Some(Self::of_shape(spec_max(self.width(), n), true, true)),
                None => None,
            }
        } else if other.float() {
            match spec_next_bit_width(self.width()) {
                Some(n) => Some(Self::of_shape(spec_max(n, other.width()), true, true)),
                None => None,
            }
        } else if self.signed() == other.signed() {
            Some(Self::of_shape(spec_max(self.width(), other.width()), self.signed(), false))
        } else if !self.signed() {
            match spec_next_bit_width(other.width()) {
                Some(n) => Some(Self::of_shape(spec_max(self.width(), n), true, false)),
                None => None,
            }
        } else {
            match spec_next_bit_width(self.width()) {
                Some(n) => Some(Self::of_shape(spec_max(n, other.width()), true, false)),
                None => None,
            }
        }
    }

    /// Builds the type of the given width, signedness and kind.
    pub fn new(bit_width: u8, is_signed: bool, is_float: bool) -> (r: NumberDataType)
        requires
            valid_shape(bit_width, is_signed, is_float),
        ensures
            r.width() == bit_width,
            r.signed() == is_signed,
            r.float() == is_float,
            r == Self::of_shape(bit_width, is_signed, is_float),
    {
        if is_float {
            if bit_width == 32 {
                NumberDataType::Float32
            } else {
                NumberDataType::Float64
            }
        } else if is_signed {
            if bit_width == 8 {
                NumberDataType::Int8
            } else if bit_width == 16 {
                NumberDataType::Int16
            } else if bit_width == 32 {
                NumberDataType::Int32
            } else {
                NumberDataType::Int64
            }
        } else {
            if bit_width == 8 {
                NumberDataType::UInt8
            } else if bit_width == 16 {
                NumberDataType::UInt16
            } else if bit_width == 32 {
                NumberDataType::UInt32
            } else {
                NumberDataType::UInt64
            }
        }
    }

    pub fn bit_width(&self) -> (r: u8)
        ensures
            r == self.width(),
            valid_shape(r, self.signed(), self.float()),
    {
        match self {
            NumberDataType::UInt8 => 8,
            NumberDataType::UInt16 => 16,
            NumberDataType::UInt32 => 32,
            NumberDataType::UInt64 => 64,
            NumberDataType::Int8 => 8,
            NumberDataType::Int16 => 16,
            NumberDataType::Int32 => 32,
            NumberDataType::Int64 => 64,
            NumberDataType::Float32 => 32,
            NumberDataType::Float64 => 64,
        }
    }

    pub fn is_signed(&self) -> (r: bool)
        ensures
            r == self.signed(),
    {
        match self {
            NumberDataType::UInt8 => false,
            NumberDataType::UInt16 => false,
            NumberDataType::UInt32 => false,
            NumberDataType::UInt64 => false,
            _ => true,
        }
    }

    pub fn is_float(&self) -> (r: bool)
        ensures
            r == self.float(),
    {
        match self {
            NumberDataType::Float32 => true,
            NumberDataType::Float64 => true,
            _ => false,
        }
    }

    pub fn can_lossless_cast_to(self, dest: NumberDataType) -> (r: bool)
        ensures
            r == self.lossless_to(dest),
    {
        let sw = self.bit_width();
        let dw = dest.bit_width();
        if self.is_float() {
            dest.is_float() && sw <= dw
        } else if dest.is_float() {
            sw < dw
        } else if self.is_signed() == dest.is_signed() {
            sw <= dw
        } else if !self.is_signed() {
            match next_bit_width(sw) {
                Some(n) => n <= dw,
                None => false,
            }
        } else {
            false
        }
    }

    /// The common type of `self` and `other` by the width rules of `spec_super_type`; for an
    /// unsigned and a signed integer it is the signed type wide enough for the wider of the
    /// unsigned width and the signed width doubled, which need not hold every unsigned value.
    pub fn lossless_super_type(self, other: NumberDataType) -> (r: Option<NumberDataType>)
        ensures
            r == self.spec_super_type(other),
    {
        let sw = self.bit_width();
        let ow = other.bit_width();
        if self.is_float() && other.is_float() {
            Some(NumberDataType::new(max_bit_with(sw, ow), true, true))
        } else if self.is_float() {
            match next_bit_width(ow) {
                Some(n) => Some(NumberDataType::new(max_bit_with(sw, n), true, true)),
                None => None,
            }
        } else if other.is_float() {
            match next_bit_width(sw) {
                Some(n) => Some(NumberDataType::new(max_bit_with(n, ow), true, true)),
                None => None,
            }
        } else if self.is_signed() == other.is_signed() {
            Some(NumberDataType::new(max_bit_with(sw, ow), self.is_signed(), false))
        } else if !self.is_signed() {
            match next_bit_width(ow) {
                Some(n) => Some(NumberDataType::new(max_bit_with(sw, n), true, false)),
                None => None,
            }
        } else {
            match next_bit_width(sw) {
                Some(n) => Some(NumberDataType::new(max_bit_with(n, ow), true, false)),
                None => None,
            }
        }
    }
}

impl NumberDataType {
    /// The smallest value of an integer type.
    pub open spec fn int_min(self) -> int {
        match self {
            NumberDataType::Int8 => i8::MIN as int,
            NumberDataType::Int16 => i16::MIN as int,
            NumberDataType::Int32 => i32::MIN as int,
            NumberDataType::Int64 => i64::MIN as int,
            _ => 0,
        }
    }

    /// The largest value of an integer type.
    pub open spec fn int_max(self) -> int {
        match self {
            NumberDataType::UInt8 => u8::MAX as int,
            NumberDataType::UInt16 => u16::MAX as int,
            NumberDataType::UInt32 => u32::MAX as int,
            NumberDataType::UInt64 => u64::MAX as int,
            NumberDataType::Int8 => i8::MAX as int,
            NumberDataType::Int16 => i16::MAX as int,
            NumberDataType::Int32 => i32::MAX as int,
            NumberDataType::Int64 => i64::MAX as int,
            _ => 0,
        }
    }

    /// The bounds of an integer type, as `i128` values.
    pub fn int_bounds(self) -> (r: (i128, i128))
        requires
            !self.float(),
        ensures
            r.0 == self.int_min(),
            r.1 == self.int_max(),
            r.0 <= r.1,
    {
        match self {
            NumberDataType::UInt8 => (0, u8::MAX as i128),
            NumberDataType::UInt16 => (0, u16::MAX as i128),
            NumberDataType::UInt32 => (0, u32::MAX as i128),
            NumberDataType::UInt64 => (0, u64::MAX as i128),
            NumberDataType::Int8 => (i8::MIN as i128, i8::MAX as i128),
            NumberDataType::Int16 => (i16::MIN as i128, i16::MAX as i128),
            NumberDataType::Int32 => (i32::MIN as i128, i32::MAX as i128),
            NumberDataType::Int64 => (i64::MIN as i128, i64::MAX as i128),
            _ => (0, 0),
        }
    }
}

pub open spec fn clamp(x: int, lo: int, hi: int) -> int {
    if x < lo { lo } else if x > hi { hi } else { x }
}

/// Domains of integer values, held as `i128` so that every integer type's values fit.
impl SimpleDomain<i128> {
    /// Casts the domain into `[min, max]`, saturating each end; the flag tells whether
    /// either end had to move.
    pub fn overflow_cast_with_minmax(&self, min: i128, max: i128) -> (r: (SimpleDomain<i128>, bool))
        requires
            min <= max,
        ensures
            r.0.min == clamp(self.min as int, min as int, max as int),
            r.0.max == clamp(self.max as int, min as int, max as int),
            r.1 == (r.0.min != self.min || r.0.max != self.max),
    {
        let (lo, lo_overflow) = overflow_cast_value(self.min, min, max);
        let (hi, hi_overflow) = overflow_cast_value(self.max, min, max);
        (SimpleDomain { min: lo, max: hi }, lo_overflow || hi_overflow)
    }

    /// Casts the domain into the range of an integer type.
    pub fn overflow_cast(&self, dest: NumberDataType) -> (r: (SimpleDomain<i128>, bool))
        requires
            !dest.float(),
        ensures
            r.0.min == clamp(self.min as int, dest.int_min(), dest.int_max()),
            r.0.max == clamp(self.max as int, dest.int_min(), dest.int_max()),
            r.1 == (r.0.min != self.min || r.0.max != self.max),
    {
        let (min, max) = dest.int_bounds();
        self.overflow_cast_with_minmax(min, max)
    }
}

fn overflow_cast_value(src: i128, min: i128, max: i128) -> (r: (i128, bool))
    requires
        min <= max,
    ensures
        r.0 == clamp(src as int, min as int, max as int),
        r.1 == (r.0 != src),
{
    let clamped = if src < min {
        min
    } else if src > max {
        max
    } else {
        src
    };
    (clamped, clamped != src)
}

/// The next wider integer width, or `None` for 64 bits.
pub fn next_bit_width(width: u8) -> (r: Option<u8>)
    requires
        valid_width(width),
    ensures
        r == spec_next_bit_width(width),
        r matches Some(n) ==> valid_width(n) && n > width,
{
    if width == 8 {
        Some(16)
    } else if width == 16 {
        Some(32)
    } else if width == 32 {
        Some(64)
    } else {
        None
    }
}

pub fn max_bit_with(lhs: u8, rhs: u8) -> (r: u8)
    ensures
        r == spec_max(lhs, rhs),
        r >= lhs && r >= rhs,
        r == lhs || r == rhs,
{
    if lhs > rhs {
        lhs
    } else {
        rhs
    }
}

} // verus!
