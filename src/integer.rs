use vstd::prelude::*;

verus! {

/// An integer type that numerals can be decoded into and encoded from.
pub trait NumeralInt: Sized + Copy {
    /// The value as a mathematical integer.
    spec fn value(self) -> int;

    /// The least value of the type.
    spec fn lowest() -> int;

    /// The greatest value of the type.
    spec fn highest() -> int;

    /// Every value lies between the type's bounds, which hold zero and stay within `u128`.
    proof fn lemma_range(self)
        ensures
            Self::lowest() <= self.value() <= Self::highest(),
            Self::lowest() <= 0 < Self::highest() <= u128::MAX,
    ;

    /// Zero.
    fn zero() -> (r: Self)
        ensures
            r.value() == 0,
    ;

    /// The magnitude `m` in this type, where it fits.
    fn from_magnitude(m: u128) -> (r: Option<Self>)
        ensures
            match r {
                Some(v) => m <= Self::highest() && v.value() == m,
                None => m > Self::highest(),
            },
    ;

    /// The sum, where it fits.
    fn checked_plus(self, other: Self) -> (r: Option<Self>)
        ensures
            match r {
                Some(v) => v.value() == self.value() + other.value(),
                None => !(Self::lowest() <= self.value() + other.value() <= Self::highest()),
            },
    ;

    /// The difference, where it fits.
    fn checked_minus(self, other: Self) -> (r: Option<Self>)
        ensures
            match r {
                Some(v) => v.value() == self.value() - other.value(),
                None => !(Self::lowest() <= self.value() - other.value() <= Self::highest()),
            },
    ;

    /// The value as a `u128`, unless it is negative.
    fn to_magnitude(self) -> (r: Option<u128>)
        ensures
            match r {
                Some(v) => self.value() >= 0 && v == self.value(),
                None => self.value() < 0,
            },
    ;
}

impl NumeralInt for i8 {
    open spec fn value(self) -> int {
        self as int
    }

    open spec fn lowest() -> int {
        i8::MIN as int
    }

    open spec fn highest() -> int {
        i8::MAX as int
    }

    proof fn lemma_range(self) {
    }

    fn zero() -> (r: i8) {
        0
    }

    fn from_magnitude(m: u128) -> (r: Option<i8>) {
        if m <= i8::MAX as u128 {
            Some(m as i8)
        } else {
            None
        }
    }

    fn checked_plus(self, other: i8) -> (r: Option<i8>) {
        self.checked_add(other)
    }

    fn checked_minus(self, other: i8) -> (r: Option<i8>) {
        self.checked_sub(other)
    }

    fn to_magnitude(self) -> (r: Option<u128>) {
        if self < 0 {
            None
        } else {
            Some(self as u128)
        }
    }
}

impl NumeralInt for i16 {
    open spec fn value(self) -> int {
        self as int
    }

    open spec fn lowest() -> int {
        i16::MIN as int
    }

    open spec fn highest() -> int {
        i16::MAX as int
    }

    proof fn lemma_range(self) {
    }

    fn zero() -> (r: i16) {
        0
    }

    fn from_magnitude(m: u128) -> (r: Option<i16>) {
        if m <= i16::MAX as u128 {
            Some(m as i16)
        } else {
            None
        }
    }

    fn checked_plus(self, other: i16) -> (r: Option<i16>) {
        self.checked_add(other)
    }

    fn checked_minus(self, other: i16) -> (r: Option<i16>) {
        self.checked_sub(other)
    }

    fn to_magnitude(self) -> (r: Option<u128>) {
        if self < 0 {
            None
        } else {
            Some(self as u128)
        }
    }
}

impl NumeralInt for i32 {
    open spec fn value(self) -> int {
        self as int
    }

    open spec fn lowest() -> int {
        i32::MIN as int
    }

    open spec fn highest() -> int {
        i32::MAX as int
    }

    proof fn lemma_range(self) {
    }

    fn zero() -> (r: i32) {
        0
    }

    fn from_magnitude(m: u128) -> (r: Option<i32>) {
        if m <= i32::MAX as u128 {
            Some(m as i32)
        } else {
            None
        }
    }

    fn checked_plus(self, other: i32) -> (r: Option<i32>) {
        self.checked_add(other)
    }

    fn checked_minus(self, other: i32) -> (r: Option<i32>) {
        self.checked_sub(other)
    }

    fn to_magnitude(self) -> (r: Option<u128>) {
        if self < 0 {
            None
        } else {
            Some(self as u128)
        }
    }
}

impl NumeralInt for i64 {
    open spec fn value(self) -> int {
        self as int
    }

    open spec fn lowest() -> int {
        i64::MIN as int
    }

    open spec fn highest() -> int {
        i64::MAX as int
    }

    proof fn lemma_range(self) {
    }

    fn zero() -> (r: i64) {
        0
    }

    fn from_magnitude(m: u128) -> (r: Option<i64>) {
        if m <= i64::MAX as u128 {
            Some(m as i64)
        } else {
            None
        }
    }

    fn checked_plus(self, other: i64) -> (r: Option<i64>) {
        self.checked_add(other)
    }

    fn checked_minus(self, other: i64) -> (r: Option<i64>) {
        self.checked_sub(other)
    }

    fn to_magnitude(self) -> (r: Option<u128>) {
        if self < 0 {
            None
        } else {
            Some(self as u128)
        }
    }
}

impl NumeralInt for i128 {
    open spec fn value(self) -> int {
        self as int
    }

    open spec fn lowest() -> int {
        i128::MIN as int
    }

    open spec fn highest() -> int {
        i128::MAX as int
    }

    proof fn lemma_range(self) {
    }

    fn zero() -> (r: i128) {
        0
    }

    fn from_magnitude(m: u128) -> (r: Option<i128>) {
        if m <= i128::MAX as u128 {
            Some(m as i128)
        } else {
            None
        }
    }

    fn checked_plus(self, other: i128) -> (r: Option<i128>) {
        self.checked_add(other)
    }

    fn checked_minus(self, other: i128) -> (r: Option<i128>) {
        self.checked_sub(other)
    }

    fn to_magnitude(self) -> (r: Option<u128>) {
        if self < 0 {
            None
        } else {
            Some(self as u128)
        }
    }
}

impl NumeralInt for isize {
    open spec fn value(self) -> int {
        self as int
    }

    open spec fn lowest() -> int {
        isize::MIN as int
    }

    open spec fn highest() -> int {
        isize::MAX as int
    }

    proof fn lemma_range(self) {
    }

    fn zero() -> (r: isize) {
        0
    }

    fn from_magnitude(m: u128) -> (r: Option<isize>) {
        if m <= isize::MAX as u128 {
            Some(m as isize)
        } else {
            None
        }
    }

    fn checked_plus(self, other: isize) -> (r: Option<isize>) {
        self.checked_add(other)
    }

    fn checked_minus(self, other: isize) -> (r: Option<isize>) {
        self.checked_sub(other)
    }

    fn to_magnitude(self) -> (r: Option<u128>) {
        if self < 0 {
            None
        } else {
            Some(self as u128)
        }
    }
}

impl NumeralInt for u8 {
    open spec fn value(self) -> int {
        self as int
    }

    open spec fn lowest() -> int {
        u8::MIN as int
    }

    open spec fn highest() -> int {
        u8::MAX as int
    }

    proof fn lemma_range(self) {
    }

    fn zero() -> (r: u8) {
        0
    }

    fn from_magnitude(m: u128) -> (r: Option<u8>) {
        if m <= u8::MAX as u128 {
            Some(m as u8)
        } else {
            None
        }
    }

    fn checked_plus(self, other: u8) -> (r: Option<u8>) {
        self.checked_add(other)
    }

    fn checked_minus(self, other: u8) -> (r: Option<u8>) {
        self.checked_sub(other)
    }

    fn to_magnitude(self) -> (r: Option<u128>) {
        Some(self as u128)
    }
}

impl NumeralInt for u16 {
    open spec fn value(self) -> int {
        self as int
    }

    open spec fn lowest() -> int {
        u16::MIN as int
    }

    open spec fn highest() -> int {
        u16::MAX as int
    }

    proof fn lemma_range(self) {
    }

    fn zero() -> (r: u16) {
        0
    }

    fn from_magnitude(m: u128) -> (r: Option<u16>) {
        if m <= u16::MAX as u128 {
            Some(m as u16)
        } else {
            None
        }
    }

    fn checked_plus(self, other: u16) -> (r: Option<u16>) {
        self.checked_add(other)
    }

    fn checked_minus(self, other: u16) -> (r: Option<u16>) {
        self.checked_sub(other)
    }

    fn to_magnitude(self) -> (r: Option<u128>) {
        Some(self as u128)
    }
}

impl NumeralInt for u32 {
    open spec fn value(self) -> int {
        self as int
    }

    open spec fn lowest() -> int {
        u32::MIN as int
    }

    open spec fn highest() -> int {
        u32::MAX as int
    }

    proof fn lemma_range(self) {
    }

    fn zero() -> (r: u32) {
        0
    }

    fn from_magnitude(m: u128) -> (r: Option<u32>) {
        if m <= u32::MAX as u128 {
            Some(m as u32)
        } else {
            None
        }
    }

    fn checked_plus(self, other: u32) -> (r: Option<u32>) {
        self.checked_add(other)
    }

    fn checked_minus(self, other: u32) -> (r: Option<u32>) {
        self.checked_sub(other)
    }

    fn to_magnitude(self) -> (r: Option<u128>) {
        Some(self as u128)
    }
}

impl NumeralInt for u64 {
    open spec fn value(self) -> int {
        self as int
    }

    open spec fn lowest() -> int {
        u64::MIN as int
    }

    open spec fn highest() -> int {
        u64::MAX as int
    }

    proof fn lemma_range(self) {
    }

    fn zero() -> (r: u64) {
        0
    }

    fn from_magnitude(m: u128) -> (r: Option<u64>) {
        if m <= u64::MAX as u128 {
            Some(m as u64)
        } else {
            None
        }
    }

    fn checked_plus(self, other: u64) -> (r: Option<u64>) {
        self.checked_add(other)
    }

    fn checked_minus(self, other: u64) -> (r: Option<u64>) {
        self.checked_sub(other)
    }

    fn to_magnitude(self) -> (r: Option<u128>) {
        Some(self as u128)
    }
}

impl NumeralInt for u128 {
    open spec fn value(self) -> int {
        self as int
    }

    open spec fn lowest() -> int {
        u128::MIN as int
    }

    open spec fn highest() -> int {
        u128::MAX as int
    }

    proof fn lemma_range(self) {
    }

    fn zero() -> (r: u128) {
        0
    }

    fn from_magnitude(m: u128) -> (r: Option<u128>) {
        Some(m)
    }

    fn checked_plus(self, other: u128) -> (r: Option<u128>) {
        self.checked_add(other)
    }

    fn checked_minus(self, other: u128) -> (r: Option<u128>) {
        self.checked_sub(other)
    }

    fn to_magnitude(self) -> (r: Option<u128>) {
        Some(self as u128)
    }
}

impl NumeralInt for usize {
    open spec fn value(self) -> int {
        self as int
    }

    open spec fn lowest() -> int {
        usize::MIN as int
    }

    open spec fn highest() -> int {
        usize::MAX as int
    }

    proof fn lemma_range(self) {
    }

    fn zero() -> (r: usize) {
        0
    }

    fn from_magnitude(m: u128) -> (r: Option<usize>) {
        if m <= usize::MAX as u128 {
            Some(m as usize)
        } else {
            None
        }
    }

    fn checked_plus(self, other: usize) -> (r: Option<usize>) {
        self.checked_add(other)
    }

    fn checked_minus(self, other: usize) -> (r: Option<usize>) {
        self.checked_sub(other)
    }

    fn to_magnitude(self) -> (r: Option<u128>) {
        Some(self as u128)
    }
}

} // verus!
