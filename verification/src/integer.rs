use vstd::prelude::*;

verus! {

/// A machine integer of one of the ten widths that a binding may declare.
///
/// The wire formats carry every integer as a 64-bit signed or unsigned
/// number. This trait says, for each destination type, which of them it
/// holds, through a type wide enough for both.
pub trait Integer: Sized + Copy {
    /// The least number that the type holds.
    spec fn lowest() -> int;

    /// The greatest number that the type holds.
    spec fn highest() -> int;

    /// Whether the type is written as a signed number.
    spec fn signed() -> bool;

    /// The number that a value of the type stands for.
    spec fn value(self) -> int;

    /// Every value lies within the type's range.
    proof fn range(self)
        ensures
            Self::lowest() <= self.value() <= Self::highest(),
    ;

    /// The type's range holds zero and one, and 64 bits cover it.
    proof fn range_of_type()
        ensures
            i64::MIN <= Self::lowest() <= 0,
            1 <= Self::highest() <= u64::MAX,
            Self::signed() ==> Self::highest() <= i64::MAX,
            !Self::signed() ==> Self::lowest() == 0,
    ;

    /// The value of the type that stands for `wide`, where there is one.
    fn from_wide(wide: i128) -> (narrow: Option<Self>)
        ensures
            narrow is Some <==> Self::lowest() <= wide <= Self::highest(),
            narrow matches Some(n) ==> n.value() == wide,
    ;

    /// The number that `self` stands for.
    fn to_wide(self) -> (wide: i128)
        ensures
            wide == self.value(),
    ;

    /// Whether the type is written as a signed number.
    fn is_signed() -> (signed: bool)
        ensures
            signed == Self::signed(),
    ;
}

impl Integer for i8 {
    open spec fn lowest() -> int {
        i8::MIN as int
    }

    open spec fn highest() -> int {
        i8::MAX as int
    }

    open spec fn signed() -> bool {
        true
    }

    open spec fn value(self) -> int {
        self as int
    }

    proof fn range(self) {
    }

    proof fn range_of_type() {
    }

    fn from_wide(wide: i128) -> (narrow: Option<Self>) {
        if wide < i8::MIN as i128 || wide > i8::MAX as i128 {
            None
        } else {
            Some(wide as i8)
        }
    }

    fn to_wide(self) -> (wide: i128) {
        self as i128
    }

    fn is_signed() -> (signed: bool) {
        true
    }
}

impl Integer for i16 {
    open spec fn lowest() -> int {
        i16::MIN as int
    }

    open spec fn highest() -> int {
        i16::MAX as int
    }

    open spec fn signed() -> bool {
        true
    }

    open spec fn value(self) -> int {
        self as int
    }

    proof fn range(self) {
    }

    proof fn range_of_type() {
    }

    fn from_wide(wide: i128) -> (narrow: Option<Self>) {
        if wide < i16::MIN as i128 || wide > i16::MAX as i128 {
            None
        } else {
            Some(wide as i16)
        }
    }

    fn to_wide(self) -> (wide: i128) {
        self as i128
    }

    fn is_signed() -> (signed: bool) {
        true
    }
}

impl Integer for i32 {
    open spec fn lowest() -> int {
        i32::MIN as int
    }

    open spec fn highest() -> int {
        i32::MAX as int
    }

    open spec fn signed() -> bool {
        true
    }

    open spec fn value(self) -> int {
        self as int
    }

    proof fn range(self) {
    }

    proof fn range_of_type() {
    }

    fn from_wide(wide: i128) -> (narrow: Option<Self>) {
        if wide < i32::MIN as i128 || wide > i32::MAX as i128 {
            None
        } else {
            Some(wide as i32)
        }
    }

    fn to_wide(self) -> (wide: i128) {
        self as i128
    }

    fn is_signed() -> (signed: bool) {
        true
    }
}

impl Integer for i64 {
    open spec fn lowest() -> int {
        i64::MIN as int
    }

    open spec fn highest() -> int {
        i64::MAX as int
    }

    open spec fn signed() -> bool {
        true
    }

    open spec fn value(self) -> int {
        self as int
    }

    proof fn range(self) {
    }

    proof fn range_of_type() {
    }

    fn from_wide(wide: i128) -> (narrow: Option<Self>) {
        if wide < i64::MIN as i128 || wide > i64::MAX as i128 {
            None
        } else {
            Some(wide as i64)
        }
    }

    fn to_wide(self) -> (wide: i128) {
        self as i128
    }

    fn is_signed() -> (signed: bool) {
        true
    }
}

impl Integer for isize {
    open spec fn lowest() -> int {
        isize::MIN as int
    }

    open spec fn highest() -> int {
        isize::MAX as int
    }

    open spec fn signed() -> bool {
        true
    }

    open spec fn value(self) -> int {
        self as int
    }

    proof fn range(self) {
    }

    proof fn range_of_type() {
    }

    fn from_wide(wide: i128) -> (narrow: Option<Self>) {
        if wide < isize::MIN as i128 || wide > isize::MAX as i128 {
            None
        } else {
            Some(wide as isize)
        }
    }

    fn to_wide(self) -> (wide: i128) {
        self as i128
    }

    fn is_signed() -> (signed: bool) {
        true
    }
}

impl Integer for u8 {
    open spec fn lowest() -> int {
        u8::MIN as int
    }

    open spec fn highest() -> int {
        u8::MAX as int
    }

    open spec fn signed() -> bool {
        false
    }

    open spec fn value(self) -> int {
        self as int
    }

    proof fn range(self) {
    }

    proof fn range_of_type() {
    }

    fn from_wide(wide: i128) -> (narrow: Option<Self>) {
        if wide < u8::MIN as i128 || wide > u8::MAX as i128 {
            None
        } else {
            Some(wide as u8)
        }
    }

    fn to_wide(self) -> (wide: i128) {
        self as i128
    }

    fn is_signed() -> (signed: bool) {
        false
    }
}

impl Integer for u16 {
    open spec fn lowest() -> int {
        u16::MIN as int
    }

    open spec fn highest() -> int {
        u16::MAX as int
    }

    open spec fn signed() -> bool {
        false
    }

    open spec fn value(self) -> int {
        self as int
    }

    proof fn range(self) {
    }

    proof fn range_of_type() {
    }

    fn from_wide(wide: i128) -> (narrow: Option<Self>) {
        if wide < u16::MIN as i128 || wide > u16::MAX as i128 {
            None
        } else {
            Some(wide as u16)
        }
    }

    fn to_wide(self) -> (wide: i128) {
        self as i128
    }

    fn is_signed() -> (signed: bool) {
        false
    }
}

impl Integer for u32 {
    open spec fn lowest() -> int {
        u32::MIN as int
    }

    open spec fn highest() -> int {
        u32::MAX as int
    }

    open spec fn signed() -> bool {
        false
    }

    open spec fn value(self) -> int {
        self as int
    }

    proof fn range(self) {
    }

    proof fn range_of_type() {
    }

    fn from_wide(wide: i128) -> (narrow: Option<Self>) {
        if wide < u32::MIN as i128 || wide > u32::MAX as i128 {
            None
        } else {
            Some(wide as u32)
        }
    }

    fn to_wide(self) -> (wide: i128) {
        self as i128
    }

    fn is_signed() -> (signed: bool) {
        false
    }
}

impl Integer for u64 {
    open spec fn lowest() -> int {
        u64::MIN as int
    }

    open spec fn highest() -> int {
        u64::MAX as int
    }

    open spec fn signed() -> bool {
        false
    }

    open spec fn value(self) -> int {
        self as int
    }

    proof fn range(self) {
    }

    proof fn range_of_type() {
    }

    fn from_wide(wide: i128) -> (narrow: Option<Self>) {
        if wide < u64::MIN as i128 || wide > u64::MAX as i128 {
            None
        } else {
            Some(wide as u64)
        }
    }

    fn to_wide(self) -> (wide: i128) {
        self as i128
    }

    fn is_signed() -> (signed: bool) {
        false
    }
}

impl Integer for usize {
    open spec fn lowest() -> int {
        usize::MIN as int
    }

    open spec fn highest() -> int {
        usize::MAX as int
    }

    open spec fn signed() -> bool {
        false
    }

    open spec fn value(self) -> int {
        self as int
    }

    proof fn range(self) {
    }

    proof fn range_of_type() {
    }

    fn from_wide(wide: i128) -> (narrow: Option<Self>) {
        if wide < usize::MIN as i128 || wide > usize::MAX as i128 {
            None
        } else {
            Some(wide as usize)
        }
    }

    fn to_wide(self) -> (wide: i128) {
        self as i128
    }

    fn is_signed() -> (signed: bool) {
        false
    }
}

} // verus!
