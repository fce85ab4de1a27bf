//! The machine integers as additive values.
//!
//! Addition and subtraction wrap around at the bounds of the type, so each
//! integer type is the group of the integers modulo a power of two. A sum in
//! the type is the sum of the integers, reduced into the type; where the sum
//! of the integers fits the type, the two are equal, whatever the partial
//! sums did on the way.

use crate::additive::{sum, Additive};
use vstd::prelude::*;

verus! {

/// The number in `0 .. modulus` that differs from `x` by a multiple of
/// `modulus`.
pub open spec fn wrap_unsigned(x: int, modulus: int) -> int {
    x % modulus
}

/// The number in `-modulus / 2 .. modulus / 2` that differs from `x` by a
/// multiple of `modulus`.
pub open spec fn wrap_signed(x: int, modulus: int) -> int {
    if 2 * (x % modulus) >= modulus {
        x % modulus - modulus
    } else {
        x % modulus
    }
}

/// An additive type that is a range of the integers with wrapping
/// arithmetic.
pub trait WrappingInteger: Additive {
    /// The integer that the value is.
    spec fn to_int(self) -> int;

    /// The integer `x` reduced into the type.
    spec fn of_int(x: int) -> Self;

    /// The integer `x` is a value of the type.
    spec fn fits(x: int) -> bool;

    /// The zero of the type is the integer zero.
    proof fn zero_of_int()
        ensures
            Self::zero_spec() == Self::of_int(0),
    ;

    /// Adding in the type is adding the integers and reducing the sum.
    proof fn plus_of_int(x: int, a: Self)
        ensures
            Self::of_int(x).plus_spec(a) == Self::of_int(x + a.to_int()),
    ;

    /// An integer that fits the type is not changed by reducing it.
    proof fn of_int_exact(x: int)
        requires
            Self::fits(x),
        ensures
            Self::of_int(x).to_int() == x,
    ;
}

/// The sum of the integers of a sequence.
pub open spec fn int_sum<T: WrappingInteger>(s: Seq<T>) -> int
    decreases s.len(),
{
    if s.len() == 0 {
        0
    } else {
        int_sum(s.drop_last()) + s.last().to_int()
    }
}

/// A sum in the type is the sum of the integers, reduced into the type.
pub proof fn lemma_sum_wraps<T: WrappingInteger>(s: Seq<T>)
    ensures
        sum(s) == T::of_int(int_sum(s)),
    decreases s.len(),
{
    if s.len() == 0 {
        T::zero_of_int();
    } else {
        lemma_sum_wraps(s.drop_last());
        T::plus_of_int(int_sum(s.drop_last()), s.last());
    }
}

/// Where the sum of the integers fits the type, the sum in the type is that
/// integer.
pub proof fn lemma_sum_exact<T: WrappingInteger>(s: Seq<T>)
    requires
        T::fits(int_sum(s)),
    ensures
        sum(s).to_int() == int_sum(s),
{
    lemma_sum_wraps(s);
    T::of_int_exact(int_sum(s));
}

impl Additive for u8 {
    open spec fn zero_spec() -> u8 {
        0
    }

    open spec fn plus_spec(self, rhs: u8) -> u8 {
        self.wrapping_add(rhs)
    }

    open spec fn minus_spec(self, rhs: u8) -> u8 {
        self.wrapping_sub(rhs)
    }

    fn zero() -> u8 {
        0
    }

    fn plus(self, rhs: u8) -> u8 {
        self.wrapping_add(rhs)
    }

    fn minus(self, rhs: u8) -> u8 {
        self.wrapping_sub(rhs)
    }

    proof fn plus_commutative(a: u8, b: u8) {
    }

    proof fn plus_associative(a: u8, b: u8, c: u8) {
    }

    proof fn plus_zero(a: u8) {
    }

    proof fn plus_minus(a: u8, b: u8) {
    }

    proof fn minus_plus(a: u8, b: u8) {
    }
}

impl WrappingInteger for u8 {
    open spec fn to_int(self) -> int {
        self as int
    }

    open spec fn of_int(x: int) -> u8 {
        wrap_unsigned(x, u8::MAX + 1) as u8
    }

    open spec fn fits(x: int) -> bool {
        u8::MIN <= x <= u8::MAX
    }

    proof fn zero_of_int() {
    }

    proof fn plus_of_int(x: int, a: u8) {
    }

    proof fn of_int_exact(x: int) {
    }
}

impl Additive for u16 {
    open spec fn zero_spec() -> u16 {
        0
    }

    open spec fn plus_spec(self, rhs: u16) -> u16 {
        self.wrapping_add(rhs)
    }

    open spec fn minus_spec(self, rhs: u16) -> u16 {
        self.wrapping_sub(rhs)
    }

    fn zero() -> u16 {
        0
    }

    fn plus(self, rhs: u16) -> u16 {
        self.wrapping_add(rhs)
    }

    fn minus(self, rhs: u16) -> u16 {
        self.wrapping_sub(rhs)
    }

    proof fn plus_commutative(a: u16, b: u16) {
    }

    proof fn plus_associative(a: u16, b: u16, c: u16) {
    }

    proof fn plus_zero(a: u16) {
    }

    proof fn plus_minus(a: u16, b: u16) {
    }

    proof fn minus_plus(a: u16, b: u16) {
    }
}

impl WrappingInteger for u16 {
    open spec fn to_int(self) -> int {
        self as int
    }

    open spec fn of_int(x: int) -> u16 {
        wrap_unsigned(x, u16::MAX + 1) as u16
    }

    open spec fn fits(x: int) -> bool {
        u16::MIN <= x <= u16::MAX
    }

    proof fn zero_of_int() {
    }

    proof fn plus_of_int(x: int, a: u16) {
    }

    proof fn of_int_exact(x: int) {
    }
}

impl Additive for u32 {
    open spec fn zero_spec() -> u32 {
        0
    }

    open spec fn plus_spec(self, rhs: u32) -> u32 {
        self.wrapping_add(rhs)
    }

    open spec fn minus_spec(self, rhs: u32) -> u32 {
        self.wrapping_sub(rhs)
    }

    fn zero() -> u32 {
        0
    }

    fn plus(self, rhs: u32) -> u32 {
        self.wrapping_add(rhs)
    }

    fn minus(self, rhs: u32) -> u32 {
        self.wrapping_sub(rhs)
    }

    proof fn plus_commutative(a: u32, b: u32) {
    }

    proof fn plus_associative(a: u32, b: u32, c: u32) {
    }

    proof fn plus_zero(a: u32) {
    }

    proof fn plus_minus(a: u32, b: u32) {
    }

    proof fn minus_plus(a: u32, b: u32) {
    }
}

impl WrappingInteger for u32 {
    open spec fn to_int(self) -> int {
        self as int
    }

    open spec fn of_int(x: int) -> u32 {
        wrap_unsigned(x, u32::MAX + 1) as u32
    }

    open spec fn fits(x: int) -> bool {
        u32::MIN <= x <= u32::MAX
    }

    proof fn zero_of_int() {
    }

    proof fn plus_of_int(x: int, a: u32) {
    }

    proof fn of_int_exact(x: int) {
    }
}

impl Additive for u64 {
    open spec fn zero_spec() -> u64 {
        0
    }

    open spec fn plus_spec(self, rhs: u64) -> u64 {
        self.wrapping_add(rhs)
    }

    open spec fn minus_spec(self, rhs: u64) -> u64 {
        self.wrapping_sub(rhs)
    }

    fn zero() -> u64 {
        0
    }

    fn plus(self, rhs: u64) -> u64 {
        self.wrapping_add(rhs)
    }

    fn minus(self, rhs: u64) -> u64 {
        self.wrapping_sub(rhs)
    }

    proof fn plus_commutative(a: u64, b: u64) {
    }

    proof fn plus_associative(a: u64, b: u64, c: u64) {
    }

    proof fn plus_zero(a: u64) {
    }

    proof fn plus_minus(a: u64, b: u64) {
    }

    proof fn minus_plus(a: u64, b: u64) {
    }
}

impl WrappingInteger for u64 {
    open spec fn to_int(self) -> int {
        self as int
    }

    open spec fn of_int(x: int) -> u64 {
        wrap_unsigned(x, u64::MAX + 1) as u64
    }

    open spec fn fits(x: int) -> bool {
        u64::MIN <= x <= u64::MAX
    }

    proof fn zero_of_int() {
    }

    proof fn plus_of_int(x: int, a: u64) {
    }

    proof fn of_int_exact(x: int) {
    }
}

impl Additive for u128 {
    open spec fn zero_spec() -> u128 {
        0
    }

    open spec fn plus_spec(self, rhs: u128) -> u128 {
        self.wrapping_add(rhs)
    }

    open spec fn minus_spec(self, rhs: u128) -> u128 {
        self.wrapping_sub(rhs)
    }

    fn zero() -> u128 {
        0
    }

    fn plus(self, rhs: u128) -> u128 {
        self.wrapping_add(rhs)
    }

    fn minus(self, rhs: u128) -> u128 {
        self.wrapping_sub(rhs)
    }

    proof fn plus_commutative(a: u128, b: u128) {
    }

    proof fn plus_associative(a: u128, b: u128, c: u128) {
    }

    proof fn plus_zero(a: u128) {
    }

    proof fn plus_minus(a: u128, b: u128) {
    }

    proof fn minus_plus(a: u128, b: u128) {
    }
}

impl WrappingInteger for u128 {
    open spec fn to_int(self) -> int {
        self as int
    }

    open spec fn of_int(x: int) -> u128 {
        wrap_unsigned(x, u128::MAX + 1) as u128
    }

    open spec fn fits(x: int) -> bool {
        u128::MIN <= x <= u128::MAX
    }

    proof fn zero_of_int() {
    }

    proof fn plus_of_int(x: int, a: u128) {
    }

    proof fn of_int_exact(x: int) {
    }
}

impl Additive for usize {
    open spec fn zero_spec() -> usize {
        0
    }

    open spec fn plus_spec(self, rhs: usize) -> usize {
        self.wrapping_add(rhs)
    }

    open spec fn minus_spec(self, rhs: usize) -> usize {
        self.wrapping_sub(rhs)
    }

    fn zero() -> usize {
        0
    }

    fn plus(self, rhs: usize) -> usize {
        self.wrapping_add(rhs)
    }

    fn minus(self, rhs: usize) -> usize {
        self.wrapping_sub(rhs)
    }

    proof fn plus_commutative(a: usize, b: usize) {
    }

    proof fn plus_associative(a: usize, b: usize, c: usize) {
    }

    proof fn plus_zero(a: usize) {
    }

    proof fn plus_minus(a: usize, b: usize) {
    }

    proof fn minus_plus(a: usize, b: usize) {
    }
}

impl WrappingInteger for usize {
    open spec fn to_int(self) -> int {
        self as int
    }

    open spec fn of_int(x: int) -> usize {
        wrap_unsigned(x, usize::MAX + 1) as usize
    }

    open spec fn fits(x: int) -> bool {
        usize::MIN <= x <= usize::MAX
    }

    proof fn zero_of_int() {
    }

    proof fn plus_of_int(x: int, a: usize) {
        if usize::MAX == 0xFFFF_FFFF {
            assert(usize::MAX + 1 == 0x1_0000_0000);
            assert((x + a) % 0x1_0000_0000 == (x % 0x1_0000_0000 + a) % 0x1_0000_0000);
            assert(Self::of_int(x).plus_spec(a) == Self::of_int(x + a.to_int()));
        } else {
            assert(usize::MAX + 1 == 0x1_0000_0000_0000_0000);
            assert((x + a) % 0x1_0000_0000_0000_0000 == (x % 0x1_0000_0000_0000_0000 + a)
                % 0x1_0000_0000_0000_0000);
            assert(Self::of_int(x).plus_spec(a) == Self::of_int(x + a.to_int()));
        }
    }

    proof fn of_int_exact(x: int) {
        if usize::MAX == 0xFFFF_FFFF {
            assert(usize::MAX + 1 == 0x1_0000_0000);
            assert(Self::of_int(x).to_int() == x);
        } else {
            assert(usize::MAX + 1 == 0x1_0000_0000_0000_0000);
            assert(Self::of_int(x).to_int() == x);
        }
    }
}

impl Additive for i8 {
    open spec fn zero_spec() -> i8 {
        0
    }

    open spec fn plus_spec(self, rhs: i8) -> i8 {
        self.wrapping_add(rhs)
    }

    open spec fn minus_spec(self, rhs: i8) -> i8 {
        self.wrapping_sub(rhs)
    }

    fn zero() -> i8 {
        0
    }

    fn plus(self, rhs: i8) -> i8 {
        self.wrapping_add(rhs)
    }

    fn minus(self, rhs: i8) -> i8 {
        self.wrapping_sub(rhs)
    }

    proof fn plus_commutative(a: i8, b: i8) {
    }

    proof fn plus_associative(a: i8, b: i8, c: i8) {
    }

    proof fn plus_zero(a: i8) {
    }

    proof fn plus_minus(a: i8, b: i8) {
    }

    proof fn minus_plus(a: i8, b: i8) {
    }
}

impl WrappingInteger for i8 {
    open spec fn to_int(self) -> int {
        self as int
    }

    open spec fn of_int(x: int) -> i8 {
        wrap_signed(x, u8::MAX + 1) as i8
    }

    open spec fn fits(x: int) -> bool {
        i8::MIN <= x <= i8::MAX
    }

    proof fn zero_of_int() {
    }

    proof fn plus_of_int(x: int, a: i8) {
    }

    proof fn of_int_exact(x: int) {
    }
}

impl Additive for i16 {
    open spec fn zero_spec() -> i16 {
        0
    }

    open spec fn plus_spec(self, rhs: i16) -> i16 {
        self.wrapping_add(rhs)
    }

    open spec fn minus_spec(self, rhs: i16) -> i16 {
        self.wrapping_sub(rhs)
    }

    fn zero() -> i16 {
        0
    }

    fn plus(self, rhs: i16) -> i16 {
        self.wrapping_add(rhs)
    }

    fn minus(self, rhs: i16) -> i16 {
        self.wrapping_sub(rhs)
    }

    proof fn plus_commutative(a: i16, b: i16) {
    }

    proof fn plus_associative(a: i16, b: i16, c: i16) {
    }

    proof fn plus_zero(a: i16) {
    }

    proof fn plus_minus(a: i16, b: i16) {
    }

    proof fn minus_plus(a: i16, b: i16) {
    }
}

impl WrappingInteger for i16 {
    open spec fn to_int(self) -> int {
        self as int
    }

    open spec fn of_int(x: int) -> i16 {
        wrap_signed(x, u16::MAX + 1) as i16
    }

    open spec fn fits(x: int) -> bool {
        i16::MIN <= x <= i16::MAX
    }

    proof fn zero_of_int() {
    }

    proof fn plus_of_int(x: int, a: i16) {
    }

    proof fn of_int_exact(x: int) {
    }
}

impl Additive for i32 {
    open spec fn zero_spec() -> i32 {
        0
    }

    open spec fn plus_spec(self, rhs: i32) -> i32 {
        self.wrapping_add(rhs)
    }

    open spec fn minus_spec(self, rhs: i32) -> i32 {
        self.wrapping_sub(rhs)
    }

    fn zero() -> i32 {
        0
    }

    fn plus(self, rhs: i32) -> i32 {
        self.wrapping_add(rhs)
    }

    fn minus(self, rhs: i32) -> i32 {
        self.wrapping_sub(rhs)
    }

    proof fn plus_commutative(a: i32, b: i32) {
    }

    proof fn plus_associative(a: i32, b: i32, c: i32) {
    }

    proof fn plus_zero(a: i32) {
    }

    proof fn plus_minus(a: i32, b: i32) {
    }

    proof fn minus_plus(a: i32, b: i32) {
    }
}

impl WrappingInteger for i32 {
    open spec fn to_int(self) -> int {
        self as int
    }

    open spec fn of_int(x: int) -> i32 {
        wrap_signed(x, u32::MAX + 1) as i32
    }

    open spec fn fits(x: int) -> bool {
        i32::MIN <= x <= i32::MAX
    }

    proof fn zero_of_int() {
    }

    proof fn plus_of_int(x: int, a: i32) {
    }

    proof fn of_int_exact(x: int) {
    }
}

impl Additive for i64 {
    open spec fn zero_spec() -> i64 {
        0
    }

    open spec fn plus_spec(self, rhs: i64) -> i64 {
        self.wrapping_add(rhs)
    }

    open spec fn minus_spec(self, rhs: i64) -> i64 {
        self.wrapping_sub(rhs)
    }

    fn zero() -> i64 {
        0
    }

    fn plus(self, rhs: i64) -> i64 {
        self.wrapping_add(rhs)
    }

    fn minus(self, rhs: i64) -> i64 {
        self.wrapping_sub(rhs)
    }

    proof fn plus_commutative(a: i64, b: i64) {
    }

    proof fn plus_associative(a: i64, b: i64, c: i64) {
    }

    proof fn plus_zero(a: i64) {
    }

    proof fn plus_minus(a: i64, b: i64) {
    }

    proof fn minus_plus(a: i64, b: i64) {
    }
}

impl WrappingInteger for i64 {
    open spec fn to_int(self) -> int {
        self as int
    }

    open spec fn of_int(x: int) -> i64 {
        wrap_signed(x, u64::MAX + 1) as i64
    }

    open spec fn fits(x: int) -> bool {
        i64::MIN <= x <= i64::MAX
    }

    proof fn zero_of_int() {
    }

    proof fn plus_of_int(x: int, a: i64) {
    }

    proof fn of_int_exact(x: int) {
    }
}

impl Additive for i128 {
    open spec fn zero_spec() -> i128 {
        0
    }

    open spec fn plus_spec(self, rhs: i128) -> i128 {
        self.wrapping_add(rhs)
    }

    open spec fn minus_spec(self, rhs: i128) -> i128 {
        self.wrapping_sub(rhs)
    }

    fn zero() -> i128 {
        0
    }

    fn plus(self, rhs: i128) -> i128 {
        self.wrapping_add(rhs)
    }

    fn minus(self, rhs: i128) -> i128 {
        self.wrapping_sub(rhs)
    }

    proof fn plus_commutative(a: i128, b: i128) {
    }

    proof fn plus_associative(a: i128, b: i128, c: i128) {
    }

    proof fn plus_zero(a: i128) {
    }

    proof fn plus_minus(a: i128, b: i128) {
    }

    proof fn minus_plus(a: i128, b: i128) {
    }
}

impl WrappingInteger for i128 {
    open spec fn to_int(self) -> int {
        self as int
    }

    open spec fn of_int(x: int) -> i128 {
        wrap_signed(x, u128::MAX + 1) as i128
    }

    open spec fn fits(x: int) -> bool {
        i128::MIN <= x <= i128::MAX
    }

    proof fn zero_of_int() {
    }

    proof fn plus_of_int(x: int, a: i128) {
    }

    proof fn of_int_exact(x: int) {
    }
}

impl Additive for isize {
    open spec fn zero_spec() -> isize {
        0
    }

    open spec fn plus_spec(self, rhs: isize) -> isize {
        self.wrapping_add(rhs)
    }

    open spec fn minus_spec(self, rhs: isize) -> isize {
        self.wrapping_sub(rhs)
    }

    fn zero() -> isize {
        0
    }

    fn plus(self, rhs: isize) -> isize {
        self.wrapping_add(rhs)
    }

    fn minus(self, rhs: isize) -> isize {
        self.wrapping_sub(rhs)
    }

    proof fn plus_commutative(a: isize, b: isize) {
    }

    proof fn plus_associative(a: isize, b: isize, c: isize) {
    }

    proof fn plus_zero(a: isize) {
    }

    proof fn plus_minus(a: isize, b: isize) {
    }

    proof fn minus_plus(a: isize, b: isize) {
    }
}

impl WrappingInteger for isize {
    open spec fn to_int(self) -> int {
        self as int
    }

    open spec fn of_int(x: int) -> isize {
        wrap_signed(x, usize::MAX + 1) as isize
    }

    open spec fn fits(x: int) -> bool {
        isize::MIN <= x <= isize::MAX
    }

    proof fn zero_of_int() {
    }

    proof fn plus_of_int(x: int, a: isize) {
        if usize::MAX == 0xFFFF_FFFF {
            assert(usize::MAX + 1 == 0x1_0000_0000);
            assert(isize::MAX == 0x7FFF_FFFF && isize::MIN == -0x8000_0000);
            assert((x + a) % 0x1_0000_0000 == (x % 0x1_0000_0000 + a) % 0x1_0000_0000);
            assert(Self::of_int(x).plus_spec(a) == Self::of_int(x + a.to_int()));
        } else {
            assert(usize::MAX + 1 == 0x1_0000_0000_0000_0000);
            assert(isize::MAX == 0x7FFF_FFFF_FFFF_FFFF && isize::MIN == -0x8000_0000_0000_0000);
            assert((x + a) % 0x1_0000_0000_0000_0000 == (x % 0x1_0000_0000_0000_0000 + a)
                % 0x1_0000_0000_0000_0000);
            assert(Self::of_int(x).plus_spec(a) == Self::of_int(x + a.to_int()));
        }
    }

    proof fn of_int_exact(x: int) {
        if usize::MAX == 0xFFFF_FFFF {
            assert(usize::MAX + 1 == 0x1_0000_0000);
            assert(isize::MAX == 0x7FFF_FFFF && isize::MIN == -0x8000_0000);
            assert(Self::of_int(x).to_int() == x);
        } else {
            assert(usize::MAX + 1 == 0x1_0000_0000_0000_0000);
            assert(isize::MAX == 0x7FFF_FFFF_FFFF_FFFF && isize::MIN == -0x8000_0000_0000_0000);
            assert(Self::of_int(x).to_int() == x);
        }
    }
}

} // verus!
