use vstd::prelude::*;

verus! {

/// The constraint surface an element type must offer: a known byte size (the
/// last stride of every laid-out array), an additive and a multiplicative
/// identity for the fill constructors, and a checked conversion from machine
/// integers for the progression constructors. Each implementation is verified
/// against the mathematical value `to_int` of the element.
pub trait Element: Sized + Copy {
    /// The mathematical value this element stands for.
    spec fn to_int(self) -> int;

    /// Size of one element in bytes.
    spec fn esize_spec() -> int;

    /// Smallest mathematical value the type can hold.
    spec fn min_spec() -> int;

    /// Largest mathematical value the type can hold.
    spec fn max_spec() -> int;

    /// The type's additive identity.
    spec fn spec_zero() -> Self;

    /// The type's multiplicative identity.
    spec fn spec_one() -> Self;

    /// Basic facts every element type obeys: a positive size, a value range
    /// that contains zero and one, and identities with the right values.
    proof fn lemma_type_facts()
        ensures
            1 <= Self::esize_spec() <= usize::MAX,
            Self::min_spec() <= 0,
            Self::max_spec() >= 1,
            Self::spec_zero().to_int() == 0,
            Self::spec_one().to_int() == 1,
    ;

    /// Size of one element in bytes, as a runtime value.
    fn elem_size() -> (r: usize)
        ensures
            r as int == Self::esize_spec(),
    ;

    /// The additive identity, as a runtime value.
    fn zero_elem() -> (r: Self)
        ensures
            r == Self::spec_zero(),
    ;

    /// The multiplicative identity, as a runtime value.
    fn one_elem() -> (r: Self)
        ensures
            r == Self::spec_one(),
    ;

    /// Checked conversion from a machine integer: succeeds exactly when the
    /// value lies within the type's range, and then preserves the value.
    fn from_isize(v: isize) -> (r: Option<Self>)
        ensures
            r is Some <==> Self::min_spec() <= v as int <= Self::max_spec(),
            r matches Some(x) ==> x.to_int() == v as int,
    ;
}

impl Element for u32 {
    open spec fn to_int(self) -> int {
        self as int
    }

    open spec fn esize_spec() -> int {
        4
    }

    open spec fn min_spec() -> int {
        0
    }

    open spec fn max_spec() -> int {
        u32::MAX as int
    }

    open spec fn spec_zero() -> Self {
        0u32
    }

    open spec fn spec_one() -> Self {
        1u32
    }

    proof fn lemma_type_facts() {
    }

    fn elem_size() -> (r: usize) {
        4
    }

    fn zero_elem() -> (r: Self) {
        0
    }

    fn one_elem() -> (r: Self) {
        1
    }

    fn from_isize(v: isize) -> (r: Option<Self>) {
        if v >= 0 && v as i64 <= u32::MAX as i64 {
            Some(v as u32)
        } else {
            None
        }
    }
}

impl Element for u8 {
    open spec fn to_int(self) -> int {
        self as int
    }

    open spec fn esize_spec() -> int {
        1
    }

    open spec fn min_spec() -> int {
        0
    }

    open spec fn max_spec() -> int {
        u8::MAX as int
    }

    open spec fn spec_zero() -> Self {
        0u8
    }

    open spec fn spec_one() -> Self {
        1u8
    }

    proof fn lemma_type_facts() {
    }

    fn elem_size() -> (r: usize) {
        1
    }

    fn zero_elem() -> (r: Self) {
        0
    }

    fn one_elem() -> (r: Self) {
        1
    }

    fn from_isize(v: isize) -> (r: Option<Self>) {
        if v >= 0 && v <= u8::MAX as isize {
            Some(v as u8)
        } else {
            None
        }
    }
}

impl Element for u16 {
    open spec fn to_int(self) -> int {
        self as int
    }

    open spec fn esize_spec() -> int {
        2
    }

    open spec fn min_spec() -> int {
        0
    }

    open spec fn max_spec() -> int {
        u16::MAX as int
    }

    open spec fn spec_zero() -> Self {
        0u16
    }

    open spec fn spec_one() -> Self {
        1u16
    }

    proof fn lemma_type_facts() {
    }

    fn elem_size() -> (r: usize) {
        2
    }

    fn zero_elem() -> (r: Self) {
        0
    }

    fn one_elem() -> (r: Self) {
        1
    }

    fn from_isize(v: isize) -> (r: Option<Self>) {
        if v >= 0 && v <= u16::MAX as isize {
            Some(v as u16)
        } else {
            None
        }
    }
}

impl Element for u64 {
    open spec fn to_int(self) -> int {
        self as int
    }

    open spec fn esize_spec() -> int {
        8
    }

    open spec fn min_spec() -> int {
        0
    }

    open spec fn max_spec() -> int {
        u64::MAX as int
    }

    open spec fn spec_zero() -> Self {
        0u64
    }

    open spec fn spec_one() -> Self {
        1u64
    }

    proof fn lemma_type_facts() {
    }

    fn elem_size() -> (r: usize) {
        8
    }

    fn zero_elem() -> (r: Self) {
        0
    }

    fn one_elem() -> (r: Self) {
        1
    }

    fn from_isize(v: isize) -> (r: Option<Self>) {
        if v >= 0 {
            Some(v as u64)
        } else {
            None
        }
    }
}

impl Element for i8 {
    open spec fn to_int(self) -> int {
        self as int
    }

    open spec fn esize_spec() -> int {
        1
    }

    open spec fn min_spec() -> int {
        i8::MIN as int
    }

    open spec fn max_spec() -> int {
        i8::MAX as int
    }

    open spec fn spec_zero() -> Self {
        0i8
    }

    open spec fn spec_one() -> Self {
        1i8
    }

    proof fn lemma_type_facts() {
    }

    fn elem_size() -> (r: usize) {
        1
    }

    fn zero_elem() -> (r: Self) {
        0
    }

    fn one_elem() -> (r: Self) {
        1
    }

    fn from_isize(v: isize) -> (r: Option<Self>) {
        if v >= i8::MIN as isize && v <= i8::MAX as isize {
            Some(v as i8)
        } else {
            None
        }
    }
}

impl Element for i16 {
    open spec fn to_int(self) -> int {
        self as int
    }

    open spec fn esize_spec() -> int {
        2
    }

    open spec fn min_spec() -> int {
        i16::MIN as int
    }

    open spec fn max_spec() -> int {
        i16::MAX as int
    }

    open spec fn spec_zero() -> Self {
        0i16
    }

    open spec fn spec_one() -> Self {
        1i16
    }

    proof fn lemma_type_facts() {
    }

    fn elem_size() -> (r: usize) {
        2
    }

    fn zero_elem() -> (r: Self) {
        0
    }

    fn one_elem() -> (r: Self) {
        1
    }

    fn from_isize(v: isize) -> (r: Option<Self>) {
        if v >= i16::MIN as isize && v <= i16::MAX as isize {
            Some(v as i16)
        } else {
            None
        }
    }
}

impl Element for i32 {
    open spec fn to_int(self) -> int {
        self as int
    }

    open spec fn esize_spec() -> int {
        4
    }

    open spec fn min_spec() -> int {
        i32::MIN as int
    }

    open spec fn max_spec() -> int {
        i32::MAX as int
    }

    open spec fn spec_zero() -> Self {
        0i32
    }

    open spec fn spec_one() -> Self {
        1i32
    }

    proof fn lemma_type_facts() {
    }

    fn elem_size() -> (r: usize) {
        4
    }

    fn zero_elem() -> (r: Self) {
        0
    }

    fn one_elem() -> (r: Self) {
        1
    }

    fn from_isize(v: isize) -> (r: Option<Self>) {
        if v as i64 >= i32::MIN as i64 && v as i64 <= i32::MAX as i64 {
            Some(v as i32)
        } else {
            None
        }
    }
}

impl Element for i64 {
    open spec fn to_int(self) -> int {
        self as int
    }

    open spec fn esize_spec() -> int {
        8
    }

    open spec fn min_spec() -> int {
        i64::MIN as int
    }

    open spec fn max_spec() -> int {
        i64::MAX as int
    }

    open spec fn spec_zero() -> Self {
        0i64
    }

    open spec fn spec_one() -> Self {
        1i64
    }

    proof fn lemma_type_facts() {
    }

    fn elem_size() -> (r: usize) {
        8
    }

    fn zero_elem() -> (r: Self) {
        0
    }

    fn one_elem() -> (r: Self) {
        1
    }

    fn from_isize(v: isize) -> (r: Option<Self>) {
        Some(v as i64)
    }
}

} // verus!
