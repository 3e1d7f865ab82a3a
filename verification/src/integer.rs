//! Lossless GraphQL integer values.
use vstd::prelude::*;

verus! {

/// An integer value as it appears in a document or in variable values: either the
/// decimal literal of the source text, or a native signed or unsigned number.
pub enum IntegerValue {
    Literal(String),
    Signed(i64),
    Unsigned(u64),
}

pub open spec fn is_decimal_digit(c: char) -> bool {
    '0' <= c && c <= '9'
}

/// The digits of a literal: the text after its minus sign, if it has one.
pub open spec fn literal_digits(s: Seq<char>) -> Seq<char> {
    if s.len() > 0 && s[0] == '-' { s.drop_first() } else { s }
}

/// The literal grammar `-?(0|[1-9][0-9]*)`.
pub open spec fn valid_integer_literal(s: Seq<char>) -> bool {
    let digits = literal_digits(s);
    ||| digits == seq!['0']
    ||| {
        &&& digits.len() >= 1
        &&& '1' <= digits[0] && digits[0] <= '9'
        &&& forall|i: int| 0 <= i < digits.len() ==> is_decimal_digit(#[trigger] digits[i])
    }
}

/// The number that a string of decimal digits denotes.
pub open spec fn digits_value(d: Seq<char>) -> nat
    decreases d.len(),
{
    if d.len() == 0 {
        0
    } else {
        digits_value(d.drop_last()) * 10 + ((d.last() as int - '0' as int) as nat)
    }
}

impl IntegerValue {
    pub open spec fn wf(&self) -> bool {
        match self {
            IntegerValue::Literal(s) => valid_integer_literal(s@),
            _ => true,
        }
    }

    /// Whether the numeric value is below zero; the literal `-0` is not negative.
    pub open spec fn spec_is_negative(&self) -> bool {
        match self {
            IntegerValue::Literal(s) => s@.len() > 0 && s@[0] == '-' && s@ != seq!['-', '0'],
            IntegerValue::Signed(v) => *v < 0,
            IntegerValue::Unsigned(_) => false,
        }
    }

    /// The value as a `u64`, when it is one.
    pub open spec fn spec_as_u64(&self) -> Option<u64> {
        match self {
            IntegerValue::Literal(s) => if s@ == seq!['-', '0'] {
                Some(0u64)
            } else if s@.len() > 0 && s@[0] == '-' {
                None
            } else if digits_value(s@) <= u64::MAX {
                Some(digits_value(s@) as u64)
            } else {
                None
            },
            IntegerValue::Signed(v) => if *v >= 0 {
                Some(*v as u64)
            } else {
                None
            },
            IntegerValue::Unsigned(v) => Some(*v),
        }
    }

    /// The number the value denotes.
    pub open spec fn spec_numeric(&self) -> int {
        match self {
            IntegerValue::Literal(s) => if s@.len() > 0 && s@[0] == '-' {
                -(digits_value(s@.drop_first()) as int)
            } else {
                digits_value(s@) as int
            },
            IntegerValue::Signed(v) => *v as int,
            IntegerValue::Unsigned(v) => *v as int,
        }
    }

    /// Whether two integers denote the same number (`bluejay_core::IntegerValue`'s `==`).
    pub fn numerically_equal(&self, other: &IntegerValue) -> (r: bool)
        requires
            self.wf(),
            other.wf(),
        ensures
            r == (self.spec_numeric() == other.spec_numeric()),
    {
        core_integer_eq(self, other)
    }

    /// Whether the numeric value is below zero (`bluejay_core::IntegerValue::is_negative`).
    pub fn is_negative(&self) -> (r: bool)
        requires
            self.wf(),
        ensures
            r == self.spec_is_negative(),
    {
        core_integer_is_negative(self)
    }

    /// The value as a `u64`, when it fits (`bluejay_core::IntegerValue::as_u64`).
    pub fn as_u64(&self) -> (r: Option<u64>)
        requires
            self.wf(),
        ensures
            r == self.spec_as_u64(),
    {
        core_integer_as_u64(self)
    }
}

/// Whether the text is an integer literal of GraphQL: `-?(0|[1-9][0-9]*)`.
pub fn is_valid_integer_literal(s: &str) -> (r: bool)
    ensures
        r == valid_integer_literal(s@),
{
    let n = s.unicode_len();
    let start: usize = if n > 0 && s.get_char(0) == '-' { 1 } else { 0 };
    let ghost digits = literal_digits(s@);
    assert(digits =~= s@.subrange(start as int, n as int));
    if start == n {
        return false;
    }
    let first = s.get_char(start);
    if first == '0' {
        assert(digits[0] == '0');
        if n == start + 1 {
            assert(digits =~= seq!['0']);
        }
        return n == start + 1;
    }
    if !('1' <= first && first <= '9') {
        return false;
    }
    let mut i: usize = start + 1;
    while i < n
        invariant
            start < i <= n,
            n == s@.len(),
            digits == literal_digits(s@),
            digits =~= s@.subrange(start as int, n as int),
            '1' <= digits[0] && digits[0] <= '9',
            forall|j: int| 0 <= j < i - start ==> is_decimal_digit(#[trigger] digits[j]),
        decreases n - i,
    {
        let c = s.get_char(i);
        if !('0' <= c && c <= '9') {
            assert(!is_decimal_digit(digits[i - start]));
            assert(digits != seq!['0']) by {
                assert(digits[0] != '0');
            }
            return false;
        }
        i += 1;
    }
    true
}

impl IntegerValue {
    /// Whether the value is well formed: a literal follows the grammar.
    pub fn check_wf(&self) -> (r: bool)
        ensures
            r == self.wf(),
    {
        match self {
            IntegerValue::Literal(s) => is_valid_integer_literal(s.as_str()),
            _ => true,
        }
    }
}

/// Calls `bluejay_core::IntegerValue::is_negative` on the same value. The contract
/// restates that method: a literal is negative when it starts with `-` and is not
/// `-0`, a native value when it is below zero.
#[verifier::external_body]
fn core_integer_is_negative(v: &IntegerValue) -> (r: bool)
    requires
        v.wf(),
    ensures
        r == v.spec_is_negative(),
{
    match v {
        IntegerValue::Literal(s) => bluejay_core::IntegerValue::from_validated_literal(s),
        IntegerValue::Signed(x) => bluejay_core::IntegerValue::from(*x),
        IntegerValue::Unsigned(x) => bluejay_core::IntegerValue::from(*x),
    }.is_negative()
}

/// Calls `bluejay_core::IntegerValue::as_u64` on the same value. The contract restates
/// that method: `-0` gives 0, a literal otherwise parses as a `u64` (a negative one
/// does not), a signed value converts when it is not negative, an unsigned one as is.
#[verifier::external_body]
fn core_integer_as_u64(v: &IntegerValue) -> (r: Option<u64>)
    requires
        v.wf(),
    ensures
        r == v.spec_as_u64(),
{
    match v {
        IntegerValue::Literal(s) => bluejay_core::IntegerValue::from_validated_literal(s),
        IntegerValue::Signed(x) => bluejay_core::IntegerValue::from(*x),
        IntegerValue::Unsigned(x) => bluejay_core::IntegerValue::from(*x),
    }.as_u64()
}

/// Compares the same two values with `bluejay_core::IntegerValue`'s `==`. The contract
/// restates it: the comparison is numeric across literals and native numbers (the
/// crate's documentation and its test `equality_is_numeric_across_representations`);
/// a valid literal has one spelling per number, `-0` aside, which parses as 0.
#[verifier::external_body]
fn core_integer_eq(a: &IntegerValue, b: &IntegerValue) -> (r: bool)
    requires
        a.wf(),
        b.wf(),
    ensures
        r == (a.spec_numeric() == b.spec_numeric()),
{
    let a = match a {
        IntegerValue::Literal(s) => bluejay_core::IntegerValue::from_validated_literal(s),
        IntegerValue::Signed(x) => bluejay_core::IntegerValue::from(*x),
        IntegerValue::Unsigned(x) => bluejay_core::IntegerValue::from(*x),
    };
    let b = match b {
        IntegerValue::Literal(s) => bluejay_core::IntegerValue::from_validated_literal(s),
        IntegerValue::Signed(x) => bluejay_core::IntegerValue::from(*x),
        IntegerValue::Unsigned(x) => bluejay_core::IntegerValue::from(*x),
    };
    a == b
}

} // verus!
