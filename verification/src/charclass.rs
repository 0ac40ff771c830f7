use vstd::prelude::*;

verus! {

/// Whether `c` has the Unicode property `White_Space`.
pub uninterp spec fn is_whitespace_char(c: char) -> bool;

/// Whether `c` belongs to one of the Unicode general categories for numbers.
pub uninterp spec fn is_numeric_char(c: char) -> bool;

/// `char::is_whitespace` of std: the answer depends on the character alone,
/// and is what `is_whitespace_char` names.
pub assume_specification[ char::is_whitespace ](c: char) -> (r: bool)
    ensures
        r == is_whitespace_char(c),
;

/// `char::is_numeric` of std: the answer depends on the character alone,
/// and is what `is_numeric_char` names.
pub assume_specification[ char::is_numeric ](c: char) -> (r: bool)
    ensures
        r == is_numeric_char(c),
;

/// Whether `c` is one of the ten decimal digits `'0'` to `'9'`.
pub open spec fn is_decimal_digit(c: char) -> bool {
    '0' <= c && c <= '9'
}

/// The value of a decimal digit; zero for any other character.
pub open spec fn digit_value(c: char) -> nat {
    if is_decimal_digit(c) {
        (c as nat - '0' as nat) as nat
    } else {
        0
    }
}

/// The value of `c` where it is a decimal digit.
pub fn decimal_digit(c: char) -> (r: Option<u8>)
    ensures
        is_decimal_digit(c) <==> r is Some,
        r matches Some(d) ==> d as nat == digit_value(c) && d <= 9,
{
    if '0' <= c && c <= '9' {
        Some((c as u32 - '0' as u32) as u8)
    } else {
        None
    }
}

} // verus!
