//! Numeric literals: their grammar, and the literal as a token carries it.
//!
//! The grammar is a part of the decimal numbers that `f64::from_str` reads: it
//! knows no `+`, neither in front nor in the exponent, and no name of an
//! infinity or of what is no number. A text of this grammar can always be
//! converted.

use vstd::prelude::*;
use crate::text::{digit, is_ascii_digit, string_of};

verus! {

/// The first position at or after `from` that holds no digit.
pub open spec fn digits_end(s: Seq<char>, from: int) -> int
    decreases s.len() - from,
{
    if 0 <= from < s.len() && digit(s[from]) {
        digits_end(s, from + 1)
    } else {
        from
    }
}

/// The letter that begins an exponent.
pub open spec fn is_exponent_mark(c: char) -> bool {
    c == 'e' || c == 'E'
}

/// The grammar of a decimal number: an optional `-`; digits with at most one
/// `.` among or beside them and at least one digit in all; then, optionally, an
/// exponent: `e` or `E`, an optional `-` and at least one digit.
pub open spec fn is_number(s: Seq<char>) -> bool {
    let start: int = if s.len() > 0 && s[0] == '-' {
        1
    } else {
        0
    };
    let whole_end = digits_end(s, start);
    let has_point = whole_end < s.len() && s[whole_end] == '.';
    let mantissa_end = if has_point {
        digits_end(s, whole_end + 1)
    } else {
        whole_end
    };
    let mantissa_digits = if has_point {
        mantissa_end - start - 1
    } else {
        mantissa_end - start
    };
    let has_exponent = mantissa_end < s.len() && is_exponent_mark(s[mantissa_end]);
    let has_sign = mantissa_end + 1 < s.len() && s[mantissa_end + 1] == '-';
    let exponent_start = if has_sign {
        mantissa_end + 2
    } else {
        mantissa_end + 1
    };
    if has_exponent {
        mantissa_digits >= 1 && digits_end(s, exponent_start) > exponent_start && digits_end(
            s,
            exponent_start,
        ) == s.len()
    } else {
        mantissa_digits >= 1 && mantissa_end == s.len()
    }
}

/// The first position at or after `from` that holds no digit.
fn skip_digits(s: &[char], from: usize) -> (r: usize)
    requires
        from <= s@.len(),
    ensures
        r == digits_end(s@, from as int),
        from <= r <= s@.len(),
{
    let mut i: usize = from;
    while i < s.len() && is_ascii_digit(s[i])
        invariant
            from <= i <= s@.len(),
            digits_end(s@, from as int) == digits_end(s@, i as int),
        decreases s@.len() - i,
    {
        i = i + 1;
    }
    i
}

/// Decides whether the characters form a number of the grammar [`is_number`].
pub fn check_number(s: &[char]) -> (r: bool)
    ensures
        r == is_number(s@),
{
    let n = s.len();
    let start: usize = if n > 0 && s[0] == '-' {
        1
    } else {
        0
    };
    let whole_end = skip_digits(s, start);
    let has_point = whole_end < n && s[whole_end] == '.';
    let mantissa_end = if has_point {
        skip_digits(s, whole_end + 1)
    } else {
        whole_end
    };
    let mantissa_digits = if has_point {
        mantissa_end - start - 1
    } else {
        mantissa_end - start
    };
    if mantissa_digits < 1 {
        return false;
    }
    if !(mantissa_end < n && (s[mantissa_end] == 'e' || s[mantissa_end] == 'E')) {
        return mantissa_end == n;
    }
    let has_sign = mantissa_end + 1 < n && s[mantissa_end + 1] == '-';
    let exponent_start = if has_sign {
        mantissa_end + 2
    } else {
        mantissa_end + 1
    };
    let end = skip_digits(s, exponent_start);
    end > exponent_start && end == n
}

/// A numeric literal: the characters of a decimal number as written, digit
/// separators removed. The number itself is not computed here; the text is
/// what a conversion to a binary floating-point number reads.
#[derive(Debug, PartialEq, Eq)]
pub struct NumberLiteral {
    text: String,
}

impl View for NumberLiteral {
    type V = Seq<char>;

    closed spec fn view(&self) -> Seq<char> {
        self.text@
    }
}

impl Clone for NumberLiteral {
    fn clone(&self) -> (r: Self)
        ensures
            r == *self,
    {
        proof {
            use_type_invariant(self);
        }
        NumberLiteral { text: self.text.clone() }
    }
}

impl NumberLiteral {
    #[verifier::type_invariant]
    closed spec fn well_formed(self) -> bool {
        is_number(self.text@)
    }

    /// The literal with the characters of `text`, if they form a number.
    pub fn new(text: &str) -> (r: Option<NumberLiteral>)
        ensures
            r is Some <==> is_number(text@),
            r matches Some(lit) ==> lit@ == text@,
    {
        let chars = crate::text::chars_of(text);
        Self::from_chars(chars.as_slice())
    }

    /// The literal with the characters `chars`, if they form a number.
    pub fn from_chars(chars: &[char]) -> (r: Option<NumberLiteral>)
        ensures
            r is Some <==> is_number(chars@),
            r matches Some(lit) ==> lit@ == chars@,
    {
        if check_number(chars) {
            let text = string_of(chars, 0, chars.len());
            assert(chars@.subrange(0, chars@.len() as int) == chars@);
            Some(NumberLiteral { text })
        } else {
            None
        }
    }

    /// The characters of the literal; they always form a number.
    pub fn as_str(&self) -> (r: &str)
        ensures
            r@ == self@,
            is_number(r@),
    {
        proof {
            use_type_invariant(self);
        }
        self.text.as_str()
    }
}

} // verus!
