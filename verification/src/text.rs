//! Characters and strings: the classes of characters that the scanner tells
//! apart, and the few string operations the crate builds its texts with.

use vstd::prelude::*;
use vstd::string::StringExecFns;
use vstd::utf8::{
    char_is_scalar, encode_scalar, encode_utf8, has_width_1_encoding, has_width_2_encoding,
    has_width_3_encoding,
};

verus! {

/// Whether `c` is alphabetic in the sense of the Unicode `Alphabetic` property,
/// as `char::is_alphabetic` decides it.
pub uninterp spec fn alphabetic(c: char) -> bool;

/// Whether `c` is white space in the sense of the Unicode `White_Space` property,
/// as `char::is_whitespace` decides it.
pub uninterp spec fn whitespace(c: char) -> bool;

/// The lowercase form of a text, as `str::to_lowercase` produces it.
pub uninterp spec fn lowercase(s: Seq<char>) -> Seq<char>;

/// A text as `Debug` writes a string: between double quotes, with the
/// characters escaped that cannot stand there as they are.
pub uninterp spec fn quoted(s: Seq<char>) -> Seq<char>;

/// One of the ten ASCII decimal digits.
pub open spec fn digit(c: char) -> bool {
    '0' <= c && c <= '9'
}

/// Whether a character may stand inside an identifier, where `letter` says
/// whether it is alphabetic: a letter, a digit or `_` may.
pub open spec fn ident_char_of(c: char, letter: bool) -> bool {
    letter || digit(c) || c == '_'
}

/// A character that may stand inside an identifier.
pub open spec fn ident_char(c: char) -> bool {
    ident_char_of(c, alphabetic(c))
}

/// Calls `char::is_alphabetic`. Trusted: the result is the Unicode property
/// named by [`alphabetic`]; nothing else is claimed about it.
#[verifier::external_body]
pub(crate) fn is_alphabetic(c: char) -> (r: bool)
    ensures
        r == alphabetic(c),
{
    c.is_alphabetic()
}

/// Calls `char::is_whitespace`. Trusted: the result is the Unicode property
/// named by [`whitespace`]; nothing else is claimed about it.
#[verifier::external_body]
pub(crate) fn is_whitespace(c: char) -> (r: bool)
    ensures
        r == whitespace(c),
{
    c.is_whitespace()
}

/// Calls `str::to_lowercase`. Trusted: the characters of the result are those
/// named by [`lowercase`] for the characters of `s`.
#[verifier::external_body]
pub(crate) fn to_lowercase(s: &str) -> (r: String)
    ensures
        r@ == lowercase(s@),
{
    s.to_lowercase()
}

/// Calls `String::push`. Trusted: the string afterwards is the string before
/// with `c` appended.
#[verifier::external_body]
pub(crate) fn push_char(s: &mut String, c: char)
    ensures
        final(s)@ == old(s)@.push(c),
{
    s.push(c)
}

/// Writes the string with the `Debug` format of `str`. Trusted: the result is
/// the text named by [`quoted`]; nothing else is claimed about it.
#[verifier::external_body]
pub(crate) fn debug_quoted(s: &str) -> (r: String)
    ensures
        r@ == quoted(s@),
{
    format!("{:?}", s)
}

/// Tells whether two string slices hold the same characters.
pub fn str_eq(a: &str, b: &str) -> (r: bool)
    ensures
        r == (a@ == b@),
{
    let x = String::from_str(a);
    let y = String::from_str(b);
    x == y
}

/// Tells whether `c` is an ASCII decimal digit.
pub fn is_ascii_digit(c: char) -> (r: bool)
    ensures
        r == digit(c),
{
    '0' <= c && c <= '9'
}

/// The characters of `s`, in order.
pub fn chars_of(s: &str) -> (v: Vec<char>)
    ensures
        v@ == s@,
{
    let mut v: Vec<char> = Vec::new();
    for c in it: s.chars()
        invariant
            v@ == it.seq().take(it.index() as int),
            it.seq() == s@,
    {
        v.push(c);
    }
    v
}

/// The number of bytes that `c` takes in UTF-8.
pub open spec fn width(c: char) -> int {
    encode_scalar(c as u32).len() as int
}

/// The number of bytes that a text takes in UTF-8.
pub open spec fn byte_len(s: Seq<char>) -> int {
    encode_utf8(s).len() as int
}

/// The byte offset at which the `k`-th character of a text begins: the number
/// of bytes that the characters before it take in UTF-8.
pub open spec fn byte_position(s: Seq<char>, k: int) -> int {
    byte_len(s.take(k))
}

/// The column of the byte offset `at` in a text: the number of characters
/// that begin before it. An offset behind the end of the text counts one
/// column for each byte that it lies behind.
pub open spec fn column_of(s: Seq<char>, at: int) -> int
    decreases s.len(),
{
    if at <= 0 {
        0
    } else if s.len() == 0 {
        at
    } else {
        1 + column_of(s.drop_first(), at - width(s[0]))
    }
}

/// A character takes between one and four bytes.
pub proof fn lemma_width_bounds(c: char)
    ensures
        1 <= width(c) <= 4,
{
}

/// The encoding of a text with one more character is the encoding of the
/// text followed by that of the character.
pub proof fn lemma_encode_push(s: Seq<char>, c: char)
    ensures
        encode_utf8(s.push(c)) == encode_utf8(s) + encode_scalar(c as u32),
    decreases s.len(),
{
    let t = s.push(c);
    if s.len() == 0 {
        assert(t.drop_first() =~= Seq::<char>::empty());
        assert(encode_utf8(t.drop_first()) =~= Seq::<u8>::empty());
        assert(encode_utf8(s) =~= Seq::<u8>::empty());
        assert(encode_utf8(t) =~= encode_utf8(s) + encode_scalar(c as u32));
    } else {
        assert(t.drop_first() =~= s.drop_first().push(c));
        lemma_encode_push(s.drop_first(), c);
        assert(encode_utf8(t) =~= encode_utf8(s) + encode_scalar(c as u32));
    }
}

/// The next character begins where this one begins, plus this one's width.
pub proof fn lemma_byte_position_step(s: Seq<char>, k: int)
    requires
        0 <= k < s.len(),
    ensures
        byte_position(s, k + 1) == byte_position(s, k) + width(s[k]),
        1 <= width(s[k]) <= 4,
{
    assert(s.take(k + 1) =~= s.take(k).push(s[k]));
    lemma_encode_push(s.take(k), s[k]);
    lemma_width_bounds(s[k]);
}

/// Byte offsets begin at zero, end at the length of the text in bytes, and
/// grow by at least one with each character.
pub proof fn lemma_byte_position_grows(s: Seq<char>, i: int, j: int)
    requires
        0 <= i <= j <= s.len(),
    ensures
        byte_position(s, 0) == 0,
        byte_position(s, s.len() as int) == byte_len(s),
        j - i <= byte_position(s, j) - byte_position(s, i),
        byte_position(s, j) <= byte_len(s),
    decreases s.len() - i,
{
    assert(s.take(0) =~= Seq::<char>::empty());
    assert(s.take(s.len() as int) =~= s);
    if i < j {
        lemma_byte_position_step(s, i);
        lemma_byte_position_grows(s, i + 1, j);
    } else if j < s.len() {
        lemma_byte_position_step(s, j);
        lemma_byte_position_grows(s, j + 1, s.len() as int);
    }
}

/// The number of bytes that `c` takes in UTF-8.
pub fn char_width(c: char) -> (r: usize)
    ensures
        r == width(c),
{
    proof {
        char_is_scalar(c);
    }
    let v: u32 = c as u32;
    if v < 0x80 {
        1
    } else if v < 0x800 {
        2
    } else if v < 0x10000 {
        3
    } else {
        4
    }
}

/// The number of bytes that a string takes.
pub fn byte_length(s: &str) -> (r: usize)
    ensures
        r == byte_len(s@),
{
    let bytes = s.as_bytes();
    bytes.len()
}

/// The number of bytes that the characters `s[from..to]` take in UTF-8.
pub fn byte_span(s: &[char], from: usize, to: usize) -> (r: usize)
    requires
        from <= to <= s@.len(),
        byte_len(s@) <= usize::MAX,
    ensures
        r == byte_position(s@, to as int) - byte_position(s@, from as int),
{
    let mut r: usize = 0;
    let mut i: usize = from;
    while i < to
        invariant
            from <= i <= to <= s@.len(),
            byte_len(s@) <= usize::MAX,
            r == byte_position(s@, i as int) - byte_position(s@, from as int),
        decreases to - i,
    {
        proof {
            lemma_byte_position_step(s@, i as int);
            lemma_byte_position_grows(s@, from as int, i + 1);
        }
        r = r + char_width(s[i]);
        i = i + 1;
    }
    r
}

/// The column of the byte offset `at` in a text.
pub fn column(s: &[char], at: usize) -> (r: usize)
    ensures
        r == column_of(s@, at as int),
{
    let mut left: usize = at;
    let mut col: usize = 0;
    let mut i: usize = 0;
    assert(s@.skip(0) =~= s@);
    while left > 0 && i < s.len()
        invariant
            i <= s@.len(),
            col + left <= at,
            column_of(s@, at as int) == col + column_of(s@.skip(i as int), left as int),
        decreases s@.len() - i,
    {
        let w = char_width(s[i]);
        proof {
            lemma_width_bounds(s@[i as int]);
            assert(s@.skip(i as int).drop_first() =~= s@.skip(i + 1));
            assert(s@.skip(i as int)[0] == s@[i as int]);
            assert(column_of(s@.skip(i as int), left as int) == 1 + column_of(
                s@.skip(i + 1),
                left - w,
            ));
            assert(left < w ==> column_of(s@.skip(i + 1), left - w) == column_of(
                s@.skip(i + 1),
                0,
            ));
        }
        left = if left >= w {
            left - w
        } else {
            0
        };
        col = col + 1;
        i = i + 1;
    }
    col + left
}

/// The string made of the characters `chars[from..to]`.
pub fn string_of(chars: &[char], from: usize, to: usize) -> (s: String)
    requires
        from <= to <= chars@.len(),
    ensures
        s@ == chars@.subrange(from as int, to as int),
{
    let mut s = String::new();
    let mut i: usize = from;
    while i < to
        invariant
            from <= i <= to <= chars@.len(),
            s@ == chars@.subrange(from as int, i as int),
        decreases to - i,
    {
        push_char(&mut s, chars[i]);
        i = i + 1;
        assert(chars@.subrange(from as int, i as int) == chars@.subrange(from as int, i - 1).push(
            chars@[i - 1],
        ));
    }
    s
}

} // verus!
