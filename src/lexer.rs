//! Byte classes and scanning primitives of the swizzle grammar.
use vstd::prelude::*;

verus! {

pub const TAB: u8 = 9;
pub const LINE_FEED: u8 = 10;
pub const CARRIAGE_RETURN: u8 = 13;
pub const SPACE: u8 = 32;
pub const BANG: u8 = 33;
pub const QUOTE: u8 = 34;
pub const OPEN_PAREN: u8 = 40;
pub const CLOSE_PAREN: u8 = 41;
pub const COMMA: u8 = 44;
pub const SLASH: u8 = 47;
pub const DIGIT_ZERO: u8 = 48;
pub const DIGIT_NINE: u8 = 57;
pub const SEMICOLON: u8 = 59;
pub const UPPER_A: u8 = 65;
pub const UPPER_Z: u8 = 90;
pub const OPEN_BRACKET: u8 = 91;
pub const CLOSE_BRACKET: u8 = 93;
pub const UNDERSCORE: u8 = 95;
pub const LOWER_A: u8 = 97;
pub const LOWER_Z: u8 = 122;

/// `=>`
pub open spec fn arrow() -> Seq<u8> {
    seq![61u8, 62u8]
}

pub fn arrow_bytes() -> (r: Vec<u8>)
    ensures
        r@ == arrow(),
{
    let r: Vec<u8> = vec![61, 62];
    assert(r@ =~= arrow());
    r
}

/// `..=`
pub open spec fn range_inclusive() -> Seq<u8> {
    seq![46u8, 46u8, 61u8]
}

pub fn range_inclusive_bytes() -> (r: Vec<u8>)
    ensures
        r@ == range_inclusive(),
{
    let r: Vec<u8> = vec![46, 46, 61];
    assert(r@ =~= range_inclusive());
    r
}

/// `..`
pub open spec fn range_exclusive() -> Seq<u8> {
    seq![46u8, 46u8]
}

pub fn range_exclusive_bytes() -> (r: Vec<u8>)
    ensures
        r@ == range_exclusive(),
{
    let r: Vec<u8> = vec![46, 46];
    assert(r@ =~= range_exclusive());
    r
}

/// `prefix`
pub open spec fn prefix_word() -> Seq<u8> {
    seq![112u8, 114u8, 101u8, 102u8, 105u8, 120u8]
}

pub fn prefix_word_bytes() -> (r: Vec<u8>)
    ensures
        r@ == prefix_word(),
{
    let r: Vec<u8> = vec![112, 114, 101, 102, 105, 120];
    assert(r@ =~= prefix_word());
    r
}

/// `suffix`
pub open spec fn suffix_word() -> Seq<u8> {
    seq![115u8, 117u8, 102u8, 102u8, 105u8, 120u8]
}

pub fn suffix_word_bytes() -> (r: Vec<u8>)
    ensures
        r@ == suffix_word(),
{
    let r: Vec<u8> = vec![115, 117, 102, 102, 105, 120];
    assert(r@ =~= suffix_word());
    r
}

/// `separated by`
pub open spec fn separated_by_word() -> Seq<u8> {
    seq![115u8, 101u8, 112u8, 97u8, 114u8, 97u8, 116u8, 101u8, 100u8, 32u8, 98u8, 121u8]
}

pub fn separated_by_word_bytes() -> (r: Vec<u8>)
    ensures
        r@ == separated_by_word(),
{
    let r: Vec<u8> = vec![115, 101, 112, 97, 114, 97, 116, 101, 100, 32, 98, 121];
    assert(r@ =~= separated_by_word());
    r
}

/// `separated`
pub open spec fn separated_word() -> Seq<u8> {
    seq![115u8, 101u8, 112u8, 97u8, 114u8, 97u8, 116u8, 101u8, 100u8]
}

pub fn separated_word_bytes() -> (r: Vec<u8>)
    ensures
        r@ == separated_word(),
{
    let r: Vec<u8> = vec![115, 101, 112, 97, 114, 97, 116, 101, 100];
    assert(r@ =~= separated_word());
    r
}

/// `separator`
pub open spec fn separator_word() -> Seq<u8> {
    seq![115u8, 101u8, 112u8, 97u8, 114u8, 97u8, 116u8, 111u8, 114u8]
}

pub fn separator_word_bytes() -> (r: Vec<u8>)
    ensures
        r@ == separator_word(),
{
    let r: Vec<u8> = vec![115, 101, 112, 97, 114, 97, 116, 111, 114];
    assert(r@ =~= separator_word());
    r
}

/// `sep`
pub open spec fn sep_word() -> Seq<u8> {
    seq![115u8, 101u8, 112u8]
}

pub fn sep_word_bytes() -> (r: Vec<u8>)
    ensures
        r@ == sep_word(),
{
    let r: Vec<u8> = vec![115, 101, 112];
    assert(r@ =~= sep_word());
    r
}

/// Space, tab, line feed or carriage return.
pub open spec fn is_space(b: u8) -> bool {
    b == SPACE || b == TAB || b == LINE_FEED || b == CARRIAGE_RETURN
}

/// A byte that may appear in a field or callback name: `[A-Za-z0-9_!]`.
pub open spec fn is_name_byte(b: u8) -> bool {
    b == BANG || b == UNDERSCORE || (LOWER_A <= b <= LOWER_Z) || (UPPER_A <= b <= UPPER_Z) || (DIGIT_ZERO <= b <= DIGIT_NINE)
}

pub open spec fn is_digit(b: u8) -> bool {
    DIGIT_ZERO <= b <= DIGIT_NINE
}

/// First position at or after `i` whose byte is not a space, or the end.
pub open spec fn skip_space(s: Seq<u8>, i: int) -> int
    decreases s.len() - i,
{
    if 0 <= i < s.len() && is_space(s[i]) {
        skip_space(s, i + 1)
    } else {
        i
    }
}

/// End of the run of name bytes that starts at `i`.
pub open spec fn name_end(s: Seq<u8>, i: int) -> int
    decreases s.len() - i,
{
    if 0 <= i < s.len() && is_name_byte(s[i]) {
        name_end(s, i + 1)
    } else {
        i
    }
}

/// End of the run of decimal digits that starts at `i`.
pub open spec fn digits_end(s: Seq<u8>, i: int) -> int
    decreases s.len() - i,
{
    if 0 <= i < s.len() && is_digit(s[i]) {
        digits_end(s, i + 1)
    } else {
        i
    }
}

/// First double quote at or after `i`, or the end.
pub open spec fn quote_end(s: Seq<u8>, i: int) -> int
    decreases s.len() - i,
{
    if 0 <= i < s.len() && s[i] != QUOTE {
        quote_end(s, i + 1)
    } else {
        i
    }
}

/// Whether `lit` stands in `s` at position `i`.
pub open spec fn has_at(s: Seq<u8>, i: int, lit: Seq<u8>) -> bool {
    0 <= i && i + lit.len() <= s.len() && s.subrange(i, i + lit.len()) == lit
}

/// The value of a run of decimal digits.
pub open spec fn digits_value(d: Seq<u8>) -> nat
    decreases d.len(),
{
    if d.len() == 0 {
        0
    } else {
        digits_value(d.drop_last()) * 10 + (d.last() - DIGIT_ZERO) as nat
    }
}

pub fn is_space_byte(b: u8) -> (r: bool)
    ensures
        r == is_space(b),
{
    b == SPACE || b == TAB || b == LINE_FEED || b == CARRIAGE_RETURN
}

pub fn is_name_char(b: u8) -> (r: bool)
    ensures
        r == is_name_byte(b),
{
    b == BANG || b == UNDERSCORE || (LOWER_A <= b && b <= LOWER_Z) || (UPPER_A <= b && b <= UPPER_Z) || (DIGIT_ZERO <= b
        && b <= DIGIT_NINE)
}

pub fn scan_space(s: &[u8], i: usize) -> (r: usize)
    requires
        i <= s@.len(),
    ensures
        r == skip_space(s@, i as int),
        i <= r <= s@.len(),
{
    let mut j = i;
    while j < s.len() && is_space_byte(s[j])
        invariant
            i <= j <= s@.len(),
            skip_space(s@, j as int) == skip_space(s@, i as int),
        decreases s@.len() - j,
    {
        j += 1;
    }
    j
}

pub fn scan_name(s: &[u8], i: usize) -> (r: usize)
    requires
        i <= s@.len(),
    ensures
        r == name_end(s@, i as int),
        i <= r <= s@.len(),
{
    let mut j = i;
    while j < s.len() && is_name_char(s[j])
        invariant
            i <= j <= s@.len(),
            name_end(s@, j as int) == name_end(s@, i as int),
        decreases s@.len() - j,
    {
        j += 1;
    }
    j
}

pub fn scan_digits(s: &[u8], i: usize) -> (r: usize)
    requires
        i <= s@.len(),
    ensures
        r == digits_end(s@, i as int),
        i <= r <= s@.len(),
{
    let mut j = i;
    while j < s.len() && DIGIT_ZERO <= s[j] && s[j] <= DIGIT_NINE
        invariant
            i <= j <= s@.len(),
            digits_end(s@, j as int) == digits_end(s@, i as int),
        decreases s@.len() - j,
    {
        j += 1;
    }
    j
}

pub fn scan_quote(s: &[u8], i: usize) -> (r: usize)
    requires
        i <= s@.len(),
    ensures
        r == quote_end(s@, i as int),
        i <= r <= s@.len(),
{
    let mut j = i;
    while j < s.len() && s[j] != QUOTE
        invariant
            i <= j <= s@.len(),
            quote_end(s@, j as int) == quote_end(s@, i as int),
        decreases s@.len() - j,
    {
        j += 1;
    }
    j
}

/// Whether `lit` stands in `s` at position `i`.
pub fn matches_at(s: &[u8], i: usize, lit: &[u8]) -> (r: bool)
    requires
        i <= s@.len(),
    ensures
        r == has_at(s@, i as int, lit@),
{
    let n = s.len();
    if n - i < lit.len() {
        return false;
    }
    let mut k: usize = 0;
    while k < lit.len()
        invariant
            n == s@.len(),
            i + lit@.len() <= s@.len(),
            k <= lit@.len(),
            forall|m: int| 0 <= m < k ==> s@[i + m] == lit@[m],
        decreases lit@.len() - k,
    {
        if s[i + k] != lit[k] {
            assert(s@.subrange(i as int, i + lit@.len())[k as int] != lit@[k as int]);
            return false;
        }
        k += 1;
    }
    assert(s@.subrange(i as int, i + lit@.len()) =~= lit@);
    true
}

} // verus!
