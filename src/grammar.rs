//! The swizzle grammar and what it denotes:
//!
//! ```text
//! '[' name (',' name)* ']' arity ( '=>' callback | 'prefix' "P" 'suffix' "S" ) [ keyword "SEP" ]
//! ```
//!
//! where `arity` is `N`, `A..=B` or `A..B`, names are runs of `[A-Za-z0-9_!]`,
//! strings run to the next `"` with no escapes, and the separator keyword is
//! `separated by`, `separated`, `separator` or `sep`. Spaces may stand between
//! the tokens, but not just inside the brackets.
use crate::lexer::{
    arrow, digits_end, digits_value, has_at, is_space, name_end, prefix_word, quote_end,
    range_exclusive, range_inclusive, sep_word, separated_by_word, separated_word, separator_word,
    skip_space, suffix_word, CLOSE_BRACKET, COMMA, DIGIT_ZERO, LINE_FEED, OPEN_BRACKET, QUOTE,
};
use vstd::prelude::*;

verus! {

/// Why a swizzle description was refused.
#[derive(Debug, Clone, Copy, PartialEq, Eq, Structural)]
pub enum SwizzleError {
    /// The bracketed list of field names is malformed.
    InvalidArray,
    /// No length or length range follows the field list.
    InvalidLength,
    /// The largest requested length exceeds the number of fields.
    RangeBeyondArray,
    /// Neither `=> callback` nor `prefix "..." suffix "..."` follows.
    InvalidCallback,
}

impl SwizzleError {
    /// The diagnostic that reports this error.
    pub fn message(&self) -> &'static str {
        match self {
            SwizzleError::InvalidArray => "Failed to parse array",
            SwizzleError::InvalidLength => "Failed to parse len",
            SwizzleError::RangeBeyondArray => "range would go beyond the provided array",
            SwizzleError::InvalidCallback => "Failed to parse callback",
        }
    }
}

/// How each combination of fields is rendered.
#[derive(Debug, Clone, PartialEq, Eq)]
pub enum Mode {
    /// `name(` ... `);`
    Callback(Vec<u8>),
    /// The prefix, then the fields, then the suffix.
    Template(Vec<u8>, Vec<u8>),
}

/// The lengths `start..end` (end excluded) for which combinations are made.
#[derive(Debug, Clone, Copy, PartialEq, Eq, Structural)]
pub struct Arity {
    pub start: usize,
    pub end: usize,
}

/// A parsed swizzle description.
#[derive(Debug, Clone, PartialEq, Eq)]
pub struct Swizzle {
    pub pool: Vec<Vec<u8>>,
    pub arity: Arity,
    pub mode: Mode,
    pub separator: Vec<u8>,
}

/// The emission mode as byte sequences.
pub enum ModeModel {
    Callback(Seq<u8>),
    Template(Seq<u8>, Seq<u8>),
}

/// A description as byte sequences: the field names, the lengths
/// `start..end` (end excluded), the emission mode and the separator.
pub struct SwizzleModel {
    pub pool: Seq<Seq<u8>>,
    pub start: nat,
    pub end: nat,
    pub mode: ModeModel,
    pub separator: Seq<u8>,
}

/// The contents of each byte vector.
pub open spec fn bytes_views(v: Seq<Vec<u8>>) -> Seq<Seq<u8>> {
    v.map_values(|f: Vec<u8>| f@)
}

impl View for Mode {
    type V = ModeModel;

    open spec fn view(&self) -> ModeModel {
        match self {
            Mode::Callback(name) => ModeModel::Callback(name@),
            Mode::Template(prefix, suffix) => ModeModel::Template(prefix@, suffix@),
        }
    }
}

impl View for Swizzle {
    type V = SwizzleModel;

    open spec fn view(&self) -> SwizzleModel {
        SwizzleModel {
            pool: bytes_views(self.pool@),
            start: self.arity.start as nat,
            end: self.arity.end as nat,
            mode: self.mode@,
            separator: self.separator@,
        }
    }
}

impl SwizzleModel {
    /// No requested length exceeds the number of fields.
    pub open spec fn well_formed(self) -> bool {
        self.end <= self.pool.len() + 1
    }
}

impl Swizzle {
    /// No requested length exceeds the number of fields.
    pub open spec fn well_formed(&self) -> bool {
        self@.well_formed()
    }
}

proof fn lemma_skip_space_bounds(s: Seq<u8>, i: int)
    requires
        0 <= i <= s.len(),
    ensures
        i <= skip_space(s, i) <= s.len(),
    decreases s.len() - i,
{
    if i < s.len() && is_space(s[i]) {
        lemma_skip_space_bounds(s, i + 1);
    }
}

/// The fields after the first: each after a comma, with spaces allowed around
/// the comma. Yields them and the position after the last; a comma that no
/// name follows is left unread.
pub open spec fn list_rest(s: Seq<u8>, p: int) -> (Seq<Seq<u8>>, int)
    decreases s.len() - p,
    via list_rest_decreases
{
    let j = skip_space(s, p);
    if 0 <= p <= s.len() && j < s.len() && s[j] == COMMA {
        let t = skip_space(s, j + 1);
        let e = name_end(s, t);
        if t < e {
            let (rest, q) = list_rest(s, e);
            (seq![s.subrange(t, e)] + rest, q)
        } else {
            (Seq::empty(), p)
        }
    } else {
        (Seq::empty(), p)
    }
}

#[via_fn]
proof fn list_rest_decreases(s: Seq<u8>, p: int) {
    if 0 <= p <= s.len() {
        lemma_skip_space_bounds(s, p);
        let j = skip_space(s, p);
        if j < s.len() {
            lemma_skip_space_bounds(s, j + 1);
            lemma_name_end_bounds(s, skip_space(s, j + 1));
        }
    }
}

proof fn lemma_name_end_bounds(s: Seq<u8>, i: int)
    requires
        0 <= i <= s.len(),
    ensures
        i <= name_end(s, i) <= s.len(),
    decreases s.len() - i,
{
    if i < s.len() && crate::lexer::is_name_byte(s[i]) {
        lemma_name_end_bounds(s, i + 1);
    }
}

/// `[` names `]` at the start of `s`: the field names and the position after
/// the closing bracket.
pub open spec fn pool_at(s: Seq<u8>) -> Option<(Seq<Seq<u8>>, int)> {
    if s.len() > 0 && s[0] == OPEN_BRACKET {
        let e = name_end(s, 1);
        let (items, p) = if 1 < e {
            let (rest, q) = list_rest(s, e);
            (seq![s.subrange(1, e)] + rest, q)
        } else {
            (Seq::empty(), 1)
        };
        if p < s.len() && s[p] == CLOSE_BRACKET {
            Some((items, p + 1))
        } else {
            None
        }
    } else {
        None
    }
}

/// Where the unsigned decimal integer at `i` ends: after a lone `0`, or after
/// a run of digits that starts with another digit.
pub open spec fn uint_end(s: Seq<u8>, i: int) -> int {
    if 0 <= i < s.len() && s[i] == DIGIT_ZERO {
        i + 1
    } else {
        digits_end(s, i)
    }
}

/// An unsigned decimal integer at `i` that fits a `usize`, and the position
/// after it.
pub open spec fn uint_at(s: Seq<u8>, i: int) -> Option<(nat, int)> {
    let e = uint_end(s, i);
    if 0 <= i < e && digits_value(s.subrange(i, e)) <= usize::MAX {
        Some((digits_value(s.subrange(i, e)), e))
    } else {
        None
    }
}

/// The integer after the range operator `op` that may follow the first bound
/// (which ends at `e`), with spaces allowed around the operator.
pub open spec fn bound_after(s: Seq<u8>, e: int, op: Seq<u8>) -> Option<(nat, int)> {
    let j = skip_space(s, e);
    if has_at(s, j, op) {
        uint_at(s, skip_space(s, j + op.len()))
    } else {
        None
    }
}

/// The length specification after the field list, tried in order as
/// `A..=B`, `A..B` and `N`: the smallest length, the largest (which is
/// `B - 1`, possibly `-1`, for `A..B`), and the position after it.
pub open spec fn arity_at(s: Seq<u8>, p: int) -> Option<(nat, int, int)> {
    match uint_at(s, skip_space(s, p)) {
        None => None,
        Some((a, e)) => match bound_after(s, e, range_inclusive()) {
            Some((b, q)) => Some((a, b as int, q)),
            None => match bound_after(s, e, range_exclusive()) {
                Some((b, q)) => Some((a, b - 1, q)),
                None => Some((a, a as int, e)),
            },
        },
    }
}

/// A `"`-delimited string after optional spaces: its body and the position
/// after the spaces that follow the closing quote.
pub open spec fn quoted_at(s: Seq<u8>, i: int) -> Option<(Seq<u8>, int)> {
    let j = skip_space(s, i);
    if 0 <= j < s.len() && s[j] == QUOTE {
        let e = quote_end(s, j + 1);
        if e < s.len() {
            Some((s.subrange(j + 1, e), skip_space(s, e + 1)))
        } else {
            None
        }
    } else {
        None
    }
}

/// The keyword `word` after optional spaces, then a string.
pub open spec fn keyword_string_at(s: Seq<u8>, i: int, word: Seq<u8>) -> Option<(Seq<u8>, int)> {
    let j = skip_space(s, i);
    if has_at(s, j, word) {
        quoted_at(s, j + word.len())
    } else {
        None
    }
}

/// `=> name`: the callback's name (possibly empty) and the position after it.
pub open spec fn callback_at(s: Seq<u8>, q: int) -> Option<(Seq<u8>, int)> {
    let i = skip_space(s, q);
    if has_at(s, i, arrow()) {
        let j = skip_space(s, i + 2);
        Some((s.subrange(j, name_end(s, j)), name_end(s, j)))
    } else {
        None
    }
}

/// The emission mode at `q`: a callback, else a prefix and suffix pair.
pub open spec fn mode_at(s: Seq<u8>, q: int) -> Option<(ModeModel, int)> {
    match callback_at(s, q) {
        Some((name, e)) => Some((ModeModel::Callback(name), e)),
        None => match keyword_string_at(s, q, prefix_word()) {
            Some((prefix, e)) => match keyword_string_at(s, e, suffix_word()) {
                Some((suffix, f)) => Some((ModeModel::Template(prefix, suffix), f)),
                None => None,
            },
            None => None,
        },
    }
}

/// The separator keyword at `j`, the first of the four that stands there.
pub open spec fn separator_keyword_len(s: Seq<u8>, j: int) -> int {
    if has_at(s, j, separated_by_word()) {
        separated_by_word().len() as int
    } else if has_at(s, j, separated_word()) {
        separated_word().len() as int
    } else if has_at(s, j, separator_word()) {
        separator_word().len() as int
    } else if has_at(s, j, sep_word()) {
        sep_word().len() as int
    } else {
        0
    }
}

/// The separator clause at `r`, or a single line feed where there is none.
pub open spec fn separator_at(s: Seq<u8>, r: int) -> Seq<u8> {
    let j = skip_space(s, r);
    let n = separator_keyword_len(s, j);
    if n > 0 {
        match quoted_at(s, j + n) {
            Some((sep, _)) => sep,
            None => seq![LINE_FEED],
        }
    } else {
        seq![LINE_FEED]
    }
}

/// The field list and the length range, as the field names, the smallest
/// length, the end of the length range (excluded), and where the rest begins.
pub open spec fn pool_and_arity(s: Seq<u8>) -> Result<(Seq<Seq<u8>>, nat, nat, int), SwizzleError> {
    match pool_at(s) {
        None => Err(SwizzleError::InvalidArray),
        Some((pool, p)) => match arity_at(s, p) {
            None => Err(SwizzleError::InvalidLength),
            Some((start, hi, q)) => if hi > pool.len() {
                Err(SwizzleError::RangeBeyondArray)
            } else {
                Ok((pool, start, (hi + 1) as nat, q))
            },
        },
    }
}

/// The emission mode and the separator from position `q` on.
pub open spec fn mode_and_separator(s: Seq<u8>, q: int) -> Result<(ModeModel, Seq<u8>), SwizzleError> {
    match mode_at(s, q) {
        None => Err(SwizzleError::InvalidCallback),
        Some((mode, r)) => Ok((mode, separator_at(s, r))),
    }
}

/// What a whole description denotes.
pub open spec fn parsed(s: Seq<u8>) -> Result<SwizzleModel, SwizzleError> {
    match pool_and_arity(s) {
        Err(e) => Err(e),
        Ok((pool, start, end, q)) => match mode_and_separator(s, q) {
            Err(e) => Err(e),
            Ok((mode, separator)) => Ok(SwizzleModel { pool, start, end, mode, separator }),
        },
    }
}

} // verus!
