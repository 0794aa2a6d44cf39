//! The executable parser, proved to compute what `grammar` describes.
use crate::bytes::copy_range;
use crate::grammar::{
    arity_at, bound_after, bytes_views, callback_at, keyword_string_at, list_rest,
    mode_and_separator, mode_at, parsed, pool_and_arity, pool_at, quoted_at, separator_at,
    separator_keyword_len, uint_at, uint_end, Arity, Mode, Swizzle, SwizzleError,
};
use crate::lexer::{
    arrow_bytes, digits_end, digits_value, is_digit, matches_at, prefix_word_bytes,
    range_exclusive, range_exclusive_bytes, range_inclusive, range_inclusive_bytes, scan_digits,
    scan_name, scan_quote, scan_space, sep_word_bytes, separated_by_word_bytes,
    separated_word_bytes, separator_word_bytes, suffix_word_bytes, CLOSE_BRACKET, COMMA,
    DIGIT_ZERO, LINE_FEED, OPEN_BRACKET, QUOTE,
};
use vstd::prelude::*;

verus! {

proof fn lemma_digits_in_run(s: Seq<u8>, i: int, k: int)
    requires
        0 <= i <= k < digits_end(s, i),
    ensures
        is_digit(s[k]),
    decreases k - i,
{
    if i < k {
        lemma_digits_in_run(s, i + 1, k);
    }
}

proof fn lemma_digits_value_grows(d: Seq<u8>, m: int)
    requires
        0 <= m <= d.len(),
    ensures
        digits_value(d.subrange(0, m)) <= digits_value(d),
    decreases d.len(),
{
    if m == d.len() {
        assert(d.subrange(0, m) =~= d);
    } else {
        lemma_digits_value_grows(d.drop_last(), m);
        assert(d.drop_last().subrange(0, m) =~= d.subrange(0, m));
    }
}

/// An unsigned decimal integer at `i` that fits a `usize`.
fn parse_uint(s: &[u8], i: usize) -> (r: Option<(usize, usize)>)
    requires
        i <= s@.len(),
    ensures
        match uint_at(s@, i as int) {
            Some((v, e)) => match r {
                Some((x, y)) => x == v && y == e,
                None => false,
            },
            None => r is None,
        },
        match r {
            Some((_, e)) => i < e <= s@.len(),
            None => true,
        },
{
    let e = if i < s.len() && s[i] == DIGIT_ZERO {
        i + 1
    } else {
        scan_digits(s, i)
    };
    if e == i {
        return None;
    }
    proof {
        assert forall|k: int| i <= k < e implies is_digit(s@[k]) by {
            if !(s@[i as int] == DIGIT_ZERO) {
                lemma_digits_in_run(s@, i as int, k);
            }
        }
    }
    let mut v: usize = 0;
    let mut j: usize = i;
    assert(s@.subrange(i as int, i as int) =~= Seq::<u8>::empty());
    while j < e
        invariant
            i <= j <= e <= s@.len(),
            e == uint_end(s@, i as int),
            forall|k: int| i <= k < e ==> is_digit(s@[k]),
            v == digits_value(s@.subrange(i as int, j as int)),
        decreases e - j,
    {
        let d = (s[j] - DIGIT_ZERO) as usize;
        let ghost next = s@.subrange(i as int, j + 1);
        assert(next.drop_last() =~= s@.subrange(i as int, j as int));
        assert(digits_value(next) == v * 10 + d);
        if v > (usize::MAX - d) / 10 {
            proof {
                assert(v * 10 + d > usize::MAX) by (nonlinear_arith)
                    requires
                        v > (usize::MAX - d) / 10,
                        d <= 9,
                ;
                lemma_digits_value_grows(s@.subrange(i as int, e as int), j + 1 - i);
                assert(s@.subrange(i as int, e as int).subrange(0, j + 1 - i) =~= next);
            }
            return None;
        }
        assert(v * 10 + d <= usize::MAX) by (nonlinear_arith)
            requires
                v <= (usize::MAX - d) / 10,
                d <= 9,
        ;
        v = v * 10 + d;
        j += 1;
    }
    Some((v, e))
}

/// `[` names `]` at the start of `s`.
fn parse_pool(s: &[u8]) -> (r: Option<(Vec<Vec<u8>>, usize)>)
    ensures
        match pool_at(s@) {
            Some((items, p)) => match r {
                Some((v, q)) => bytes_views(v@) == items && q == p && v@.len() < q,
                None => false,
            },
            None => r is None,
        },
{
    if s.len() == 0 || s[0] != OPEN_BRACKET {
        return None;
    }
    let mut items: Vec<Vec<u8>> = Vec::new();
    let first = scan_name(s, 1);
    let mut p: usize = 1;
    if 1 < first {
        items.push(copy_range(s, 1, first));
        p = first;
        let ghost head = seq![s@.subrange(1, first as int)];
        let ghost goal = list_rest(s@, first as int);
        assert(bytes_views(items@) =~= head);
        assert(list_rest(s@, p as int).0 =~= goal.0);
        loop
            invariant
                1 <= p <= s@.len(),
                items@.len() < p,
                bytes_views(items@) + list_rest(s@, p as int).0 == head + goal.0,
                list_rest(s@, p as int).1 == goal.1,
            ensures
                list_rest(s@, p as int).0 == Seq::<Seq<u8>>::empty(),
            decreases s@.len() - p,
        {
            let j = scan_space(s, p);
            if j < s.len() && s[j] == COMMA {
                let t = scan_space(s, j + 1);
                let e = scan_name(s, t);
                if t < e {
                    let ghost before = bytes_views(items@);
                    let ghost tok = s@.subrange(t as int, e as int);
                    items.push(copy_range(s, t, e));
                    assert(bytes_views(items@) =~= before.push(tok));
                    assert(list_rest(s@, p as int).0 == seq![tok] + list_rest(s@, e as int).0);
                    p = e;
                    assert(bytes_views(items@) + list_rest(s@, p as int).0 =~= before + (seq![tok]
                        + list_rest(s@, p as int).0));
                    continue ;
                }
            }
            assert(list_rest(s@, p as int).0 =~= Seq::<Seq<u8>>::empty());
            break;
        }
        assert(bytes_views(items@) =~= head + goal.0);
    } else {
        assert(bytes_views(items@) =~= Seq::<Seq<u8>>::empty());
    }
    if p < s.len() && s[p] == CLOSE_BRACKET {
        Some((items, p + 1))
    } else {
        None
    }
}

/// The bound after a range operator.
fn parse_bound_after(s: &[u8], e: usize, op: &[u8]) -> (r: Option<(usize, usize)>)
    requires
        e <= s@.len(),
    ensures
        match bound_after(s@, e as int, op@) {
            Some((v, q)) => match r {
                Some((x, y)) => x == v && y == q,
                None => false,
            },
            None => r is None,
        },
        match r {
            Some((_, q)) => q <= s@.len(),
            None => true,
        },
{
    let n = s.len();
    let j = scan_space(s, e);
    if matches_at(s, j, op) {
        assert(j + op@.len() <= n);
        let k = scan_space(s, j + op.len());
        parse_uint(s, k)
    } else {
        None
    }
}

/// The length specification: the smallest length, the bound as written,
/// whether that bound is included, and the position after it.
fn parse_arity(s: &[u8], p: usize) -> (r: Option<(usize, usize, bool, usize)>)
    requires
        p <= s@.len(),
    ensures
        match arity_at(s@, p as int) {
            Some((a, hi, q)) => match r {
                Some((start, bound, inclusive, rest)) => start == a && rest == q && (if inclusive {
                    hi == bound
                } else {
                    hi == bound - 1
                }),
                None => false,
            },
            None => r is None,
        },
        match r {
            Some((_, _, _, q)) => q <= s@.len(),
            None => true,
        },
{
    let i = scan_space(s, p);
    match parse_uint(s, i) {
        None => None,
        Some((a, e)) => {
            let inclusive = range_inclusive_bytes();
            assert(inclusive@ == range_inclusive());
            match parse_bound_after(s, e, inclusive.as_slice()) {
                Some((b, q)) => Some((a, b, true, q)),
                None => {
                    let exclusive = range_exclusive_bytes();
                    assert(exclusive@ == range_exclusive());
                    match parse_bound_after(s, e, exclusive.as_slice()) {
                        Some((b, q)) => Some((a, b, false, q)),
                        None => Some((a, a, true, e)),
                    }
                },
            }
        },
    }
}

/// Reads the field list and the length range at the start of `s`: the field
/// names, the lengths to generate, and the position where the rest of the
/// description begins. The largest length may not exceed the number of
/// fields.
pub fn parse_pool_and_arity(s: &[u8]) -> (r: Result<(Vec<Vec<u8>>, Arity, usize), SwizzleError>)
    ensures
        match pool_and_arity(s@) {
            Ok((pool, start, end, q)) => match r {
                Ok((v, arity, rest)) => bytes_views(v@) == pool && arity.start == start
                    && arity.end == end && rest == q && rest <= s@.len(),
                Err(_) => false,
            },
            Err(e) => r == Err::<(Vec<Vec<u8>>, Arity, usize), SwizzleError>(e),
        },
{
    let (pool, p) = match parse_pool(s) {
        None => return Err(SwizzleError::InvalidArray),
        Some(found) => found,
    };
    let (start, bound, inclusive, q) = match parse_arity(s, p) {
        None => return Err(SwizzleError::InvalidLength),
        Some(found) => found,
    };
    assert(bytes_views(pool@).len() == pool@.len());
    let end = if inclusive {
        if bound > pool.len() {
            return Err(SwizzleError::RangeBeyondArray);
        }
        bound + 1
    } else {
        if bound > 0 && bound - 1 > pool.len() {
            return Err(SwizzleError::RangeBeyondArray);
        }
        bound
    };
    Ok((pool, Arity { start, end }, q))
}

/// A `"`-delimited string after optional spaces.
fn parse_quoted(s: &[u8], i: usize) -> (r: Option<(Vec<u8>, usize)>)
    requires
        i <= s@.len(),
    ensures
        match quoted_at(s@, i as int) {
            Some((body, q)) => match r {
                Some((v, y)) => v@ == body && y == q,
                None => false,
            },
            None => r is None,
        },
        match r {
            Some((_, y)) => y <= s@.len(),
            None => true,
        },
{
    let j = scan_space(s, i);
    if j < s.len() && s[j] == QUOTE {
        let e = scan_quote(s, j + 1);
        if e < s.len() {
            let body = copy_range(s, j + 1, e);
            let q = scan_space(s, e + 1);
            Some((body, q))
        } else {
            None
        }
    } else {
        None
    }
}

/// The keyword `word` after optional spaces, then a string.
fn parse_keyword_string(s: &[u8], i: usize, word: &[u8]) -> (r: Option<(Vec<u8>, usize)>)
    requires
        i <= s@.len(),
    ensures
        match keyword_string_at(s@, i as int, word@) {
            Some((body, q)) => match r {
                Some((v, y)) => v@ == body && y == q,
                None => false,
            },
            None => r is None,
        },
        match r {
            Some((_, y)) => y <= s@.len(),
            None => true,
        },
{
    let n = s.len();
    let j = scan_space(s, i);
    if matches_at(s, j, word) {
        assert(j + word@.len() <= n);
        parse_quoted(s, j + word.len())
    } else {
        None
    }
}

/// `=> name`.
fn parse_callback(s: &[u8], q: usize) -> (r: Option<(Vec<u8>, usize)>)
    requires
        q <= s@.len(),
    ensures
        match callback_at(s@, q as int) {
            Some((name, e)) => match r {
                Some((v, y)) => v@ == name && y == e,
                None => false,
            },
            None => r is None,
        },
        match r {
            Some((_, y)) => y <= s@.len(),
            None => true,
        },
{
    let len = s.len();
    let i = scan_space(s, q);
    let word = arrow_bytes();
    if matches_at(s, i, word.as_slice()) {
        assert(i + 2 <= len);
        let j = scan_space(s, i + 2);
        let e = scan_name(s, j);
        Some((copy_range(s, j, e), e))
    } else {
        None
    }
}

/// The emission mode: a callback, else a prefix and suffix pair.
fn parse_mode(s: &[u8], q: usize) -> (r: Option<(Mode, usize)>)
    requires
        q <= s@.len(),
    ensures
        match mode_at(s@, q as int) {
            Some((mode, e)) => match r {
                Some((m, y)) => m@ == mode && y == e,
                None => false,
            },
            None => r is None,
        },
        match r {
            Some((_, y)) => y <= s@.len(),
            None => true,
        },
{
    if let Some((name, e)) = parse_callback(s, q) {
        return Some((Mode::Callback(name), e));
    }
    let prefix_word = prefix_word_bytes();
    let (prefix, e) = match parse_keyword_string(s, q, prefix_word.as_slice()) {
        None => return None,
        Some(found) => found,
    };
    let suffix_word = suffix_word_bytes();
    match parse_keyword_string(s, e, suffix_word.as_slice()) {
        None => None,
        Some((suffix, f)) => Some((Mode::Template(prefix, suffix), f)),
    }
}

/// Length of the separator keyword at `j`, or zero where none stands there.
fn separator_keyword(s: &[u8], j: usize) -> (n: usize)
    requires
        j <= s@.len(),
    ensures
        n == separator_keyword_len(s@, j as int),
        n > 0 ==> j + n <= s@.len(),
{
    let by = separated_by_word_bytes();
    let separated = separated_word_bytes();
    let separator = separator_word_bytes();
    let sep = sep_word_bytes();
    if matches_at(s, j, by.as_slice()) {
        by.len()
    } else if matches_at(s, j, separated.as_slice()) {
        separated.len()
    } else if matches_at(s, j, separator.as_slice()) {
        separator.len()
    } else if matches_at(s, j, sep.as_slice()) {
        sep.len()
    } else {
        0
    }
}

/// The separator clause at `r`, or a line feed where there is none.
fn parse_separator(s: &[u8], r: usize) -> (sep: Vec<u8>)
    requires
        r <= s@.len(),
    ensures
        sep@ == separator_at(s@, r as int),
{
    let len = s.len();
    let j = scan_space(s, r);
    let n = separator_keyword(s, j);
    if n > 0 {
        assert(j + n <= len);
        if let Some((body, _)) = parse_quoted(s, j + n) {
            return body;
        }
    }
    let sep: Vec<u8> = vec![LINE_FEED];
    assert(sep@ =~= seq![LINE_FEED]);
    sep
}

/// Reads the emission mode and the separator from position `from` of `s`:
/// `=> name`, or `prefix "P" suffix "S"`, then optionally a separator keyword
/// and a string. Where no separator clause can be read, the separator is a
/// single line feed.
pub fn parse_mode_and_separator(s: &[u8], from: usize) -> (r: Result<(Mode, Vec<u8>), SwizzleError>)
    requires
        from <= s@.len(),
    ensures
        match mode_and_separator(s@, from as int) {
            Ok((mode, separator)) => match r {
                Ok((m, sep)) => m@ == mode && sep@ == separator,
                Err(_) => false,
            },
            Err(e) => r == Err::<(Mode, Vec<u8>), SwizzleError>(e),
        },
{
    match parse_mode(s, from) {
        None => Err(SwizzleError::InvalidCallback),
        Some((mode, rest)) => Ok((mode, parse_separator(s, rest))),
    }
}

/// Parses a whole swizzle description (with its comments already removed).
pub fn parse_swizzle(s: &[u8]) -> (r: Result<Swizzle, SwizzleError>)
    ensures
        match parsed(s@) {
            Ok(model) => match r {
                Ok(sw) => sw@ == model && sw.well_formed(),
                Err(_) => false,
            },
            Err(e) => r == Err::<Swizzle, SwizzleError>(e),
        },
{
    let (pool, arity, rest) = match parse_pool_and_arity(s) {
        Err(e) => return Err(e),
        Ok(found) => found,
    };
    let (mode, separator) = match parse_mode_and_separator(s, rest) {
        Err(e) => return Err(e),
        Ok(found) => found,
    };
    Ok(Swizzle { pool, arity, mode, separator })
}

} // verus!
