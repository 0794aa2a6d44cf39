//! Removal of line comments: on every line, whatever follows the first `//`
//! goes, and each line is closed with a single `\n`.
use crate::bytes::push_range;
use crate::lexer::{CARRIAGE_RETURN, LINE_FEED, SLASH};
use vstd::prelude::*;

verus! {

/// Position of the first `\n` at or after `i`, or the end of `s`.
pub open spec fn line_end(s: Seq<u8>, i: int) -> int
    decreases s.len() - i,
{
    if i < 0 || i >= s.len() {
        s.len() as int
    } else if s[i] == LINE_FEED {
        i
    } else {
        line_end(s, i + 1)
    }
}

/// Where the text of the line from `i` to the line feed at `e` stops: a
/// carriage return just before that line feed is not part of it.
pub open spec fn line_stop(s: Seq<u8>, i: int, e: int) -> int {
    if i < e < s.len() && s[e - 1] == CARRIAGE_RETURN {
        e - 1
    } else {
        e
    }
}

/// Position of the first `//` that lies wholly in `[i, stop)`, or `stop`.
pub open spec fn comment_start(s: Seq<u8>, i: int, stop: int) -> int
    decreases stop - i,
{
    if i < 0 || i + 1 >= stop {
        stop
    } else if s[i] == SLASH && s[i + 1] == SLASH {
        i
    } else {
        comment_start(s, i + 1, stop)
    }
}

/// The lines of `s` from position `i` on, each cut at its first `//` and
/// closed with `\n`.
pub open spec fn strip_from(s: Seq<u8>, i: int) -> Seq<u8>
    decreases s.len() - i,
    via strip_from_decreases
{
    if i < 0 || i >= s.len() {
        Seq::empty()
    } else {
        let e = line_end(s, i);
        let stop = line_stop(s, i, e);
        let line = s.subrange(i, comment_start(s, i, stop)) + seq![LINE_FEED];
        if e < s.len() {
            line + strip_from(s, e + 1)
        } else {
            line
        }
    }
}

/// `s` with its line comments removed.
pub open spec fn stripped(s: Seq<u8>) -> Seq<u8> {
    strip_from(s, 0)
}

proof fn lemma_line_end_bounds(s: Seq<u8>, i: int)
    requires
        0 <= i <= s.len(),
    ensures
        i <= line_end(s, i) <= s.len(),
        line_end(s, i) < s.len() ==> s[line_end(s, i)] == LINE_FEED,
    decreases s.len() - i,
{
    if i < s.len() && s[i] != LINE_FEED {
        lemma_line_end_bounds(s, i + 1);
    }
}

proof fn lemma_comment_start_bounds(s: Seq<u8>, i: int, stop: int)
    requires
        0 <= i <= stop,
    ensures
        i <= comment_start(s, i, stop) <= stop,
    decreases stop - i,
{
    if i + 1 < stop && !(s[i] == SLASH && s[i + 1] == SLASH) {
        lemma_comment_start_bounds(s, i + 1, stop);
    }
}

#[via_fn]
proof fn strip_from_decreases(s: Seq<u8>, i: int) {
    if 0 <= i < s.len() {
        lemma_line_end_bounds(s, i);
    }
}

fn find_line_end(s: &[u8], i: usize) -> (e: usize)
    requires
        i <= s@.len(),
    ensures
        e == line_end(s@, i as int),
{
    let mut j: usize = i;
    while j < s.len() && s[j] != LINE_FEED
        invariant
            i <= j <= s@.len(),
            line_end(s@, j as int) == line_end(s@, i as int),
        decreases s@.len() - j,
    {
        j += 1;
    }
    j
}

fn find_comment_start(s: &[u8], i: usize, stop: usize) -> (c: usize)
    requires
        i <= stop <= s@.len(),
    ensures
        c == comment_start(s@, i as int, stop as int),
{
    let mut j: usize = i;
    while stop - j > 1 && !(s[j] == SLASH && s[j + 1] == SLASH)
        invariant
            i <= j <= stop <= s@.len(),
            comment_start(s@, j as int, stop as int) == comment_start(s@, i as int, stop as int),
        decreases stop - j,
    {
        j += 1;
    }
    if stop - j > 1 {
        j
    } else {
        stop
    }
}

/// Removes every line comment from `input`: on each line, the text from the
/// first `//` to the end of the line goes; lines end in `\n` (a `\r\n` ending
/// becomes `\n`, and a last line without an ending gets one).
pub fn strip_comments(input: &[u8]) -> (r: Vec<u8>)
    ensures
        r@ == stripped(input@),
{
    let mut out: Vec<u8> = Vec::new();
    let mut i: usize = 0;
    while i < input.len()
        invariant
            i <= input@.len(),
            out@ + strip_from(input@, i as int) == stripped(input@),
        decreases input@.len() - i,
    {
        let ghost before = out@;
        let e = find_line_end(input, i);
        proof {
            lemma_line_end_bounds(input@, i as int);
        }
        let stop = if i < e && e < input.len() && input[e - 1] == CARRIAGE_RETURN {
            e - 1
        } else {
            e
        };
        let c = find_comment_start(input, i, stop);
        proof {
            lemma_comment_start_bounds(input@, i as int, stop as int);
        }
        push_range(&mut out, input, i, c);
        out.push(LINE_FEED);
        let ghost piece = input@.subrange(i as int, c as int) + seq![LINE_FEED];
        assert(out@ =~= before + piece);
        if e < input.len() {
            assert(strip_from(input@, i as int) == piece + strip_from(input@, e + 1));
            i = e + 1;
            assert(out@ + strip_from(input@, i as int) =~= before + (piece + strip_from(
                input@,
                i as int,
            )));
        } else {
            assert(strip_from(input@, i as int) == piece);
            i = input.len();
            assert(out@ + strip_from(input@, i as int) =~= before + piece);
        }
    }
    assert(out@ + strip_from(input@, i as int) =~= out@);
    out
}

} // verus!
