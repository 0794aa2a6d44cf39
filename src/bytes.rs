//! Small helpers for building byte buffers.
use vstd::prelude::*;

verus! {

/// Appends `s[from..to]` to `out`.
pub fn push_range(out: &mut Vec<u8>, s: &[u8], from: usize, to: usize)
    requires
        from <= to <= s@.len(),
    ensures
        final(out)@ == old(out)@ + s@.subrange(from as int, to as int),
{
    let ghost start = out@;
    let mut i: usize = from;
    while i < to
        invariant
            from <= i <= to <= s@.len(),
            out@ == start + s@.subrange(from as int, i as int),
        decreases to - i,
    {
        out.push(s[i]);
        i += 1;
        assert(out@ =~= start + s@.subrange(from as int, i as int));
    }
}

/// Appends all of `s` to `out`.
pub fn push_all(out: &mut Vec<u8>, s: &[u8])
    ensures
        final(out)@ == old(out)@ + s@,
{
    push_range(out, s, 0, s.len());
    assert(s@.subrange(0, s@.len() as int) =~= s@);
}

/// A copy of `s[from..to]`.
pub fn copy_range(s: &[u8], from: usize, to: usize) -> (r: Vec<u8>)
    requires
        from <= to <= s@.len(),
    ensures
        r@ == s@.subrange(from as int, to as int),
{
    let mut r: Vec<u8> = Vec::new();
    push_range(&mut r, s, from, to);
    assert(r@ =~= s@.subrange(from as int, to as int));
    r
}

} // verus!
