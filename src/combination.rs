//! Enumeration of every tuple of `k` indices into a pool of `n` items, in the
//! order of an odometer whose last position turns fastest.
use vstd::arithmetic::div_mod::{lemma_fundamental_div_mod, lemma_fundamental_div_mod_converse};
use vstd::arithmetic::power::{lemma_pow_positive, pow};
use vstd::prelude::*;

verus! {

/// The `k` base-`n` digits of `v`, most significant first.
pub open spec fn tuple_of(v: nat, n: nat, k: nat) -> Seq<usize>
    decreases k,
{
    if k == 0 {
        Seq::empty()
    } else {
        tuple_of(v / n, n, (k - 1) as nat).push((v % n) as usize)
    }
}

/// The value of a tuple read as a base-`n` numeral, its last position least
/// significant.
pub open spec fn tuple_value(t: Seq<usize>, n: nat) -> nat
    decreases t.len(),
{
    if t.len() == 0 {
        0
    } else {
        tuple_value(t.drop_last(), n) * n + t.last() as nat
    }
}

/// How many tuples the enumeration of length `k` over `n` items yields: none
/// for the empty length, `n^k` otherwise.
pub open spec fn combination_count(n: nat, k: nat) -> nat {
    if k == 0 {
        0
    } else {
        pow(n as int, k) as nat
    }
}

/// The tuples of length `k` over `n` items, in enumeration order.
pub open spec fn combinations(n: nat, k: nat) -> Seq<Seq<usize>> {
    Seq::new(combination_count(n, k), |i: int| tuple_of(i as nat, n, k))
}

proof fn lemma_step_div_mod(v: nat, n: nat)
    requires
        n > 0,
    ensures
        v % n + 1 < n ==> (v + 1) % n == v % n + 1 && (v + 1) / n == v / n,
        v % n + 1 == n ==> (v + 1) % n == 0 && (v + 1) / n == v / n + 1,
{
    lemma_fundamental_div_mod(v as int, n as int);
    let q = v / n;
    let r = v % n;
    assert(v as int == q * n + r) by (nonlinear_arith)
        requires
            v as int == n * q + r,
    ;
    if r + 1 < n {
        lemma_fundamental_div_mod_converse((v + 1) as int, n as int, q as int, (r + 1) as int);
    } else if r + 1 == n {
        assert((v + 1) as int == (q + 1) * n + 0) by (nonlinear_arith)
            requires
                v as int == q * n + r,
                r + 1 == n,
        ;
        lemma_fundamental_div_mod_converse((v + 1) as int, n as int, (q + 1) as int, 0);
    }
}

/// Every digit of a tuple is an index into the pool.
pub proof fn lemma_tuple_digits_below(v: nat, n: nat, k: nat)
    requires
        n > 0,
        n <= usize::MAX,
    ensures
        tuple_of(v, n, k).len() == k,
        forall|i: int| 0 <= i < k ==> tuple_of(v, n, k)[i] < n,
    decreases k,
{
    if k > 0 {
        lemma_tuple_digits_below(v / n, n, (k - 1) as nat);
    }
}

/// The all-zero tuple opens the enumeration.
proof fn lemma_tuple_of_zero(n: nat, k: nat)
    requires
        n > 0,
    ensures
        tuple_of(0, n, k) == Seq::new(k, |i: int| 0usize),
    decreases k,
{
    if k > 0 {
        lemma_tuple_of_zero(n, (k - 1) as nat);
        assert(tuple_of(0, n, k) =~= Seq::new(k, |i: int| 0usize));
    }
}

/// Below `n^k`, a tuple has every digit at `n - 1` exactly when it is the
/// largest value.
proof fn lemma_all_top_digits(v: nat, n: nat, k: nat)
    requires
        n > 0,
        n <= usize::MAX,
        v < pow(n as int, k),
    ensures
        (forall|i: int| 0 <= i < k ==> tuple_of(v, n, k)[i] == n - 1) <==> v + 1 == pow(
            n as int,
            k,
        ),
    decreases k,
{
    reveal(pow);
    if k > 0 {
        let km = (k - 1) as nat;
        let q = v / n;
        let r = v % n;
        let p = pow(n as int, km);
        lemma_pow_positive(n as int, km);
        lemma_fundamental_div_mod(v as int, n as int);
        assert(q < p) by (nonlinear_arith)
            requires
                v as int == n * q + r,
                0 <= r,
                v < n * p,
                n > 0,
        ;
        lemma_all_top_digits(q, n, km);
        lemma_tuple_digits_below(q, n, km);
        let t = tuple_of(v, n, k);
        let pre = tuple_of(q, n, km);
        assert(t == pre.push(r as usize));
        assert((q + 1 == p && r + 1 == n) <==> v + 1 == n * p) by (nonlinear_arith)
            requires
                v as int == n * q + r,
                0 <= r < n,
                q < p,
        ;
        if v + 1 == n * p {
            assert forall|i: int| 0 <= i < k implies t[i] == n - 1 by {
                if i < km {
                    assert(t[i] == pre[i]);
                }
            }
        }
        if forall|i: int| 0 <= i < k ==> t[i] == n - 1 {
            assert forall|i: int| 0 <= i < km implies pre[i] == n - 1 by {
                assert(t[i] == pre[i]);
            }
            assert(t[km as int] == r);
        }
    }
}

/// One odometer step on the first `len` positions: the last of them turns, and
/// a carry moves toward the first.
fn advance(indices: &mut Vec<usize>, len: usize, pool_size: usize, Ghost(v): Ghost<nat>)
    requires
        pool_size > 0,
        len <= old(indices)@.len(),
        old(indices)@.subrange(0, len as int) == tuple_of(v, pool_size as nat, len as nat),
        v + 1 < pow(pool_size as int, len as nat),
    ensures
        final(indices)@.len() == old(indices)@.len(),
        final(indices)@.subrange(0, len as int) == tuple_of(
            v + 1,
            pool_size as nat,
            len as nat,
        ),
        final(indices)@.subrange(len as int, old(indices)@.len() as int) == old(
            indices,
        )@.subrange(len as int, old(indices)@.len() as int),
    decreases len,
{
    let ghost n = pool_size as nat;
    proof {
        reveal(pow);
    }
    let ghost whole = indices@;
    let pos = len - 1;
    let ghost head = tuple_of(v / n, n, pos as nat);
    proof {
        lemma_step_div_mod(v, n);
        lemma_tuple_digits_below(v / n, n, pos as nat);
        assert(whole.subrange(0, len as int) == head.push((v % n) as usize));
        assert(whole.subrange(0, len as int)[pos as int] == whole[pos as int]);
        assert(whole.subrange(0, pos as int) =~= head);
    }
    let digit = indices[pos];
    if digit + 1 < pool_size {
        indices[pos] = digit + 1;
        assert(tuple_of(v + 1, n, len as nat) == tuple_of((v + 1) / n, n, pos as nat).push(
            ((v + 1) % n) as usize,
        ));
        assert(indices@.subrange(0, len as int) =~= head.push((digit + 1) as usize));
        assert(indices@.subrange(len as int, whole.len() as int) =~= whole.subrange(
            len as int,
            whole.len() as int,
        ));
    } else {
        indices[pos] = 0;
        let ghost mid = indices@;
        assert(mid.subrange(0, pos as int) =~= whole.subrange(0, pos as int));
        let ghost p = pow(n as int, pos as nat);
        proof {
            lemma_fundamental_div_mod(v as int, n as int);
            assert(v / n + 1 < p) by (nonlinear_arith)
                requires
                    v as int == n * (v / n) + v % n,
                    v % n + 1 == n,
                    v + 1 < n * p,
            ;
        }
        advance(indices, pos, pool_size, Ghost(v / n));
        assert(tuple_of(v + 1, n, len as nat) == tuple_of((v + 1) / n, n, pos as nat).push(
            ((v + 1) % n) as usize,
        ));
        proof {
            lemma_tuple_digits_below(v / n + 1, n, pos as nat);
        }
        assert forall|i: int| pos <= i < whole.len() implies indices@[i] == mid[i] by {
            assert(indices@[i] == indices@.subrange(pos as int, whole.len() as int)[i - pos]);
        }
        assert forall|i: int| len <= i < whole.len() implies indices@[i] == whole[i] by {
            assert(mid[i] == whole[i]);
        }
        assert(indices@.subrange(0, len as int) =~= tuple_of(v / n + 1, n, pos as nat).push(0));
        assert(indices@.subrange(len as int, whole.len() as int) =~= whole.subrange(
            len as int,
            whole.len() as int,
        ));
    }
}

/// Whether every position holds the last index of the pool: the odometer's
/// final reading.
fn is_last_combination(indices: &Vec<usize>, pool_size: usize) -> (r: bool)
    requires
        pool_size > 0,
    ensures
        r == (forall|i: int| 0 <= i < indices@.len() ==> indices@[i] == pool_size - 1),
{
    let mut i: usize = 0;
    while i < indices.len()
        invariant
            pool_size > 0,
            i <= indices@.len(),
            forall|j: int| 0 <= j < i ==> indices@[j] == pool_size - 1,
        decreases indices@.len() - i,
    {
        if indices[i] != pool_size - 1 {
            return false;
        }
        i += 1;
    }
    true
}

/// Every tuple of `items` indices into a pool of `pool_size` members, with
/// repetition, in odometer order: starting from all zeros, the last position
/// turns fastest and a carry moves toward the first, until every position
/// holds `pool_size - 1`. No tuple comes for `items == 0`.
pub fn generate_combination_indices(pool_size: usize, items: usize) -> (r: Vec<Vec<usize>>)
    requires
        items > 0 ==> pool_size > 0,
    ensures
        r@.len() == combination_count(pool_size as nat, items as nat),
        forall|i: int|
            0 <= i < r@.len() ==> #[trigger] r@[i]@ == combinations(
                pool_size as nat,
                items as nat,
            )[i],
{
    let mut out: Vec<Vec<usize>> = Vec::new();
    if items == 0 {
        return out;
    }
    let ghost n = pool_size as nat;
    let ghost k = items as nat;
    let mut indices: Vec<usize> = vec![0; items];
    let ghost mut v: nat = 0;
    proof {
        lemma_tuple_of_zero(n, k);
        lemma_pow_positive(n as int, k);
        assert(indices@ =~= tuple_of(0, n, k));
    }
    loop
        invariant_except_break
            out@.len() == v,
            forall|i: int| 0 <= i < v ==> #[trigger] out@[i]@ == tuple_of(i as nat, n, k),
        invariant
            pool_size > 0,
            items > 0,
            n == pool_size,
            k == items,
            indices@ == tuple_of(v, n, k),
            v < pow(n as int, k),
        ensures
            out@.len() == pow(n as int, k),
            forall|i: int| 0 <= i < out@.len() ==> #[trigger] out@[i]@ == tuple_of(i as nat, n, k),
        decreases pow(n as int, k) - v,
    {
        let current = indices.clone();
        assert(current@ =~= indices@);
        out.push(current);
        proof {
            lemma_tuple_digits_below(v, n, k);
            lemma_all_top_digits(v, n, k);
        }
        if is_last_combination(&indices, pool_size) {
            break;
        }
        assert(indices@ =~= indices@.subrange(0, items as int));
        advance(&mut indices, items, pool_size, Ghost(v));
        assert(indices@ =~= indices@.subrange(0, items as int));
        proof {
            v = v + 1;
        }
    }
    out
}

/// Reading a tuple back as a numeral gives the value it was made from.
proof fn lemma_tuple_value_of(v: nat, n: nat, k: nat)
    requires
        n > 0,
        n <= usize::MAX,
        v < pow(n as int, k),
    ensures
        tuple_value(tuple_of(v, n, k), n) == v,
    decreases k,
{
    reveal(pow);
    if k > 0 {
        let km = (k - 1) as nat;
        let q = v / n;
        let r = v % n;
        let p = pow(n as int, km);
        lemma_fundamental_div_mod(v as int, n as int);
        assert(q < p) by (nonlinear_arith)
            requires
                v as int == n * q + r,
                0 <= r,
                v < n * p,
                n > 0,
        ;
        lemma_tuple_value_of(q, n, km);
        let t = tuple_of(v, n, k);
        assert(t.drop_last() =~= tuple_of(q, n, km));
        assert(tuple_value(t, n) == q * n + r) by (nonlinear_arith)
            requires
                tuple_value(t, n) == tuple_value(t.drop_last(), n) * n + t.last() as nat,
                tuple_value(t.drop_last(), n) == q,
                t.last() as nat == r,
        ;
        assert(v as int == q * n + r) by (nonlinear_arith)
            requires
                v as int == n * q + r,
        ;
    }
}

/// The enumeration opens with the all-zero tuple and closes with the tuple
/// whose every position holds the pool's last index.
pub proof fn lemma_first_and_last_combination(pool_size: nat, items: nat)
    requires
        pool_size >= 1,
        pool_size <= usize::MAX,
        items >= 1,
    ensures
        combinations(pool_size, items).len() >= 1,
        combinations(pool_size, items)[0] == Seq::new(items, |i: int| 0usize),
        combinations(pool_size, items).last() == Seq::new(
            items,
            |i: int| (pool_size - 1) as usize,
        ),
{
    let n = pool_size;
    let k = items;
    let last = (pow(n as int, k) - 1) as nat;
    lemma_pow_positive(n as int, k);
    lemma_tuple_of_zero(n, k);
    lemma_tuple_digits_below(last, n, k);
    lemma_all_top_digits(last, n, k);
    assert(combinations(n, k).last() =~= Seq::new(k, |i: int| (n - 1) as usize));
}

/// The enumeration is strictly increasing when each tuple is read as a base
/// `pool_size` numeral with its last position least significant; in
/// particular no tuple comes twice.
pub proof fn lemma_combinations_increase(pool_size: nat, items: nat, i: int, j: int)
    requires
        pool_size >= 1,
        pool_size <= usize::MAX,
        0 <= i < j < combinations(pool_size, items).len(),
    ensures
        tuple_value(combinations(pool_size, items)[i], pool_size) < tuple_value(
            combinations(pool_size, items)[j],
            pool_size,
        ),
        combinations(pool_size, items)[i] != combinations(pool_size, items)[j],
{
    lemma_pow_positive(pool_size as int, items);
    assert(items > 0);
    assert(combinations(pool_size, items).len() == pow(pool_size as int, items));
    lemma_tuple_value_of(i as nat, pool_size, items);
    lemma_tuple_value_of(j as nat, pool_size, items);
}

} // verus!
