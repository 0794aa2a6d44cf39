//! Rendering of every combination of fields as source text.
use crate::bytes::push_all;
use crate::combination::{
    combinations, generate_combination_indices, lemma_tuple_digits_below,
    tuple_of,
};
use crate::comments::{strip_comments, stripped};
use crate::grammar::{bytes_views, parsed, Mode, ModeModel, Swizzle, SwizzleError, SwizzleModel};
use crate::lexer::{CLOSE_PAREN, COMMA, OPEN_PAREN, SEMICOLON, SPACE};
use crate::parser::parse_swizzle;
use vstd::prelude::*;

verus! {

/// `", "`
pub open spec fn comma_space() -> Seq<u8> {
    seq![COMMA, SPACE]
}

/// The names joined with `", "` between them.
pub open spec fn join_names(names: Seq<Seq<u8>>) -> Seq<u8>
    decreases names.len(),
{
    if names.len() == 0 {
        Seq::empty()
    } else if names.len() == 1 {
        names[0]
    } else {
        join_names(names.drop_last()) + comma_space() + names.last()
    }
}

/// Each name preceded by `", "`.
pub open spec fn echo_names(names: Seq<Seq<u8>>) -> Seq<u8>
    decreases names.len(),
{
    if names.len() == 0 {
        Seq::empty()
    } else {
        echo_names(names.drop_last()) + comma_space() + names.last()
    }
}

/// What opens each rendered combination: the callback's name and `(`, or the
/// prefix.
pub open spec fn opening(mode: ModeModel) -> Seq<u8> {
    match mode {
        ModeModel::Callback(name) => name + seq![OPEN_PAREN],
        ModeModel::Template(prefix, _) => prefix,
    }
}

/// What closes each rendered combination: `);`, or the suffix.
pub open spec fn closing(mode: ModeModel) -> Seq<u8> {
    match mode {
        ModeModel::Callback(_) => seq![CLOSE_PAREN, SEMICOLON],
        ModeModel::Template(_, suffix) => suffix,
    }
}

/// The field names that a tuple of indices picks.
pub open spec fn names_of(pool: Seq<Seq<u8>>, t: Seq<usize>) -> Seq<Seq<u8>> {
    t.map_values(|i: usize| pool[i as int])
}

/// One combination rendered: the opening, the names joined with `", "`, the
/// names again each after `", "`, the closing, and the separator.
pub open spec fn render(pool: Seq<Seq<u8>>, t: Seq<usize>, mode: ModeModel, sep: Seq<u8>) -> Seq<
    u8,
> {
    let names = names_of(pool, t);
    opening(mode) + join_names(names) + echo_names(names) + closing(mode) + sep
}

/// The tuples rendered one after another.
pub open spec fn render_all(
    pool: Seq<Seq<u8>>,
    ts: Seq<Seq<usize>>,
    mode: ModeModel,
    sep: Seq<u8>,
) -> Seq<u8>
    decreases ts.len(),
{
    if ts.len() == 0 {
        Seq::empty()
    } else {
        render_all(pool, ts.drop_last(), mode, sep) + render(pool, ts.last(), mode, sep)
    }
}

/// The text for every length from the smallest up to `upto` (excluded).
pub open spec fn emit_lengths(m: SwizzleModel, upto: nat) -> Seq<u8>
    decreases upto,
{
    if upto <= m.start {
        Seq::empty()
    } else {
        let k = (upto - 1) as nat;
        emit_lengths(m, k) + render_all(m.pool, combinations(m.pool.len(), k), m.mode, m.separator)
    }
}

/// The text generated for a description: every length in ascending order,
/// and for each every tuple in enumeration order.
pub open spec fn emitted(m: SwizzleModel) -> Seq<u8> {
    emit_lengths(m, m.end)
}

/// What the generator makes of an input text.
pub open spec fn generated(input: Seq<u8>) -> Result<Seq<u8>, SwizzleError> {
    match parsed(stripped(input)) {
        Ok(m) => Ok(emitted(m)),
        Err(e) => Err(e),
    }
}

/// Appends one rendered combination to `out`.
fn render_into(out: &mut Vec<u8>, pool: &Vec<Vec<u8>>, t: &Vec<usize>, mode: &Mode, sep: &Vec<u8>)
    requires
        forall|i: int| 0 <= i < t@.len() ==> t@[i] < pool@.len(),
    ensures
        final(out)@ == old(out)@ + render(bytes_views(pool@), t@, mode@, sep@),
{
    let ghost start = out@;
    let ghost names = names_of(bytes_views(pool@), t@);
    match mode {
        Mode::Callback(name) => {
            push_all(out, name.as_slice());
            out.push(OPEN_PAREN);
        },
        Mode::Template(prefix, _) => {
            push_all(out, prefix.as_slice());
        },
    }
    let ghost open = out@;
    assert(open =~= start + opening(mode@));
    let mut i: usize = 0;
    assert(names.subrange(0, 0) =~= Seq::<Seq<u8>>::empty());
    while i < t.len()
        invariant
            i <= t@.len(),
            forall|j: int| 0 <= j < t@.len() ==> t@[j] < pool@.len(),
            names == names_of(bytes_views(pool@), t@),
            out@ == open + join_names(names.subrange(0, i as int)),
        decreases t@.len() - i,
    {
        if i > 0 {
            out.push(COMMA);
            out.push(SPACE);
        }
        push_all(out, pool[t[i]].as_slice());
        assert(names.subrange(0, i + 1).drop_last() =~= names.subrange(0, i as int));
        i += 1;
        assert(out@ =~= open + join_names(names.subrange(0, i as int)));
    }
    assert(names.subrange(0, t@.len() as int) =~= names);
    let ghost joined = out@;
    let mut i: usize = 0;
    while i < t.len()
        invariant
            i <= t@.len(),
            forall|j: int| 0 <= j < t@.len() ==> t@[j] < pool@.len(),
            names == names_of(bytes_views(pool@), t@),
            out@ == joined + echo_names(names.subrange(0, i as int)),
        decreases t@.len() - i,
    {
        out.push(COMMA);
        out.push(SPACE);
        push_all(out, pool[t[i]].as_slice());
        assert(names.subrange(0, i + 1).drop_last() =~= names.subrange(0, i as int));
        i += 1;
        assert(out@ =~= joined + echo_names(names.subrange(0, i as int)));
    }
    let ghost echoed = out@;
    match mode {
        Mode::Callback(_) => {
            out.push(CLOSE_PAREN);
            out.push(SEMICOLON);
        },
        Mode::Template(_, suffix) => {
            push_all(out, suffix.as_slice());
        },
    }
    assert(out@ =~= echoed + closing(mode@));
    push_all(out, sep.as_slice());
    assert(out@ =~= start + render(bytes_views(pool@), t@, mode@, sep@));
}

/// Renders every combination of the description's fields: for each length in
/// its range, ascending, every tuple in odometer order, each followed by the
/// separator.
pub fn emit_all(sw: &Swizzle) -> (r: Vec<u8>)
    requires
        sw.well_formed(),
    ensures
        r@ == emitted(sw@),
{
    let ghost m = sw@;
    let mut out: Vec<u8> = Vec::new();
    if sw.arity.start >= sw.arity.end {
        assert(out@ =~= emitted(m));
        return out;
    }
    let n = sw.pool.len();
    let mut k = sw.arity.start;
    assert(out@ =~= emit_lengths(m, k as nat));
    while k < sw.arity.end
        invariant
            m == sw@,
            sw.well_formed(),
            n == sw.pool@.len(),
            sw.arity.start <= k <= sw.arity.end,
            out@ == emit_lengths(m, k as nat),
        decreases sw.arity.end - k,
    {
        let tuples = generate_combination_indices(n, k);
        let ghost all = combinations(n as nat, k as nat);
        let ghost before = out@;
        let mut i: usize = 0;
        assert(all.subrange(0, 0) =~= Seq::<Seq<usize>>::empty());
        while i < tuples.len()
            invariant
                m == sw@,
                n == sw.pool@.len(),
                k < sw.arity.end,
                k <= n,
                all == combinations(n as nat, k as nat),
                tuples@.len() == all.len(),
                forall|j: int| 0 <= j < tuples@.len() ==> #[trigger] tuples@[j]@ == all[j],
                i <= tuples@.len(),
                out@ == before + render_all(m.pool, all.subrange(0, i as int), m.mode, m.separator),
            decreases tuples@.len() - i,
        {
            proof {
                assert(k > 0);
                lemma_tuple_digits_below(i as nat, n as nat, k as nat);
            }
            assert(tuples@[i as int]@ == tuple_of(i as nat, n as nat, k as nat));
            render_into(&mut out, &sw.pool, &tuples[i], &sw.mode, &sw.separator);
            assert(all.subrange(0, i + 1).drop_last() =~= all.subrange(0, i as int));
            i += 1;
            assert(out@ =~= before + render_all(m.pool, all.subrange(0, i as int), m.mode, m.separator));
        }
        assert(all.subrange(0, all.len() as int) =~= all);
        k += 1;
    }
    out
}

/// The whole generator: removes line comments from `input`, parses the
/// description, and renders every combination it asks for.
pub fn swizzle(input: &[u8]) -> (r: Result<Vec<u8>, SwizzleError>)
    ensures
        match generated(input@) {
            Ok(text) => match r {
                Ok(out) => out@ == text,
                Err(_) => false,
            },
            Err(e) => r == Err::<Vec<u8>, SwizzleError>(e),
        },
{
    let text = strip_comments(input);
    match parse_swizzle(text.as_slice()) {
        Err(e) => Err(e),
        Ok(sw) => Ok(emit_all(&sw)),
    }
}

/// The generator depends on its input alone: the same bytes give the same
/// result, every time.
pub proof fn lemma_generation_is_deterministic(a: Seq<u8>, b: Seq<u8>)
    requires
        a == b,
    ensures
        generated(a) == generated(b),
{
}

} // verus!
