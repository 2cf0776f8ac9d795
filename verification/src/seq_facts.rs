//! Facts about flattened sequences of sequences.

use vstd::prelude::*;
use vstd::seq_lib::lemma_flatten_concat;

verus! {

/// What holds of every member of every part holds of every member of the
/// flattened sequence.
pub proof fn lemma_flatten_all<A>(parts: Seq<Seq<A>>, pred: spec_fn(A) -> bool)
    requires
        forall|l: int, i: int|
            0 <= l < parts.len() && 0 <= i < parts[l].len() ==> pred(#[trigger] parts[l][i]),
    ensures
        forall|k: int| 0 <= k < parts.flatten().len() ==> pred(#[trigger] parts.flatten()[k]),
    decreases parts.len(),
{
    if parts.len() > 0 {
        let rest = parts.drop_first();
        assert forall|l: int, i: int| 0 <= l < rest.len() && 0 <= i < rest[l].len() implies pred(
            #[trigger] rest[l][i],
        ) by {
            assert(rest[l][i] == parts[l + 1][i]);
        }
        lemma_flatten_all(rest, pred);
        assert(parts.flatten() =~= parts[0] + rest.flatten());
        assert forall|k: int| 0 <= k < parts.flatten().len() implies pred(
            #[trigger] parts.flatten()[k],
        ) by {
            if k < parts[0].len() {
                assert(parts.flatten()[k] == parts[0][k]);
            } else {
                assert(parts.flatten()[k] == rest.flatten()[k - parts[0].len()]);
            }
        }
    }
}

/// The first `l + 1` parts, flattened, are the first `l` parts, flattened,
/// followed by part `l`.
pub proof fn lemma_flatten_take_next<A>(parts: Seq<Seq<A>>, l: int)
    requires
        0 <= l < parts.len(),
    ensures
        parts.take(l + 1).flatten() == parts.take(l).flatten() + parts[l],
{
    assert(parts.take(l + 1) =~= parts.take(l).push(parts[l]));
    parts.take(l).lemma_flatten_push(parts[l]);
}

/// Taking more parts makes the flattened sequence no shorter.
pub proof fn lemma_flatten_take_grows<A>(parts: Seq<Seq<A>>, l: int, m: int)
    requires
        0 <= l <= m <= parts.len(),
    ensures
        parts.take(l).flatten().len() <= parts.take(m).flatten().len(),
    decreases m - l,
{
    if l < m {
        lemma_flatten_take_next(parts, m - 1);
        lemma_flatten_take_grows(parts, l, m - 1);
    }
}

/// Member `i` of part `l` stands in the flattened sequence behind all the
/// members of the parts before `l`, at distance `i`.
pub proof fn lemma_flatten_index<A>(parts: Seq<Seq<A>>, l: int, i: int)
    requires
        0 <= l < parts.len(),
        0 <= i < parts[l].len(),
    ensures
        parts.take(l).flatten().len() + i < parts.flatten().len(),
        parts.flatten()[parts.take(l).flatten().len() + i] == parts[l][i],
{
    lemma_flatten_take_next(parts, l);
    assert(parts =~= parts.take(l + 1) + parts.skip(l + 1));
    lemma_flatten_concat(parts.take(l + 1), parts.skip(l + 1));
}

/// Every member of the first `n` parts, flattened, is some member of one of
/// those parts, at the place that `lemma_flatten_index` gives.
pub proof fn lemma_flatten_locate<A>(parts: Seq<Seq<A>>, n: int, k: int) -> (place: (int, int))
    requires
        0 <= n <= parts.len(),
        0 <= k < parts.take(n).flatten().len(),
    ensures
        0 <= place.0 < n,
        0 <= place.1 < parts[place.0].len(),
        parts.take(place.0).flatten().len() + place.1 == k,
    decreases n,
{
    if n == 0 {
        assert(parts.take(0).flatten().len() == 0);
        (0, 0)
    } else {
        lemma_flatten_take_next(parts, n - 1);
        let before = parts.take(n - 1).flatten().len();
        if k < before {
            lemma_flatten_locate(parts, n - 1, k)
        } else {
            (n - 1, k - before)
        }
    }
}

} // verus!
