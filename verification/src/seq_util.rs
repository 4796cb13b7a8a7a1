//! Small reusable specifications over sequences: an order-preserving
//! filter-map and a concatenation of a sequence of sequences, with the
//! lemmas the rest of the crate needs about them.
use vstd::prelude::*;

verus! {

/// Order-preserving filter-map: applies `f` to each element in order and
/// keeps the `Some` results.
pub open spec fn spec_filter_map<A, B>(s: Seq<A>, f: spec_fn(A) -> Option<B>) -> Seq<B>
    decreases s.len(),
{
    if s.len() == 0 {
        Seq::empty()
    } else {
        match f(s.first()) {
            Some(b) => seq![b] + spec_filter_map(s.drop_first(), f),
            None => spec_filter_map(s.drop_first(), f),
        }
    }
}

pub proof fn lemma_filter_map_append<A, B>(s1: Seq<A>, s2: Seq<A>, f: spec_fn(A) -> Option<B>)
    ensures
        spec_filter_map(s1 + s2, f) == spec_filter_map(s1, f) + spec_filter_map(s2, f),
    decreases s1.len(),
{
    if s1.len() == 0 {
        assert(s1 + s2 =~= s2);
        assert(spec_filter_map(s1, f) + spec_filter_map(s2, f) =~= spec_filter_map(s2, f));
    } else {
        assert((s1 + s2).first() == s1.first());
        assert((s1 + s2).drop_first() =~= s1.drop_first() + s2);
        lemma_filter_map_append(s1.drop_first(), s2, f);
        match f(s1.first()) {
            Some(b) => {
                assert(seq![b] + (spec_filter_map(s1.drop_first(), f) + spec_filter_map(s2, f))
                    =~= (seq![b] + spec_filter_map(s1.drop_first(), f)) + spec_filter_map(s2, f));
            },
            None => {},
        }
    }
}

/// Applying the filter-map to one more element appends its image, if any.
pub proof fn lemma_filter_map_take_step<A, B>(s: Seq<A>, i: int, f: spec_fn(A) -> Option<B>)
    requires
        0 <= i < s.len(),
    ensures
        spec_filter_map(s.take(i + 1), f) == match f(s[i]) {
            Some(b) => spec_filter_map(s.take(i), f) + seq![b],
            None => spec_filter_map(s.take(i), f),
        },
{
    assert(s.take(i + 1) =~= s.take(i) + seq![s[i]]);
    lemma_filter_map_append(s.take(i), seq![s[i]], f);
    assert(spec_filter_map(seq![s[i]], f) == match f(s[i]) {
        Some(b) => seq![b],
        None => Seq::<B>::empty(),
    }) by {
        assert(seq![s[i]].first() == s[i]);
        assert(seq![s[i]].drop_first() =~= Seq::<A>::empty());
        assert(spec_filter_map(seq![s[i]].drop_first(), f) == Seq::<B>::empty());
        match f(s[i]) {
            Some(b) => {
                assert(seq![b] + Seq::<B>::empty() =~= seq![b]);
            },
            None => {},
        }
    }
    match f(s[i]) {
        Some(b) => {
            assert(spec_filter_map(s.take(i), f) + seq![b]
                =~= spec_filter_map(s.take(i), f) + spec_filter_map(seq![s[i]], f));
        },
        None => {
            assert(spec_filter_map(s.take(i), f) + Seq::<B>::empty()
                =~= spec_filter_map(s.take(i), f));
        },
    }
}

/// If `f` returns `None` on every element, the filter-map is empty.
pub proof fn lemma_filter_map_all_none<A, B>(s: Seq<A>, f: spec_fn(A) -> Option<B>)
    requires
        forall|i: int| 0 <= i < s.len() ==> f(#[trigger] s[i]) is None,
    ensures
        spec_filter_map(s, f) == Seq::<B>::empty(),
    decreases s.len(),
{
    if s.len() > 0 {
        assert(s.first() == s[0]);
        assert(forall|i: int| 0 <= i < s.drop_first().len() ==> s.drop_first()[i] == s[i + 1]);
        lemma_filter_map_all_none(s.drop_first(), f);
    }
}

/// Two filter-maps agree when their functions agree on every element.
pub proof fn lemma_filter_map_congruence<A, B>(s: Seq<A>, f: spec_fn(A) -> Option<B>, g: spec_fn(A) -> Option<B>)
    requires
        forall|i: int| 0 <= i < s.len() ==> f(#[trigger] s[i]) == g(s[i]),
    ensures
        spec_filter_map(s, f) == spec_filter_map(s, g),
    decreases s.len(),
{
    if s.len() > 0 {
        assert(s.first() == s[0]);
        assert(forall|i: int| 0 <= i < s.drop_first().len() ==> s.drop_first()[i] == s[i + 1]);
        lemma_filter_map_congruence(s.drop_first(), f, g);
    }
}

/// Every element of a filter-map is the image of some source element,
/// appearing in source order.
pub proof fn lemma_filter_map_membership<A, B>(s: Seq<A>, f: spec_fn(A) -> Option<B>, k: int)
    requires
        0 <= k < spec_filter_map(s, f).len(),
    ensures
        exists|i: int| 0 <= i < s.len() && f(#[trigger] s[i]) == Some(spec_filter_map(s, f)[k]),
    decreases s.len(),
{
    if s.len() > 0 {
        let rest = s.drop_first();
        assert(forall|i: int| 0 <= i < rest.len() ==> rest[i] == s[i + 1]);
        match f(s.first()) {
            Some(b) => {
                if k == 0 {
                    assert(s.first() == s[0]);
                    assert(f(s[0]) == Some(spec_filter_map(s, f)[0]));
                } else {
                    lemma_filter_map_membership(rest, f, k - 1);
                    let i = choose|i: int|
                        0 <= i < rest.len() && f(#[trigger] rest[i]) == Some(
                            spec_filter_map(rest, f)[k - 1],
                        );
                    assert(f(s[i + 1]) == Some(spec_filter_map(s, f)[k]));
                }
            },
            None => {
                lemma_filter_map_membership(rest, f, k);
                let i = choose|i: int|
                    0 <= i < rest.len() && f(#[trigger] rest[i]) == Some(
                        spec_filter_map(rest, f)[k],
                    );
                assert(f(s[i + 1]) == Some(spec_filter_map(s, f)[k]));
            },
        }
    }
}

/// A filter-map over a concatenation is the concatenation of the
/// blockwise filter-maps: filtering never moves an element across a block
/// boundary.
pub proof fn lemma_filter_map_concat<A, B>(s: Seq<Seq<A>>, f: spec_fn(A) -> Option<B>)
    ensures
        spec_filter_map(spec_concat(s), f) == spec_concat(
            s.map_values(|b: Seq<A>| spec_filter_map(b, f)),
        ),
    decreases s.len(),
{
    let fm = |b: Seq<A>| spec_filter_map(b, f);
    if s.len() == 0 {
        assert(s.map_values(fm) =~= Seq::<Seq<B>>::empty());
    } else {
        let rest = s.drop_first();
        lemma_filter_map_concat(rest, f);
        lemma_filter_map_append(s.first(), spec_concat(rest), f);
        assert(s.map_values(fm) =~= seq![fm(s.first())] + rest.map_values(fm));
        assert(spec_concat(seq![fm(s.first())] + rest.map_values(fm)) == fm(s.first())
            + spec_concat(rest.map_values(fm))) by {
            lemma_concat_append(seq![fm(s.first())], rest.map_values(fm));
            assert(seq![fm(s.first())].first() == fm(s.first()));
            assert(seq![fm(s.first())].drop_first() =~= Seq::<Seq<B>>::empty());
            assert(spec_concat(seq![fm(s.first())].drop_first()) =~= Seq::<B>::empty());
            assert(fm(s.first()) + Seq::<B>::empty() =~= fm(s.first()));
        }
    }
}

/// Concatenation of a sequence of sequences, preserving block order.
pub open spec fn spec_concat<A>(s: Seq<Seq<A>>) -> Seq<A>
    decreases s.len(),
{
    if s.len() == 0 {
        Seq::empty()
    } else {
        s.first() + spec_concat(s.drop_first())
    }
}

pub proof fn lemma_concat_append<A>(s1: Seq<Seq<A>>, s2: Seq<Seq<A>>)
    ensures
        spec_concat(s1 + s2) == spec_concat(s1) + spec_concat(s2),
    decreases s1.len(),
{
    if s1.len() == 0 {
        assert(s1 + s2 =~= s2);
        assert(spec_concat(s1) + spec_concat(s2) =~= spec_concat(s2));
    } else {
        assert((s1 + s2).first() == s1.first());
        assert((s1 + s2).drop_first() =~= s1.drop_first() + s2);
        lemma_concat_append(s1.drop_first(), s2);
        assert(s1.first() + (spec_concat(s1.drop_first()) + spec_concat(s2))
            =~= (s1.first() + spec_concat(s1.drop_first())) + spec_concat(s2));
    }
}

/// Index in the concatenation where block `i` begins.
pub open spec fn spec_block_offset<A>(s: Seq<Seq<A>>, i: int) -> int
    decreases i,
{
    if i <= 0 {
        0
    } else {
        spec_block_offset(s, i - 1) + s[i - 1].len()
    }
}

/// Each block of the concatenation stands whole at its offset, so the blocks
/// appear in order: every element of an earlier block has a smaller index
/// than every element of a later block.
pub proof fn lemma_concat_block_position<A>(s: Seq<Seq<A>>, i: int, k: int)
    requires
        0 <= i < s.len(),
        0 <= k < s[i].len(),
    ensures
        0 <= spec_block_offset(s, i),
        spec_block_offset(s, i) + k < spec_concat(s).len(),
        spec_concat(s)[spec_block_offset(s, i) + k] == s[i][k],
    decreases i,
{
    if i == 0 {
        assert(s.first() == s[0]);
        assert(spec_concat(s) == s[0] + spec_concat(s.drop_first()));
        assert(spec_concat(s)[k] == s[0][k]);
    } else {
        let t = s.drop_first();
        assert(forall|j: int| 0 <= j < t.len() ==> t[j] == s[j + 1]);
        lemma_concat_block_position(t, i - 1, k);
        lemma_block_offset_shift(s, i);
        assert(spec_concat(s) == s.first() + spec_concat(t));
        assert(spec_concat(s)[s[0].len() + spec_block_offset(t, i - 1) + k] == spec_concat(t)[spec_block_offset(t, i - 1) + k]);
    }
}

proof fn lemma_block_offset_shift<A>(s: Seq<Seq<A>>, i: int)
    requires
        1 <= i <= s.len(),
    ensures
        spec_block_offset(s, i) == s[0].len() + spec_block_offset(s.drop_first(), i - 1),
    decreases i,
{
    if i == 1 {
        assert(spec_block_offset(s, 0int) == 0);
        assert(spec_block_offset(s.drop_first(), 0int) == 0);
    } else {
        lemma_block_offset_shift(s, i - 1);
        assert(s.drop_first()[i - 2] == s[i - 1]);
    }
}

/// Offsets grow monotonically: block `j` starts at or after the end of an
/// earlier block `i`.
pub proof fn lemma_block_offset_ordered<A>(s: Seq<Seq<A>>, i: int, j: int)
    requires
        0 <= i < j <= s.len(),
    ensures
        spec_block_offset(s, i) + s[i].len() <= spec_block_offset(s, j),
    decreases j - i,
{
    if j == i + 1 {
    } else {
        lemma_block_offset_ordered(s, i, j - 1);
    }
}

} // verus!
