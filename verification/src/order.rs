//! A verified stable ordering of tagged keys.
//!
//! Rankings in this crate sort pairs `(key, tag)` by descending key; the tag
//! is the position in the original sequence, so equal keys keep their input
//! order. Sorting is specified by an insertion-sort recursion and the
//! executable sort is proved equal to it.

use vstd::prelude::*;

verus! {

/// `a` comes strictly before `b`: larger key first, then smaller tag.
pub open spec fn pair_before(a: (i128, usize), b: (i128, usize)) -> bool {
    a.0 > b.0 || (a.0 == b.0 && a.1 < b.1)
}

/// Inserts `x` into `s` from the right, keeping everything that comes
/// before `x` ahead of it.
pub open spec fn insert_sorted(s: Seq<(i128, usize)>, x: (i128, usize)) -> Seq<(i128, usize)>
    decreases s.len(),
{
    if s.len() == 0 {
        seq![x]
    } else if pair_before(x, s.last()) {
        insert_sorted(s.drop_last(), x).push(s.last())
    } else {
        s.push(x)
    }
}

/// The stable descending sort of `s`, as an insertion-sort recursion.
pub open spec fn sort_spec(s: Seq<(i128, usize)>) -> Seq<(i128, usize)>
    decreases s.len(),
{
    if s.len() == 0 {
        Seq::empty()
    } else {
        insert_sorted(sort_spec(s.drop_last()), s.last())
    }
}

/// No pair of positions in `s` is inverted.
pub open spec fn sorted(s: Seq<(i128, usize)>) -> bool {
    forall|i: int, j: int| 0 <= i < j < s.len() ==> !pair_before(#[trigger] s[j], #[trigger] s[i])
}

proof fn lemma_insert_sorted_at(s: Seq<(i128, usize)>, x: (i128, usize), idx: int)
    requires
        0 <= idx <= s.len(),
        forall|j: int| idx <= j < s.len() ==> pair_before(x, #[trigger] s[j]),
        idx > 0 ==> !pair_before(x, s[idx - 1]),
    ensures
        insert_sorted(s, x) == s.subrange(0, idx) + seq![x] + s.subrange(idx, s.len() as int),
    decreases s.len(),
{
    if s.len() == 0 {
        assert(insert_sorted(s, x) =~= s.subrange(0, idx) + seq![x] + s.subrange(
            idx,
            s.len() as int,
        ));
    } else if idx == s.len() {
        assert(!pair_before(x, s.last()));
        assert(insert_sorted(s, x) == s.push(x));
        assert(s.push(x) =~= s.subrange(0, idx) + seq![x] + s.subrange(idx, s.len() as int));
    } else {
        assert(pair_before(x, s.last()));
        let d = s.drop_last();
        assert(forall|j: int| idx <= j < d.len() ==> pair_before(x, #[trigger] d[j]));
        lemma_insert_sorted_at(d, x, idx);
        assert(insert_sorted(s, x) == insert_sorted(d, x).push(s.last()));
        assert(insert_sorted(d, x).push(s.last()) =~= s.subrange(0, idx) + seq![x] + s.subrange(
            idx,
            s.len() as int,
        ));
    }
}

proof fn lemma_insert_sorted_keeps_sorted(s: Seq<(i128, usize)>, x: (i128, usize))
    requires
        sorted(s),
    ensures
        sorted(insert_sorted(s, x)),
        insert_sorted(s, x).to_multiset() == s.to_multiset().insert(x),
    decreases s.len(),
{
    broadcast use vstd::seq_lib::group_seq_properties;

    if s.len() == 0 {
        assert(seq![x].drop_last() =~= Seq::<(i128, usize)>::empty());
        assert(seq![x] =~= Seq::<(i128, usize)>::empty().push(x));
    } else if pair_before(x, s.last()) {
        let d = s.drop_last();
        assert(sorted(d)) by {
            assert(forall|i: int, j: int|
                0 <= i < j < d.len() ==> !pair_before(#[trigger] d[j], #[trigger] d[i]));
        }
        lemma_insert_sorted_keeps_sorted(d, x);
        let r = insert_sorted(d, x).push(s.last());
        assert forall|i: int, j: int| 0 <= i < j < r.len() implies !pair_before(
            #[trigger] r[j],
            #[trigger] r[i],
        ) by {
            let t = insert_sorted(d, x);
            if j < r.len() - 1 {
                assert(!pair_before(t[j], t[i]));
            } else {
                // r[j] is s.last(); r[i] is an element of insert_sorted(d, x),
                // so it is either x or an element of d.
                assert(t.to_multiset().contains(t[i]));
                assert(t.to_multiset() == d.to_multiset().insert(x));
                if t[i] == x {
                    assert(!pair_before(s.last(), x));
                } else {
                    assert(d.to_multiset().contains(t[i]));
                    let k = choose|k: int| 0 <= k < d.len() && d[k] == t[i];
                    assert(!pair_before(s.last(), d[k]));
                }
            }
        }
        assert(s.to_multiset() == d.to_multiset().insert(s.last())) by {
            assert(s =~= d.push(s.last()));
        }
        assert(r.to_multiset() == insert_sorted(d, x).to_multiset().insert(s.last()));
        assert(r.to_multiset() =~= s.to_multiset().insert(x)) by {
            assert(insert_sorted(d, x).to_multiset() == d.to_multiset().insert(x));
            assert(d.to_multiset().insert(x).insert(s.last()) =~= d.to_multiset().insert(
                s.last(),
            ).insert(x));
        }
    } else {
        let r = s.push(x);
        assert forall|i: int, j: int| 0 <= i < j < r.len() implies !pair_before(
            #[trigger] r[j],
            #[trigger] r[i],
        ) by {
            if j == r.len() - 1 {
                // x does not come before s.last(), and s.last() does not come
                // before any earlier element, so x does not either.
                assert(r[j] == x);
                assert(!pair_before(x, s.last()));
                if i < s.len() - 1 {
                    assert(!pair_before(s.last(), s[i]));
                }
            }
        }
    }
}

/// The sorted sequence has no inversions and the same contents.
pub proof fn lemma_sort_spec_sorted(s: Seq<(i128, usize)>)
    ensures
        sorted(sort_spec(s)),
        sort_spec(s).to_multiset() == s.to_multiset(),
        sort_spec(s).len() == s.len(),
    decreases s.len(),
{
    broadcast use vstd::seq_lib::group_seq_properties;

    if s.len() == 0 {
    } else {
        let d = s.drop_last();
        lemma_sort_spec_sorted(d);
        lemma_insert_sorted_keeps_sorted(sort_spec(d), s.last());
        assert(s =~= d.push(s.last()));
        assert(s.to_multiset() == d.to_multiset().insert(s.last()));
        assert(sort_spec(s).to_multiset().len() == s.to_multiset().len());
    }
}


/// Sorting keeps every tag within its original bound.
pub proof fn lemma_sort_tags_bounded(s: Seq<(i128, usize)>, bound: int)
    requires
        forall|i: int| 0 <= i < s.len() ==> (#[trigger] s[i]).1 < bound,
    ensures
        forall|j: int| 0 <= j < sort_spec(s).len() ==> (#[trigger] sort_spec(s)[j]).1 < bound,
{
    broadcast use vstd::seq_lib::group_seq_properties;

    lemma_sort_spec_sorted(s);
    assert forall|j: int| 0 <= j < sort_spec(s).len() implies (#[trigger] sort_spec(s)[j]).1
        < bound by {
        let x = sort_spec(s)[j];
        assert(sort_spec(s).to_multiset().contains(x));
        assert(s.to_multiset().contains(x));
        assert(s.contains(x));
        let k = choose|k: int| 0 <= k < s.len() && s[k] == x;
        assert(s[k].1 < bound);
    }
}

/// Sorts pairs by descending key, ties by ascending tag.
pub fn sort_pairs(input: Vec<(i128, usize)>) -> (r: Vec<(i128, usize)>)
    ensures
        r@ == sort_spec(input@),
{
    let mut out: Vec<(i128, usize)> = Vec::new();
    let mut i: usize = 0;
    while i < input.len()
        invariant
            i <= input@.len(),
            out@ == sort_spec(input@.subrange(0, i as int)),
        decreases input@.len() - i,
    {
        let x = input[i];
        let mut idx: usize = out.len();
        while idx > 0 && (x.0 > out[idx - 1].0 || (x.0 == out[idx - 1].0 && x.1 < out[idx - 1].1))
            invariant
                idx <= out@.len(),
                forall|j: int| idx <= j < out@.len() ==> pair_before(x, #[trigger] out@[j]),
            decreases idx,
        {
            idx = idx - 1;
        }
        proof {
            lemma_insert_sorted_at(out@, x, idx as int);
        }
        out.insert(idx, x);
        proof {
            assert(out@ =~= insert_sorted(sort_spec(input@.subrange(0, i as int)), x));
            assert(input@.subrange(0, i + 1).drop_last() =~= input@.subrange(0, i as int));
            assert(input@.subrange(0, i + 1).last() == x);
        }
        i = i + 1;
    }
    proof {
        assert(input@.subrange(0, input@.len() as int) =~= input@);
    }
    out
}

} // verus!
