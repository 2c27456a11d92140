use vstd::prelude::*;

use vstd::relations::{sorted_by, total_ordering};
use vstd::seq_lib::lemma_sorted_unique;

verus! {

/// The total order by which coefficient sequences are sorted.
pub open spec fn le64() -> spec_fn(i64, i64) -> bool {
    |a: i64, b: i64| a <= b
}

pub proof fn lemma_le64_total()
    ensures
        total_ordering(le64()),
{
    let r = le64();
    assert(vstd::relations::reflexive(r));
    assert(vstd::relations::antisymmetric(r));
    assert(vstd::relations::transitive(r));
    assert(vstd::relations::strongly_connected(r));
}

/// The lower median: the middle element of the sorted sequence.
pub open spec fn spec_median(s: Seq<i64>) -> i64
    recommends
        s.len() > 0,
{
    s.sort_by(le64())[((s.len() - 1) / 2) as int]
}

/// Inserts `x` into a sorted vector, keeping it sorted.
fn sorted_insert(r: &mut Vec<i64>, x: i64)
    requires
        sorted_by(old(r)@, le64()),
    ensures
        sorted_by(final(r)@, le64()),
        final(r)@.to_multiset() == old(r)@.to_multiset().insert(x),
        final(r)@.len() == old(r)@.len() + 1,
{
    let ghost s0 = r@;
    let mut pos: usize = 0;
    while pos < r.len() && r[pos] <= x
        invariant
            pos <= r@.len(),
            r@ == s0,
            forall|i: int| 0 <= i < pos ==> le64()(r@[i], x),
        decreases r@.len() - pos,
    {
        pos += 1;
    }
    proof {
        if pos < s0.len() {
            assert(!le64()(s0[pos as int], x));
        }
    }
    r.insert(pos, x);
    proof {
        let s1 = r@;
        assert(s1 == s0.insert(pos as int, x));
        assert forall|i: int, j: int| 0 <= i < j < s1.len() implies #[trigger] le64()(
            s1[i],
            s1[j],
        ) by {
            if j < pos {
                assert(le64()(s0[i], s0[j]));
            } else if i > pos {
                assert(le64()(s0[i - 1], s0[j - 1]));
            } else if i == pos && j > pos {
                // s1[i] == x, s1[j] == s0[j-1] and s0[j-1] >= s0[pos] > x
                if j - 1 > pos {
                    assert(le64()(s0[pos as int], s0[j - 1]));
                }
            } else if j == pos {
                // s1[i] == s0[i] <= x == s1[j]
                assert(le64()(s0[i], x));
            } else {
                // i < pos < j: s1[i] == s0[i] <= x and s0[j-1] >= s0[pos] > x
                assert(le64()(s0[i], x));
                if j - 1 > pos {
                    assert(le64()(s0[pos as int], s0[j - 1]));
                }
            }
        }
        vstd::seq_lib::to_multiset_insert(s0, pos as int, x);
    }
}

/// Sorts a copy of the vector by `<=`.
fn sort_i64(v: &Vec<i64>) -> (r: Vec<i64>)
    ensures
        r@ == v@.sort_by(le64()),
        r@.len() == v@.len(),
{
    broadcast use vstd::seq_lib::group_to_multiset_ensures;

    let mut r: Vec<i64> = Vec::new();
    let mut i: usize = 0;
    while i < v.len()
        invariant
            i <= v@.len(),
            sorted_by(r@, le64()),
            r@.to_multiset() == v@.subrange(0, i as int).to_multiset(),
            r@.len() == i,
        decreases v@.len() - i,
    {
        let ghost pre = v@.subrange(0, i as int);
        sorted_insert(&mut r, v[i]);
        proof {
            assert(v@.subrange(0, i + 1) =~= pre.push(v@[i as int]));
            vstd::seq_lib::to_multiset_build(pre, v@[i as int]);
        }
        i += 1;
    }
    proof {
        lemma_le64_total();
        v@.lemma_sort_by_ensures(le64());
        assert(v@.subrange(0, v@.len() as int) == v@);
        lemma_sorted_unique(r@, v@.sort_by(le64()), le64());
        assert(r@ == v@.sort_by(le64()));
        assert(v@.sort_by(le64()).to_multiset().len() == v@.to_multiset().len());
    }
    r
}

/// The lower median of a non-empty vector of coefficients.
pub fn median_of(v: &Vec<i64>) -> (m: i64)
    requires
        v@.len() > 0,
    ensures
        m == spec_median(v@),
{
    let s = sort_i64(v);
    let mid: usize = (v.len() - 1) / 2;
    s[mid]
}

} // verus!
