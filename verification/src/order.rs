//! Lexicographic order on text, as `str`'s `Ord` compares it, and a stable
//! sort by a text key.

use vstd::prelude::*;
use vstd::relations::sorted_by;
use crate::text::chars_of;

verus! {

/// `a` comes strictly before `b`: at the first differing character `a` has
/// the smaller code point, or `a` is a proper prefix of `b`.
pub open spec fn lex_lt(a: Seq<char>, b: Seq<char>) -> bool
    decreases a.len(),
{
    if a.len() == 0 {
        b.len() > 0
    } else if b.len() == 0 {
        false
    } else if a[0] != b[0] {
        a[0] < b[0]
    } else {
        lex_lt(a.drop_first(), b.drop_first())
    }
}

/// Pairs compared by their first text, then by their second.
pub open spec fn pair_lt(a: (Seq<char>, Seq<char>), b: (Seq<char>, Seq<char>)) -> bool {
    lex_lt(a.0, b.0) || (a.0 == b.0 && lex_lt(a.1, b.1))
}

/// `a` does not come after `b`.
pub open spec fn pair_le(a: (Seq<char>, Seq<char>), b: (Seq<char>, Seq<char>)) -> bool {
    !pair_lt(b, a)
}

pub proof fn lemma_lex_irreflexive(a: Seq<char>)
    ensures
        !lex_lt(a, a),
    decreases a.len(),
{
    if a.len() > 0 {
        lemma_lex_irreflexive(a.drop_first());
    }
}

pub proof fn lemma_lex_transitive(a: Seq<char>, b: Seq<char>, c: Seq<char>)
    requires
        lex_lt(a, b),
        lex_lt(b, c),
    ensures
        lex_lt(a, c),
    decreases a.len(),
{
    if a.len() > 0 && b.len() > 0 && c.len() > 0 {
        if a[0] == b[0] && b[0] == c[0] {
            lemma_lex_transitive(a.drop_first(), b.drop_first(), c.drop_first());
        }
    }
}

pub proof fn lemma_lex_total(a: Seq<char>, b: Seq<char>)
    ensures
        lex_lt(a, b) || lex_lt(b, a) || a == b,
    decreases a.len(),
{
    if a.len() > 0 && b.len() > 0 {
        if a[0] == b[0] {
            lemma_lex_total(a.drop_first(), b.drop_first());
            if a.drop_first() == b.drop_first() {
                assert(a =~= seq![a[0]] + a.drop_first());
                assert(b =~= seq![b[0]] + b.drop_first());
            }
        }
    } else if a.len() == 0 && b.len() == 0 {
        assert(a =~= b);
    }
}

pub proof fn lemma_lex_asymmetric(a: Seq<char>, b: Seq<char>)
    requires
        lex_lt(a, b),
    ensures
        !lex_lt(b, a),
{
    if lex_lt(b, a) {
        lemma_lex_transitive(a, b, a);
        lemma_lex_irreflexive(a);
    }
}

pub proof fn lemma_pair_le_transitive(
    a: (Seq<char>, Seq<char>),
    b: (Seq<char>, Seq<char>),
    c: (Seq<char>, Seq<char>),
)
    requires
        pair_le(a, b),
        pair_le(b, c),
    ensures
        pair_le(a, c),
{
    lemma_lex_total(a.0, b.0);
    lemma_lex_total(b.0, c.0);
    lemma_lex_total(a.0, c.0);
    lemma_lex_total(a.1, b.1);
    lemma_lex_total(b.1, c.1);
    lemma_lex_total(a.1, c.1);
    if pair_lt(c, a) {
        if lex_lt(c.0, a.0) {
            if lex_lt(b.0, c.0) {
                lemma_lex_transitive(b.0, c.0, a.0);
            } else if b.0 == c.0 {
            } else {
                lemma_lex_asymmetric(c.0, b.0);
            }
        } else {
            if lex_lt(a.0, b.0) {
            } else if a.0 == b.0 {
                if lex_lt(b.1, c.1) {
                    lemma_lex_transitive(b.1, c.1, a.1);
                }
            }
        }
    }
}

pub proof fn lemma_pair_lt_le(a: (Seq<char>, Seq<char>), b: (Seq<char>, Seq<char>))
    requires
        pair_lt(a, b),
    ensures
        pair_le(a, b),
{
    if pair_lt(b, a) {
        if lex_lt(a.0, b.0) {
            if lex_lt(b.0, a.0) {
                lemma_lex_asymmetric(a.0, b.0);
            } else {
                lemma_lex_irreflexive(a.0);
            }
        } else {
            if lex_lt(b.0, a.0) {
                lemma_lex_irreflexive(a.0);
            } else {
                lemma_lex_asymmetric(a.1, b.1);
            }
        }
    }
}

/// Whether `a` comes strictly before `b` in `str`'s order.
pub fn text_less(a: &str, b: &str) -> (r: bool)
    ensures
        r == lex_lt(a@, b@),
{
    let x = chars_of(a);
    let y = chars_of(b);
    let mut i: usize = 0;
    assert(x@.subrange(0, x@.len() as int) =~= x@);
    assert(y@.subrange(0, y@.len() as int) =~= y@);
    while i < x.len() && i < y.len() && x[i] == y[i]
        invariant
            i <= x.len(),
            i <= y.len(),
            x@ == a@,
            y@ == b@,
            lex_lt(a@, b@) == lex_lt(
                x@.subrange(i as int, x@.len() as int),
                y@.subrange(i as int, y@.len() as int),
            ),
        decreases x.len() - i,
    {
        let ghost xs = x@.subrange(i as int, x@.len() as int);
        let ghost ys = y@.subrange(i as int, y@.len() as int);
        assert(xs.drop_first() =~= x@.subrange(i + 1, x@.len() as int));
        assert(ys.drop_first() =~= y@.subrange(i + 1, y@.len() as int));
        i = i + 1;
    }
    if i == x.len() {
        i < y.len()
    } else if i == y.len() {
        false
    } else {
        x[i] < y[i]
    }
}

/// Something ordered by a pair of texts.
pub trait TextRanked: Sized {
    spec fn rank(&self) -> (Seq<char>, Seq<char>);

    fn ranks_before(&self, other: &Self) -> (r: bool)
        ensures
            r == pair_lt(self.rank(), other.rank()),
    ;
}

/// Ordered by rank: no element comes before an earlier one.
pub open spec fn ranked<T: TextRanked>(s: Seq<T>) -> bool {
    forall|i: int, j: int| 0 <= i < j < s.len() ==> pair_le(s[i].rank(), s[j].rank())
}

proof fn lemma_insert_keeps_ranked<T: TextRanked>(before: Seq<T>, k: int, x: T)
    requires
        ranked(before),
        0 <= k <= before.len(),
        forall|j: int| 0 <= j < k ==> pair_lt(#[trigger] before[j].rank(), x.rank()),
        k < before.len() ==> pair_le(x.rank(), before[k].rank()),
    ensures
        ranked(before.insert(k, x)),
{
    let after = before.insert(k, x);
    assert forall|a: int, b: int| 0 <= a < b < after.len() implies pair_le(after[a].rank(), after[b].rank()) by {
        if b < k {
        } else if b == k {
            assert(after[a] == before[a]);
            lemma_pair_lt_le(before[a].rank(), x.rank());
        } else if a == k {
            assert(after[b] == before[b - 1]);
            if b - 1 > k {
                lemma_pair_le_transitive(x.rank(), before[k].rank(), before[b - 1].rank());
            }
        } else if a < k {
            assert(after[b] == before[b - 1]);
            lemma_pair_lt_le(before[a].rank(), x.rank());
            if b - 1 == k {
                lemma_pair_le_transitive(before[a].rank(), x.rank(), before[k].rank());
            } else {
                lemma_pair_le_transitive(before[a].rank(), x.rank(), before[k].rank());
                lemma_pair_le_transitive(before[a].rank(), before[k].rank(), before[b - 1].rank());
            }
        } else {
            assert(after[a] == before[a - 1]);
            assert(after[b] == before[b - 1]);
        }
    }
}

/// `p` maps each position of `r` to a distinct position of `v` that holds
/// the same element, and elements of equal rank keep their order in `v`.
pub open spec fn stable_from<T: TextRanked>(r: Seq<T>, v: Seq<T>, p: Seq<int>) -> bool {
    &&& p.len() == r.len()
    &&& forall|i: int| 0 <= i < r.len() ==> 0 <= #[trigger] p[i] < v.len() && r[i] == v[p[i]]
    &&& forall|i: int, j: int| 0 <= i < j < r.len() ==> #[trigger] p[i] != #[trigger] p[j]
    &&& forall|i: int, j: int|
        0 <= i < j < r.len() && (#[trigger] r[i]).rank() == (#[trigger] r[j]).rank() ==> p[i] < p[j]
}

/// `r` holds elements of `v`, with elements of equal rank in their order in
/// `v`: a stable reordering.
pub open spec fn stably_ordered<T: TextRanked>(r: Seq<T>, v: Seq<T>) -> bool {
    exists|p: Seq<int>| stable_from(r, v, p)
}

/// Sorts by rank, stably: the result holds the same elements, in rank order,
/// and elements of equal rank keep their input order.
pub fn sort_ranked<T: TextRanked>(v: Vec<T>) -> (r: Vec<T>)
    ensures
        r@.to_multiset() == v@.to_multiset(),
        ranked(r@),
        stably_ordered(r@, v@),
{
    broadcast use vstd::seq_lib::group_to_multiset_ensures;
    broadcast use vstd::multiset::group_multiset_axioms;

    let ghost original = v@;
    let ghost mut idx: Seq<int> = Seq::empty();
    let mut out: Vec<T> = Vec::new();
    let mut rest = v;
    assert(out@.to_multiset().add(rest@.to_multiset()) =~= original.to_multiset());
    assert(rest@ =~= original.subrange(0, rest@.len() as int));
    while rest.len() > 0
        invariant
            out@.to_multiset().add(rest@.to_multiset()) == original.to_multiset(),
            ranked(out@),
            rest@ == original.subrange(0, rest@.len() as int),
            rest@.len() <= original.len(),
            idx.len() == out@.len(),
            forall|i: int|
                0 <= i < out@.len() ==> rest@.len() <= #[trigger] idx[i] < original.len()
                    && out@[i] == original[idx[i]],
            forall|i: int, j: int| 0 <= i < j < out@.len() ==> #[trigger] idx[i] != #[trigger] idx[j],
            forall|i: int, j: int|
                0 <= i < j < out@.len() && (#[trigger] out@[i]).rank() == (#[trigger] out@[j]).rank()
                    ==> idx[i] < idx[j],
        decreases rest.len(),
    {
        let ghost before_rest = rest@;
        let x = rest.pop().unwrap();
        assert(before_rest =~= rest@.push(x));
        let ghost n = rest@.len() as int;
        assert(x == original[n]);
        assert(rest@ =~= original.subrange(0, n));
        let mut k: usize = 0;
        while k < out.len() && out[k].ranks_before(&x)
            invariant
                k <= out.len(),
                forall|j: int| 0 <= j < k ==> pair_lt(#[trigger] out@[j].rank(), x.rank()),
            decreases out.len() - k,
        {
            k = k + 1;
        }
        let ghost before = out@;
        let ghost old_idx = idx;
        proof {
            if k < before.len() {
                assert(!pair_lt(before[k as int].rank(), x.rank()));
            }
            lemma_insert_keeps_ranked(before, k as int, x);
            vstd::seq_lib::to_multiset_insert(before, k as int, x);
        }
        proof {
            vstd::seq_lib::to_multiset_build(rest@, x);
        }
        out.insert(k, x);
        proof {
            idx = old_idx.insert(k as int, n);
        }
        assert(out@ =~= before.insert(k as int, x));
        assert(out@.to_multiset().add(rest@.to_multiset()) =~= original.to_multiset());
        proof {
            assert forall|i: int| 0 <= i < out@.len() implies rest@.len() <= #[trigger] idx[i]
                < original.len() && out@[i] == original[idx[i]] by {
                if i < k {
                    assert(idx[i] == old_idx[i]);
                } else if i > k {
                    assert(idx[i] == old_idx[i - 1]);
                }
            }
            assert forall|i: int, j: int| 0 <= i < j < out@.len() implies #[trigger] idx[i]
                != #[trigger] idx[j] by {
                if i < k && j > k {
                    assert(idx[j] == old_idx[j - 1]);
                } else if i > k {
                    assert(idx[i] == old_idx[i - 1]);
                    assert(idx[j] == old_idx[j - 1]);
                } else if i == k {
                    assert(idx[j] == old_idx[j - 1]);
                } else if j == k {
                    assert(idx[i] == old_idx[i]);
                } else {
                    assert(idx[i] == old_idx[i]);
                    assert(idx[j] == old_idx[j]);
                }
            }
            assert forall|i: int, j: int|
                0 <= i < j < out@.len() && (#[trigger] out@[i]).rank() == (#[trigger] out@[j]).rank()
                implies idx[i] < idx[j] by {
                if j == k {
                    assert(out@[i] == before[i]);
                    assert(pair_lt(before[i].rank(), x.rank()));
                    lemma_lex_irreflexive(x.rank().0);
                    lemma_lex_irreflexive(x.rank().1);
                    assert(false);
                } else if i == k {
                    assert(idx[j] == old_idx[j - 1]);
                } else if i < k && j > k {
                    assert(idx[i] == old_idx[i]);
                    assert(idx[j] == old_idx[j - 1]);
                    assert(out@[i] == before[i]);
                    assert(out@[j] == before[j - 1]);
                } else if i > k {
                    assert(idx[i] == old_idx[i - 1]);
                    assert(idx[j] == old_idx[j - 1]);
                    assert(out@[i] == before[i - 1]);
                    assert(out@[j] == before[j - 1]);
                } else {
                    assert(idx[i] == old_idx[i]);
                    assert(idx[j] == old_idx[j]);
                    assert(out@[i] == before[i]);
                    assert(out@[j] == before[j]);
                }
            }
        }
    }
    assert(stable_from(out@, original, idx));
    out
}

} // verus!
