//! The order of `str` and `String` values (`Ord`), which compares UTF-8
//! bytes and therefore agrees with comparing the characters' code points one
//! by one, and a sort by that order.
use vstd::prelude::*;
use vstd::relations::{sorted_by, total_ordering};

verus! {

/// `a <= b` in the lexicographic order of code points.
pub open spec fn lex_le(a: Seq<char>, b: Seq<char>) -> bool
    decreases a.len(),
{
    if a.len() == 0 {
        true
    } else if b.len() == 0 {
        false
    } else if a[0] < b[0] {
        true
    } else if a[0] > b[0] {
        false
    } else {
        lex_le(a.drop_first(), b.drop_first())
    }
}

pub open spec fn lex_le_fn() -> spec_fn(Seq<char>, Seq<char>) -> bool {
    |a: Seq<char>, b: Seq<char>| lex_le(a, b)
}

proof fn lemma_lex_reflexive(a: Seq<char>)
    ensures
        lex_le(a, a),
    decreases a.len(),
{
    if a.len() > 0 {
        lemma_lex_reflexive(a.drop_first());
    }
}

proof fn lemma_lex_antisymmetric(a: Seq<char>, b: Seq<char>)
    requires
        lex_le(a, b),
        lex_le(b, a),
    ensures
        a == b,
    decreases a.len(),
{
    if a.len() > 0 && b.len() > 0 {
        lemma_lex_antisymmetric(a.drop_first(), b.drop_first());
        assert(a =~= seq![a[0]] + a.drop_first());
        assert(b =~= seq![b[0]] + b.drop_first());
    }
}

proof fn lemma_lex_transitive(a: Seq<char>, b: Seq<char>, c: Seq<char>)
    requires
        lex_le(a, b),
        lex_le(b, c),
    ensures
        lex_le(a, c),
    decreases a.len(),
{
    if a.len() > 0 && b.len() > 0 && c.len() > 0 {
        if a[0] == b[0] && b[0] == c[0] {
            lemma_lex_transitive(a.drop_first(), b.drop_first(), c.drop_first());
        }
    }
}

proof fn lemma_lex_total(a: Seq<char>, b: Seq<char>)
    ensures
        lex_le(a, b) || lex_le(b, a),
    decreases a.len(),
{
    if a.len() > 0 && b.len() > 0 {
        lemma_lex_total(a.drop_first(), b.drop_first());
    }
}

/// The lexicographic order is a total order.
pub proof fn lemma_lex_total_ordering()
    ensures
        total_ordering(lex_le_fn()),
{
    assert forall|a: Seq<char>| #[trigger] (lex_le_fn())(a, a) by {
        lemma_lex_reflexive(a);
    }
    assert forall|a: Seq<char>, b: Seq<char>|
        #[trigger] (lex_le_fn())(a, b) && #[trigger] (lex_le_fn())(b, a) implies a == b by {
        lemma_lex_antisymmetric(a, b);
    }
    assert forall|a: Seq<char>, b: Seq<char>, c: Seq<char>|
        #[trigger] (lex_le_fn())(a, b) && #[trigger] (lex_le_fn())(b, c) implies (lex_le_fn())(
        a,
        c,
    ) by {
        lemma_lex_transitive(a, b, c);
    }
    assert forall|a: Seq<char>, b: Seq<char>|
        #[trigger] (lex_le_fn())(a, b) || #[trigger] (lex_le_fn())(b, a) by {
        lemma_lex_total(a, b);
    }
}

/// `a <= b` for character vectors.
pub fn lex_le_exec(a: &Vec<char>, b: &Vec<char>) -> (r: bool)
    ensures
        r == lex_le(a@, b@),
{
    let mut i: usize = 0;
    proof {
        assert(a@.skip(0) =~= a@);
        assert(b@.skip(0) =~= b@);
    }
    while i < a.len() && i < b.len() && a[i] == b[i]
        invariant
            i <= a.len(),
            i <= b.len(),
            lex_le(a@.skip(i as int), b@.skip(i as int)) == lex_le(a@, b@),
        decreases a.len() - i,
    {
        proof {
            assert(a@.skip(i as int).drop_first() =~= a@.skip(i + 1));
            assert(b@.skip(i as int).drop_first() =~= b@.skip(i + 1));
        }
        i += 1;
    }
    if i == a.len() {
        true
    } else if i == b.len() {
        false
    } else {
        a[i] < b[i]
    }
}

/// Sorts character vectors into the lexicographic order (as `slice::sort`
/// does for strings): the result is the sorted arrangement of the input.
pub fn sort_lex(v: &Vec<Vec<char>>) -> (r: Vec<Vec<char>>)
    ensures
        r.deep_view() == v.deep_view().sort_by(lex_le_fn()),
        sorted_by(r.deep_view(), lex_le_fn()),
        r.deep_view().to_multiset() == v.deep_view().to_multiset(),
{
    broadcast use vstd::seq_lib::group_to_multiset_ensures;

    proof {
        lemma_lex_total_ordering();
    }
    let mut r: Vec<Vec<char>> = Vec::new();
    let mut i: usize = 0;
    while i < v.len()
        invariant
            i <= v.len(),
            total_ordering(lex_le_fn()),
            sorted_by(r.deep_view(), lex_le_fn()),
            r.deep_view().to_multiset() == v.deep_view().take(i as int).to_multiset(),
        decreases v.len() - i,
    {
        let x = v[i].clone();
        proof {
            assert(x@ =~= v@[i as int]@);
            crate::text::lemma_deep_view_chars(&x);
        }
        let ghost old_r = r.deep_view();
        let mut p: usize = 0;
        while p < r.len() && lex_le_exec(&r[p], &x)
            invariant
                p <= r.len(),
                r.deep_view() == old_r,
                forall|j: int| 0 <= j < p ==> lex_le(#[trigger] old_r[j], x@),
            decreases r.len() - p,
        {
            proof {
                crate::text::lemma_deep_view_chars(&r[p as int]);
            }
            p += 1;
        }
        proof {
            if p < r.len() {
                crate::text::lemma_deep_view_chars(&r[p as int]);
                assert(!lex_le(old_r[p as int], x@));
                lemma_lex_total(old_r[p as int], x@);
            }
        }
        r.insert(p, x);
        proof {
            let nr = r.deep_view();
            assert(nr =~= old_r.insert(p as int, x@));
            assert forall|a: int, b: int| 0 <= a < b < nr.len() implies #[trigger] lex_le(
                nr[a],
                nr[b],
            ) by {
                if b < p {
                    assert((lex_le_fn())(old_r[a], old_r[b]));
                } else if a > p {
                    assert((lex_le_fn())(old_r[a - 1], old_r[b - 1]));
                } else if a == p {
                    if b - 1 > p {
                        assert((lex_le_fn())(old_r[p as int], old_r[b - 1]));
                        lemma_lex_transitive(x@, old_r[p as int], old_r[b - 1]);
                    }
                } else if b == p {
                } else {
                    assert((lex_le_fn())(old_r[a], old_r[b - 1]));
                }
            }
            assert(sorted_by(nr, lex_le_fn()));
            crate::text::lemma_deep_view_chars(&v@[i as int]);
            assert(v.deep_view().take(i + 1) =~= v.deep_view().take(i as int).push(x@));
            vstd::seq_lib::to_multiset_build(v.deep_view().take(i as int), x@);
            vstd::seq_lib::to_multiset_insert(old_r, p as int, x@);
        }
        i += 1;
    }
    proof {
        assert(v.deep_view().take(v.len() as int) =~= v.deep_view());
        v.deep_view().lemma_sort_by_ensures(lex_le_fn());
        vstd::seq_lib::lemma_sorted_unique(
            r.deep_view(),
            v.deep_view().sort_by(lex_le_fn()),
            lex_le_fn(),
        );
    }
    r
}

} // verus!
