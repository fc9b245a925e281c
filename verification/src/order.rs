//! Stable sorting, and the lexicographic order of texts.

use vstd::prelude::*;

verus! {

/// Lexicographic order by character code.
pub open spec fn lex_le(a: Seq<char>, b: Seq<char>) -> bool
    decreases a.len(),
{
    if a.len() == 0 {
        true
    } else if b.len() == 0 {
        false
    } else if a[0] != b[0] {
        a[0] < b[0]
    } else {
        lex_le(a.drop_first(), b.drop_first())
    }
}

pub proof fn lemma_lex_total(a: Seq<char>, b: Seq<char>)
    ensures
        lex_le(a, b) || lex_le(b, a),
    decreases a.len(),
{
    if a.len() > 0 && b.len() > 0 && a[0] == b[0] {
        lemma_lex_total(a.drop_first(), b.drop_first());
    }
}

pub proof fn lemma_lex_trans(a: Seq<char>, b: Seq<char>, c: Seq<char>)
    requires
        lex_le(a, b),
        lex_le(b, c),
    ensures
        lex_le(a, c),
    decreases a.len(),
{
    if a.len() > 0 && b.len() > 0 && c.len() > 0 && a[0] == b[0] && b[0] == c[0] {
        lemma_lex_trans(a.drop_first(), b.drop_first(), c.drop_first());
    }
}

pub fn lex_leq(a: &[char], b: &[char]) -> (r: bool)
    ensures
        r == lex_le(a@, b@),
{
    let mut i: usize = 0;
    proof {
        assert(a@.subrange(0, a@.len() as int) =~= a@);
        assert(b@.subrange(0, b@.len() as int) =~= b@);
    }
    while i < a.len() && i < b.len()
        invariant
            i <= a@.len(),
            i <= b@.len(),
            lex_le(a@, b@) == lex_le(
                a@.subrange(i as int, a@.len() as int),
                b@.subrange(i as int, b@.len() as int),
            ),
        decreases a@.len() - i,
    {
        proof {
            let x = a@.subrange(i as int, a@.len() as int);
            let y = b@.subrange(i as int, b@.len() as int);
            assert(x[0] == a@[i as int] && y[0] == b@[i as int]);
            assert(x.drop_first() =~= a@.subrange(i + 1, a@.len() as int));
            assert(y.drop_first() =~= b@.subrange(i + 1, b@.len() as int));
        }
        if a[i] != b[i] {
            return a[i] < b[i];
        }
        i = i + 1;
    }
    i == a.len()
}

/// A total preorder on the values of a type.
pub trait Ranked: Sized {
    spec fn rank_le(a: Self, b: Self) -> bool;

    fn leq(a: &Self, b: &Self) -> (r: bool)
        ensures
            r == Self::rank_le(*a, *b),
    ;

    proof fn rank_total(a: Self, b: Self)
        ensures
            Self::rank_le(a, b) || Self::rank_le(b, a),
    ;

    proof fn rank_trans(a: Self, b: Self, c: Self)
        requires
            Self::rank_le(a, b),
            Self::rank_le(b, c),
        ensures
            Self::rank_le(a, c),
    ;
}

/// `x` placed after the last element of `s` that does not exceed it.
pub open spec fn placed<T: Ranked>(s: Seq<T>, x: T) -> Seq<T>
    decreases s.len(),
{
    if s.len() == 0 || T::rank_le(s.last(), x) {
        s.push(x)
    } else {
        placed(s.drop_last(), x).push(s.last())
    }
}

/// The stable ascending arrangement of `s`.
pub open spec fn ranked<T: Ranked>(s: Seq<T>) -> Seq<T>
    decreases s.len(),
{
    if s.len() == 0 {
        s
    } else {
        placed(ranked(s.drop_last()), s.last())
    }
}

pub open spec fn ascending<T: Ranked>(s: Seq<T>) -> bool {
    forall|i: int, j: int| 0 <= i <= j < s.len() ==> T::rank_le(#[trigger] s[i], #[trigger] s[j])
}

pub proof fn lemma_placed<T: Ranked>(s: Seq<T>, x: T)
    requires
        ascending(s),
    ensures
        ascending(placed(s, x)),
        placed(s, x).len() == s.len() + 1,
        placed(s, x).to_multiset() == s.to_multiset().insert(x),
        forall|i: int|
            0 <= i < placed(s, x).len() ==> #[trigger] placed(s, x)[i] == x || s.contains(
                placed(s, x)[i],
            ),
    decreases s.len(),
{
    broadcast use vstd::seq_lib::group_to_multiset_ensures;

    let r = placed(s, x);
    T::rank_total(x, x);
    if s.len() == 0 || T::rank_le(s.last(), x) {
        assert forall|i: int, j: int| 0 <= i <= j < r.len() implies T::rank_le(
            #[trigger] r[i],
            #[trigger] r[j],
        ) by {
            if j == s.len() && i < s.len() {
                assert(T::rank_le(s[i], s[s.len() - 1]));
                T::rank_trans(s[i], s.last(), x);
            }
        }
        assert forall|i: int| 0 <= i < r.len() implies #[trigger] r[i] == x || s.contains(r[i]) by {
            if i < s.len() {
                assert(s[i] == r[i]);
            }
        }
    } else {
        let t = s.drop_last();
        T::rank_total(s.last(), x);
        assert forall|i: int, j: int| 0 <= i <= j < t.len() implies T::rank_le(
            #[trigger] t[i],
            #[trigger] t[j],
        ) by {
            assert(t[i] == s[i] && t[j] == s[j]);
        }
        lemma_placed(t, x);
        let q = placed(t, x);
        assert forall|i: int| 0 <= i < r.len() implies #[trigger] r[i] == x || s.contains(r[i]) by {
            if i < q.len() {
                assert(r[i] == q[i]);
                if q[i] != x {
                    let k = choose|k: int| 0 <= k < t.len() && t[k] == q[i];
                    assert(s[k] == q[i]);
                }
            } else {
                assert(r[i] == s[s.len() - 1]);
            }
        }
        T::rank_total(s.last(), s.last());
        assert forall|i: int, j: int| 0 <= i <= j < r.len() implies T::rank_le(
            #[trigger] r[i],
            #[trigger] r[j],
        ) by {
            if j == q.len() && i < q.len() {
                assert(r[i] == q[i]);
                if q[i] != x {
                    let k = choose|k: int| 0 <= k < t.len() && t[k] == q[i];
                    assert(s[k] == q[i]);
                    assert(T::rank_le(s[k], s[s.len() - 1]));
                }
            } else if j < q.len() {
                assert(r[i] == q[i] && r[j] == q[j]);
            }
        }
        assert(s =~= t.push(s.last()));
        assert(r.to_multiset() =~= s.to_multiset().insert(x));
    }
}

/// Sorting arranges exactly the same elements in ascending order.
pub proof fn law_ranked_sorts<T: Ranked>(s: Seq<T>)
    ensures
        ascending(ranked(s)),
        ranked(s).len() == s.len(),
        ranked(s).to_multiset() == s.to_multiset(),
    decreases s.len(),
{
    broadcast use vstd::seq_lib::group_to_multiset_ensures;

    if s.len() > 0 {
        law_ranked_sorts(s.drop_last());
        lemma_placed(ranked(s.drop_last()), s.last());
        assert(s =~= s.drop_last().push(s.last()));
    }
}

/// Sorting neither adds, drops nor repeats elements.
pub proof fn lemma_ranked_members<T: Ranked>(s: Seq<T>)
    ensures
        forall|x: T| ranked(s).contains(x) <==> #[trigger] s.contains(x),
        s.no_duplicates() ==> ranked(s).no_duplicates(),
{
    broadcast use vstd::seq_lib::group_to_multiset_ensures;

    law_ranked_sorts(s);
    let r = ranked(s);
    assert forall|x: T| r.contains(x) <==> #[trigger] s.contains(x) by {
        assert(r.to_multiset().count(x) == s.to_multiset().count(x));
    }
    if s.no_duplicates() {
        s.lemma_multiset_has_no_duplicates();
        r.lemma_multiset_has_no_duplicates_conv();
    }
}

/// Where an element is placed: behind the first `k`, if all others exceed it.
proof fn lemma_placed_at<T: Ranked>(s: Seq<T>, x: T, k: int)
    requires
        0 <= k <= s.len(),
        forall|i: int| k <= i < s.len() ==> !T::rank_le(#[trigger] s[i], x),
        k > 0 ==> T::rank_le(s[k - 1], x),
    ensures
        placed(s, x) == s.insert(k, x),
    decreases s.len(),
{
    if k == s.len() {
        assert(s.insert(k, x) =~= s.push(x));
    } else {
        let rest = s.drop_last();
        assert forall|i: int| k <= i < rest.len() implies !T::rank_le(#[trigger] rest[i], x) by {
            assert(rest[i] == s[i]);
        }
        assert(!T::rank_le(s[s.len() - 1], x));
        lemma_placed_at(rest, x, k);
        assert(rest.insert(k, x).push(s.last()) =~= s.insert(k, x));
    }
}

fn place<T: Ranked>(v: &mut Vec<T>, x: T)
    ensures
        final(v)@ == placed(old(v)@, x),
{
    let mut k: usize = v.len();
    while k > 0 && !T::leq(&v[k - 1], &x)
        invariant
            k <= v@.len(),
            v@ == old(v)@,
            forall|i: int| k <= i < v@.len() ==> !T::rank_le(#[trigger] v@[i], x),
        decreases k,
    {
        k = k - 1;
    }
    proof {
        lemma_placed_at(v@, x, k as int);
    }
    v.insert(k, x);
}

/// Stable sort, in ascending rank.
pub fn sort<T: Ranked>(v: Vec<T>) -> (r: Vec<T>)
    ensures
        r@ == ranked(v@),
{
    let mut rest = v;
    let ghost whole = rest@;
    let mut taken: Vec<T> = Vec::new();
    // Reversed first, so that elements come off the end in their order.
    while rest.len() > 0
        invariant
            taken@.len() + rest@.len() == whole.len(),
            rest@ == whole.subrange(0, rest@.len() as int),
            forall|k: int| 0 <= k < taken@.len() ==> taken@[k] == whole[whole.len() - 1 - k],
        decreases rest@.len(),
    {
        let ghost before = rest@;
        match rest.pop() {
            Some(x) => {
                taken.push(x);
                proof {
                    assert(rest@ =~= whole.subrange(0, rest@.len() as int));
                }
            },
            None => {},
        }
    }
    let mut out: Vec<T> = Vec::new();
    while taken.len() > 0
        invariant
            out@.len() + taken@.len() == whole.len(),
            forall|k: int| 0 <= k < taken@.len() ==> taken@[k] == whole[whole.len() - 1 - k],
            out@ == ranked(whole.subrange(0, whole.len() - taken@.len())),
        decreases taken@.len(),
    {
        let ghost m = whole.len() - taken@.len();
        proof {
            law_ranked_sorts(whole.subrange(0, m as int));
            assert(whole.subrange(0, m + 1).drop_last() =~= whole.subrange(0, m as int));
            law_ranked_sorts(whole.subrange(0, m + 1));
        }
        match taken.pop() {
            Some(x) => {
                place(&mut out, x);
            },
            None => {},
        }
    }
    proof {
        assert(whole.subrange(0, whole.len() as int) =~= whole);
    }
    out
}

} // verus!
