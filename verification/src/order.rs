//! Lexicographic ordering of strings by character code, and a sort for the
//! preview lines, specified as: the result is ordered and holds the same
//! multiset of strings as the input.

use vstd::multiset::Multiset;
use vstd::prelude::*;
use vstd::relations::{sorted_by, total_ordering};

verus! {

/// `a` is lexicographically at most `b`, comparing character codes; a proper
/// prefix comes first.  On ASCII text this is the order `str::cmp` gives.
pub open spec fn spec_lex_le(a: Seq<char>, b: Seq<char>) -> bool
    decreases a.len(),
{
    if a.len() == 0 {
        true
    } else if b.len() == 0 {
        false
    } else if (a[0] as int) < (b[0] as int) {
        true
    } else if (b[0] as int) < (a[0] as int) {
        false
    } else {
        spec_lex_le(a.drop_first(), b.drop_first())
    }
}

/// The lexicographic order as a relation value, for `sorted_by`.
pub open spec fn lex_leq() -> spec_fn(Seq<char>, Seq<char>) -> bool {
    |a: Seq<char>, b: Seq<char>| spec_lex_le(a, b)
}

pub proof fn lemma_lex_le_refl(a: Seq<char>)
    ensures
        spec_lex_le(a, a),
    decreases a.len(),
{
    if a.len() > 0 {
        lemma_lex_le_refl(a.drop_first());
    }
}

pub proof fn lemma_lex_le_total(a: Seq<char>, b: Seq<char>)
    ensures
        spec_lex_le(a, b) || spec_lex_le(b, a),
    decreases a.len(),
{
    if a.len() > 0 && b.len() > 0 && a[0] == b[0] {
        lemma_lex_le_total(a.drop_first(), b.drop_first());
    }
}

pub proof fn lemma_lex_le_antisymmetric(a: Seq<char>, b: Seq<char>)
    requires
        spec_lex_le(a, b),
        spec_lex_le(b, a),
    ensures
        a == b,
    decreases a.len(),
{
    if a.len() > 0 && b.len() > 0 {
        lemma_lex_le_antisymmetric(a.drop_first(), b.drop_first());
        assert(a =~= seq![a[0]] + a.drop_first());
        assert(b =~= seq![b[0]] + b.drop_first());
    } else {
        assert(a =~= b);
    }
}

pub proof fn lemma_lex_le_transitive(a: Seq<char>, b: Seq<char>, c: Seq<char>)
    requires
        spec_lex_le(a, b),
        spec_lex_le(b, c),
    ensures
        spec_lex_le(a, c),
    decreases a.len(),
{
    if a.len() > 0 && b.len() > 0 && c.len() > 0 {
        if a[0] == b[0] && b[0] == c[0] {
            lemma_lex_le_transitive(a.drop_first(), b.drop_first(), c.drop_first());
        }
    }
}

/// The lexicographic order is a total ordering.
pub proof fn lemma_lex_leq_total_ordering()
    ensures
        total_ordering(lex_leq()),
{
    let leq = lex_leq();
    assert forall|a: Seq<char>| #[trigger] leq(a, a) by {
        lemma_lex_le_refl(a);
    }
    assert forall|a: Seq<char>, b: Seq<char>| #[trigger] leq(a, b) && #[trigger] leq(b, a)
        implies a == b by {
        lemma_lex_le_antisymmetric(a, b);
    }
    assert forall|a: Seq<char>, b: Seq<char>, c: Seq<char>|
        #[trigger] leq(a, b) && #[trigger] leq(b, c) implies leq(a, c) by {
        lemma_lex_le_transitive(a, b, c);
    }
    assert forall|a: Seq<char>, b: Seq<char>| #[trigger] leq(a, b) || #[trigger] leq(b, a) by {
        lemma_lex_le_total(a, b);
    }
}

/// Whether `a` comes at or before `b` in lexicographic order.
pub fn str_lex_le(a: &str, b: &str) -> (r: bool)
    ensures
        r == spec_lex_le(a@, b@),
{
    let alen = a.unicode_len();
    let blen = b.unicode_len();
    let mut i: usize = 0;
    proof {
        assert(a@.skip(0) =~= a@);
        assert(b@.skip(0) =~= b@);
    }
    loop
        invariant
            alen == a@.len(),
            blen == b@.len(),
            i <= alen,
            i <= blen,
            spec_lex_le(a@, b@) == spec_lex_le(a@.skip(i as int), b@.skip(i as int)),
        decreases alen - i,
    {
        if i >= alen {
            proof {
                assert(a@.skip(i as int).len() == 0);
            }
            return true;
        }
        if i >= blen {
            proof {
                assert(b@.skip(i as int).len() == 0);
                assert(a@.skip(i as int).len() > 0);
            }
            return false;
        }
        let ca = a.get_char(i);
        let cb = b.get_char(i);
        proof {
            assert(a@.skip(i as int)[0] == a@[i as int]);
            assert(b@.skip(i as int)[0] == b@[i as int]);
        }
        if (ca as u32) < (cb as u32) {
            return true;
        }
        if (cb as u32) < (ca as u32) {
            return false;
        }
        proof {
            assert(a@.skip(i as int).drop_first() =~= a@.skip(i + 1));
            assert(b@.skip(i as int).drop_first() =~= b@.skip(i + 1));
        }
        i = i + 1;
    }
}

fn insert_sorted(r: &mut Vec<String>, x: String)
    requires
        sorted_by(old(r).deep_view(), lex_leq()),
    ensures
        sorted_by(final(r).deep_view(), lex_leq()),
        final(r).deep_view().to_multiset() == old(r).deep_view().to_multiset().insert(x@),
{
    let ghost dv = r.deep_view();
    let mut j: usize = 0;
    while j < r.len() && str_lex_le(r[j].as_str(), x.as_str())
        invariant
            dv == r.deep_view(),
            j <= r@.len(),
            forall|k: int| 0 <= k < j ==> spec_lex_le(#[trigger] dv[k], x@),
        decreases r@.len() - j,
    {
        j = j + 1;
    }
    let ghost gj = j as int;
    r.insert(j, x);
    proof {
        let dv2 = r.deep_view();
        assert(dv2 =~= dv.insert(gj, x@));
        assert(forall|t: int| 0 <= t < gj ==> #[trigger] dv2[t] == dv[t]);
        assert(dv2[gj] == x@);
        assert(forall|t: int| gj < t < dv2.len() ==> #[trigger] dv2[t] == dv[t - 1]);
        // the new element fits between what is before and after position gj
        assert forall|k: int| gj <= k < dv.len() implies spec_lex_le(x@, #[trigger] dv[k]) by {
            assert(!spec_lex_le(dv[gj], x@));
            lemma_lex_le_total(dv[gj], x@);
            if gj < k {
                assert(lex_leq()(dv[gj], dv[k]));
                assert(spec_lex_le(dv[gj], dv[k]));
            } else {
                lemma_lex_le_refl(dv[gj]);
            }
            lemma_lex_le_transitive(x@, dv[gj], dv[k]);
        }
        assert forall|p: int, q: int| 0 <= p < q < dv2.len() implies #[trigger] lex_leq()(
            dv2[p],
            dv2[q],
        ) by {
            if p < gj && q < gj {
                assert(lex_leq()(dv[p], dv[q]));
            } else if p < gj && q == gj {
                assert(spec_lex_le(dv[p], x@));
            } else if p < gj && q > gj {
                assert(lex_leq()(dv[p], dv[q - 1]));
            } else if p == gj {
                assert(spec_lex_le(x@, dv[q - 1]));
            } else {
                assert(lex_leq()(dv[p - 1], dv[q - 1]));
            }
        }
        // multiset: slicing around the insertion point
        assert(dv2 =~= dv.take(gj) + seq![x@] + dv.skip(gj));
        assert(dv =~= dv.take(gj) + dv.skip(gj));
        vstd::seq_lib::lemma_multiset_commutative(dv.take(gj) + seq![x@], dv.skip(gj));
        vstd::seq_lib::lemma_multiset_commutative(dv.take(gj), seq![x@]);
        vstd::seq_lib::lemma_multiset_commutative(dv.take(gj), dv.skip(gj));
        assert(seq![x@].to_multiset() =~= Multiset::<Seq<char>>::empty().insert(x@)) by {
            assert(seq![x@].drop_first() =~= Seq::<Seq<char>>::empty());
            broadcast use vstd::seq_lib::group_to_multiset_ensures;

        }
        assert(dv2.to_multiset() =~= dv.to_multiset().insert(x@));
    }
}

/// Sorts the strings lexicographically: the result is ordered and holds the
/// same strings, with multiplicity, as the input.
pub fn sort_strings(v: &Vec<String>) -> (r: Vec<String>)
    ensures
        sorted_by(r.deep_view(), lex_leq()),
        r.deep_view().to_multiset() == v.deep_view().to_multiset(),
{
    let ghost dv = v.deep_view();
    let mut r: Vec<String> = Vec::new();
    let mut i: usize = 0;
    proof {
        assert(r.deep_view() =~= Seq::<Seq<char>>::empty());
        broadcast use vstd::seq_lib::group_to_multiset_ensures;

        assert(dv.take(0) =~= Seq::<Seq<char>>::empty());
        assert(r.deep_view().to_multiset() =~= dv.take(0).to_multiset());
    }
    while i < v.len()
        invariant
            i <= v@.len(),
            dv == v.deep_view(),
            sorted_by(r.deep_view(), lex_leq()),
            r.deep_view().to_multiset() == dv.take(i as int).to_multiset(),
        decreases v@.len() - i,
    {
        let x = v[i].clone();
        proof {
            assert(x@ == dv[i as int]);
        }
        insert_sorted(&mut r, x);
        proof {
            assert(dv.take(i + 1) =~= dv.take(i as int).push(dv[i as int]));
            broadcast use vstd::seq_lib::group_to_multiset_ensures;

            assert(dv.take(i + 1).to_multiset() =~= dv.take(i as int).to_multiset().insert(
                dv[i as int],
            ));
        }
        i = i + 1;
    }
    proof {
        assert(dv.take(v@.len() as int) =~= dv);
    }
    r
}

} // verus!
