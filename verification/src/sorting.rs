//! Sorting strings into ascending order, as `sort` on a vector of `String`
//! does (stable; equal strings are indistinguishable anyway).
use vstd::prelude::*;
use crate::config::strings_view;
use crate::passwords::{lemma_lex_asymmetric, lemma_lex_transitive, lex_less, lex_lt};
use crate::text::chars_of;

verus! {

/// `x` placed just before the first element of `s` that is greater than it.
pub open spec fn insert_sorted(s: Seq<Seq<char>>, x: Seq<char>) -> Seq<Seq<char>>
    decreases s.len(),
{
    if s.len() == 0 {
        seq![x]
    } else if lex_lt(x, s[0]) {
        seq![x] + s
    } else {
        seq![s[0]] + insert_sorted(s.drop_first(), x)
    }
}

/// `s` in ascending order.
pub open spec fn sorted_seq(s: Seq<Seq<char>>) -> Seq<Seq<char>>
    decreases s.len(),
{
    if s.len() == 0 {
        s
    } else {
        insert_sorted(sorted_seq(s.drop_last()), s.last())
    }
}

/// No element is greater than one after it.
pub open spec fn ascending(s: Seq<Seq<char>>) -> bool {
    forall|i: int, j: int| 0 <= i < j < s.len() ==> !lex_lt(#[trigger] s[j], #[trigger] s[i])
}

proof fn lemma_insert_sorted_at(s: Seq<Seq<char>>, x: Seq<char>, j: int)
    requires
        0 <= j <= s.len(),
        forall|k: int| 0 <= k < j ==> !lex_lt(x, #[trigger] s[k]),
        j == s.len() || lex_lt(x, s[j]),
    ensures
        insert_sorted(s, x) == s.insert(j, x),
    decreases s.len(),
{
    if s.len() == 0 {
        assert(s.insert(j, x) =~= seq![x]);
    } else if j == 0 {
        assert(s.insert(0, x) =~= seq![x] + s);
    } else {
        assert(!lex_lt(x, s[0]));
        assert forall|k: int| 0 <= k < j - 1 implies !lex_lt(x, #[trigger] s.drop_first()[k]) by {
            assert(s.drop_first()[k] == s[k + 1]);
        }
        lemma_insert_sorted_at(s.drop_first(), x, j - 1);
        assert(seq![s[0]] + s.drop_first().insert(j - 1, x) =~= s.insert(j, x));
    }
}

/// Sorting gives an ascending sequence with the same elements, each as
/// often as before.
pub proof fn law_sorted_seq_is_ascending_permutation(s: Seq<Seq<char>>)
    ensures
        ascending(sorted_seq(s)),
        sorted_seq(s).to_multiset() == s.to_multiset(),
    decreases s.len(),
{
    broadcast use vstd::seq_lib::group_seq_properties;
    broadcast use vstd::multiset::group_multiset_axioms;
    if s.len() > 0 {
        let r = sorted_seq(s.drop_last());
        law_sorted_seq_is_ascending_permutation(s.drop_last());
        lemma_insert_keeps_ascending(r, s.last());
        lemma_insert_sorted_multiset(r, s.last());
        assert(s =~= s.drop_last().push(s.last()));
    }
}

proof fn lemma_insert_sorted_multiset(s: Seq<Seq<char>>, x: Seq<char>)
    ensures
        insert_sorted(s, x).to_multiset() == s.to_multiset().insert(x),
    decreases s.len(),
{
    broadcast use vstd::seq_lib::group_seq_properties;
    broadcast use vstd::multiset::group_multiset_axioms;
    if s.len() == 0 {
        assert(seq![x] =~= Seq::<Seq<char>>::empty().push(x));
    } else if lex_lt(x, s[0]) {
        vstd::seq_lib::lemma_multiset_commutative(seq![x], s);
        assert(seq![x].to_multiset() =~= vstd::multiset::Multiset::<Seq<char>>::empty().insert(x)) by {
            assert(seq![x] =~= Seq::<Seq<char>>::empty().push(x));
        }
        assert(insert_sorted(s, x).to_multiset() =~= s.to_multiset().insert(x));
    } else {
        lemma_insert_sorted_multiset(s.drop_first(), x);
        vstd::seq_lib::lemma_multiset_commutative(seq![s[0]], insert_sorted(s.drop_first(), x));
        vstd::seq_lib::lemma_multiset_commutative(seq![s[0]], s.drop_first());
        assert(seq![s[0]] + s.drop_first() =~= s);
        assert(insert_sorted(s, x).to_multiset() =~= s.to_multiset().insert(x));
    }
}

proof fn lemma_insert_keeps_ascending(s: Seq<Seq<char>>, x: Seq<char>)
    requires
        ascending(s),
    ensures
        ascending(insert_sorted(s, x)),
    decreases s.len(),
{
    // Find the insertion point.
    let j = first_greater(s, x);
    lemma_first_greater(s, x);
    lemma_insert_sorted_at(s, x, j);
    let r = s.insert(j, x);
    assert forall|a: int, b: int| 0 <= a < b < r.len() implies !lex_lt(
        #[trigger] r[b],
        #[trigger] r[a],
    ) by {
        if a < j && b < j {
            assert(r[a] == s[a] && r[b] == s[b]);
        } else if a < j && b == j {
            assert(r[a] == s[a]);
            assert(!lex_lt(x, s[a]));
        } else if a < j {
            assert(r[a] == s[a] && r[b] == s[b - 1]);
            assert(!lex_lt(s[b - 1], s[a]));
        } else if a == j {
            assert(r[b] == s[b - 1]);
            assert(lex_lt(x, s[j]));
            if lex_lt(s[b - 1], x) {
                if b - 1 > j {
                    assert(!lex_lt(s[b - 1], s[j]));
                    lemma_lex_transitive(s[b - 1], x, s[j]);
                } else {
                    lemma_lex_asymmetric(x, s[j]);
                }
            }
        } else {
            assert(r[a] == s[a - 1] && r[b] == s[b - 1]);
        }
    }
}

/// The position before which `insert_sorted` puts `x`.
spec fn first_greater(s: Seq<Seq<char>>, x: Seq<char>) -> int
    decreases s.len(),
{
    if s.len() == 0 {
        0
    } else if lex_lt(x, s[0]) {
        0
    } else {
        1 + first_greater(s.drop_first(), x)
    }
}

proof fn lemma_first_greater(s: Seq<Seq<char>>, x: Seq<char>)
    ensures
        0 <= first_greater(s, x) <= s.len(),
        forall|k: int| 0 <= k < first_greater(s, x) ==> !lex_lt(x, #[trigger] s[k]),
        first_greater(s, x) == s.len() || lex_lt(x, s[first_greater(s, x)]),
    decreases s.len(),
{
    if s.len() > 0 && !lex_lt(x, s[0]) {
        lemma_first_greater(s.drop_first(), x);
        assert forall|k: int| 0 <= k < first_greater(s, x) implies !lex_lt(x, #[trigger] s[k]) by {
            if k > 0 {
                assert(s[k] == s.drop_first()[k - 1]);
            }
        }
    }
}

/// The strings in ascending order.
pub fn sort_strings(v: Vec<String>) -> (r: Vec<String>)
    ensures
        strings_view(r@) == sorted_seq(strings_view(v@)),
{
    let mut r: Vec<String> = Vec::new();
    let mut keys: Vec<Vec<char>> = Vec::new();
    let mut i: usize = 0;
    while i < v.len()
        invariant
            0 <= i <= v@.len(),
            keys@.len() == r@.len(),
            forall|k: int| 0 <= k < r@.len() ==> (#[trigger] keys@[k])@ == r@[k]@,
            strings_view(r@) == sorted_seq(strings_view(v@.take(i as int))),
        decreases v@.len() - i,
    {
        let s = v[i].clone();
        let sc = chars_of(s.as_str());
        let ghost sv = strings_view(r@);
        let mut j: usize = 0;
        while j < keys.len() && !lex_less(&sc, &keys[j])
            invariant
                0 <= j <= keys@.len(),
                keys@.len() == r@.len(),
                forall|k: int| 0 <= k < r@.len() ==> (#[trigger] keys@[k])@ == r@[k]@,
                sv == strings_view(r@),
                forall|k: int| 0 <= k < j ==> !lex_lt(sc@, #[trigger] sv[k]),
            decreases keys@.len() - j,
        {
            j = j + 1;
        }
        proof {
            lemma_insert_sorted_at(sv, sc@, j as int);
            assert(strings_view(v@.take(i + 1)).drop_last() =~= strings_view(v@.take(i as int)));
            assert(strings_view(v@.take(i + 1)).last() == sc@);
        }
        let ghost old_r = r@;
        let ghost old_keys = keys@;
        r.insert(j, s);
        keys.insert(j, sc);
        proof {
            assert(strings_view(r@) =~= sv.insert(j as int, sc@));
            assert forall|k: int| 0 <= k < r@.len() implies (#[trigger] keys@[k])@ == r@[k]@ by {
                if k < j {
                    assert(keys@[k] == old_keys[k] && r@[k] == old_r[k]);
                } else if k > j {
                    assert(keys@[k] == old_keys[k - 1] && r@[k] == old_r[k - 1]);
                }
            }
        }
        i = i + 1;
    }
    proof {
        assert(v@.take(i as int) =~= v@);
    }
    r
}

} // verus!
