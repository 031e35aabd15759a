//! The saved password list: each password once, in ascending order.
use vstd::prelude::*;
use crate::config::{chars_eq, strings_view};
use crate::text::chars_of;

verus! {

/// The order of `String`: lexicographic by characters, compared by their
/// code points (the order of their UTF-8 bytes, which is what `Ord` for
/// `str` compares).
pub open spec fn lex_lt(a: Seq<char>, b: Seq<char>) -> bool
    decreases a.len(),
{
    if a.len() == 0 {
        b.len() > 0
    } else if b.len() == 0 {
        false
    } else if a[0] < b[0] {
        true
    } else if a[0] == b[0] {
        lex_lt(a.drop_first(), b.drop_first())
    } else {
        false
    }
}

/// Every element is smaller than the ones after it: ascending, and nothing
/// occurs twice.
pub open spec fn strictly_sorted(s: Seq<Seq<char>>) -> bool {
    forall|i: int, j: int| 0 <= i < j < s.len() ==> lex_lt(#[trigger] s[i], #[trigger] s[j])
}

pub proof fn lemma_lex_irreflexive(a: Seq<char>)
    ensures
        !lex_lt(a, a),
    decreases a.len(),
{
    if a.len() > 0 {
        lemma_lex_irreflexive(a.drop_first());
    }
}

pub proof fn lemma_lex_transitive(a: Seq<char>, b: Seq<char>, c: Seq<char>)
    requires
        lex_lt(a, b),
        lex_lt(b, c),
    ensures
        lex_lt(a, c),
    decreases a.len(),
{
    if a.len() > 0 && b.len() > 0 && c.len() > 0 && a[0] == b[0] && b[0] == c[0] {
        lemma_lex_transitive(a.drop_first(), b.drop_first(), c.drop_first());
    }
}

pub proof fn lemma_lex_total(a: Seq<char>, b: Seq<char>)
    ensures
        a == b || lex_lt(a, b) || lex_lt(b, a),
    decreases a.len(),
{
    if a.len() > 0 && b.len() > 0 && a[0] == b[0] {
        lemma_lex_total(a.drop_first(), b.drop_first());
        if a.drop_first() == b.drop_first() {
            assert(a =~= seq![a[0]] + a.drop_first());
            assert(b =~= seq![b[0]] + b.drop_first());
        }
    } else if a.len() == 0 && b.len() == 0 {
        assert(a =~= b);
    }
}

pub proof fn lemma_lex_asymmetric(a: Seq<char>, b: Seq<char>)
    requires
        lex_lt(a, b),
    ensures
        !lex_lt(b, a),
{
    if lex_lt(b, a) {
        lemma_lex_transitive(a, b, a);
        lemma_lex_irreflexive(a);
    }
}

/// Two strictly sorted sequences with the same elements are the same
/// sequence: the saved list is determined by the set of passwords alone.
pub proof fn law_sorted_list_unique(a: Seq<Seq<char>>, b: Seq<Seq<char>>)
    requires
        strictly_sorted(a),
        strictly_sorted(b),
        forall|x: Seq<char>| a.contains(x) <==> b.contains(x),
    ensures
        a == b,
    decreases a.len() + b.len(),
{
    if a.len() == 0 || b.len() == 0 {
        if a.len() > 0 {
            assert(b.contains(a[0]));
        }
        if b.len() > 0 {
            assert(a.contains(b[0]));
        }
        assert(a =~= b);
    } else {
        // The first elements are the smallest, hence equal.
        assert(b.contains(a[0]));
        assert(a.contains(b[0]));
        let i = choose|i: int| 0 <= i < b.len() && b[i] == a[0];
        let j = choose|j: int| 0 <= j < a.len() && a[j] == b[0];
        if i > 0 && j > 0 {
            assert(lex_lt(b[0], b[i]));
            assert(lex_lt(a[0], a[j]));
            lemma_lex_asymmetric(a[0], b[0]);
        } else if i > 0 {
            assert(lex_lt(b[0], b[i]));
            lemma_lex_irreflexive(a[0]);
        } else if j > 0 {
            assert(lex_lt(a[0], a[j]));
            lemma_lex_irreflexive(b[0]);
        }
        assert(a[0] == b[0]);
        let a1 = a.drop_first();
        let b1 = b.drop_first();
        assert forall|x: Seq<char>| a1.contains(x) <==> b1.contains(x) by {
            if a1.contains(x) {
                let k = choose|k: int| 0 <= k < a1.len() && a1[k] == x;
                assert(a[k + 1] == x);
                assert(lex_lt(a[0], a[k + 1]));
                lemma_lex_irreflexive(x);
                assert(b.contains(x));
                let m = choose|m: int| 0 <= m < b.len() && b[m] == x;
                assert(m != 0);
                assert(b1[m - 1] == x);
            }
            if b1.contains(x) {
                let k = choose|k: int| 0 <= k < b1.len() && b1[k] == x;
                assert(b[k + 1] == x);
                assert(lex_lt(b[0], b[k + 1]));
                lemma_lex_irreflexive(x);
                assert(a.contains(x));
                let m = choose|m: int| 0 <= m < a.len() && a[m] == x;
                assert(m != 0);
                assert(a1[m - 1] == x);
            }
        }
        assert forall|p: int, q: int| 0 <= p < q < a1.len() implies lex_lt(
            #[trigger] a1[p],
            #[trigger] a1[q],
        ) by {
            assert(a1[p] == a[p + 1] && a1[q] == a[q + 1]);
        }
        assert forall|p: int, q: int| 0 <= p < q < b1.len() implies lex_lt(
            #[trigger] b1[p],
            #[trigger] b1[q],
        ) by {
            assert(b1[p] == b[p + 1] && b1[q] == b[q + 1]);
        }
        law_sorted_list_unique(a1, b1);
        assert forall|k: int| 0 <= k < a.len() implies a[k] == b[k] by {
            if k > 0 {
                assert(a[k] == a1[k - 1] && b[k] == b1[k - 1]);
            }
        }
        assert(a =~= b);
    }
}

pub fn lex_less(a: &[char], b: &[char]) -> (r: bool)
    ensures
        r == lex_lt(a@, b@),
{
    let mut i: usize = 0;
    proof {
        assert(a@.skip(0) =~= a@);
        assert(b@.skip(0) =~= b@);
    }
    while i < a.len() && i < b.len() && a[i] == b[i]
        invariant
            0 <= i <= a@.len(),
            i <= b@.len(),
            forall|k: int| 0 <= k < i ==> a@[k] == b@[k],
            lex_lt(a@, b@) == lex_lt(a@.skip(i as int), b@.skip(i as int)),
        decreases a@.len() - i,
    {
        proof {
            assert(a@.skip(i as int).drop_first() =~= a@.skip(i + 1));
            assert(b@.skip(i as int).drop_first() =~= b@.skip(i + 1));
        }
        i = i + 1;
    }
    if i == a.len() {
        i < b.len()
    } else if i == b.len() {
        false
    } else {
        a[i] < b[i]
    }
}

/// The password list as saved: every password of `passwords` once, in
/// ascending order, and nothing else.
pub fn normalize_passwords(passwords: Vec<String>) -> (r: Vec<String>)
    ensures
        strictly_sorted(strings_view(r@)),
        forall|x: Seq<char>| strings_view(r@).contains(x) <==> strings_view(passwords@).contains(x),
{
    let mut r: Vec<String> = Vec::new();
    let mut keys: Vec<Vec<char>> = Vec::new();
    let mut i: usize = 0;
    while i < passwords.len()
        invariant
            0 <= i <= passwords@.len(),
            keys@.len() == r@.len(),
            forall|k: int| 0 <= k < r@.len() ==> (#[trigger] keys@[k])@ == r@[k]@,
            strictly_sorted(strings_view(r@)),
            forall|x: Seq<char>|
                strings_view(r@).contains(x) <==> strings_view(passwords@.take(i as int)).contains(x),
        decreases passwords@.len() - i,
    {
        let p = passwords[i].clone();
        let pc = chars_of(p.as_str());
        let ghost sv = strings_view(r@);
        let mut j: usize = 0;
        while j < keys.len() && lex_less(&keys[j], &pc)
            invariant
                0 <= j <= keys@.len(),
                keys@.len() == r@.len(),
                forall|k: int| 0 <= k < r@.len() ==> (#[trigger] keys@[k])@ == r@[k]@,
                sv == strings_view(r@),
                forall|k: int| 0 <= k < j ==> lex_lt(#[trigger] sv[k], pc@),
            decreases keys@.len() - j,
        {
            j = j + 1;
        }
        let ghost take_next = strings_view(passwords@.take(i + 1));
        proof {
            assert(passwords@.take(i + 1) =~= passwords@.take(i as int).push(passwords@[i as int]));
            assert(take_next =~= strings_view(passwords@.take(i as int)).push(pc@));
        }
        if j < keys.len() && chars_eq(&keys[j], &pc) {
            proof {
                assert(sv[j as int] == pc@);
                assert forall|x: Seq<char>| sv.contains(x) <==> take_next.contains(x) by {
                    if take_next.contains(x) && x != pc@ {
                        let k = choose|k: int| 0 <= k < take_next.len() && take_next[k] == x;
                        assert(strings_view(passwords@.take(i as int)).contains(x)) by {
                            assert(strings_view(passwords@.take(i as int))[k] == x);
                        }
                    }
                    if sv.contains(x) {
                        let k = choose|k: int| 0 <= k < sv.len() && sv[k] == x;
                        assert(strings_view(passwords@.take(i as int)).contains(x));
                        let m = choose|m: int|
                            0 <= m < strings_view(passwords@.take(i as int)).len() && strings_view(
                                passwords@.take(i as int),
                            )[m] == x;
                        assert(take_next[m] == x);
                    }
                }
            }
        } else {
            proof {
                if j < keys@.len() {
                    lemma_lex_total(sv[j as int], pc@);
                    assert(lex_lt(pc@, sv[j as int]));
                }
            }
            let ghost old_r = r@;
            let ghost old_keys = keys@;
            r.insert(j, p);
            keys.insert(j, pc);
            proof {
                let nv = strings_view(r@);
                assert(nv =~= sv.insert(j as int, pc@));
                assert forall|a: int, b: int| 0 <= a < b < nv.len() implies lex_lt(
                    #[trigger] nv[a],
                    #[trigger] nv[b],
                ) by {
                    if a < j && b < j {
                        assert(nv[a] == sv[a] && nv[b] == sv[b]);
                    } else if a < j && b == j {
                        assert(nv[a] == sv[a]);
                    } else if a < j {
                        assert(nv[a] == sv[a] && nv[b] == sv[b - 1]);
                        assert(lex_lt(sv[a], pc@));
                        assert(lex_lt(pc@, sv[j as int]));
                        if b - 1 > j {
                            assert(lex_lt(sv[j as int], sv[b - 1]));
                            lemma_lex_transitive(pc@, sv[j as int], sv[b - 1]);
                        }
                        lemma_lex_transitive(sv[a], pc@, sv[b - 1]);
                    } else if a == j {
                        assert(nv[b] == sv[b - 1]);
                        if b - 1 > j {
                            assert(lex_lt(sv[j as int], sv[b - 1]));
                            lemma_lex_transitive(pc@, sv[j as int], sv[b - 1]);
                        }
                    } else {
                        assert(nv[a] == sv[a - 1] && nv[b] == sv[b - 1]);
                    }
                }
                assert forall|k: int| 0 <= k < r@.len() implies (#[trigger] keys@[k])@ == r@[k]@ by {
                    if k < j {
                        assert(keys@[k] == old_keys[k] && r@[k] == old_r[k]);
                    } else if k > j {
                        assert(keys@[k] == old_keys[k - 1] && r@[k] == old_r[k - 1]);
                    }
                }
                assert forall|x: Seq<char>| nv.contains(x) <==> take_next.contains(x) by {
                    if nv.contains(x) {
                        let k = choose|k: int| 0 <= k < nv.len() && nv[k] == x;
                        if k != j {
                            let kk = if k < j { k } else { k - 1 };
                            assert(sv[kk] == x);
                            assert(sv.contains(x));
                            let m = choose|m: int|
                                0 <= m < strings_view(passwords@.take(i as int)).len()
                                    && strings_view(passwords@.take(i as int))[m] == x;
                            assert(take_next[m] == x);
                        } else {
                            assert(take_next[i as int] == x);
                        }
                    }
                    if take_next.contains(x) {
                        let k = choose|k: int| 0 <= k < take_next.len() && take_next[k] == x;
                        if k < i {
                            assert(strings_view(passwords@.take(i as int))[k] == x);
                            assert(sv.contains(x));
                            let m = choose|m: int| 0 <= m < sv.len() && sv[m] == x;
                            if m < j {
                                assert(nv[m] == x);
                            } else {
                                assert(nv[m + 1] == x);
                            }
                        } else {
                            assert(nv[j as int] == x);
                        }
                    }
                }
            }
        }
        i = i + 1;
    }
    proof {
        assert(passwords@.take(i as int) =~= passwords@);
    }
    r
}

} // verus!
