//! Searching UTF-8 encoded text byte by byte, as `str` methods with ASCII
//! patterns do; positions are byte offsets.
use vstd::prelude::*;

verus! {

pub open spec fn bytes_start_with(s: Seq<u8>, p: Seq<u8>) -> bool {
    p.len() <= s.len() && s.take(p.len() as int) == p
}

pub open spec fn bytes_end_with(s: Seq<u8>, p: Seq<u8>) -> bool {
    p.len() <= s.len() && s.skip(s.len() - p.len()) == p
}

/// Offset of the first occurrence of `p` in `s`.
pub open spec fn find_bytes(s: Seq<u8>, p: Seq<u8>) -> Option<int>
    decreases s.len(),
{
    if bytes_start_with(s, p) {
        Some(0)
    } else if s.len() == 0 {
        None
    } else {
        match find_bytes(s.drop_first(), p) {
            Some(i) => Some(i + 1),
            None => None,
        }
    }
}

/// Offset of the first byte `b` in `s`.
pub open spec fn find_byte(s: Seq<u8>, b: u8) -> Option<int>
    decreases s.len(),
{
    if s.len() == 0 {
        None
    } else if s[0] == b {
        Some(0)
    } else {
        match find_byte(s.drop_first(), b) {
            Some(i) => Some(i + 1),
            None => None,
        }
    }
}

pub open spec fn is_digit_byte(b: u8) -> bool {
    0x30 <= b <= 0x39
}

/// Every byte is an ASCII digit; for UTF-8 text, the same as every
/// character being an ASCII digit.
pub open spec fn all_digit_bytes(s: Seq<u8>) -> bool {
    forall|i: int| 0 <= i < s.len() ==> is_digit_byte(#[trigger] s[i])
}

pub proof fn lemma_find_byte_spec(s: Seq<u8>, b: u8)
    ensures
        match find_byte(s, b) {
            Some(i) => 0 <= i < s.len() && s[i] == b && forall|k: int| 0 <= k < i ==> s[k] != b,
            None => forall|k: int| 0 <= k < s.len() ==> s[k] != b,
        },
    decreases s.len(),
{
    if s.len() > 0 && s[0] != b {
        lemma_find_byte_spec(s.drop_first(), b);
        match find_byte(s.drop_first(), b) {
            Some(i) => {
                assert forall|k: int| 0 <= k < i + 1 implies s[k] != b by {
                    if k > 0 {
                        assert(s[k] == s.drop_first()[k - 1]);
                    }
                }
            },
            None => {
                assert forall|k: int| 0 <= k < s.len() implies s[k] != b by {
                    if k > 0 {
                        assert(s[k] == s.drop_first()[k - 1]);
                    }
                }
            },
        }
    }
}

proof fn lemma_find_byte_some(s: Seq<u8>, b: u8, i: int)
    requires
        0 <= i < s.len(),
        s[i] == b,
        forall|k: int| 0 <= k < i ==> s[k] != b,
    ensures
        find_byte(s, b) == Some(i),
    decreases s.len(),
{
    if i > 0 {
        assert(s[0] != b);
        lemma_find_byte_some(s.drop_first(), b, i - 1);
    }
}

proof fn lemma_find_byte_none(s: Seq<u8>, b: u8)
    requires
        forall|k: int| 0 <= k < s.len() ==> s[k] != b,
    ensures
        find_byte(s, b) is None,
    decreases s.len(),
{
    if s.len() > 0 {
        assert(s[0] != b);
        lemma_find_byte_none(s.drop_first(), b);
    }
}

pub proof fn lemma_find_bytes_spec(s: Seq<u8>, p: Seq<u8>)
    ensures
        match find_bytes(s, p) {
            Some(i) => 0 <= i <= s.len() && bytes_start_with(s.skip(i), p) && forall|k: int|
                0 <= k < i ==> !bytes_start_with(#[trigger] s.skip(k), p),
            None => forall|k: int|
                0 <= k <= s.len() ==> !bytes_start_with(#[trigger] s.skip(k), p),
        },
    decreases s.len(),
{
    assert(s.skip(0) == s);
    if !bytes_start_with(s, p) && s.len() > 0 {
        lemma_find_bytes_spec(s.drop_first(), p);
        match find_bytes(s.drop_first(), p) {
            Some(i) => {
                assert(s.drop_first().skip(i) == s.skip(i + 1));
                assert forall|k: int| 0 <= k < i + 1 implies !bytes_start_with(
                    #[trigger] s.skip(k),
                    p,
                ) by {
                    if k > 0 {
                        assert(s.drop_first().skip(k - 1) == s.skip(k));
                    }
                }
            },
            None => {
                assert forall|k: int| 0 <= k <= s.len() implies !bytes_start_with(
                    #[trigger] s.skip(k),
                    p,
                ) by {
                    if k > 0 {
                        assert(s.drop_first().skip(k - 1) == s.skip(k));
                    }
                }
            },
        }
    }
}

proof fn lemma_find_bytes_some(s: Seq<u8>, p: Seq<u8>, i: int)
    requires
        0 <= i <= s.len(),
        bytes_start_with(s.skip(i), p),
        forall|k: int| 0 <= k < i ==> !bytes_start_with(#[trigger] s.skip(k), p),
    ensures
        find_bytes(s, p) == Some(i),
    decreases s.len(),
{
    assert(s.skip(0) == s);
    if i > 0 {
        assert(!bytes_start_with(s, p));
        assert forall|k: int| 0 <= k < i - 1 implies !bytes_start_with(
            #[trigger] s.drop_first().skip(k),
            p,
        ) by {
            assert(s.drop_first().skip(k) == s.skip(k + 1));
        }
        assert(s.drop_first().skip(i - 1) == s.skip(i));
        lemma_find_bytes_some(s.drop_first(), p, i - 1);
    }
}

proof fn lemma_find_bytes_none(s: Seq<u8>, p: Seq<u8>)
    requires
        forall|k: int| 0 <= k <= s.len() ==> !bytes_start_with(#[trigger] s.skip(k), p),
    ensures
        find_bytes(s, p) is None,
    decreases s.len(),
{
    assert(s.skip(0) == s);
    if s.len() > 0 {
        assert forall|k: int| 0 <= k <= s.len() - 1 implies !bytes_start_with(
            #[trigger] s.drop_first().skip(k),
            p,
        ) by {
            assert(s.drop_first().skip(k) == s.skip(k + 1));
        }
        lemma_find_bytes_none(s.drop_first(), p);
    }
}

/// Whether `p` occurs in `s` at offset `at`.
pub fn bytes_match_at(s: &[u8], p: &[u8], at: usize) -> (r: bool)
    requires
        at <= s@.len(),
    ensures
        r == bytes_start_with(s@.skip(at as int), p@),
{
    if p.len() > s.len() - at {
        return false;
    }
    let mut i: usize = 0;
    while i < p.len()
        invariant
            at <= s@.len(),
            at + p@.len() <= s@.len(),
            0 <= i <= p@.len(),
            forall|k: int| 0 <= k < i ==> s@[at + k] == p@[k],
        decreases p@.len() - i,
    {
        assert(at + i < s.len());
        if s[at + i] != p[i] {
            assert(s@.skip(at as int).take(p@.len() as int)[i as int] != p@[i as int]);
            return false;
        }
        i = i + 1;
    }
    assert(s@.skip(at as int).take(p@.len() as int) =~= p@);
    true
}

pub fn bytes_starting_with(s: &[u8], p: &[u8]) -> (r: bool)
    ensures
        r == bytes_start_with(s@, p@),
{
    let r = bytes_match_at(s, p, 0);
    assert(s@.skip(0) =~= s@);
    r
}

pub fn bytes_ending_with(s: &[u8], p: &[u8]) -> (r: bool)
    ensures
        r == bytes_end_with(s@, p@),
{
    if p.len() > s.len() {
        return false;
    }
    let r = bytes_match_at(s, p, s.len() - p.len());
    assert(s@.skip(s@.len() - p@.len()).take(p@.len() as int) =~= s@.skip(s@.len() - p@.len()));
    r
}

pub fn find_bytes_in(s: &[u8], p: &[u8]) -> (r: Option<usize>)
    ensures
        r matches Some(i) ==> find_bytes(s@, p@) == Some(i as int),
        r is None ==> find_bytes(s@, p@) is None,
{
    let mut i: usize = 0;
    while i < s.len()
        invariant
            0 <= i <= s@.len(),
            forall|k: int| 0 <= k < i ==> !bytes_start_with(#[trigger] s@.skip(k), p@),
        decreases s@.len() - i,
    {
        if bytes_match_at(s, p, i) {
            proof {
                lemma_find_bytes_some(s@, p@, i as int);
            }
            return Some(i);
        }
        i = i + 1;
    }
    if bytes_match_at(s, p, i) {
        proof {
            lemma_find_bytes_some(s@, p@, i as int);
        }
        return Some(i);
    }
    proof {
        lemma_find_bytes_none(s@, p@);
    }
    None
}

pub fn find_byte_from(s: &[u8], b: u8, from: usize) -> (r: Option<usize>)
    requires
        from <= s@.len(),
    ensures
        r matches Some(i) ==> from <= i && find_byte(s@.skip(from as int), b) == Some(i - from),
        r is None ==> find_byte(s@.skip(from as int), b) is None,
{
    let ghost t = s@.skip(from as int);
    let mut i: usize = from;
    while i < s.len()
        invariant
            from <= i <= s@.len(),
            t == s@.skip(from as int),
            forall|k: int| from <= k < i ==> s@[k] != b,
        decreases s@.len() - i,
    {
        if s[i] == b {
            proof {
                assert forall|k: int| 0 <= k < i - from implies t[k] != b by {
                    assert(t[k] == s@[k + from]);
                }
                lemma_find_byte_some(t, b, i - from);
            }
            return Some(i);
        }
        i = i + 1;
    }
    proof {
        assert forall|k: int| 0 <= k < t.len() implies t[k] != b by {
            assert(t[k] == s@[k + from]);
        }
        lemma_find_byte_none(t, b);
    }
    None
}

/// Whether the bytes in `[a, b)` are all ASCII digits.
pub fn digit_bytes_between(s: &[u8], a: usize, b: usize) -> (r: bool)
    requires
        a <= b <= s@.len(),
    ensures
        r == all_digit_bytes(s@.subrange(a as int, b as int)),
{
    let mut i: usize = a;
    while i < b
        invariant
            a <= i <= b <= s@.len(),
            forall|k: int| a <= k < i ==> is_digit_byte(#[trigger] s@[k]),
        decreases b - i,
    {
        if !(0x30 <= s[i] && s[i] <= 0x39) {
            assert(s@.subrange(a as int, b as int)[i - a] == s@[i as int]);
            return false;
        }
        i = i + 1;
    }
    assert forall|k: int| 0 <= k < b - a implies is_digit_byte(
        #[trigger] s@.subrange(a as int, b as int)[k],
    ) by {
        assert(s@.subrange(a as int, b as int)[k] == s@[k + a]);
    }
    true
}

} // verus!
