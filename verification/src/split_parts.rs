//! Recognising the sibling volumes of a split archive among the names of
//! the files in its directory.
//!
//! Three naming schemes are known, tried in this order:
//! `name.7z.001`, `name.7z.002`, ... (and `name.001`, ...); then
//! `name.part1.rar`, `name.part2.rar`, ... (compared without regard to
//! case); then `name.zip` with `name.z01`, ... and `name.rar` with
//! `name.r00`, ... (also without regard to case).
//!
//! The archive's own name is searched for the ASCII markers (`.partN.`,
//! `.zip`, `.rar`) byte by byte, letters compared without regard to ASCII
//! case, so that the prefix, extension and base cut from it lie on its own
//! character boundaries. The other names are compared with the lowercase
//! forms of those pieces, as UTF-8 bytes.
use vstd::prelude::*;
use vstd::string::StringSliceAdditionalSpecFns;
use vstd::utf8::{decode_utf8, encode_utf8, is_char_boundary, valid_utf8};
use crate::bytes::{
    all_digit_bytes, bytes_end_with, bytes_ending_with, bytes_start_with, bytes_starting_with,
    digit_bytes_between, find_byte, find_bytes, find_bytes_in, find_byte_from, is_digit_byte,
};
use crate::config::{chars_eq, strings_view};
use crate::sorting::{sort_strings, sorted_seq};
use crate::text::{
    all_ascii_digits, all_digits, chars_of, lemma_rfind_char_spec, lowercase, rfind_char,
    rfind_char_in, starts_with, starts_with_chars, string_from_chars, subrange_of, to_lowercase,
};

verus! {

broadcast use vstd::utf8::encode_utf8_valid_utf8, vstd::utf8::encode_utf8_decode_utf8;

// ---------------------------------------------------------------------------
// `name.001` volumes
// ---------------------------------------------------------------------------

/// For a name whose last dot-separated segment is at least three ASCII
/// digits: the name before that dot and the number of digits.
pub open spec fn numbered_split(name: Seq<char>) -> Option<(Seq<char>, int)> {
    match rfind_char(name, '.') {
        None => None,
        Some(d) => {
            let suffix = name.skip(d + 1);
            if suffix.len() >= 3 && all_digits(suffix) {
                Some((name.take(d), suffix.len() as int))
            } else {
                None
            }
        },
    }
}

/// Matches numbered split names like `name.7z.001` or `name.001`: returns
/// the part before the number and the number of digits.
pub fn regex_match_numbered(filename: &str) -> (r: Option<(String, usize)>)
    ensures
        match numbered_split(filename@) {
            None => r is None,
            Some((prefix, n)) => r matches Some((p, k)) && p@ == prefix && k == n,
        },
{
    let v = chars_of(filename);
    if let Some(last_dot) = rfind_char_in(&v, '.') {
        proof {
            lemma_rfind_char_spec(v@, '.');
        }
        let suffix = subrange_of(&v, last_dot + 1, v.len());
        proof {
            assert(suffix@ =~= v@.skip(last_dot + 1));
        }
        if suffix.len() >= 3 && all_ascii_digits(&suffix) {
            let prefix = subrange_of(&v, 0, last_dot);
            proof {
                assert(prefix@ =~= v@.take(last_dot as int));
            }
            return Some((string_from_chars(&prefix), suffix.len()));
        }
    }
    None
}

/// A sibling of `prefix` with a dot and `digits` digits after it.
pub open spec fn numbered_sibling(name: Seq<char>, prefix: Seq<char>, digits: int) -> bool {
    &&& starts_with(name, prefix)
    &&& name.len() - prefix.len() == digits + 1
    &&& name[prefix.len() as int] == '.'
    &&& all_digits(name.skip(prefix.len() as int + 1))
}

// ---------------------------------------------------------------------------
// `name.part1.rar` volumes and `name.z01` / `name.r00` volumes
// ---------------------------------------------------------------------------

/// The UTF-8 bytes of the lowercase form of a text.
pub open spec fn lower_bytes(s: Seq<char>) -> Seq<u8> {
    encode_utf8(lowercase(s))
}

/// A byte with ASCII capitals turned into small letters.
pub open spec fn ascii_fold_byte(b: u8) -> u8 {
    if 0x41 <= b <= 0x5a {
        (b + 32) as u8
    } else {
        b
    }
}

/// Bytes with ASCII capitals turned into small letters.
pub open spec fn ascii_fold(s: Seq<u8>) -> Seq<u8> {
    s.map_values(|b: u8| ascii_fold_byte(b))
}

pub open spec fn dot_part() -> Seq<u8> {
    seq![0x2eu8, 0x70u8, 0x61u8, 0x72u8, 0x74u8]
}

pub open spec fn dot_zip() -> Seq<u8> {
    seq![0x2eu8, 0x7au8, 0x69u8, 0x70u8]
}

pub open spec fn dot_rar() -> Seq<u8> {
    seq![0x2eu8, 0x72u8, 0x61u8, 0x72u8]
}

/// In the bytes of the name, ASCII case aside: the offset of the first
/// `.part`, and the length of the all-digit run between it and the next dot.
pub open spec fn part_match(name: Seq<char>) -> Option<(int, int)> {
    let folded = ascii_fold(encode_utf8(name));
    match find_bytes(folded, dot_part()) {
        None => None,
        Some(pos) => match find_byte(folded.skip(pos + 5), 0x2eu8) {
            None => None,
            Some(dot) => if all_digit_bytes(folded.subrange(pos + 5, pos + 5 + dot)) {
                Some((pos, dot))
            } else {
                None
            },
        },
    }
}

/// Whether `name` is a `.partN` sibling: its lowercase bytes are
/// `low_prefix`, a non-empty run of ASCII digits, and `low_ext`.
pub open spec fn part_sibling(name: Seq<char>, low_prefix: Seq<u8>, low_ext: Seq<u8>) -> bool {
    let nl = lower_bytes(name);
    &&& bytes_start_with(nl, low_prefix)
    &&& bytes_end_with(nl, low_ext)
    &&& low_prefix.len() + low_ext.len() < nl.len()
    &&& all_digit_bytes(nl.subrange(low_prefix.len() as int, nl.len() - low_ext.len()))
}

/// Whether `name` is a `.z01` / `.r00` sibling of the base whose lowercase
/// bytes are `low_base`: the lowercase name is that base, a dot, `letter`
/// and two ASCII digits.
pub open spec fn letter_sibling(name: Seq<char>, low_base: Seq<u8>, letter: u8) -> bool {
    let nl = lower_bytes(name);
    &&& bytes_start_with(nl, low_base)
    &&& nl.len() == low_base.len() + 4
    &&& nl[low_base.len() as int] == 0x2eu8
    &&& nl[low_base.len() as int + 1] == letter
    &&& all_digit_bytes(nl.skip(low_base.len() as int + 2))
}

/// The entries, in order, that are not `name` itself and that `test`
/// accepts.
pub open spec fn siblings_of(
    entries: Seq<Seq<char>>,
    name: Seq<char>,
    test: spec_fn(Seq<char>) -> bool,
) -> Seq<Seq<char>>
    decreases entries.len(),
{
    if entries.len() == 0 {
        seq![]
    } else {
        let acc = siblings_of(entries.drop_last(), name, test);
        let e = entries.last();
        if e != name && test(e) {
            acc.push(e)
        } else {
            acc
        }
    }
}

/// The sibling volumes of the archive `name` among `entries` (the names of
/// the files in its directory), in ascending order.
pub open spec fn split_parts_spec(name: Seq<char>, entries: Seq<Seq<char>>) -> Seq<Seq<char>> {
    match numbered_split(name) {
        Some((prefix, digits)) => sorted_seq(
            siblings_of(entries, name, |n: Seq<char>| numbered_sibling(n, prefix, digits)),
        ),
        None => {
            let nb = encode_utf8(name);
            match part_match(name) {
                Some((pos, dot)) => {
                    let low_prefix = lower_bytes(decode_utf8(nb.take(pos + 5)));
                    let low_ext = lower_bytes(decode_utf8(nb.skip(pos + 5 + dot)));
                    sorted_seq(
                        siblings_of(
                            entries,
                            name,
                            |n: Seq<char>| part_sibling(n, low_prefix, low_ext),
                        ),
                    )
                },
                None => {
                    let folded = ascii_fold(nb);
                    if bytes_end_with(folded, dot_zip()) || bytes_end_with(folded, dot_rar()) {
                        let low_base = lower_bytes(decode_utf8(nb.take(nb.len() - 4)));
                        let letter: u8 = if bytes_end_with(folded, dot_zip()) {
                            0x7au8
                        } else {
                            0x72u8
                        };
                        sorted_seq(
                            siblings_of(
                                entries,
                                name,
                                |n: Seq<char>| letter_sibling(n, low_base, letter),
                            ),
                        )
                    } else {
                        seq![]
                    }
                },
            }
        },
    }
}

proof fn lemma_siblings_step(
    entries: Seq<Seq<char>>,
    name: Seq<char>,
    test: spec_fn(Seq<char>) -> bool,
    i: int,
)
    requires
        0 <= i < entries.len(),
    ensures
        siblings_of(entries.take(i + 1), name, test) == if entries[i] != name && test(entries[i]) {
            siblings_of(entries.take(i), name, test).push(entries[i])
        } else {
            siblings_of(entries.take(i), name, test)
        },
{
    assert(entries.take(i + 1).drop_last() =~= entries.take(i));
}

/// An ASCII byte of valid UTF-8, or its end, is a character boundary.
proof fn lemma_ascii_boundary(bytes: Seq<u8>, k: int)
    requires
        valid_utf8(bytes),
        0 <= k <= bytes.len(),
        k == bytes.len() || bytes[k] < 0x80,
    ensures
        is_char_boundary(bytes, k),
{
    if k == bytes.len() {
        vstd::utf8::is_char_boundary_start_end_of_seq(bytes);
    } else {
        vstd::utf8::is_char_boundary_iff_not_is_continuation_byte(bytes, k);
    }
}

fn byte_seq_of(s: &str) -> (b: Vec<u8>)
    ensures
        b@ == encode_utf8(s@),
{
    let bytes = s.as_bytes();
    let mut v: Vec<u8> = Vec::new();
    let mut i: usize = 0;
    while i < bytes.len()
        invariant
            0 <= i <= bytes@.len(),
            bytes@ == encode_utf8(s@),
            v@ == bytes@.take(i as int),
        decreases bytes@.len() - i,
    {
        v.push(bytes[i]);
        assert(v@ =~= bytes@.take(i + 1));
        i = i + 1;
    }
    assert(bytes@.take(i as int) =~= bytes@);
    v
}

fn lower_byte_seq(s: &str) -> (b: Vec<u8>)
    ensures
        b@ == lower_bytes(s@),
{
    let low = to_lowercase(s);
    byte_seq_of(low.as_str())
}

fn ascii_fold_bytes(b: &[u8]) -> (r: Vec<u8>)
    ensures
        r@ == ascii_fold(b@),
{
    let mut r: Vec<u8> = Vec::new();
    let mut i: usize = 0;
    while i < b.len()
        invariant
            0 <= i <= b@.len(),
            r@ == ascii_fold(b@.take(i as int)),
        decreases b@.len() - i,
    {
        let c = b[i];
        let f = if 0x41 <= c && c <= 0x5a {
            c + 32
        } else {
            c
        };
        r.push(f);
        assert(r@ =~= ascii_fold(b@.take(i + 1)));
        i = i + 1;
    }
    assert(b@.take(i as int) =~= b@);
    r
}

/// The sibling volumes of the archive named `filename` among `entries`, the
/// names of the files in its directory: sorted, without `filename` itself.
pub fn detect_split_parts(filename: &str, entries: &[String]) -> (parts: Vec<String>)
    ensures
        strings_view(parts@) == split_parts_spec(filename@, strings_view(entries@)),
{
    let ghost es = strings_view(entries@);
    let fc = chars_of(filename);
    if let Some((prefix, digits)) = regex_match_numbered(filename) {
        let pc = chars_of(prefix.as_str());
        let ghost test = |n: Seq<char>| numbered_sibling(n, prefix@, digits as int);
        let mut parts: Vec<String> = Vec::new();
        let mut i: usize = 0;
        proof {
            assert(entries@.take(0) =~= Seq::<String>::empty());
            assert(strings_view(parts@) =~= Seq::<Seq<char>>::empty());
        }
        while i < entries.len()
            invariant
                0 <= i <= entries@.len(),
                es == strings_view(entries@),
                fc@ == filename@,
                pc@ == prefix@,
                forall|n: Seq<char>| #[trigger] test(n) == numbered_sibling(n, prefix@, digits as int),
                siblings_of(es.take(i as int), filename@, test) == strings_view(parts@),
            decreases entries@.len() - i,
        {
            let name = chars_of(entries[i].as_str());
            proof {
                assert(es.take(i as int) =~= strings_view(entries@.take(i as int)));
                lemma_siblings_step(es, filename@, test, i as int);
                assert(es[i as int] == name@);
                assert(es.take(i + 1) =~= strings_view(entries@.take(i + 1)));
            }
            if !chars_eq(&name, &fc) {
                let ok = starts_with_chars(&name, &pc) && name.len() > pc.len() && name.len()
                    - pc.len() - 1 == digits && name[pc.len()] == '.' && all_ascii_digits(
                    &subrange_of(&name, pc.len() + 1, name.len()),
                );
                proof {
                    assert(test(name@) == numbered_sibling(name@, prefix@, digits as int));
                    if starts_with(name@, pc@) && name@.len() - pc@.len() == digits + 1 {
                        assert(name@.subrange(pc@.len() as int + 1, name@.len() as int) =~= name@.skip(
                            pc@.len() as int + 1,
                        ));
                    }
                }
                if ok {
                    let ghost before = strings_view(parts@);
                    parts.push(entries[i].clone());
                    proof {
                        assert(strings_view(parts@) =~= before.push(name@));
                    }
                }
            }
            i = i + 1;
        }
        proof {
            assert(es.take(i as int) =~= es);
        }
        return sort_strings(parts);
    }
    let fb = byte_seq_of(filename);
    let folded = ascii_fold_bytes(&fb);
    let dot_part_bytes: [u8; 5] = [0x2e, 0x70, 0x61, 0x72, 0x74];
    proof {
        assert(dot_part_bytes@ == dot_part());
    }
    if let Some(pos) = find_bytes_in(&folded, &dot_part_bytes) {
        proof {
            crate::bytes::lemma_find_bytes_spec(folded@, dot_part());
        }
        if folded.len() - pos >= 5 {
            if let Some(dot_at) = find_byte_from(&folded, 0x2e, pos + 5) {
                proof {
                    crate::bytes::lemma_find_byte_spec(folded@.skip(pos + 5), 0x2e);
                }
                if digit_bytes_between(&folded, pos + 5, dot_at) {
                    let ghost dot = dot_at - pos - 5;
                    let k1 = pos + 5;
                    let k2 = dot_at;
                    proof {
                        // The pieces are cut at ASCII bytes of the name.
                        assert(folded@[k2 as int] == ascii_fold_byte(fb@[k2 as int]));
                        assert(fb@[k2 as int] == 0x2e);
                        if k1 < k2 {
                            assert(folded@.subrange(k1 as int, k2 as int)[0] == folded@[k1 as int]);
                            assert(is_digit_byte(folded@[k1 as int]));
                            assert(folded@[k1 as int] == ascii_fold_byte(fb@[k1 as int]));
                        }
                        assert(fb@[k1 as int] < 0x80);
                        lemma_ascii_boundary(fb@, k1 as int);
                        lemma_ascii_boundary(fb@, k2 as int);
                    }
                    let (prefix_str, _) = filename.split_at(k1);
                    let (_, ext_str) = filename.split_at(k2);
                    proof {
                        vstd::utf8::encode_utf8_decode_utf8(prefix_str@);
                        vstd::utf8::encode_utf8_decode_utf8(ext_str@);
                        assert(fb@.take(k1 as int) =~= prefix_str.spec_bytes());
                        assert(fb@.skip(k2 as int) =~= ext_str.spec_bytes());
                        assert(part_match(filename@) == Some((pos as int, dot)));
                    }
                    let low_prefix = lower_byte_seq(prefix_str);
                    let low_ext = lower_byte_seq(ext_str);
                    let ghost test = |n: Seq<char>| part_sibling(n, low_prefix@, low_ext@);
                    let mut parts: Vec<String> = Vec::new();
                    let mut i: usize = 0;
                    proof {
                        assert(entries@.take(0) =~= Seq::<String>::empty());
                        assert(strings_view(parts@) =~= Seq::<Seq<char>>::empty());
                        let nb = encode_utf8(filename@);
                        let spec_test = |n: Seq<char>|
                            part_sibling(
                                n,
                                lower_bytes(decode_utf8(nb.take(k1 as int))),
                                lower_bytes(decode_utf8(nb.skip(k2 as int))),
                            );
                        assert(test =~= spec_test);
                    }
                    while i < entries.len()
                        invariant
                            0 <= i <= entries@.len(),
                            es == strings_view(entries@),
                            fc@ == filename@,
                            forall|n: Seq<char>| #[trigger] test(n) == part_sibling(
                                n, low_prefix@, low_ext@),
                            siblings_of(es.take(i as int), filename@, test) == strings_view(parts@),
                        decreases entries@.len() - i,
                    {
                        let name = chars_of(entries[i].as_str());
                        proof {
                            assert(es.take(i as int) =~= strings_view(entries@.take(i as int)));
                            lemma_siblings_step(es, filename@, test, i as int);
                            assert(es[i as int] == name@);
                            assert(es.take(i + 1) =~= strings_view(entries@.take(i + 1)));
                        }
                        if !chars_eq(&name, &fc) {
                            let nl = lower_byte_seq(entries[i].as_str());
                            let lp = low_prefix.len();
                            let le = low_ext.len();
                            let ok = bytes_starting_with(&nl, &low_prefix) && bytes_ending_with(
                                &nl,
                                &low_ext,
                            ) && nl.len() > lp && nl.len() - lp > le && digit_bytes_between(
                                &nl,
                                lp,
                                nl.len() - le,
                            );
                            proof {
                                assert(test(name@) == part_sibling(name@, low_prefix@, low_ext@));
                            }
                            if ok {
                                let ghost before = strings_view(parts@);
                                parts.push(entries[i].clone());
                                proof {
                                    assert(strings_view(parts@) =~= before.push(name@));
                                }
                            }
                        }
                        i = i + 1;
                    }
                    proof {
                        assert(es.take(i as int) =~= es);
                    }
                    return sort_strings(parts);
                }
            }
        }
    }
    let dot_zip_bytes: [u8; 4] = [0x2e, 0x7a, 0x69, 0x70];
    let dot_rar_bytes: [u8; 4] = [0x2e, 0x72, 0x61, 0x72];
    proof {
        assert(dot_zip_bytes@ == dot_zip());
        assert(dot_rar_bytes@ == dot_rar());
    }
    let is_zip = bytes_ending_with(&folded, &dot_zip_bytes);
    if is_zip || bytes_ending_with(&folded, &dot_rar_bytes) {
        let k = fb.len() - 4;
        proof {
            assert(folded@.skip(k as int)[0] == folded@[k as int]);
            assert(folded@[k as int] == ascii_fold_byte(fb@[k as int]));
            assert(fb@[k as int] == 0x2e);
            lemma_ascii_boundary(fb@, k as int);
        }
        let (base_str, _) = filename.split_at(k);
        proof {
            vstd::utf8::encode_utf8_decode_utf8(base_str@);
            assert(fb@.take(k as int) =~= base_str.spec_bytes());
        }
        let low_base = lower_byte_seq(base_str);
        let letter: u8 = if is_zip {
            0x7a
        } else {
            0x72
        };
        let ghost test = |n: Seq<char>| letter_sibling(n, low_base@, letter);
        let mut parts: Vec<String> = Vec::new();
        let mut i: usize = 0;
        proof {
            assert(entries@.take(0) =~= Seq::<String>::empty());
            assert(strings_view(parts@) =~= Seq::<Seq<char>>::empty());
        }
        while i < entries.len()
            invariant
                0 <= i <= entries@.len(),
                es == strings_view(entries@),
                fc@ == filename@,
                forall|n: Seq<char>| #[trigger] test(n) == letter_sibling(n, low_base@, letter),
                siblings_of(es.take(i as int), filename@, test) == strings_view(parts@),
            decreases entries@.len() - i,
        {
            let name = chars_of(entries[i].as_str());
            proof {
                assert(es.take(i as int) =~= strings_view(entries@.take(i as int)));
                lemma_siblings_step(es, filename@, test, i as int);
                assert(es[i as int] == name@);
                assert(es.take(i + 1) =~= strings_view(entries@.take(i + 1)));
            }
            if !chars_eq(&name, &fc) {
                let nl = lower_byte_seq(entries[i].as_str());
                let bl = low_base.len();
                proof {
                    assert(test(name@) == letter_sibling(name@, low_base@, letter));
                }
                let ok = bytes_starting_with(&nl, &low_base) && nl.len() >= 4 && nl.len() - 4 == bl
                    && nl[bl] == 0x2e && nl[bl + 1] == letter && digit_bytes_between(
                    &nl,
                    bl + 2,
                    nl.len(),
                );
                proof {
                    if bytes_start_with(nl@, low_base@) && nl@.len() == bl + 4 {
                        assert(nl@.subrange(bl + 2, nl@.len() as int) =~= nl@.skip(bl + 2));
                    }
                }
                if ok {
                    let ghost before = strings_view(parts@);
                    parts.push(entries[i].clone());
                    proof {
                        assert(strings_view(parts@) =~= before.push(name@));
                    }
                }
            }
            i = i + 1;
        }
        proof {
            assert(es.take(i as int) =~= es);
        }
        return sort_strings(parts);
    }
    Vec::new()
}

proof fn lemma_siblings_exclude(
    entries: Seq<Seq<char>>,
    name: Seq<char>,
    test: spec_fn(Seq<char>) -> bool,
)
    ensures
        !siblings_of(entries, name, test).contains(name),
        forall|x: Seq<char>| siblings_of(entries, name, test).contains(x) ==> entries.contains(x),
    decreases entries.len(),
{
    if entries.len() > 0 {
        let init = entries.drop_last();
        lemma_siblings_exclude(init, name, test);
        let acc = siblings_of(entries, name, test);
        let prev = siblings_of(init, name, test);
        let e = entries.last();
        assert(acc == prev || (acc == prev.push(e) && e != name));
        assert forall|x: Seq<char>| acc.contains(x) implies entries.contains(x) && x != name by {
            let k = choose|k: int| 0 <= k < acc.len() && acc[k] == x;
            if k < prev.len() {
                assert(acc[k] == prev[k]);
                assert(prev.contains(x));
                assert(init.contains(x));
                let m = choose|m: int| 0 <= m < init.len() && init[m] == x;
                assert(entries[m] == init[m]);
            } else {
                assert(x == e);
                assert(entries[entries.len() - 1] == x);
            }
        }
    }
}

proof fn lemma_sorted_siblings(
    entries: Seq<Seq<char>>,
    name: Seq<char>,
    test: spec_fn(Seq<char>) -> bool,
)
    ensures
        crate::sorting::ascending(sorted_seq(siblings_of(entries, name, test))),
        !sorted_seq(siblings_of(entries, name, test)).contains(name),
        forall|x: Seq<char>|
            sorted_seq(siblings_of(entries, name, test)).contains(x) ==> entries.contains(x),
{
    lemma_siblings_exclude(entries, name, test);
    let acc = siblings_of(entries, name, test);
    let parts = sorted_seq(acc);
    crate::sorting::law_sorted_seq_is_ascending_permutation(acc);
    assert forall|x: Seq<char>| parts.contains(x) implies acc.contains(x) by {
        vstd::seq_lib::to_multiset_contains(parts, x);
        vstd::seq_lib::to_multiset_contains(acc, x);
    }
}

/// The volumes found are among the directory's entries, never the archive
/// itself, and in ascending order.
pub proof fn law_split_parts_shape(name: Seq<char>, entries: Seq<Seq<char>>)
    ensures
        crate::sorting::ascending(split_parts_spec(name, entries)),
        !split_parts_spec(name, entries).contains(name),
        forall|x: Seq<char>| split_parts_spec(name, entries).contains(x) ==> entries.contains(x),
{
    let nb = encode_utf8(name);
    match numbered_split(name) {
        Some((prefix, digits)) => {
            lemma_sorted_siblings(
                entries,
                name,
                |n: Seq<char>| numbered_sibling(n, prefix, digits),
            );
        },
        None => match part_match(name) {
            Some((pos, dot)) => {
                let low_prefix = lower_bytes(decode_utf8(nb.take(pos + 5)));
                let low_ext = lower_bytes(decode_utf8(nb.skip(pos + 5 + dot)));
                lemma_sorted_siblings(
                    entries,
                    name,
                    |n: Seq<char>| part_sibling(n, low_prefix, low_ext),
                );
            },
            None => {
                let folded = ascii_fold(nb);
                let low_base = lower_bytes(decode_utf8(nb.take(nb.len() - 4)));
                let letter: u8 = if bytes_end_with(folded, dot_zip()) {
                    0x7au8
                } else {
                    0x72u8
                };
                lemma_sorted_siblings(
                    entries,
                    name,
                    |n: Seq<char>| letter_sibling(n, low_base, letter),
                );
                if !(bytes_end_with(folded, dot_zip()) || bytes_end_with(folded, dot_rar())) {
                    assert(split_parts_spec(name, entries) =~= Seq::<Seq<char>>::empty());
                }
            },
        },
    }
}

proof fn lemma_siblings_members(
    entries: Seq<Seq<char>>,
    name: Seq<char>,
    test: spec_fn(Seq<char>) -> bool,
)
    ensures
        forall|x: Seq<char>|
            #[trigger] siblings_of(entries, name, test).contains(x) <==> (entries.contains(x) && x
                != name && test(x)),
    decreases entries.len(),
{
    if entries.len() > 0 {
        let init = entries.drop_last();
        lemma_siblings_members(init, name, test);
        let acc = siblings_of(entries, name, test);
        let prev = siblings_of(init, name, test);
        let e = entries.last();
        assert forall|x: Seq<char>| acc.contains(x) <==> (entries.contains(x) && x != name && test(
            x,
        )) by {
            if acc.contains(x) {
                let k = choose|k: int| 0 <= k < acc.len() && acc[k] == x;
                if k < prev.len() {
                    assert(prev[k] == x);
                    assert(prev.contains(x));
                    let m = choose|m: int| 0 <= m < init.len() && init[m] == x;
                    assert(entries[m] == x);
                } else {
                    assert(x == e && e != name && test(e));
                    assert(entries[entries.len() - 1] == x);
                }
            }
            if entries.contains(x) && x != name && test(x) {
                let m = choose|m: int| 0 <= m < entries.len() && entries[m] == x;
                if m < entries.len() - 1 {
                    assert(init[m] == x);
                    assert(prev.contains(x));
                    let k = choose|k: int| 0 <= k < prev.len() && prev[k] == x;
                    assert(acc[k] == x);
                } else {
                    assert(acc == prev.push(e));
                    assert(acc[prev.len() as int] == x);
                }
            }
        }
    }
}

/// Membership in the sorted sibling list: exactly the entries other than
/// the archive that pass `test`.
proof fn lemma_sorted_siblings_members(
    entries: Seq<Seq<char>>,
    name: Seq<char>,
    test: spec_fn(Seq<char>) -> bool,
)
    ensures
        forall|x: Seq<char>|
            #[trigger] sorted_seq(siblings_of(entries, name, test)).contains(x) <==> (
            entries.contains(x) && x != name && test(x)),
{
    lemma_siblings_members(entries, name, test);
    let acc = siblings_of(entries, name, test);
    crate::sorting::law_sorted_seq_is_ascending_permutation(acc);
    assert forall|x: Seq<char>| #[trigger] sorted_seq(acc).contains(x) <==> (entries.contains(x)
        && x != name && test(x)) by {
        vstd::seq_lib::to_multiset_contains(sorted_seq(acc), x);
        vstd::seq_lib::to_multiset_contains(acc, x);
        assert(acc.contains(x) <==> (entries.contains(x) && x != name && test(x)));
    }
}

/// A numbered archive name such as `data.7z.001` is its prefix (`data.7z`),
/// a dot and three or more digits; its volumes are exactly the other
/// entries that are that same prefix, a dot and as many digits. An entry
/// that does not begin with the prefix (`logs.7z.002` for `data.7z.001`) is
/// never a volume, nor is one with another number of digits.
pub proof fn law_numbered_volumes(
    name: Seq<char>,
    entries: Seq<Seq<char>>,
    prefix: Seq<char>,
    digits: int,
)
    requires
        numbered_split(name) == Some((prefix, digits)),
    ensures
        name == prefix + seq!['.'] + name.skip(prefix.len() as int + 1),
        digits == name.len() - prefix.len() - 1,
        digits >= 3,
        all_digits(name.skip(prefix.len() as int + 1)),
        forall|x: Seq<char>|
            #[trigger] split_parts_spec(name, entries).contains(x) <==> {
                &&& entries.contains(x)
                &&& x != name
                &&& x.len() == prefix.len() + 1 + digits
                &&& x.take(prefix.len() as int) == prefix
                &&& x[prefix.len() as int] == '.'
                &&& forall|i: int| prefix.len() < i < x.len() ==> '0' <= #[trigger] x[i] <= '9'
            },
{
    lemma_rfind_char_spec(name, '.');
    let d = rfind_char(name, '.')->Some_0;
    assert(name =~= prefix + seq!['.'] + name.skip(prefix.len() as int + 1));
    lemma_sorted_siblings_members(
        entries,
        name,
        |n: Seq<char>| numbered_sibling(n, prefix, digits),
    );
    assert forall|x: Seq<char>|
        numbered_sibling(x, prefix, digits) <==> (x.len() == prefix.len() + 1 + digits && x.take(
            prefix.len() as int,
        ) == prefix && x[prefix.len() as int] == '.' && forall|i: int|
            prefix.len() < i < x.len() ==> '0' <= #[trigger] x[i] <= '9') by {
        if x.len() == prefix.len() + 1 + digits {
            let t = x.skip(prefix.len() as int + 1);
            assert(all_digits(t) <==> forall|i: int|
                prefix.len() < i < x.len() ==> '0' <= #[trigger] x[i] <= '9') by {
                if all_digits(t) {
                    assert forall|i: int| prefix.len() < i < x.len() implies '0' <= #[trigger] x[i]
                        <= '9' by {
                        assert(t[i - prefix.len() - 1] == x[i]);
                        assert(crate::text::is_digit(t[i - prefix.len() - 1]));
                    }
                }
                if forall|i: int| prefix.len() < i < x.len() ==> '0' <= #[trigger] x[i] <= '9' {
                    assert forall|j: int| 0 <= j < t.len() implies crate::text::is_digit(
                        #[trigger] t[j],
                    ) by {
                        assert(t[j] == x[j + prefix.len() + 1]);
                    }
                }
            }
        }
    }
}

/// For an archive whose name has a `.partN.` marker (ASCII case aside) and
/// is not numbered, such as `Movie.Part1.rar`: its volumes are exactly the
/// other entries whose lowercase form is the lowercase name up to and
/// including `.part`, then one or more ASCII digits, then the lowercase
/// rest of the name after the number (`movie.part2.rar`, ...).
pub proof fn law_part_volumes(name: Seq<char>, entries: Seq<Seq<char>>, pos: int, dot: int)
    requires
        numbered_split(name) is None,
        part_match(name) == Some((pos, dot)),
    ensures
        forall|x: Seq<char>|
            #[trigger] split_parts_spec(name, entries).contains(x) <==> {
                let nl = lower_bytes(x);
                let head = lower_bytes(decode_utf8(encode_utf8(name).take(pos + 5)));
                let tail = lower_bytes(decode_utf8(encode_utf8(name).skip(pos + 5 + dot)));
                &&& entries.contains(x)
                &&& x != name
                &&& nl.len() > head.len() + tail.len()
                &&& nl.take(head.len() as int) == head
                &&& nl.skip(nl.len() - tail.len()) == tail
                &&& forall|i: int|
                    head.len() <= i < nl.len() - tail.len() ==> 0x30 <= #[trigger] nl[i] <= 0x39
            },
{
    let nb = encode_utf8(name);
    let head = lower_bytes(decode_utf8(nb.take(pos + 5)));
    let tail = lower_bytes(decode_utf8(nb.skip(pos + 5 + dot)));
    lemma_sorted_siblings_members(entries, name, |n: Seq<char>| part_sibling(n, head, tail));
    assert forall|x: Seq<char>|
        part_sibling(x, head, tail) <==> ({
            let nl = lower_bytes(x);
            &&& nl.len() > head.len() + tail.len()
            &&& nl.take(head.len() as int) == head
            &&& nl.skip(nl.len() - tail.len()) == tail
            &&& forall|i: int|
                head.len() <= i < nl.len() - tail.len() ==> 0x30 <= #[trigger] nl[i] <= 0x39
        }) by {
        let nl = lower_bytes(x);
        if nl.len() > head.len() + tail.len() {
            let mid = nl.subrange(head.len() as int, nl.len() - tail.len());
            if all_digit_bytes(mid) {
                assert forall|i: int| head.len() <= i < nl.len() - tail.len() implies 0x30
                    <= #[trigger] nl[i] <= 0x39 by {
                    assert(mid[i - head.len()] == nl[i]);
                    assert(is_digit_byte(mid[i - head.len()]));
                }
            }
            if forall|i: int|
                head.len() <= i < nl.len() - tail.len() ==> 0x30 <= #[trigger] nl[i] <= 0x39 {
                assert forall|j: int| 0 <= j < mid.len() implies is_digit_byte(#[trigger] mid[j]) by {
                    assert(mid[j] == nl[j + head.len()]);
                }
            }
        }
    }
}

/// For a name ending in `.zip` or `.rar` (ASCII case aside) that is neither
/// numbered nor a `.partN.` name: its volumes are exactly the other entries
/// whose lowercase form is the lowercase base name (the name without its
/// last four bytes), a dot, `z` for `.zip` or `r` for `.rar`, and two ASCII
/// digits. An entry with another base name (`videos.z01` for `photos.zip`)
/// is never a volume.
pub proof fn law_letter_volumes(name: Seq<char>, entries: Seq<Seq<char>>)
    requires
        numbered_split(name) is None,
        part_match(name) is None,
        bytes_end_with(ascii_fold(encode_utf8(name)), dot_zip()) || bytes_end_with(
            ascii_fold(encode_utf8(name)),
            dot_rar(),
        ),
    ensures
        forall|x: Seq<char>|
            #[trigger] split_parts_spec(name, entries).contains(x) <==> {
                let nb = encode_utf8(name);
                let base = lower_bytes(decode_utf8(nb.take(nb.len() - 4)));
                let letter: u8 = if bytes_end_with(ascii_fold(nb), dot_zip()) {
                    0x7au8
                } else {
                    0x72u8
                };
                let nl = lower_bytes(x);
                &&& entries.contains(x)
                &&& x != name
                &&& nl == base + seq![0x2eu8, letter, nl[base.len() as int + 2], nl[base.len() as int + 3]]
                &&& 0x30 <= nl[base.len() as int + 2] <= 0x39
                &&& 0x30 <= nl[base.len() as int + 3] <= 0x39
            },
{
    let nb = encode_utf8(name);
    let base = lower_bytes(decode_utf8(nb.take(nb.len() - 4)));
    let letter: u8 = if bytes_end_with(ascii_fold(nb), dot_zip()) {
        0x7au8
    } else {
        0x72u8
    };
    lemma_sorted_siblings_members(entries, name, |n: Seq<char>| letter_sibling(n, base, letter));
    assert forall|x: Seq<char>|
        letter_sibling(x, base, letter) <==> ({
            let nl = lower_bytes(x);
            &&& nl == base + seq![0x2eu8, letter, nl[base.len() as int + 2], nl[base.len() as int + 3]]
            &&& 0x30 <= nl[base.len() as int + 2] <= 0x39
            &&& 0x30 <= nl[base.len() as int + 3] <= 0x39
        }) by {
        let nl = lower_bytes(x);
        let b = base.len() as int;
        let shape = base + seq![0x2eu8, letter, nl[b + 2], nl[b + 3]];
        if letter_sibling(x, base, letter) {
            let t = nl.skip(b + 2);
            assert(t[0] == nl[b + 2] && t[1] == nl[b + 3]);
            assert(is_digit_byte(t[0]) && is_digit_byte(t[1]));
            assert(nl =~= shape) by {
                assert(nl.take(b) == base);
                assert forall|i: int| 0 <= i < nl.len() implies nl[i] == shape[i] by {
                    if i < b {
                        assert(nl.take(b)[i] == nl[i]);
                    }
                }
            }
        }
        if nl == shape && 0x30 <= nl[b + 2] <= 0x39 && 0x30 <= nl[b + 3] <= 0x39 {
            assert(nl.take(b) =~= base);
            let t = nl.skip(b + 2);
            assert forall|j: int| 0 <= j < t.len() implies is_digit_byte(#[trigger] t[j]) by {
                assert(t[j] == nl[b + 2 + j]);
            }
        }
    }
}

/// A name that is not numbered, has no `.partN.` marker and does not end
/// in `.zip` or `.rar` has no volumes.
pub proof fn law_single_archive_has_no_volumes(name: Seq<char>, entries: Seq<Seq<char>>)
    requires
        numbered_split(name) is None,
        part_match(name) is None,
        !bytes_end_with(ascii_fold(encode_utf8(name)), dot_zip()),
        !bytes_end_with(ascii_fold(encode_utf8(name)), dot_rar()),
    ensures
        split_parts_spec(name, entries).len() == 0,
{
}

} // verus!
