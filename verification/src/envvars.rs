//! Expansion of environment variables in a path, as the settings allow it:
//! first every `%NAME%` (Windows style), then every `${NAME}` and `$NAME`
//! (Unix style, a bare name being letters, digits and `_`).
//!
//! The expansion alternates decisions with reading the environment, so it
//! is a step function: `expand_env_vars_next` finds the next variable
//! reference, the caller reads the variable (an unset variable reads as the
//! empty string), and `expand_env_vars_resume` puts the value in place of
//! the reference. The text is searched again from its start after each
//! replacement, so a value may itself contain references.
use vstd::prelude::*;
use crate::text::{
    char_is_alphanumeric, chars_of, find_char, find_char_in, is_alphanumeric, lemma_find_char_spec,
    starts_with, string_from_chars, subrange_of,
};

verus! {

/// Where the first complete `%NAME%` reference lies: the position of its
/// first `%` and the position just after its second `%`.
pub open spec fn percent_ref(s: Seq<char>) -> Option<(int, int)> {
    match find_char(s, '%') {
        None => None,
        Some(a) => match find_char(s.skip(a + 1), '%') {
            None => None,
            Some(e) => Some((a, a + 2 + e)),
        },
    }
}

/// The length of the longest prefix of `s` made of alphanumeric characters
/// and `_`.
pub open spec fn name_len(s: Seq<char>) -> int
    decreases s.len(),
{
    if s.len() == 0 {
        0
    } else if char_is_alphanumeric(s[0]) || s[0] == '_' {
        1 + name_len(s.drop_first())
    } else {
        0
    }
}

pub proof fn lemma_name_len_bound(s: Seq<char>)
    ensures
        0 <= name_len(s) <= s.len(),
    decreases s.len(),
{
    if s.len() > 0 {
        lemma_name_len_bound(s.drop_first());
    }
}

/// Where the first `$` reference lies, if it is complete: the position of
/// the `$`, the bounds of the name, and the position just after the
/// reference. A `$` followed by `{` needs a closing `}`; a bare `$` needs a
/// non-empty name.
pub open spec fn dollar_ref(s: Seq<char>) -> Option<(int, int, int, int)> {
    match find_char(s, '$') {
        None => None,
        Some(a) => if starts_with(s.skip(a + 1), seq!['{']) {
            match find_char(s.skip(a + 2), '}') {
                None => None,
                Some(e) => Some((a, a + 2, a + 2 + e, a + 3 + e)),
            }
        } else {
            let n = name_len(s.skip(a + 1));
            if n == 0 {
                None
            } else {
                Some((a, a + 1, a + 1 + n, a + 1 + n))
            }
        },
    }
}

/// A variable reference that was found: the text before it, the variable's
/// name, the text after it, and whether it was a `$` reference.
pub struct PendingVar {
    pub before: String,
    pub name: String,
    pub after: String,
    pub dollar: bool,
}

/// The text being expanded, and whether the `%NAME%` references are done.
pub struct Expansion {
    pub text: String,
    pub dollar_phase: bool,
}

pub enum ExpandStep {
    /// A variable must be read; its value then goes to `expand_env_vars_resume`.
    Lookup(PendingVar),
    /// The expansion is finished.
    Done(String),
}

/// What the next step is for a text in a given phase: while `%NAME%`
/// references remain they come first; then `$` references; then the text
/// is the result.
pub open spec fn next_step_ok(text: Seq<char>, dollar_phase: bool, step: ExpandStep) -> bool {
    let pct = if dollar_phase {
        None
    } else {
        percent_ref(text)
    };
    match pct {
        Some((a, e)) => step matches ExpandStep::Lookup(p) && !p.dollar && p.before@ == text.take(a)
            && p.name@ == text.subrange(a + 1, e - 1) && p.after@ == text.skip(e),
        None => match dollar_ref(text) {
            Some((a, ns, ne, e)) => step matches ExpandStep::Lookup(p) && p.dollar && p.before@
                == text.take(a) && p.name@ == text.subrange(ns, ne) && p.after@ == text.skip(e),
            None => step matches ExpandStep::Done(r) && r@ == text,
        },
    }
}

/// The expansion of `path` before any step.
pub fn expand_env_vars_begin(path: &str) -> (e: Expansion)
    ensures
        e.text@ == path@,
        !e.dollar_phase,
{
    Expansion { text: String::from_str(path), dollar_phase: false }
}

fn name_len_exec(v: &[char], from: usize) -> (n: usize)
    requires
        from <= v@.len(),
    ensures
        n == name_len(v@.skip(from as int)),
        from + n <= v@.len(),
{
    let mut k: usize = from;
    while k < v.len() && (is_alphanumeric(v[k]) || v[k] == '_')
        invariant
            from <= k <= v@.len(),
            name_len(v@.skip(from as int)) == (k - from) + name_len(v@.skip(k as int)),
        decreases v@.len() - k,
    {
        proof {
            assert(v@.skip(k as int).drop_first() =~= v@.skip(k + 1));
        }
        k = k + 1;
    }
    proof {
        if k < v@.len() {
            assert(v@.skip(k as int)[0] == v@[k as int]);
        } else {
            assert(v@.skip(k as int).len() == 0);
        }
    }
    k - from
}

/// The next step of an expansion.
pub fn expand_env_vars_next(state: &Expansion) -> (step: ExpandStep)
    ensures
        next_step_ok(state.text@, state.dollar_phase, step),
{
    let v = chars_of(state.text.as_str());
    if !state.dollar_phase {
        if let Some(a) = find_char_in(&v, '%') {
            proof {
                lemma_find_char_spec(v@, '%');
            }
            let rest = subrange_of(&v, a + 1, v.len());
            proof {
                assert(rest@ =~= v@.skip(a + 1));
            }
            if let Some(e) = find_char_in(&rest, '%') {
                proof {
                    lemma_find_char_spec(rest@, '%');
                }
                let end = a + 2 + e;
                let p = PendingVar {
                    before: string_from_chars(&subrange_of(&v, 0, a)),
                    name: string_from_chars(&subrange_of(&v, a + 1, a + 1 + e)),
                    after: string_from_chars(&subrange_of(&v, end, v.len())),
                    dollar: false,
                };
                proof {
                    assert(v@.subrange(0, a as int) =~= v@.take(a as int));
                    assert(v@.subrange(end as int, v@.len() as int) =~= v@.skip(end as int));
                }
                return ExpandStep::Lookup(p);
            }
        }
    }
    if let Some(a) = find_char_in(&v, '$') {
        proof {
            lemma_find_char_spec(v@, '$');
        }
        let open_brace: [char; 1] = ['{'];
        proof {
            assert(open_brace@ == seq!['{']);
            assert(a < v.len());
        }
        if crate::text::matches_at(&v, &open_brace, a + 1) {
            let rest = subrange_of(&v, a + 2, v.len());
            proof {
                assert(v@.skip(a + 1).take(1)[0] == v@[a + 1]);
                assert(rest@ =~= v@.skip(a + 2));
            }
            if let Some(e) = find_char_in(&rest, '}') {
                proof {
                    lemma_find_char_spec(rest@, '}');
                }
                let end = a + 3 + e;
                let p = PendingVar {
                    before: string_from_chars(&subrange_of(&v, 0, a)),
                    name: string_from_chars(&subrange_of(&v, a + 2, a + 2 + e)),
                    after: string_from_chars(&subrange_of(&v, end, v.len())),
                    dollar: true,
                };
                proof {
                    assert(v@.subrange(0, a as int) =~= v@.take(a as int));
                    assert(v@.subrange(end as int, v@.len() as int) =~= v@.skip(end as int));
                }
                return ExpandStep::Lookup(p);
            }
        } else {
            let n = name_len_exec(&v, a + 1);
            if n > 0 {
                let end = a + 1 + n;
                let p = PendingVar {
                    before: string_from_chars(&subrange_of(&v, 0, a)),
                    name: string_from_chars(&subrange_of(&v, a + 1, end)),
                    after: string_from_chars(&subrange_of(&v, end, v.len())),
                    dollar: true,
                };
                proof {
                    assert(v@.subrange(0, a as int) =~= v@.take(a as int));
                    assert(v@.subrange(end as int, v@.len() as int) =~= v@.skip(end as int));
                }
                return ExpandStep::Lookup(p);
            }
        }
    }
    ExpandStep::Done(string_from_chars(&v))
}

/// The expansion after the value of a pending variable is put in place of
/// its reference.
pub fn expand_env_vars_resume(pending: PendingVar, value: &str) -> (e: Expansion)
    ensures
        e.text@ == pending.before@ + value@ + pending.after@,
        e.dollar_phase == pending.dollar,
{
    let mut text = pending.before;
    text.append(value);
    text.append(pending.after.as_str());
    Expansion { text, dollar_phase: pending.dollar }
}

/// A found reference is a piece of the text: `%NAME%`, `${NAME}` or `$NAME`
/// between what stands before and after it; a `%NAME%` name holds no `%`,
/// a `${NAME}` name holds no `}`, and a bare `$NAME` is not empty.
pub proof fn law_reference_in_text(text: Seq<char>, dollar_phase: bool, step: ExpandStep)
    requires
        next_step_ok(text, dollar_phase, step),
        step is Lookup,
    ensures
        step matches ExpandStep::Lookup(p) && {
            ||| !p.dollar && text == p.before@ + seq!['%'] + p.name@ + seq!['%'] + p.after@
                && find_char(p.name@, '%') is None
            ||| p.dollar && text == p.before@ + seq!['$', '{'] + p.name@ + seq!['}'] + p.after@
                && find_char(p.name@, '}') is None
            ||| p.dollar && text == p.before@ + seq!['$'] + p.name@ + p.after@ && p.name@.len()
                > 0
        },
{
    let pct = if dollar_phase {
        None
    } else {
        percent_ref(text)
    };
    if let ExpandStep::Lookup(p) = step {
        match pct {
            Some((a, e)) => {
                lemma_find_char_spec(text, '%');
                lemma_find_char_spec(text.skip(a + 1), '%');
                let ee = e - a - 2;
                assert(text.skip(a + 1)[ee] == '%');
                assert(text[e - 1] == '%');
                assert(text =~= p.before@ + seq!['%'] + p.name@ + seq!['%'] + p.after@);
                assert forall|k: int| 0 <= k < p.name@.len() implies p.name@[k] != '%' by {
                    assert(p.name@[k] == text.skip(a + 1)[k]);
                }
                crate::text::lemma_find_char_none(p.name@, '%');
            },
            None => {
                lemma_find_char_spec(text, '$');
                let (a, ns, ne, e) = dollar_ref(text).unwrap();
                if starts_with(text.skip(a + 1), seq!['{']) {
                    lemma_find_char_spec(text.skip(a + 2), '}');
                    assert(text.skip(a + 1).take(1)[0] == text[a + 1]);
                    assert(text.skip(a + 2)[ne - a - 2] == '}');
                    assert(text =~= p.before@ + seq!['$', '{'] + p.name@ + seq!['}'] + p.after@);
                    assert forall|k: int| 0 <= k < p.name@.len() implies p.name@[k] != '}' by {
                        assert(p.name@[k] == text.skip(a + 2)[k]);
                    }
                    crate::text::lemma_find_char_none(p.name@, '}');
                } else {
                    lemma_name_len_bound(text.skip(a + 1));
                    assert(text =~= p.before@ + seq!['$'] + p.name@ + p.after@);
                }
            },
        }
    }
}

/// A path without `%` and `$` is its own expansion, found in one step.
pub proof fn law_plain_path_unchanged(text: Seq<char>, dollar_phase: bool, step: ExpandStep)
    requires
        next_step_ok(text, dollar_phase, step),
        forall|k: int| 0 <= k < text.len() ==> text[k] != '%' && text[k] != '$',
    ensures
        step matches ExpandStep::Done(r) && r@ == text,
{
    crate::text::lemma_find_char_none(text, '%');
    crate::text::lemma_find_char_none(text, '$');
}

/// Once the `%NAME%` references are done, they stay done: in the `$` phase
/// every reference found is a `$` reference, so resuming keeps the phase.
pub proof fn law_dollar_phase_is_final(text: Seq<char>, step: ExpandStep)
    requires
        next_step_ok(text, true, step),
    ensures
        step matches ExpandStep::Lookup(p) ==> p.dollar,
{
}

} // verus!
