//! Talking to the 7-Zip command-line tool: the arguments of each command and
//! what its output means.
use vstd::prelude::*;
use crate::config::{chars_eq, strings_view};
use crate::text::{
    chars_of, contains_chars, contains_str, from_utf8_lossy, lines, split_lines,
    split_whitespace_chars, starts_with, starts_with_chars, string_from_chars, utf8_lossy, words,
};

verus! {

// ---------------------------------------------------------------------------
// Command lines
// ---------------------------------------------------------------------------

/// The arguments that extract `archive` into `out_dir`, overwriting existing
/// files, with the given password if any.
pub open spec fn extract_args_spec(
    archive: Seq<char>,
    out_dir: Seq<char>,
    password: Option<Seq<char>>,
) -> Seq<Seq<char>> {
    let base = seq!["x"@, archive, "-o"@ + out_dir, "-aoa"@];
    match password {
        Some(pw) => base.push("-p"@ + pw),
        None => base,
    }
}

fn concat_str(a: &str, b: &str) -> (r: String)
    ensures
        r@ == a@ + b@,
{
    let mut r = String::from_str(a);
    r.append(b);
    r
}

/// The 7-Zip arguments of an extraction (`x`).
pub fn extract_args(archive: &str, out_dir: &str, password: Option<&str>) -> (args: Vec<String>)
    ensures
        strings_view(args@) == extract_args_spec(
            archive@,
            out_dir@,
            match password {
                Some(p) => Some(p@),
                None => None,
            },
        ),
{
    let mut args: Vec<String> = Vec::new();
    args.push(String::from_str("x"));
    args.push(String::from_str(archive));
    args.push(concat_str("-o", out_dir));
    args.push(String::from_str("-aoa"));
    if let Some(pw) = password {
        args.push(concat_str("-p", pw));
    }
    proof {
        let v = strings_view(args@);
        match password {
            Some(p) => assert(v =~= extract_args_spec(archive@, out_dir@, Some(p@))),
            None => assert(v =~= extract_args_spec(archive@, out_dir@, None)),
        }
    }
    args
}

/// The 7-Zip arguments that test `archive` with an empty password (`t`),
/// which fails in a recognisable way when the archive is encrypted.
pub fn test_args(archive: &str) -> (args: Vec<String>)
    ensures
        strings_view(args@) == seq!["t"@, archive@, "-p-"@],
{
    let mut args: Vec<String> = Vec::new();
    args.push(String::from_str("t"));
    args.push(String::from_str(archive));
    args.push(String::from_str("-p-"));
    proof {
        assert(strings_view(args@) =~= seq!["t"@, archive@, "-p-"@]);
    }
    args
}

/// The 7-Zip arguments that print its information screen (`i`), whose first
/// line tells the version.
pub fn version_args() -> (args: Vec<String>)
    ensures
        strings_view(args@) == seq!["i"@],
{
    let mut args: Vec<String> = Vec::new();
    args.push(String::from_str("i"));
    proof {
        assert(strings_view(args@) =~= seq!["i"@]);
    }
    args
}

// ---------------------------------------------------------------------------
// Output
// ---------------------------------------------------------------------------

/// The version that a line of 7-Zip's information screen tells, if it is the
/// banner line: `7-Zip (z) 24.09 ...` gives `24.09 (z)`, `7-Zip 26.00 ZS
/// v1.5.7 ...` gives `26.00 ZS v1.5.7`, and `7-Zip 24.09 ...` gives `24.09`.
pub open spec fn version_of_line(line: Seq<char>) -> Option<Seq<char>> {
    if !starts_with(line, "7-Zip"@) {
        None
    } else {
        let p = words(line);
        if p.len() >= 3 && p[1] == "(z)"@ {
            Some(p[2] + " (z)"@)
        } else if p.len() >= 4 && p[2] == "ZS"@ {
            Some(p[1] + " ZS "@ + p[3])
        } else if p.len() >= 2 {
            Some(p[1])
        } else {
            None
        }
    }
}

/// The version told by the first banner line, or `?`.
pub open spec fn version_of_lines(ls: Seq<Seq<char>>) -> Seq<char>
    decreases ls.len(),
{
    if ls.len() == 0 {
        "?"@
    } else {
        match version_of_line(ls[0]) {
            Some(v) => v,
            None => version_of_lines(ls.drop_first()),
        }
    }
}

fn version_of_line_exec(line: &[char]) -> (r: Option<String>)
    ensures
        match version_of_line(line@) {
            Some(v) => r matches Some(s) && s@ == v,
            None => r is None,
        },
{
    if !starts_with_chars(line, &chars_of("7-Zip")) {
        return None;
    }
    let parts = split_whitespace_chars(line);
    let ghost p = parts@.map_values(|w: Vec<char>| w@);
    proof {
        assert(p.len() == parts@.len());
    }
    if parts.len() >= 3 && chars_eq(&parts[1], &chars_of("(z)")) {
        proof {
            assert(p[1] == parts@[1]@);
            assert(p[2] == parts@[2]@);
        }
        let mut s = string_from_chars(&parts[2]);
        s.append(" (z)");
        return Some(s);
    }
    if parts.len() >= 4 && chars_eq(&parts[2], &chars_of("ZS")) {
        proof {
            assert(p[1] == parts@[1]@);
            assert(p[2] == parts@[2]@);
            assert(p[3] == parts@[3]@);
        }
        let mut s = string_from_chars(&parts[1]);
        s.append(" ZS ");
        s.append(string_from_chars(&parts[3]).as_str());
        return Some(s);
    }
    if parts.len() >= 2 {
        proof {
            assert(p[1] == parts@[1]@);
        }
        return Some(string_from_chars(&parts[1]));
    }
    None
}

/// The 7-Zip version that the information screen `output` tells, or `?`
/// when no banner line tells one.
pub fn seven_zip_version_from_output(output: &str) -> (version: String)
    ensures
        version@ == version_of_lines(lines(output@)),
{
    let v = chars_of(output);
    let ls = split_lines(&v);
    let ghost all = lines(v@);
    let mut i: usize = 0;
    proof {
        assert(all.skip(0) =~= all);
    }
    while i < ls.len()
        invariant
            0 <= i <= ls@.len(),
            ls@.len() == all.len(),
            all == lines(output@),
            forall|k: int| 0 <= k < ls@.len() ==> (#[trigger] ls@[k])@ == all[k],
            version_of_lines(all) == version_of_lines(all.skip(i as int)),
        decreases ls@.len() - i,
    {
        proof {
            assert(all.skip(i as int)[0] == all[i as int]);
            assert(all.skip(i as int).drop_first() =~= all.skip(i + 1));
        }
        let found = version_of_line_exec(&ls[i]);
        proof {
            assert(ls@[i as int]@ == all[i as int]);
            assert(version_of_lines(all.skip(i as int)) == match version_of_line(all[i as int]) {
                Some(v) => v,
                None => version_of_lines(all.skip(i + 1)),
            });
        }
        if let Some(s) = found {
            return s;
        }
        i = i + 1;
    }
    proof {
        assert(all.skip(i as int).len() == 0);
    }
    String::from_str("?")
}

/// The 7-Zip version from the raw bytes that the information screen wrote
/// to standard output.
pub fn seven_zip_version(stdout: &[u8]) -> (version: String)
    ensures
        version@ == version_of_lines(lines(utf8_lossy(stdout@))),
{
    let text = from_utf8_lossy(stdout);
    seven_zip_version_from_output(text.as_str())
}

/// The messages by which 7-Zip says that an archive needs a password.
pub open spec fn asks_for_password(text: Seq<char>) -> bool {
    ||| contains_str(text, "Wrong password"@)
    ||| contains_str(text, "Cannot open encrypted archive"@)
    ||| contains_str(text, "Enter password"@)
    ||| contains_str(text, "Encrypted"@)
}

/// Whether the output of testing an archive with an empty password (its
/// standard output followed by its standard error) says that the archive
/// needs a password.
pub fn password_required(stdout: &[u8], stderr: &[u8]) -> (r: bool)
    ensures
        r == asks_for_password(utf8_lossy(stdout@) + utf8_lossy(stderr@)),
{
    let mut combined = from_utf8_lossy(stdout);
    let err = from_utf8_lossy(stderr);
    combined.append(err.as_str());
    let c = chars_of(combined.as_str());
    contains_chars(&c, &chars_of("Wrong password")) || contains_chars(
        &c,
        &chars_of("Cannot open encrypted archive"),
    ) || contains_chars(&c, &chars_of("Enter password")) || contains_chars(
        &c,
        &chars_of("Encrypted"),
    )
}

/// The outcome of an extraction whose process exited with `exit_code`
/// (`None` when it ended without one): success exactly when the code is 0,
/// and otherwise the standard output followed by the standard error as the
/// message.
pub fn extract_outcome(exit_code: Option<i32>, stdout: &[u8], stderr: &[u8]) -> (r: (bool, String))
    ensures
        r.0 == (exit_code == Some(0i32)),
        r.0 ==> r.1@ == Seq::<char>::empty(),
        !r.0 ==> r.1@ == utf8_lossy(stdout@) + utf8_lossy(stderr@),
{
    let code = match exit_code {
        Some(c) => c,
        None => -1,
    };
    if code == 0 {
        (true, String::new())
    } else {
        let mut msg = from_utf8_lossy(stdout);
        let err = from_utf8_lossy(stderr);
        msg.append(err.as_str());
        (false, msg)
    }
}

} // verus!
