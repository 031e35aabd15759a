//! Synchronising the configuration file with a WebDAV server: where the file
//! lives on the server, and what each HTTP status means.
use vstd::prelude::*;
use crate::text::{chars_of, string_from_chars, subrange_of};

verus! {

/// `s` without the slashes at its end (`str::trim_end_matches('/')`).
pub open spec fn trim_trailing_slashes(s: Seq<char>) -> Seq<char>
    decreases s.len(),
{
    if s.len() > 0 && s.last() == '/' {
        trim_trailing_slashes(s.drop_last())
    } else {
        s
    }
}

pub open spec fn dir_url_spec(base: Seq<char>) -> Seq<char> {
    trim_trailing_slashes(base) + "/YAUZ/"@
}

pub open spec fn file_url_spec(base: Seq<char>) -> Seq<char> {
    trim_trailing_slashes(base) + "/YAUZ/yauz_config.ini"@
}

pub fn trim_end_slashes(s: &str) -> (r: String)
    ensures
        r@ == trim_trailing_slashes(s@),
{
    let v = chars_of(s);
    let mut j: usize = v.len();
    proof {
        assert(v@.take(j as int) =~= v@);
    }
    while j > 0 && v[j - 1] == '/'
        invariant
            0 <= j <= v@.len(),
            trim_trailing_slashes(v@) == trim_trailing_slashes(v@.take(j as int)),
        decreases j,
    {
        proof {
            assert(v@.take(j as int).drop_last() =~= v@.take(j - 1));
        }
        j = j - 1;
    }
    let r = subrange_of(&v, 0, j);
    proof {
        assert(r@ =~= v@.take(j as int));
    }
    string_from_chars(&r)
}

/// The URL of the application's directory on the server: the base URL
/// without its trailing slashes, then `/YAUZ/`.
pub fn webdav_dir_url(base_url: &str) -> (url: String)
    ensures
        url@ == dir_url_spec(base_url@),
{
    let mut url = trim_end_slashes(base_url);
    url.append("/YAUZ/");
    url
}

/// The URL of the configuration file on the server: the base URL without
/// its trailing slashes, then `/YAUZ/yauz_config.ini`.
pub fn webdav_file_url(base_url: &str) -> (url: String)
    ensures
        url@ == file_url_spec(base_url@),
{
    let mut url = trim_end_slashes(base_url);
    url.append("/YAUZ/yauz_config.ini");
    url
}

/// The file lives in the directory: its URL is the directory's URL followed
/// by the file name.
pub proof fn law_file_url_in_dir_url(base: Seq<char>)
    ensures
        file_url_spec(base) == dir_url_spec(base) + "yauz_config.ini"@,
{
    reveal_strlit("/YAUZ/");
    reveal_strlit("/YAUZ/yauz_config.ini");
    reveal_strlit("yauz_config.ini");
    assert(file_url_spec(base) =~= dir_url_spec(base) + "yauz_config.ini"@);
}

/// Trailing slashes of the base URL make no difference.
pub proof fn law_urls_ignore_trailing_slash(base: Seq<char>)
    ensures
        dir_url_spec(base.push('/')) == dir_url_spec(base),
        file_url_spec(base.push('/')) == file_url_spec(base),
{
    assert(base.push('/').drop_last() =~= base);
}

// ---------------------------------------------------------------------------
// HTTP statuses
// ---------------------------------------------------------------------------

/// How `reqwest::StatusCode` displays a status: the code and its canonical
/// reason phrase.
pub uninterp spec fn http_status_text(code: u16) -> Seq<char>;

pub open spec fn digit_char(d: int) -> char {
    ((d + 48) as u32) as char
}

/// The three decimal digits of a code from 100 to 999.
pub open spec fn three_digits(code: u16) -> Seq<char> {
    seq![digit_char(code as int / 100), digit_char((code as int / 10) % 10), digit_char(code as int % 10)]
}

/// `Display` of the `reqwest::StatusCode` made by `StatusCode::from_u16`:
/// the code, a space, and the canonical reason phrase (or `<unknown status
/// code>`). The contract names the text and states its first four
/// characters; the reason phrases are a table of the `http` crate.
#[verifier::external_body]
fn status_text(code: u16) -> (text: String)
    requires
        100 <= code <= 999,
    ensures
        text@ == http_status_text(code),
        text@.len() >= 4,
        text@.take(4) == three_digits(code).push(' '),
{
    match reqwest::StatusCode::from_u16(code) {
        Ok(status) => status.to_string(),
        Err(e) => e.to_string(),
    }
}

/// A status in the success class, 200 to 299, as `StatusCode::is_success`
/// defines it.
pub open spec fn is_success(code: u16) -> bool {
    200 <= code <= 299
}

pub fn status_is_success(code: u16) -> (r: bool)
    ensures
        r == is_success(code),
{
    200 <= code && code <= 299
}

fn prefixed(prefix: &str, code: u16) -> (r: String)
    requires
        100 <= code <= 999,
    ensures
        r@ == prefix@ + http_status_text(code),
{
    let mut r = String::from_str(prefix);
    let t = status_text(code);
    r.append(t.as_str());
    r
}

/// What the connection test makes of the server's answer: success, a
/// rejected login (`auth_fail`) for 401 and 403, or `HTTP ` and the status.
pub fn webdav_test_outcome(status: u16) -> (r: Result<(), String>)
    requires
        100 <= status <= 999,
    ensures
        is_success(status) ==> r is Ok,
        !is_success(status) && (status == 401 || status == 403) ==> (r matches Err(m) && m@
            == "auth_fail"@),
        !is_success(status) && status != 401 && status != 403 ==> (r matches Err(m) && m@ == "HTTP "@
            + http_status_text(status)),
{
    if status_is_success(status) {
        Ok(())
    } else if status == 401 || status == 403 {
        Err(String::from_str("auth_fail"))
    } else {
        Err(prefixed("HTTP ", status))
    }
}

/// What creating the application's directory makes of the answer: done on
/// 201 (created), 405 (already there) or any success; otherwise `MKCOL
/// HTTP ` and the status. A redirect such as 301 is an error here: the
/// HTTP client follows redirects itself (up to ten, repeating the request),
/// so the status judged is that of the final answer.
pub fn webdav_mkcol_outcome(status: u16) -> (r: Result<(), String>)
    requires
        100 <= status <= 999,
    ensures
        (status == 201 || status == 405 || is_success(status)) ==> r is Ok,
        !(status == 201 || status == 405 || is_success(status)) ==> (r matches Err(m) && m@
            == "MKCOL HTTP "@ + http_status_text(status)),
{
    if status == 201 || status == 405 || status_is_success(status) {
        Ok(())
    } else {
        Err(prefixed("MKCOL HTTP ", status))
    }
}

/// What uploading the configuration makes of the answer: done on any
/// success (201 and 204 among them); otherwise `HTTP ` and the status.
pub fn webdav_push_outcome(status: u16) -> (r: Result<(), String>)
    requires
        100 <= status <= 999,
    ensures
        (is_success(status) || status == 201 || status == 204) ==> r is Ok,
        !(is_success(status) || status == 201 || status == 204) ==> (r matches Err(m) && m@
            == "HTTP "@ + http_status_text(status)),
{
    if status_is_success(status) || status == 201 || status == 204 {
        Ok(())
    } else {
        Err(prefixed("HTTP ", status))
    }
}

/// What downloading the configuration makes of the answer: go on with the
/// body on success; otherwise `HTTP ` and the status.
pub fn webdav_pull_outcome(status: u16) -> (r: Result<(), String>)
    requires
        100 <= status <= 999,
    ensures
        is_success(status) ==> r is Ok,
        !is_success(status) ==> (r matches Err(m) && m@ == "HTTP "@ + http_status_text(status)),
{
    if status_is_success(status) {
        Ok(())
    } else {
        Err(prefixed("HTTP ", status))
    }
}

/// The connection test needs a URL: `URL is empty` otherwise.
pub fn webdav_test_url_check(url: &str) -> (r: Result<(), String>)
    ensures
        url@.len() > 0 ==> r is Ok,
        url@.len() == 0 ==> (r matches Err(m) && m@ == "URL is empty"@),
{
    if url.is_empty() {
        Err(String::from_str("URL is empty"))
    } else {
        Ok(())
    }
}

/// Uploading and downloading need a configured URL: `WebDAV URL not
/// configured` otherwise.
pub fn webdav_sync_url_check(url: &str) -> (r: Result<(), String>)
    ensures
        url@.len() > 0 ==> r is Ok,
        url@.len() == 0 ==> (r matches Err(m) && m@ == "WebDAV URL not configured"@),
{
    if url.is_empty() {
        Err(String::from_str("WebDAV URL not configured"))
    } else {
        Ok(())
    }
}

} // verus!
