//! The INI configuration file: what reading it yields and what saving writes.
//!
//! The file has three sections. `[settings]` holds the 7-Zip directory of
//! each platform (`7zip_dir_windows=`, `7zip_dir_macos=`, and the older
//! platform-less `7zip_dir=`) and `language=`; `[webdav]` holds `url=`,
//! `user=` and `pass=`; `[passwords]` holds one password per line.
use vstd::prelude::*;
use crate::platform::Platform;
use crate::text::{
    chars_of, ends_with, ends_with_chars, find_char, is_ws, lemma_find_char_spec, lines, strip_cr, split_lines, starts_with, starts_with_chars,
    string_from_chars, strip_prefix, subrange_of, trim, trim_chars,
};

verus! {

// ---------------------------------------------------------------------------
// The model
// ---------------------------------------------------------------------------

/// What has been read so far while going through the file line by line.
pub struct Scan {
    pub section: Seq<char>,
    pub passwords: Seq<Seq<char>>,
    pub dir_windows: Seq<char>,
    pub dir_macos: Seq<char>,
    pub dir_legacy: Seq<char>,
    pub language: Seq<char>,
    pub url: Seq<char>,
    pub user: Seq<char>,
    pub pass: Seq<char>,
}

pub open spec fn empty_scan() -> Scan {
    Scan {
        section: seq![],
        passwords: seq![],
        dir_windows: seq![],
        dir_macos: seq![],
        dir_legacy: seq![],
        language: seq![],
        url: seq![],
        user: seq![],
        pass: seq![],
    }
}

pub open spec fn key_dir_windows() -> Seq<char> {
    "7zip_dir_windows="@
}

pub open spec fn key_dir_macos() -> Seq<char> {
    "7zip_dir_macos="@
}

pub open spec fn key_dir_legacy() -> Seq<char> {
    "7zip_dir="@
}

pub open spec fn key_language() -> Seq<char> {
    "language="@
}

pub open spec fn key_url() -> Seq<char> {
    "url="@
}

pub open spec fn key_user() -> Seq<char> {
    "user="@
}

pub open spec fn key_pass() -> Seq<char> {
    "pass="@
}

/// The key under which a platform's 7-Zip directory is saved.
pub open spec fn dir_key(p: Platform) -> Seq<char> {
    match p {
        Platform::Windows => key_dir_windows(),
        Platform::MacOs => key_dir_macos(),
    }
}

/// A trimmed line of the `[settings]` section.
pub open spec fn settings_line(st: Scan, t: Seq<char>) -> Scan {
    let st1 = match strip_prefix(t, key_dir_windows()) {
        Some(v) => Scan { dir_windows: trim(v), ..st },
        None => match strip_prefix(t, key_dir_macos()) {
            Some(v) => Scan { dir_macos: trim(v), ..st },
            None => match strip_prefix(t, key_dir_legacy()) {
                Some(v) => Scan { dir_legacy: trim(v), ..st },
                None => st,
            },
        },
    };
    match strip_prefix(t, key_language()) {
        Some(v) => Scan { language: trim(v), ..st1 },
        None => st1,
    }
}

/// A trimmed line of the `[webdav]` section.
pub open spec fn webdav_line(st: Scan, t: Seq<char>) -> Scan {
    let st1 = match strip_prefix(t, key_url()) {
        Some(v) => Scan { url: trim(v), ..st },
        None => st,
    };
    let st2 = match strip_prefix(t, key_user()) {
        Some(v) => Scan { user: trim(v), ..st1 },
        None => st1,
    };
    match strip_prefix(t, key_pass()) {
        Some(v) => Scan { pass: trim(v), ..st2 },
        None => st2,
    }
}

/// A trimmed line of the form `[name]`.
pub open spec fn is_section_header(t: Seq<char>) -> bool {
    starts_with(t, seq!['[']) && ends_with(t, seq![']'])
}

/// The effect of one line of the file: a `[name]` line opens a section,
/// blank lines are skipped, a line of `[passwords]` is a password, and the
/// `key=value` lines of the other two sections set their value (trimmed).
/// Lines of any other section are ignored.
pub open spec fn scan_line(st: Scan, line: Seq<char>) -> Scan {
    let t = trim(line);
    if is_section_header(t) {
        Scan { section: t.subrange(1, t.len() - 1), ..st }
    } else if t.len() == 0 {
        st
    } else if st.section == "passwords"@ {
        Scan { passwords: st.passwords.push(t), ..st }
    } else if st.section == "settings"@ {
        settings_line(st, t)
    } else if st.section == "webdav"@ {
        webdav_line(st, t)
    } else {
        st
    }
}

pub open spec fn scan_lines(st: Scan, ls: Seq<Seq<char>>) -> Scan
    decreases ls.len(),
{
    if ls.len() == 0 {
        st
    } else {
        scan_line(scan_lines(st, ls.drop_last()), ls.last())
    }
}

/// The loaded configuration, as values.
pub struct ConfigView {
    pub passwords: Seq<Seq<char>>,
    pub seven_zip_dir: Seq<char>,
    pub seven_zip_dir_other: Seq<char>,
    pub language: Seq<char>,
    pub first_run: bool,
    pub webdav_url: Seq<char>,
    pub webdav_user: Seq<char>,
    pub webdav_pass: Seq<char>,
    pub migrated: bool,
}

/// The result of reading the whole file on `platform`: the current
/// platform's directory falls back to the legacy `7zip_dir=` value when its
/// own key is empty (that is a migration), and it is a first run when no
/// directory results.
pub open spec fn settle(s: Scan, platform: Platform) -> ConfigView {
    let (own, other) = match platform {
        Platform::Windows => (s.dir_windows, s.dir_macos),
        Platform::MacOs => (s.dir_macos, s.dir_windows),
    };
    let migrated = own.len() == 0 && s.dir_legacy.len() != 0;
    let cur = if migrated {
        s.dir_legacy
    } else {
        own
    };
    ConfigView {
        passwords: s.passwords,
        seven_zip_dir: cur,
        seven_zip_dir_other: other,
        language: s.language,
        first_run: cur.len() == 0,
        webdav_url: s.url,
        webdav_user: s.user,
        webdav_pass: s.pass,
        migrated,
    }
}

/// What loading yields: from a missing file, nothing but a first run; from
/// a file's text, the settled scan of its lines.
pub open spec fn load_config_spec(content: Option<Seq<char>>, platform: Platform) -> ConfigView {
    match content {
        None => ConfigView {
            passwords: seq![],
            seven_zip_dir: seq![],
            seven_zip_dir_other: seq![],
            language: seq![],
            first_run: true,
            webdav_url: seq![],
            webdav_user: seq![],
            webdav_pass: seq![],
            migrated: false,
        },
        Some(text) => settle(scan_lines(empty_scan(), lines(text)), platform),
    }
}

/// Lines joined, each followed by a line feed.
pub open spec fn join_lines(ls: Seq<Seq<char>>) -> Seq<char>
    decreases ls.len(),
{
    if ls.len() == 0 {
        seq![]
    } else {
        ls[0] + seq!['\n'] + join_lines(ls.drop_first())
    }
}

/// The lines that saving writes, in order.
pub open spec fn config_lines(
    passwords: Seq<Seq<char>>,
    dir: Seq<char>,
    dir_other: Seq<char>,
    language: Seq<char>,
    url: Seq<char>,
    user: Seq<char>,
    pass: Seq<char>,
    platform: Platform,
) -> Seq<Seq<char>> {
    seq![
        "[settings]"@,
        dir_key(platform) + dir,
        dir_key(platform.other()) + dir_other,
        key_language() + language,
        seq![],
        "[webdav]"@,
        key_url() + url,
        key_user() + user,
        key_pass() + pass,
        seq![],
        "[passwords]"@,
    ] + passwords
}

/// The text that saving writes.
pub open spec fn render_config_spec(
    passwords: Seq<Seq<char>>,
    dir: Seq<char>,
    dir_other: Seq<char>,
    language: Seq<char>,
    url: Seq<char>,
    user: Seq<char>,
    pass: Seq<char>,
    platform: Platform,
) -> Seq<char> {
    join_lines(config_lines(passwords, dir, dir_other, language, url, user, pass, platform))
}

pub open spec fn strings_view(v: Seq<String>) -> Seq<Seq<char>> {
    v.map_values(|s: String| s@)
}

pub open spec fn option_str_view(o: Option<&str>) -> Option<Seq<char>> {
    match o {
        Some(s) => Some(s@),
        None => None,
    }
}

// ---------------------------------------------------------------------------
// The executable functions
// ---------------------------------------------------------------------------

/// The configuration as loaded at start-up.
pub struct LoadedConfig {
    pub passwords: Vec<String>,
    pub seven_zip_dir: String,
    pub seven_zip_dir_other: String,
    pub language: String,
    pub first_run: bool,
    pub webdav_url: String,
    pub webdav_user: String,
    pub webdav_pass: String,
    pub migrated: bool,
}

impl View for LoadedConfig {
    type V = ConfigView;

    open spec fn view(&self) -> ConfigView {
        ConfigView {
            passwords: strings_view(self.passwords@),
            seven_zip_dir: self.seven_zip_dir@,
            seven_zip_dir_other: self.seven_zip_dir_other@,
            language: self.language@,
            first_run: self.first_run,
            webdav_url: self.webdav_url@,
            webdav_user: self.webdav_user@,
            webdav_pass: self.webdav_pass@,
            migrated: self.migrated,
        }
    }
}

struct ScanBuf {
    section: Vec<char>,
    passwords: Vec<Vec<char>>,
    dir_windows: Vec<char>,
    dir_macos: Vec<char>,
    dir_legacy: Vec<char>,
    language: Vec<char>,
    url: Vec<char>,
    user: Vec<char>,
    pass: Vec<char>,
}

impl View for ScanBuf {
    type V = Scan;

    closed spec fn view(&self) -> Scan {
        Scan {
            section: self.section@,
            passwords: self.passwords@.map_values(|p: Vec<char>| p@),
            dir_windows: self.dir_windows@,
            dir_macos: self.dir_macos@,
            dir_legacy: self.dir_legacy@,
            language: self.language@,
            url: self.url@,
            user: self.user@,
            pass: self.pass@,
        }
    }
}

pub fn chars_eq(a: &[char], b: &[char]) -> (r: bool)
    ensures
        r == (a@ == b@),
{
    if a.len() != b.len() {
        return false;
    }
    let mut i: usize = 0;
    while i < a.len()
        invariant
            a@.len() == b@.len(),
            0 <= i <= a@.len(),
            forall|k: int| 0 <= k < i ==> a@[k] == b@[k],
        decreases a@.len() - i,
    {
        if a[i] != b[i] {
            return false;
        }
        i = i + 1;
    }
    assert(a@ =~= b@);
    true
}

pub fn strip_prefix_chars(v: &[char], p: &[char]) -> (r: Option<Vec<char>>)
    ensures
        match strip_prefix(v@, p@) {
            Some(rest) => r matches Some(x) && x@ == rest,
            None => r is None,
        },
{
    if starts_with_chars(v, p) {
        Some(subrange_of(v, p.len(), v.len()))
    } else {
        None
    }
}

fn settings_line_exec(st: &mut ScanBuf, t: &[char])
    ensures
        final(st)@ == settings_line(old(st)@, t@),
{
    let k_win = chars_of("7zip_dir_windows=");
    let k_mac = chars_of("7zip_dir_macos=");
    let k_leg = chars_of("7zip_dir=");
    let k_lang = chars_of("language=");
    if let Some(v) = strip_prefix_chars(t, &k_win) {
        st.dir_windows = trim_chars(&v);
    } else if let Some(v) = strip_prefix_chars(t, &k_mac) {
        st.dir_macos = trim_chars(&v);
    } else if let Some(v) = strip_prefix_chars(t, &k_leg) {
        st.dir_legacy = trim_chars(&v);
    }
    if let Some(v) = strip_prefix_chars(t, &k_lang) {
        st.language = trim_chars(&v);
    }
}

fn webdav_line_exec(st: &mut ScanBuf, t: &[char])
    ensures
        final(st)@ == webdav_line(old(st)@, t@),
{
    let k_url = chars_of("url=");
    let k_user = chars_of("user=");
    let k_pass = chars_of("pass=");
    if let Some(v) = strip_prefix_chars(t, &k_url) {
        st.url = trim_chars(&v);
    }
    if let Some(v) = strip_prefix_chars(t, &k_user) {
        st.user = trim_chars(&v);
    }
    if let Some(v) = strip_prefix_chars(t, &k_pass) {
        st.pass = trim_chars(&v);
    }
}

fn scan_line_exec(st: &mut ScanBuf, line: &[char])
    ensures
        final(st)@ == scan_line(old(st)@, line@),
{
    let t = trim_chars(line);
    let open_br: [char; 1] = ['['];
    let close_br: [char; 1] = [']'];
    proof {
        assert(open_br@ == seq!['[']);
        assert(close_br@ == seq![']']);
    }
    if starts_with_chars(&t, &open_br) && ends_with_chars(&t, &close_br) {
        st.section = subrange_of(&t, 1, t.len() - 1);
    } else if t.len() == 0 {
    } else if chars_eq(&st.section, &chars_of("passwords")) {
        let ghost old_pw = st.passwords@;
        st.passwords.push(t);
        proof {
            assert(st.passwords@.map_values(|p: Vec<char>| p@) =~= old_pw.map_values(
                |p: Vec<char>| p@,
            ).push(t@));
        }
    } else if chars_eq(&st.section, &chars_of("settings")) {
        settings_line_exec(st, &t);
    } else if chars_eq(&st.section, &chars_of("webdav")) {
        webdav_line_exec(st, &t);
    }
}

fn strings_of(v: &Vec<Vec<char>>) -> (r: Vec<String>)
    ensures
        strings_view(r@) == v@.map_values(|p: Vec<char>| p@),
{
    let mut r: Vec<String> = Vec::new();
    let mut i: usize = 0;
    while i < v.len()
        invariant
            0 <= i <= v@.len(),
            strings_view(r@) == v@.take(i as int).map_values(|p: Vec<char>| p@),
        decreases v@.len() - i,
    {
        r.push(string_from_chars(&v[i]));
        proof {
            assert(v@.take(i + 1).map_values(|p: Vec<char>| p@) =~= v@.take(i as int).map_values(
                |p: Vec<char>| p@,
            ).push(v@[i as int]@));
            assert(strings_view(r@) =~= v@.take(i + 1).map_values(|p: Vec<char>| p@));
        }
        i = i + 1;
    }
    assert(v@.take(i as int) =~= v@);
    r
}

/// The configuration that start-up reads: `content` is the text of the
/// configuration file, or `None` when there is no such file.
pub fn load_config(content: Option<&str>, platform: Platform) -> (cfg: LoadedConfig)
    ensures
        cfg@ == load_config_spec(option_str_view(content), platform),
{
    let text = match content {
        None => {
            let cfg = LoadedConfig {
                passwords: Vec::new(),
                seven_zip_dir: String::new(),
                seven_zip_dir_other: String::new(),
                language: String::new(),
                first_run: true,
                webdav_url: String::new(),
                webdav_user: String::new(),
                webdav_pass: String::new(),
                migrated: false,
            };
            proof {
                assert(strings_view(cfg.passwords@) =~= Seq::<Seq<char>>::empty());
            }
            return cfg;
        },
        Some(t) => t,
    };
    let chars = chars_of(text);
    let ls = split_lines(&chars);
    let mut st = ScanBuf {
        section: Vec::new(),
        passwords: Vec::new(),
        dir_windows: Vec::new(),
        dir_macos: Vec::new(),
        dir_legacy: Vec::new(),
        language: Vec::new(),
        url: Vec::new(),
        user: Vec::new(),
        pass: Vec::new(),
    };
    let ghost all = lines(chars@);
    proof {
        assert(st@.passwords =~= Seq::<Seq<char>>::empty());
        assert(st@ == empty_scan());
        assert(all.take(0) =~= Seq::<Seq<char>>::empty());
    }
    let mut i: usize = 0;
    while i < ls.len()
        invariant
            0 <= i <= ls@.len(),
            ls@.len() == all.len(),
            forall|k: int| 0 <= k < ls@.len() ==> (#[trigger] ls@[k])@ == all[k],
            st@ == scan_lines(empty_scan(), all.take(i as int)),
        decreases ls@.len() - i,
    {
        scan_line_exec(&mut st, &ls[i]);
        proof {
            assert(all.take(i + 1).drop_last() =~= all.take(i as int));
        }
        i = i + 1;
    }
    proof {
        assert(all.take(i as int) =~= all);
    }
    let ghost s = st@;
    let (own, other) = match platform {
        Platform::Windows => (st.dir_windows, st.dir_macos),
        Platform::MacOs => (st.dir_macos, st.dir_windows),
    };
    let migrated = own.len() == 0 && st.dir_legacy.len() != 0;
    let cur = if migrated {
        st.dir_legacy
    } else {
        own
    };
    let first_run = cur.len() == 0;
    LoadedConfig {
        passwords: strings_of(&st.passwords),
        seven_zip_dir: string_from_chars(&cur),
        seven_zip_dir_other: string_from_chars(&other),
        language: string_from_chars(&st.language),
        first_run,
        webdav_url: string_from_chars(&st.url),
        webdav_user: string_from_chars(&st.user),
        webdav_pass: string_from_chars(&st.pass),
        migrated,
    }
}


// ---------------------------------------------------------------------------
// Saving
// ---------------------------------------------------------------------------

proof fn lemma_join_push(ls: Seq<Seq<char>>, l: Seq<char>)
    ensures
        join_lines(ls.push(l)) == join_lines(ls) + l + seq!['\n'],
    decreases ls.len(),
{
    if ls.len() == 0 {
        assert(ls.push(l).drop_first() =~= Seq::<Seq<char>>::empty());
        assert(join_lines(Seq::<Seq<char>>::empty()) == Seq::<char>::empty());
        assert(join_lines(ls) == Seq::<char>::empty());
        assert(join_lines(ls.push(l)) =~= join_lines(ls) + l + seq!['\n']);
    } else {
        assert(ls.push(l).drop_first() =~= ls.drop_first().push(l));
        lemma_join_push(ls.drop_first(), l);
        assert(join_lines(ls.push(l)) =~= join_lines(ls) + l + seq!['\n']);
    }
}

fn append_line(content: &mut String, line: &str, Ghost(ls): Ghost<Seq<Seq<char>>>)
    requires
        old(content)@ == join_lines(ls),
    ensures
        final(content)@ == join_lines(ls.push(line@)),
{
    content.append(line);
    content.append("\n");
    proof {
        reveal_strlit("\n");
        lemma_join_push(ls, line@);
    }
}

fn key_value_line(key: &str, value: &str) -> (line: String)
    ensures
        line@ == key@ + value@,
{
    let mut line = String::new();
    line.append(key);
    line.append(value);
    line
}

/// The text that saving the configuration writes: a `[settings]` section
/// with the 7-Zip directories of this platform and of the other one and the
/// language, a `[webdav]` section with the URL, user and password, and a
/// `[passwords]` section with one password per line.
pub fn render_config(
    passwords: &[String],
    seven_zip_dir: &str,
    seven_zip_dir_other: &str,
    language: &str,
    webdav_url: &str,
    webdav_user: &str,
    webdav_pass: &str,
    platform: Platform,
) -> (content: String)
    ensures
        content@ == render_config_spec(
            strings_view(passwords@),
            seven_zip_dir@,
            seven_zip_dir_other@,
            language@,
            webdav_url@,
            webdav_user@,
            webdav_pass@,
            platform,
        ),
{
    let cur_key = crate::platform::current_platform_key(platform);
    let other_key = crate::platform::other_platform_key(platform);
    let mut content = String::new();
    let ghost mut ls: Seq<Seq<char>> = seq![];
    proof {
        assert(join_lines(ls) =~= content@);
    }
    append_line(&mut content, "[settings]", Ghost(ls));
    proof { ls = ls.push("[settings]"@); }
    let mut key = key_value_line("7zip_dir_", cur_key);
    key.append("=");
    let l1 = key_value_line(key.as_str(), seven_zip_dir);
    append_line(&mut content, l1.as_str(), Ghost(ls));
    proof { ls = ls.push(l1@); }
    let mut key2 = key_value_line("7zip_dir_", other_key);
    key2.append("=");
    let l2 = key_value_line(key2.as_str(), seven_zip_dir_other);
    append_line(&mut content, l2.as_str(), Ghost(ls));
    proof { ls = ls.push(l2@); }
    let l3 = key_value_line("language=", language);
    append_line(&mut content, l3.as_str(), Ghost(ls));
    proof { ls = ls.push(l3@); }
    append_line(&mut content, "", Ghost(ls));
    proof { ls = ls.push(""@); }
    append_line(&mut content, "[webdav]", Ghost(ls));
    proof { ls = ls.push("[webdav]"@); }
    let l6 = key_value_line("url=", webdav_url);
    append_line(&mut content, l6.as_str(), Ghost(ls));
    proof { ls = ls.push(l6@); }
    let l7 = key_value_line("user=", webdav_user);
    append_line(&mut content, l7.as_str(), Ghost(ls));
    proof { ls = ls.push(l7@); }
    let l8 = key_value_line("pass=", webdav_pass);
    append_line(&mut content, l8.as_str(), Ghost(ls));
    proof { ls = ls.push(l8@); }
    append_line(&mut content, "", Ghost(ls));
    proof { ls = ls.push(""@); }
    append_line(&mut content, "[passwords]", Ghost(ls));
    proof { ls = ls.push("[passwords]"@); }
    let ghost header = ls;
    proof {
        reveal_strlit("7zip_dir_");
        reveal_strlit("=");
        reveal_strlit("windows");
        reveal_strlit("macos");
        reveal_strlit("7zip_dir_windows=");
        reveal_strlit("7zip_dir_macos=");
        reveal_strlit("");
        assert(l1@ =~= dir_key(platform) + seven_zip_dir@);
        assert(l2@ =~= dir_key(platform.other()) + seven_zip_dir_other@);
        let cl = config_lines(
            seq![],
            seven_zip_dir@,
            seven_zip_dir_other@,
            language@,
            webdav_url@,
            webdav_user@,
            webdav_pass@,
            platform,
        );
        assert(header.len() == cl.len());
        assert(header[0] == cl[0]);
        assert(header[1] == cl[1]);
        assert(header[2] == cl[2]);
        assert(header[3] == cl[3]);
        assert(header[4] == cl[4]);
        assert(header[5] == cl[5]);
        assert(header[6] == cl[6]);
        assert(header[10] == cl[10]);
        assert(header =~= config_lines(
            seq![],
            seven_zip_dir@,
            seven_zip_dir_other@,
            language@,
            webdav_url@,
            webdav_user@,
            webdav_pass@,
            platform,
        ));
    }
    let mut i: usize = 0;
    while i < passwords.len()
        invariant
            0 <= i <= passwords@.len(),
            content@ == join_lines(header + strings_view(passwords@).take(i as int)),
        decreases passwords@.len() - i,
    {
        let ghost before = header + strings_view(passwords@).take(i as int);
        append_line(&mut content, passwords[i].as_str(), Ghost(before));
        proof {
            assert(before.push(passwords@[i as int]@) =~= header + strings_view(passwords@).take(
                i + 1,
            ));
        }
        i = i + 1;
    }
    proof {
        assert(strings_view(passwords@).take(i as int) =~= strings_view(passwords@));
        assert(header + strings_view(passwords@) =~= config_lines(
            strings_view(passwords@),
            seven_zip_dir@,
            seven_zip_dir_other@,
            language@,
            webdav_url@,
            webdav_user@,
            webdav_pass@,
            platform,
        ));
    }
    content
}


// ---------------------------------------------------------------------------
// Saving and loading again
// ---------------------------------------------------------------------------

/// A value that survives being written after its `key=`: it holds no line
/// feed and has no white space at either end.
pub open spec fn value_ok(v: Seq<char>) -> bool {
    trim(v) == v && find_char(v, '\n') is None
}

/// A password that survives being written as a line of `[passwords]`: not
/// blank, no white space at either end, no line feed, and not of the form
/// `[name]`.
pub open spec fn password_ok(p: Seq<char>) -> bool {
    p.len() > 0 && value_ok(p) && !is_section_header(p)
}

/// A line that `lines` gives back unchanged when it is followed by a line feed.
pub open spec fn plain_line(l: Seq<char>) -> bool {
    find_char(l, '\n') is None && !(l.len() > 0 && l.last() == '\r')
}

proof fn lemma_no_lf(s: Seq<char>)
    requires
        find_char(s, '\n') is None,
    ensures
        forall|k: int| 0 <= k < s.len() ==> s[k] != '\n',
{
    lemma_find_char_spec(s, '\n');
}

proof fn lemma_lines_of_join(ls: Seq<Seq<char>>)
    requires
        forall|i: int| 0 <= i < ls.len() ==> plain_line(#[trigger] ls[i]),
    ensures
        lines(join_lines(ls)) == ls,
    decreases ls.len(),
{
    if ls.len() == 0 {
        assert(join_lines(ls).len() == 0);
        assert(lines(join_lines(ls)) =~= ls);
    } else {
        let l = ls[0];
        let rest = ls.drop_first();
        assert(plain_line(l));
        assert forall|i: int| 0 <= i < rest.len() implies plain_line(#[trigger] rest[i]) by {
            assert(rest[i] == ls[i + 1]);
        }
        lemma_lines_of_join(rest);
        let s = join_lines(ls);
        assert(s == l + seq!['\n'] + join_lines(rest));
        lemma_no_lf(l);
        assert forall|k: int| 0 <= k < l.len() implies s[k] != '\n' by {
            assert(s[k] == l[k]);
        }
        assert(s[l.len() as int] == '\n');
        crate::text::lemma_find_char_some(s, '\n', l.len() as int);
        assert(s.take(l.len() as int) =~= l);
        assert(s.skip(l.len() as int + 1) =~= join_lines(rest));
        assert(strip_cr(l) == l);
        assert(lines(s) =~= seq![l] + rest);
        assert(seq![l] + rest =~= ls);
    }
}

proof fn lemma_scan_append(st: Scan, a: Seq<Seq<char>>, b: Seq<Seq<char>>)
    ensures
        scan_lines(st, a + b) == scan_lines(scan_lines(st, a), b),
    decreases b.len(),
{
    if b.len() == 0 {
        assert(a + b =~= a);
    } else {
        assert((a + b).drop_last() =~= a + b.drop_last());
        lemma_scan_append(st, a, b.drop_last());
    }
}

proof fn lemma_scan_step(st: Scan, ls: Seq<Seq<char>>, i: int)
    requires
        0 <= i < ls.len(),
    ensures
        scan_lines(st, ls.take(i + 1)) == scan_line(scan_lines(st, ls.take(i)), ls[i]),
{
    assert(ls.take(i + 1).drop_last() =~= ls.take(i));
}

proof fn lemma_scan_passwords(st: Scan, pw: Seq<Seq<char>>)
    requires
        st.section == "passwords"@,
        forall|i: int| 0 <= i < pw.len() ==> password_ok(#[trigger] pw[i]),
    ensures
        scan_lines(st, pw) == (Scan { passwords: st.passwords + pw, ..st }),
    decreases pw.len(),
{
    if pw.len() == 0 {
        assert(st.passwords + pw =~= st.passwords);
    } else {
        let p = pw.last();
        assert(password_ok(pw[pw.len() - 1]));
        assert forall|i: int| 0 <= i < pw.drop_last().len() implies password_ok(
            #[trigger] pw.drop_last()[i],
        ) by {
            assert(pw.drop_last()[i] == pw[i]);
        }
        lemma_scan_passwords(st, pw.drop_last());
        let mid = scan_lines(st, pw.drop_last());
        assert(mid.section == "passwords"@);
        assert(trim(p) == p);
        assert(!is_section_header(trim(p)));
        assert(scan_line(mid, p).passwords == mid.passwords.push(p));
        assert((st.passwords + pw.drop_last()).push(p) =~= st.passwords + pw);
    }
}

proof fn lemma_not_prefix(s: Seq<char>, p: Seq<char>, i: int)
    requires
        0 <= i < p.len(),
        i < s.len(),
        s[i] != p[i],
    ensures
        strip_prefix(s, p) is None,
{
    if starts_with(s, p) {
        assert(s.take(p.len() as int)[i] == s[i]);
    }
}

/// A `key=value` line is its own trim and splits back into key and value.
proof fn lemma_key_line(k: Seq<char>, v: Seq<char>)
    requires
        k.len() > 0,
        !is_ws(k[0]),
        !is_ws(k.last()),
        k[0] != '[',
        find_char(k, '\n') is None,
        value_ok(v),
    ensures
        trim(k + v) == k + v,
        strip_prefix(k + v, k) == Some(v),
        !is_section_header(k + v),
        (k + v).len() > 0,
        plain_line(k + v),
{
    let l = k + v;
    crate::text::lemma_trim_shape(v);
    assert(l[0] == k[0]);
    if v.len() > 0 {
        assert(l.last() == v.last());
    } else {
        assert(l.last() == k.last());
    }
    crate::text::lemma_trim_fixed(l);
    assert(l.take(k.len() as int) =~= k);
    assert(l.skip(k.len() as int) =~= v);
    assert(l.take(1)[0] == k[0]);
    lemma_no_lf(k);
    lemma_no_lf(v);
    assert forall|j: int| 0 <= j < l.len() implies l[j] != '\n' by {
        if j < k.len() {
            assert(l[j] == k[j]);
        } else {
            assert(l[j] == v[j - k.len()]);
        }
    }
    crate::text::lemma_find_char_none(l, '\n');
}

proof fn lemma_literal_facts()
    ensures
        key_dir_windows() =~= seq!['7','z','i','p','_','d','i','r','_','w','i','n','d','o','w','s','='],
        key_dir_macos() =~= seq!['7','z','i','p','_','d','i','r','_','m','a','c','o','s','='],
        key_dir_legacy() =~= seq!['7','z','i','p','_','d','i','r','='],
        key_language() =~= seq!['l','a','n','g','u','a','g','e','='],
        key_url() =~= seq!['u','r','l','='],
        key_user() =~= seq!['u','s','e','r','='],
        key_pass() =~= seq!['p','a','s','s','='],
        "passwords"@ =~= seq!['p','a','s','s','w','o','r','d','s'],
        "settings"@ =~= seq!['s','e','t','t','i','n','g','s'],
        "webdav"@ =~= seq!['w','e','b','d','a','v'],
        "[settings]"@ =~= seq!['[','s','e','t','t','i','n','g','s',']'],
        "[webdav]"@ =~= seq!['[','w','e','b','d','a','v',']'],
        "[passwords]"@ =~= seq!['[','p','a','s','s','w','o','r','d','s',']'],
{
    reveal_strlit("7zip_dir_windows=");
    reveal_strlit("7zip_dir_macos=");
    reveal_strlit("7zip_dir=");
    reveal_strlit("language=");
    reveal_strlit("url=");
    reveal_strlit("user=");
    reveal_strlit("pass=");
    reveal_strlit("passwords");
    reveal_strlit("settings");
    reveal_strlit("webdav");
    reveal_strlit("[settings]");
    reveal_strlit("[webdav]");
    reveal_strlit("[passwords]");
}

/// A `[name]` line opens the section `name`.
proof fn lemma_header_line(h: Seq<char>, name: Seq<char>)
    requires
        h =~= seq!['['] + name + seq![']'],
        forall|k: int| 0 <= k < name.len() ==> !is_ws(#[trigger] name[k]) && name[k] != '\n',
    ensures
        trim(h) == h,
        is_section_header(h),
        h.subrange(1, h.len() - 1) == name,
        plain_line(h),
{
    crate::text::lemma_trim_fixed(h);
    assert(h.take(1) =~= seq!['[']);
    assert(h.skip(h.len() - 1) =~= seq![']']);
    assert(h.subrange(1, h.len() - 1) =~= name);
    assert forall|j: int| 0 <= j < h.len() implies h[j] != '\n' by {
        if 0 < j < h.len() - 1 {
            assert(h[j] == name[j - 1]);
        }
    }
    crate::text::lemma_find_char_none(h, '\n');
}

proof fn lemma_blank_line()
    ensures
        trim(Seq::<char>::empty()) == Seq::<char>::empty(),
        !is_section_header(Seq::<char>::empty()),
        plain_line(Seq::<char>::empty()),
{
    crate::text::lemma_find_char_none(Seq::<char>::empty(), '\n');
}

/// Saving a configuration and loading the saved text gives the same
/// configuration back, on the same platform: the passwords in their order,
/// both 7-Zip directories, the language and the WebDAV settings; it is a
/// first run exactly when the saved directory is empty, and nothing is
/// migrated. This holds for values without a line feed or white space at
/// either end, and for passwords that are moreover not blank and not of the
/// form `[name]` (other values do not survive the line-based format).
pub proof fn law_config_roundtrip(
    passwords: Seq<Seq<char>>,
    dir: Seq<char>,
    dir_other: Seq<char>,
    language: Seq<char>,
    url: Seq<char>,
    user: Seq<char>,
    pass: Seq<char>,
    platform: Platform,
)
    requires
        forall|i: int| 0 <= i < passwords.len() ==> password_ok(#[trigger] passwords[i]),
        value_ok(dir),
        value_ok(dir_other),
        value_ok(language),
        value_ok(url),
        value_ok(user),
        value_ok(pass),
    ensures
        load_config_spec(
            Some(render_config_spec(passwords, dir, dir_other, language, url, user, pass, platform)),
            platform,
        ) == (ConfigView {
            passwords,
            seven_zip_dir: dir,
            seven_zip_dir_other: dir_other,
            language,
            first_run: dir.len() == 0,
            webdav_url: url,
            webdav_user: user,
            webdav_pass: pass,
            migrated: false,
        }),
{
    lemma_literal_facts();
    let ls = config_lines(passwords, dir, dir_other, language, url, user, pass, platform);
    let k_own = dir_key(platform);
    let k_oth = dir_key(platform.other());
    // Each line of the header.
    lemma_header_line("[settings]"@, "settings"@);
    lemma_header_line("[webdav]"@, "webdav"@);
    lemma_header_line("[passwords]"@, "passwords"@);
    lemma_blank_line();
    crate::text::lemma_find_char_none(k_own, '\n');
    crate::text::lemma_find_char_none(k_oth, '\n');
    crate::text::lemma_find_char_none(key_language(), '\n');
    crate::text::lemma_find_char_none(key_url(), '\n');
    crate::text::lemma_find_char_none(key_user(), '\n');
    crate::text::lemma_find_char_none(key_pass(), '\n');
    lemma_key_line(k_own, dir);
    lemma_key_line(k_oth, dir_other);
    lemma_key_line(key_language(), language);
    lemma_key_line(key_url(), url);
    lemma_key_line(key_user(), user);
    lemma_key_line(key_pass(), pass);
    // The lines come back.
    assert forall|i: int| 0 <= i < ls.len() implies plain_line(#[trigger] ls[i]) by {
        if i >= 11 {
            assert(ls[i] == passwords[i - 11]);
            assert(password_ok(passwords[i - 11]));
            lemma_no_lf(passwords[i - 11]);
            crate::text::lemma_trim_shape(passwords[i - 11]);
        }
    }
    lemma_lines_of_join(ls);
    // Scanning the header.
    let st0 = empty_scan();
    assert(ls.take(0) =~= Seq::<Seq<char>>::empty());
    lemma_scan_step(st0, ls, 0);
    let st1 = scan_lines(st0, ls.take(1));
    assert(st1 == Scan { section: "settings"@, ..st0 });
    lemma_scan_step(st0, ls, 1);
    let st2 = scan_lines(st0, ls.take(2));
    let l1 = k_own + dir;
    assert(ls[1] == l1);
    match platform {
        Platform::Windows => {
            assert(st2 == Scan { dir_windows: dir, ..st1 }) by {
                lemma_not_prefix(l1, key_language(), 0);
            }
        },
        Platform::MacOs => {
            assert(st2 == Scan { dir_macos: dir, ..st1 }) by {
                lemma_not_prefix(l1, key_dir_windows(), 9);
                lemma_not_prefix(l1, key_language(), 0);
            }
        },
    }
    lemma_scan_step(st0, ls, 2);
    let st3 = scan_lines(st0, ls.take(3));
    let l2 = k_oth + dir_other;
    assert(ls[2] == l2);
    match platform {
        Platform::Windows => {
            assert(st3 == Scan { dir_macos: dir_other, ..st2 }) by {
                lemma_not_prefix(l2, key_dir_windows(), 9);
                lemma_not_prefix(l2, key_language(), 0);
            }
        },
        Platform::MacOs => {
            assert(st3 == Scan { dir_windows: dir_other, ..st2 }) by {
                lemma_not_prefix(l2, key_language(), 0);
            }
        },
    }
    lemma_scan_step(st0, ls, 3);
    let st4 = scan_lines(st0, ls.take(4));
    let l3 = key_language() + language;
    assert(st4 == Scan { language, ..st3 }) by {
        lemma_not_prefix(l3, key_dir_windows(), 0);
        lemma_not_prefix(l3, key_dir_macos(), 0);
        lemma_not_prefix(l3, key_dir_legacy(), 0);
    }
    lemma_scan_step(st0, ls, 4);
    let st5 = scan_lines(st0, ls.take(5));
    assert(ls[4] == Seq::<char>::empty());
    assert(st5 == st4);
    lemma_scan_step(st0, ls, 5);
    let st6 = scan_lines(st0, ls.take(6));
    assert(st6 == Scan { section: "webdav"@, ..st5 });
    lemma_scan_step(st0, ls, 6);
    let st7 = scan_lines(st0, ls.take(7));
    let l6 = key_url() + url;
    assert(st7 == Scan { url, ..st6 }) by {
        lemma_not_prefix(l6, key_user(), 1);
        lemma_not_prefix(l6, key_pass(), 0);
    }
    lemma_scan_step(st0, ls, 7);
    let st8 = scan_lines(st0, ls.take(8));
    let l7 = key_user() + user;
    assert(st8 == Scan { user, ..st7 }) by {
        lemma_not_prefix(l7, key_url(), 1);
        lemma_not_prefix(l7, key_pass(), 0);
    }
    lemma_scan_step(st0, ls, 8);
    let st9 = scan_lines(st0, ls.take(9));
    let l8 = key_pass() + pass;
    assert(st9 == Scan { pass, ..st8 }) by {
        lemma_not_prefix(l8, key_url(), 0);
        lemma_not_prefix(l8, key_user(), 0);
    }
    lemma_scan_step(st0, ls, 9);
    let st10 = scan_lines(st0, ls.take(10));
    assert(ls[9] == Seq::<char>::empty());
    assert(st10 == st9);
    lemma_scan_step(st0, ls, 10);
    let st11 = scan_lines(st0, ls.take(11));
    assert(st11 == Scan { section: "passwords"@, ..st10 });
    // Scanning the passwords.
    assert(ls =~= ls.take(11) + passwords);
    lemma_scan_append(st0, ls.take(11), passwords);
    lemma_scan_passwords(st11, passwords);
    assert(Seq::<Seq<char>>::empty() + passwords =~= passwords);
}

/// Spaces and tabs only.
pub open spec fn blanks(s: Seq<char>) -> bool {
    forall|i: int| 0 <= i < s.len() ==> (#[trigger] s[i] == ' ' || s[i] == '\t')
}

/// `key`, blanks, a value and blanks: trimming the line and removing the
/// key leaves the value with the leading blanks, whose trim is the value.
proof fn lemma_padded_value(key: Seq<char>, lead: Seq<char>, v: Seq<char>, trail: Seq<char>)
    requires
        key.len() > 0,
        !is_ws(key[0]),
        !is_ws(key.last()),
        blanks(lead),
        blanks(trail),
        value_ok(v),
    ensures
        strip_prefix(trim(key + lead + v + trail), key) matches Some(w) && trim(w) == v,
        trim(key + lead + v + trail).len() > 0,
        trim(key + lead + v + trail)[0] == key[0],
{
    let l = key + lead + v + trail;
    crate::text::lemma_trim_shape(v);
    crate::text::lemma_trim_start_skip(l, 0);
    assert(l.skip(0) =~= l);
    let a: int = key.len() as int + lead.len() as int;
    let j: int = if v.len() > 0 { a + v.len() } else { key.len() as int };
    assert forall|k: int| j <= k < l.len() implies is_ws(#[trigger] l[k]) by {
        if k < a {
            assert(l[k] == lead[k - key.len()]);
        } else if k >= a + v.len() {
            assert(l[k] == trail[k - a - v.len()]);
        }
    }
    if v.len() > 0 {
        assert(l[j - 1] == v.last());
    } else {
        assert(l[j - 1] == key.last());
    }
    crate::text::lemma_trim_end_take(l, j);
    let t = l.take(j);
    assert(trim(l) == t);
    assert(t.take(key.len() as int) =~= key);
    let w = t.skip(key.len() as int);
    if v.len() > 0 {
        assert(w =~= lead + v);
        assert forall|k: int| 0 <= k < lead.len() implies is_ws(#[trigger] w[k]) by {
            assert(w[k] == lead[k]);
        }
        assert(w[lead.len() as int] == v[0]);
        crate::text::lemma_trim_start_skip(w, lead.len() as int);
        assert(w.skip(lead.len() as int) =~= v);
        crate::text::lemma_trim_end_take(v, v.len() as int);
        assert(v.take(v.len() as int) =~= v);
    } else {
        assert(w.len() == 0);
        assert(trim(w) =~= v);
    }
}

/// A line of `[settings]` is read with white space around the value
/// removed: in a file whose `[settings]` section holds the current
/// platform's key (`7zip_dir_windows=` or `7zip_dir_macos=`) or the legacy
/// `7zip_dir=`, then spaces or tabs, a directory and spaces or tabs, the
/// loaded 7-Zip directory is that directory without the blanks around it.
pub proof fn law_settings_dir_is_trimmed(
    key: Seq<char>,
    lead: Seq<char>,
    dir: Seq<char>,
    trail: Seq<char>,
    platform: Platform,
)
    requires
        key == dir_key(platform) || key == key_dir_legacy(),
        blanks(lead),
        blanks(trail),
        value_ok(dir),
    ensures
        load_config_spec(
            Some("[settings]"@ + seq!['\n'] + key + lead + dir + trail + seq!['\n']),
            platform,
        ).seven_zip_dir == dir,
{
    lemma_literal_facts();
    let l = key + lead + dir + trail;
    let h = "[settings]"@;
    lemma_header_line(h, "settings"@);
    lemma_padded_value(key, lead, dir, trail);
    // The line holds no line feed and does not end in a carriage return.
    crate::text::lemma_find_char_none(key, '\n');
    lemma_no_lf(key);
    lemma_no_lf(dir);
    crate::text::lemma_trim_shape(dir);
    assert forall|k: int| 0 <= k < l.len() implies l[k] != '\n' by {
        if k < key.len() {
            assert(l[k] == key[k]);
        } else if k < key.len() + lead.len() {
            assert(l[k] == lead[k - key.len()]);
        } else if k < key.len() + lead.len() + dir.len() {
            assert(l[k] == dir[k - key.len() - lead.len()]);
        } else {
            assert(l[k] == trail[k - key.len() - lead.len() - dir.len()]);
        }
    }
    crate::text::lemma_find_char_none(l, '\n');
    if trail.len() > 0 {
        assert(l.last() == trail[trail.len() - 1]);
    } else if dir.len() > 0 {
        assert(l.last() == dir.last());
    } else if lead.len() > 0 {
        assert(l.last() == lead[lead.len() - 1]);
    } else {
        assert(l.last() == key.last());
    }
    assert(plain_line(l));
    let ls = seq![h, l];
    assert forall|i: int| 0 <= i < ls.len() implies plain_line(#[trigger] ls[i]) by {}
    lemma_lines_of_join(ls);
    assert(join_lines(ls) =~= h + seq!['\n'] + key + lead + dir + trail + seq!['\n']) by {
        assert(ls.drop_first().drop_first().len() == 0);
        assert(join_lines(ls.drop_first()) =~= l + seq!['\n'] + join_lines(
            ls.drop_first().drop_first(),
        ));
    }
    let st0 = empty_scan();
    lemma_scan_step(st0, ls, 0);
    assert(ls.take(0) =~= Seq::<Seq<char>>::empty());
    let st1 = scan_lines(st0, ls.take(1));
    assert(st1 == Scan { section: "settings"@, ..st0 });
    lemma_scan_step(st0, ls, 1);
    assert(ls.take(2) =~= ls);
    let t = trim(l);
    let w = strip_prefix(t, key)->Some_0;
    assert(!is_section_header(t));
    assert(t.take(key.len() as int) == key);
    if key == key_dir_windows() {
        assert(scan_lines(st0, ls) == Scan { dir_windows: trim(w), ..st1 }) by {
            lemma_not_prefix(t, key_language(), 0);
        }
    } else if key == key_dir_macos() {
        assert(t[9] == key[9]);
        assert(scan_lines(st0, ls) == Scan { dir_macos: trim(w), ..st1 }) by {
            lemma_not_prefix(t, key_dir_windows(), 9);
            lemma_not_prefix(t, key_language(), 0);
        }
    } else {
        assert(t[8] == key[8]);
        assert(scan_lines(st0, ls) == Scan { dir_legacy: trim(w), ..st1 }) by {
            lemma_not_prefix(t, key_dir_windows(), 8);
            lemma_not_prefix(t, key_dir_macos(), 8);
            lemma_not_prefix(t, key_language(), 0);
        }
    }
}

} // verus!
