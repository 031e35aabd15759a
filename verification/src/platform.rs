//! The two desktop platforms and the names that depend on them.
use vstd::prelude::*;
use crate::config::{chars_eq, strings_view};
use crate::text::chars_of;

verus! {

/// The desktop platforms the application runs on.
#[derive(Clone, Copy, Debug, PartialEq, Eq)]
pub enum Platform {
    Windows,
    MacOs,
}

impl Platform {
    /// The platform that is not `self`.
    pub open spec fn other(self) -> Platform {
        match self {
            Platform::Windows => Platform::MacOs,
            Platform::MacOs => Platform::Windows,
        }
    }
}

/// The key that names a platform in the configuration file.
pub open spec fn platform_key(p: Platform) -> Seq<char> {
    match p {
        Platform::Windows => "windows"@,
        Platform::MacOs => "macos"@,
    }
}

/// The configuration key of the platform the application runs on.
pub fn current_platform_key(platform: Platform) -> (key: &'static str)
    ensures
        key@ == platform_key(platform),
{
    match platform {
        Platform::Windows => "windows",
        Platform::MacOs => "macos",
    }
}

/// The configuration key of the platform the application does not run on.
pub fn other_platform_key(platform: Platform) -> (key: &'static str)
    ensures
        key@ == platform_key(platform.other()),
{
    match platform {
        Platform::Windows => "macos",
        Platform::MacOs => "windows",
    }
}

/// The two keys differ, so the directories of both platforms can stand side
/// by side in one configuration file; and "the other platform" of the other
/// platform is the platform itself.
pub proof fn law_platform_keys_distinct(p: Platform)
    ensures
        platform_key(p) != platform_key(p.other()),
        p.other().other() == p,
        p.other() != p,
{
    reveal_strlit("windows");
    reveal_strlit("macos");
    assert(platform_key(Platform::Windows).len() != platform_key(Platform::MacOs).len());
}

/// The primary and the fallback name of the 7-Zip command-line executable.
pub open spec fn seven_zip_exe_names_spec(p: Platform) -> (Seq<char>, Seq<char>) {
    match p {
        Platform::Windows => ("7z.exe"@, "7zz.exe"@),
        Platform::MacOs => ("7z"@, "7zz"@),
    }
}

/// The primary and the fallback file name of the 7-Zip executable within
/// a 7-Zip directory.
pub fn seven_zip_exe_names(platform: Platform) -> (names: (&'static str, &'static str))
    ensures
        (names.0@, names.1@) == seven_zip_exe_names_spec(platform),
{
    match platform {
        Platform::Windows => ("7z.exe", "7zz.exe"),
        Platform::MacOs => ("7z", "7zz"),
    }
}

/// The file name, within the (expanded) 7-Zip directory, of the executable
/// to use: the primary name when a file of that name exists there, else the
/// fallback name.
pub fn resolve_seven_zip_exe(platform: Platform, primary_exists: bool) -> (name: &'static str)
    ensures
        name@ == if primary_exists {
            seven_zip_exe_names_spec(platform).0
        } else {
            seven_zip_exe_names_spec(platform).1
        },
{
    let (primary, fallback) = seven_zip_exe_names(platform);
    if primary_exists {
        primary
    } else {
        fallback
    }
}

/// Whether a WebView2 runtime version read from the registry (`pv`) shows
/// an installed runtime: it is not empty and not `0.0.0.0`.
pub fn webview2_version_installed(pv: &str) -> (installed: bool)
    ensures
        installed == (pv@.len() > 0 && pv@ != "0.0.0.0"@),
{
    if pv.is_empty() {
        return false;
    }
    let v = crate::text::chars_of(pv);
    !crate::config::chars_eq(&v, &crate::text::chars_of("0.0.0.0"))
}

/// The directories Homebrew installs commands into on macOS, which a GUI
/// application's `PATH` often lacks.
pub open spec fn homebrew_dirs() -> Seq<Seq<char>> {
    seq!["/opt/homebrew/bin"@, "/usr/local/bin"@, "/opt/homebrew/sbin"@, "/usr/local/sbin"@]
}

/// The directories of `extra` that `dirs` does not hold, in their order.
pub open spec fn missing_from(dirs: Seq<Seq<char>>, extra: Seq<Seq<char>>) -> Seq<Seq<char>>
    decreases extra.len(),
{
    if extra.len() == 0 {
        Seq::empty()
    } else {
        let rest = missing_from(dirs, extra.drop_last());
        if dirs.contains(extra.last()) {
            rest
        } else {
            rest.push(extra.last())
        }
    }
}

/// The directories searched for 7-Zip, in order: those of `PATH`, then on
/// macOS the Homebrew directories that `PATH` does not already name.
pub open spec fn seven_zip_search_dirs_spec(path_dirs: Seq<Seq<char>>, p: Platform) -> Seq<
    Seq<char>,
> {
    match p {
        Platform::Windows => path_dirs,
        Platform::MacOs => path_dirs + missing_from(path_dirs, homebrew_dirs()),
    }
}

/// Whether `v` holds a string equal to `s`.
fn contains_string(v: &Vec<String>, s: &str) -> (r: bool)
    ensures
        r == strings_view(v@).contains(s@),
{
    let target = chars_of(s);
    let mut i: usize = 0;
    while i < v.len()
        invariant
            i <= v.len(),
            target@ == s@,
            forall|j: int| 0 <= j < i ==> strings_view(v@)[j] != s@,
        decreases v.len() - i,
    {
        let item = chars_of(v[i].as_str());
        if chars_eq(&item, &target) {
            assert(strings_view(v@)[i as int] == s@);
            return true;
        }
        i = i + 1;
    }
    proof {
        if strings_view(v@).contains(s@) {
            let j = choose|j: int| 0 <= j < strings_view(v@).len() && strings_view(v@)[j] == s@;
            assert(strings_view(v@)[j] != s@);
        }
    }
    false
}

/// Appends `dir` to `dirs` unless `path_dirs` names it already.
fn push_if_missing(dirs: &mut Vec<String>, path_dirs: &Vec<String>, dir: &str)
    ensures
        strings_view(final(dirs)@) == if strings_view(path_dirs@).contains(dir@) {
            strings_view(old(dirs)@)
        } else {
            strings_view(old(dirs)@).push(dir@)
        },
{
    if !contains_string(path_dirs, dir) {
        dirs.push(String::from_str(dir));
        assert(strings_view(dirs@) =~= strings_view(old(dirs)@).push(dir@));
    }
}

/// The directories to search for 7-Zip, in order, given those of `PATH`:
/// on macOS the Homebrew directories follow, each unless `PATH` already
/// names it (directories are compared as text).
pub fn seven_zip_search_dirs(path_dirs: &Vec<String>, platform: Platform) -> (dirs: Vec<String>)
    ensures
        strings_view(dirs@) == seven_zip_search_dirs_spec(strings_view(path_dirs@), platform),
{
    let mut dirs: Vec<String> = Vec::new();
    let mut i: usize = 0;
    while i < path_dirs.len()
        invariant
            i <= path_dirs.len(),
            dirs@.len() == i,
            forall|k: int| 0 <= k < i ==> (#[trigger] dirs@[k])@ == path_dirs@[k]@,
        decreases path_dirs.len() - i,
    {
        dirs.push(String::from_str(path_dirs[i].as_str()));
        i = i + 1;
    }
    assert(strings_view(dirs@) =~= strings_view(path_dirs@));
    match platform {
        Platform::Windows => {},
        Platform::MacOs => {
            let ghost pv = strings_view(path_dirs@);
            push_if_missing(&mut dirs, path_dirs, "/opt/homebrew/bin");
            push_if_missing(&mut dirs, path_dirs, "/usr/local/bin");
            push_if_missing(&mut dirs, path_dirs, "/opt/homebrew/sbin");
            push_if_missing(&mut dirs, path_dirs, "/usr/local/sbin");
            proof {
                let h = homebrew_dirs();
                assert(h.drop_last().drop_last().drop_last().drop_last() =~= Seq::empty());
                assert(h.drop_last().drop_last().drop_last().last() == "/opt/homebrew/bin"@);
                assert(h.drop_last().drop_last().last() == "/usr/local/bin"@);
                assert(h.drop_last().last() == "/opt/homebrew/sbin"@);
                assert(h.last() == "/usr/local/sbin"@);
                reveal_with_fuel(missing_from, 5);
                assert(strings_view(dirs@) =~= pv + missing_from(pv, h));
            }
        },
    }
    dirs
}

} // verus!
