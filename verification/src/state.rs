//! The application's settings while it runs, and how the user's commands and
//! start-up change them.
use vstd::prelude::*;
use crate::config::{
    law_config_roundtrip, load_config_spec, password_ok, render_config, render_config_spec,
    strings_view, value_ok, LoadedConfig,
};
use crate::passwords::{normalize_passwords, strictly_sorted};
use crate::platform::Platform;

verus! {

/// The settings of the running application.
pub struct AppState {
    pub passwords: Vec<String>,
    pub seven_zip_dir: String,
    /// The 7-Zip directory of the other platform, kept so that syncing the
    /// file between machines loses neither.
    pub seven_zip_dir_other: String,
    pub language: String,
    pub needs_setup: bool,
    pub webdav_url: String,
    pub webdav_user: String,
    pub webdav_pass: String,
}

pub struct AppStateView {
    pub passwords: Seq<Seq<char>>,
    pub seven_zip_dir: Seq<char>,
    pub seven_zip_dir_other: Seq<char>,
    pub language: Seq<char>,
    pub needs_setup: bool,
    pub webdav_url: Seq<char>,
    pub webdav_user: Seq<char>,
    pub webdav_pass: Seq<char>,
}

impl View for AppState {
    type V = AppStateView;

    open spec fn view(&self) -> AppStateView {
        AppStateView {
            passwords: strings_view(self.passwords@),
            seven_zip_dir: self.seven_zip_dir@,
            seven_zip_dir_other: self.seven_zip_dir_other@,
            language: self.language@,
            needs_setup: self.needs_setup,
            webdav_url: self.webdav_url@,
            webdav_user: self.webdav_user@,
            webdav_pass: self.webdav_pass@,
        }
    }
}

/// The text that saving the whole state writes.
pub open spec fn saved_text(s: AppStateView, platform: Platform) -> Seq<char> {
    render_config_spec(
        s.passwords,
        s.seven_zip_dir,
        s.seven_zip_dir_other,
        s.language,
        s.webdav_url,
        s.webdav_user,
        s.webdav_pass,
        platform,
    )
}

/// The configuration text that saving the whole state writes.
pub fn save_all(state: &AppState, platform: Platform) -> (content: String)
    ensures
        content@ == saved_text(state@, platform),
{
    render_config(
        state.passwords.as_slice(),
        state.seven_zip_dir.as_str(),
        state.seven_zip_dir_other.as_str(),
        state.language.as_str(),
        state.webdav_url.as_str(),
        state.webdav_user.as_str(),
        state.webdav_pass.as_str(),
        platform,
    )
}

/// The outcome of start-up.
pub struct Startup {
    pub state: AppState,
    /// The configured 7-Zip directory was unusable and has been cleared.
    pub cleared_dir: bool,
    /// The configuration file must be written (from `state`): it did not
    /// exist yet, a legacy key was migrated, or the directory was cleared.
    pub save_needed: bool,
}

/// The state the application starts in, from the loaded configuration.
///
/// On the first launch (no configuration file yet) the file is to be
/// created and the user is asked for the 7-Zip directory. Otherwise a
/// configured 7-Zip directory whose executable does not exist is cleared
/// (and setup is then needed); setup is not needed when 7-Zip is found on
/// the search path; else it is needed when no directory is configured.
pub fn startup_state(
    cfg: LoadedConfig,
    config_file_exists: bool,
    configured_exe_exists: bool,
    found_in_path: bool,
) -> (r: Startup)
    ensures
        r.cleared_dir == (cfg@.seven_zip_dir.len() > 0 && !configured_exe_exists),
        r.save_needed == (!config_file_exists || cfg@.migrated || r.cleared_dir),
        r.state@.seven_zip_dir == if r.cleared_dir {
            Seq::<char>::empty()
        } else {
            cfg@.seven_zip_dir
        },
        r.state@.needs_setup == if !config_file_exists {
            true
        } else if found_in_path {
            false
        } else {
            r.cleared_dir || cfg@.first_run
        },
        r.state@.passwords == cfg@.passwords,
        r.state@.seven_zip_dir_other == cfg@.seven_zip_dir_other,
        r.state@.language == cfg@.language,
        r.state@.webdav_url == cfg@.webdav_url,
        r.state@.webdav_user == cfg@.webdav_user,
        r.state@.webdav_pass == cfg@.webdav_pass,
{
    let mut needs_setup = cfg.first_run;
    let mut dir = cfg.seven_zip_dir;
    let mut cleared_dir = false;
    if !dir.as_str().is_empty() {
        if !configured_exe_exists {
            dir = String::new();
            needs_setup = true;
            cleared_dir = true;
        }
    }
    if found_in_path {
        needs_setup = false;
    }
    if !config_file_exists {
        needs_setup = true;
    }
    let save_needed = !config_file_exists || cfg.migrated || cleared_dir;
    Startup {
        state: AppState {
            passwords: cfg.passwords,
            seven_zip_dir: dir,
            seven_zip_dir_other: cfg.seven_zip_dir_other,
            language: cfg.language,
            needs_setup,
            webdav_url: cfg.webdav_url,
            webdav_user: cfg.webdav_user,
            webdav_pass: cfg.webdav_pass,
        },
        cleared_dir,
        save_needed,
    }
}

impl AppState {
    /// Replaces the saved passwords by `passwords`, each once, in ascending
    /// order.
    pub fn save_passwords(&mut self, passwords: Vec<String>)
        ensures
            strictly_sorted(final(self)@.passwords),
            forall|x: Seq<char>|
                final(self)@.passwords.contains(x) <==> strings_view(passwords@).contains(x),
            final(self)@ == (AppStateView { passwords: final(self)@.passwords, ..old(self)@ }),
    {
        self.passwords = normalize_passwords(passwords);
    }

    pub fn save_seven_zip_dir(&mut self, dir: String)
        ensures
            final(self)@ == (AppStateView { seven_zip_dir: dir@, ..old(self)@ }),
    {
        self.seven_zip_dir = dir;
    }

    /// After the 7-Zip directory was saved successfully, setup is done.
    pub fn setup_done(&mut self)
        ensures
            final(self)@ == (AppStateView { needs_setup: false, ..old(self)@ }),
    {
        self.needs_setup = false;
    }

    pub fn save_language(&mut self, language: String)
        ensures
            final(self)@ == (AppStateView { language: language@, ..old(self)@ }),
    {
        self.language = language;
    }

    pub fn save_webdav_config(&mut self, url: String, user: String, pass: String)
        ensures
            final(self)@ == (AppStateView {
                webdav_url: url@,
                webdav_user: user@,
                webdav_pass: pass@,
                ..old(self)@
            }),
    {
        self.webdav_url = url;
        self.webdav_user = user;
        self.webdav_pass = pass;
    }

    /// Takes over the settings of a configuration pulled from the server:
    /// everything but whether setup is needed.
    pub fn apply_pulled(&mut self, cfg: LoadedConfig)
        ensures
            final(self)@ == (AppStateView {
                passwords: cfg@.passwords,
                seven_zip_dir: cfg@.seven_zip_dir,
                seven_zip_dir_other: cfg@.seven_zip_dir_other,
                language: cfg@.language,
                needs_setup: old(self)@.needs_setup,
                webdav_url: cfg@.webdav_url,
                webdav_user: cfg@.webdav_user,
                webdav_pass: cfg@.webdav_pass,
            }),
    {
        self.passwords = cfg.passwords;
        self.seven_zip_dir = cfg.seven_zip_dir;
        self.seven_zip_dir_other = cfg.seven_zip_dir_other;
        self.language = cfg.language;
        self.webdav_url = cfg.webdav_url;
        self.webdav_user = cfg.webdav_user;
        self.webdav_pass = cfg.webdav_pass;
    }
}

/// What the application saves it reads back at its next start on the same
/// platform (and what one machine pushes to the server another pulls): the
/// passwords, both 7-Zip directories, the language and the WebDAV
/// settings, for values without a line feed or white space at either end
/// and passwords that are moreover not blank and not of the form `[name]`.
pub proof fn law_saved_state_loads_back(s: AppStateView, platform: Platform)
    requires
        forall|i: int| 0 <= i < s.passwords.len() ==> password_ok(#[trigger] s.passwords[i]),
        value_ok(s.seven_zip_dir),
        value_ok(s.seven_zip_dir_other),
        value_ok(s.language),
        value_ok(s.webdav_url),
        value_ok(s.webdav_user),
        value_ok(s.webdav_pass),
    ensures
        load_config_spec(Some(saved_text(s, platform)), platform).passwords == s.passwords,
        load_config_spec(Some(saved_text(s, platform)), platform).seven_zip_dir == s.seven_zip_dir,
        load_config_spec(Some(saved_text(s, platform)), platform).seven_zip_dir_other
            == s.seven_zip_dir_other,
        load_config_spec(Some(saved_text(s, platform)), platform).language == s.language,
        load_config_spec(Some(saved_text(s, platform)), platform).webdav_url == s.webdav_url,
        load_config_spec(Some(saved_text(s, platform)), platform).webdav_user == s.webdav_user,
        load_config_spec(Some(saved_text(s, platform)), platform).webdav_pass == s.webdav_pass,
        !load_config_spec(Some(saved_text(s, platform)), platform).migrated,
{
    law_config_roundtrip(
        s.passwords,
        s.seven_zip_dir,
        s.seven_zip_dir_other,
        s.language,
        s.webdav_url,
        s.webdav_user,
        s.webdav_pass,
        platform,
    );
}

} // verus!
