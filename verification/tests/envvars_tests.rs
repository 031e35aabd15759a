use std::collections::HashMap;
use yauz::envvars::{expand_env_vars_begin, expand_env_vars_next, expand_env_vars_resume, ExpandStep};

fn expand(path: &str, env: &HashMap<&str, &str>) -> String {
    let mut state = expand_env_vars_begin(path);
    for _ in 0..1000 {
        match expand_env_vars_next(&state) {
            ExpandStep::Done(s) => return s,
            ExpandStep::Lookup(p) => {
                let value = env.get(p.name.as_str()).copied().unwrap_or("");
                state = expand_env_vars_resume(p, value);
            }
        }
    }
    panic!("expansion did not finish");
}

fn env() -> HashMap<&'static str, &'static str> {
    let mut m = HashMap::new();
    m.insert("ProgramFiles", "C:\\Program Files");
    m.insert("HOME", "/Users/me");
    m.insert("A_1", "x");
    m
}

#[test]
fn windows_style_variables_expand() {
    assert_eq!(expand("%ProgramFiles%\\7-Zip", &env()), "C:\\Program Files\\7-Zip");
}

#[test]
fn unix_style_variables_expand() {
    assert_eq!(expand("$HOME/bin", &env()), "/Users/me/bin");
    assert_eq!(expand("${HOME}/bin", &env()), "/Users/me/bin");
    assert_eq!(expand("$A_1-y", &env()), "x-y");
}

#[test]
fn unset_variables_expand_to_nothing() {
    assert_eq!(expand("%NOPE%/a", &env()), "/a");
    assert_eq!(expand("$NOPE/a", &env()), "/a");
    assert_eq!(expand("%%b", &env()), "b");
}

#[test]
fn incomplete_references_stay() {
    assert_eq!(expand("100%", &env()), "100%");
    assert_eq!(expand("a$", &env()), "a$");
    assert_eq!(expand("${HOME", &env()), "${HOME");
    assert_eq!(expand("$-x", &env()), "$-x");
    assert_eq!(expand("/plain/path", &env()), "/plain/path");
}

#[test]
fn percent_references_come_before_dollar_references() {
    let mut e = env();
    e.insert("P", "$HOME");
    assert_eq!(expand("%P%/x", &e), "/Users/me/x");
}

#[test]
fn first_step_reports_the_reference() {
    let state = expand_env_vars_begin("pre%NAME%post");
    match expand_env_vars_next(&state) {
        ExpandStep::Lookup(p) => {
            assert_eq!(p.before, "pre");
            assert_eq!(p.name, "NAME");
            assert_eq!(p.after, "post");
            assert!(!p.dollar);
        }
        ExpandStep::Done(_) => panic!("a reference was expected"),
    }
}
