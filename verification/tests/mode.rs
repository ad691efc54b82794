use rusty_pee::mode::{argv0_implies_strict, env_var_is_truthy, file_name_implies_strict, resolve};
use rusty_pee::CompatibilityMode;

#[test]
fn explicit_strict_flag_wins() {
    assert_eq!(resolve(Some(true), None, None), CompatibilityMode::Strict);
    assert_eq!(
        resolve(Some(false), Some("1"), Some("pee")),
        CompatibilityMode::Default,
        "explicit --no-strict beats env and argv[0]"
    );
}

#[test]
fn env_var_truthy_implies_strict() {
    for v in ["1", "true", "yes", "on", "TRUE", " 1 ", "On"] {
        assert_eq!(
            resolve(None, Some(v), None),
            CompatibilityMode::Strict,
            "env value {v:?} should imply strict"
        );
    }
}

#[test]
fn env_var_falsy_does_not_imply_strict() {
    for v in ["0", "false", "no", "off", ""] {
        assert_eq!(
            resolve(None, Some(v), None),
            CompatibilityMode::Default,
            "env value {v:?} should NOT imply strict"
        );
    }
}

#[test]
fn argv0_pee_implies_strict() {
    assert_eq!(resolve(None, None, Some("pee")), CompatibilityMode::Strict);
    assert_eq!(
        resolve(None, None, Some("/usr/local/bin/pee")),
        CompatibilityMode::Strict
    );
    assert_eq!(
        resolve(None, None, Some("pee.exe")),
        CompatibilityMode::Strict,
        "argv[0] = pee.exe must imply strict (file_stem strips .exe)"
    );
}

#[test]
fn argv0_rusty_pee_does_not_imply_strict() {
    assert_eq!(
        resolve(None, None, Some("rusty-pee")),
        CompatibilityMode::Default
    );
    assert_eq!(
        resolve(None, None, Some("rusty-pee.exe")),
        CompatibilityMode::Default
    );
}

#[test]
fn default_when_nothing_set() {
    assert_eq!(resolve(None, None, None), CompatibilityMode::Default);
}

#[test]
fn ladder_strict_flag_beats_env_var() {
    assert_eq!(resolve(Some(false), Some("1"), None), CompatibilityMode::Default);
    assert_eq!(resolve(Some(true), Some("0"), None), CompatibilityMode::Strict);
}

#[test]
fn ladder_env_var_beats_argv0() {
    assert_eq!(
        resolve(None, Some("1"), Some("rusty-pee")),
        CompatibilityMode::Strict
    );
    assert_eq!(
        resolve(None, Some("0"), Some("pee")),
        CompatibilityMode::Strict,
        "rung 2 falsy is no-op; rung 3 (argv0=pee) still engages Strict"
    );
}

#[test]
fn env_truthiness_trims_unicode_white_space_and_folds_ascii_case() {
    assert!(env_var_is_truthy("\u{3000}YeS\t\n"));
    assert!(env_var_is_truthy("\u{a0}oN\u{2009}"));
    assert!(!env_var_is_truthy("t rue"));
    assert!(!env_var_is_truthy("truee"));
    assert!(!env_var_is_truthy("\u{200b}1"));
    assert!(!env_var_is_truthy("   "));
}

#[test]
fn file_stem_rules() {
    assert!(file_name_implies_strict("pee"));
    assert!(file_name_implies_strict("pee."));
    assert!(file_name_implies_strict("pee.exe"));
    assert!(!file_name_implies_strict("pee.tar.gz"));
    assert!(!file_name_implies_strict(".pee"));
    assert!(!file_name_implies_strict("PEE"));
    assert!(!file_name_implies_strict("rusty-pee"));
}

#[test]
fn argv0_path_forms() {
    assert_eq!(resolve(None, None, Some("./pee")), CompatibilityMode::Strict);
    assert_eq!(resolve(None, None, Some("bin/pee/")), CompatibilityMode::Strict);
    assert_eq!(resolve(None, None, Some("/usr/bin/pee/..")), CompatibilityMode::Default);
    assert_eq!(resolve(None, None, Some("")), CompatibilityMode::Default);
    assert_eq!(resolve(None, None, Some("/")), CompatibilityMode::Default);
}

#[test]
fn argv0_implies_strict_by_file_stem() {
    assert!(argv0_implies_strict("/opt/tools/pee.sh"));
    assert!(argv0_implies_strict("pee"));
    assert!(!argv0_implies_strict("/opt/pee/tee"));
    assert!(!argv0_implies_strict(".."));
}

#[test]
fn falsy_env_and_other_argv0_stay_default() {
    assert_eq!(resolve(None, Some("no"), Some("tee")), CompatibilityMode::Default);
    assert_eq!(resolve(Some(false), Some("yes"), Some("pee")), CompatibilityMode::Default);
}
