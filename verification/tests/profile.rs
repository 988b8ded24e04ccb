use zync::profile::{ini_install_defaults, is_excluded, is_release_profile_name, select_sync_files, sync_files};
use zync::zen_check::{any_zen_process, is_zen_process_name, is_zen_running};

fn texts(v: Vec<Vec<char>>) -> Vec<String> {
    v.into_iter().map(|c| c.into_iter().collect()).collect()
}

#[test]
fn ini_default_in_install_section() {
    let r = ini_install_defaults("[Install12345]\nDefault=abc1234.Default (release)\nLocked=1\n");
    assert_eq!(texts(r), vec!["abc1234.Default (release)".to_string()]);
}

#[test]
fn ini_default_with_profiles_prefix() {
    let r = ini_install_defaults("[Install67890]\nDefault=Profiles/xyz5678.Default (release)\nLocked=1\n");
    assert_eq!(texts(r), vec!["Profiles/xyz5678.Default (release)".to_string()]);
}

#[test]
fn ini_ignores_profile_sections() {
    let ini = "[Profile0]\nDefault=1\nPath=a\n\n[General]\nStartWithLastProfile=1\n[INSTALL1]\n  Default=b \n[Install2]\nDefault=c\n";
    assert_eq!(texts(ini_install_defaults(ini)), vec!["b".to_string(), "c".to_string()]);
    assert!(ini_install_defaults("").is_empty());
}

#[test]
fn exclusion_patterns() {
    assert!(is_excluded("key4.db"));
    assert!(is_excluded("storage/default"));
    assert!(is_excluded("logins.json"));
    assert!(!is_excluded("prefs.js"));
    for name in sync_files() {
        assert!(!is_excluded(name));
    }
}

#[test]
fn selected_files_follow_presence() {
    let present = vec![true, true, false, false, false, false, true, false];
    assert_eq!(
        select_sync_files(&present),
        Ok(vec!["places.sqlite".to_string(), "prefs.js".to_string(), "chrome/zen-themes.css".to_string()])
    );
    assert_eq!(
        select_sync_files(&vec![false; 8]),
        Err("No sync files found in profile folder".to_string())
    );
}

#[test]
fn release_folder_names() {
    assert!(is_release_profile_name("k39t6h5g.Default (release)"));
    assert!(is_release_profile_name("abcd.default-RELEASE"));
    assert!(!is_release_profile_name("abcd.default"));
}

#[test]
fn zen_process_names() {
    assert!(is_zen_process_name("zen"));
    assert!(is_zen_process_name("Zen"));
    assert!(is_zen_process_name("zen-bin"));
    assert!(is_zen_process_name("zen browser"));
    assert!(!is_zen_process_name("zendesk"));
    assert!(!is_zen_process_name("firefox"));
    assert!(any_zen_process(&vec!["bash".to_string(), "zen-bin".to_string()]));
    assert!(!any_zen_process(&vec!["bash".to_string()]));
}

#[test]
fn zen_running_check_completes() {
    // The answer depends on this machine; the scan must simply finish.
    let _ = is_zen_running();
}
