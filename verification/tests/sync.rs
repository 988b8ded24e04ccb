use zync::sync::{
    backup_dir_name, check_bundle_version, chrono_secs_to_iso, epoch_to_ymd_hms, hex_key,
    merge_local_update_prefs, sort_file_names, sqlite_sidecars, strip_update_prefs, sync_key_hex,
};

#[test]
fn epoch_to_iso_known_date() {
    // 2026-05-20T00:00:00Z = 1779235200
    let s = chrono_secs_to_iso(1779235200);
    assert_eq!(s, "2026-05-20T00:00:00Z");
}

#[test]
fn epoch_zero_is_1970() {
    assert_eq!(chrono_secs_to_iso(0), "1970-01-01T00:00:00Z");
    assert_eq!(epoch_to_ymd_hms(0), (1970, 1, 1, 0, 0, 0));
}

#[test]
fn leap_days_and_year_ends() {
    // 2024-02-29T12:34:56Z
    assert_eq!(chrono_secs_to_iso(1709210096), "2024-02-29T12:34:56Z");
    // 2000-12-31T23:59:59Z and the next second
    assert_eq!(chrono_secs_to_iso(978307199), "2000-12-31T23:59:59Z");
    assert_eq!(chrono_secs_to_iso(978307200), "2001-01-01T00:00:00Z");
    // 2100 is not a leap year: 2100-03-01
    assert_eq!(chrono_secs_to_iso(4107542400), "2100-03-01T00:00:00Z");
}

#[test]
fn ymd_hms_fields() {
    assert_eq!(epoch_to_ymd_hms(1779235200 + 3 * 3600 + 4 * 60 + 5), (2026, 5, 20, 3, 4, 5));
}

#[test]
fn strip_update_prefs_drops_update_lines() {
    let prefs = "user_pref(\"a\", 1);\n  user_pref(\"app.update.lastUpdateTime\", 5);\nuser_pref(\"zen.updates.x\", true);\r\nuser_pref(\"b\", 2);\n";
    assert_eq!(strip_update_prefs(prefs), "user_pref(\"a\", 1);\nuser_pref(\"b\", 2);");
    assert_eq!(strip_update_prefs(""), "");
    assert_eq!(strip_update_prefs("x\r\ny"), "x\ny");
}

#[test]
fn merge_keeps_local_update_lines() {
    let synced = "user_pref(\"a\", 1);\n\n";
    let local = "user_pref(\"a\", 0);\n user_pref(\"app.update.x\", 1);\nuser_pref(\"zen.updates.y\", 2);\n";
    assert_eq!(
        merge_local_update_prefs(synced, local),
        Some("user_pref(\"a\", 1);\n user_pref(\"app.update.x\", 1);\nuser_pref(\"zen.updates.y\", 2);\n".to_string())
    );
    assert_eq!(merge_local_update_prefs(synced, "user_pref(\"a\", 0);\n"), None);
}

#[test]
fn key_texts() {
    let mut key = [0u8; 32];
    key[0] = 0xab;
    key[31] = 0x01;
    let h = hex_key(&key);
    assert_eq!(h.len(), 64);
    assert!(h.starts_with("ab00"));
    assert!(h.ends_with("0001"));
    assert_eq!(sync_key_hex(&[0xa3, 0xf9, 0x0b]), "A3F90B");
}

#[test]
fn bundle_version_check() {
    assert!(check_bundle_version(1, "update Zync").is_ok());
    assert_eq!(
        check_bundle_version(2, "update Zync"),
        Err("Unsupported bundle version 2 — update Zync".to_string())
    );
}

#[test]
fn sqlite_sidecar_names() {
    assert_eq!(
        sqlite_sidecars("places.sqlite"),
        Some(("places.sqlite-wal".to_string(), "places.sqlite-shm".to_string()))
    );
    assert_eq!(sqlite_sidecars("prefs.js"), None);
}

#[test]
fn backup_folder_name() {
    assert_eq!(backup_dir_name(1779235200), "zync-backup-1779235200");
}

#[test]
fn written_names_come_back_sorted() {
    let names: Vec<String> = vec!["prefs.js", "chrome/zen-themes.css", "places.sqlite", "containers.json"]
        .into_iter()
        .map(String::from)
        .collect();
    assert_eq!(
        sort_file_names(names),
        vec!["chrome/zen-themes.css", "containers.json", "places.sqlite", "prefs.js"]
    );
    assert!(sort_file_names(Vec::new()).is_empty());
}

#[test]
fn sorting_names_agrees_with_string_order() {
    let names: Vec<String> = vec!["zen-sessions.jsonlz4", "Zen", "é.json", "a", "zen-themes.json", "", "a", "zen"]
        .into_iter()
        .map(String::from)
        .collect();
    let mut expected = names.clone();
    expected.sort();
    assert_eq!(sort_file_names(names), expected);
}

fn is_update_line(line: &str) -> bool {
    let t = line.trim_start();
    t.starts_with("user_pref(\"app.update.") || t.starts_with("user_pref(\"zen.updates.")
}

#[test]
fn pulled_prefs_hold_only_the_local_update_state() {
    let pushed = "user_pref(\"a\", 1);\r\nuser_pref(\"app.update.lastUpdateTime\", 9);\n\t user_pref(\"zen.updates.seen\", 3);\nuser_pref(\"b\", 2);  \n\n";
    let local = "user_pref(\"a\", 0);\n  user_pref(\"zen.updates.seen\", 1);\nuser_pref(\"app.update.x\", 2);\r\r\n";
    let stripped = strip_update_prefs(pushed);
    assert!(stripped.lines().all(|l| !is_update_line(l)));
    let merged = merge_local_update_prefs(&stripped, local).expect("local update lines");
    let written: Vec<&str> = merged.lines().filter(|l| is_update_line(l)).collect();
    assert_eq!(written, vec!["  user_pref(\"zen.updates.seen\", 1);", "user_pref(\"app.update.x\", 2);"]);
    let head: Vec<&str> = merged.lines().filter(|l| !is_update_line(l)).collect();
    assert_eq!(head, vec!["user_pref(\"a\", 1);", "user_pref(\"b\", 2);"]);
}

#[test]
fn bundle_files_are_standard_base64() {
    assert_eq!(zync::sync::encode_bundle_file(b"Man"), "TWFu");
    assert_eq!(zync::sync::encode_bundle_file(b"Ma"), "TWE=");
    assert_eq!(zync::sync::encode_bundle_file(b"M"), "TQ==");
    assert_eq!(zync::sync::encode_bundle_file(b""), "");
    assert_eq!(zync::sync::encode_bundle_file(&[0xfb, 0xff]), "+/8=");
    assert_eq!(zync::sync::decode_bundle_file("prefs.js", "TWFu"), Ok(b"Man".to_vec()));
    assert!(zync::sync::decode_bundle_file("prefs.js", "T*==").unwrap_err().starts_with("Failed to decode prefs.js: "));
}

#[test]
fn iso_texts_sort_like_times() {
    let times = [0u64, 59, 60, 86399, 86400, 951782400, 1779235200, 253402300799];
    let texts: Vec<String> = times.iter().map(|&t| chrono_secs_to_iso(t)).collect();
    for t in &texts {
        assert_eq!(t.len(), 20);
    }
    let mut sorted = texts.clone();
    sorted.sort();
    assert_eq!(sorted, texts);
    assert_eq!(chrono_secs_to_iso(253402300799), "9999-12-31T23:59:59Z");
}

fn read_iso(s: &str) -> u64 {
    let n = |a: usize, b: usize| s[a..b].parse::<u64>().unwrap();
    let (y, mo, d) = (n(0, 4), n(5, 7), n(8, 10));
    let leap = |y: u64| y % 4 == 0 && (y % 100 != 0 || y % 400 == 0);
    let mut days = 0;
    for yr in 1970..y {
        days += if leap(yr) { 366 } else { 365 };
    }
    let months = [31, if leap(y) { 29 } else { 28 }, 31, 30, 31, 30, 31, 31, 30, 31, 30, 31];
    for m in 0..(mo - 1) as usize {
        days += months[m];
    }
    days += d - 1;
    days * 86400 + n(11, 13) * 3600 + n(14, 16) * 60 + n(17, 19)
}

#[test]
fn iso_texts_read_back_to_their_seconds() {
    for secs in [0u64, 1, 86399, 951782399, 951868800, 1779235200, 4107542400, 253402300799] {
        assert_eq!(read_iso(&chrono_secs_to_iso(secs)), secs);
    }
}
