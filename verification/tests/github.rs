use zync::github::{
    authorize_url, empty_metadata, oauth_code_from_redirect, parse_user_id, push_target,
    pushed_metadata, token_accounts, token_items, SlotEntry, SyncMetadata,
};

fn make_slot(i: u8) -> SlotEntry {
    SlotEntry {
        slot: i,
        version: i as u32,
        pushed_at: String::new(),
        machine_name: String::new(),
        size_bytes: 0,
    }
}

#[test]
fn next_slot_empty() {
    let m = SyncMetadata { version: 0, current_slot: 0, slots: vec![] };
    assert_eq!(m.next_slot(), 0);
}

#[test]
fn next_slot_filling_up() {
    let slots: Vec<_> = (0..5).map(make_slot).collect();
    let m = SyncMetadata { version: 5, current_slot: 4, slots };
    assert_eq!(m.next_slot(), 5);
}

#[test]
fn next_slot_full_ring_wraps() {
    let slots: Vec<_> = (0..10).map(make_slot).collect();
    let m = SyncMetadata { version: 10, current_slot: 3, slots };
    // oldest slot = (3 + 1) % 10 = 4
    assert_eq!(m.next_slot(), 4);
}

#[test]
fn next_slot_wraps_from_nine_to_zero() {
    let slots: Vec<_> = (0..10).map(make_slot).collect();
    let m = SyncMetadata { version: 10, current_slot: 9, slots };
    assert_eq!(m.next_slot(), 0);
}

#[test]
fn push_target_requires_matching_version() {
    let m = SyncMetadata { version: 5, current_slot: 4, slots: (0..5).map(make_slot).collect() };
    assert_eq!(push_target(&m, 5), Some(5));
    assert_eq!(push_target(&m, 4), None);
    assert_eq!(push_target(&m, 6), None);
    assert_eq!(push_target(&empty_metadata(), 0), Some(0));
}

#[test]
fn pushed_metadata_puts_new_entry_first() {
    let m = SyncMetadata { version: 2, current_slot: 1, slots: vec![make_slot(1), make_slot(0)] };
    let n = pushed_metadata(&m, 2, "2026-05-20T00:00:00Z".to_string(), "Mac".to_string(), 77);
    assert_eq!(n.version, 3);
    assert_eq!(n.current_slot, 2);
    assert_eq!(n.slots.len(), 3);
    assert_eq!(n.slots[0].slot, 2);
    assert_eq!(n.slots[0].version, 3);
    assert_eq!(n.slots[0].machine_name, "Mac");
    assert_eq!(n.slots[0].pushed_at, "2026-05-20T00:00:00Z");
    assert_eq!(n.slots[0].size_bytes, 77);
    assert_eq!(n.slots[1].slot, 1);
    assert_eq!(n.slots[2].slot, 0);
}

#[test]
fn pushed_metadata_keeps_ten_newest() {
    // A full ring: current slot 3, slots newest-first 3,2,1,0,9,8,7,6,5,4.
    let slots: Vec<SlotEntry> = (0..10u8)
        .map(|i| SlotEntry {
            slot: (13 - i) % 10,
            version: 20 - i as u32,
            pushed_at: String::new(),
            machine_name: String::new(),
            size_bytes: 0,
        })
        .collect();
    let m = SyncMetadata { version: 20, current_slot: 3, slots };
    let slot = push_target(&m, 20).unwrap();
    assert_eq!(slot, 4); // the oldest entry's slot
    let n = pushed_metadata(&m, slot, String::new(), "B".to_string(), 1);
    assert_eq!(n.slots.len(), 10);
    let ids: Vec<u8> = n.slots.iter().map(|e| e.slot).collect();
    assert_eq!(ids, vec![4, 3, 2, 1, 0, 9, 8, 7, 6, 5]);
    let versions: Vec<u32> = n.slots.iter().map(|e| e.version).collect();
    assert_eq!(versions, vec![21, 20, 19, 18, 17, 16, 15, 14, 13, 12]);
}

#[test]
fn ring_fills_in_order_from_empty() {
    let mut m = empty_metadata();
    for v in 0..12u32 {
        let slot = push_target(&m, v).unwrap();
        m = pushed_metadata(&m, slot, String::new(), String::new(), 0);
        assert_eq!(m.version, v + 1);
        assert_eq!(m.current_slot, slot);
        assert_eq!(slot as u32, v % 10);
    }
    assert_eq!(m.slots.len(), 10);
}

#[test]
fn oauth_code_parsing() {
    assert_eq!(
        oauth_code_from_redirect("http://127.0.0.1:1234/?code=abc123&state=x"),
        Some("abc123".to_string())
    );
    assert_eq!(
        oauth_code_from_redirect("http://127.0.0.1:1234/?state=x&code=zz=1"),
        Some("zz=1".to_string())
    );
    assert_eq!(oauth_code_from_redirect("http://127.0.0.1:1234/?state=x"), None);
    assert_eq!(oauth_code_from_redirect("http://127.0.0.1:1234/"), None);
    // A `code` key without a value is skipped.
    assert_eq!(
        oauth_code_from_redirect("http://h/?code&code=second"),
        Some("second".to_string())
    );
    // Only the text between the first and second `?` is read.
    assert_eq!(oauth_code_from_redirect("http://h/?a=1?code=x"), None);
}

#[test]
fn authorize_url_text() {
    assert_eq!(
        authorize_url("Iv1.abc", 8080),
        "https://github.com/login/oauth/authorize?client_id=Iv1.abc&scope=repo&redirect_uri=http://127.0.0.1:8080"
    );
}

#[test]
fn user_id_parsing() {
    assert_eq!(parse_user_id("12345678"), Some(12345678));
    assert_eq!(parse_user_id("+7"), Some(7));
    assert_eq!(parse_user_id("18446744073709551615"), Some(u64::MAX));
    assert_eq!(parse_user_id("18446744073709551616"), None);
    assert_eq!(parse_user_id(""), None);
    assert_eq!(parse_user_id("+"), None);
    assert_eq!(parse_user_id("-1"), None);
    assert_eq!(parse_user_id(" 1"), None);
    assert_eq!(parse_user_id("12a"), None);
}

#[test]
fn token_items_store_the_id_as_decimal_text() {
    let items = token_items("gho_abc", 9001, "octocat");
    assert_eq!(
        items,
        vec![
            ("github_token", "gho_abc".to_string()),
            ("github_user_id", "9001".to_string()),
            ("github_username", "octocat".to_string()),
        ]
    );
    assert_eq!(token_accounts(), vec!["github_token", "github_user_id", "github_username"]);
    assert_eq!(parse_user_id(&items[1].1), Some(9001));
}

#[test]
fn push_target_refuses_stale_version_before_choosing_a_slot() {
    let slots: Vec<_> = (0..10).map(make_slot).collect();
    let m = SyncMetadata { version: 7, current_slot: u8::MAX, slots };
    assert_eq!(push_target(&m, 6), None);
}

#[test]
fn oauth_token_answers() {
    let f = zync::github::token_from_answer;
    assert_eq!(f(Some("gho_x".to_string()), None, None), Ok("gho_x".to_string()));
    assert_eq!(f(None, None, None), Err("No access_token in response".to_string()));
    assert_eq!(
        f(Some("gho_x".to_string()), Some("bad_verification_code".to_string()), Some("The code is wrong".to_string())),
        Err("OAuth error: bad_verification_code — The code is wrong".to_string())
    );
    assert_eq!(f(None, Some("denied".to_string()), None), Err("OAuth error: denied — ".to_string()));
}
