use zync::daemon::{
    after_version_check, conflict_pull_version, decide_pull, manual_sync_result,
    manual_sync_start, poll_failed, poll_received, next_poll_since, pull_applied_message, pull_source,
    pull_failed, pull_notice, push_follow_up, record_pull, record_push, sync_error_message,
    sync_status, take_retry, watcher_begin, DaemonState, PollNext, PullDecision, PullOrigin, PullSource,
    PushFollowUp, Retry, VersionCheck, WatcherStart,
};
use zync::github::{GitHubClient, SlotEntry, SyncMetadata};
use zync::local_state::LocalState;
use zync::ntfy::NtfyMessage;

fn connected() -> DaemonState {
    let mut s = DaemonState::default();
    s.github_client = Some(std::sync::Arc::new(GitHubClient {
        token: "t".to_string(),
        user_id: 42,
        username: "octo".to_string(),
        release_id: 1,
        encryption_key: [7u8; 32],
        http: reqwest::Client::new(),
    }));
    s.local_state.machine_name = "Laptop".to_string();
    s
}

fn msg(id: &str, event: &str, message: &str) -> NtfyMessage {
    NtfyMessage { id: id.to_string(), event: event.to_string(), message: message.to_string() }
}

#[test]
fn daemon_state_defaults() {
    let state = DaemonState::default();
    assert!(state.github_client.is_none());
    assert_eq!(state.local_state.last_known_version, 0);
    assert!(state.pending_version.is_none());
    assert!(state.last_synced.is_none());
    assert!(!state.zen_was_running);
}

#[test]
fn watcher_ignores_ticks_when_not_connected() {
    let mut s = DaemonState::default();
    s.zen_was_running = true;
    assert!(matches!(watcher_begin(&mut s, false), WatcherStart::Idle));
    assert!(s.zen_was_running); // untouched while not connected
}

#[test]
fn watcher_acts_on_close_edge_once() {
    let mut s = connected();
    assert!(matches!(watcher_begin(&mut s, true), WatcherStart::Idle)); // Zen opened
    assert!(s.zen_was_running);
    assert!(matches!(watcher_begin(&mut s, false), WatcherStart::CloseEdge)); // Zen closed
    assert!(matches!(watcher_begin(&mut s, false), WatcherStart::Idle)); // still closed
}

#[test]
fn deferred_version_pulled_when_zen_closes() {
    let mut s = connected();
    watcher_begin(&mut s, true);
    match decide_pull(&mut s, 9, true) {
        PullDecision::Defer(m) => assert_eq!(m, "New profile available — will sync when Zen closes"),
        PullDecision::PullNow(_) => panic!("Zen is open"),
    }
    assert_eq!(s.pending_version, Some(9));
    assert!(matches!(watcher_begin(&mut s, false), WatcherStart::PullPending(9)));
    assert_eq!(s.pending_version, None);
}

#[test]
fn announced_version_pulled_now_when_zen_closed() {
    let mut s = connected();
    assert!(matches!(decide_pull(&mut s, 4, false), PullDecision::PullNow(4)));
    assert_eq!(s.pending_version, None);
}

#[test]
fn version_check_outcomes() {
    let mut s = connected();
    s.local_state.last_known_version = 5;
    assert!(matches!(after_version_check(&mut s, Ok(6), false), VersionCheck::Behind(6)));
    assert!(matches!(after_version_check(&mut s, Ok(5), false), VersionCheck::UpToDate(5)));
    assert!(matches!(after_version_check(&mut s, Ok(0), false), VersionCheck::UpToDate(5)));
    assert!(!s.pending_push);
    match after_version_check(&mut s, Err("offline".to_string()), false) {
        VersionCheck::Failed(m) => assert_eq!(m, "Sync check failed: offline"),
        _ => panic!("expected failure"),
    }
    assert!(s.pending_push);
    assert!(matches!(after_version_check(&mut s, Err("offline".to_string()), true), VersionCheck::StillQueued));
    assert!(s.pending_push);
}

#[test]
fn push_follow_ups() {
    assert!(matches!(push_follow_up(Ok(Some(3))), PushFollowUp::Pushed(3)));
    assert!(matches!(push_follow_up(Ok(None)), PushFollowUp::Conflict));
    match push_follow_up(Err("MULTIPLE_INSTALLATIONS: a, b".to_string())) {
        PushFollowUp::Failed(m) => {
            assert_eq!(m, "Auto-push: multiple Zen installations found — open Zync to select one.")
        }
        _ => panic!("expected failure"),
    }
    assert_eq!(conflict_pull_version(Some(8), 3), 8);
    assert_eq!(conflict_pull_version(None, 3), 4);
}

#[test]
fn sync_error_wording() {
    assert_eq!(
        sync_error_message("Auto-pull", "Saved profile /x no longer exists"),
        "Auto-pull: saved Zen profile not found — open Zync to select an installation."
    );
    assert_eq!(sync_error_message("Auto-pull", "boom"), "Auto-pull: boom");
}

#[test]
fn record_push_and_pull() {
    let mut s = connected();
    let mut ls = s.local_state.clone();
    ls.selected_profile_path = Some("/p".to_string());
    record_push(&mut s, ls, 7, 1000);
    assert_eq!(s.local_state.last_known_version, 7);
    assert_eq!(s.local_state.selected_profile_path, Some("/p".to_string()));
    assert_eq!(s.last_synced, Some(1000));
    assert_eq!(s.last_synced_from, None);
    let ls2 = s.local_state.clone();
    record_pull(&mut s, ls2, "Desktop".to_string(), 9, 2000);
    assert_eq!(s.local_state.last_known_version, 9);
    assert_eq!(s.last_synced, Some(2000));
    assert_eq!(s.last_synced_from, Some("Desktop".to_string()));
}

#[test]
fn pull_source_picks_slot_and_pusher() {
    let entry = SlotEntry {
        slot: 2,
        version: 5,
        pushed_at: String::new(),
        machine_name: "MacBook Pro".to_string(),
        size_bytes: 1,
    };
    let m = SyncMetadata { version: 5, current_slot: 2, slots: vec![entry] };
    let meta = Some(m);
    assert!(matches!(pull_source(5, 3, &meta),
        PullSource::From { slot: 2, ref pusher, version: 5 } if pusher == "MacBook Pro"));
    // Asked for version 6, GitHub holds 5: GitHub's version is the one recorded.
    assert!(matches!(pull_source(6, 3, &meta),
        PullSource::From { slot: 2, ref pusher, version: 5 } if pusher == "another machine"));
    // GitHub holds nothing newer than this machine's version: nothing to pull.
    assert!(matches!(pull_source(5, 5, &meta), PullSource::UpToDate));
    assert!(matches!(pull_source(6, 7, &meta), PullSource::UpToDate));
    assert!(matches!(pull_source(5, 3, &None), PullSource::Unreadable));
    assert_eq!(
        pull_applied_message("Mac Mini"),
        "Mac Mini pushed a profile while Zen was open. Their profile has been applied. Your session's changes are saved as a snapshot."
    );
}

#[test]
fn poll_since_values() {
    let mut s = DaemonState::default();
    assert_eq!(next_poll_since(&s), None);
    s = connected();
    s.last_poll_time = 1700000000;
    assert_eq!(next_poll_since(&s), Some("1700000000".to_string()));
    s.last_ntfy_id = Some("abc".to_string());
    assert_eq!(next_poll_since(&s), Some("abc".to_string()));
    poll_failed(&mut s, 1800000000);
    assert_eq!(s.last_poll_time, 1800000000);
}

#[test]
fn poll_announces_latest_newer_version() {
    let mut s = connected();
    s.local_state.last_known_version = 3;
    let msgs = vec![msg("a", "message", "2"), msg("b", "message", " 5\n"), msg("c", "message", "4")];
    let times = vec![10, 30, 20];
    assert!(matches!(poll_received(&mut s, 99, &msgs, &times), PollNext::Announced(5)));
    assert_eq!(s.last_ntfy_id, Some("b".to_string()));
    assert_eq!(s.last_poll_time, 99);
}

#[test]
fn poll_ignores_old_and_unrecognised() {
    let mut s = connected();
    s.local_state.last_known_version = 7;
    let msgs = vec![msg("a", "message", "7")];
    assert!(matches!(poll_received(&mut s, 1, &msgs, &vec![5]), PollNext::Nothing));
    let msgs = vec![msg("x", "message", "FILEID")];
    match poll_received(&mut s, 2, &msgs, &vec![5]) {
        PollNext::Unrecognised(m) => assert_eq!(m, "FILEID"),
        _ => panic!("expected unrecognised"),
    }
    assert_eq!(s.last_ntfy_id, Some("x".to_string()));
    assert!(matches!(poll_received(&mut s, 3, &vec![], &vec![]), PollNext::Nothing));
    assert_eq!(s.last_poll_time, 3);
}

#[test]
fn poll_ties_pick_the_last_latest() {
    let mut s = connected();
    let msgs = vec![msg("a", "message", "1"), msg("b", "message", "2")];
    assert!(matches!(poll_received(&mut s, 0, &msgs, &vec![4, 4]), PollNext::Announced(2)));
    assert_eq!(s.last_ntfy_id, Some("b".to_string()));
}

#[test]
fn manual_sync_checks_and_results() {
    let s = DaemonState::default();
    assert_eq!(manual_sync_start(&s, true).err(), Some("Zen is running — close it before syncing".to_string()));
    assert_eq!(
        manual_sync_start(&s, false).err(),
        Some("Not connected to GitHub — set up sync in the Sync tab first".to_string())
    );
    let mut c = connected();
    c.local_state.last_known_version = 4;
    let (_, name, v) = manual_sync_start(&c, false).unwrap();
    assert_eq!(name, "Laptop");
    assert_eq!(v, 4);
    assert_eq!(manual_sync_result(Ok(Some(5))), Ok(5));
    assert_eq!(
        manual_sync_result(Ok(None)),
        Err("Another machine pushed recently — close Zen and try again".to_string())
    );
    assert_eq!(manual_sync_result(Err("e".to_string())), Err("e".to_string()));
}

#[test]
fn sync_status_reports_state() {
    let mut s = connected();
    s.last_synced = Some(5);
    s.last_synced_from = Some("Desk".to_string());
    let st = sync_status(&s);
    assert!(st.connected);
    assert_eq!(st.username, Some("octo".to_string()));
    assert_eq!(st.last_synced, Some(5));
    assert_eq!(st.last_synced_from, Some("Desk".to_string()));
    assert_eq!(st.machine_name, "Laptop");
    let st = sync_status(&DaemonState::default());
    assert!(!st.connected);
    assert_eq!(st.username, None);
}

#[test]
fn default_state_has_local_defaults() {
    let s = LocalState::default();
    assert_eq!(s.last_known_version, 0);
    assert!(!s.machine_name.is_empty());
    assert_eq!(s.selected_profile_path, None);
}

#[test]
fn clock_reads_after_2020() {
    // 2020-01-01T00:00:00Z; the clock of any machine running this is later.
    assert!(zync::daemon::unix_now() > 1_577_836_800);
}

#[test]
fn failed_pull_of_deferred_version_is_retried() {
    let mut s = connected();
    s.local_state.last_known_version = 3;
    watcher_begin(&mut s, true);
    decide_pull(&mut s, 9, true);
    assert!(matches!(watcher_begin(&mut s, false), WatcherStart::PullPending(9)));
    // GitHub unreachable: the pull fails and the version stays pending.
    pull_failed(&mut s, 9);
    assert_eq!(s.pending_version, Some(9));
    assert_eq!(s.local_state.last_known_version, 3);
    // Nothing is retried while Zen runs; the next poll cycle with Zen closed pulls it.
    assert!(matches!(take_retry(&mut s, true), Retry::Nothing));
    assert!(matches!(take_retry(&mut s, false), Retry::Pull(9)));
    assert_eq!(s.pending_version, None);
    assert!(matches!(take_retry(&mut s, false), Retry::Nothing));
    // A newer version already pending is kept over an older failed one.
    s.pending_version = Some(12);
    pull_failed(&mut s, 9);
    assert_eq!(s.pending_version, Some(12));
}

#[test]
fn successful_pull_clears_what_it_brought() {
    let mut s = connected();
    s.pending_version = Some(9);
    let ls = s.local_state.clone();
    record_pull(&mut s, ls.clone(), "Desktop".to_string(), 9, 10);
    assert_eq!(s.pending_version, None);
    s.pending_version = Some(11);
    record_pull(&mut s, ls, "Desktop".to_string(), 10, 20);
    assert_eq!(s.pending_version, Some(11));
}

#[test]
fn queued_push_retried_after_pending_pull() {
    let mut s = connected();
    after_version_check(&mut s, Err("offline".to_string()), false);
    s.pending_version = Some(4);
    assert!(matches!(take_retry(&mut s, false), Retry::Pull(4)));
    assert!(matches!(take_retry(&mut s, false), Retry::Push));
    assert!(!s.pending_push);
    let mut d = DaemonState::default();
    d.pending_push = true;
    assert!(matches!(take_retry(&mut d, false), Retry::Nothing)); // not connected
    let ls = s.local_state.clone();
    s.pending_push = true;
    record_push(&mut s, ls, 5, 1);
    assert!(!s.pending_push);
}

#[test]
fn pull_notices() {
    assert_eq!(pull_notice(PullOrigin::Announcement, "MacBook Pro"), "Profile updated from MacBook Pro.");
    assert_eq!(
        pull_notice(PullOrigin::CloseOfZen, "MacBook Pro"),
        "MacBook Pro pushed a profile while Zen was open. Their profile has been applied. Your session's changes are saved as a snapshot."
    );
}
