//! The background sync daemon's decisions. The daemon watches the Zen
//! process (pushing when Zen closes) and polls ntfy (pulling versions that
//! other machines announce). Each function here takes the shared state and
//! the result of one piece of outside work (a process scan, a GitHub read,
//! a push or pull, an ntfy poll) and returns what to do next.
use vstd::prelude::*;

use std::sync::Arc;
use std::sync::atomic::AtomicBool;

use crate::github::{GitHubClient, SyncMetadata};
use crate::local_state::LocalState;
use crate::ntfy::NtfyMessage;

verus! {

#[verifier::external_type_specification]
#[verifier::external_body]
pub struct ExPathBuf(std::path::PathBuf);

/// `std::path::PathBuf::new`. Claimed: nothing.
#[verifier::external_body]
fn empty_path() -> std::path::PathBuf {
    std::path::PathBuf::new()
}

#[verifier::external_type_specification]
#[verifier::external_body]
pub struct ExSystemTime(std::time::SystemTime);

/// `std::time::SystemTime::now`. Claimed: nothing; it reads the clock.
#[verifier::external_body]
fn clock_now() -> std::time::SystemTime {
    std::time::SystemTime::now()
}

/// `std::time::SystemTime::duration_since(std::time::UNIX_EPOCH)`, `None`
/// for a time before the epoch. Claimed: nothing.
#[verifier::external_body]
fn since_unix_epoch(t: &std::time::SystemTime) -> Option<std::time::Duration> {
    t.duration_since(std::time::UNIX_EPOCH).ok()
}

/// `std::time::Duration::as_secs`. Claimed: nothing.
#[verifier::external_body]
fn whole_secs(d: &std::time::Duration) -> u64 {
    d.as_secs()
}

/// Seconds since the Unix epoch by the system clock; 0 when the clock is
/// set before the epoch.
pub fn unix_now() -> u64 {
    match since_unix_epoch(&clock_now()) {
        Some(d) => whole_secs(&d),
        None => 0,
    }
}

// ── State ─────────────────────────────────────────────────────────────────────

pub struct DaemonState {
    /// Connected GitHub client. None until the user connects via OAuth.
    pub github_client: Option<Arc<GitHubClient>>,
    /// Persisted state (last_known_version, machine_name).
    pub local_state: LocalState,
    /// Guard against concurrent syncs.
    pub is_syncing: Arc<AtomicBool>,
    /// Unix timestamp of last successful push or pull.
    pub last_synced: Option<u64>,
    /// Machine name of last sync source (None = this machine pushed).
    pub last_synced_from: Option<String>,
    /// Previous Zen running state (used for edge detection).
    pub zen_was_running: bool,
    /// Last ntfy message ID processed.
    pub last_ntfy_id: Option<String>,
    /// Unix timestamp of last ntfy poll start (fallback since value).
    pub last_poll_time: u64,
    /// Version number received from ntfy while Zen was open — drain when Zen closes.
    /// A pull that fails leaves its version here, to be retried on the next poll cycle.
    pub pending_version: Option<u32>,
    /// A push that could not reach GitHub, retried on the next poll cycle.
    pub pending_push: bool,
    /// App config dir — used to save local_state to disk.
    pub config_dir: std::path::PathBuf,
}

/// The part of the daemon state that its decisions read and change.
pub struct DaemonModel {
    pub connected: bool,
    pub last_known_version: u32,
    pub machine_name: Seq<char>,
    pub last_synced: Option<u64>,
    pub last_synced_from: Option<Seq<char>>,
    pub zen_was_running: bool,
    pub last_ntfy_id: Option<Seq<char>>,
    pub last_poll_time: u64,
    pub pending_version: Option<u32>,
    pub pending_push: bool,
}

/// The text held by an optional string.
pub open spec fn opt_view(s: Option<String>) -> Option<Seq<char>> {
    match s {
        Some(t) => Some(t@),
        None => None,
    }
}

impl View for DaemonState {
    type V = DaemonModel;

    open spec fn view(&self) -> DaemonModel {
        DaemonModel {
            connected: self.github_client is Some,
            last_known_version: self.local_state.last_known_version,
            machine_name: self.local_state.machine_name@,
            last_synced: self.last_synced,
            last_synced_from: opt_view(self.last_synced_from),
            zen_was_running: self.zen_was_running,
            last_ntfy_id: opt_view(self.last_ntfy_id),
            last_poll_time: self.last_poll_time,
            pending_version: self.pending_version,
            pending_push: self.pending_push,
        }
    }
}

/// `b` holds the same client, guard, config dir and profile choice as `a`.
pub open spec fn same_handles(a: DaemonState, b: DaemonState) -> bool {
    &&& b.github_client == a.github_client
    &&& b.is_syncing == a.is_syncing
    &&& b.config_dir == a.config_dir
    &&& b.local_state.selected_profile_path == a.local_state.selected_profile_path
}

impl Default for DaemonState {
    /// Not connected, nothing synced, Zen not seen running, no pending pull.
    fn default() -> (s: Self)
        ensures
            s.github_client is None,
            s.local_state.last_known_version == 0,
            s.local_state.selected_profile_path is None,
            s.last_synced is None,
            s.last_synced_from is None,
            !s.zen_was_running,
            s.last_ntfy_id is None,
            s.last_poll_time == 0,
            s.pending_version is None,
            !s.pending_push,
    {
        DaemonState {
            github_client: None,
            local_state: LocalState::default(),
            is_syncing: Arc::new(AtomicBool::new(false)),
            last_synced: None,
            last_synced_from: None,
            zen_was_running: false,
            last_ntfy_id: None,
            last_poll_time: 0,
            pending_version: None,
            pending_push: false,
            config_dir: empty_path(),
        }
    }
}

// ── Status ────────────────────────────────────────────────────────────────────

/// What the Sync tab shows.
pub struct SyncStatus {
    pub connected: bool,
    pub username: Option<String>,
    pub last_synced: Option<u64>,
    pub last_synced_from: Option<String>,
    pub machine_name: String,
}

/// The status of `state` for the Sync tab.
pub fn sync_status(state: &DaemonState) -> (st: SyncStatus)
    ensures
        st.connected == state.github_client is Some,
        st.username == match state.github_client {
            Some(c) => Some(c.username),
            None => None::<String>,
        },
        st.last_synced == state.last_synced,
        st.last_synced_from == state.last_synced_from,
        st.machine_name == state.local_state.machine_name,
{
    SyncStatus {
        connected: state.github_client.is_some(),
        username: match &state.github_client {
            Some(c) => Some(c.username.clone()),
            None => None,
        },
        last_synced: state.last_synced,
        last_synced_from: state.last_synced_from.clone(),
        machine_name: state.local_state.machine_name.clone(),
    }
}

// ── Messages ──────────────────────────────────────────────────────────────────

/// The notification for a failed sync step: friendlier wording for the
/// profile-resolution errors, which tell the user to open Zync and select
/// an installation.
pub open spec fn sync_error_text(prefix: Seq<char>, details: Seq<char>) -> Seq<char> {
    if crate::text::starts_with(details, "MULTIPLE_INSTALLATIONS:"@) {
        prefix + ": multiple Zen installations found — open Zync to select one."@
    } else if crate::text::contains(details, "no longer exists"@) {
        prefix + ": saved Zen profile not found — open Zync to select an installation."@
    } else {
        prefix + ": "@ + details
    }
}

/// The notification text for a failed sync step.
pub fn sync_error_message(prefix: &str, details: &str) -> (m: String)
    ensures
        m@ == sync_error_text(prefix@, details@),
{
    let d = crate::text::to_chars(details);
    let multiple = crate::text::to_chars("MULTIPLE_INSTALLATIONS:");
    let gone = crate::text::to_chars("no longer exists");
    let mut m = String::new();
    crate::text::push_str(&mut m, prefix);
    if crate::text::chars_start_with(d.as_slice(), multiple.as_slice()) {
        crate::text::push_str(&mut m, ": multiple Zen installations found — open Zync to select one.");
    } else if crate::text::chars_contain(d.as_slice(), gone.as_slice()) {
        crate::text::push_str(
            &mut m,
            ": saved Zen profile not found — open Zync to select an installation.",
        );
    } else {
        crate::text::push_str(&mut m, ": ");
        crate::text::push_str(&mut m, details);
    }
    m
}

/// The notification after applying another machine's profile that was
/// pushed while Zen was open here (this machine's push was blocked).
pub fn pull_applied_message(pusher: &str) -> (m: String)
    ensures
        m@ == pusher@
            + " pushed a profile while Zen was open. Their profile has been applied. Your session's changes are saved as a snapshot."@,
{
    crate::github::message(
        pusher,
        " pushed a profile while Zen was open. Their profile has been applied. Your session's changes are saved as a snapshot.",
    )
}

/// Why a pull runs.
pub enum PullOrigin {
    /// Zen closed here while another machine had pushed: a version announced
    /// while Zen was open, or GitHub found ahead when this machine would push.
    CloseOfZen,
    /// The poller found a newer version with Zen closed (or retries one).
    Announcement,
}

/// The notification after a pull of `pusher`'s profile: the blocked-push
/// text after a close of Zen, "Profile updated from {pusher}." otherwise.
pub open spec fn pull_notice_of(origin: PullOrigin, pusher: Seq<char>) -> Seq<char> {
    match origin {
        PullOrigin::CloseOfZen => pusher
            + " pushed a profile while Zen was open. Their profile has been applied. Your session's changes are saved as a snapshot."@,
        PullOrigin::Announcement => "Profile updated from "@ + pusher + "."@,
    }
}

/// The notification after a successful pull of `pusher`'s profile.
pub fn pull_notice(origin: PullOrigin, pusher: &str) -> (m: String)
    ensures
        m@ == pull_notice_of(origin, pusher@),
{
    match origin {
        PullOrigin::CloseOfZen => pull_applied_message(pusher),
        PullOrigin::Announcement => {
            let mut m = crate::github::message("Profile updated from ", pusher);
            crate::text::push_str(&mut m, ".");
            m
        },
    }
}

// ── Zen watcher ───────────────────────────────────────────────────────────────

/// How a Zen watcher tick starts.
pub enum WatcherStart {
    /// Not connected, or no close edge: nothing to do.
    Idle,
    /// Zen just closed with a version announced while it was open: pull it.
    PullPending(u32),
    /// Zen just closed: take the sync guard and check GitHub's version.
    CloseEdge,
}

/// The start of a Zen watcher tick, given whether Zen runs now.
pub open spec fn watcher_step(s: DaemonModel, zen_now_running: bool) -> (DaemonModel, WatcherStart) {
    if !s.connected {
        (s, WatcherStart::Idle)
    } else {
        let s1 = DaemonModel { zen_was_running: zen_now_running, ..s };
        if !s.zen_was_running || zen_now_running {
            (s1, WatcherStart::Idle)
        } else {
            match s.pending_version {
                Some(v) => (DaemonModel { pending_version: None, ..s1 }, WatcherStart::PullPending(v)),
                None => (s1, WatcherStart::CloseEdge),
            }
        }
    }
}

/// Records whether Zen runs now and finds what a close of Zen calls for.
pub fn watcher_begin(state: &mut DaemonState, zen_now_running: bool) -> (r: WatcherStart)
    ensures
        (final(state)@, r) == watcher_step(old(state)@, zen_now_running),
        same_handles(*old(state), *final(state)),
        final(state).local_state == old(state).local_state,
{
    if state.github_client.is_none() {
        return WatcherStart::Idle;
    }
    let was = state.zen_was_running;
    state.zen_was_running = zen_now_running;
    if !was || zen_now_running {
        return WatcherStart::Idle;
    }
    match state.pending_version.take() {
        Some(v) => WatcherStart::PullPending(v),
        None => WatcherStart::CloseEdge,
    }
}

/// Takes the sync guard; false when another sync holds it. Claimed: nothing
/// (the guard is an atomic flag shared with other tasks).
pub fn try_begin_sync(state: &DaemonState) -> bool {
    state.is_syncing.compare_exchange(
        false,
        true,
        std::sync::atomic::Ordering::SeqCst,
        std::sync::atomic::Ordering::SeqCst,
    ).is_ok()
}

/// Releases the sync guard.
pub fn end_sync(state: &DaemonState) {
    state.is_syncing.store(false, std::sync::atomic::Ordering::SeqCst);
}

/// What a close of Zen leads to once GitHub's version is known.
pub enum VersionCheck {
    /// The version could not be read: the push is queued; notify with this text.
    Failed(String),
    /// A queued push still cannot read the version: it stays queued, quietly.
    StillQueued,
    /// GitHub is ahead: pull this version.
    Behind(u32),
    /// Up to date: push, as the machine whose last known version this is.
    UpToDate(u32),
}

/// The decision after reading GitHub's version (`Ok(0)` when there is no
/// metadata yet), on a close of Zen or when retrying a queued push. A
/// failed read queues the push for the next poll cycle (GitHub was
/// unreachable at push time). On a failed read or when GitHub is ahead the
/// sync guard is released here.
pub fn after_version_check(
    state: &mut DaemonState,
    remote_version: Result<u32, String>,
    retrying: bool,
) -> (r: VersionCheck)
    ensures
        match remote_version {
            Err(e) => {
                &&& final(state)@ == (DaemonModel { pending_push: true, ..old(state)@ })
                &&& retrying ==> r is StillQueued
                &&& !retrying ==> (r matches VersionCheck::Failed(m) && m@ == "Sync check failed: "@
                    + e@)
            },
            Ok(v) => {
                &&& final(state)@ == old(state)@
                &&& if v > old(state).local_state.last_known_version {
                    r == VersionCheck::Behind(v)
                } else {
                    r == VersionCheck::UpToDate(old(state).local_state.last_known_version)
                }
            },
        },
        same_handles(*old(state), *final(state)),
        final(state).local_state == old(state).local_state,
{
    let last_known = state.local_state.last_known_version;
    match remote_version {
        Err(e) => {
            end_sync(state);
            state.pending_push = true;
            if retrying {
                VersionCheck::StillQueued
            } else {
                VersionCheck::Failed(crate::github::message("Sync check failed: ", e.as_str()))
            }
        },
        Ok(v) => {
            if v > last_known {
                end_sync(state);
                VersionCheck::Behind(v)
            } else {
                VersionCheck::UpToDate(last_known)
            }
        },
    }
}

/// What a push attempt from the watcher leads to.
pub enum PushFollowUp {
    /// Pushed as this version: publish it, record it, notify.
    Pushed(u32),
    /// Another machine pushed first: read GitHub's version and pull.
    Conflict,
    /// The push failed: notify with this text.
    Failed(String),
}

/// The follow-up to a push (`Ok(Some(v))` pushed version `v`, `Ok(None)`
/// lost to another machine).
pub fn push_follow_up(outcome: Result<Option<u32>, String>) -> (r: PushFollowUp)
    ensures
        match outcome {
            Ok(Some(v)) => r == PushFollowUp::Pushed(v),
            Ok(None) => r == PushFollowUp::Conflict,
            Err(e) => r matches PushFollowUp::Failed(m) && m@ == sync_error_text("Auto-push"@, e@),
        },
{
    match outcome {
        Ok(Some(v)) => PushFollowUp::Pushed(v),
        Ok(None) => PushFollowUp::Conflict,
        Err(e) => PushFollowUp::Failed(sync_error_message("Auto-push", e.as_str())),
    }
}

/// The version to pull after losing a push: GitHub's, or the next one when
/// it cannot be read.
pub fn conflict_pull_version(remote_version: Option<u32>, last_known: u32) -> (v: u32)
    requires
        remote_version is None ==> last_known < u32::MAX,
    ensures
        v == match remote_version {
            Some(r) => r,
            None => (last_known + 1) as u32,
        },
{
    match remote_version {
        Some(r) => r,
        None => last_known + 1,
    }
}

/// Records a successful push of `new_version`: the local state becomes the
/// one the push left (with the new version as last known), synced now, by
/// this machine; no push is queued any more.
pub fn record_push(state: &mut DaemonState, local_state: LocalState, new_version: u32, now: u64)
    ensures
        final(state).local_state.last_known_version == new_version,
        final(state).local_state.machine_name == local_state.machine_name,
        final(state).local_state.selected_profile_path == local_state.selected_profile_path,
        final(state).last_synced == Some(now),
        final(state).last_synced_from is None,
        final(state).github_client == old(state).github_client,
        final(state).is_syncing == old(state).is_syncing,
        final(state).config_dir == old(state).config_dir,
        final(state).zen_was_running == old(state).zen_was_running,
        final(state).last_ntfy_id == old(state).last_ntfy_id,
        final(state).last_poll_time == old(state).last_poll_time,
        final(state).pending_version == old(state).pending_version,
        !final(state).pending_push,
{
    state.local_state = local_state;
    state.last_synced = Some(now);
    state.last_synced_from = None;
    state.pending_push = false;
    state.local_state.last_known_version = new_version;
}

// ── Pulls ─────────────────────────────────────────────────────────────────────

/// Where a pull reads from, once GitHub's metadata was read.
pub enum PullSource {
    /// The metadata could not be read: the pull fails (and is retried).
    Unreadable,
    /// GitHub holds no version newer than this machine's: nothing to pull.
    UpToDate,
    /// Pull the current slot, pushed by `pusher`, and record GitHub's
    /// `version` as the last known one.
    From { slot: u8, pusher: String, version: u32 },
}

/// The machine named as the pusher of a pull of `version`: the newest
/// entry's machine when GitHub is at that version, "another machine"
/// otherwise.
pub open spec fn pusher_of(version: u32, m: crate::github::SyncMetadataView) -> Seq<char> {
    if m.version == version && m.slots.len() > 0 {
        m.slots[0].machine_name@
    } else {
        "another machine"@
    }
}

/// Where a pull of `version` reads from, given the metadata read from
/// GitHub (`None` when it could not be read) and this machine's last known
/// version: nothing when GitHub holds no newer version, else the current
/// slot, with GitHub's version as the one to record.
pub fn pull_source(version: u32, last_known: u32, remote: &Option<SyncMetadata>) -> (r: PullSource)
    ensures
        match remote {
            None => r is Unreadable,
            Some(m) => if m.version <= last_known {
                r is UpToDate
            } else {
                r matches PullSource::From { slot, pusher, version: v } && slot == m.current_slot
                    && v == m.version && pusher@ == pusher_of(version, m@)
            },
        },
        remote matches Some(m) ==> (crate::github::ring_wf(m@) && m.version == version
            && m.version > last_known && m@.slots.len() > 0 ==> (r matches PullSource::From {
            pusher,
            ..
        } && forall|j: int|
            0 <= j < m@.slots.len() && (#[trigger] m@.slots[j]).version == m.version ==> pusher@
                == m@.slots[j].machine_name@)),
{
    proof {
        match remote {
            Some(m) => {
                if crate::github::ring_wf(m@) && m.version == version && m@.slots.len() > 0 {
                    lemma_pusher_pushed_the_version(version, m@);
                }
            },
            None => {},
        }
    }
    match remote {
        Some(m) => {
            if m.version <= last_known {
                return PullSource::UpToDate;
            }
            let pusher = if m.version == version && m.slots.len() > 0 {
                m.slots[0].machine_name.clone()
            } else {
                let mut p = String::new();
                crate::text::push_str(&mut p, "another machine");
                p
            };
            PullSource::From { slot: m.current_slot, pusher, version: m.version }
        },
        None => PullSource::Unreadable,
    }
}

/// Records a successful pull of `version` (the version GitHub held, as
/// `pull_source` gives it) pushed by `pusher`: the local state becomes the
/// one the pull left (with that version as last known), synced now, from
/// the pusher.
pub fn record_pull(
    state: &mut DaemonState,
    local_state: LocalState,
    pusher: String,
    version: u32,
    now: u64,
)
    ensures
        final(state).local_state.last_known_version == version,
        final(state).local_state.machine_name == local_state.machine_name,
        final(state).local_state.selected_profile_path == local_state.selected_profile_path,
        final(state).last_synced == Some(now),
        final(state).last_synced_from == Some(pusher),
        final(state).github_client == old(state).github_client,
        final(state).is_syncing == old(state).is_syncing,
        final(state).config_dir == old(state).config_dir,
        final(state).zen_was_running == old(state).zen_was_running,
        final(state).last_ntfy_id == old(state).last_ntfy_id,
        final(state).last_poll_time == old(state).last_poll_time,
        final(state).pending_version == pending_after_pull(old(state).pending_version, version),
        final(state).pending_push == old(state).pending_push,
{
    state.local_state = local_state;
    state.last_synced = Some(now);
    state.last_synced_from = Some(pusher);
    state.local_state.last_known_version = version;
    match state.pending_version {
        Some(p) => {
            if p <= version {
                state.pending_version = None;
            }
        },
        None => {},
    }
}

/// The pending version after a pull of `version` succeeded: gone when the
/// pull brought it (or a newer one), kept when it is newer still.
pub open spec fn pending_after_pull(pending: Option<u32>, version: u32) -> Option<u32> {
    match pending {
        Some(p) => if p <= version {
            None
        } else {
            Some(p)
        },
        None => None,
    }
}

/// The state after a pull of `version` failed (GitHub unreachable, or the
/// profile could not be applied): the version stays pending, or the newer
/// version already pending does, to be retried on the next poll cycle.
pub open spec fn after_failed_pull(s: DaemonModel, version: u32) -> DaemonModel {
    DaemonModel {
        pending_version: Some(
            match s.pending_version {
                Some(p) => if p > version {
                    p
                } else {
                    version
                },
                None => version,
            },
        ),
        ..s
    }
}

/// Records that a pull of `version` failed: it is retried later.
pub fn pull_failed(state: &mut DaemonState, version: u32)
    ensures
        final(state)@ == after_failed_pull(old(state)@, version),
        same_handles(*old(state), *final(state)),
        final(state).local_state == old(state).local_state,
{
    let keep = match state.pending_version {
        Some(p) => if p > version {
            p
        } else {
            version
        },
        None => version,
    };
    state.pending_version = Some(keep);
}

/// What a poll cycle retries before polling, with Zen closed.
pub enum Retry {
    Nothing,
    /// A pull that failed, or that waited for Zen to close: pull this version.
    Pull(u32),
    /// A push that could not reach GitHub: run the push again.
    Push,
}

/// The retry that a poll cycle starts with: a pending pull first (a
/// machine that is behind must pull before it pushes), else a queued
/// push; nothing while Zen runs or when not connected. The retry is taken
/// off the state; a failure puts it back.
pub open spec fn retry_step(s: DaemonModel, zen_running: bool) -> (DaemonModel, Retry) {
    if !s.connected || zen_running {
        (s, Retry::Nothing)
    } else {
        match s.pending_version {
            Some(v) => (DaemonModel { pending_version: None, ..s }, Retry::Pull(v)),
            None => if s.pending_push {
                (DaemonModel { pending_push: false, ..s }, Retry::Push)
            } else {
                (s, Retry::Nothing)
            },
        }
    }
}

/// Takes the retry that this poll cycle runs.
pub fn take_retry(state: &mut DaemonState, zen_running: bool) -> (r: Retry)
    ensures
        (final(state)@, r) == retry_step(old(state)@, zen_running),
        same_handles(*old(state), *final(state)),
        final(state).local_state == old(state).local_state,
{
    if state.github_client.is_none() || zen_running {
        return Retry::Nothing;
    }
    match state.pending_version.take() {
        Some(v) => Retry::Pull(v),
        None => {
            if state.pending_push {
                state.pending_push = false;
                Retry::Push
            } else {
                Retry::Nothing
            }
        },
    }
}

// ── ntfy poller ───────────────────────────────────────────────────────────────

/// The `since` value of the next poll: the last message id seen, else the
/// start time of the last poll (its decimal text); `None` when not connected.
pub open spec fn poll_since_of(s: DaemonModel) -> Option<Seq<char>> {
    if !s.connected {
        None
    } else {
        match s.last_ntfy_id {
            Some(id) => Some(id),
            None => Some(crate::text::decimal(s.last_poll_time as nat)),
        }
    }
}

/// The `since` value of the next poll: the last message id seen, else the
/// start time of the last poll; `None` when not connected.
pub fn next_poll_since(state: &DaemonState) -> (r: Option<String>)
    ensures
        opt_view(r) == poll_since_of(state@),
        state.github_client is None ==> r is None,
        state.github_client is Some ==> match state.last_ntfy_id {
            Some(id) => r == Some(id),
            None => r matches Some(t) && t@ == crate::text::decimal(state.last_poll_time as nat),
        },
{
    if state.github_client.is_none() {
        return None;
    }
    match &state.last_ntfy_id {
        Some(id) => Some(id.clone()),
        None => Some(crate::text::u64_to_decimal(state.last_poll_time)),
    }
}

/// Records a poll that failed: it still counts as the last poll.
pub fn poll_failed(state: &mut DaemonState, poll_start: u64)
    ensures
        final(state)@ == (DaemonModel { last_poll_time: poll_start, ..old(state)@ }),
        same_handles(*old(state), *final(state)),
        final(state).local_state == old(state).local_state,
{
    state.last_poll_time = poll_start;
}

/// What a poll's messages lead to.
pub enum PollNext {
    /// No messages, or nothing newer than what this machine has.
    Nothing,
    /// The latest message is not a version number (it is logged).
    Unrecognised(String),
    /// A newer version was announced: pull it now, or when Zen closes.
    Announced(u32),
}

/// The poll step: the poll started at `poll_start` and returned `msgs`
/// with their `times`; the latest is remembered, and a version newer than
/// the last known one is announced.
pub open spec fn poll_step(
    s: DaemonModel,
    poll_start: u64,
    msgs: Seq<NtfyMessage>,
    latest: Option<int>,
) -> (DaemonModel, PollNext) {
    let s1 = DaemonModel { last_poll_time: poll_start, ..s };
    match latest {
        None => (s1, PollNext::Nothing),
        Some(i) => {
            let s2 = DaemonModel { last_ntfy_id: Some(msgs[i].id@), ..s1 };
            match crate::ntfy::version_of_message(msgs[i].message@) {
                None => (s2, PollNext::Unrecognised(msgs[i].message)),
                Some(v) => if v <= s.last_known_version {
                    (s2, PollNext::Nothing)
                } else {
                    (s2, PollNext::Announced(v))
                },
            }
        },
    }
}

/// Records a poll that returned `msgs` (with their `times`, in the same
/// order) and finds what the latest message calls for.
pub fn poll_received(
    state: &mut DaemonState,
    poll_start: u64,
    msgs: &Vec<NtfyMessage>,
    times: &Vec<u64>,
) -> (r: PollNext)
    requires
        msgs@.len() == times@.len(),
    ensures
        exists|latest: Option<int>|
            {
                &&& match latest {
                    None => times@.len() == 0,
                    Some(i) => crate::ntfy::is_latest_index(times@, i),
                }
                &&& (final(state)@, r) == poll_step(old(state)@, poll_start, msgs@, latest)
            },
        same_handles(*old(state), *final(state)),
        final(state).local_state == old(state).local_state,
{
    state.last_poll_time = poll_start;
    let latest = match crate::ntfy::latest_message_index(times) {
        Some(i) => i,
        None => {
            assert((state@, PollNext::Nothing) == poll_step(old(state)@, poll_start, msgs@, None));
            return PollNext::Nothing;
        },
    };
    let m = &msgs[latest];
    state.last_ntfy_id = Some(m.id.clone());
    let r = match crate::ntfy::parse_version_message(m.message.as_str()) {
        None => PollNext::Unrecognised(m.message.clone()),
        Some(v) => {
            if v <= state.local_state.last_known_version {
                PollNext::Nothing
            } else {
                PollNext::Announced(v)
            }
        },
    };
    assert((state@, r) == poll_step(old(state)@, poll_start, msgs@, Some(latest as int)));
    r
}

/// What an announced version calls for.
pub enum PullDecision {
    /// Zen is open: the version waits for Zen to close (notify with this text).
    Defer(String),
    /// Zen is closed: pull the version now.
    PullNow(u32),
}

/// Deferring or pulling an announced `version`, given whether Zen runs.
pub open spec fn announce_step(s: DaemonModel, version: u32, zen_running: bool) -> (
    DaemonModel,
    bool,
) {
    if zen_running {
        (DaemonModel { pending_version: Some(version), ..s }, false)
    } else {
        (s, true)
    }
}

/// Defers `version` while Zen is open, or asks for the pull now.
pub fn decide_pull(state: &mut DaemonState, version: u32, zen_running: bool) -> (r: PullDecision)
    ensures
        final(state)@ == announce_step(old(state)@, version, zen_running).0,
        zen_running ==> (r matches PullDecision::Defer(m) && m@
            == "New profile available — will sync when Zen closes"@),
        !zen_running ==> r == PullDecision::PullNow(version),
        same_handles(*old(state), *final(state)),
        final(state).local_state == old(state).local_state,
{
    if zen_running {
        state.pending_version = Some(version);
        let mut m = String::new();
        crate::text::push_str(&mut m, "New profile available — will sync when Zen closes");
        PullDecision::Defer(m)
    } else {
        PullDecision::PullNow(version)
    }
}

// ── Manual sync ───────────────────────────────────────────────────────────────

/// The checks before a manual sync: Zen must be closed and GitHub
/// connected. On success: the client, this machine's name, and the last
/// known version to push from.
pub fn manual_sync_start(state: &DaemonState, zen_running: bool) -> (r: Result<
    (Arc<GitHubClient>, String, u32),
    String,
>)
    ensures
        zen_running ==> (r matches Err(m) && m@ == "Zen is running — close it before syncing"@),
        !zen_running && state.github_client is None ==> (r matches Err(m) && m@
            == "Not connected to GitHub — set up sync in the Sync tab first"@),
        !zen_running && state.github_client is Some ==> (r matches Ok((c, name, v)) && Some(c)
            == state.github_client && name == state.local_state.machine_name && v
            == state.local_state.last_known_version),
{
    if zen_running {
        let mut m = String::new();
        crate::text::push_str(&mut m, "Zen is running — close it before syncing");
        return Err(m);
    }
    match &state.github_client {
        Some(c) => Ok((c.clone(), state.local_state.machine_name.clone(), state.local_state.last_known_version)),
        None => {
            let mut m = String::new();
            crate::text::push_str(&mut m, "Not connected to GitHub — set up sync in the Sync tab first");
            Err(m)
        },
    }
}

/// The result of a manual push: the new version, or the error to show
/// (another machine pushing first is an error here).
pub fn manual_sync_result(outcome: Result<Option<u32>, String>) -> (r: Result<u32, String>)
    ensures
        match outcome {
            Ok(Some(v)) => r == Ok::<u32, String>(v),
            Ok(None) => r matches Err(m) && m@
                == "Another machine pushed recently — close Zen and try again"@,
            Err(e) => r == Err::<u32, String>(e),
        },
{
    match outcome {
        Ok(Some(v)) => Ok(v),
        Ok(None) => {
            let mut m = String::new();
            crate::text::push_str(&mut m, "Another machine pushed recently — close Zen and try again");
            Err(m)
        },
        Err(e) => Err(e),
    }
}

// ── Laws ──────────────────────────────────────────────────────────────────────

/// A close of Zen is acted on once: a second tick that sees Zen in the same
/// state does nothing.
pub proof fn lemma_close_edge_acts_once(s: DaemonModel, zen_now_running: bool)
    ensures
        watcher_step(watcher_step(s, zen_now_running).0, zen_now_running).1 == WatcherStart::Idle,
{
}

/// A version announced while Zen is open is pulled when Zen closes: after
/// deferring it, the next tick that sees Zen closed (Zen having been seen
/// open) pulls exactly that version and forgets it.
pub proof fn lemma_deferred_pull_runs_at_close(s: DaemonModel, version: u32)
    requires
        s.connected,
        s.zen_was_running,
    ensures
        ({
            let deferred = announce_step(s, version, true).0;
            let (after, start) = watcher_step(deferred, false);
            &&& start == WatcherStart::PullPending(version)
            &&& after.pending_version is None
            &&& !after.zen_was_running
        }),
{
}

/// Zen closing without a pending version starts a sync check, and only then.
pub proof fn lemma_close_edge_checks_version(s: DaemonModel, zen_now_running: bool)
    ensures
        watcher_step(s, zen_now_running).1 == WatcherStart::CloseEdge <==> (s.connected
            && s.zen_was_running && !zen_now_running && s.pending_version is None),
{
}

/// A message is read once: after a poll that returned messages, the next
/// poll asks only for what came after the latest of them.
pub proof fn lemma_next_poll_after_latest(
    s: DaemonModel,
    poll_start: u64,
    msgs: Seq<NtfyMessage>,
    i: int,
)
    requires
        s.connected,
    ensures
        poll_since_of(poll_step(s, poll_start, msgs, Some(i)).0) == Some(msgs[i].id@),
{
}

/// A version announced while Zen was open is not lost when its pull fails:
/// Zen closing asks for the pull, and after the pull fails the version is
/// still pending, the last known version unchanged, and the next poll cycle
/// with Zen closed pulls it again.
pub proof fn lemma_failed_pull_is_retried(s: DaemonModel, version: u32)
    requires
        s.connected,
        s.zen_was_running,
        s.pending_version == Some(version),
    ensures
        ({
            let (at_close, start) = watcher_step(s, false);
            let failed = after_failed_pull(at_close, version);
            &&& start == WatcherStart::PullPending(version)
            &&& failed.pending_version == Some(version)
            &&& failed.last_known_version == s.last_known_version
            &&& retry_step(failed, false).1 == Retry::Pull(version)
        }),
{
}

/// A pending version stays pending until a pull that brings it succeeds.
pub proof fn lemma_pending_kept_until_pulled(pending: u32, version: u32)
    ensures
        pending_after_pull(Some(pending), version) is None <==> pending <= version,
{
}

/// A push that could not reach GitHub is retried: with no pull pending,
/// the next poll cycle with Zen closed runs the push again.
pub proof fn lemma_queued_push_is_retried(s: DaemonModel)
    requires
        s.connected,
        s.pending_version is None,
    ensures
        retry_step(DaemonModel { pending_push: true, ..s }, false) == (
            DaemonModel { pending_push: false, ..s },
            Retry::Push,
        ),
{
}

/// An ntfy announcement of a newer version is acted on: when the latest
/// message announces a version above the last known one, the poll
/// announces exactly that version (to pull now, or when Zen closes).
pub proof fn lemma_poll_announces_every_newer(
    s: DaemonModel,
    poll_start: u64,
    msgs: Seq<NtfyMessage>,
    i: int,
    v: u32,
)
    requires
        crate::ntfy::version_of_message(msgs[i].message@) == Some(v),
        v > s.last_known_version,
    ensures
        poll_step(s, poll_start, msgs, Some(i)).1 == PollNext::Announced(v),
        poll_step(s, poll_start, msgs, Some(i)).0.last_ntfy_id == Some(msgs[i].id@),
{
}

/// The machine named after a pull is the one that pushed the pulled
/// version: when GitHub is at the requested version and its slots have the
/// ring's shape (newest first, versions counting down), the pusher is the
/// machine of the entry that holds GitHub's version.
pub proof fn lemma_pusher_pushed_the_version(version: u32, m: crate::github::SyncMetadataView)
    requires
        crate::github::ring_wf(m),
        m.version == version,
        m.slots.len() > 0,
    ensures
        forall|j: int|
            0 <= j < m.slots.len() && (#[trigger] m.slots[j]).version == m.version ==> pusher_of(
                version,
                m,
            ) == m.slots[j].machine_name@,
{
    assert forall|j: int|
        0 <= j < m.slots.len() && (#[trigger] m.slots[j]).version == m.version implies pusher_of(
        version,
        m,
    ) == m.slots[j].machine_name@ by {
        assert(m.slots[j].version == m.version - j);
    }
}

/// An ntfy announcement never pulls a version this machine already has.
pub proof fn lemma_poll_announces_only_newer(
    s: DaemonModel,
    poll_start: u64,
    msgs: Seq<NtfyMessage>,
    latest: Option<int>,
)
    ensures
        poll_step(s, poll_start, msgs, latest).1 matches PollNext::Announced(v) ==> v
            > s.last_known_version,
{
}

} // verus!
