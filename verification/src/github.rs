//! GitHub-backed storage: the snapshot metadata kept in `metadata.json`,
//! its ring buffer of ten profile slots, and the connected client.
use vstd::prelude::*;

verus! {

/// The number of snapshot slots kept on GitHub.
pub const SLOT_COUNT: u8 = 10;

/// One pushed snapshot, as listed in `metadata.json`.
#[derive(Clone, Debug)]
pub struct SlotEntry {
    pub slot: u8,
    pub version: u32,
    /// ISO 8601 UTC, e.g. "2026-05-20T14:30:00Z".
    pub pushed_at: String,
    pub machine_name: String,
    pub size_bytes: u64,
}

/// The contents of `metadata.json`.
#[derive(Clone, Debug)]
pub struct SyncMetadata {
    pub version: u32,
    pub current_slot: u8,
    /// Sorted newest-first, at most ten.
    pub slots: Vec<SlotEntry>,
}

/// The metadata read from GitHub together with the SHA of the file that
/// held it (the optimistic lock for the next write).
pub struct MetadataWithSha {
    pub metadata: SyncMetadata,
    pub sha: String,
}

/// `SyncMetadata` with its slot list as a sequence.
pub struct SyncMetadataView {
    pub version: u32,
    pub current_slot: u8,
    pub slots: Seq<SlotEntry>,
}

impl View for SyncMetadata {
    type V = SyncMetadataView;

    open spec fn view(&self) -> SyncMetadataView {
        SyncMetadataView { version: self.version, current_slot: self.current_slot, slots: self.slots@ }
    }
}

/// The slot that the next push writes: the next unused slot while fewer
/// than ten are in use, then the one after the current slot, modulo ten.
pub open spec fn next_slot_of(m: SyncMetadataView) -> int {
    if m.slots.len() < 10 {
        m.slots.len() as int
    } else {
        (m.current_slot + 1) % 10
    }
}

/// The metadata after a push that records `entry`: the version goes up by
/// one, the current slot becomes the entry's slot, and the entry goes in
/// front of the list, which keeps its ten newest entries.
pub open spec fn after_push(m: SyncMetadataView, entry: SlotEntry) -> SyncMetadataView {
    let slots = seq![entry] + m.slots;
    SyncMetadataView {
        version: (m.version + 1) as u32,
        current_slot: entry.slot,
        slots: if slots.len() > 10 {
            slots.take(10)
        } else {
            slots
        },
    }
}

/// The ring-buffer shape that pushes keep: at most ten entries, newest
/// first, with consecutive versions ending at the metadata's version and
/// slots counting down (modulo ten) from the current slot; while fewer than
/// ten slots are in use they are slots `0..len` and the current slot is
/// the last of them.
pub open spec fn ring_wf(m: SyncMetadataView) -> bool {
    &&& m.slots.len() <= 10
    &&& m.current_slot < 10
    &&& 0 < m.slots.len() < 10 ==> m.current_slot == m.slots.len() - 1
    &&& m.slots.len() == 0 ==> m.current_slot == 0
    &&& forall|i: int|
        0 <= i < m.slots.len() ==> (#[trigger] m.slots[i]).slot == (m.current_slot + 10 - i) % 10
    &&& forall|i: int| 0 <= i < m.slots.len() ==> (#[trigger] m.slots[i]).version == m.version - i
}

impl SyncMetadata {
    /// The slot that the next push should write to (oldest slot in ring buffer).
    pub fn next_slot(&self) -> (s: u8)
        requires
            self.slots@.len() >= 10 ==> self.current_slot < u8::MAX,
        ensures
            s == next_slot_of(self@),
    {
        if self.slots.len() < 10 {
            self.slots.len() as u8
        } else {
            (self.current_slot + 1) % SLOT_COUNT
        }
    }
}

/// The metadata of a repository that nothing has been pushed to yet.
pub fn empty_metadata() -> (m: SyncMetadata)
    ensures
        m@.version == 0,
        m@.current_slot == 0,
        m@.slots.len() == 0,
        ring_wf(m@),
{
    SyncMetadata { version: 0, current_slot: 0, slots: Vec::new() }
}

/// The slot a push from a machine that last saw `last_known_version` may
/// write, or `None` when GitHub holds another version (another machine
/// pushed, and this one must pull first).
pub fn push_target(current: &SyncMetadata, last_known_version: u32) -> (r: Option<u8>)
    requires
        current.version == last_known_version && current@.slots.len() >= 10
            ==> current.current_slot < u8::MAX,
    ensures
        r is Some <==> current.version == last_known_version,
        r matches Some(s) ==> s == next_slot_of(current@),
{
    if current.version != last_known_version {
        return None;
    }
    Some(current.next_slot())
}

/// A copy of `e`.
pub fn copy_entry(e: &SlotEntry) -> (r: SlotEntry)
    ensures
        r == *e,
{
    SlotEntry {
        slot: e.slot,
        version: e.version,
        pushed_at: e.pushed_at.clone(),
        machine_name: e.machine_name.clone(),
        size_bytes: e.size_bytes,
    }
}

/// The metadata that records a push of `size_bytes` bytes by
/// `machine_name` at `pushed_at` into `slot`.
pub fn pushed_metadata(
    current: &SyncMetadata,
    slot: u8,
    pushed_at: String,
    machine_name: String,
    size_bytes: u64,
) -> (m: SyncMetadata)
    requires
        current.version < u32::MAX,
    ensures
        m@ == after_push(
            current@,
            SlotEntry { slot, version: (current.version + 1) as u32, pushed_at, machine_name, size_bytes },
        ),
{
    let version = current.version + 1;
    let ghost entry = SlotEntry { slot, version, pushed_at, machine_name, size_bytes };
    let mut slots: Vec<SlotEntry> = Vec::new();
    slots.push(SlotEntry { slot, version, pushed_at, machine_name, size_bytes });
    let mut i: usize = 0;
    while i < current.slots.len() && slots.len() < 10
        invariant
            i <= current.slots@.len(),
            slots@.len() == i + 1,
            i + 1 <= 10,
            slots@ == (seq![entry] + current.slots@).take(i + 1),
        decreases current.slots@.len() - i,
    {
        slots.push(copy_entry(&current.slots[i]));
        assert((seq![entry] + current.slots@).take(i + 2) =~= (seq![entry]
            + current.slots@).take(i + 1).push(current.slots@[i as int]));
        i = i + 1;
    }
    let ghost all = seq![entry] + current.slots@;
    assert(slots@ =~= after_push(current@, entry).slots) by {
        if i == current.slots@.len() {
            assert(all.take(i + 1) =~= all);
        }
    }
    let m = SyncMetadata { version, current_slot: slot, slots };
    m
}

/// Every slot of a well-formed ring is in use at most once.
pub proof fn lemma_ring_slots_distinct(m: SyncMetadataView, i: int, j: int)
    requires
        ring_wf(m),
        0 <= i < j < m.slots.len(),
    ensures
        m.slots[i].slot != m.slots[j].slot,
{
    assert(m.slots[i].slot == (m.current_slot + 10 - i) % 10);
    assert(m.slots[j].slot == (m.current_slot + 10 - j) % 10);
}

/// While fewer than ten slots are in use, a push writes a slot that no
/// entry uses; once all ten are in use, it writes the slot of the oldest
/// entry, which the push then drops from the list.
pub proof fn lemma_next_slot_overwrites_oldest(m: SyncMetadataView)
    requires
        ring_wf(m),
    ensures
        0 <= next_slot_of(m) < 10,
        m.slots.len() < 10 ==> forall|i: int|
            0 <= i < m.slots.len() ==> (#[trigger] m.slots[i]).slot != next_slot_of(m),
        m.slots.len() == 10 ==> m.slots[9].slot == next_slot_of(m),
{
    if m.slots.len() < 10 {
        assert forall|i: int| 0 <= i < m.slots.len() implies (#[trigger] m.slots[i]).slot
            != next_slot_of(m) by {
            assert(m.slots[i].slot == (m.current_slot + 10 - i) % 10);
        }
    } else {
        assert(m.slots[9].slot == (m.current_slot + 10 - 9) % 10);
    }
}

/// A push that writes the slot `next_slot` chose keeps the ring buffer
/// well formed: at most ten entries (one more until there are ten), newest
/// first with consecutive versions, and no slot in use twice. The version
/// counter must have room for one more push.
pub proof fn lemma_push_keeps_ring(m: SyncMetadataView, entry: SlotEntry)
    requires
        ring_wf(m),
        m.version < u32::MAX,
        entry.slot == next_slot_of(m),
        entry.version == m.version + 1,
    ensures
        ring_wf(after_push(m, entry)),
        after_push(m, entry).version == m.version + 1,
        after_push(m, entry).slots[0] == entry,
        after_push(m, entry).slots.len() == if m.slots.len() < 10 {
            m.slots.len() + 1
        } else {
            10
        },
{
    let n = after_push(m, entry);
    let all = seq![entry] + m.slots;
    assert forall|i: int| 0 <= i < n.slots.len() implies (#[trigger] n.slots[i]).slot == (
    n.current_slot + 10 - i) % 10 by {
        assert(n.slots[i] == all[i]);
        if i > 0 {
            assert(all[i] == m.slots[i - 1]);
            assert(m.slots[i - 1].slot == (m.current_slot + 10 - (i - 1)) % 10);
        }
    }
    assert forall|i: int| 0 <= i < n.slots.len() implies (#[trigger] n.slots[i]).version
        == n.version - i by {
        assert(n.slots[i] == all[i]);
        if i > 0 {
            assert(all[i] == m.slots[i - 1]);
        }
    }
}

// ── The connected client ───────────────────────────────────────────────────

#[verifier::external_type_specification]
#[verifier::external_body]
pub struct ExHttpClient(reqwest::Client);

/// `reqwest::Client::clone` (the derived `Clone` of `GitHubClient` calls
/// it). Claimed: nothing.
pub assume_specification[ <reqwest::Client as core::clone::Clone>::clone ](
    client: &reqwest::Client,
) -> reqwest::Client;

/// A GitHub account connected for sync: its token and identity, the
/// storage release, the profile encryption key and an HTTP client.
#[derive(Clone)]
pub struct GitHubClient {
    pub token: String,
    pub user_id: u64,
    pub username: String,
    pub release_id: u64,
    pub encryption_key: [u8; 32],
    pub http: reqwest::Client,
}

// ── Token management ───────────────────────────────────────────────────────

/// The keychain service that holds the account.
pub const KEYCHAIN_SERVICE: &'static str = "zync";

/// The keychain account names of the token, user id and user name.
pub const KEYCHAIN_GITHUB_TOKEN: &'static str = "github_token";
pub const KEYCHAIN_GITHUB_USER_ID: &'static str = "github_user_id";
pub const KEYCHAIN_GITHUB_USERNAME: &'static str = "github_username";

#[verifier::external_type_specification]
#[verifier::external_body]
pub struct ExKeyringEntry(keyring::Entry);

/// `keyring::Entry::new`; the error as its text. Claimed: nothing; the
/// platform keychain decides.
#[verifier::external_body]
fn keychain_entry(service: &str, account: &str) -> Result<keyring::Entry, String> {
    match keyring::Entry::new(service, account) {
        Ok(e) => Ok(e),
        Err(e) => Err(e.to_string()),
    }
}

/// `keyring::Entry::get_password`, `None` on any error. Claimed: nothing;
/// the result is what the keychain holds.
#[verifier::external_body]
fn keychain_get(entry: &keyring::Entry) -> Option<String> {
    entry.get_password().ok()
}

/// `keyring::Entry::set_password`; the error as its text. Claimed: nothing.
#[verifier::external_body]
fn keychain_set(entry: &keyring::Entry, value: &str) -> Result<(), String> {
    match entry.set_password(value) {
        Ok(()) => Ok(()),
        Err(e) => Err(e.to_string()),
    }
}

/// What deleting a keychain credential came to.
pub enum DeleteOutcome {
    Deleted,
    /// There was no such credential (`keyring::Error::NoEntry`).
    NoEntry,
    /// Any other error, as its text.
    Failed(String),
}

/// `keyring::Entry::delete_credential`, telling `NoEntry` apart from other
/// errors. Claimed: nothing; the keychain decides.
#[verifier::external_body]
fn keychain_delete(entry: &keyring::Entry) -> DeleteOutcome {
    match entry.delete_credential() {
        Ok(()) => DeleteOutcome::Deleted,
        Err(keyring::Error::NoEntry) => DeleteOutcome::NoEntry,
        Err(e) => DeleteOutcome::Failed(e.to_string()),
    }
}

/// The stored password of `account`, if the keychain has one.
fn load_secret(account: &str) -> Option<String> {
    match keychain_entry(KEYCHAIN_SERVICE, account) {
        Ok(entry) => keychain_get(&entry),
        Err(_) => None,
    }
}

/// Whether a GitHub token is stored in the keychain.
pub fn has_stored_token() -> bool {
    load_secret(KEYCHAIN_GITHUB_TOKEN).is_some()
}

/// `prefix` followed by `detail`.
pub fn message(prefix: &str, detail: &str) -> (m: String)
    ensures
        m@ == prefix@ + detail@,
{
    let mut m = String::new();
    crate::text::push_str(&mut m, prefix);
    crate::text::push_str(&mut m, detail);
    m
}

/// "Keychain error: {e}".
pub open spec fn keychain_error_text(e: Seq<char>) -> Seq<char> {
    "Keychain error: "@ + e
}

/// "Failed to {verb} {account}: {e}".
pub open spec fn account_error_text(verb: Seq<char>, account: Seq<char>, e: Seq<char>) -> Seq<
    char,
> {
    "Failed to "@ + verb + " "@ + account + ": "@ + e
}

/// Whether `m` reports a failed keychain step on one of `accounts`: the
/// keychain could not be opened for it, or the `verb` (save, remove) failed.
pub open spec fn keychain_failure(m: Seq<char>, verb: Seq<char>, accounts: Seq<Seq<char>>) -> bool {
    ||| exists|e: Seq<char>| m == #[trigger] keychain_error_text(e)
    ||| exists|i: int, e: Seq<char>|
        0 <= i < accounts.len() && m == #[trigger] account_error_text(verb, accounts[i], e)
}

/// The error for a keychain that cannot be opened: "Keychain error: {e}".
pub fn keychain_error(e: &str) -> (m: String)
    ensures
        m@ == keychain_error_text(e@),
{
    message("Keychain error: ", e)
}

/// The error for a keychain write that failed: "Failed to {verb} {account}: {e}".
pub fn account_error(verb: &str, account: &str, e: &str) -> (m: String)
    ensures
        m@ == account_error_text(verb@, account@, e@),
{
    let mut m = message("Failed to ", verb);
    crate::text::push_str(&mut m, " ");
    crate::text::push_str(&mut m, account);
    crate::text::push_str(&mut m, ": ");
    crate::text::push_str(&mut m, e);
    m
}

/// The keychain account names of a connected account, in the order they
/// are stored and removed.
pub open spec fn token_account_names() -> Seq<Seq<char>> {
    seq![KEYCHAIN_GITHUB_TOKEN@, KEYCHAIN_GITHUB_USER_ID@, KEYCHAIN_GITHUB_USERNAME@]
}

/// The keychain account names of a connected account.
pub fn token_accounts() -> (v: Vec<&'static str>)
    ensures
        crate::profile::str_views(v@) == token_account_names(),
{
    let v = vec![KEYCHAIN_GITHUB_TOKEN, KEYCHAIN_GITHUB_USER_ID, KEYCHAIN_GITHUB_USERNAME];
    assert(crate::profile::str_views(v@) =~= token_account_names());
    v
}

/// The keychain items that store a connected account: the token, the user
/// id as decimal text and the user name, under their account names, in
/// that order.
pub fn token_items(token: &str, user_id: u64, username: &str) -> (items: Vec<(&'static str, String)>)
    ensures
        items@.len() == 3,
        forall|i: int| 0 <= i < 3 ==> (#[trigger] items@[i]).0@ == token_account_names()[i],
        items@[0].1@ == token@,
        items@[1].1@ == crate::text::decimal(user_id as nat),
        items@[2].1@ == username@,
{
    let mut t = String::new();
    crate::text::push_str(&mut t, token);
    let mut u = String::new();
    crate::text::push_str(&mut u, username);
    vec![
        (KEYCHAIN_GITHUB_TOKEN, t),
        (KEYCHAIN_GITHUB_USER_ID, crate::text::u64_to_decimal(user_id)),
        (KEYCHAIN_GITHUB_USERNAME, u),
    ]
}

/// Stores one keychain item.
fn save_secret(account: &str, value: &str) -> (r: Result<(), String>)
    ensures
        r matches Err(m) ==> keychain_failure(m@, "save"@, seq![account@]),
{
    let entry = match keychain_entry(KEYCHAIN_SERVICE, account) {
        Ok(e) => e,
        Err(e) => return Err(keychain_error(e.as_str())),
    };
    match keychain_set(&entry, value) {
        Ok(()) => Ok(()),
        Err(e) => {
            let m = account_error("save", account, e.as_str());
            assert(seq![account@][0] == account@);
            Err(m)
        },
    }
}

/// Stores the token, user id and user name in the keychain (the items of
/// `token_items`), in that order, stopping at the first failure.
pub fn save_token(token: &str, user_id: u64, username: &str) -> (r: Result<(), String>)
    ensures
        r matches Err(m) ==> keychain_failure(m@, "save"@, token_account_names()),
{
    let items = token_items(token, user_id, username);
    let mut i: usize = 0;
    while i < items.len()
        invariant
            i <= items@.len(),
            items@.len() == 3,
            forall|k: int| 0 <= k < 3 ==> (#[trigger] items@[k]).0@ == token_account_names()[k],
        decreases items@.len() - i,
    {
        let (account, value) = &items[i];
        match save_secret(account, value.as_str()) {
            Ok(()) => {},
            Err(m) => {
                proof {
                    lemma_failure_on_one_account(m@, "save"@, token_account_names(), i as int);
                }
                return Err(m);
            },
        }
        i = i + 1;
    }
    Ok(())
}

/// A failure on the `k`-th of `accounts` is a failure on `accounts`.
proof fn lemma_failure_on_one_account(m: Seq<char>, verb: Seq<char>, accounts: Seq<Seq<char>>, k: int)
    requires
        0 <= k < accounts.len(),
        keychain_failure(m, verb, seq![accounts[k]]),
    ensures
        keychain_failure(m, verb, accounts),
{
    if !(exists|e: Seq<char>| m == #[trigger] keychain_error_text(e)) {
        let (i, e) = choose|i: int, e: Seq<char>|
            0 <= i < 1 && m == #[trigger] account_error_text(verb, seq![accounts[k]][i], e);
        assert(m == account_error_text(verb, accounts[k], e));
    }
}

/// Removes one keychain item; one that is not there counts as removed.
fn remove_secret(account: &str) -> (r: Result<(), String>)
    ensures
        r matches Err(m) ==> keychain_failure(m@, "remove"@, seq![account@]),
{
    let entry = match keychain_entry(KEYCHAIN_SERVICE, account) {
        Ok(e) => e,
        Err(e) => return Err(keychain_error(e.as_str())),
    };
    match keychain_delete(&entry) {
        DeleteOutcome::Deleted | DeleteOutcome::NoEntry => Ok(()),
        DeleteOutcome::Failed(e) => {
            let m = account_error("remove", account, e.as_str());
            assert(seq![account@][0] == account@);
            Err(m)
        },
    }
}

/// Removes the token, user id and user name from the keychain (the
/// accounts of `token_accounts`), in that order, stopping at the first
/// failure.
pub fn remove_stored_token() -> (r: Result<(), String>)
    ensures
        r matches Err(m) ==> keychain_failure(m@, "remove"@, token_account_names()),
{
    let accounts = token_accounts();
    let mut i: usize = 0;
    while i < accounts.len()
        invariant
            i <= accounts@.len(),
            crate::profile::str_views(accounts@) == token_account_names(),
        decreases accounts@.len() - i,
    {
        match remove_secret(accounts[i]) {
            Ok(()) => {},
            Err(m) => {
                proof {
                    assert(accounts@[i as int]@ == token_account_names()[i as int]);
                    lemma_failure_on_one_account(m@, "remove"@, token_account_names(), i as int);
                }
                return Err(m);
            },
        }
        i = i + 1;
    }
    Ok(())
}

/// A stored user id read back: a decimal `u64` (`u64::from_str`).
pub fn parse_user_id(s: &str) -> (r: Option<u64>)
    ensures
        r matches Some(v) ==> crate::text::unsigned_value(s@) == Some(v as nat),
        r is None ==> match crate::text::unsigned_value(s@) {
            Some(v) => v > u64::MAX,
            None => true,
        },
{
    let chars = crate::text::to_chars(s);
    crate::text::parse_unsigned(chars.as_slice(), u64::MAX)
}

/// A user id stored by `save_token` (as its decimal text) is read back by
/// `load_token_parts` as the same id.
pub proof fn lemma_user_id_round_trip(user_id: u64)
    ensures
        crate::text::unsigned_value(crate::text::decimal(user_id as nat)) == Some(user_id as nat),
{
    crate::text::lemma_decimal_round_trip(user_id as nat);
}

/// The token, user id and user name stored in the keychain, when all
/// three are there and the user id is a number.
pub fn load_token_parts() -> Option<(String, u64, String)> {
    let token = load_secret(KEYCHAIN_GITHUB_TOKEN)?;
    let id_text = load_secret(KEYCHAIN_GITHUB_USER_ID)?;
    let user_id = parse_user_id(id_text.as_str())?;
    let username = load_secret(KEYCHAIN_GITHUB_USERNAME)?;
    Some((token, user_id, username))
}

// ── OAuth ──────────────────────────────────────────────────────────────────

/// The value of a `code=...` query parameter: the text after the first
/// `=` when the text before it is `code`.
pub open spec fn code_param_value(kv: Seq<char>) -> Option<Seq<char>> {
    match crate::text::first_index_of(kv, '=') {
        Some(k) => if kv.take(k) == "code"@ {
            Some(kv.skip(k + 1))
        } else {
            None
        },
        None => None,
    }
}

/// The value of the first `code` parameter among `params`.
pub open spec fn first_code_param(params: Seq<Seq<char>>) -> Option<Seq<char>>
    decreases params.len(),
{
    if params.len() == 0 {
        None
    } else {
        match code_param_value(params[0]) {
            Some(v) => Some(v),
            None => first_code_param(params.drop_first()),
        }
    }
}

/// The OAuth code in a redirect URL: the first `code` parameter of the
/// text between the first and second `?`.
pub open spec fn oauth_code(url: Seq<char>) -> Option<Seq<char>> {
    let parts = crate::text::split(url, '?');
    if parts.len() >= 2 {
        first_code_param(crate::text::split(parts[1], '&'))
    } else {
        None
    }
}

/// The value of `kv` when it is a `code=...` parameter.
fn code_value(kv: &[char]) -> (r: Option<Vec<char>>)
    ensures
        r matches Some(v) ==> code_param_value(kv@) == Some(v@),
        r is None ==> code_param_value(kv@) is None,
{
    let n = kv.len();
    match crate::text::chars_find(kv, '=') {
        Some(k) => {
            let key = crate::text::copy_range(kv, 0, k);
            let code = crate::text::to_chars("code");
            if crate::text::chars_equal(key.as_slice(), code.as_slice()) {
                Some(crate::text::copy_range(kv, k + 1, n))
            } else {
                None
            }
        },
        None => None,
    }
}

/// Parse `?code=` from the OAuth redirect URL.
pub fn oauth_code_from_redirect(redirect_url: &str) -> (r: Option<String>)
    ensures
        r matches Some(c) ==> oauth_code(redirect_url@) == Some(c@),
        r is None ==> oauth_code(redirect_url@) is None,
{
    let url = crate::text::to_chars(redirect_url);
    let parts = crate::text::split_chars(url.as_slice(), '?');
    if parts.len() < 2 {
        return None;
    }
    let params = crate::text::split_chars(parts[1].as_slice(), '&');
    let ghost all = crate::text::views(params@);
    assert(crate::text::views(parts@)[1] == parts@[1]@);
    assert(all == crate::text::split(crate::text::split(redirect_url@, '?')[1], '&'));
    assert(oauth_code(redirect_url@) == first_code_param(all));
    assert(all.skip(0) == all);
    let mut i: usize = 0;
    while i < params.len()
        invariant
            i <= params@.len(),
            all == crate::text::views(params@),
            oauth_code(redirect_url@) == first_code_param(all),
            first_code_param(all) == first_code_param(all.skip(i as int)),
        decreases params@.len() - i,
    {
        assert(all.skip(i as int)[0] == params@[i as int]@);
        assert(all.skip(i as int).drop_first() == all.skip(i + 1));
        match code_value(params[i].as_slice()) {
            Some(v) => {
                return Some(crate::text::from_chars(v.as_slice()));
            },
            None => {},
        }
        i = i + 1;
    }
    None
}

/// What GitHub's answer to the token exchange comes to, given its parsed
/// fields: an `error` gives "OAuth error: {error} — {description}" (the
/// description empty when absent); otherwise the access token, or the
/// error "No access_token in response".
pub fn token_from_answer(
    access_token: Option<String>,
    error: Option<String>,
    error_description: Option<String>,
) -> (r: Result<String, String>)
    ensures
        match error {
            Some(e) => r matches Err(m) && m@ == "OAuth error: "@ + e@ + " — "@ + match error_description {
                Some(d) => d@,
                None => Seq::<char>::empty(),
            },
            None => match access_token {
                Some(t) => r == Ok::<String, String>(t),
                None => r matches Err(m) && m@ == "No access_token in response"@,
            },
        },
{
    match error {
        Some(e) => {
            let mut m = message("OAuth error: ", e.as_str());
            crate::text::push_str(&mut m, " — ");
            match error_description {
                Some(d) => crate::text::push_str(&mut m, d.as_str()),
                None => {},
            }
            Err(m)
        },
        None => match access_token {
            Some(t) => Ok(t),
            None => {
                let mut m = String::new();
                crate::text::push_str(&mut m, "No access_token in response");
                Err(m)
            },
        },
    }
}

/// The GitHub authorization page for `client_id`, redirecting to the
/// local listener on `port`.
pub fn authorize_url(client_id: &str, port: u16) -> (url: String)
    ensures
        url@ == "https://github.com/login/oauth/authorize?client_id="@ + client_id@
            + "&scope=repo&redirect_uri=http://127.0.0.1:"@ + crate::text::decimal(port as nat),
{
    let mut url = message("https://github.com/login/oauth/authorize?client_id=", client_id);
    crate::text::push_str(&mut url, "&scope=repo&redirect_uri=http://127.0.0.1:");
    let p = crate::text::u64_to_decimal(port as u64);
    crate::text::push_str(&mut url, p.as_str());
    url
}

} // verus!
