# zync

Profile sync for the Zen browser: a machine pushes its encrypted profile
files to a GitHub release when Zen closes, announces the new version on an
ntfy.sh topic, and the other machines of the same GitHub account pull it.

The crate is written in Verus. Its library (`src/`) holds the logic, each
function with a contract that Verus proves:

- `text` — line splitting, trimming, decimal and hex text, the string order;
- `calendar` — Unix seconds to a UTC date and its ISO 8601 text;
- `crypto` — the AES-256-GCM payload format and PBKDF2 key derivation;
- `pairing` — the ntfy topic of an account;
- `github` — `metadata.json`, its ring of ten snapshot slots, the keychain
  items of a connected account, and the OAuth redirect;
- `ntfy` — which messages announce a version, and which version;
- `sync` — the `prefs.js` lines that are machine-local update state, and the
  texts around a bundle;
- `profile` — the synced files and the active profile in `profiles.ini`;
- `daemon` — the decisions of the background watcher and poller;
- `tray` — the tray menu and the update prompt;
- `local_state`, `zen_check` — the persisted state and the Zen process check.

Calls into other crates (aes-gcm, pbkdf2, sha2, rand, base64, keyring,
hostname, sysinfo) go through small trusted functions whose contracts say
what those crates document.

`app/` is the unverified rest: files, SQLite, HTTP, JSON and the loops
that perform what the library decides. `tests/` runs the library.
