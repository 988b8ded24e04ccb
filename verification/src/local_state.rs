//! Sync state that persists across restarts: the last version this machine
//! pushed or pulled, its display name and its chosen profile folder.
use vstd::prelude::*;

verus! {

/// The name of the file in the config directory that holds the state.
pub const STATE_FILE: &'static str = "state.json";

/// Persisted sync state.
#[derive(Clone, Debug, PartialEq)]
pub struct LocalState {
    pub last_known_version: u32,
    pub machine_name: String,
    pub selected_profile_path: Option<String>,
}

/// `hostname::get`, converted to a `String` when it is valid Unicode.
/// Claimed: nothing; the host name is the machine's.
#[verifier::external_body]
fn system_hostname() -> Option<String> {
    match hostname::get() {
        Ok(h) => h.into_string().ok(),
        Err(_) => None,
    }
}

/// The machine name to use when the host name is `hostname`:
/// the host name, or "My Machine" when there is none.
pub fn machine_name_from(hostname: Option<String>) -> (name: String)
    ensures
        hostname matches Some(h) ==> name@ == h@,
        hostname is None ==> name@ == "My Machine"@,
{
    match hostname {
        Some(h) => h,
        None => {
            let mut s = String::new();
            crate::text::push_str(&mut s, "My Machine");
            s
        },
    }
}

/// This machine's default display name: its host name, or "My Machine".
pub fn default_machine_name() -> String {
    machine_name_from(system_hostname())
}

impl Default for LocalState {
    /// Version 0, the default machine name, no selected profile.
    fn default() -> (s: Self)
        ensures
            s.last_known_version == 0,
            s.selected_profile_path is None,
    {
        LocalState {
            last_known_version: 0,
            machine_name: default_machine_name(),
            selected_profile_path: None,
        }
    }
}

} // verus!
