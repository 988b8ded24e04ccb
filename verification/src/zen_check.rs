//! Whether Zen is running. Must be checked before any push or pull
//! operation — places.sqlite is locked while Zen is open and cannot be
//! safely copied.
use vstd::prelude::*;

use crate::text::{lowercase, starts_with};

verus! {

#[verifier::external_type_specification]
#[verifier::external_body]
pub struct ExSystem(sysinfo::System);

/// `sysinfo::System::new_all`. Claimed: nothing.
#[verifier::external_body]
fn new_system() -> sysinfo::System {
    sysinfo::System::new_all()
}

/// `sysinfo::System::refresh_all`. Claimed: nothing.
#[verifier::external_body]
fn refresh_system(sys: &mut sysinfo::System) {
    sys.refresh_all();
}

/// `sysinfo::System::processes`, each process given by its name.
/// Claimed: nothing; the processes are the machine's.
#[verifier::external_body]
fn process_names(sys: &sysinfo::System) -> Vec<String> {
    sys.processes().values().map(|p| p.name().to_string()).collect()
}

/// Whether a process name is Zen's: lowercased, it is `zen` or starts with
/// `zen-` or `zen ` (zen, zen-bin, zen-browser, but not zendesk).
pub open spec fn is_zen_name(name: Seq<char>) -> bool {
    is_zen_lowercase_name(lowercase(name))
}

/// Whether a lowercased process name is Zen's: `zen`, or it starts with
/// `zen-` or `zen `.
pub open spec fn is_zen_lowercase_name(l: Seq<char>) -> bool {
    l == "zen"@ || starts_with(l, "zen-"@) || starts_with(l, "zen "@)
}

/// Whether `name` is a Zen process name.
pub fn is_zen_process_name(name: &str) -> (b: bool)
    ensures
        b == is_zen_name(name@),
        crate::text::is_ascii_text(name@) ==> b == is_zen_lowercase_name(
            crate::text::ascii_lowercase(name@),
        ),
{
    let lower = crate::text::to_lowercase(name);
    let l = crate::text::to_chars(lower.as_str());
    let zen = crate::text::to_chars("zen");
    let dash = crate::text::to_chars("zen-");
    let space = crate::text::to_chars("zen ");
    crate::text::chars_equal(l.as_slice(), zen.as_slice()) || crate::text::chars_start_with(
        l.as_slice(),
        dash.as_slice(),
    ) || crate::text::chars_start_with(l.as_slice(), space.as_slice())
}

/// Whether any of the process `names` is Zen's.
pub fn any_zen_process(names: &Vec<String>) -> (b: bool)
    ensures
        b == exists|i: int| 0 <= i < names@.len() && is_zen_name(#[trigger] names@[i]@),
{
    let mut i: usize = 0;
    while i < names.len()
        invariant
            i <= names@.len(),
            forall|j: int| 0 <= j < i ==> !is_zen_name(#[trigger] names@[j]@),
        decreases names@.len() - i,
    {
        if is_zen_process_name(names[i].as_str()) {
            return true;
        }
        i = i + 1;
    }
    false
}

/// Returns true if any process with a Zen name is currently running.
pub fn is_zen_running() -> bool {
    let mut sys = new_system();
    refresh_system(&mut sys);
    let names = process_names(&sys);
    any_zen_process(&names)
}

} // verus!
