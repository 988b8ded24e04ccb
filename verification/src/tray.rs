//! The tray menu and the update prompt: which entries the tray menu shows,
//! what a click on each one asks for, and the texts that announce an
//! available update of Zync.
use vstd::prelude::*;

verus! {

/// The id of the tray icon.
pub const TRAY_ID: &'static str = "zync-tray";

/// Seconds after launch before the first update check.
pub const FIRST_UPDATE_CHECK_SECS: u64 = 5;

/// Seconds between two update checks: a day.
pub const UPDATE_CHECK_INTERVAL_SECS: u64 = 86400;

/// What a click on a tray menu entry asks for.
pub enum TrayAction {
    /// "open": show and focus the main window.
    ShowWindow,
    /// "sync_now": run a manual sync.
    SyncNow,
    /// "install_update": show the window and announce the pending update.
    InstallUpdate,
    /// "quit": exit the app.
    Quit,
    /// Any other id.
    Nothing,
}

/// The action of the menu entry with id `id`.
pub open spec fn tray_action_of(id: Seq<char>) -> TrayAction {
    if id == "open"@ {
        TrayAction::ShowWindow
    } else if id == "sync_now"@ {
        TrayAction::SyncNow
    } else if id == "install_update"@ {
        TrayAction::InstallUpdate
    } else if id == "quit"@ {
        TrayAction::Quit
    } else {
        TrayAction::Nothing
    }
}

/// What a click on the menu entry `id` asks for.
pub fn tray_action(id: &str) -> (a: TrayAction)
    ensures
        a == tray_action_of(id@),
{
    if crate::text::str_equal(id, "open") {
        TrayAction::ShowWindow
    } else if crate::text::str_equal(id, "sync_now") {
        TrayAction::SyncNow
    } else if crate::text::str_equal(id, "install_update") {
        TrayAction::InstallUpdate
    } else if crate::text::str_equal(id, "quit") {
        TrayAction::Quit
    } else {
        TrayAction::Nothing
    }
}

/// One entry of the tray menu.
pub enum TrayEntry {
    /// A clickable item with its id and label.
    Item { id: String, label: String },
    /// A separator line.
    Separator,
}

/// An entry as its id and label; `None` for a separator.
pub open spec fn entry_view(e: TrayEntry) -> Option<(Seq<char>, Seq<char>)> {
    match e {
        TrayEntry::Item { id, label } => Some((id@, label@)),
        TrayEntry::Separator => None,
    }
}

/// The label of the item that installs version `version`.
pub open spec fn install_label_of(version: Seq<char>) -> Seq<char> {
    "Install update ("@ + version + ")"@
}

/// The tray menu: "Open Zync", "Sync now", a separator and "Quit"; with an
/// update pending, first an item that installs it and a separator.
pub open spec fn tray_menu_of(update_version: Option<Seq<char>>) -> Seq<
    Option<(Seq<char>, Seq<char>)>,
> {
    let base = seq![
        Some(("open"@, "Open Zync"@)),
        Some(("sync_now"@, "Sync now"@)),
        None,
        Some(("quit"@, "Quit"@)),
    ];
    match update_version {
        Some(v) => seq![Some(("install_update"@, install_label_of(v))), None] + base,
        None => base,
    }
}

/// A menu item.
fn item(id: &str, label: &str) -> (e: TrayEntry)
    ensures
        entry_view(e) == Some((id@, label@)),
{
    let mut i = String::new();
    crate::text::push_str(&mut i, id);
    let mut l = String::new();
    crate::text::push_str(&mut l, label);
    TrayEntry::Item { id: i, label: l }
}

/// The label of the item that installs `version`: "Install update ({version})".
pub fn install_label(version: &str) -> (l: String)
    ensures
        l@ == install_label_of(version@),
{
    let mut l = crate::github::message("Install update (", version);
    crate::text::push_str(&mut l, ")");
    l
}

/// The entries of the tray menu, given the version of a pending update.
pub fn tray_menu(update_version: Option<&str>) -> (m: Vec<TrayEntry>)
    ensures
        m@.map_values(|e: TrayEntry| entry_view(e)) == tray_menu_of(
            match update_version {
                Some(v) => Some(v@),
                None => None,
            },
        ),
{
    let mut m: Vec<TrayEntry> = Vec::new();
    match update_version {
        Some(v) => {
            let label = install_label(v);
            m.push(item("install_update", label.as_str()));
            m.push(TrayEntry::Separator);
        },
        None => {},
    }
    m.push(item("open", "Open Zync"));
    m.push(item("sync_now", "Sync now"));
    m.push(TrayEntry::Separator);
    m.push(item("quit", "Quit"));
    assert(m@.map_values(|e: TrayEntry| entry_view(e)) =~= tray_menu_of(
        match update_version {
            Some(v) => Some(v@),
            None => None,
        },
    ));
    m
}

/// The title of the notification of an available update.
pub const UPDATE_NOTICE_TITLE: &'static str = "Zync update available";

/// The text of the notification of an available update:
/// "Zync {version} is ready — open the tray to install".
pub fn update_notice(version: &str) -> (b: String)
    ensures
        b@ == "Zync "@ + version@ + " is ready — open the tray to install"@,
{
    let mut b = crate::github::message("Zync ", version);
    crate::text::push_str(&mut b, " is ready — open the tray to install");
    b
}

/// The update to install: the pending one, or the error "No pending update".
pub fn pending_update<T>(update: Option<T>) -> (r: Result<T, String>)
    ensures
        match update {
            Some(u) => r == Ok::<T, String>(u),
            None => r matches Err(m) && m@ == "No pending update"@,
        },
{
    match update {
        Some(u) => Ok(u),
        None => {
            let mut m = String::new();
            crate::text::push_str(&mut m, "No pending update");
            Err(m)
        },
    }
}

} // verus!
