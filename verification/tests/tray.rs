use zync::tray::{install_label, pending_update, tray_action, tray_menu, update_notice, TrayAction, TrayEntry};

fn entries(m: Vec<TrayEntry>) -> Vec<Option<(String, String)>> {
    m.into_iter()
        .map(|e| match e {
            TrayEntry::Item { id, label } => Some((id, label)),
            TrayEntry::Separator => None,
        })
        .collect()
}

fn item(id: &str, label: &str) -> Option<(String, String)> {
    Some((id.to_string(), label.to_string()))
}

#[test]
fn tray_clicks() {
    assert!(matches!(tray_action("open"), TrayAction::ShowWindow));
    assert!(matches!(tray_action("sync_now"), TrayAction::SyncNow));
    assert!(matches!(tray_action("install_update"), TrayAction::InstallUpdate));
    assert!(matches!(tray_action("quit"), TrayAction::Quit));
    assert!(matches!(tray_action("Quit"), TrayAction::Nothing));
}

#[test]
fn tray_menu_with_and_without_update() {
    let base = vec![item("open", "Open Zync"), item("sync_now", "Sync now"), None, item("quit", "Quit")];
    assert_eq!(entries(tray_menu(None)), base);
    let mut with = vec![item("install_update", "Install update (0.5.0)"), None];
    with.extend(base);
    assert_eq!(entries(tray_menu(Some("0.5.0"))), with);
    assert_eq!(install_label("1.2.3"), "Install update (1.2.3)");
}

#[test]
fn update_texts() {
    assert_eq!(update_notice("0.5.0"), "Zync 0.5.0 is ready — open the tray to install");
    assert_eq!(pending_update(Some(7)), Ok(7));
    assert_eq!(pending_update::<u8>(None), Err("No pending update".to_string()));
}
