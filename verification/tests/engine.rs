use kumo::engine::{
    ContextMenu, ContextMenuAction, ContextMenuItem, ContextMenuTargetFlags, EnginePreference,
    EngineType,
};

#[test]
fn cached_preference() {
    let mut engine_preference = EnginePreference::new(None);

    assert_eq!(engine_preference.get("https://example.org"), None);

    engine_preference.set("https://example.org", EngineType::Servo);
    assert_eq!(engine_preference.get("https://example.org"), Some(EngineType::Servo));

    engine_preference.set("https://example.org", EngineType::WebKit);
    assert_eq!(engine_preference.get("https://example.org"), Some(EngineType::WebKit));
}

#[test]
fn loaded_preferences_later_rows_win() {
    let loaded = vec![
        ("example.org".to_string(), EngineType::Servo),
        ("catacombing.org".to_string(), EngineType::WebKit),
        ("example.org".to_string(), EngineType::WebKit),
    ];
    let preference = EnginePreference::new(Some(loaded));
    assert_eq!(preference.get("https://example.org/page"), Some(EngineType::WebKit));
    assert_eq!(preference.get("https://catacombing.org"), Some(EngineType::WebKit));
    assert_eq!(preference.get("https://alacritty.org"), None);
    assert_eq!(preference.get_host("catacombing.org"), Some(EngineType::WebKit));
}

#[test]
fn preference_set_returns_host_and_ignores_hostless_urls() {
    let mut preference = EnginePreference::new(None);
    assert_eq!(preference.set("https://Example.org:8080/a?b", EngineType::Servo), Some("example.org".to_string()));
    assert_eq!(preference.get("http://example.org"), Some(EngineType::Servo));
    assert_eq!(preference.set("not a url", EngineType::WebKit), None);
    assert_eq!(preference.set("data:text/plain,hi", EngineType::WebKit), None);
    assert_eq!(preference.get("not a url"), None);
}

#[test]
fn engine_storage_names() {
    assert_eq!(EngineType::WebKit.storage_name(), "webkit");
    assert_eq!(EngineType::Servo.storage_name(), "servo");
    assert_eq!(EngineType::from_storage_name("webkit"), Some(EngineType::WebKit));
    assert_eq!(EngineType::from_storage_name("servo"), Some(EngineType::Servo));
    assert_eq!(EngineType::from_storage_name("Servo"), None);
    assert_eq!(EngineType::from_storage_name(""), None);
}

#[test]
fn target_flags_operations() {
    let mut flags = ContextMenuTargetFlags::empty();
    assert!(flags.is_empty());
    flags.set(ContextMenuTargetFlags::link(), true);
    assert!(!flags.is_empty());
    assert!(flags.contains(ContextMenuTargetFlags::link()));
    assert!(!flags.contains(ContextMenuTargetFlags::link().union(ContextMenuTargetFlags::media())));
    assert!(flags.intersects(ContextMenuTargetFlags::link().union(ContextMenuTargetFlags::media())));
    assert!(!flags.intersects(ContextMenuTargetFlags::editable()));
    flags.set(ContextMenuTargetFlags::link(), false);
    assert!(flags.is_empty());
}

fn labels(menu: &ContextMenu) -> Vec<String> {
    menu.items().into_iter().map(|item| item.label).collect()
}

#[test]
fn page_menu_on_webkit() {
    let cookies = vec!["example.org".to_string()];
    let menu = ContextMenu::new(
        EngineType::WebKit,
        ContextMenuTargetFlags::empty(),
        &cookies,
        "https://example.org/page",
        None,
    );
    assert_eq!(menu.len(), 4);
    assert_eq!(labels(&menu), vec![
        "Remove Cookie Exception",
        "Search Page",
        "Reload",
        "Reload in Servo"
    ]);
    assert_eq!(menu.item(4), None);
    assert!(matches!(
        menu.activate_item(0),
        Some(ContextMenuAction::RemoveCookieException(host)) if host == "example.org"
    ));
    assert!(matches!(menu.activate_item(1), Some(ContextMenuAction::StartSearch)));
    assert!(matches!(menu.activate_item(2), Some(ContextMenuAction::Reload)));
    assert!(matches!(
        menu.activate_item(3),
        Some(ContextMenuAction::SwitchEngine(EngineType::Servo))
    ));
    assert!(menu.activate_item(4).is_none());
}

#[test]
fn page_menu_on_servo_without_cookie_exception() {
    let cookies = vec!["other.org".to_string()];
    let menu = ContextMenu::new(
        EngineType::Servo,
        ContextMenuTargetFlags::empty(),
        &cookies,
        "https://example.org/page",
        None,
    );
    assert_eq!(menu.len(), 3);
    assert_eq!(labels(&menu), vec!["Add Cookie Exception", "Reload", "Reload in WebKit"]);
    assert!(matches!(
        menu.activate_item(0),
        Some(ContextMenuAction::AddCookieException(host)) if host == "example.org"
    ));
    assert!(matches!(
        menu.activate_item(2),
        Some(ContextMenuAction::SwitchEngine(EngineType::WebKit))
    ));
}

#[test]
fn cookie_item_without_host_does_nothing() {
    let menu = ContextMenu::new(
        EngineType::Servo,
        ContextMenuTargetFlags::empty(),
        &Vec::new(),
        "about:blank",
        None,
    );
    assert_eq!(menu.item(0), Some(ContextMenuItem::AddCookieException));
    assert!(menu.activate_item(0).is_none());
}

#[test]
fn link_and_editable_menu() {
    let flags = ContextMenuTargetFlags::link().union(ContextMenuTargetFlags::editable());
    let menu = ContextMenu::new(
        EngineType::WebKit,
        flags,
        &vec!["example.org".to_string()],
        "https://example.org",
        Some("https://target.org/x".to_string()),
    );
    assert_eq!(menu.len(), 6);
    assert_eq!(labels(&menu), vec![
        "Reload",
        "Reload in Servo",
        "Copy Link",
        "Open in New Window",
        "Open in New Tab",
        "Paste"
    ]);
    assert_eq!(menu.url(), Some("https://target.org/x"));
    assert!(matches!(
        menu.activate_item(2),
        Some(ContextMenuAction::SetClipboard(url)) if url == "https://target.org/x"
    ));
    assert!(matches!(
        menu.activate_item(3),
        Some(ContextMenuAction::OpenInWindow(url)) if url == "https://target.org/x"
    ));
    assert!(matches!(
        menu.activate_item(4),
        Some(ContextMenuAction::OpenInTab(url)) if url == "https://target.org/x"
    ));
    assert!(matches!(menu.activate_item(5), Some(ContextMenuAction::Paste)));
    assert!(menu.activate_item(6).is_none());
}

#[test]
fn media_menu_without_url() {
    let menu = ContextMenu::with_host(
        EngineType::Servo,
        ContextMenuTargetFlags::media(),
        Some("example.org".to_string()),
        &vec!["example.org".to_string()],
        None,
    );
    assert_eq!(menu.len(), 5);
    assert_eq!(menu.item(2), Some(ContextMenuItem::CopyLink));
    assert!(menu.activate_item(2).is_none());
    assert_eq!(menu.url(), None);
}

#[test]
fn dummy_engine_menu_outside_engine_switch() {
    let menu = ContextMenu::new(
        EngineType::Dummy,
        ContextMenuTargetFlags::editable(),
        &Vec::new(),
        "https://example.org",
        None,
    );
    assert_eq!(menu.len(), 3);
    assert_eq!(menu.item(0), Some(ContextMenuItem::Reload));
    assert_eq!(menu.item(2), Some(ContextMenuItem::Paste));
}

use kumo::webkit_menu::{HitTestContext, WebKitContextMenu};

fn context(document: bool, link: bool, image: bool, editable: bool) -> HitTestContext {
    HitTestContext { document, link, image, media: false, editable, scrollbar: false, selection: false }
}

#[test]
fn webkit_document_menu() {
    let menu = WebKitContextMenu::new(
        context(true, false, false, false),
        Some("example.org".to_string()),
        &vec!["other.org".to_string()],
        None,
        None,
        None,
    );
    assert_eq!(menu.n_items(), 3);
    assert_eq!(menu.item(0), Some(ContextMenuItem::AddCookieException));
    assert_eq!(menu.item(1), Some(ContextMenuItem::Search));
    assert_eq!(menu.item(2), Some(ContextMenuItem::Reload));
    assert_eq!(menu.item(3), None);
    assert!(matches!(
        menu.activate_item(0),
        Some(ContextMenuAction::AddCookieException(host)) if host == "example.org"
    ));
    assert!(matches!(menu.activate_item(2), Some(ContextMenuAction::Reload)));
}

#[test]
fn webkit_link_image_menu() {
    let menu = WebKitContextMenu::new(
        context(true, false, true, true),
        Some("example.org".to_string()),
        &vec!["example.org".to_string()],
        Some("https://link.org".to_string()),
        Some("https://image.org/a.png".to_string()),
        None,
    );
    // Not the bare document: no cookie or search items, and no host kept.
    assert_eq!(menu.n_items(), 5);
    assert_eq!(menu.item(0), Some(ContextMenuItem::Reload));
    assert_eq!(menu.item(1), Some(ContextMenuItem::CopyLink));
    assert_eq!(menu.item(4), Some(ContextMenuItem::Paste));
    assert_eq!(menu.uri(), Some("https://image.org/a.png".to_string()));
    assert!(matches!(
        menu.activate_item(3),
        Some(ContextMenuAction::OpenInTab(uri)) if uri == "https://image.org/a.png"
    ));
}

#[test]
fn webkit_link_uri_preferred() {
    let menu = WebKitContextMenu::new(
        context(false, true, true, false),
        None,
        &Vec::new(),
        Some("https://link.org".to_string()),
        Some("https://image.org".to_string()),
        None,
    );
    assert_eq!(menu.n_items(), 3);
    assert_eq!(menu.uri(), Some("https://link.org".to_string()));
    assert!(matches!(
        menu.activate_item(2),
        Some(ContextMenuAction::OpenInTab(uri)) if uri == "https://link.org"
    ));
}

use rusqlite::Connection;

/// Database with the engine preference table.
fn preference_db() -> Connection {
    let connection = Connection::open_in_memory().unwrap();
    connection
        .execute(
            "CREATE TABLE IF NOT EXISTS engine_preference (
                host TEXT NOT NULL,
                engine_type TEXT NOT NULL,
                UNIQUE(host)
            )",
            [],
        )
        .unwrap();
    connection
}

/// Preferences stored in the database.
fn stored_preferences(connection: &Connection) -> Vec<(String, EngineType)> {
    let mut stmt = connection.prepare("SELECT host, engine_type FROM engine_preference").unwrap();
    stmt.query_map([], |row| Ok((row.get::<_, String>(0)?, row.get::<_, String>(1)?)))
        .unwrap()
        .flatten()
        .filter_map(|(host, engine)| EngineType::from_storage_name(&engine).map(|e| (host, e)))
        .collect()
}

#[test]
fn sqlite_preference_load() {
    // Manually insert initial engine preferences.
    let connection = preference_db();
    connection
        .execute(
            "INSERT INTO engine_preference (host, engine_type) VALUES ('example.org', \
             'servo'), ('catacombing.org', 'webkit')",
            [],
        )
        .unwrap();

    // Ensure preferences are loaded correctly.
    let engine_preference = EnginePreference::new(Some(stored_preferences(&connection)));
    assert_eq!(engine_preference.get("https://example.org"), Some(EngineType::Servo));
    assert_eq!(engine_preference.get("https://catacombing.org"), Some(EngineType::WebKit));
    assert_eq!(engine_preference.get("https://alacritty.org"), None);
}

#[test]
fn update_through_cache() {
    // Engine type is initially undefined.
    let connection = preference_db();
    let mut engine_preference = EnginePreference::new(Some(stored_preferences(&connection)));
    assert_eq!(engine_preference.get("https://example.org"), None);

    // Update the cached value, persisting the returned host.
    let host = engine_preference.set("https://example.org", EngineType::Servo).unwrap();
    connection
        .execute(
            "INSERT INTO engine_preference (host, engine_type) VALUES (?1, ?2) ON CONFLICT(host) \
             DO UPDATE SET engine_type = ?2",
            [host.as_str(), EngineType::Servo.storage_name()],
        )
        .unwrap();
    assert_eq!(engine_preference.get("https://example.org"), Some(EngineType::Servo));

    // Data is persisted to the database.
    let engine_type: String = connection
        .query_row(
            "SELECT engine_type FROM engine_preference WHERE host = 'example.org'",
            [],
            |row| row.get(0),
        )
        .unwrap();
    assert_eq!(EngineType::from_storage_name(&engine_type), Some(EngineType::Servo));
}

#[test]
fn webkit_menu_option_items() {
    let menu = WebKitContextMenu::new(
        context(true, false, false, true),
        None,
        &Vec::new(),
        None,
        None,
        None,
    );
    let labels: Vec<String> = menu.items().into_iter().map(|item| item.label).collect();
    assert_eq!(labels, vec!["Reload", "Paste"]);
}

use kumo::engine::unloaded_uri;

#[test]
fn unloaded_engines_drop_blank_pages() {
    assert_eq!(unloaded_uri(""), None);
    assert_eq!(unloaded_uri("about:blank"), None);
    assert_eq!(unloaded_uri("about:blankx"), Some("about:blankx".to_string()));
    assert_eq!(unloaded_uri("https://example.org"), Some("https://example.org".to_string()));
}
