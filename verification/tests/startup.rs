use lanbeam::settings::Settings;
use lanbeam::share::ShareDownloadEvent;
use lanbeam::startup::{
    accept_link, autostart_needs_change, download_notice, instance_file, instance_id, launch_link,
    level_filter, plan_startup, reconcile_autostart, resolve_download_dir, second_launch_links,
    should_hide_on_close, LevelFilter,
};

#[test]
fn close_hides_only_when_enabled_and_not_quitting() {
    assert!(should_hide_on_close(true, false));
    assert!(
        !should_hide_on_close(true, true),
        "quit intent must beat tray_close"
    );
    assert!(!should_hide_on_close(false, false));
    assert!(!should_hide_on_close(false, true));
}

#[test]
fn log_levels() {
    assert_eq!(level_filter("errors"), LevelFilter::Error);
    assert_eq!(level_filter("verbose"), LevelFilter::Trace);
    assert_eq!(level_filter("normal"), LevelFilter::Info);
    assert_eq!(level_filter("?"), LevelFilter::Info);
}

#[test]
fn an_instance_keeps_to_itself() {
    assert_eq!(instance_id(Some(String::new())), None);
    assert_eq!(instance_id(None), None);
    let b = instance_id(Some("b".to_string()));
    assert_eq!(b.as_deref(), Some("b"));
    assert_eq!(instance_file("trusted", &b), "trusted-b.json");
    assert_eq!(instance_file("trusted", &None), "trusted.json");

    let mut s = Settings::defaults("PC".to_string());
    s.hotkey_enabled = true;
    let own = plan_startup(&b, &s, "PC");
    assert!(!own.single_instance && !own.reconcile_autostart && !own.register_scheme);
    assert_eq!(own.device_name.as_deref(), Some("PC (B)"));
    assert_eq!(own.download_folder.as_deref(), Some("instance-b"));
    assert_eq!(own.partials_file, "partials-b.json");
    assert_eq!(own.hotkey, None);

    let primary = plan_startup(&None, &s, "PC");
    assert!(primary.single_instance && primary.reconcile_autostart && primary.register_scheme);
    assert_eq!(primary.device_name, None);
    assert_eq!(primary.download_folder, None);
    assert_eq!(primary.hotkey.as_deref(), Some("Alt+Space"));
    assert_eq!(primary.listen_port, lanbeam::consts::DEFAULT_TCP_PORT);
}

#[test]
fn only_links_of_the_scheme_are_accepted() {
    let link = "lanbeam://pair?a=10.0.0.1";
    assert_eq!(accept_link(link).as_deref(), Some(link));
    assert_eq!(accept_link("https://example.org"), None);
    assert_eq!(
        launch_link(&vec!["http://x".to_string(), link.to_string()]).as_deref(),
        Some(link)
    );
    assert_eq!(launch_link(&vec![]), None);
    assert_eq!(
        second_launch_links(&vec!["lanbeam".to_string(), link.to_string()]),
        vec![link]
    );
}

#[test]
fn the_login_item_follows_the_setting() {
    assert_eq!(reconcile_autostart(Some(true), false), Some(false));
    assert_eq!(reconcile_autostart(Some(false), true), Some(true));
    assert_eq!(reconcile_autostart(Some(true), true), None);
    assert_eq!(reconcile_autostart(None, true), None);
    assert!(autostart_needs_change(None, true));
    assert!(autostart_needs_change(Some(false), true));
    assert!(!autostart_needs_change(Some(true), true));
}

#[test]
fn a_lost_download_folder_falls_back() {
    let chosen = Some("/d".to_string());
    let r = resolve_download_dir(&chosen, Some("/real/d".to_string()), "/home".to_string());
    assert_eq!((r.path.as_str(), r.override_lost), ("/real/d", false));
    let r = resolve_download_dir(&chosen, None, "/home".to_string());
    assert_eq!((r.path.as_str(), r.override_lost), ("/home", true));
    let r = resolve_download_dir(&None, None, "/home".to_string());
    assert_eq!((r.path.as_str(), r.override_lost), ("/home", false));
}

#[test]
fn a_fetched_file_is_announced() {
    let ev = ShareDownloadEvent {
        token: "t".to_string(),
        index: 0,
        name: "a.bin".to_string(),
        size: 1,
        downloads: 1,
        max_downloads: None,
        file_count: 1,
        peer_ip: "10.0.0.9".to_string(),
    };
    let n = download_notice(&ev, true).unwrap();
    assert_eq!((n.title.as_str(), n.body.as_str()), ("a.bin", "↓ 10.0.0.9"));
    assert!(download_notice(&ev, false).is_none());
}
