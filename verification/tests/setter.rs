use immediate_earth::setter::{
    choose_setter, file_url, gnome_key, kde_script, mac_script, set_wallpaper_for_monitor,
    SetterError, WallpaperAction, WallpaperSetter,
};

fn run(program: &str, arguments: &[&str]) -> WallpaperAction {
    WallpaperAction::Run {
        program: String::from(program),
        arguments: arguments.iter().map(|argument| String::from(*argument)).collect(),
    }
}

#[test]
fn platform_names_its_setter() {
    assert_eq!(choose_setter("windows", None), Ok(Some(WallpaperSetter::Windows)));
    assert_eq!(choose_setter("macos", None), Ok(Some(WallpaperSetter::MacOs)));
    assert_eq!(choose_setter("windows", Some("GNOME")), Ok(Some(WallpaperSetter::Windows)));
}

#[test]
fn linux_desktop_names_its_setter() {
    assert_eq!(choose_setter("linux", Some("GNOME")), Ok(Some(WallpaperSetter::Gnome)));
    assert_eq!(choose_setter("linux", Some("ubuntu:GNOME")), Ok(Some(WallpaperSetter::Gnome)));
    assert_eq!(choose_setter("linux", Some("KDE")), Ok(Some(WallpaperSetter::Kde)));
    assert_eq!(choose_setter("linux", Some("X-KDE-Plasma")), Ok(Some(WallpaperSetter::Kde)));
    assert_eq!(choose_setter("linux", Some("KDE:GNOME")), Ok(Some(WallpaperSetter::Gnome)));
}

#[test]
fn other_linux_desktops_have_no_setter() {
    assert_eq!(choose_setter("linux", Some("XFCE")), Ok(None));
    assert_eq!(choose_setter("linux", Some("gnome")), Ok(None));
    assert_eq!(choose_setter("linux", Some("")), Ok(None));
    assert_eq!(choose_setter("linux", None), Ok(None));
}

#[test]
fn other_platforms_are_refused() {
    assert_eq!(choose_setter("android", None), Err(SetterError::UnsupportedPlatform));
    assert_eq!(choose_setter("Windows", None), Err(SetterError::UnsupportedPlatform));
    assert_eq!(choose_setter("", Some("GNOME")), Err(SetterError::UnsupportedPlatform));
    assert_eq!(choose_setter("linux ", Some("GNOME")), Err(SetterError::UnsupportedPlatform));
}

#[test]
fn setter_messages_name_what_is_wrong() {
    assert_eq!(SetterError::UnsupportedPlatform.message(), "不支持的平台");
    assert_eq!(
        SetterError::NoSuchDesktop { index: 7 }.message(),
        "Failed to set wallpaper: no desktop for display 7"
    );
}

#[test]
fn windows_takes_the_path_itself() {
    assert_eq!(
        set_wallpaper_for_monitor("C:\\w.png", "windows", 1, None),
        Ok(WallpaperAction::SetDesktopWallpaper { path: String::from("C:\\w.png") })
    );
}

#[test]
fn macos_is_told_by_osascript() {
    assert_eq!(
        set_wallpaper_for_monitor("/tmp/w.png", "macos", 1, None),
        Ok(run(
            "osascript",
            &[
                "-e",
                "tell application \"System Events\" to set picture of desktop 2 to \"/tmp/w.png\""
            ]
        ))
    );
    if usize::MAX as u128 == u64::MAX as u128 {
        assert_eq!(
            set_wallpaper_for_monitor("/tmp/w.png", "macos", usize::MAX, None),
            Err(SetterError::NoSuchDesktop { index: usize::MAX })
        );
    }
}

#[test]
fn gnome_is_told_by_gsettings() {
    assert_eq!(
        set_wallpaper_for_monitor("/tmp/w.png", "linux", 0, Some("ubuntu:GNOME")),
        Ok(run(
            "gsettings",
            &["set", "org.gnome.desktop.background.picture-uri-0", "file:///tmp/w.png"]
        ))
    );
}

#[test]
fn kde_is_told_by_dbus_send() {
    let script = kde_script(3, "/tmp/w.png");
    assert_eq!(
        set_wallpaper_for_monitor("/tmp/w.png", "linux", 3, Some("KDE")),
        Ok(run(
            "dbus-send",
            &[
                "--session",
                "--dest=org.kde.plasmashell",
                "--type=method_call",
                "/PlasmaShell",
                "org.kde.PlasmaShell.evaluateScript",
                &script
            ]
        ))
    );
}

#[test]
fn desktop_without_a_setter_gets_nothing() {
    assert_eq!(
        set_wallpaper_for_monitor("/tmp/w.png", "linux", 0, Some("XFCE")),
        Ok(WallpaperAction::Nothing)
    );
    assert_eq!(set_wallpaper_for_monitor("/tmp/w.png", "linux", 0, None), Ok(WallpaperAction::Nothing));
    assert_eq!(
        set_wallpaper_for_monitor("/tmp/w.png", "beos", 0, None),
        Err(SetterError::UnsupportedPlatform)
    );
}

#[test]
fn file_url_puts_the_scheme_before_the_path() {
    assert_eq!(file_url("/home/me/monitor_0/wallpaper_1920x1080.png"),
        "file:///home/me/monitor_0/wallpaper_1920x1080.png");
    assert_eq!(file_url(""), "file://");
}

#[test]
fn mac_script_counts_desktops_from_one() {
    assert_eq!(
        mac_script(0, "/tmp/w.png"),
        Some(String::from(
            "tell application \"System Events\" to set picture of desktop 1 to \"/tmp/w.png\""
        ))
    );
    assert_eq!(
        mac_script(2, "/tmp/w.png"),
        Some(format!(
            "tell application \"System Events\" to set picture of desktop {} to \"{}\"",
            2 + 1,
            "/tmp/w.png"
        ))
    );
}

#[test]
fn mac_script_has_no_desktop_behind_the_last_number() {
    if usize::MAX as u128 == u64::MAX as u128 {
        assert_eq!(mac_script(usize::MAX, "/tmp/w.png"), None);
    }
    assert!(mac_script(usize::MAX - 1, "/tmp/w.png").is_some());
}

#[test]
fn gnome_key_ends_in_the_index() {
    assert_eq!(gnome_key(0), "org.gnome.desktop.background.picture-uri-0");
    assert_eq!(gnome_key(12), format!("org.gnome.desktop.background.picture-uri-{}", 12));
}

#[test]
fn kde_script_names_the_desktop_and_the_file() {
    let want = format!(
        "string:var allDesktops = desktops(); \\n                        d = allDesktops[{}]; \\n                        d.wallpaperPlugin = \"org.kde.image\"; \\n                        d.currentConfigGroup = Array(\"Wallpaper\", \"org.kde.image\", \"General\"); \\n                        d.writeConfig(\"Image\", \"file://{}\")",
        1, "/tmp/w.png"
    );
    assert_eq!(kde_script(1, "/tmp/w.png"), want);
}
