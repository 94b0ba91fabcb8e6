use oadesktopentry::catalog::{catalog_from_records, get_installed_apps, sort_by_name};
use oadesktopentry::command::{
    build_command, find_terminal, strip_field_codes, terminal_candidate, wrap_in_terminal,
    FALLBACK_TERMINAL, TERMINAL_COUNT,
};
use oadesktopentry::descriptor::{catalog_entry, find_app, listed_record, record_from_fields};
use oadesktopentry::icon::{file_extension, icon_or_default, icon_to_base64, mime_for_extension};
use oadesktopentry::launch::{is_flatpak, launch_app, plan_launch};
use oadesktopentry::model::{AppInfo, LaunchAppSettings};

fn app(exec: &str, terminal: bool) -> AppInfo {
    AppInfo {
        path: "/usr/share/applications/test.desktop".to_string(),
        name: "Test".to_string(),
        exec_template: exec.to_string(),
        icon: None,
        terminal,
    }
}

fn named(path: &str, name: &str) -> AppInfo {
    AppInfo {
        path: path.to_string(),
        name: name.to_string(),
        exec_template: "run".to_string(),
        icon: None,
        terminal: false,
    }
}

fn descriptor(lines: &[&str]) -> String {
    let mut text = "[Desktop Entry]\nType=Application\n".to_string();
    for line in lines {
        text.push_str(line);
        text.push('\n');
    }
    text
}

#[test]
fn strip_removes_every_dropped_code() {
    assert_eq!(strip_field_codes("app %u %U %f %F %i %c %k end"), "app        end");
}

#[test]
fn strip_unescapes_double_percent_after_codes() {
    assert_eq!(strip_field_codes("cmd %%f %f"), "cmd %f ");
    assert_eq!(strip_field_codes("100%% %d"), "100% %d");
    assert_eq!(strip_field_codes("trailing %"), "trailing %");
}

#[test]
fn strip_twice_on_stripped_text_is_unchanged() {
    let once = strip_field_codes("open %U --new-window");
    assert_eq!(strip_field_codes(&once), once);
    let plain = strip_field_codes("echo 50%d");
    assert_eq!(strip_field_codes(&plain), plain);
}

#[test]
fn double_percent_yields_one_percent_in_command() {
    let cmd = build_command(&app("cmd %%f %f", false), None, &vec![]);
    assert_eq!(cmd, "cmd %f");
}

#[test]
fn firefox_with_private_argument() {
    let cmd = build_command(&app("firefox %u", false), Some("--private"), &vec![]);
    assert_eq!(cmd, "firefox --private");
}

#[test]
fn htop_in_fallback_terminal() {
    let cmd = build_command(&app("htop", true), None, &vec![false; TERMINAL_COUNT]);
    assert_eq!(cmd, "xterm -e htop");
}

#[test]
fn no_emulator_found_starts_with_fallback() {
    let cmd = build_command(&app("vim %F", true), Some("notes.txt"), &vec![]);
    assert!(cmd.starts_with("xterm -e "));
    assert_eq!(cmd, "xterm -e vim notes.txt");
}

#[test]
fn blank_custom_args_are_ignored() {
    let cmd = build_command(&app("  gedit %U  ", false), Some("   "), &vec![]);
    assert_eq!(cmd, "gedit");
}

#[test]
fn custom_args_kept_verbatim() {
    let cmd = build_command(&app("sh", false), Some(" -c 'echo $HOME' "), &vec![]);
    assert_eq!(cmd, "sh  -c 'echo $HOME' ");
}

#[test]
fn first_available_terminal_wins() {
    assert_eq!(find_terminal(&vec![false, true, true]), 1);
    assert_eq!(find_terminal(&vec![true]), 0);
    assert_eq!(find_terminal(&vec![false; 3]), FALLBACK_TERMINAL);
    let cmd = build_command(&app("top", true), None, &vec![false, true]);
    assert_eq!(cmd, "gnome-terminal -- top");
}

#[test]
fn terminal_without_flag() {
    let mut available = vec![false; TERMINAL_COUNT];
    available[8] = true;
    assert_eq!(terminal_candidate(8), ("foot", ""));
    let cmd = build_command(&app("htop", true), None, &available);
    assert_eq!(cmd, "foot htop");
    assert_eq!(wrap_in_terminal("ls", 2), "konsole -e ls");
}

#[test]
fn record_needs_name_and_command() {
    assert!(record_from_fields("/a.desktop", None, Some("x".to_string()), None, false).is_none());
    assert!(record_from_fields("/a.desktop", Some("A".to_string()), None, None, false).is_none());
    assert!(record_from_fields("/a.desktop", Some(String::new()), Some("x".to_string()), None, false)
        .is_none());
    let r = record_from_fields("/a.desktop", Some("A".to_string()), Some("x".to_string()), None, true)
        .unwrap();
    assert_eq!(r.path, "/a.desktop");
    assert_eq!(r.name, "A");
    assert_eq!(r.exec_template, "x");
    assert!(r.terminal);
}

#[test]
fn parser_rejects_missing_fields() {
    let path = "/usr/share/applications/broken.desktop";
    assert!(find_app(path, &descriptor(&["Exec=broken"])).is_none());
    assert!(find_app(path, &descriptor(&["Name=Broken"])).is_none());
}

#[test]
fn parser_reads_fields() {
    let path = "/usr/share/applications/firefox.desktop";
    let text = descriptor(&["Name=Firefox", "Exec=firefox %u", "Icon=firefox", "Terminal=false"]);
    let app = find_app(path, &text).unwrap();
    assert_eq!(app.path, path);
    assert_eq!(app.name, "Firefox");
    assert_eq!(app.exec_template, "firefox %u");
    assert_eq!(app.icon.as_deref(), Some("firefox"));
    assert!(!app.terminal);
    let cmd = build_command(&app, Some("--private"), &vec![]);
    assert_eq!(cmd, "firefox --private");
}

#[test]
fn hidden_descriptor_found_but_not_listed() {
    let path = "/usr/share/applications/secret.desktop";
    let text = descriptor(&["Name=Secret", "Exec=secret", "NoDisplay=true"]);
    assert!(find_app(path, &text).is_some());
    assert!(catalog_entry(path, &text).is_none());
    let text = descriptor(&["Name=Gone", "Exec=gone", "Hidden=true"]);
    assert!(catalog_entry(path, &text).is_none());
    assert!(listed_record(Some(named("/x", "X")), false, true).is_none());
    assert!(listed_record(Some(named("/x", "X")), false, false).is_some());
}

#[test]
fn catalog_sorted_without_case() {
    let files = vec![
        ("/a/zed.desktop".to_string(), descriptor(&["Name=zed", "Exec=zed"])),
        ("/a/alpha.desktop".to_string(), descriptor(&["Name=Alpha", "Exec=alpha"])),
        ("/a/hidden.desktop".to_string(), descriptor(&["Name=Aaa", "Exec=a", "NoDisplay=true"])),
        ("/a/beta.desktop".to_string(), descriptor(&["Name=beta", "Exec=beta"])),
        ("/a/broken.desktop".to_string(), descriptor(&["Name=Broken"])),
    ];
    let apps = get_installed_apps(&files);
    let names: Vec<&str> = apps.iter().map(|a| a.name.as_str()).collect();
    assert_eq!(names, vec!["Alpha", "beta", "zed"]);
    for pair in apps.windows(2) {
        assert!(pair[0].name.to_lowercase() <= pair[1].name.to_lowercase());
    }
}

#[test]
fn sort_keeps_order_of_equal_names() {
    let apps = vec![named("/1", "Term"), named("/2", "editor"), named("/3", "term"), named("/4", "TERM")];
    let sorted = sort_by_name(apps);
    let paths: Vec<&str> = sorted.iter().map(|a| a.path.as_str()).collect();
    assert_eq!(paths, vec!["/2", "/1", "/3", "/4"]);
}

#[test]
fn empty_catalog() {
    assert!(get_installed_apps(&vec![]).is_empty());
    assert!(sort_by_name(vec![]).is_empty());
}

#[test]
fn png_icon_data_uri() {
    let uri = icon_to_base64("/usr/share/icons/hicolor/256x256/apps/firefox.png", &vec![1, 2, 3]);
    assert_eq!(uri.as_deref(), Some("data:image/png;base64,AQID"));
    let uri = icon_to_base64("/icons/hello.png", &b"hello".to_vec());
    assert_eq!(uri.as_deref(), Some("data:image/png;base64,aGVsbG8="));
}

#[test]
fn mime_subtypes() {
    assert_eq!(mime_for_extension("svg"), "svg+xml");
    assert_eq!(mime_for_extension("png"), "png");
    assert_eq!(mime_for_extension("xpm"), "x-xpixmap");
    assert_eq!(mime_for_extension("ico"), "x-icon");
    assert_eq!(mime_for_extension("jpg"), "jpeg");
    assert_eq!(mime_for_extension("jpeg"), "jpeg");
    assert_eq!(mime_for_extension("webp"), "webp");
    let uri = icon_to_base64("/i/logo.svg", &vec![]).unwrap();
    assert_eq!(uri, "data:image/svg+xml;base64,");
}

#[test]
fn extensions() {
    assert_eq!(file_extension("/a.b/c.tar.gz").as_deref(), Some("gz"));
    assert_eq!(file_extension("/a.b/noext"), None);
    assert_eq!(file_extension("/home/.hidden"), None);
    assert_eq!(file_extension("icon."), Some(String::new()));
    assert_eq!(icon_to_base64("/icons/plain", &vec![1]), None);
}

#[test]
fn default_icon_when_unresolved() {
    assert_eq!(icon_or_default(None), "icon");
    assert_eq!(icon_or_default(Some("data:x".to_string())), "data:x");
}

#[test]
fn sandbox_uses_host_escape() {
    let plan = plan_launch("htop", true, Some("/home/u".to_string())).unwrap();
    assert_eq!(plan.program, "flatpak-spawn");
    assert_eq!(plan.args, vec!["--host", "sh", "-c", "htop"]);
    assert_eq!(plan.working_dir, "/home/u");
    let plan = plan_launch("htop", false, None).unwrap();
    assert_eq!(plan.program, "sh");
    assert_eq!(plan.args, vec!["-c", "htop"]);
    assert_eq!(plan.working_dir, "/tmp");
}

#[test]
fn empty_command_not_launched() {
    assert!(plan_launch("", false, None).is_none());
    assert!(launch_app(Some(app("%u", false)), None, &vec![], false, None).is_none());
    assert!(launch_app(None, Some("x"), &vec![], false, None).is_none());
    let plan = launch_app(Some(app("firefox %u", false)), Some("--private"), &vec![], true, None).unwrap();
    assert_eq!(plan.args, vec!["--host", "sh", "-c", "firefox --private"]);
}

#[test]
fn flatpak_detection() {
    assert!(is_flatpak(true, None));
    assert!(is_flatpak(false, Some(" FlatPak\n")));
    assert!(!is_flatpak(false, Some("docker")));
    assert!(!is_flatpak(false, None));
}

#[test]
fn selection_ignores_empty_path() {
    let settings = LaunchAppSettings { app: Some(String::new()), args: None };
    assert_eq!(settings.selected_app(), None);
    let settings = LaunchAppSettings { app: Some("/a.desktop".to_string()), args: None };
    assert_eq!(settings.selected_app().as_deref(), Some("/a.desktop"));
    let settings = LaunchAppSettings::default();
    assert!(settings.app.is_none() && settings.args.is_none());
}

#[test]
fn catalog_from_present_records_in_discovery_order() {
    let records = vec![
        Some(named("/1", "Files")),
        None,
        Some(named("/2", "archive")),
        Some(named("/3", "files")),
        None,
    ];
    let catalog = catalog_from_records(records);
    let paths: Vec<&str> = catalog.iter().map(|a| a.path.as_str()).collect();
    assert_eq!(paths, vec!["/2", "/1", "/3"]);
    assert!(catalog_from_records(vec![None, None]).is_empty());
}

#[test]
fn catalog_equal_names_keep_file_order() {
    let files = vec![
        ("/b/term.desktop".to_string(), descriptor(&["Name=Terminal", "Exec=t2"])),
        ("/a/term.desktop".to_string(), descriptor(&["Name=terminal", "Exec=t1"])),
    ];
    let apps = get_installed_apps(&files);
    let paths: Vec<&str> = apps.iter().map(|a| a.path.as_str()).collect();
    assert_eq!(paths, vec!["/b/term.desktop", "/a/term.desktop"]);
}

#[test]
fn undecodable_descriptor_gives_nothing() {
    let text = descriptor(&["Name=Notes", "Exec=notes"]);
    assert!(find_app("/usr/share/applications/notes.txt", &text).is_none());
    assert!(catalog_entry("/usr/share/applications/notes.txt", &text).is_none());
    let good = vec![("/a/notes.desktop".to_string(), text.clone())];
    let mut with_bad = good.clone();
    with_bad.push(("/a/notes.txt".to_string(), text));
    let before: Vec<String> = get_installed_apps(&good).into_iter().map(|a| a.path).collect();
    let after: Vec<String> = get_installed_apps(&with_bad).into_iter().map(|a| a.path).collect();
    assert_eq!(before, after);
}

#[test]
fn gettext_domain_does_not_localize() {
    let path = "/usr/share/applications/calc.desktop";
    let text = descriptor(&["Name=Calculator", "Exec=calc", "X-Ubuntu-Gettext-Domain=calc\u{0}x"]);
    let app = find_app(path, &text).unwrap();
    assert_eq!(app.name, "Calculator");
}

#[test]
fn catalog_record_matches_direct_lookup() {
    let path = "/usr/share/applications/editor.desktop";
    let text = descriptor(&["Name=Editor", "Exec=edit %F", "Icon=editor", "Terminal=true"]);
    let listed = get_installed_apps(&vec![(path.to_string(), text.clone())]);
    let direct = find_app(path, &text).unwrap();
    assert_eq!(listed.len(), 1);
    assert_eq!(listed[0].path, direct.path);
    assert_eq!(listed[0].name, direct.name);
    assert_eq!(listed[0].exec_template, direct.exec_template);
    assert_eq!(listed[0].icon, direct.icon);
    assert_eq!(listed[0].terminal, direct.terminal);
}

#[test]
fn extension_of_last_non_empty_component() {
    assert_eq!(file_extension("/a/b.png/").as_deref(), Some("png"));
    assert_eq!(file_extension("/a/b.png//").as_deref(), Some("png"));
    assert_eq!(file_extension("/a/.."), None);
    assert_eq!(file_extension("/"), None);
}
