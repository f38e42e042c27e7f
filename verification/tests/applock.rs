use quilum::applock::app_info::{AppInfo, AppInfoRaw, BlockedApp};
use quilum::records::RecordId;
use quilum::applock::focus::{blocked_apps_to_info, blocked_apps_update, delay_until, focus_end_time, plan_restore, RestoreAction};
use quilum::applock::identifier::AppIdentifier;
use quilum::applock::linux::{
    collapse_percent_pairs, extract_binary_from_exec, flatpak_binary_path, flatpak_command,
    flatpak_metadata_path, parse_desktop_file, tokenize_exec, ExecTarget,
};
use quilum::applock::macos::{parse_app_bundle, parse_info_plist, BundleDir};
use quilum::applock::polling::{process_path, processes_to_kill, should_kill};
use quilum::applock::session::BlockingSession;
use quilum::applock::windows::{parse_lnk_shortcut, Shortcut};
use quilum::applock::{linux, macos, windows};
use quilum::model::time::{MAX_TIMESTAMP, MIN_TIMESTAMP};

fn strings(words: &[&str]) -> Vec<String> {
    words.iter().map(|w| w.to_string()).collect()
}

fn path(p: &str) -> AppIdentifier {
    AppIdentifier::Path(p.to_string())
}

fn bundle(b: &str) -> AppIdentifier {
    AppIdentifier::BundleId(b.to_string())
}

fn app(id: AppIdentifier, name: &str) -> AppInfo {
    AppInfo::new(id, name.to_string())
}

// ---- tokenize_exec ----

#[test]
fn tokenize_removes_field_codes() {
    assert_eq!(tokenize_exec("firefox %u"), Some(strings(&["firefox"])));
    assert_eq!(tokenize_exec("app %F --x %k%c"), Some(strings(&["app", "--x"])));
}

#[test]
fn tokenize_reads_percent_pairs() {
    assert_eq!(tokenize_exec("echo 100%%"), Some(strings(&["echo", "100%"])));
    assert_eq!(tokenize_exec("a %%f"), Some(strings(&["a", "%"])));
    assert_eq!(collapse_percent_pairs("%%%"), "%%");
}

#[test]
fn tokenize_handles_quotes() {
    assert_eq!(
        tokenize_exec("\"/opt/My App/run\" --name 'two words'"),
        Some(strings(&["/opt/My App/run", "--name", "two words"]))
    );
    assert_eq!(tokenize_exec("\"a\\\"b\\\\c\\$d\\x\""), Some(strings(&["a\"b\\c$d\\x"])));
    assert_eq!(tokenize_exec("a\tb  c"), Some(strings(&["a", "b", "c"])));
}

#[test]
fn tokenize_empty_lines() {
    assert_eq!(tokenize_exec(""), None);
    assert_eq!(tokenize_exec("   "), None);
    assert_eq!(tokenize_exec("%f %U"), None);
    assert_eq!(tokenize_exec("\"\""), None);
}

// ---- extract_binary_from_exec ----

#[test]
fn exec_plain_program() {
    assert!(matches!(extract_binary_from_exec("firefox %u"), Some(ExecTarget::Resolve(p)) if p == "firefox"));
    assert!(matches!(extract_binary_from_exec("/usr/bin/gedit %U"), Some(ExecTarget::Direct(p)) if p == "/usr/bin/gedit"));
    assert!(matches!(extract_binary_from_exec("bin/tool"), Some(ExecTarget::Direct(p)) if p == "bin/tool"));
    assert!(extract_binary_from_exec("%f").is_none());
}

#[test]
fn exec_env_assignment() {
    assert!(matches!(extract_binary_from_exec("env FOO=bar baz"), Some(ExecTarget::Resolve(p)) if p == "bar"));
    assert!(matches!(extract_binary_from_exec("/usr/bin/env A=b=c x"), Some(ExecTarget::Resolve(p)) if p == "b"));
    assert!(extract_binary_from_exec("env A= x").is_none());
    assert!(extract_binary_from_exec("env prog").is_none());
    assert!(extract_binary_from_exec("env").is_none());
}

#[test]
fn exec_flatpak() {
    match extract_binary_from_exec("flatpak run --branch=stable --command=gimp-2.10 org.gimp.GIMP %U") {
        Some(ExecTarget::Flatpak { app_id, command }) => {
            assert_eq!(app_id, "org.gimp.GIMP");
            assert_eq!(command, Some("gimp-2.10".to_string()));
        }
        other => panic!("unexpected {:?}", other),
    }
    match extract_binary_from_exec("/usr/bin/flatpak run --command tool org.x.App") {
        Some(ExecTarget::Flatpak { app_id, command }) => {
            assert_eq!(app_id, "org.x.App");
            assert_eq!(command, Some("tool".to_string()));
        }
        other => panic!("unexpected {:?}", other),
    }
    match extract_binary_from_exec("flatpak run org.x.App") {
        Some(ExecTarget::Flatpak { app_id, command }) => {
            assert_eq!(app_id, "org.x.App");
            assert_eq!(command, None);
        }
        other => panic!("unexpected {:?}", other),
    }
    assert!(extract_binary_from_exec("flatpak install org.x.App").is_none());
    assert!(extract_binary_from_exec("flatpak run --verbose").is_none());
}

#[test]
fn exec_java() {
    assert!(matches!(extract_binary_from_exec("java -Xmx1g -jar /opt/app.jar"), Some(ExecTarget::Direct(p)) if p == "/opt/app.jar"));
    assert!(matches!(extract_binary_from_exec("javaw -jar app.jar"), Some(ExecTarget::Resolve(p)) if p == "app.jar"));
    assert!(extract_binary_from_exec("java -jar").is_none());
    assert!(extract_binary_from_exec("java Main").is_none());
}

#[test]
fn exec_python() {
    assert!(matches!(extract_binary_from_exec("python3 -u /opt/tool.py"), Some(ExecTarget::Direct(p)) if p == "/opt/tool.py"));
    assert!(matches!(extract_binary_from_exec("python tool.py"), Some(ExecTarget::Resolve(p)) if p == "tool.py"));
    assert!(extract_binary_from_exec("python3 -m http.server").is_none());
    assert!(extract_binary_from_exec("python2 -c 'print(1)'").is_none());
    assert!(extract_binary_from_exec("python3").is_none());
}

#[test]
fn exec_scripts_and_shells() {
    assert!(matches!(extract_binary_from_exec("node app.js"), Some(ExecTarget::Resolve(p)) if p == "app.js"));
    assert!(matches!(extract_binary_from_exec("perl /x.pl"), Some(ExecTarget::Resolve(p)) if p == "/x.pl"));
    assert!(extract_binary_from_exec("ruby").is_none());
    assert!(matches!(extract_binary_from_exec("bash /opt/start.sh"), Some(ExecTarget::Direct(p)) if p == "/opt/start.sh"));
    assert!(matches!(extract_binary_from_exec("sh start.sh"), Some(ExecTarget::Resolve(p)) if p == "start.sh"));
    assert!(extract_binary_from_exec("zsh -c 'exec foo'").is_none());
    assert!(extract_binary_from_exec("sh").is_none());
}

// ---- desktop files ----

#[test]
fn desktop_application_entry() {
    let content = "[Desktop Entry]\nType=Application\nName=Firefox\nName[de]=Feuerfuchs\nExec=firefox %u\n";
    let app = parse_desktop_file(content).expect("an application");
    assert_eq!(app.name, "Firefox");
    assert!(matches!(app.target, ExecTarget::Resolve(ref p) if p == "firefox"));
}

#[test]
fn desktop_skipped_entries() {
    assert!(parse_desktop_file("[Desktop Entry]\nType=Link\nName=X\nExec=x\n").is_none());
    assert!(parse_desktop_file("[Desktop Entry]\nName=X\nExec=x\n").is_none());
    assert!(parse_desktop_file("[Desktop Entry]\nType=Application\nNoDisplay=true\nName=X\nExec=x\n").is_none());
    assert!(parse_desktop_file("[Desktop Entry]\nType=Application\nHidden=true\nName=X\nExec=x\n").is_none());
    assert!(parse_desktop_file("[Desktop Entry]\nType=Application\nExec=x\n").is_none());
    assert!(parse_desktop_file("[Desktop Entry]\nType=Application\nName=X\n").is_none());
    assert!(parse_desktop_file("[Other]\nType=Application\nName=X\nExec=x\n").is_none());
    let shown = parse_desktop_file("[Desktop Entry]\nType=Application\nNoDisplay=false\nName=X\nExec=/bin/x\n");
    assert!(matches!(shown, Some(ref a) if a.name == "X"));
}

#[test]
fn flatpak_metadata() {
    let metadata = "[Application]\nname=org.gimp.GIMP\nruntime=org.gnome.Platform\ncommand=gimp-2.10\n\n[Context]\n";
    assert_eq!(flatpak_command(metadata), Some("gimp-2.10".to_string()));
    assert_eq!(flatpak_command("[Application]\nsubcommand=x\n"), None);
    assert_eq!(flatpak_command("command=last"), Some("last".to_string()));
    assert_eq!(
        flatpak_metadata_path("org.x.App"),
        "/var/lib/flatpak/app/org.x.App/current/active/metadata"
    );
    assert_eq!(
        flatpak_binary_path("org.x.App", "tool"),
        "/var/lib/flatpak/app/org.x.App/current/active/files/bin/tool"
    );
}

#[test]
fn linux_installed_apps_keep_first() {
    let found = vec![
        app(path("/usr/bin/firefox"), "Firefox"),
        app(path("/usr/bin/gedit"), "Text Editor"),
        app(path("/usr/bin/firefox"), "Firefox (second)"),
        app(path("/usr//bin/gedit"), "Editor again"),
        app(bundle("org.x"), "X"),
    ];
    let apps = linux::get_installed_apps(found);
    let names: Vec<&str> = apps.iter().map(|a| a.display_name.as_str()).collect();
    assert_eq!(names, vec!["Firefox", "Text Editor", "X"]);
    assert!(linux::get_installed_apps(vec![]).is_empty());
}

// ---- macOS bundles ----

fn plist(body: &str) -> Vec<u8> {
    format!(
        "<?xml version=\"1.0\" encoding=\"UTF-8\"?>\n<!DOCTYPE plist PUBLIC \"-//Apple//DTD PLIST 1.0//EN\" \"http://www.apple.com/DTDs/PropertyList-1.0.dtd\">\n<plist version=\"1.0\"><dict>{}</dict></plist>\n",
        body
    )
    .into_bytes()
}

#[test]
fn info_plist_names() {
    let full = plist("<key>CFBundleIdentifier</key><string>com.apple.Safari</string><key>CFBundleDisplayName</key><string>Safari</string><key>CFBundleName</key><string>SafariName</string>");
    let a = parse_info_plist(&full, "Safari.app").unwrap();
    assert!(matches!(a.identifier, AppIdentifier::BundleId(ref b) if b == "com.apple.Safari"));
    assert_eq!(a.display_name, "Safari");

    let by_name = plist("<key>CFBundleIdentifier</key><string>com.x</string><key>CFBundleName</key><string>XName</string>");
    assert_eq!(parse_info_plist(&by_name, "X.app").unwrap().display_name, "XName");

    let by_dir = plist("<key>CFBundleIdentifier</key><string>com.x</string>");
    assert_eq!(parse_info_plist(&by_dir, "Dir Name.app").unwrap().display_name, "Dir Name");

    let odd = plist("<key>CFBundleIdentifier</key><string>com.x</string><key>CFBundleDisplayName</key><integer>3</integer><key>CFBundleName</key><string>N</string>");
    assert_eq!(parse_info_plist(&odd, "Odd.app").unwrap().display_name, "Odd");

    let no_id = plist("<key>CFBundleName</key><string>N</string>");
    assert!(parse_info_plist(&no_id, "N.app").is_none());
    assert!(parse_info_plist(b"not a plist", "N.app").is_none());
}

#[test]
fn app_bundle_fallback() {
    let a = parse_app_bundle(None, "Notes.app").unwrap();
    assert!(matches!(a.identifier, AppIdentifier::BundleId(ref b) if b == "Notes"));
    assert_eq!(a.display_name, "Notes");
    let b = parse_app_bundle(Some(&b"garbage"[..]), "Tool").unwrap();
    assert_eq!(b.display_name, "Tool");
}

#[test]
fn macos_installed_apps() {
    let dirs = vec![
        BundleDir { name: "Safari.app".to_string(), info_plist: Some(plist("<key>CFBundleIdentifier</key><string>com.apple.Safari</string>")) },
        BundleDir { name: "Utilities".to_string(), info_plist: None },
        BundleDir { name: "Notes.app".to_string(), info_plist: None },
    ];
    let apps = macos::get_installed_apps(dirs);
    assert_eq!(apps.len(), 2);
    assert!(matches!(apps[0].identifier, AppIdentifier::BundleId(ref b) if b == "com.apple.Safari"));
    assert_eq!(apps[0].display_name, "Safari");
    assert_eq!(apps[1].display_name, "Notes");
}

// ---- Windows shortcuts ----

#[test]
fn lnk_shortcuts() {
    let a = parse_lnk_shortcut("/menu/Programs/Firefox.lnk", Some("C:/Program Files/Mozilla/firefox.exe".to_string())).unwrap();
    assert!(matches!(a.identifier, AppIdentifier::Path(ref p) if p == "C:/Program Files/Mozilla/firefox.exe"));
    assert_eq!(a.display_name, "Firefox");
    assert!(parse_lnk_shortcut("/menu/Readme.lnk", Some("C:/docs/readme.txt".to_string())).is_none());
    assert!(parse_lnk_shortcut("/menu/Broken.lnk", None).is_none());
    assert!(parse_lnk_shortcut("/menu/NoExt.lnk", Some("C:/bin/tool".to_string())).is_none());
    let unnamed = parse_lnk_shortcut("/", Some("/x/app.exe".to_string())).unwrap();
    assert_eq!(unnamed.display_name, "Unknown");
}

#[test]
fn windows_installed_apps() {
    let links = vec![
        Shortcut { path: "/menu/A.lnk".to_string(), target: Some("/x/a.exe".to_string()) },
        Shortcut { path: "/menu/B.lnk".to_string(), target: Some("/x/b.msc".to_string()) },
        Shortcut { path: "/menu/C.lnk".to_string(), target: Some("/x/c.exe".to_string()) },
    ];
    let apps = windows::get_installed_apps(links);
    let names: Vec<&str> = apps.iter().map(|a| a.display_name.as_str()).collect();
    assert_eq!(names, vec!["A", "C"]);
}

// ---- identifiers ----

#[test]
fn identifiers_from_text() {
    assert!(matches!(AppIdentifier::from_entered("/usr/bin/x"), AppIdentifier::Path(_)));
    assert!(matches!(AppIdentifier::from_entered("C:\\x.exe"), AppIdentifier::Path(_)));
    assert!(matches!(AppIdentifier::from_entered("com.apple.Safari"), AppIdentifier::BundleId(_)));
    assert!(matches!(AppIdentifier::from_stored("/usr/bin/x"), AppIdentifier::Path(ref p) if p == "/usr/bin/x"));
    assert!(matches!(AppIdentifier::from_stored("com.x"), AppIdentifier::BundleId(ref b) if b == "com.x"));
    assert!(matches!(AppIdentifier::read_stored("C:\\x.exe", '\\'), AppIdentifier::Path(_)));
    assert!(matches!(AppIdentifier::read_stored("C:\\x.exe", '/'), AppIdentifier::BundleId(_)));
    assert_eq!(path("/a/b").text(), "/a/b");
    assert_eq!(bundle("com.x").text(), "com.x");
}

#[test]
fn identifiers_compare() {
    assert!(path("/usr/bin/x").same_as(&path("/usr/bin/x")));
    assert!(path("/usr/bin/x").same_as(&path("/usr//bin/x/")));
    assert!(!path("/usr/bin/x").same_as(&path("/usr/bin/y")));
    assert!(!path("com.x").same_as(&bundle("com.x")));
    assert!(bundle("com.x").same_as(&bundle("com.x")));
}

#[test]
fn raw_app_info() {
    let raw = AppInfoRaw { identifier: "/usr/bin/x".to_string(), display_name: "X".to_string() };
    let a = raw.to_app_info();
    assert!(matches!(a.identifier, AppIdentifier::Path(ref p) if p == "/usr/bin/x"));
    assert_eq!(a.display_name, "X");
    let b = AppInfoRaw { identifier: "com.x".to_string(), display_name: "Y".to_string() }.to_app_info();
    assert!(matches!(b.identifier, AppIdentifier::BundleId(_)));
}

#[test]
fn record_text_and_blocked_apps() {
    let id = RecordId { table: "blocked_app".to_string(), key: "abc".to_string() };
    assert_eq!(id.text(), "blocked_app:abc");
    let stored = vec![
        BlockedApp { id: id.clone(), identifier: "/usr/bin/x".to_string(), display_name: "X".to_string() },
        BlockedApp { id, identifier: "com.y".to_string(), display_name: "Y".to_string() },
    ];
    let apps = blocked_apps_to_info(stored);
    assert_eq!(apps.len(), 2);
    assert!(matches!(apps[0].identifier, AppIdentifier::Path(ref p) if p == "/usr/bin/x"));
    assert_eq!(apps[0].display_name, "X");
    assert!(matches!(apps[1].identifier, AppIdentifier::BundleId(ref b) if b == "com.y"));
}

// ---- session ----

#[test]
fn session_lifecycle() {
    let mut s = BlockingSession::new();
    assert!(!s.is_active());
    assert!(s.blocked_apps().is_empty());
    assert_eq!(s.end_time(), None);

    s.update_apps(vec![app(path("/a"), "A")]);
    assert!(s.blocked_apps().is_empty());

    s.start(vec![app(path("/a"), "A"), app(bundle("b"), "B"), app(path("/a"), "A again")], 1_000);
    assert!(s.is_active());
    assert_eq!(s.end_time(), Some(1_000));
    assert_eq!(s.blocked_apps(), vec![path("/a"), bundle("b")]);

    s.update_apps(vec![app(bundle("c"), "C")]);
    assert_eq!(s.blocked_apps(), vec![bundle("c")]);
    assert_eq!(s.end_time(), Some(1_000));

    s.stop();
    assert!(!s.is_active());
    assert!(s.blocked_apps().is_empty());
    assert_eq!(s.end_time(), None);
    let d = BlockingSession::default();
    assert!(!d.is_active());
}

// ---- polling ----

// The two tests below check which running processes the poller chooses to stop; the
// stopping itself, and the spawning of a dummy process to stop, belong to the
// operating-system side of the crate.
#[test]
fn test_dummy_gets_killed_by_path() {
    let exe_path = "/home/user/quilum/target/debug/applock-test-dummy".to_string();
    let blocked = vec![AppIdentifier::Path(exe_path.clone())];
    let running = vec!["/usr/bin/bash".to_string(), exe_path];
    let killed = processes_to_kill(&running, &blocked);
    assert!(!killed.is_empty(), "scan_and_kill should call kill() on matched processes");
    assert_eq!(killed, vec![1]);
}

#[test]
fn test_dummy_gets_killed_by_name() {
    let blocked = vec![AppIdentifier::Path("applock-test-dummy".to_string())];
    let running = vec![
        "/home/user/quilum/target/debug/applock-test-dummy".to_string(),
        "/usr/bin/applock-test-dummy-other".to_string(),
    ];
    let killed = processes_to_kill(&running, &blocked);
    assert!(killed.len() > 0, "scan_and_kill should call kill() on matched processes (got {})", killed.len());
    assert_eq!(killed, vec![0]);
}

#[test]
fn bundle_ids_kill_nothing() {
    let blocked = vec![bundle("applock-test-dummy"), path("/")];
    assert!(!should_kill("/x/applock-test-dummy", &blocked));
    assert!(should_kill("/x/applock-test-dummy", &vec![path("/y/applock-test-dummy")]));
    assert_eq!(process_path(None, "name".to_string()), "name");
    assert_eq!(process_path(Some("/p".to_string()), "name".to_string()), "/p");
}

// ---- focus sessions ----

#[test]
fn waits_and_end_times() {
    assert_eq!(delay_until(100, 40), 60);
    assert_eq!(delay_until(40, 100), 0);
    assert_eq!(delay_until(i64::MAX, i64::MIN), u64::MAX);
    assert_eq!(focus_end_time(1_700_000_000), Ok(1_700_000_000));
    assert_eq!(focus_end_time(MAX_TIMESTAMP), Ok(MAX_TIMESTAMP));
    assert_eq!(focus_end_time(MAX_TIMESTAMP + 1), Err("Invalid end time".to_string()));
    assert_eq!(focus_end_time(MIN_TIMESTAMP - 1), Err("Invalid end time".to_string()));
}

#[test]
fn calendar_range_matches_chrono() {
    assert!(chrono::DateTime::from_timestamp(MAX_TIMESTAMP, 0).is_some());
    assert!(chrono::DateTime::from_timestamp(MAX_TIMESTAMP + 1, 0).is_none());
    assert!(chrono::DateTime::from_timestamp(MIN_TIMESTAMP, 0).is_some());
    assert!(chrono::DateTime::from_timestamp(MIN_TIMESTAMP - 1, 0).is_none());
}

#[test]
fn restore_actions() {
    assert_eq!(plan_restore(1_000, 600, 1_200), RestoreAction::BlockNow { end: 1_600 });
    assert_eq!(plan_restore(1_000, 600, 1_000), RestoreAction::BlockNow { end: 1_600 });
    assert_eq!(plan_restore(1_000, 600, 1_600), RestoreAction::BlockNow { end: 1_600 });
    assert_eq!(plan_restore(1_000, 600, 900), RestoreAction::BlockLater { start: 1_000, end: 1_600 });
    assert_eq!(plan_restore(1_000, 600, 1_601), RestoreAction::Nothing);
    assert_eq!(
        plan_restore(MAX_TIMESTAMP, 10, 0),
        RestoreAction::BlockLater { start: MAX_TIMESTAMP, end: 0 }
    );
}

#[test]
fn block_list_changes() {
    let raw = vec![
        AppInfoRaw { identifier: "/usr/bin/x".to_string(), display_name: "X".to_string() },
        AppInfoRaw { identifier: "com.y".to_string(), display_name: "Y".to_string() },
    ];
    assert_eq!(
        blocked_apps_update(true, &raw).unwrap_err(),
        "Невозможно изменить список приложений во время фокус сессии"
    );
    let apps = blocked_apps_update(false, &raw).unwrap();
    assert_eq!(apps.len(), 2);
    assert!(matches!(apps[0].identifier, AppIdentifier::Path(ref p) if p == "/usr/bin/x"));
    assert!(matches!(apps[1].identifier, AppIdentifier::BundleId(ref b) if b == "com.y"));
    assert_eq!(apps[1].display_name, "Y");
    assert!(blocked_apps_update(false, &vec![]).unwrap().is_empty());
}

#[test]
fn identifier_round_trips() {
    for id in [path("/usr/bin/x"), bundle("com.apple.Safari")] {
        assert_eq!(AppIdentifier::read_stored(&id.text(), '/'), id);
    }
    assert_eq!(AppIdentifier::read_stored(&path("C:\\x.exe").text(), '\\'), path("C:\\x.exe"));
    // A path without any separator reads back as a bundle identifier.
    assert_eq!(AppIdentifier::read_stored(&path("applock-test-dummy").text(), '/'), bundle("applock-test-dummy"));
    let entered = AppIdentifier::from_entered("C:\\x.exe");
    assert_eq!(AppIdentifier::read_stored(&entered.text(), '\\'), entered);
    assert_eq!(AppIdentifier::read_stored(&entered.text(), '/'), bundle("C:\\x.exe"));
}

#[test]
fn keep_first_and_kill_laws_on_values() {
    let found = vec![app(bundle("a"), "first"), app(bundle("a"), "second"), app(bundle("b"), "b")];
    let kept = linux::get_installed_apps(found);
    assert_eq!(kept[0].display_name, "first");
    for i in 0..kept.len() {
        for j in (i + 1)..kept.len() {
            assert!(!kept[i].identifier.same_as(&kept[j].identifier));
        }
    }
    let blocked = vec![path("/opt/game/bin/game")];
    let running = vec!["/usr/bin/game".to_string(), "/usr/bin/other".to_string(), "/tmp/game".to_string()];
    assert_eq!(processes_to_kill(&running, &blocked), vec![0, 2]);
}
