use clips::config::{Config, RuntimeConfig};
use clips::d3d::MonitorInfo;
use clips::supervisor::Ctl;
use clips::tray::{
    autostart_value, build_menu, hotkey_name, hotkey_to_try, on_command, tip, value_size,
    window_action, BalloonQueue, Command, Entry, MenuItem, MicDevice, WindowAction, IDM_AUTOSTART,
    IDM_CURSOR, IDM_LEN_15, IDM_LEN_30, IDM_LEN_60, IDM_MIC_BASE, IDM_MON_BASE, IDM_OPEN_FOLDER,
    IDM_QUIT, IDM_Q_BASE, IDM_RES_BASE, IDM_SAVE, MOD_NOREPEAT, WM_APP_BALLOON, WM_APP_TRAY,
    WM_COMMAND, WM_DESTROY, WM_DISPLAYCHANGE, WM_HOTKEY, WM_LBUTTONUP, WM_RBUTTONUP,
};

#[test]
fn hotkeys_have_names() {
    assert_eq!(hotkey_name(1, 0x43), "Alt+C");
    assert_eq!(hotkey_name(3, 0x78), "Ctrl+Alt+F9");
    assert_eq!(hotkey_name(7, 0x87), "Ctrl+Alt+Shift+F24");
    assert_eq!(hotkey_name(0, 0x30), "0");
    assert_eq!(hotkey_name(4, 0x08), "Shift+0x08");
    assert_eq!(hotkey_name(2, 0xDE), "Ctrl+0xDE");
    assert_eq!(hotkey_name(8, 0x88), "0x88");
}

#[test]
fn a_taken_hotkey_falls_back() {
    let h = hotkey_to_try(1, 0x43, 0).unwrap();
    assert_eq!((h.mods, h.vk, h.name.as_str()), (1 | MOD_NOREPEAT, 0x43, "Alt+C"));
    let h = hotkey_to_try(1, 0x43, 1).unwrap();
    assert_eq!((h.mods, h.vk, h.name.as_str()), (3 | MOD_NOREPEAT, 0x78, "Ctrl+Alt+F9"));
    assert_eq!(h.name, hotkey_name(3, 0x78));
    assert!(hotkey_to_try(1, 0x43, 2).is_none());
    assert_eq!(tip("Alt+C"), "Instant Replay — Alt+C saves clip");
}

#[test]
fn eight_notifications_wait() {
    let mut q = BalloonQueue::new();
    assert!(q.take().is_none());
    for i in 0..10 {
        q.notify("t", &format!("{i}"), i == 9);
    }
    let texts: Vec<String> = (0..8).map(|_| q.take().unwrap().text).collect();
    assert_eq!(texts, vec!["2", "3", "4", "5", "6", "7", "8", "9"]);
    assert!(q.take().is_none());
}

#[test]
fn autostart_quotes_the_program() {
    let v = autostart_value("C:\\c.exe");
    let mut expected: Vec<u16> = "\"C:\\c.exe\"".encode_utf16().collect();
    expected.push(0);
    assert_eq!(v, expected);
    assert_eq!(value_size(&v), 22);
}

fn runtime(text: &str) -> RuntimeConfig {
    RuntimeConfig::from(&Config::parse(text, None))
}

fn mics() -> Vec<MicDevice> {
    (0..20)
        .map(|i| MicDevice { id: format!("id{i}"), name: format!("Mic {i}") })
        .collect()
}

fn monitors() -> Vec<MonitorInfo> {
    (1..3)
        .map(|i| MonitorInfo {
            index: i,
            name: format!("\\\\.\\DISPLAY{i}"),
            width: 2560,
            height: 1440,
            primary: i == 1,
            hmonitor: 0,
        })
        .collect()
}

fn lines(rt: &RuntimeConfig) -> Vec<String> {
    let show = |e: &Entry| format!("{}{} {}", if e.checked { "*" } else { "" }, e.id, e.label);
    let mut out = Vec::new();
    for item in build_menu(rt, "Alt+C", &mics(), &monitors(), true) {
        match item {
            MenuItem::Entry(e) => out.push(show(&e)),
            MenuItem::Separator => out.push("-".to_string()),
            MenuItem::Submenu(label, entries) => {
                let all: Vec<String> = entries.iter().map(|e| show(e)).collect();
                out.push(format!("{}: {}", label, all.join(", ")));
            }
        }
    }
    out
}

#[test]
fn the_menu_is_laid_out() {
    let menu = lines(&runtime("clip_seconds=30\n"));
    assert_eq!(menu.len(), 12);
    assert_eq!(menu[0], "1001 Save clip\tAlt+C");
    assert_eq!(menu[1], "1002 Open clips folder");
    assert_eq!(menu[2], "-");
    assert_eq!(menu[3], "Clip length: 1011 15 s, *1012 30 s, 1013 60 s");
    assert_eq!(menu[4], "Resolution: 1040 Native, 1041 1440p, *1042 1080p, 1043 720p");
    assert_eq!(
        menu[5],
        "Quality: 1050 High (3.1 MB/s), *1051 Medium (1.9 MB/s), 1052 Low (1.0 MB/s)"
    );
    assert!(menu[6].starts_with(
        "Microphone: 1070 No microphone, *1071 Default microphone, 1072 Mic 0, 1073 Mic 1, "
    ));
    assert!(menu[6].ends_with(", 1087 Mic 15"));
    assert_eq!(
        menu[7],
        "Monitor: *1060 Default (primary), 1061 1: DISPLAY1 2560x1440 (primary), \
         1062 2: DISPLAY2 2560x1440"
    );
    assert_eq!(menu[8], "*1022 Capture cursor");
    assert_eq!(menu[9], "*1031 Start with Windows");
    assert_eq!(menu[10], "-");
    assert_eq!(menu[11], "1099 Quit");
}

/// The file and the menu after a choice, and what the supervisor is told.
fn pick(id: usize) -> (Config, Vec<String>, Ctl) {
    let mut cfg = Config::parse("", None);
    let mut rt = runtime("");
    match on_command(id, &mics(), rt.capture_cursor()) {
        Command::Change(s) => {
            s.apply(&mut rt);
            s.persist(&mut cfg);
            (cfg, lines(&rt), s.message())
        }
        _ => panic!("no change"),
    }
}

#[test]
fn choices_change_settings() {
    for (id, n) in [(IDM_LEN_15, 15), (IDM_LEN_30, 30), (IDM_LEN_60, 60)] {
        let (cfg, menu, told) = pick(id);
        assert_eq!(cfg.clip_seconds, n);
        assert!(menu[3].contains(&format!("*{id} ")));
        assert!(matches!(told, Ctl::SetClipLen(m) if m == n));
    }
    for (i, h) in [0, 1440, 1080, 720].iter().enumerate() {
        let (cfg, menu, told) = pick(IDM_RES_BASE + i);
        assert_eq!(cfg.target_height, *h);
        assert!(menu[4].contains(&format!("*{} ", IDM_RES_BASE + i)));
        assert!(matches!(told, Ctl::VideoRestart("resolution changed")));
    }
    for (i, m) in [25, 15, 8].iter().enumerate() {
        let (cfg, menu, told) = pick(IDM_Q_BASE + i);
        assert_eq!(cfg.bitrate_mbps, *m);
        assert!(menu[5].contains(&format!("*{} ", IDM_Q_BASE + i)));
        assert!(matches!(told, Ctl::VideoRestart("quality changed")));
    }
    for (i, m) in ["off", "default", "id0", "id1"].iter().enumerate() {
        let (cfg, menu, told) = pick(IDM_MIC_BASE + i);
        assert_eq!(cfg.mic, *m);
        assert!(menu[6].contains(&format!("*{} ", IDM_MIC_BASE + i)));
        assert!(matches!(told, Ctl::AudioRestart("microphone changed")));
    }
    for n in 0..3 {
        let (cfg, menu, told) = pick(IDM_MON_BASE + n);
        assert_eq!(cfg.monitor, n as u32);
        assert!(menu[7].contains(&format!("*{} ", IDM_MON_BASE + n)));
        assert!(matches!(told, Ctl::VideoRestart("monitor changed")));
    }
    let (cfg, menu, told) = pick(IDM_CURSOR);
    assert!(!cfg.capture_cursor);
    assert_eq!(menu[8], "1022 Capture cursor");
    assert!(matches!(told, Ctl::CursorChanged(false)));
}

#[test]
fn choices_survive_a_restart() {
    for id in [IDM_LEN_60, IDM_RES_BASE, IDM_Q_BASE, IDM_MIC_BASE + 3, IDM_MON_BASE + 8, IDM_CURSOR] {
        let (cfg, _, _) = pick(id);
        assert_eq!(Config::parse(&cfg.serialize(), None), cfg);
    }
}

#[test]
fn other_choices_change_nothing() {
    let none = |id| matches!(on_command(id, &vec![], true), Command::Nothing);
    assert!(matches!(on_command(IDM_SAVE, &vec![], true), Command::SaveClip));
    assert!(matches!(on_command(IDM_OPEN_FOLDER, &vec![], true), Command::OpenFolder));
    assert!(matches!(on_command(IDM_AUTOSTART, &vec![], true), Command::ToggleAutostart));
    assert!(matches!(on_command(IDM_QUIT, &vec![], true), Command::Quit));
    assert!(none(0));
    assert!(none(IDM_RES_BASE + 4));
    assert!(none(IDM_Q_BASE + 3));
    assert!(none(IDM_MON_BASE + 9));
    assert!(none(IDM_MIC_BASE + 2));
    assert!(none(IDM_QUIT + 1));
    assert!(matches!(on_command(IDM_MIC_BASE + 18, &mics(), true), Command::Nothing));
}

#[test]
fn window_messages_are_told_apart() {
    let at = |msg, w, l| window_action(msg, w, l, Some(0xC123));
    assert!(matches!(at(WM_APP_TRAY, 0, WM_RBUTTONUP as isize), WindowAction::ShowMenu));
    assert!(matches!(at(WM_APP_TRAY, 0, WM_LBUTTONUP as isize), WindowAction::ShowMenu));
    assert!(matches!(at(WM_APP_TRAY, 0, 0x200), WindowAction::Ignore));
    assert!(matches!(at(WM_APP_BALLOON, 0, 0), WindowAction::ShowBalloon));
    assert!(matches!(at(WM_HOTKEY, 1, 0), WindowAction::Send(Ctl::SaveClip)));
    assert!(matches!(at(WM_COMMAND, 0x1_03E9, 0), WindowAction::Command(1001)));
    assert!(matches!(
        at(WM_DISPLAYCHANGE, 0, 0),
        WindowAction::Send(Ctl::VideoRestart("display mode changed"))
    ));
    assert!(matches!(at(WM_DESTROY, 0, 0), WindowAction::TearDown));
    assert!(matches!(at(0xC123, 0, 0), WindowAction::AddIcon));
    assert!(matches!(at(0xC124, 0, 0), WindowAction::Default));
    assert!(matches!(window_action(0, 0, 0, Some(0)), WindowAction::Default));
    assert!(matches!(window_action(WM_HOTKEY, 0, 0, None), WindowAction::Ignore));
    assert!(matches!(window_action(WM_COMMAND, 1001, 0, None), WindowAction::Ignore));
    assert!(matches!(window_action(0xC123, 0, 0, None), WindowAction::Default));
    assert!(matches!(window_action(WM_DESTROY, 0, 0, None), WindowAction::TearDown));
}
