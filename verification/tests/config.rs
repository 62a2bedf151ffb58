use clips::config::{config_dir, Config, RuntimeConfig};

#[test]
fn roundtrip() {
    let mut c = Config::default(None);
    c.clip_seconds = 60;
    c.target_height = 0;
    c.monitor = 2;
    c.bitrate_mbps = 20;
    c.backend = "dxgi".into();
    c.mic = "{0.0.1.00000000}.{abc}".into();
    c.clips_dir = String::from("D:\\my clips");
    let parsed = Config::parse(&c.serialize(), None);
    assert_eq!(c, parsed);
}

#[test]
fn legacy_native_resolution_key() {
    assert_eq!(Config::parse("native_resolution=true\n", None).target_height, 0);
    assert_eq!(Config::parse("native_resolution=false\n", None).target_height, 1080);
    assert_eq!(Config::parse("target_height=999\n", None).target_height, 1080);
    assert_eq!(Config::parse("monitor=99\n", None).monitor, 0);
}

#[test]
fn defaults_on_garbage() {
    let c = Config::parse("clip_seconds=99\nfps=banana\n=??\nrandom line\nbitrate_mbps=0\nbackend=gdi\n", None);
    let d = Config::default(None);
    assert_eq!(c.clip_seconds, d.clip_seconds);
    assert_eq!(c.fps, d.fps);
    assert_eq!(c.bitrate_mbps, d.bitrate_mbps);
    assert_eq!(c.backend, "auto");
}

#[test]
fn empty_input_is_default() {
    assert_eq!(Config::parse("", None), Config::default(None));
}

#[test]
fn tolerates_whitespace_and_comments() {
    let c = Config::parse("# comment\n  clip_seconds = 15  \n\ncapture_cursor=false\n", None);
    assert_eq!(c.clip_seconds, 15);
    assert!(!c.capture_cursor);
}

#[test]
fn runtime_view_follows_the_config() {
    let mut c = Config::default(None);
    c.backend = "dxgi".into();
    let r = RuntimeConfig::from(&c);
    assert_eq!(r.backend(), 2);
    assert_eq!(r.bitrate_bps(), 15_000_000);
    assert_eq!(r.mic(), "default");
}

#[test]
fn folders_are_found_below_the_user() {
    assert_eq!(config_dir(Some("C:\\R")), "C:\\R\\InstantReplay");
    assert_eq!(config_dir(None), ".\\InstantReplay");
    assert_eq!(Config::path("C:\\R\\InstantReplay"), "C:\\R\\InstantReplay\\config.cfg");
    assert_eq!(Config::default(Some("C:\\V")).clips_dir, "C:\\V\\Clips");
    assert_eq!(Config::default(None).clips_dir, ".\\Clips");
}

#[test]
fn files_change_what_was_set() {
    let c = Config::default(Some("C:\\V")).updated("monitor=3\nmic=off\nhotkey_vk=120\n");
    assert_eq!((c.monitor, c.mic.as_str(), c.hotkey_vk), (3, "off", 120));
    assert_eq!(c.clips_dir, "C:\\V\\Clips");
    // Written and read again over other defaults, it is the same.
    assert_eq!(Config::default(None).updated(&c.serialize()), c);
}

#[test]
fn the_last_line_wins() {
    let c = Config::parse("fps=30\r\nfps=144\r\nfps=9\r\ngop_seconds=+4\nclip_seconds=60", None);
    assert_eq!((c.fps, c.gop_seconds, c.clip_seconds), (144, 4, 60));
    assert_eq!(Config::parse("clips_dir=D:\\a=b\n", None).clips_dir, "D:\\a=b");
    assert_eq!(Config::parse("clips_dir=\nmic=  \n", None), Config::default(None));
}

#[test]
fn a_file_is_read_over_the_videos_folder() {
    let c = Config::parse("fps=30\n", Some("C:\\V"));
    assert_eq!((c.fps, c.clips_dir.as_str()), (30, "C:\\V\\Clips"));
    assert_eq!(Config::parse("", Some("C:\\V")), Config::default(Some("C:\\V")));
    assert_eq!(Config::parse("clips_dir=E:\\x", Some("C:\\V")).clips_dir, "E:\\x");
}

#[test]
fn texts_add_up() {
    let (a, b) = ("fps=30\nmic=off\n", "fps=banana\nmic=default\nmonitor=2");
    let both = Config::parse(&format!("{a}{b}"), None);
    assert_eq!(both, Config::parse(a, None).updated(b));
    assert_eq!((both.fps, both.mic.as_str(), both.monitor), (30, "default", 2));
}
