//! The persisted configuration (`key=value` lines) and the view of it that the
//! running pipeline reads.

use crate::paths::{join, joined};
use crate::text::{
    chars_of, decimal, find_char, first_index, is_digit, is_white, law_trimming_cuts_white_space,
    lemma_decimal_digits, lemma_decimal_parses, lemma_first_index, lemma_trimmed_fixed,
    parse_number, parsed_number, push_decimal, same_text, spells, string_of, trim, trim_end,
    trim_start, trimmed,
};
use vstd::prelude::*;
use vstd::slice::slice_subrange;

verus! {

/// The `Alt` bit of a hotkey's modifiers.
pub const MOD_ALT: u32 = 0x1;

/// The `Ctrl` bit of a hotkey's modifiers.
pub const MOD_CONTROL: u32 = 0x2;

/// The `Shift` bit of a hotkey's modifiers.
pub const MOD_SHIFT: u32 = 0x4;

/// The heights that the menu offers; zero is the native one.
pub const RES_CHOICES: [u32; 4] = [0, 1440, 1080, 720];

/// The bitrates that the menu offers, in megabits a second, and their names.
pub const QUALITY_CHOICES: [(u32, &'static str); 3] = [(25, "High"), (15, "Medium"), (8, "Low")];

/// What the user has chosen, as it is kept on disk.
#[derive(Debug, PartialEq)]
pub struct Config {
    /// Clip length: 15, 30 or 60.
    pub clip_seconds: u32,
    /// Zero for native, else the height to scale down to.
    pub target_height: u32,
    /// Zero for the primary monitor, else a monitor's number from one.
    pub monitor: u32,
    /// Frames per second.
    pub fps: u32,
    /// Video bitrate.
    pub bitrate_mbps: u32,
    /// Seconds between keyframes.
    pub gop_seconds: u32,
    /// Whether the cursor is recorded.
    pub capture_cursor: bool,
    /// `auto`, `wgc` or `dxgi`.
    pub backend: String,
    /// `off`, `default` or an endpoint's device id.
    pub mic: String,
    /// The folder that clips are written to.
    pub clips_dir: String,
    /// The modifier bits of the hotkey.
    pub hotkey_mods: u32,
    /// The virtual key of the hotkey.
    pub hotkey_vk: u32,
}

/// A configuration with its texts as character sequences.
#[verifier::ext_equal]
pub struct ConfigModel {
    pub clip_seconds: u32,
    pub target_height: u32,
    pub monitor: u32,
    pub fps: u32,
    pub bitrate_mbps: u32,
    pub gop_seconds: u32,
    pub capture_cursor: bool,
    pub backend: Seq<char>,
    pub mic: Seq<char>,
    pub clips_dir: Seq<char>,
    pub hotkey_mods: u32,
    pub hotkey_vk: u32,
}

impl View for Config {
    type V = ConfigModel;

    open spec fn view(&self) -> ConfigModel {
        ConfigModel {
            clip_seconds: self.clip_seconds,
            target_height: self.target_height,
            monitor: self.monitor,
            fps: self.fps,
            bitrate_mbps: self.bitrate_mbps,
            gop_seconds: self.gop_seconds,
            capture_cursor: self.capture_cursor,
            backend: self.backend@,
            mic: self.mic@,
            clips_dir: self.clips_dir@,
            hotkey_mods: self.hotkey_mods,
            hotkey_vk: self.hotkey_vk,
        }
    }
}

impl Clone for Config {
    fn clone(&self) -> (c: Config)
        ensures
            c@ == self@,
    {
        Config {
            clip_seconds: self.clip_seconds,
            target_height: self.target_height,
            monitor: self.monitor,
            fps: self.fps,
            bitrate_mbps: self.bitrate_mbps,
            gop_seconds: self.gop_seconds,
            capture_cursor: self.capture_cursor,
            backend: self.backend.clone(),
            mic: self.mic.clone(),
            clips_dir: self.clips_dir.clone(),
            hotkey_mods: self.hotkey_mods,
            hotkey_vk: self.hotkey_vk,
        }
    }
}

// ---------------------------------------------------------------------------
// Which values a setting takes
// ---------------------------------------------------------------------------

/// The clip lengths on offer.
pub open spec fn clip_seconds_ok(n: u32) -> bool {
    n == 15 || n == 30 || n == 60
}

/// Native, or a height to scale down to.
pub open spec fn target_height_ok(n: u32) -> bool {
    n == 0 || n == 720 || n == 1080 || n == 1440 || n == 2160
}

/// The primary monitor, or one of the first eight.
pub open spec fn monitor_ok(n: u32) -> bool {
    n <= 8
}

/// Frame rates that can be asked for.
pub open spec fn fps_ok(n: u32) -> bool {
    10 <= n <= 240
}

/// Bitrates that can be asked for.
pub open spec fn bitrate_ok(n: u32) -> bool {
    1 <= n <= 100
}

/// Keyframe distances that can be asked for.
pub open spec fn gop_ok(n: u32) -> bool {
    1 <= n <= 10
}

/// The names of the capture backends.
pub open spec fn backend_ok(s: Seq<char>) -> bool {
    s == "auto"@ || s == "wgc"@ || s == "dxgi"@
}

/// A text that a line of the file can hold: not empty, on one line, and with no
/// white space around it.
pub open spec fn plain_value(s: Seq<char>) -> bool {
    &&& s.len() > 0
    &&& !is_white(s[0])
    &&& !is_white(s.last())
    &&& forall|i: int| 0 <= i < s.len() ==> s[i] != '\n'
}

impl ConfigModel {
    /// Every setting has a value that the file can hold and that is taken from it.
    pub open spec fn storable(self) -> bool {
        &&& clip_seconds_ok(self.clip_seconds)
        &&& target_height_ok(self.target_height)
        &&& monitor_ok(self.monitor)
        &&& fps_ok(self.fps)
        &&& bitrate_ok(self.bitrate_mbps)
        &&& gop_ok(self.gop_seconds)
        &&& backend_ok(self.backend)
        &&& plain_value(self.mic)
        &&& plain_value(self.clips_dir)
    }
}

// ---------------------------------------------------------------------------
// What a text says
// ---------------------------------------------------------------------------

/// The number in `v` if there is one that `ok` admits, else `kept`.
pub open spec fn taken(v: Seq<char>, kept: u32, ok: spec_fn(u32) -> bool) -> u32 {
    match parsed_number(v, u32::MAX as nat) {
        Some(n) => if ok(n as u32) {
            n as u32
        } else {
            kept
        },
        None => kept,
    }
}

/// `c` with the setting `k` given the value `v`. Keys that are not known, and
/// values that a setting does not take, change nothing.
pub open spec fn with_setting(c: ConfigModel, k: Seq<char>, v: Seq<char>) -> ConfigModel {
    if k == "clip_seconds"@ {
        ConfigModel { clip_seconds: taken(v, c.clip_seconds, |n: u32| clip_seconds_ok(n)), ..c }
    } else if k == "target_height"@ {
        ConfigModel { target_height: taken(v, c.target_height, |n: u32| target_height_ok(n)), ..c }
    } else if k == "monitor"@ {
        ConfigModel { monitor: taken(v, c.monitor, |n: u32| monitor_ok(n)), ..c }
    } else if k == "native_resolution"@ {
        ConfigModel {
            target_height: if v == "true"@ {
                0
            } else {
                1080
            },
            ..c
        }
    } else if k == "fps"@ {
        ConfigModel { fps: taken(v, c.fps, |n: u32| fps_ok(n)), ..c }
    } else if k == "bitrate_mbps"@ {
        ConfigModel { bitrate_mbps: taken(v, c.bitrate_mbps, |n: u32| bitrate_ok(n)), ..c }
    } else if k == "gop_seconds"@ {
        ConfigModel { gop_seconds: taken(v, c.gop_seconds, |n: u32| gop_ok(n)), ..c }
    } else if k == "capture_cursor"@ {
        ConfigModel { capture_cursor: v == "true"@, ..c }
    } else if k == "backend"@ {
        ConfigModel {
            backend: if backend_ok(v) {
                v
            } else {
                c.backend
            },
            ..c
        }
    } else if k == "mic"@ {
        ConfigModel {
            mic: if v.len() > 0 {
                v
            } else {
                c.mic
            },
            ..c
        }
    } else if k == "clips_dir"@ {
        ConfigModel {
            clips_dir: if v.len() > 0 {
                v
            } else {
                c.clips_dir
            },
            ..c
        }
    } else if k == "hotkey_mods"@ {
        ConfigModel { hotkey_mods: taken(v, c.hotkey_mods, |n: u32| true), ..c }
    } else if k == "hotkey_vk"@ {
        ConfigModel { hotkey_vk: taken(v, c.hotkey_vk, |n: u32| true), ..c }
    } else {
        c
    }
}

/// `c` after the line `line`: a comment, a blank line or one without an equals
/// sign changes nothing, and white space around key and value does not count.
pub open spec fn with_line(c: ConfigModel, line: Seq<char>) -> ConfigModel {
    let l = trimmed(line);
    let eq = first_index(l, '=');
    if l.len() == 0 || l[0] == '#' || eq == l.len() {
        c
    } else {
        with_setting(c, trimmed(l.take(eq)), trimmed(l.skip(eq + 1)))
    }
}

/// `c` after the lines of `text`, from the first to the last.
pub open spec fn with_text(c: ConfigModel, text: Seq<char>) -> ConfigModel
    decreases text.len(),
    via with_text_decreases
{
    let nl = first_index(text, '\n');
    if nl >= text.len() {
        with_line(c, text)
    } else {
        with_text(with_line(c, text.take(nl)), text.skip(nl + 1))
    }
}

#[via_fn]
proof fn with_text_decreases(c: ConfigModel, text: Seq<char>) {
    lemma_first_index_range(text, '\n');
}

/// A first index is a position of the text, or its length.
proof fn lemma_first_index_range(s: Seq<char>, c: char)
    ensures
        0 <= first_index(s, c) <= s.len(),
        first_index(s, c) < s.len() ==> s[first_index(s, c)] == c,
        forall|j: int| 0 <= j < first_index(s, c) ==> s[j] != c,
    decreases s.len(),
{
    if s.len() > 0 && s[0] != c {
        lemma_first_index_range(s.skip(1), c);
        let k = first_index(s.skip(1), c);
        assert forall|j: int| 0 <= j < k + 1 implies s[j] != c by {
            if j > 0 {
                assert(s.skip(1)[j - 1] == s[j]);
            }
        }
    }
}

/// The settings that hold until the file says otherwise.
pub open spec fn default_model(clips_dir: Seq<char>) -> ConfigModel {
    ConfigModel {
        clip_seconds: 30,
        target_height: 1080,
        monitor: 0,
        fps: 60,
        bitrate_mbps: 15,
        gop_seconds: 2,
        capture_cursor: true,
        backend: "auto"@,
        mic: "default"@,
        clips_dir,
        hotkey_mods: MOD_ALT,
        hotkey_vk: 0x43,
    }
}

/// The folder that was found, if one was.
pub open spec fn folder(found: Option<&str>) -> Option<Seq<char>> {
    match found {
        Some(f) => Some(f@),
        None => None,
    }
}

/// The folder for clips below the user's videos, or below the working folder
/// where the videos folder is not known.
pub open spec fn clips_dir_in(videos: Option<Seq<char>>) -> Seq<char> {
    joined(
        match videos {
            Some(v) => v,
            None => "."@,
        },
        "Clips"@,
    )
}

// ---------------------------------------------------------------------------
// What is written
// ---------------------------------------------------------------------------

/// One line of the file.
pub open spec fn entry(key: Seq<char>, value: Seq<char>) -> Seq<char> {
    key.push('=') + value.push('\n')
}

/// How a flag is written.
pub open spec fn flag_text(b: bool) -> Seq<char> {
    if b {
        "true"@
    } else {
        "false"@
    }
}

/// The file that holds `c`.
pub open spec fn serialized(c: ConfigModel) -> Seq<char> {
    "# Instant Replay configuration"@.push('\n') + entry(
        "clip_seconds"@,
        decimal(c.clip_seconds as nat),
    ) + entry("target_height"@, decimal(c.target_height as nat)) + entry(
        "monitor"@,
        decimal(c.monitor as nat),
    ) + entry("fps"@, decimal(c.fps as nat)) + entry(
        "bitrate_mbps"@,
        decimal(c.bitrate_mbps as nat),
    ) + entry("gop_seconds"@, decimal(c.gop_seconds as nat)) + entry(
        "capture_cursor"@,
        flag_text(c.capture_cursor),
    ) + entry("backend"@, c.backend) + entry("mic"@, c.mic) + entry("clips_dir"@, c.clips_dir)
        + entry("hotkey_mods"@, decimal(c.hotkey_mods as nat)) + entry(
        "hotkey_vk"@,
        decimal(c.hotkey_vk as nat),
    )
}

/// The number in `v` if it fits a setting.
fn number_in(v: &[char]) -> (r: Option<u32>)
    ensures
        match r {
            Some(n) => parsed_number(v@, u32::MAX as nat) == Some(n as nat),
            None => parsed_number(v@, u32::MAX as nat) is None,
        },
{
    match parse_number(v, 0xFFFF_FFFF) {
        Some(n) => Some(n as u32),
        None => None,
    }
}

/// Appends the line that gives `key` the value `value`.
fn push_entry(out: &mut String, key: &str, value: &str)
    ensures
        final(out)@ == old(out)@ + entry(key@, value@),
{
    let ghost before = out@;
    out.append(key);
    out.push('=');
    out.append(value);
    out.push('\n');
    assert(out@ =~= before + entry(key@, value@));
}

/// Appends the line that gives `key` the number `n`.
fn push_number_entry(out: &mut String, key: &str, n: u32)
    ensures
        final(out)@ == old(out)@ + entry(key@, decimal(n as nat)),
{
    let mut value = String::new();
    push_decimal(&mut value, n as u64);
    assert(value@ =~= decimal(n as nat));
    push_entry(out, key, value.as_str());
}

impl Config {
    /// The settings that hold until a file says otherwise, with the clips below
    /// the user's videos folder, or below the working folder where that is not known.
    pub fn default(videos: Option<&str>) -> (c: Config)
        ensures
            c@ == default_model(clips_dir_in(folder(videos))),
    {
        let base: &str = match videos {
            Some(v) => v,
            None => ".",
        };
        proof {
            reveal_strlit("Clips");
        }
        Config {
            clip_seconds: 30,
            target_height: 1080,
            monitor: 0,
            fps: 60,
            bitrate_mbps: 15,
            gop_seconds: 2,
            capture_cursor: true,
            backend: "auto".to_owned(),
            mic: "default".to_owned(),
            clips_dir: join(base, "Clips"),
            hotkey_mods: MOD_ALT,
            hotkey_vk: 0x43,
        }
    }

    /// The file in the configuration folder `dir`.
    pub fn path(dir: &str) -> (path: String)
        ensures
            path@ == joined(dir@, "config.cfg"@),
    {
        proof {
            reveal_strlit("config.cfg");
        }
        join(dir, "config.cfg")
    }

    /// What `text` says, on top of the settings that hold without a file.
    pub fn parse(text: &str, videos: Option<&str>) -> (c: Config)
        ensures
            c@ == with_text(default_model(clips_dir_in(folder(videos))), text@),
    {
        Config::default(videos).updated(text)
    }

    /// These settings after the lines of `text`.
    pub fn updated(self, text: &str) -> (c: Config)
        ensures
            c@ == with_text(self@, text@),
    {
        let chars = chars_of(text);
        let mut c = self;
        let mut pos: usize = 0;
        assert(text@.skip(0) =~= text@);
        loop
            invariant
                pos <= chars@.len(),
                chars@ == text@,
                with_text(self@, text@) == with_text(c@, text@.skip(pos as int)),
            decreases chars@.len() - pos,
        {
            let rest = slice_subrange(chars.as_slice(), pos, chars.len());
            assert(rest@ =~= text@.skip(pos as int));
            let nl = find_char(rest, '\n');
            let line = slice_subrange(rest, 0, nl);
            assert(line@ =~= rest@.take(nl as int));
            if nl == rest.len() {
                assert(rest@.take(nl as int) =~= rest@);
                c.take_line(line);
                return c;
            }
            c.take_line(line);
            assert(rest@.skip(nl + 1) =~= text@.skip(pos + nl + 1));
            pos = pos + nl + 1;
        }
    }

    /// Takes one line of the file.
    fn take_line(&mut self, line: &[char])
        ensures
            final(self)@ == with_line(old(self)@, line@),
    {
        let l = trim(line);
        if l.len() == 0 || l[0] == '#' {
            return;
        }
        let eq = find_char(l, '=');
        if eq == l.len() {
            return;
        }
        let k = slice_subrange(l, 0, eq);
        let v = slice_subrange(l, eq + 1, l.len());
        assert(k@ =~= l@.take(eq as int));
        assert(v@ =~= l@.skip(eq + 1));
        self.take_setting(trim(k), trim(v));
    }

    /// Takes the value `v` for the setting `k`.
    fn take_setting(&mut self, k: &[char], v: &[char])
        ensures
            final(self)@ == with_setting(old(self)@, k@, v@),
    {
        if spells(k, "clip_seconds") {
            if let Some(n) = number_in(v) {
                if n == 15 || n == 30 || n == 60 {
                    self.clip_seconds = n;
                }
            }
        } else if spells(k, "target_height") {
            if let Some(n) = number_in(v) {
                if n == 0 || n == 720 || n == 1080 || n == 1440 || n == 2160 {
                    self.target_height = n;
                }
            }
        } else if spells(k, "monitor") {
            if let Some(n) = number_in(v) {
                if n <= 8 {
                    self.monitor = n;
                }
            }
        } else if spells(k, "native_resolution") {
            self.target_height = if spells(v, "true") {
                0
            } else {
                1080
            };
        } else if spells(k, "fps") {
            if let Some(n) = number_in(v) {
                if 10 <= n && n <= 240 {
                    self.fps = n;
                }
            }
        } else if spells(k, "bitrate_mbps") {
            if let Some(n) = number_in(v) {
                if 1 <= n && n <= 100 {
                    self.bitrate_mbps = n;
                }
            }
        } else if spells(k, "gop_seconds") {
            if let Some(n) = number_in(v) {
                if 1 <= n && n <= 10 {
                    self.gop_seconds = n;
                }
            }
        } else if spells(k, "capture_cursor") {
            self.capture_cursor = spells(v, "true");
        } else if spells(k, "backend") {
            if spells(v, "auto") || spells(v, "wgc") || spells(v, "dxgi") {
                self.backend = string_of(v);
            }
        } else if spells(k, "mic") {
            if v.len() > 0 {
                self.mic = string_of(v);
            }
        } else if spells(k, "clips_dir") {
            if v.len() > 0 {
                self.clips_dir = string_of(v);
            }
        } else if spells(k, "hotkey_mods") {
            if let Some(n) = number_in(v) {
                self.hotkey_mods = n;
            }
        } else if spells(k, "hotkey_vk") {
            if let Some(n) = number_in(v) {
                self.hotkey_vk = n;
            }
        }
    }

    /// The file that holds these settings.
    pub fn serialize(&self) -> (text: String)
        ensures
            text@ == serialized(self@),
    {
        let mut out = String::new();
        out.append("# Instant Replay configuration");
        out.push('\n');
        assert(out@ =~= "# Instant Replay configuration"@.push('\n'));
        push_number_entry(&mut out, "clip_seconds", self.clip_seconds);
        push_number_entry(&mut out, "target_height", self.target_height);
        push_number_entry(&mut out, "monitor", self.monitor);
        push_number_entry(&mut out, "fps", self.fps);
        push_number_entry(&mut out, "bitrate_mbps", self.bitrate_mbps);
        push_number_entry(&mut out, "gop_seconds", self.gop_seconds);
        push_entry(
            &mut out,
            "capture_cursor",
            if self.capture_cursor {
                "true"
            } else {
                "false"
            },
        );
        push_entry(&mut out, "backend", self.backend.as_str());
        push_entry(&mut out, "mic", self.mic.as_str());
        push_entry(&mut out, "clips_dir", self.clips_dir.as_str());
        push_number_entry(&mut out, "hotkey_mods", self.hotkey_mods);
        push_number_entry(&mut out, "hotkey_vk", self.hotkey_vk);
        out
    }
}

/// The folder of the configuration file and the log, below the user's roaming
/// application data, or below the working folder where that is not known.
pub fn config_dir(appdata: Option<&str>) -> (dir: String)
    ensures
        dir@ == joined(
            match appdata {
                Some(a) => a@,
                None => "."@,
            },
            "InstantReplay"@,
        ),
{
    let base: &str = match appdata {
        Some(a) => a,
        None => ".",
    };
    proof {
        reveal_strlit("InstantReplay");
    }
    join(base, "InstantReplay")
}

// ---------------------------------------------------------------------------
// The running view
// ---------------------------------------------------------------------------

/// What the tray, the supervisor and the pipeline read while they run.
pub struct RuntimeConfig {
    pub clip_seconds: u32,
    pub target_height: u32,
    pub monitor: u32,
    /// Zero for automatic, one for WGC, two for DXGI.
    pub backend: u32,
    pub capture_cursor: bool,
    pub fps: u32,
    pub bitrate_mbps: u32,
    pub gop_seconds: u32,
    pub mic: String,
    pub clips_dir: String,
}

/// A running view with its texts as character sequences.
#[verifier::ext_equal]
pub struct RuntimeModel {
    pub clip_seconds: u32,
    pub target_height: u32,
    pub monitor: u32,
    pub backend: u32,
    pub capture_cursor: bool,
    pub fps: u32,
    pub bitrate_mbps: u32,
    pub gop_seconds: u32,
    pub mic: Seq<char>,
    pub clips_dir: Seq<char>,
}

impl View for RuntimeConfig {
    type V = RuntimeModel;

    open spec fn view(&self) -> RuntimeModel {
        RuntimeModel {
            clip_seconds: self.clip_seconds,
            target_height: self.target_height,
            monitor: self.monitor,
            backend: self.backend,
            capture_cursor: self.capture_cursor,
            fps: self.fps,
            bitrate_mbps: self.bitrate_mbps,
            gop_seconds: self.gop_seconds,
            mic: self.mic@,
            clips_dir: self.clips_dir@,
        }
    }
}

/// The number of a backend's name; every name but two means automatic.
pub open spec fn backend_code(name: Seq<char>) -> u32 {
    if name == "wgc"@ {
        1
    } else if name == "dxgi"@ {
        2
    } else {
        0
    }
}

/// The running view of a configuration.
pub open spec fn running(c: ConfigModel) -> RuntimeModel {
    RuntimeModel {
        clip_seconds: c.clip_seconds,
        target_height: c.target_height,
        monitor: c.monitor,
        backend: backend_code(c.backend),
        capture_cursor: c.capture_cursor,
        fps: c.fps,
        bitrate_mbps: c.bitrate_mbps,
        gop_seconds: c.gop_seconds,
        mic: c.mic,
        clips_dir: c.clips_dir,
    }
}

impl RuntimeConfig {
    /// The running view of `c`.
    pub fn from(c: &Config) -> (r: RuntimeConfig)
        ensures
            r@ == running(c@),
    {
        let backend: u32 = if same_text(c.backend.as_str(), "wgc") {
            1
        } else if same_text(c.backend.as_str(), "dxgi") {
            2
        } else {
            0
        };
        RuntimeConfig {
            clip_seconds: c.clip_seconds,
            target_height: c.target_height,
            monitor: c.monitor,
            backend,
            capture_cursor: c.capture_cursor,
            fps: c.fps,
            bitrate_mbps: c.bitrate_mbps,
            gop_seconds: c.gop_seconds,
            mic: c.mic.clone(),
            clips_dir: c.clips_dir.clone(),
        }
    }

    /// The microphone that is mixed in.
    pub fn mic(&self) -> (s: String)
        ensures
            s@ == self.mic@,
    {
        self.mic.clone()
    }

    /// The clip length.
    pub fn clip_seconds(&self) -> (n: u32)
        ensures
            n == self.clip_seconds,
    {
        self.clip_seconds
    }

    /// The height to scale down to, or zero.
    pub fn target_height(&self) -> (n: u32)
        ensures
            n == self.target_height,
    {
        self.target_height
    }

    /// The number of the monitor that is recorded.
    pub fn monitor(&self) -> (n: u32)
        ensures
            n == self.monitor,
    {
        self.monitor
    }

    /// The number of the capture backend.
    pub fn backend(&self) -> (n: u32)
        ensures
            n == self.backend,
    {
        self.backend
    }

    /// Whether the cursor is recorded.
    pub fn capture_cursor(&self) -> (b: bool)
        ensures
            b == self.capture_cursor,
    {
        self.capture_cursor
    }

    /// Frames per second.
    pub fn fps(&self) -> (n: u32)
        ensures
            n == self.fps,
    {
        self.fps
    }

    /// The video bitrate in bits per second.
    pub fn bitrate_bps(&self) -> (n: u32)
        requires
            self.bitrate_mbps * 1_000_000 <= u32::MAX,
        ensures
            n == self.bitrate_mbps * 1_000_000,
    {
        self.bitrate_mbps * 1_000_000
    }

    /// Seconds between keyframes.
    pub fn gop_seconds(&self) -> (n: u32)
        ensures
            n == self.gop_seconds,
    {
        self.gop_seconds
    }

    /// The folder that clips are written to.
    pub fn clips_dir(&self) -> (s: String)
        ensures
            s@ == self.clips_dir@,
    {
        self.clips_dir.clone()
    }
}

// ---------------------------------------------------------------------------
// Laws
// ---------------------------------------------------------------------------

/// A text that is empty or ends a line.
pub open spec fn whole_lines(s: Seq<char>) -> bool {
    s.len() > 0 ==> s.last() == '\n'
}

/// Law: of two texts one after the other, the second is read on top of what the
/// first one says.
pub proof fn law_texts_add_up(c: ConfigModel, a: Seq<char>, b: Seq<char>)
    requires
        whole_lines(a),
    ensures
        with_text(c, a + b) == with_text(with_text(c, a), b),
    decreases a.len(),
{
    if a.len() == 0 {
        assert(a + b =~= b);
        assert(first_index(a, '\n') == 0);
        assert(trimmed(a) == a);
    } else {
        lemma_first_index_range(a, '\n');
        let nl = first_index(a, '\n');
        assert(nl < a.len());
        lemma_first_index(a + b, '\n', nl);
        assert((a + b).take(nl) =~= a.take(nl));
        assert((a + b).skip(nl + 1) =~= a.skip(nl + 1) + b);
        let rest = a.skip(nl + 1);
        assert(rest.len() > 0 ==> rest.last() == a.last());
        law_texts_add_up(with_line(c, a.take(nl)), rest, b);
    }
}

/// A text behind the last line break is one line.
proof fn lemma_with_text_line(c: ConfigModel, line: Seq<char>)
    requires
        forall|i: int| 0 <= i < line.len() ==> line[i] != '\n',
    ensures
        with_text(c, line.push('\n')) == with_line(c, line),
{
    let t = line.push('\n');
    lemma_first_index(t, '\n', line.len() as int);
    assert(t.take(line.len() as int) =~= line);
    let rest = t.skip(line.len() as int + 1);
    assert(rest =~= Seq::<char>::empty());
    law_empty_text(with_line(c, line));
}

/// A written line gives its key its value.
proof fn lemma_entry(c: ConfigModel, s: Seq<char>, key: Seq<char>, value: Seq<char>)
    requires
        whole_lines(s),
        plain_value(key),
        key[0] != '#',
        forall|i: int| 0 <= i < key.len() ==> key[i] != '=',
        plain_value(value),
    ensures
        with_text(c, s + entry(key, value)) == with_setting(with_text(c, s), key, value),
        whole_lines(s + entry(key, value)),
{
    let line = key.push('=') + value;
    let e = entry(key, value);
    assert(e =~= line.push('\n'));
    law_texts_add_up(c, s, e);
    assert forall|i: int| 0 <= i < line.len() implies line[i] != '\n' by {
        if i < key.len() {
            assert(line[i] == key[i]);
        } else if i > key.len() {
            assert(line[i] == value[i - key.len() - 1]);
        }
    }
    lemma_with_text_line(with_text(c, s), line);
    assert(line[0] == key[0]);
    assert(line.last() == value.last());
    lemma_trimmed_fixed(line);
    assert forall|i: int| 0 <= i < key.len() implies line[i] != '=' by {
        assert(line[i] == key[i]);
    }
    lemma_first_index(line, '=', key.len() as int);
    assert(line.take(key.len() as int) =~= key);
    assert(line.skip(key.len() as int + 1) =~= value);
    lemma_trimmed_fixed(key);
    lemma_trimmed_fixed(value);
}

/// A numeral is a value that a line can hold, and it is read back.
proof fn lemma_number_value(n: u32)
    ensures
        plain_value(decimal(n as nat)),
        parsed_number(decimal(n as nat), u32::MAX as nat) == Some(n as nat),
{
    lemma_decimal_digits(n as nat);
    lemma_decimal_parses(n as nat, u32::MAX as nat);
    let s = decimal(n as nat);
    assert(is_digit(s[0]));
    assert(is_digit(s[s.len() - 1]));
    assert forall|i: int| 0 <= i < s.len() implies s[i] != '\n' by {
        assert(is_digit(s[i]));
    }
}

/// The keys are plain, and they differ.
proof fn lemma_keys()
    ensures
        forall|k: Seq<char>| #[trigger] is_key(k) ==> plain_value(k) && k[0] != '#' && (forall|
            i: int,
        | 0 <= i < k.len() ==> k[i] != '='),
        "clip_seconds"@.len() == 12 && "clip_seconds"@[0] == 'c',
        "target_height"@.len() == 13,
        "monitor"@.len() == 7 && "monitor"@[0] == 'm',
        "native_resolution"@.len() == 17,
        "fps"@.len() == 3 && "fps"@[0] == 'f',
        "bitrate_mbps"@.len() == 12 && "bitrate_mbps"@[0] == 'b',
        "gop_seconds"@.len() == 11 && "gop_seconds"@[0] == 'g',
        "capture_cursor"@.len() == 14,
        "backend"@.len() == 7 && "backend"@[0] == 'b',
        "mic"@.len() == 3 && "mic"@[0] == 'm',
        "clips_dir"@.len() == 9 && "clips_dir"@[0] == 'c',
        "hotkey_mods"@.len() == 11 && "hotkey_mods"@[0] == 'h',
        "hotkey_vk"@.len() == 9 && "hotkey_vk"@[0] == 'h',
{
    reveal_strlit("clip_seconds");
    reveal_strlit("target_height");
    reveal_strlit("monitor");
    reveal_strlit("native_resolution");
    reveal_strlit("fps");
    reveal_strlit("bitrate_mbps");
    reveal_strlit("gop_seconds");
    reveal_strlit("capture_cursor");
    reveal_strlit("backend");
    reveal_strlit("mic");
    reveal_strlit("clips_dir");
    reveal_strlit("hotkey_mods");
    reveal_strlit("hotkey_vk");
}

/// The keys that are written.
spec fn is_key(k: Seq<char>) -> bool {
    ||| k == "clip_seconds"@
    ||| k == "target_height"@
    ||| k == "monitor"@
    ||| k == "fps"@
    ||| k == "bitrate_mbps"@
    ||| k == "gop_seconds"@
    ||| k == "capture_cursor"@
    ||| k == "backend"@
    ||| k == "mic"@
    ||| k == "clips_dir"@
    ||| k == "hotkey_mods"@
    ||| k == "hotkey_vk"@
}

/// A flag is written as a value that a line can hold, and it is read back.
proof fn lemma_flag_value(b: bool)
    ensures
        plain_value(flag_text(b)),
        b == (flag_text(b) == "true"@),
{
    reveal_strlit("true");
    reveal_strlit("false");
    assert("true"@.len() != "false"@.len());
}

/// A backend's name is a value that a line can hold.
proof fn lemma_backend_value(s: Seq<char>)
    requires
        backend_ok(s),
    ensures
        plain_value(s),
{
    reveal_strlit("auto");
    reveal_strlit("wgc");
    reveal_strlit("dxgi");
}

/// A text that left the settings `m` leaves them `next` with one more line, if the
/// line makes `m` into `next`.
proof fn lemma_read_back(
    base: ConfigModel,
    s: Seq<char>,
    m: ConfigModel,
    key: Seq<char>,
    value: Seq<char>,
    next: ConfigModel,
) -> (t: Seq<char>)
    requires
        whole_lines(s),
        with_text(base, s) == m,
        is_key(key),
        plain_value(value),
        with_setting(m, key, value) == next,
    ensures
        t == s + entry(key, value),
        whole_lines(t),
        with_text(base, t) == next,
{
    lemma_keys();
    lemma_entry(base, s, key, value);
    s + entry(key, value)
}

/// Law: what is written is read back. Whatever settings `base` a program starts
/// from, reading the file that holds `c` leaves it with `c`.
pub proof fn law_round_trip(base: ConfigModel, c: ConfigModel)
    requires
        c.storable(),
    ensures
        with_text(base, serialized(c)) == c,
{
    lemma_number_value(c.clip_seconds);
    lemma_number_value(c.target_height);
    lemma_number_value(c.monitor);
    lemma_number_value(c.fps);
    lemma_number_value(c.bitrate_mbps);
    lemma_number_value(c.gop_seconds);
    lemma_number_value(c.hotkey_mods);
    lemma_number_value(c.hotkey_vk);
    lemma_flag_value(c.capture_cursor);
    lemma_backend_value(c.backend);

    lemma_keys();

    let title = "# Instant Replay configuration"@;
    let s0 = title.push('\n');
    assert(with_text(base, s0) == base) by {
        reveal_strlit("# Instant Replay configuration");
        lemma_with_text_line(base, title);
        lemma_trimmed_fixed(title);
    }
    let m1 = ConfigModel { clip_seconds: c.clip_seconds, ..base };
    let s1 = lemma_read_back(base, s0, base, "clip_seconds"@, decimal(c.clip_seconds as nat), m1);
    let m2 = ConfigModel { target_height: c.target_height, ..m1 };
    let s2 = lemma_read_back(base, s1, m1, "target_height"@, decimal(c.target_height as nat), m2);
    let m3 = ConfigModel { monitor: c.monitor, ..m2 };
    let s3 = lemma_read_back(base, s2, m2, "monitor"@, decimal(c.monitor as nat), m3);
    let m4 = ConfigModel { fps: c.fps, ..m3 };
    let s4 = lemma_read_back(base, s3, m3, "fps"@, decimal(c.fps as nat), m4);
    let m5 = ConfigModel { bitrate_mbps: c.bitrate_mbps, ..m4 };
    let s5 = lemma_read_back(base, s4, m4, "bitrate_mbps"@, decimal(c.bitrate_mbps as nat), m5);
    let m6 = ConfigModel { gop_seconds: c.gop_seconds, ..m5 };
    let s6 = lemma_read_back(base, s5, m5, "gop_seconds"@, decimal(c.gop_seconds as nat), m6);
    let m7 = ConfigModel { capture_cursor: c.capture_cursor, ..m6 };
    let s7 = lemma_read_back(base, s6, m6, "capture_cursor"@, flag_text(c.capture_cursor), m7);
    let m8 = ConfigModel { backend: c.backend, ..m7 };
    let s8 = lemma_read_back(base, s7, m7, "backend"@, c.backend, m8);
    let m9 = ConfigModel { mic: c.mic, ..m8 };
    let s9 = lemma_read_back(base, s8, m8, "mic"@, c.mic, m9);
    let m10 = ConfigModel { clips_dir: c.clips_dir, ..m9 };
    let s10 = lemma_read_back(base, s9, m9, "clips_dir"@, c.clips_dir, m10);
    let m11 = ConfigModel { hotkey_mods: c.hotkey_mods, ..m10 };
    let s11 = lemma_read_back(base, s10, m10, "hotkey_mods"@, decimal(c.hotkey_mods as nat), m11);
    let m12 = ConfigModel { hotkey_vk: c.hotkey_vk, ..m11 };
    let s12 = lemma_read_back(base, s11, m11, "hotkey_vk"@, decimal(c.hotkey_vk as nat), m12);
}

/// Trimming keeps a stretch of the text, without white space at its ends.
proof fn lemma_trimmed_part(s: Seq<char>)
    ensures
        trimmed(s).len() > 0 ==> !is_white(trimmed(s)[0]) && !is_white(trimmed(s).last()),
        forall|c: char| #[trigger] trimmed(s).contains(c) ==> s.contains(c),
{
    lemma_trim_start_part(s);
    lemma_trim_end_part(trim_start(s));
}

proof fn lemma_trim_start_part(s: Seq<char>)
    ensures
        trim_start(s).len() > 0 ==> !is_white(trim_start(s)[0]),
        forall|c: char| #[trigger] trim_start(s).contains(c) ==> s.contains(c),
    decreases s.len(),
{
    if s.len() > 0 && is_white(s[0]) {
        lemma_trim_start_part(s.skip(1));
        assert forall|c: char| #[trigger] trim_start(s).contains(c) implies s.contains(c) by {
            let i = choose|i: int| 0 <= i < s.skip(1).len() && s.skip(1)[i] == c;
            assert(s[i + 1] == c);
        }
    }
}

proof fn lemma_trim_end_part(s: Seq<char>)
    ensures
        trim_end(s).len() > 0 ==> !is_white(trim_end(s).last()) && trim_end(s)[0] == s[0],
        forall|c: char| #[trigger] trim_end(s).contains(c) ==> s.contains(c),
    decreases s.len(),
{
    if s.len() > 0 && is_white(s.last()) {
        lemma_trim_end_part(s.drop_last());
        assert forall|c: char| #[trigger] trim_end(s).contains(c) implies s.contains(c) by {
            let i = choose|i: int| 0 <= i < s.drop_last().len() && s.drop_last()[i] == c;
            assert(s[i] == c);
        }
    }
}

/// A line leaves storable settings storable.
proof fn lemma_with_line_storable(c: ConfigModel, line: Seq<char>)
    requires
        c.storable(),
        !line.contains('\n'),
    ensures
        with_line(c, line).storable(),
{
    let l = trimmed(line);
    lemma_trimmed_part(line);
    assert(!l.contains('\n'));
    lemma_first_index_range(l, '=');
    let eq = first_index(l, '=');
    if l.len() > 0 && l[0] != '#' && eq < l.len() {
        let raw = l.skip(eq + 1);
        let v = trimmed(raw);
        lemma_trimmed_part(raw);
        assert(!raw.contains('\n')) by {
            if raw.contains('\n') {
                let i = choose|i: int| 0 <= i < raw.len() && raw[i] == '\n';
                assert(l[i + eq + 1] == '\n');
            }
        }
        assert(!v.contains('\n'));
        assert(v.len() > 0 ==> plain_value(v)) by {
            assert forall|i: int| 0 <= i < v.len() implies v[i] != '\n' by {
                assert(v.contains(v[i]));
            }
        }
    }
}

/// Law: whatever a file holds, the settings read from it are ones that every
/// setting takes and that the file can hold.
pub proof fn law_read_is_storable(base: ConfigModel, text: Seq<char>)
    requires
        base.storable(),
    ensures
        with_text(base, text).storable(),
    decreases text.len(),
{
    lemma_first_index_range(text, '\n');
    let nl = first_index(text, '\n');
    if nl >= text.len() {
        lemma_with_line_storable(base, text);
    } else {
        lemma_with_line_storable(base, text.take(nl));
        law_read_is_storable(with_line(base, text.take(nl)), text.skip(nl + 1));
    }
}

/// Law: writing down what was read and reading it again changes nothing.
pub proof fn law_rewrite_is_stable(base: ConfigModel, text: Seq<char>)
    requires
        base.storable(),
    ensures
        with_text(base, serialized(with_text(base, text))) == with_text(base, text),
{
    law_read_is_storable(base, text);
    law_round_trip(base, with_text(base, text));
}

/// Law: the settings that hold without a file are storable wherever the clips
/// folder is.
pub proof fn law_default_is_storable(clips_dir: Seq<char>)
    requires
        plain_value(clips_dir),
    ensures
        default_model(clips_dir).storable(),
{
    reveal_strlit("default");
}

/// What became of the settings `c` and `d`, in `c2` and `d2`: each of them either
/// has the same value now, or has been left alone.
pub open spec fn set_or_left(
    c: ConfigModel,
    d: ConfigModel,
    c2: ConfigModel,
    d2: ConfigModel,
) -> bool {
    &&& c2.clip_seconds == d2.clip_seconds || (c2.clip_seconds == c.clip_seconds
        && d2.clip_seconds == d.clip_seconds)
    &&& c2.target_height == d2.target_height || (c2.target_height == c.target_height && d2.target_height == d.target_height)
    &&& c2.monitor == d2.monitor || (c2.monitor == c.monitor && d2.monitor == d.monitor)
    &&& c2.fps == d2.fps || (c2.fps == c.fps && d2.fps == d.fps)
    &&& c2.bitrate_mbps == d2.bitrate_mbps || (c2.bitrate_mbps == c.bitrate_mbps && d2.bitrate_mbps == d.bitrate_mbps)
    &&& c2.gop_seconds == d2.gop_seconds || (c2.gop_seconds == c.gop_seconds && d2.gop_seconds == d.gop_seconds)
    &&& c2.capture_cursor == d2.capture_cursor || (c2.capture_cursor == c.capture_cursor && d2.capture_cursor == d.capture_cursor)
    &&& c2.backend == d2.backend || (c2.backend == c.backend && d2.backend == d.backend)
    &&& c2.mic == d2.mic || (c2.mic == c.mic && d2.mic == d.mic)
    &&& c2.clips_dir == d2.clips_dir || (c2.clips_dir == c.clips_dir && d2.clips_dir == d.clips_dir)
    &&& c2.hotkey_mods == d2.hotkey_mods || (c2.hotkey_mods == c.hotkey_mods && d2.hotkey_mods == d.hotkey_mods)
    &&& c2.hotkey_vk == d2.hotkey_vk || (c2.hotkey_vk == c.hotkey_vk && d2.hotkey_vk == d.hotkey_vk)
}

/// Law: the last assignment that is accepted wins. What a text makes of a setting
/// does not depend on what was there before it is read: either it leaves the
/// setting alone, or it gives it a value of its own.
pub proof fn law_last_assignment_wins(c: ConfigModel, d: ConfigModel, text: Seq<char>)
    ensures
        set_or_left(c, d, with_text(c, text), with_text(d, text)),
    decreases text.len(),
{
    lemma_first_index_range(text, '\n');
    let nl = first_index(text, '\n');
    let line = if nl >= text.len() {
        text
    } else {
        text.take(nl)
    };
    assert(set_or_left(c, d, with_line(c, line), with_line(d, line)));
    if nl < text.len() {
        law_last_assignment_wins(with_line(c, line), with_line(d, line), text.skip(nl + 1));
    }
}

/// Law: an empty file says nothing.
pub proof fn law_empty_text(base: ConfigModel)
    ensures
        with_text(base, Seq::empty()) == base,
{
    assert(first_index(Seq::<char>::empty(), '\n') == 0);
    assert(trimmed(Seq::<char>::empty()) == Seq::<char>::empty());
}

/// Law: a clip length is 15, 30 or 60 seconds. A file that says so
/// is followed, one that says another number or no number changes nothing, and no
/// other setting is touched.
pub proof fn law_file_sets_clip_seconds(c: ConfigModel, n: u32, other: Seq<char>)
    requires
        parsed_number(other, 0xFFFF_FFFF) is None,
    ensures
        n == 15 || n == 30 || n == 60 ==> with_setting(c, "clip_seconds"@, decimal(n as nat)) == (ConfigModel {
            clip_seconds: n,
            ..c
        }),
        !(n == 15 || n == 30 || n == 60) ==> with_setting(c, "clip_seconds"@, decimal(n as nat)) == c,
        with_setting(c, "clip_seconds"@, other) == c,
{
    lemma_keys();
    lemma_number_value(n);
}

/// Law: a height is zero for native, 720, 1080, 1440 or 2160. A file that says so
/// is followed, one that says another number or no number changes nothing, and no
/// other setting is touched.
pub proof fn law_file_sets_target_height(c: ConfigModel, n: u32, other: Seq<char>)
    requires
        parsed_number(other, 0xFFFF_FFFF) is None,
    ensures
        n == 0 || n == 720 || n == 1080 || n == 1440 || n == 2160 ==> with_setting(c, "target_height"@, decimal(n as nat)) == (ConfigModel {
            target_height: n,
            ..c
        }),
        !(n == 0 || n == 720 || n == 1080 || n == 1440 || n == 2160) ==> with_setting(c, "target_height"@, decimal(n as nat)) == c,
        with_setting(c, "target_height"@, other) == c,
{
    lemma_keys();
    lemma_number_value(n);
}

/// Law: a monitor is zero for the primary one, or one of the first eight. A file that says so
/// is followed, one that says another number or no number changes nothing, and no
/// other setting is touched.
pub proof fn law_file_sets_monitor(c: ConfigModel, n: u32, other: Seq<char>)
    requires
        parsed_number(other, 0xFFFF_FFFF) is None,
    ensures
        n <= 8 ==> with_setting(c, "monitor"@, decimal(n as nat)) == (ConfigModel {
            monitor: n,
            ..c
        }),
        !(n <= 8) ==> with_setting(c, "monitor"@, decimal(n as nat)) == c,
        with_setting(c, "monitor"@, other) == c,
{
    lemma_keys();
    lemma_number_value(n);
}

/// Law: a frame rate is from 10 to 240. A file that says so
/// is followed, one that says another number or no number changes nothing, and no
/// other setting is touched.
pub proof fn law_file_sets_fps(c: ConfigModel, n: u32, other: Seq<char>)
    requires
        parsed_number(other, 0xFFFF_FFFF) is None,
    ensures
        10 <= n <= 240 ==> with_setting(c, "fps"@, decimal(n as nat)) == (ConfigModel {
            fps: n,
            ..c
        }),
        !(10 <= n <= 240) ==> with_setting(c, "fps"@, decimal(n as nat)) == c,
        with_setting(c, "fps"@, other) == c,
{
    lemma_keys();
    lemma_number_value(n);
}

/// Law: a bitrate is from 1 to 100 megabits. A file that says so
/// is followed, one that says another number or no number changes nothing, and no
/// other setting is touched.
pub proof fn law_file_sets_bitrate_mbps(c: ConfigModel, n: u32, other: Seq<char>)
    requires
        parsed_number(other, 0xFFFF_FFFF) is None,
    ensures
        1 <= n <= 100 ==> with_setting(c, "bitrate_mbps"@, decimal(n as nat)) == (ConfigModel {
            bitrate_mbps: n,
            ..c
        }),
        !(1 <= n <= 100) ==> with_setting(c, "bitrate_mbps"@, decimal(n as nat)) == c,
        with_setting(c, "bitrate_mbps"@, other) == c,
{
    lemma_keys();
    lemma_number_value(n);
}

/// Law: keyframes are from one second to ten apart. A file that says so
/// is followed, one that says another number or no number changes nothing, and no
/// other setting is touched.
pub proof fn law_file_sets_gop_seconds(c: ConfigModel, n: u32, other: Seq<char>)
    requires
        parsed_number(other, 0xFFFF_FFFF) is None,
    ensures
        1 <= n <= 10 ==> with_setting(c, "gop_seconds"@, decimal(n as nat)) == (ConfigModel {
            gop_seconds: n,
            ..c
        }),
        !(1 <= n <= 10) ==> with_setting(c, "gop_seconds"@, decimal(n as nat)) == c,
        with_setting(c, "gop_seconds"@, other) == c,
{
    lemma_keys();
    lemma_number_value(n);
}

/// Law: the modifiers of the hotkey are any number. A file that says so
/// is followed, one that says another number or no number changes nothing, and no
/// other setting is touched.
pub proof fn law_file_sets_hotkey_mods(c: ConfigModel, n: u32, other: Seq<char>)
    requires
        parsed_number(other, 0xFFFF_FFFF) is None,
    ensures
        true ==> with_setting(c, "hotkey_mods"@, decimal(n as nat)) == (ConfigModel {
            hotkey_mods: n,
            ..c
        }),
        !(true) ==> with_setting(c, "hotkey_mods"@, decimal(n as nat)) == c,
        with_setting(c, "hotkey_mods"@, other) == c,
{
    lemma_keys();
    lemma_number_value(n);
}

/// Law: the key of the hotkey is any number. A file that says so
/// is followed, one that says another number or no number changes nothing, and no
/// other setting is touched.
pub proof fn law_file_sets_hotkey_vk(c: ConfigModel, n: u32, other: Seq<char>)
    requires
        parsed_number(other, 0xFFFF_FFFF) is None,
    ensures
        true ==> with_setting(c, "hotkey_vk"@, decimal(n as nat)) == (ConfigModel {
            hotkey_vk: n,
            ..c
        }),
        !(true) ==> with_setting(c, "hotkey_vk"@, decimal(n as nat)) == c,
        with_setting(c, "hotkey_vk"@, other) == c,
{
    lemma_keys();
    lemma_number_value(n);
}

/// Law: the word that older files have for the resolution means the native one if it
/// is true, and 1080 if it is anything else.
pub proof fn law_file_sets_native_resolution(c: ConfigModel, v: Seq<char>)
    ensures
        with_setting(c, "native_resolution"@, "true"@).target_height == 0,
        v != "true"@ ==> with_setting(c, "native_resolution"@, v).target_height == 1080,
        with_setting(c, "native_resolution"@, v) == (ConfigModel {
            target_height: with_setting(c, "native_resolution"@, v).target_height,
            ..c
        }),
{
    lemma_keys();
}

/// Law: the cursor is recorded if the file says `true`, and not if it says anything
/// else.
pub proof fn law_file_sets_capture_cursor(c: ConfigModel, v: Seq<char>)
    ensures
        with_setting(c, "capture_cursor"@, "true"@) == (ConfigModel { capture_cursor: true, ..c }),
        v != "true"@ ==> with_setting(c, "capture_cursor"@, v) == (ConfigModel {
            capture_cursor: false,
            ..c
        }),
{
    lemma_keys();
}

/// Law: the backend is one of three names, the microphone and the folder are any text
/// but an empty one; another value changes nothing, and no other setting is touched.
pub proof fn law_file_sets_texts(c: ConfigModel, v: Seq<char>)
    ensures
        v == "auto"@ || v == "wgc"@ || v == "dxgi"@ ==> with_setting(c, "backend"@, v) == (
        ConfigModel { backend: v, ..c }),
        v != "auto"@ && v != "wgc"@ && v != "dxgi"@ ==> with_setting(c, "backend"@, v) == c,
        v.len() > 0 ==> with_setting(c, "mic"@, v) == (ConfigModel { mic: v, ..c }),
        v.len() == 0 ==> with_setting(c, "mic"@, v) == c,
        v.len() > 0 ==> with_setting(c, "clips_dir"@, v) == (ConfigModel { clips_dir: v, ..c }),
        v.len() == 0 ==> with_setting(c, "clips_dir"@, v) == c,
{
    lemma_keys();
}

/// Law: a key that is none of the thirteen changes nothing.
pub proof fn law_unknown_keys_change_nothing(c: ConfigModel, k: Seq<char>, v: Seq<char>)
    requires
        k != "clip_seconds"@ && k != "target_height"@ && k != "monitor"@ && k
            != "native_resolution"@ && k != "fps"@ && k != "bitrate_mbps"@ && k != "gop_seconds"@
            && k != "capture_cursor"@ && k != "backend"@ && k != "mic"@ && k != "clips_dir"@ && k
            != "hotkey_mods"@ && k != "hotkey_vk"@,
    ensures
        with_setting(c, k, v) == c,
{
}

/// White space around a text is cut off.
proof fn lemma_trimmed_inside(a: Seq<char>, x: Seq<char>, b: Seq<char>)
    requires
        forall|i: int| 0 <= i < a.len() ==> is_white(#[trigger] a[i]),
        forall|i: int| 0 <= i < b.len() ==> is_white(#[trigger] b[i]),
        x.len() > 0,
        !is_white(x[0]) && !is_white(x.last()),
    ensures
        trimmed(a + x + b) == x,
{
    let s = a + x + b;
    let (lo, hi) = law_trimming_cuts_white_space(s);
    if lo < a.len() {
        if lo < hi {
            assert(s[lo] == a[lo]);
            assert(is_white(a[lo]));
        } else {
            assert(s[a.len() as int] == x[0]);
        }
    }
    if lo > a.len() {
        assert(is_white(s[a.len() as int]));
        assert(s[a.len() as int] == x[0]);
    }
    let end = a.len() + x.len();
    if hi > end {
        assert(s[hi - 1] == b[hi - 1 - end]);
        assert(is_white(b[hi - 1 - end]));
    }
    if hi < end {
        assert(is_white(s[end - 1]));
        assert(s[end - 1] == x.last());
    }
    assert(s.subrange(lo, hi) =~= x);
}

/// Law: a line gives its key its value, with or without white space around either. A
/// value may hold an equals sign; a key may not.
pub proof fn law_lines_give_keys_values(
    c: ConfigModel,
    key: Seq<char>,
    value: Seq<char>,
    around: Seq<Seq<char>>,
)
    requires
        around.len() == 4,
        forall|k: int, i: int|
            0 <= k < 4 && 0 <= i < around[k].len() ==> is_white(#[trigger] around[k][i]),
        key.len() > 0 && !is_white(key[0]) && !is_white(key.last()) && key[0] != '#',
        forall|i: int| 0 <= i < key.len() ==> key[i] != '=',
        value.len() > 0 && !is_white(value[0]) && !is_white(value.last()),
    ensures
        with_line(
            c,
            around[0] + (key + around[1] + seq!['='] + around[2] + value) + around[3],
        ) == with_setting(c, key, value),
{
    let x = key + around[1] + seq!['='] + around[2] + value;
    let line = around[0] + x + around[3];
    assert(x[0] == key[0]);
    assert(x.last() == value.last());
    lemma_trimmed_inside(around[0], x, around[3]);
    let eq = (key.len() + around[1].len()) as int;
    assert(x[eq] == '=');
    assert forall|j: int| 0 <= j < eq implies x[j] != '=' by {
        if j < key.len() {
            assert(x[j] == key[j]);
        } else {
            assert(x[j] == around[1][j - key.len()]);
            assert(is_white(around[1][j - key.len()]));
        }
    }
    lemma_first_index(x, '=', eq);
    let none = Seq::<char>::empty();
    assert(x.take(eq) =~= none + key + around[1]);
    assert(x.skip(eq + 1) =~= around[2] + value + none);
    lemma_trimmed_inside(none, key, around[1]);
    lemma_trimmed_inside(around[2], value, none);
}

/// Law: a line that is blank, a comment, or without an equals sign changes nothing.
pub proof fn law_other_lines_change_nothing(c: ConfigModel, a: Seq<char>, line: Seq<char>)
    requires
        forall|i: int| 0 <= i < a.len() ==> is_white(#[trigger] a[i]),
    ensures
        with_line(c, a) == c,
        line.len() > 0 && line[0] == '#' ==> with_line(c, a + line) == c,
        (forall|i: int| 0 <= i < line.len() ==> line[i] != '=') ==> with_line(c, line) == c,
{
    let (lo, hi) = law_trimming_cuts_white_space(a);
    if lo < hi {
        assert(is_white(a[lo]));
    }
    if line.len() > 0 && line[0] == '#' {
        let s = a + line;
        let (p, q) = law_trimming_cuts_white_space(s);
        assert(s[a.len() as int] == '#');
        assert(!is_white('#'));
        if p < a.len() && p < q {
            assert(s[p] == a[p]);
            assert(is_white(a[p]));
        }
        if p > a.len() {
            assert(is_white(s[a.len() as int]));
        }
        if q <= a.len() {
            assert(is_white(s[a.len() as int]));
        }
        assert(trimmed(s)[0] == '#');
    }
    if forall|i: int| 0 <= i < line.len() ==> line[i] != '=' {
        let (p, q) = law_trimming_cuts_white_space(line);
        let l = trimmed(line);
        assert forall|j: int| 0 <= j < l.len() implies l[j] != '=' by {
            assert(l[j] == line[p + j]);
        }
        lemma_first_index(l, '=', l.len() as int);
    }
}

/// Law: a text of one line is that line, with or without a line break behind it.
pub proof fn law_texts_are_lines(c: ConfigModel, line: Seq<char>)
    requires
        forall|i: int| 0 <= i < line.len() ==> line[i] != '\n',
    ensures
        with_text(c, line) == with_line(c, line),
        with_text(c, line.push('\n')) == with_line(c, line),
{
    lemma_with_text_line(c, line);
    lemma_first_index(line, '\n', line.len() as int);
}

/// Law: without a file the clip is 30 seconds at 1080 lines, 60 frames a second and
/// 15 megabits, with a keyframe every two seconds, of the primary monitor with its
/// cursor and the default microphone; the capture backend is chosen by itself, and
/// Alt and C save.
pub proof fn law_defaults(clips_dir: Seq<char>)
    ensures
        ({
            let c = default_model(clips_dir);
            &&& c.clip_seconds == 30 && c.target_height == 1080 && c.monitor == 0
            &&& c.fps == 60 && c.bitrate_mbps == 15 && c.gop_seconds == 2
            &&& c.capture_cursor
            &&& c.backend == "auto"@ && c.mic == "default"@
            &&& c.clips_dir == clips_dir
            &&& c.hotkey_mods == 1 && c.hotkey_vk == 67
        }),
{
}

/// Law: clips go into a folder `Clips` below the videos folder that was found, or
/// below the working folder where none was.
pub proof fn law_clips_go_below_the_videos(videos: Option<Seq<char>>)
    requires
        videos matches Some(v) ==> v.len() > 2 && v[0] != '\\' && v.last() != '\\' && v.last()
            != '/',
    ensures
        videos is None ==> clips_dir_in(videos) == seq!['.', '\\', 'C', 'l', 'i', 'p', 's'],
        videos matches Some(v) ==> clips_dir_in(videos) == v + seq![
            '\\',
            'C',
            'l',
            'i',
            'p',
            's',
        ],
{
    reveal_strlit(".");
    reveal_strlit("Clips");
    match videos {
        Some(v) => {
            assert(clips_dir_in(videos) =~= v + seq!['\\', 'C', 'l', 'i', 'p', 's']);
        },
        None => {
            assert(clips_dir_in(videos) =~= seq!['.', '\\', 'C', 'l', 'i', 'p', 's']);
        },
    }
}

/// Law: which settings a file can hold, in numbers.
pub proof fn law_what_files_can_hold(c: ConfigModel)
    ensures
        c.storable() <==> {
            &&& c.clip_seconds == 15 || c.clip_seconds == 30 || c.clip_seconds == 60
            &&& c.target_height == 0 || c.target_height == 720 || c.target_height == 1080
                || c.target_height == 1440 || c.target_height == 2160
            &&& c.monitor <= 8
            &&& 10 <= c.fps <= 240
            &&& 1 <= c.bitrate_mbps <= 100
            &&& 1 <= c.gop_seconds <= 10
            &&& c.backend == "auto"@ || c.backend == "wgc"@ || c.backend == "dxgi"@
            &&& c.mic.len() > 0 && !is_white(c.mic[0]) && !is_white(c.mic.last()) && (forall|
                i: int,
            |
                0 <= i < c.mic.len() ==> c.mic[i] != '\n')
            &&& c.clips_dir.len() > 0 && !is_white(c.clips_dir[0]) && !is_white(c.clips_dir.last())
                && (forall|i: int| 0 <= i < c.clips_dir.len() ==> c.clips_dir[i] != '\n')
        },
{
}

/// Law: the running view has what the configuration has; of the backend it has a
/// number: one for WGC, two for DXGI, and zero for any other.
pub proof fn law_running_views_follow(c: ConfigModel)
    ensures
        ({
            let r = running(c);
            &&& r.clip_seconds == c.clip_seconds && r.target_height == c.target_height
            &&& r.monitor == c.monitor && r.capture_cursor == c.capture_cursor
            &&& r.fps == c.fps && r.bitrate_mbps == c.bitrate_mbps && r.gop_seconds == c.gop_seconds
            &&& r.mic == c.mic && r.clips_dir == c.clips_dir
            &&& c.backend == "wgc"@ ==> r.backend == 1
            &&& c.backend == "dxgi"@ ==> r.backend == 2
            &&& c.backend != "wgc"@ && c.backend != "dxgi"@ ==> r.backend == 0
        }),
{
    reveal_strlit("wgc");
    reveal_strlit("dxgi");
    assert("wgc"@.len() != "dxgi"@.len());
}

/// Law: a file begins with a comment and ends a line.
pub proof fn law_files_are_whole_lines(c: ConfigModel)
    ensures
        serialized(c)[0] == '#',
        serialized(c).last() == '\n',
{
    reveal_strlit("# Instant Replay configuration");
}

} // verus!
