//! The tray icon: its menu, what a choice in it does, the hotkey, and the
//! notifications that wait to be shown.

use crate::config::{
    law_round_trip, plain_value, running, serialized, with_text, Config, ConfigModel,
    RuntimeConfig, RuntimeModel, QUALITY_CHOICES, RES_CHOICES,
};
use crate::d3d::MonitorInfo;
use crate::supervisor::{Balloon, Ctl};
use crate::text::{
    chars_of, decimal, numeral, push_decimal, push_padded, same_text, string_of, utf16, wide,
    zero_padded,
};
use std::collections::VecDeque;
use vstd::prelude::*;
use vstd::slice::slice_subrange;

verus! {

// ---------------------------------------------------------------------------
// The hotkey
// ---------------------------------------------------------------------------

/// The modifier bit that keeps a held key from repeating.
pub const MOD_NOREPEAT: u32 = 0x4000;

/// The virtual key of F9.
pub const VK_F9: u32 = 0x78;

/// The words in front of a hotkey's key.
pub open spec fn modifier_words(mods: u32) -> Seq<char> {
    (if mods & crate::config::MOD_CONTROL != 0 {
        "Ctrl+"@
    } else {
        Seq::empty()
    }) + (if mods & crate::config::MOD_ALT != 0 {
        "Alt+"@
    } else {
        Seq::empty()
    }) + (if mods & crate::config::MOD_SHIFT != 0 {
        "Shift+"@
    } else {
        Seq::empty()
    })
}

/// The name of a key: function keys by their number, digits and letters by
/// themselves, others by their code.
pub open spec fn key_name(vk: u32) -> Seq<char> {
    if 0x70 <= vk <= 0x87 {
        "F"@ + decimal((vk - 0x6F) as nat)
    } else if 0x30 <= vk <= 0x5A {
        seq![(vk as u8) as char]
    } else {
        "0x"@ + zero_padded(numeral(vk as nat, 16), 2)
    }
}

/// A hotkey in words, such as `Ctrl+Alt+F9`.
pub fn hotkey_name(mods: u32, vk: u32) -> (s: String)
    ensures
        s@ == modifier_words(mods) + key_name(vk),
{
    let mut s = String::new();
    if mods & crate::config::MOD_CONTROL != 0 {
        s.append("Ctrl+");
    }
    if mods & crate::config::MOD_ALT != 0 {
        s.append("Alt+");
    }
    if mods & crate::config::MOD_SHIFT != 0 {
        s.append("Shift+");
    }
    assert(s@ =~= modifier_words(mods));
    if 0x70 <= vk && vk <= 0x87 {
        s.append("F");
        push_decimal(&mut s, (vk - 0x6F) as u64);
        assert(s@ =~= modifier_words(mods) + key_name(vk));
    } else if 0x30 <= vk && vk <= 0x5A {
        s.push(vk as u8 as char);
        assert(s@ =~= modifier_words(mods) + key_name(vk));
    } else {
        s.append("0x");
        push_padded(&mut s, vk as u64, 16, 2);
        assert(s@ =~= modifier_words(mods) + key_name(vk));
    }
    s
}

/// A hotkey as it is registered, and its name.
pub struct Hotkey {
    pub mods: u32,
    pub vk: u32,
    pub name: String,
}

/// The hotkey to try after `refused` others were taken by someone else: the one
/// that the user chose, then Ctrl+Alt+F9, then none.
pub fn hotkey_to_try(mods: u32, vk: u32, refused: u32) -> (r: Option<Hotkey>)
    ensures
        r is Some <==> refused < 2,
        refused == 0 ==> {
            &&& r->0.mods == mods | MOD_NOREPEAT
            &&& r->0.vk == vk
            &&& r->0.name@ == modifier_words(mods) + key_name(vk)
        },
        refused == 1 ==> {
            &&& r->0.mods == crate::config::MOD_CONTROL | crate::config::MOD_ALT | MOD_NOREPEAT
            &&& r->0.vk == VK_F9
            &&& r->0.name@ == "Ctrl+Alt+F9"@
        },
        refused == 0 ==> r->0.mods == mods | 0x4000,
        refused == 1 ==> r->0.mods == 2u32 | 1u32 | 0x4000u32 && r->0.vk == 0x78,
{
    if refused == 0 {
        Some(Hotkey { mods: mods | MOD_NOREPEAT, vk, name: hotkey_name(mods, vk) })
    } else if refused == 1 {
        Some(
            Hotkey {
                mods: crate::config::MOD_CONTROL | crate::config::MOD_ALT | MOD_NOREPEAT,
                vk: VK_F9,
                name: "Ctrl+Alt+F9".to_owned(),
            },
        )
    } else {
        None
    }
}

/// The text that the icon shows when it is pointed at.
pub fn tip(hotkey: &str) -> (s: String)
    ensures
        s@ == "Instant Replay — "@ + hotkey@ + " saves clip"@,
{
    let mut s = "Instant Replay — ".to_owned();
    s.append(hotkey);
    s.append(" saves clip");
    s
}

// ---------------------------------------------------------------------------
// Notifications
// ---------------------------------------------------------------------------

/// How many notifications wait at most.
pub const MAX_BALLOONS: usize = 8;

/// Notifications that wait to be shown, the oldest first.
pub struct BalloonQueue {
    balloons: VecDeque<Balloon>,
}

impl View for BalloonQueue {
    type V = Seq<Balloon>;

    closed spec fn view(&self) -> Seq<Balloon> {
        self.balloons@
    }
}

impl BalloonQueue {
    /// No more wait than may.
    pub open spec fn wf(&self) -> bool {
        self@.len() <= MAX_BALLOONS
    }

    /// An empty queue.
    pub fn new() -> (q: BalloonQueue)
        ensures
            q.wf(),
            q@.len() == 0,
    {
        BalloonQueue { balloons: VecDeque::new() }
    }

    /// Puts a notification behind the others. If there are too many, the oldest
    /// is dropped.
    pub fn notify(&mut self, title: &str, text: &str, error: bool)
        requires
            old(self).wf(),
        ensures
            final(self).wf(),
            final(self)@.len() > 0,
            final(self)@.last().title@ == title@,
            final(self)@.last().text@ == text@,
            final(self)@.last().error == error,
            final(self)@.drop_last() == if old(self)@.len() < MAX_BALLOONS {
                old(self)@
            } else {
                old(self)@.skip(1)
            },
            final(self)@.len() <= 8,
            old(self)@.len() < 8 ==> final(self)@.drop_last() == old(self)@,
            old(self)@.len() == 8 ==> final(self)@.drop_last() == old(self)@.skip(1),
    {
        self.balloons.push_back(
            Balloon { title: title.to_owned(), text: text.to_owned(), error },
        );
        if self.balloons.len() > MAX_BALLOONS {
            self.balloons.pop_front();
        }
        assert(self@.drop_last() =~= if old(self)@.len() < MAX_BALLOONS {
            old(self)@
        } else {
            old(self)@.skip(1)
        });
    }

    /// Takes the oldest notification.
    pub fn take(&mut self) -> (b: Option<Balloon>)
        requires
            old(self).wf(),
        ensures
            final(self).wf(),
            old(self)@.len() == 0 ==> b is None && final(self)@ == old(self)@,
            old(self)@.len() > 0 ==> b == Some(old(self)@[0]) && final(self)@ == old(self)@.skip(1),
    {
        let b = self.balloons.pop_front();
        assert(old(self)@.len() > 0 ==> self@ =~= old(self)@.skip(1));
        b
    }
}

// ---------------------------------------------------------------------------
// Autostart
// ---------------------------------------------------------------------------

/// The value that starts the program at `exe` with the session, in UTF-16 with a
/// terminating zero.
pub fn autostart_value(exe: &str) -> (v: Vec<u16>)
    ensures
        v@ == utf16("\""@ + exe@ + "\""@).push(0),
{
    let mut s = "\"".to_owned();
    s.append(exe);
    s.append("\"");
    wide(s.as_str())
}

/// The size of a UTF-16 value in bytes.
pub fn value_size(v: &Vec<u16>) -> (n: u32)
    requires
        v@.len() * 2 <= u32::MAX,
    ensures
        n == v@.len() * 2,
{
    v.len() as u32 * 2
}

// ---------------------------------------------------------------------------
// The menu
// ---------------------------------------------------------------------------

pub const IDM_SAVE: usize = 1001;

pub const IDM_OPEN_FOLDER: usize = 1002;

pub const IDM_LEN_15: usize = 1011;

pub const IDM_LEN_30: usize = 1012;

pub const IDM_LEN_60: usize = 1013;

pub const IDM_CURSOR: usize = 1022;

pub const IDM_AUTOSTART: usize = 1031;

/// The first of `RES_CHOICES`; the others follow.
pub const IDM_RES_BASE: usize = 1040;

/// The first of `QUALITY_CHOICES`; the others follow.
pub const IDM_Q_BASE: usize = 1050;

/// The primary monitor; the monitors follow by their numbers.
pub const IDM_MON_BASE: usize = 1060;

/// No microphone; the default one and the devices follow.
pub const IDM_MIC_BASE: usize = 1070;

/// How many microphones the menu lists at most.
pub const MIC_MAX_DEVICES: usize = 16;

/// How many monitors the menu lists at most.
pub const MAX_MONITORS: usize = 8;

pub const IDM_QUIT: usize = 1099;

/// A microphone: the id of its endpoint, and its name.
pub struct MicDevice {
    pub id: String,
    pub name: String,
}

/// A line of the menu that can be chosen.
pub struct Entry {
    pub id: usize,
    pub label: String,
    pub checked: bool,
}

/// An entry with its label as a character sequence.
#[verifier::ext_equal]
pub struct EntryModel {
    pub id: int,
    pub label: Seq<char>,
    pub checked: bool,
}

impl View for Entry {
    type V = EntryModel;

    open spec fn view(&self) -> EntryModel {
        EntryModel { id: self.id as int, label: self.label@, checked: self.checked }
    }
}

/// A line of the menu.
pub enum MenuItem {
    Entry(Entry),
    Separator,
    /// A menu of its own behind a label.
    Submenu(String, Vec<Entry>),
}

/// A line of the menu with its labels as character sequences.
#[verifier::ext_equal]
pub enum MenuItemModel {
    Entry(EntryModel),
    Separator,
    Submenu(Seq<char>, Seq<EntryModel>),
}

/// The entries of a menu, as models.
pub open spec fn entries(s: Seq<Entry>) -> Seq<EntryModel> {
    s.map_values(|e: Entry| e@)
}

impl View for MenuItem {
    type V = MenuItemModel;

    open spec fn view(&self) -> MenuItemModel {
        match *self {
            MenuItem::Entry(e) => MenuItemModel::Entry(e@),
            MenuItem::Separator => MenuItemModel::Separator,
            MenuItem::Submenu(label, v) => MenuItemModel::Submenu(label@, entries(v@)),
        }
    }
}

/// The lines of a menu, as models.
pub open spec fn items(s: Seq<MenuItem>) -> Seq<MenuItemModel> {
    s.map_values(|m: MenuItem| m@)
}

/// One entry.
pub open spec fn item(id: int, label: Seq<char>, checked: bool) -> EntryModel {
    EntryModel { id, label, checked }
}

/// The clip lengths.
pub open spec fn length_menu(cur: u32) -> Seq<EntryModel> {
    seq![
        item(IDM_LEN_15 as int, "15 s"@, cur == 15),
        item(IDM_LEN_30 as int, "30 s"@, cur == 30),
        item(IDM_LEN_60 as int, "60 s"@, cur == 60),
    ]
}

/// The name of a height.
pub open spec fn height_label(h: u32) -> Seq<char> {
    if h == 0 {
        "Native"@
    } else {
        decimal(h as nat) + "p"@
    }
}

/// The heights.
pub open spec fn resolution_menu(cur: u32) -> Seq<EntryModel> {
    Seq::new(
        RES_CHOICES@.len(),
        |i: int| item(IDM_RES_BASE + i, height_label(RES_CHOICES@[i]), cur == RES_CHOICES@[i]),
    )
}

/// A bitrate in tenths of megabytes a second, to the nearest, halves to even.
pub open spec fn rate_tenths(mbps: u32) -> int {
    let q = mbps as int * 5 / 4;
    let r = mbps as int * 5 % 4;
    if r > 2 || (r == 2 && q % 2 == 1) {
        q + 1
    } else {
        q
    }
}

/// The name of a bitrate, such as `High (3.1 MB/s)`.
pub open spec fn quality_label(mbps: u32, name: Seq<char>) -> Seq<char> {
    name + " ("@ + decimal((rate_tenths(mbps) / 10) as nat) + "."@ + decimal(
        (rate_tenths(mbps) % 10) as nat,
    ) + " MB/s)"@
}

/// The bitrates.
pub open spec fn quality_menu(cur: u32) -> Seq<EntryModel> {
    Seq::new(
        QUALITY_CHOICES@.len(),
        |i: int|
            item(
                IDM_Q_BASE + i,
                quality_label(QUALITY_CHOICES@[i].0, QUALITY_CHOICES@[i].1@),
                cur == QUALITY_CHOICES@[i].0,
            ),
    )
}

/// As many of `n` as the limit `max` leaves.
pub open spec fn at_most(n: nat, max: usize) -> nat {
    if n < max {
        n
    } else {
        max as nat
    }
}

/// The microphones.
pub open spec fn mic_menu(cur: Seq<char>, mics: Seq<MicDevice>) -> Seq<EntryModel> {
    seq![
        item(IDM_MIC_BASE as int, "No microphone"@, cur == "off"@),
        item(IDM_MIC_BASE + 1, "Default microphone"@, cur == "default"@),
    ] + Seq::new(
        at_most(mics.len(), MIC_MAX_DEVICES),
        |i: int| item(IDM_MIC_BASE + 2 + i, mics[i].name@, cur == mics[i].id@),
    )
}

/// A device name without the prefixes of the device namespace.
pub open spec fn short_name(s: Seq<char>) -> Seq<char>
    decreases s.len(),
{
    if s.len() >= 4 && s[0] == '\\' && s[1] == '\\' && s[2] == '.' && s[3] == '\\' {
        short_name(s.skip(4))
    } else {
        s
    }
}

/// The name of a monitor, such as `1: DISPLAY1 2560x1440 (primary)`.
pub open spec fn monitor_label(m: MonitorInfo) -> Seq<char> {
    decimal(m.index as nat) + ": "@ + short_name(m.name@) + " "@ + decimal(m.width as nat) + "x"@
        + decimal(m.height as nat) + (if m.primary {
        " (primary)"@
    } else {
        Seq::empty()
    })
}

/// The monitors.
pub open spec fn monitor_menu(cur: u32, monitors: Seq<MonitorInfo>) -> Seq<EntryModel> {
    seq![item(IDM_MON_BASE as int, "Default (primary)"@, cur == 0)] + Seq::new(
        at_most(monitors.len(), MAX_MONITORS),
        |i: int|
            item(
                IDM_MON_BASE + monitors[i].index,
                monitor_label(monitors[i]),
                cur == monitors[i].index,
            ),
    )
}

/// The whole menu.
pub open spec fn menu(
    rt: RuntimeModel,
    hotkey: Seq<char>,
    mics: Seq<MicDevice>,
    monitors: Seq<MonitorInfo>,
    autostart: bool,
) -> Seq<MenuItemModel> {
    seq![
        MenuItemModel::Entry(item(IDM_SAVE as int, "Save clip\t"@ + hotkey, false)),
        MenuItemModel::Entry(item(IDM_OPEN_FOLDER as int, "Open clips folder"@, false)),
        MenuItemModel::Separator,
        MenuItemModel::Submenu("Clip length"@, length_menu(rt.clip_seconds)),
        MenuItemModel::Submenu("Resolution"@, resolution_menu(rt.target_height)),
        MenuItemModel::Submenu("Quality"@, quality_menu(rt.bitrate_mbps)),
        MenuItemModel::Submenu("Microphone"@, mic_menu(rt.mic, mics)),
        MenuItemModel::Submenu("Monitor"@, monitor_menu(rt.monitor, monitors)),
        MenuItemModel::Entry(item(IDM_CURSOR as int, "Capture cursor"@, rt.capture_cursor)),
        MenuItemModel::Entry(item(IDM_AUTOSTART as int, "Start with Windows"@, autostart)),
        MenuItemModel::Separator,
        MenuItemModel::Entry(item(IDM_QUIT as int, "Quit"@, false)),
    ]
}

/// One more entry at the end is one more model.
proof fn lemma_entries_push(s: Seq<Entry>, e: Entry)
    ensures
        entries(s.push(e)) == entries(s).push(e@),
{
    assert(entries(s.push(e)) =~= entries(s).push(e@));
}

/// One entry with a fixed label.
fn entry(id: usize, label: &str, checked: bool) -> (e: Entry)
    ensures
        e@ == item(id as int, label@, checked),
{
    Entry { id, label: label.to_owned(), checked }
}

fn build_length_menu(cur: u32) -> (v: Vec<Entry>)
    ensures
        entries(v@) == length_menu(cur),
{
    let mut v: Vec<Entry> = Vec::new();
    v.push(entry(IDM_LEN_15, "15 s", cur == 15));
    v.push(entry(IDM_LEN_30, "30 s", cur == 30));
    v.push(entry(IDM_LEN_60, "60 s", cur == 60));
    assert(entries(v@) =~= length_menu(cur));
    v
}

fn build_resolution_menu(cur: u32) -> (v: Vec<Entry>)
    ensures
        entries(v@) == resolution_menu(cur),
{
    let mut v: Vec<Entry> = Vec::new();
    let mut i: usize = 0;
    while i < 4
        invariant
            i <= 4,
            RES_CHOICES@.len() == 4,
            entries(v@) == resolution_menu(cur).take(i as int),
        decreases 4 - i,
    {
        let h: u32 = RES_CHOICES[i];
        let mut label = String::new();
        if h == 0 {
            label.append("Native");
        } else {
            push_decimal(&mut label, h as u64);
            label.append("p");
        }
        assert(label@ =~= height_label(h));
        let ghost before = v@;
        v.push(Entry { id: IDM_RES_BASE + i, label, checked: cur == h });
        i += 1;
        proof {
            lemma_entries_push(before, v@.last());
            assert(before.push(v@.last()) =~= v@);
            assert(v@.last()@ =~= resolution_menu(cur)[i - 1]);
        }
        assert(entries(v@) =~= resolution_menu(cur).take(i as int));
    }
    assert(entries(v@) =~= resolution_menu(cur));
    v
}

fn build_quality_menu(cur: u32) -> (v: Vec<Entry>)
    ensures
        entries(v@) == quality_menu(cur),
{
    let mut v: Vec<Entry> = Vec::new();
    let mut i: usize = 0;
    while i < 3
        invariant
            i <= 3,
            QUALITY_CHOICES@.len() == 3,
            entries(v@) == quality_menu(cur).take(i as int),
        decreases 3 - i,
    {
        let (mbps, name) = QUALITY_CHOICES[i];
        let q: u64 = mbps as u64 * 5 / 4;
        let r: u64 = mbps as u64 * 5 % 4;
        let tenths: u64 = if r > 2 || (r == 2 && q % 2 == 1) {
            q + 1
        } else {
            q
        };
        assert(tenths == rate_tenths(mbps));
        let mut label = name.to_owned();
        label.append(" (");
        push_decimal(&mut label, tenths / 10);
        label.append(".");
        push_decimal(&mut label, tenths % 10);
        label.append(" MB/s)");
        assert(label@ =~= quality_label(mbps, name@));
        let ghost before = v@;
        v.push(Entry { id: IDM_Q_BASE + i, label, checked: cur == mbps });
        i += 1;
        proof {
            lemma_entries_push(before, v@.last());
            assert(before.push(v@.last()) =~= v@);
            assert(v@.last()@ =~= quality_menu(cur)[i - 1]);
        }
        assert(entries(v@) =~= quality_menu(cur).take(i as int));
    }
    assert(entries(v@) =~= quality_menu(cur));
    v
}

fn build_mic_menu(cur: &str, mics: &Vec<MicDevice>) -> (v: Vec<Entry>)
    ensures
        entries(v@) == mic_menu(cur@, mics@),
{
    let mut v: Vec<Entry> = Vec::new();
    v.push(entry(IDM_MIC_BASE, "No microphone", same_text(cur, "off")));
    v.push(entry(IDM_MIC_BASE + 1, "Default microphone", same_text(cur, "default")));
    let mut i: usize = 0;
    assert(entries(v@) =~= mic_menu(cur@, mics@).take(2));
    while i < mics.len() && i < MIC_MAX_DEVICES
        invariant
            i <= mics@.len(),
            i <= MIC_MAX_DEVICES,
            entries(v@) == mic_menu(cur@, mics@).take(i + 2),
        decreases mics@.len() - i,
    {
        let checked: bool = same_text(cur, mics[i].id.as_str());
        let ghost before = v@;
        v.push(entry(IDM_MIC_BASE + 2 + i, mics[i].name.as_str(), checked));
        i += 1;
        proof {
            lemma_entries_push(before, v@.last());
            assert(before.push(v@.last()) =~= v@);
            assert(v@.last()@ =~= mic_menu(cur@, mics@)[i + 1]);
        }
        assert(entries(v@) =~= mic_menu(cur@, mics@).take(i + 2));
    }
    assert(entries(v@) =~= mic_menu(cur@, mics@));
    v
}

/// A device name without the prefixes of the device namespace.
fn shorten(name: &str) -> (s: String)
    ensures
        s@ == short_name(name@),
{
    let v = chars_of(name);
    let mut i: usize = 0;
    assert(name@.skip(0) =~= name@);
    while v.len() - i >= 4 && v[i] == '\\' && v[i + 1] == '\\' && v[i + 2] == '.' && v[i + 3]
        == '\\'
        invariant
            i <= v@.len(),
            v@ == name@,
            short_name(name@.skip(i as int)) == short_name(name@),
        decreases v@.len() - i,
    {
        assert(name@.skip(i as int).skip(4) =~= name@.skip(i + 4));
        i += 4;
    }
    let rest = slice_subrange(v.as_slice(), i, v.len());
    assert(rest@ =~= name@.skip(i as int));
    string_of(rest)
}

fn build_monitor_menu(cur: u32, monitors: &Vec<MonitorInfo>) -> (v: Vec<Entry>)
    requires
        forall|i: int|
            0 <= i < monitors@.len() && i < MAX_MONITORS ==> IDM_MON_BASE + (
            #[trigger] monitors@[i]).index <= usize::MAX,
    ensures
        entries(v@) == monitor_menu(cur, monitors@),
{
    let mut v: Vec<Entry> = Vec::new();
    v.push(entry(IDM_MON_BASE, "Default (primary)", cur == 0));
    let mut i: usize = 0;
    assert(entries(v@) =~= monitor_menu(cur, monitors@).take(1));
    while i < monitors.len() && i < MAX_MONITORS
        invariant
            i <= monitors@.len(),
            i <= MAX_MONITORS,
            forall|j: int|
                0 <= j < monitors@.len() && j < MAX_MONITORS ==> IDM_MON_BASE + (
                #[trigger] monitors@[j]).index <= usize::MAX,
            entries(v@) == monitor_menu(cur, monitors@).take(i + 1),
        decreases monitors@.len() - i,
    {
        let m = &monitors[i];
        let mut label = String::new();
        push_decimal(&mut label, m.index as u64);
        label.append(": ");
        let name = shorten(m.name.as_str());
        label.append(name.as_str());
        label.append(" ");
        push_decimal(&mut label, m.width as u64);
        label.append("x");
        push_decimal(&mut label, m.height as u64);
        if m.primary {
            label.append(" (primary)");
        }
        assert(label@ =~= monitor_label(*m));
        let ghost before = v@;
        v.push(Entry { id: IDM_MON_BASE + m.index as usize, label, checked: cur == m.index });
        i += 1;
        proof {
            lemma_entries_push(before, v@.last());
            assert(before.push(v@.last()) =~= v@);
            assert(v@.last()@ =~= monitor_menu(cur, monitors@)[i as int]);
        }
        assert(entries(v@) =~= monitor_menu(cur, monitors@).take(i + 1));
    }
    assert(entries(v@) =~= monitor_menu(cur, monitors@));
    v
}

/// Lays out the menu.
pub fn build_menu(
    rt: &RuntimeConfig,
    hotkey: &str,
    mics: &Vec<MicDevice>,
    monitors: &Vec<MonitorInfo>,
    autostart: bool,
) -> (v: Vec<MenuItem>)
    requires
        forall|i: int|
            0 <= i < monitors@.len() && i < MAX_MONITORS ==> IDM_MON_BASE + (
            #[trigger] monitors@[i]).index <= usize::MAX,
    ensures
        items(v@) == menu(rt@, hotkey@, mics@, monitors@, autostart),
{
    let mut v: Vec<MenuItem> = Vec::new();
    let mut save = "Save clip\t".to_owned();
    save.append(hotkey);
    v.push(MenuItem::Entry(Entry { id: IDM_SAVE, label: save, checked: false }));
    v.push(MenuItem::Entry(entry(IDM_OPEN_FOLDER, "Open clips folder", false)));
    v.push(MenuItem::Separator);
    v.push(MenuItem::Submenu("Clip length".to_owned(), build_length_menu(rt.clip_seconds())));
    v.push(MenuItem::Submenu("Resolution".to_owned(), build_resolution_menu(rt.target_height())));
    v.push(MenuItem::Submenu("Quality".to_owned(), build_quality_menu(rt.bitrate_mbps)));
    v.push(MenuItem::Submenu("Microphone".to_owned(), build_mic_menu(rt.mic.as_str(), mics)));
    v.push(MenuItem::Submenu("Monitor".to_owned(), build_monitor_menu(rt.monitor(), monitors)));
    v.push(MenuItem::Entry(entry(IDM_CURSOR, "Capture cursor", rt.capture_cursor())));
    v.push(MenuItem::Entry(entry(IDM_AUTOSTART, "Start with Windows", autostart)));
    v.push(MenuItem::Separator);
    v.push(MenuItem::Entry(entry(IDM_QUIT, "Quit", false)));
    assert(items(v@) =~= menu(rt@, hotkey@, mics@, monitors@, autostart));
    v
}

// ---------------------------------------------------------------------------
// Choices
// ---------------------------------------------------------------------------

/// A setting and the value that was chosen for it.
pub enum Setting {
    ClipSeconds(u32),
    TargetHeight(u32),
    BitrateMbps(u32),
    Mic(String),
    Monitor(u32),
    CaptureCursor(bool),
}

/// A setting with its text as a character sequence.
#[verifier::ext_equal]
pub enum SettingModel {
    ClipSeconds(u32),
    TargetHeight(u32),
    BitrateMbps(u32),
    Mic(Seq<char>),
    Monitor(u32),
    CaptureCursor(bool),
}

impl View for Setting {
    type V = SettingModel;

    open spec fn view(&self) -> SettingModel {
        match *self {
            Setting::ClipSeconds(n) => SettingModel::ClipSeconds(n),
            Setting::TargetHeight(n) => SettingModel::TargetHeight(n),
            Setting::BitrateMbps(n) => SettingModel::BitrateMbps(n),
            Setting::Mic(s) => SettingModel::Mic(s@),
            Setting::Monitor(n) => SettingModel::Monitor(n),
            Setting::CaptureCursor(b) => SettingModel::CaptureCursor(b),
        }
    }
}

impl SettingModel {
    /// The running view once this is chosen.
    pub open spec fn applied(self, rt: RuntimeModel) -> RuntimeModel {
        match self {
            SettingModel::ClipSeconds(n) => RuntimeModel { clip_seconds: n, ..rt },
            SettingModel::TargetHeight(n) => RuntimeModel { target_height: n, ..rt },
            SettingModel::BitrateMbps(n) => RuntimeModel { bitrate_mbps: n, ..rt },
            SettingModel::Mic(s) => RuntimeModel { mic: s, ..rt },
            SettingModel::Monitor(n) => RuntimeModel { monitor: n, ..rt },
            SettingModel::CaptureCursor(b) => RuntimeModel { capture_cursor: b, ..rt },
        }
    }

    /// The configuration on disk once this is chosen.
    pub open spec fn stored(self, c: ConfigModel) -> ConfigModel {
        match self {
            SettingModel::ClipSeconds(n) => ConfigModel { clip_seconds: n, ..c },
            SettingModel::TargetHeight(n) => ConfigModel { target_height: n, ..c },
            SettingModel::BitrateMbps(n) => ConfigModel { bitrate_mbps: n, ..c },
            SettingModel::Mic(s) => ConfigModel { mic: s, ..c },
            SettingModel::Monitor(n) => ConfigModel { monitor: n, ..c },
            SettingModel::CaptureCursor(b) => ConfigModel { capture_cursor: b, ..c },
        }
    }
}

impl Setting {
    /// Changes the running view.
    pub fn apply(&self, rt: &mut RuntimeConfig)
        ensures
            final(rt)@ == self@.applied(old(rt)@),
    {
        match self {
            Setting::ClipSeconds(n) => rt.clip_seconds = *n,
            Setting::TargetHeight(n) => rt.target_height = *n,
            Setting::BitrateMbps(n) => rt.bitrate_mbps = *n,
            Setting::Mic(s) => rt.mic = s.clone(),
            Setting::Monitor(n) => rt.monitor = *n,
            Setting::CaptureCursor(b) => rt.capture_cursor = *b,
        }
    }

    /// Changes the configuration that is kept on disk.
    pub fn persist(&self, c: &mut Config)
        ensures
            final(c)@ == self@.stored(old(c)@),
    {
        match self {
            Setting::ClipSeconds(n) => c.clip_seconds = *n,
            Setting::TargetHeight(n) => c.target_height = *n,
            Setting::BitrateMbps(n) => c.bitrate_mbps = *n,
            Setting::Mic(s) => c.mic = s.clone(),
            Setting::Monitor(n) => c.monitor = *n,
            Setting::CaptureCursor(b) => c.capture_cursor = *b,
        }
    }

    /// What the supervisor is told about the change.
    pub fn message(&self) -> (m: Ctl)
        ensures
            match *self {
                Setting::ClipSeconds(n) => m == Ctl::SetClipLen(n),
                Setting::TargetHeight(_) => m matches Ctl::VideoRestart(why) && why@
                    == "resolution changed"@,
                Setting::BitrateMbps(_) => m matches Ctl::VideoRestart(why) && why@
                    == "quality changed"@,
                Setting::Mic(_) => m matches Ctl::AudioRestart(why) && why@
                    == "microphone changed"@,
                Setting::Monitor(_) => m matches Ctl::VideoRestart(why) && why@
                    == "monitor changed"@,
                Setting::CaptureCursor(b) => m == Ctl::CursorChanged(b),
            },
    {
        match self {
            Setting::ClipSeconds(n) => Ctl::SetClipLen(*n),
            Setting::TargetHeight(_) => Ctl::VideoRestart("resolution changed"),
            Setting::BitrateMbps(_) => Ctl::VideoRestart("quality changed"),
            Setting::Mic(_) => Ctl::AudioRestart("microphone changed"),
            Setting::Monitor(_) => Ctl::VideoRestart("monitor changed"),
            Setting::CaptureCursor(b) => Ctl::CursorChanged(*b),
        }
    }
}

/// What a choice in the menu asks for.
pub enum Command {
    Nothing,
    SaveClip,
    OpenFolder,
    Change(Setting),
    ToggleAutostart,
    Quit,
}

/// A command with its texts as character sequences.
#[verifier::ext_equal]
pub enum CommandModel {
    Nothing,
    SaveClip,
    OpenFolder,
    Change(SettingModel),
    ToggleAutostart,
    Quit,
}

impl View for Command {
    type V = CommandModel;

    open spec fn view(&self) -> CommandModel {
        match *self {
            Command::Nothing => CommandModel::Nothing,
            Command::SaveClip => CommandModel::SaveClip,
            Command::OpenFolder => CommandModel::OpenFolder,
            Command::Change(s) => CommandModel::Change(s@),
            Command::ToggleAutostart => CommandModel::ToggleAutostart,
            Command::Quit => CommandModel::Quit,
        }
    }
}

/// What the entry with the id `id` asks for, where the menu listed `mics` and the
/// cursor is recorded or not.
pub open spec fn command(id: int, mics: Seq<MicDevice>, cursor: bool) -> CommandModel {
    if id == IDM_SAVE {
        CommandModel::SaveClip
    } else if id == IDM_OPEN_FOLDER {
        CommandModel::OpenFolder
    } else if id == IDM_LEN_15 {
        CommandModel::Change(SettingModel::ClipSeconds(15))
    } else if id == IDM_LEN_30 {
        CommandModel::Change(SettingModel::ClipSeconds(30))
    } else if id == IDM_LEN_60 {
        CommandModel::Change(SettingModel::ClipSeconds(60))
    } else if IDM_RES_BASE <= id < IDM_RES_BASE + RES_CHOICES@.len() {
        CommandModel::Change(SettingModel::TargetHeight(RES_CHOICES@[id - IDM_RES_BASE]))
    } else if IDM_Q_BASE <= id < IDM_Q_BASE + QUALITY_CHOICES@.len() {
        CommandModel::Change(SettingModel::BitrateMbps(QUALITY_CHOICES@[id - IDM_Q_BASE].0))
    } else if id == IDM_MIC_BASE {
        CommandModel::Change(SettingModel::Mic("off"@))
    } else if id == IDM_MIC_BASE + 1 {
        CommandModel::Change(SettingModel::Mic("default"@))
    } else if IDM_MIC_BASE + 2 <= id < IDM_MIC_BASE + 2 + at_most(mics.len(), MIC_MAX_DEVICES) {
        CommandModel::Change(SettingModel::Mic(mics[id - IDM_MIC_BASE - 2].id@))
    } else if IDM_MON_BASE <= id <= IDM_MON_BASE + MAX_MONITORS {
        CommandModel::Change(SettingModel::Monitor((id - IDM_MON_BASE) as u32))
    } else if id == IDM_CURSOR {
        CommandModel::Change(SettingModel::CaptureCursor(!cursor))
    } else if id == IDM_AUTOSTART {
        CommandModel::ToggleAutostart
    } else if id == IDM_QUIT {
        CommandModel::Quit
    } else {
        CommandModel::Nothing
    }
}

/// Decides what a choice in the menu asks for.
pub fn on_command(id: usize, mics: &Vec<MicDevice>, cursor: bool) -> (c: Command)
    ensures
        c@ == command(id as int, mics@, cursor),
{
    if id == IDM_SAVE {
        Command::SaveClip
    } else if id == IDM_OPEN_FOLDER {
        Command::OpenFolder
    } else if id == IDM_LEN_15 {
        Command::Change(Setting::ClipSeconds(15))
    } else if id == IDM_LEN_30 {
        Command::Change(Setting::ClipSeconds(30))
    } else if id == IDM_LEN_60 {
        Command::Change(Setting::ClipSeconds(60))
    } else if IDM_RES_BASE <= id && id < IDM_RES_BASE + 4 {
        Command::Change(Setting::TargetHeight(RES_CHOICES[id - IDM_RES_BASE]))
    } else if IDM_Q_BASE <= id && id < IDM_Q_BASE + 3 {
        let (mbps, _name) = QUALITY_CHOICES[id - IDM_Q_BASE];
        Command::Change(Setting::BitrateMbps(mbps))
    } else if id == IDM_MIC_BASE {
        Command::Change(Setting::Mic("off".to_owned()))
    } else if id == IDM_MIC_BASE + 1 {
        Command::Change(Setting::Mic("default".to_owned()))
    } else if IDM_MIC_BASE + 2 <= id && id < IDM_MIC_BASE + 2 + MIC_MAX_DEVICES {
        let n: usize = id - IDM_MIC_BASE - 2;
        if n < mics.len() {
            Command::Change(Setting::Mic(mics[n].id.clone()))
        } else {
            Command::Nothing
        }
    } else if IDM_MON_BASE <= id && id <= IDM_MON_BASE + MAX_MONITORS {
        Command::Change(Setting::Monitor((id - IDM_MON_BASE) as u32))
    } else if id == IDM_CURSOR {
        Command::Change(Setting::CaptureCursor(!cursor))
    } else if id == IDM_AUTOSTART {
        Command::ToggleAutostart
    } else if id == IDM_QUIT {
        Command::Quit
    } else {
        Command::Nothing
    }
}

// ---------------------------------------------------------------------------
// The window behind the icon
// ---------------------------------------------------------------------------

/// The icon was clicked or pointed at.
pub const WM_APP_TRAY: u32 = 0x8001;

/// A notification waits.
pub const WM_APP_BALLOON: u32 = 0x8002;

pub const WM_DESTROY: u32 = 0x0002;

pub const WM_DISPLAYCHANGE: u32 = 0x007E;

pub const WM_COMMAND: u32 = 0x0111;

pub const WM_LBUTTONUP: u32 = 0x0202;

pub const WM_RBUTTONUP: u32 = 0x0205;

pub const WM_HOTKEY: u32 = 0x0312;

/// What the window does about a message.
#[derive(Debug)]
pub enum WindowAction {
    /// Nothing, and nobody else is asked.
    Ignore,
    ShowMenu,
    ShowBalloon,
    /// This is sent to the supervisor.
    Send(Ctl),
    /// The entry with this id was chosen.
    Command(usize),
    /// The icon and the state of the window go.
    TearDown,
    /// The taskbar is new, so the icon is put there again.
    AddIcon,
    /// The system decides.
    Default,
}

/// Decides what the window does about a message. `taskbar_created` is the number
/// of the message that tells of a new taskbar, zero if there is none; it is
/// `None` while the window has no state.
pub fn window_action(msg: u32, wparam: usize, lparam: isize, taskbar_created: Option<u32>) -> (a:
    WindowAction)
    ensures
        msg == WM_APP_TRAY ==> a == if taskbar_created is Some && (lparam as u32 == WM_RBUTTONUP
            || lparam as u32 == WM_LBUTTONUP) {
            WindowAction::ShowMenu
        } else {
            WindowAction::Ignore
        },
        msg == WM_APP_BALLOON ==> a == if taskbar_created is Some {
            WindowAction::ShowBalloon
        } else {
            WindowAction::Ignore
        },
        msg == WM_HOTKEY ==> a == if taskbar_created is Some {
            WindowAction::Send(Ctl::SaveClip)
        } else {
            WindowAction::Ignore
        },
        msg == WM_COMMAND ==> a == if taskbar_created is Some {
            WindowAction::Command(wparam & 0xFFFF)
        } else {
            WindowAction::Ignore
        },
        msg == WM_DISPLAYCHANGE ==> if taskbar_created is Some {
            a matches WindowAction::Send(Ctl::VideoRestart(why)) && why@
                == "display mode changed"@
        } else {
            a is Ignore
        },
        msg == WM_DESTROY ==> a == WindowAction::TearDown,
        msg != WM_APP_TRAY && msg != WM_APP_BALLOON && msg != WM_HOTKEY && msg != WM_COMMAND && msg
            != WM_DISPLAYCHANGE && msg != WM_DESTROY ==> a == if taskbar_created == Some(msg) && msg
            != 0 {
            WindowAction::AddIcon
        } else {
            WindowAction::Default
        },
{
    let has_state: bool = taskbar_created.is_some();
    if msg == WM_DESTROY {
        return WindowAction::TearDown;
    }
    if msg == WM_APP_TRAY || msg == WM_APP_BALLOON || msg == WM_HOTKEY || msg == WM_COMMAND || msg
        == WM_DISPLAYCHANGE {
        if !has_state {
            return WindowAction::Ignore;
        }
        if msg == WM_APP_TRAY {
            let event: u32 = lparam as u32;
            if event == WM_RBUTTONUP || event == WM_LBUTTONUP {
                return WindowAction::ShowMenu;
            }
            return WindowAction::Ignore;
        }
        if msg == WM_APP_BALLOON {
            return WindowAction::ShowBalloon;
        }
        if msg == WM_HOTKEY {
            return WindowAction::Send(Ctl::SaveClip);
        }
        if msg == WM_COMMAND {
            return WindowAction::Command(wparam & 0xFFFF);
        }
        return WindowAction::Send(Ctl::VideoRestart("display mode changed"));
    }
    match taskbar_created {
        Some(m) => if msg == m && msg != 0 {
            WindowAction::AddIcon
        } else {
            WindowAction::Default
        },
        None => WindowAction::Default,
    }
}

// ---------------------------------------------------------------------------
// Laws
// ---------------------------------------------------------------------------

/// The `k`-th entry is checked and no other one is.
pub open spec fn only_checked(m: Seq<EntryModel>, k: int) -> bool {
    &&& 0 <= k < m.len()
    &&& forall|j: int| 0 <= j < m.len() ==> ((#[trigger] m[j]).checked <==> j == k)
}

/// Law: choosing a clip length checks it, and it alone.
pub proof fn law_chosen_length_is_checked(rt: RuntimeModel, mics: Seq<MicDevice>, k: int)
    requires
        0 <= k < length_menu(rt.clip_seconds).len(),
    ensures
        command(length_menu(rt.clip_seconds)[k].id, mics, rt.capture_cursor) matches
            CommandModel::Change(s) && only_checked(length_menu(s.applied(rt).clip_seconds), k),
{
}

/// Law: choosing a resolution checks it, and it alone.
pub proof fn law_chosen_resolution_is_checked(rt: RuntimeModel, mics: Seq<MicDevice>, k: int)
    requires
        0 <= k < resolution_menu(rt.target_height).len(),
    ensures
        command(resolution_menu(rt.target_height)[k].id, mics, rt.capture_cursor) matches
            CommandModel::Change(s) && only_checked(resolution_menu(s.applied(rt).target_height), k),
{
}

/// Law: choosing a quality checks it, and it alone.
pub proof fn law_chosen_quality_is_checked(rt: RuntimeModel, mics: Seq<MicDevice>, k: int)
    requires
        0 <= k < quality_menu(rt.bitrate_mbps).len(),
    ensures
        command(quality_menu(rt.bitrate_mbps)[k].id, mics, rt.capture_cursor) matches
            CommandModel::Change(s) && only_checked(quality_menu(s.applied(rt).bitrate_mbps), k),
{
}

/// Law: choosing a microphone checks it; and it alone, if the ids of the devices
/// tell them apart.
pub proof fn law_chosen_mic_is_checked(rt: RuntimeModel, mics: Seq<MicDevice>, k: int)
    requires
        0 <= k < mic_menu(rt.mic, mics).len(),
    ensures
        command(mic_menu(rt.mic, mics)[k].id, mics, rt.capture_cursor) matches
            CommandModel::Change(s) && mic_menu(s.applied(rt).mic, mics)[k].checked && ((forall|
            i: int,
            j: int,
        |
            0 <= i < j < mics.len() ==> (#[trigger] mics[i]).id@ != (#[trigger] mics[j]).id@) && (
        forall|i: int|
            0 <= i < mics.len() ==> (#[trigger] mics[i]).id@ != "off"@ && mics[i].id@
                != "default"@) ==> only_checked(mic_menu(s.applied(rt).mic, mics), k)),
{
    reveal_strlit("off");
    reveal_strlit("default");
    assert("off"@.len() != "default"@.len());
}

/// Law: choosing one of the monitors that the menu lists checks it, and it alone.
pub proof fn law_chosen_monitor_is_checked(
    rt: RuntimeModel,
    mics: Seq<MicDevice>,
    monitors: Seq<MonitorInfo>,
    k: int,
)
    requires
        forall|i: int| 0 <= i < monitors.len() ==> (#[trigger] monitors[i]).index == i + 1,
        0 <= k < monitor_menu(rt.monitor, monitors).len(),
    ensures
        command(monitor_menu(rt.monitor, monitors)[k].id, mics, rt.capture_cursor) matches
            CommandModel::Change(s) && only_checked(
            monitor_menu(s.applied(rt).monitor, monitors),
            k,
        ),
{
}

/// Law: choosing to record the cursor turns its check mark round.
pub proof fn law_cursor_choice_toggles(rt: RuntimeModel, mics: Seq<MicDevice>)
    ensures
        command(IDM_CURSOR as int, mics, rt.capture_cursor) matches CommandModel::Change(s)
            && s.applied(rt).capture_cursor == !rt.capture_cursor,
{
}

/// Law: a choice survives a restart. The file that is written after it, read by a
/// program with whatever defaults, gives the running view that the choice made.
pub proof fn law_choice_survives_a_restart(
    base: ConfigModel,
    c: ConfigModel,
    id: int,
    mics: Seq<MicDevice>,
)
    requires
        c.storable(),
        forall|i: int| 0 <= i < mics.len() ==> plain_value((#[trigger] mics[i]).id@),
    ensures
        command(id, mics, c.capture_cursor) matches CommandModel::Change(s) ==> running(
            with_text(base, serialized(s.stored(c))),
        ) == s.applied(running(c)),
{
    match command(id, mics, c.capture_cursor) {
        CommandModel::Change(s) => {
            reveal_strlit("off");
            reveal_strlit("default");
            assert(plain_value("off"@));
            assert(plain_value("default"@));
            assert(s.stored(c).storable());
            law_round_trip(base, s.stored(c));
        },
        _ => {},
    }
}

/// Law: what each entry of the menu asks for, by its number. Numbers that no entry
/// has ask for nothing.
pub proof fn law_what_choices_do(id: int, mics: Seq<MicDevice>, cursor: bool)
    ensures
        id == 1001 <==> command(id, mics, cursor) is SaveClip,
        id == 1002 <==> command(id, mics, cursor) is OpenFolder,
        id == 1031 <==> command(id, mics, cursor) is ToggleAutostart,
        id == 1099 <==> command(id, mics, cursor) is Quit,
        id == 1011 ==> command(id, mics, cursor) == CommandModel::Change(
            SettingModel::ClipSeconds(15),
        ),
        id == 1012 ==> command(id, mics, cursor) == CommandModel::Change(
            SettingModel::ClipSeconds(30),
        ),
        id == 1013 ==> command(id, mics, cursor) == CommandModel::Change(
            SettingModel::ClipSeconds(60),
        ),
        id == 1022 ==> command(id, mics, cursor) == CommandModel::Change(
            SettingModel::CaptureCursor(!cursor),
        ),
        id == 1040 ==> command(id, mics, cursor) == CommandModel::Change(
            SettingModel::TargetHeight(0),
        ),
        id == 1041 ==> command(id, mics, cursor) == CommandModel::Change(
            SettingModel::TargetHeight(1440),
        ),
        id == 1042 ==> command(id, mics, cursor) == CommandModel::Change(
            SettingModel::TargetHeight(1080),
        ),
        id == 1043 ==> command(id, mics, cursor) == CommandModel::Change(
            SettingModel::TargetHeight(720),
        ),
        id == 1050 ==> command(id, mics, cursor) == CommandModel::Change(
            SettingModel::BitrateMbps(25),
        ),
        id == 1051 ==> command(id, mics, cursor) == CommandModel::Change(
            SettingModel::BitrateMbps(15),
        ),
        id == 1052 ==> command(id, mics, cursor) == CommandModel::Change(
            SettingModel::BitrateMbps(8),
        ),
        1060 <= id <= 1068 ==> command(id, mics, cursor) == CommandModel::Change(
            SettingModel::Monitor((id - 1060) as u32),
        ),
        id == 1070 ==> command(id, mics, cursor) == CommandModel::Change(SettingModel::Mic("off"@)),
        id == 1071 ==> command(id, mics, cursor) == CommandModel::Change(
            SettingModel::Mic("default"@),
        ),
        1072 <= id < 1088 && id - 1072 < mics.len() ==> command(id, mics, cursor)
            == CommandModel::Change(SettingModel::Mic(mics[id - 1072].id@)),
        1072 <= id < 1088 && id - 1072 >= mics.len() ==> command(id, mics, cursor) is Nothing,
        id < 1001 || 1002 < id < 1011 || 1013 < id < 1022 || 1022 < id < 1031 || 1031 < id < 1040
            || 1043 < id < 1050 || 1052 < id < 1060 || id == 1069 || 1088 <= id < 1099 || id > 1099
            ==> command(id, mics, cursor) is Nothing,
{
}

/// Law: a choice gives one setting the value that was chosen and leaves the others as
/// they are, and it does to the configuration on disk what it does to the running
/// view.
pub proof fn law_choices_change_one_setting(s: SettingModel, rt: RuntimeModel, c: ConfigModel)
    ensures
        running(s.stored(c)) == s.applied(running(c)),
        s.stored(c).hotkey_mods == c.hotkey_mods && s.stored(c).hotkey_vk == c.hotkey_vk,
        s.stored(c).backend == c.backend,
        ({
            let t = s.applied(rt);
            &&& t.fps == rt.fps && t.gop_seconds == rt.gop_seconds && t.backend == rt.backend
                && t.clips_dir == rt.clips_dir
            &&& s matches SettingModel::ClipSeconds(n) ==> t.clip_seconds == n
            &&& s !is ClipSeconds ==> t.clip_seconds == rt.clip_seconds
            &&& s matches SettingModel::TargetHeight(n) ==> t.target_height == n
            &&& s !is TargetHeight ==> t.target_height == rt.target_height
            &&& s matches SettingModel::BitrateMbps(n) ==> t.bitrate_mbps == n
            &&& s !is BitrateMbps ==> t.bitrate_mbps == rt.bitrate_mbps
            &&& s matches SettingModel::Mic(id) ==> t.mic == id
            &&& s !is Mic ==> t.mic == rt.mic
            &&& s matches SettingModel::Monitor(n) ==> t.monitor == n
            &&& s !is Monitor ==> t.monitor == rt.monitor
            &&& s matches SettingModel::CaptureCursor(b) ==> t.capture_cursor == b
            &&& s !is CaptureCursor ==> t.capture_cursor == rt.capture_cursor
        }),
{
}

/// Law: a rate in tenths of megabytes is the nearest to an eighth of the megabits; of
/// two that are as near, the even one.
pub proof fn law_rates_are_rounded(mbps: u32)
    ensures
        -4 <= 8 * rate_tenths(mbps) - 10 * mbps <= 4,
        8 * rate_tenths(mbps) - 10 * mbps == 4 ==> rate_tenths(mbps) % 2 == 0,
        8 * rate_tenths(mbps) - 10 * mbps == -4 ==> rate_tenths(mbps) % 2 == 0,
{
}

/// Law: which lines the menu has, and in which order.
pub proof fn law_how_the_menu_is_laid_out(
    rt: RuntimeModel,
    hotkey: Seq<char>,
    mics: Seq<MicDevice>,
    monitors: Seq<MonitorInfo>,
    autostart: bool,
)
    ensures
        ({
            let m = menu(rt, hotkey, mics, monitors, autostart);
            &&& m.len() == 12
            &&& m[0] matches MenuItemModel::Entry(e) && e.id == 1001 && e.label == "Save clip\t"@
                + hotkey && !e.checked
            &&& m[1] matches MenuItemModel::Entry(e) && e.id == 1002 && e.label
                == "Open clips folder"@ && !e.checked
            &&& m[2] is Separator
            &&& m[3] matches MenuItemModel::Submenu(name, sub) && name == "Clip length"@ && sub
                == length_menu(rt.clip_seconds)
            &&& m[4] matches MenuItemModel::Submenu(name, sub) && name == "Resolution"@ && sub
                == resolution_menu(rt.target_height)
            &&& m[5] matches MenuItemModel::Submenu(name, sub) && name == "Quality"@ && sub
                == quality_menu(rt.bitrate_mbps)
            &&& m[6] matches MenuItemModel::Submenu(name, sub) && name == "Microphone"@ && sub
                == mic_menu(rt.mic, mics)
            &&& m[7] matches MenuItemModel::Submenu(name, sub) && name == "Monitor"@ && sub
                == monitor_menu(rt.monitor, monitors)
            &&& m[8] matches MenuItemModel::Entry(e) && e.id == 1022 && e.label
                == "Capture cursor"@ && e.checked == rt.capture_cursor
            &&& m[9] matches MenuItemModel::Entry(e) && e.id == 1031 && e.label
                == "Start with Windows"@ && e.checked == autostart
            &&& m[10] is Separator
            &&& m[11] matches MenuItemModel::Entry(e) && e.id == 1099 && e.label == "Quit"@
                && !e.checked
        }),
{
}

/// Law: the menus of lengths, heights and bitrates offer what can be chosen, and check
/// the value that is set.
pub proof fn law_fixed_menus(cur: u32)
    ensures
        ({
            let m = length_menu(cur);
            &&& m.len() == 3
            &&& m[0].id == 1011 && m[0].label == "15 s"@ && (m[0].checked <==> cur == 15)
            &&& m[1].id == 1012 && m[1].label == "30 s"@ && (m[1].checked <==> cur == 30)
            &&& m[2].id == 1013 && m[2].label == "60 s"@ && (m[2].checked <==> cur == 60)
        }),
        ({
            let m = resolution_menu(cur);
            &&& m.len() == 4
            &&& m[0].id == 1040 && m[0].label == "Native"@ && (m[0].checked <==> cur == 0)
            &&& m[1].id == 1041 && m[1].label == decimal(1440) + "p"@ && (m[1].checked <==> cur
                == 1440)
            &&& m[2].id == 1042 && m[2].label == decimal(1080) + "p"@ && (m[2].checked <==> cur
                == 1080)
            &&& m[3].id == 1043 && m[3].label == decimal(720) + "p"@ && (m[3].checked <==> cur
                == 720)
        }),
        ({
            let m = quality_menu(cur);
            &&& m.len() == 3
            &&& m[0].id == 1050 && m[0].label == "High"@ + " ("@ + decimal(3) + "."@ + decimal(1)
                + " MB/s)"@ && (m[0].checked <==> cur == 25)
            &&& m[1].id == 1051 && m[1].label == "Medium"@ + " ("@ + decimal(1) + "."@ + decimal(9)
                + " MB/s)"@ && (m[1].checked <==> cur == 15)
            &&& m[2].id == 1052 && m[2].label == "Low"@ + " ("@ + decimal(1) + "."@ + decimal(0)
                + " MB/s)"@ && (m[2].checked <==> cur == 8)
        }),
{
}

/// Law: the menu of microphones offers none, the default one, and the first sixteen
/// devices in their order, each under its name.
pub proof fn law_microphones_are_listed(cur: Seq<char>, mics: Seq<MicDevice>)
    ensures
        ({
            let m = mic_menu(cur, mics);
            &&& m.len() == 2 + if mics.len() < 16 {
                mics.len() as int
            } else {
                16
            }
            &&& m[0].id == 1070 && m[0].label == "No microphone"@ && (m[0].checked <==> cur
                == "off"@)
            &&& m[1].id == 1071 && m[1].label == "Default microphone"@ && (m[1].checked <==> cur
                == "default"@)
            &&& forall|i: int|
                2 <= i < m.len() ==> (#[trigger] m[i]).id == 1070 + i && m[i].label == mics[i
                    - 2].name@ && (m[i].checked <==> cur == mics[i - 2].id@)
        }),
{
}

/// Law: the menu of monitors offers the primary one and the first eight by their
/// numbers, each with its short name and its size.
pub proof fn law_monitors_are_listed(cur: u32, monitors: Seq<MonitorInfo>)
    ensures
        ({
            let m = monitor_menu(cur, monitors);
            &&& m.len() == 1 + if monitors.len() < 8 {
                monitors.len() as int
            } else {
                8
            }
            &&& m[0].id == 1060 && m[0].label == "Default (primary)"@ && (m[0].checked <==> cur
                == 0)
            &&& forall|i: int|
                1 <= i < m.len() ==> {
                    let o = monitors[i - 1];
                    let label = decimal(o.index as nat) + ": "@ + short_name(o.name@) + " "@
                        + decimal(o.width as nat) + "x"@ + decimal(o.height as nat);
                    &&& (#[trigger] m[i]).id == 1060 + o.index
                    &&& m[i].checked <==> cur == o.index
                    &&& o.primary ==> m[i].label == label + " (primary)"@
                    &&& !o.primary ==> m[i].label == label
                }
        }),
{
    let m = monitor_menu(cur, monitors);
    assert forall|i: int| 1 <= i < m.len() implies ({
        let o = monitors[i - 1];
        let label = decimal(o.index as nat) + ": "@ + short_name(o.name@) + " "@ + decimal(
            o.width as nat,
        ) + "x"@ + decimal(o.height as nat);
        &&& (#[trigger] m[i]).id == 1060 + o.index
        &&& m[i].checked <==> cur == o.index
        &&& o.primary ==> m[i].label == label + " (primary)"@
        &&& !o.primary ==> m[i].label == label
    }) by {
        let o = monitors[i - 1];
        let label = decimal(o.index as nat) + ": "@ + short_name(o.name@) + " "@ + decimal(
            o.width as nat,
        ) + "x"@ + decimal(o.height as nat);
        assert(m[i] == item(IDM_MON_BASE + o.index, monitor_label(o), cur == o.index));
        assert(label + Seq::<char>::empty() =~= label);
    }
}

/// Law: a short name is what is left of a name when the device prefix is cut off its
/// front as often as it stands there.
pub proof fn law_short_names(s: Seq<char>) -> (n: int)
    ensures
        0 <= 4 * n <= s.len(),
        short_name(s) == s.skip(4 * n),
        forall|i: int|
            0 <= i < 4 * n ==> #[trigger] s[i] == (if i % 4 == 2 {
                '.'
            } else {
                '\\'
            }),
        s.len() >= 4 * n + 4 ==> !(s[4 * n] == '\\' && s[4 * n + 1] == '\\' && s[4 * n + 2]
            == '.' && s[4 * n + 3] == '\\'),
    decreases s.len(),
{
    if s.len() >= 4 && s[0] == '\\' && s[1] == '\\' && s[2] == '.' && s[3] == '\\' {
        let t = s.skip(4);
        let n = law_short_names(t);
        assert(t.skip(4 * n) =~= s.skip(4 * (n + 1)));
        assert forall|i: int| 0 <= i < 4 * (n + 1) implies #[trigger] s[i] == (if i % 4 == 2 {
            '.'
        } else {
            '\\'
        }) by {
            if i >= 4 {
                assert(t[i - 4] == s[i]);
            }
        }
        if s.len() >= 4 * (n + 1) + 4 {
            assert(t[4 * n] == s[4 * n + 4]);
            assert(t[4 * n + 1] == s[4 * n + 5]);
            assert(t[4 * n + 2] == s[4 * n + 6]);
            assert(t[4 * n + 3] == s[4 * n + 7]);
        }
        n + 1
    } else {
        assert(s.skip(0) =~= s);
        0
    }
}

/// Law: a hotkey is named by the modifiers that it has, Ctrl before Alt before Shift,
/// and by its key. The others of its bits are not named.
pub proof fn law_modifiers_are_named(mods: u32)
    ensures
        ({
            let ctrl = if mods & 2 != 0 {
                "Ctrl+"@
            } else {
                Seq::empty()
            };
            let alt = if mods & 1 != 0 {
                "Alt+"@
            } else {
                Seq::empty()
            };
            let shift = if mods & 4 != 0 {
                "Shift+"@
            } else {
                Seq::empty()
            };
            modifier_words(mods) == ctrl + alt + shift
        }),
{
}

/// Law: the function keys F1 to F24 are named by their number, the keys from `0` to
/// `Z` by the character of their code, and others by their code in two or more
/// hexadecimal digits.
pub proof fn law_keys_are_named(vk: u32)
    ensures
        0x70 <= vk <= 0x87 ==> key_name(vk) == "F"@ + decimal((vk - 0x70 + 1) as nat),
        0x30 <= vk <= 0x5A ==> key_name(vk).len() == 1 && key_name(vk)[0] as u32 == vk,
        vk < 0x30 || 0x5A < vk < 0x70 || vk > 0x87 ==> key_name(vk) == "0x"@ + zero_padded(
            numeral(vk as nat, 16),
            2,
        ),
{
}

/// Law: the numbers of the messages are those that the system sends.
pub proof fn law_messages_have_their_numbers()
    ensures
        WM_DESTROY == 0x0002 && WM_DISPLAYCHANGE == 0x007E && WM_COMMAND == 0x0111,
        WM_LBUTTONUP == 0x0202 && WM_RBUTTONUP == 0x0205 && WM_HOTKEY == 0x0312,
        WM_APP_TRAY == 0x8001 && WM_APP_BALLOON == 0x8002,
{
}

} // verus!
