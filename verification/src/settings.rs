//! Player settings that the rules read: display resolutions, the names of
//! keys, and the key bound to each action.
use crate::text::{chars_of, decimal, push_char, push_decimal, same_text};
use vstd::prelude::*;

verus! {

/// The display resolutions offered for an aspect ratio, smallest first; an
/// unknown ratio offers 1280×720 alone.
pub open spec fn resolutions_of(ratio: Seq<char>) -> Seq<(u32, u32)> {
    if ratio == "16:9"@ {
        seq![(1280u32, 720u32), (1920, 1080), (2560, 1440), (3840, 2160)]
    } else if ratio == "16:10"@ {
        seq![(1280u32, 800u32), (1920, 1200), (2560, 1600), (3840, 2400)]
    } else if ratio == "4:3"@ {
        seq![(1024u32, 768u32), (1280, 960), (1600, 1200), (2048, 1536)]
    } else if ratio == "21:9"@ {
        seq![(2560u32, 1080u32), (3440, 1440), (5120, 2160)]
    } else {
        seq![(1280u32, 720u32)]
    }
}

fn resolutions_from(list: &[(u32, u32)]) -> (v: Vec<(u32, u32)>)
    ensures
        v@ == list@,
{
    let mut v: Vec<(u32, u32)> = Vec::new();
    let mut i: usize = 0;
    while i < list.len()
        invariant
            0 <= i <= list.len(),
            v@ == list@.take(i as int),
        decreases list.len() - i,
    {
        v.push(list[i]);
        assert(list@.take(i + 1) =~= list@.take(i as int).push(list@[i as int]));
        i += 1;
    }
    assert(list@.take(list.len() as int) =~= list@);
    v
}

/// The display resolutions offered for an aspect ratio such as `16:9`.
pub fn resolutions_for_ratio(ratio: &str) -> (v: Vec<(u32, u32)>)
    ensures
        v@ == resolutions_of(ratio@),
{
    if same_text(ratio, "16:9") {
        let a = [(1280u32, 720u32), (1920, 1080), (2560, 1440), (3840, 2160)];
        assert(a@ =~= seq![(1280u32, 720u32), (1920, 1080), (2560, 1440), (3840, 2160)]);
        resolutions_from(&a)
    } else if same_text(ratio, "16:10") {
        let a = [(1280u32, 800u32), (1920, 1200), (2560, 1600), (3840, 2400)];
        assert(a@ =~= seq![(1280u32, 800u32), (1920, 1200), (2560, 1600), (3840, 2400)]);
        resolutions_from(&a)
    } else if same_text(ratio, "4:3") {
        let a = [(1024u32, 768u32), (1280, 960), (1600, 1200), (2048, 1536)];
        assert(a@ =~= seq![(1024u32, 768u32), (1280, 960), (1600, 1200), (2048, 1536)]);
        resolutions_from(&a)
    } else if same_text(ratio, "21:9") {
        let a = [(2560u32, 1080u32), (3440, 1440), (5120, 2160)];
        assert(a@ =~= seq![(2560u32, 1080u32), (3440, 1440), (5120, 2160)]);
        resolutions_from(&a)
    } else {
        let a = [(1280u32, 720u32)];
        assert(a@ =~= seq![(1280u32, 720u32)]);
        resolutions_from(&a)
    }
}

/// The resolution kept when the aspect ratio changes: the current one if the
/// new ratio offers it, else the first the new ratio offers.
pub open spec fn resolution_after(ratio: Seq<char>, current: (u32, u32)) -> (u32, u32) {
    if resolutions_of(ratio).contains(current) {
        current
    } else {
        resolutions_of(ratio)[0]
    }
}

/// The resolution to use after the aspect ratio changes to `ratio`.
pub fn resolution_after_ratio_change(ratio: &str, current: (u32, u32)) -> (r: (u32, u32))
    ensures
        r == resolution_after(ratio@, current),
{
    let list = resolutions_for_ratio(ratio);
    assert(list@.len() >= 1);
    let mut i: usize = 0;
    while i < list.len()
        invariant
            0 <= i <= list.len(),
            list@ == resolutions_of(ratio@),
            forall|j: int| 0 <= j < i ==> list@[j] != current,
        decreases list.len() - i,
    {
        if list[i].0 == current.0 && list[i].1 == current.1 {
            assert(list@[i as int] == current);
            return current;
        }
        i += 1;
    }
    assert(!list@.contains(current));
    list[0]
}

/// A resolution as `width×height`.
pub fn resolution_label(res: (u32, u32)) -> (s: String)
    ensures
        s@ == decimal(res.0 as nat) + seq!['\u{d7}'] + decimal(res.1 as nat),
{
    let mut s = String::new();
    push_decimal(&mut s, res.0 as u128);
    push_char(&mut s, '\u{d7}');
    push_decimal(&mut s, res.1 as u128);
    s
}

/// The upper-case form of an ASCII letter; any other character is itself.
pub open spec fn ascii_upper(c: char) -> char {
    if 'a' <= c && c <= 'z' {
        ((c as int) - 32) as char
    } else {
        c
    }
}

/// The lower-case form of an ASCII letter; any other character is itself.
pub open spec fn ascii_lower(c: char) -> char {
    if 'A' <= c && c <= 'Z' {
        ((c as int) + 32) as char
    } else {
        c
    }
}

/// How a stored key name is shown: a space as `Space`, a single ASCII
/// character in upper case, anything else as it is.
pub open spec fn display_name(key: Seq<char>) -> Seq<char> {
    if key == " "@ {
        "Space"@
    } else if key.len() == 1 && (key[0] as u32) < 0x80 {
        seq![ascii_upper(key[0])]
    } else {
        key
    }
}

fn upper_ascii_char(c: char) -> (u: char)
    ensures
        u == ascii_upper(c),
{
    if 'a' <= c && c <= 'z' {
        (((c as u32) - 32) as u8) as char
    } else {
        c
    }
}

/// The name of a key as the settings screen shows it.
pub fn key_display_name(key: &str) -> (s: String)
    ensures
        s@ == display_name(key@),
{
    if same_text(key, " ") {
        return "Space".to_owned();
    }
    let cs = chars_of(key);
    if cs.len() == 1 && (cs[0] as u32) < 0x80 {
        let mut s = String::new();
        push_char(&mut s, upper_ascii_char(cs[0]));
        return s;
    }
    key.to_owned()
}

// ---------------------------------------------------------------------------
// Keys
// ---------------------------------------------------------------------------

/// The named keys that can be bound.
#[derive(Debug, Clone, Copy, PartialEq, Eq, Structural)]
pub enum NamedKey {
    Space,
    ArrowLeft,
    ArrowRight,
    ArrowUp,
    ArrowDown,
    Shift,
    Control,
    Alt,
    Tab,
    Escape,
    Enter,
    Backspace,
    Delete,
    F1,
    F2,
    F3,
    F4,
    F5,
    F6,
    F7,
    F8,
    F9,
    F10,
    F11,
    F12,
}

/// A key as the keyboard reports it: a named key, the text a key types, or
/// any other key.
#[derive(Debug, Clone)]
pub enum Key {
    Named(NamedKey),
    Character(String),
    Other,
}

/// The stored name of a named key: a space for the space bar, else its name.
pub open spec fn named_key_name(k: NamedKey) -> Seq<char> {
    match k {
        NamedKey::Space => " "@,
        NamedKey::ArrowLeft => "ArrowLeft"@,
        NamedKey::ArrowRight => "ArrowRight"@,
        NamedKey::ArrowUp => "ArrowUp"@,
        NamedKey::ArrowDown => "ArrowDown"@,
        NamedKey::Shift => "Shift"@,
        NamedKey::Control => "Control"@,
        NamedKey::Alt => "Alt"@,
        NamedKey::Tab => "Tab"@,
        NamedKey::Escape => "Escape"@,
        NamedKey::Enter => "Enter"@,
        NamedKey::Backspace => "Backspace"@,
        NamedKey::Delete => "Delete"@,
        NamedKey::F1 => "F1"@,
        NamedKey::F2 => "F2"@,
        NamedKey::F3 => "F3"@,
        NamedKey::F4 => "F4"@,
        NamedKey::F5 => "F5"@,
        NamedKey::F6 => "F6"@,
        NamedKey::F7 => "F7"@,
        NamedKey::F8 => "F8"@,
        NamedKey::F9 => "F9"@,
        NamedKey::F10 => "F10"@,
        NamedKey::F11 => "F11"@,
        NamedKey::F12 => "F12"@,
    }
}

/// The name a key is stored under: the typed text of a character key, the
/// name of a named key, `Unknown` for any other.
pub open spec fn key_name(key: Key) -> Seq<char> {
    match key {
        Key::Named(k) => named_key_name(k),
        Key::Character(s) => s@,
        Key::Other => "Unknown"@,
    }
}

fn named_key_text(k: NamedKey) -> (s: String)
    ensures
        s@ == named_key_name(k),
{
    match k {
        NamedKey::Space => " ".to_owned(),
        NamedKey::ArrowLeft => "ArrowLeft".to_owned(),
        NamedKey::ArrowRight => "ArrowRight".to_owned(),
        NamedKey::ArrowUp => "ArrowUp".to_owned(),
        NamedKey::ArrowDown => "ArrowDown".to_owned(),
        NamedKey::Shift => "Shift".to_owned(),
        NamedKey::Control => "Control".to_owned(),
        NamedKey::Alt => "Alt".to_owned(),
        NamedKey::Tab => "Tab".to_owned(),
        NamedKey::Escape => "Escape".to_owned(),
        NamedKey::Enter => "Enter".to_owned(),
        NamedKey::Backspace => "Backspace".to_owned(),
        NamedKey::Delete => "Delete".to_owned(),
        NamedKey::F1 => "F1".to_owned(),
        NamedKey::F2 => "F2".to_owned(),
        NamedKey::F3 => "F3".to_owned(),
        NamedKey::F4 => "F4".to_owned(),
        NamedKey::F5 => "F5".to_owned(),
        NamedKey::F6 => "F6".to_owned(),
        NamedKey::F7 => "F7".to_owned(),
        NamedKey::F8 => "F8".to_owned(),
        NamedKey::F9 => "F9".to_owned(),
        NamedKey::F10 => "F10".to_owned(),
        NamedKey::F11 => "F11".to_owned(),
        NamedKey::F12 => "F12".to_owned(),
    }
}

/// The name a key is stored under in the settings.
pub fn key_to_string(key: &Key) -> (s: String)
    ensures
        s@ == key_name(*key),
{
    match key {
        Key::Named(k) => named_key_text(*k),
        Key::Character(s) => s.clone(),
        Key::Other => "Unknown".to_owned(),
    }
}

/// The two texts are equal once ASCII letters are put in lower case.
pub open spec fn eq_ignore_ascii_case(a: Seq<char>, b: Seq<char>) -> bool {
    a.len() == b.len() && forall|i: int| 0 <= i < a.len() ==> ascii_lower(#[trigger] a[i])
        == ascii_lower(b[i])
}

fn lower_ascii_char(c: char) -> (l: char)
    ensures
        l == ascii_lower(c),
{
    if 'A' <= c && c <= 'Z' {
        (((c as u32) + 32) as u8) as char
    } else {
        c
    }
}

pub(crate) fn same_ignoring_ascii_case(a: &str, b: &str) -> (r: bool)
    ensures
        r == eq_ignore_ascii_case(a@, b@),
{
    let x = chars_of(a);
    let y = chars_of(b);
    if x.len() != y.len() {
        return false;
    }
    let mut i: usize = 0;
    while i < x.len()
        invariant
            0 <= i <= x.len() == y.len(),
            x@ == a@,
            y@ == b@,
            forall|j: int| 0 <= j < i ==> ascii_lower(#[trigger] x@[j]) == ascii_lower(y@[j]),
        decreases x.len() - i,
    {
        if lower_ascii_char(x[i]) != lower_ascii_char(y[i]) {
            assert(ascii_lower(a@[i as int]) != ascii_lower(b@[i as int]));
            return false;
        }
        i += 1;
    }
    true
}

/// Whether a key is the one bound under `binding`: a character key matches
/// its text ignoring ASCII case, a named key matches its name exactly, any
/// other key matches nothing.
pub open spec fn key_fits(key: Key, binding: Seq<char>) -> bool {
    match key {
        Key::Character(s) => eq_ignore_ascii_case(s@, binding),
        Key::Named(k) => binding == named_key_name(k),
        Key::Other => false,
    }
}

/// The key bound to each action, by stored name.
#[derive(Debug, Clone)]
pub struct KeyBindings {
    pub key_move_left: String,
    pub key_move_right: String,
    pub key_soft_drop: String,
    pub key_hard_drop: String,
    pub key_rotate_cw: String,
    pub key_rotate_ccw: String,
    pub key_rotate_180: String,
    pub key_hold: String,
}

impl KeyBindings {
    /// The stored name of the key bound to an action, for the eight action
    /// names `move_left`, `move_right`, `soft_drop`, `hard_drop`,
    /// `rotate_cw`, `rotate_ccw`, `rotate_180` and `hold`.
    pub open spec fn binding(self, action: Seq<char>) -> Option<Seq<char>> {
        if action == "move_left"@ {
            Some(self.key_move_left@)
        } else if action == "move_right"@ {
            Some(self.key_move_right@)
        } else if action == "soft_drop"@ {
            Some(self.key_soft_drop@)
        } else if action == "hard_drop"@ {
            Some(self.key_hard_drop@)
        } else if action == "rotate_cw"@ {
            Some(self.key_rotate_cw@)
        } else if action == "rotate_ccw"@ {
            Some(self.key_rotate_ccw@)
        } else if action == "rotate_180"@ {
            Some(self.key_rotate_180@)
        } else if action == "hold"@ {
            Some(self.key_hold@)
        } else {
            None
        }
    }

    fn binding_of(&self, action: &str) -> (b: Option<&String>)
        ensures
            match b {
                Some(s) => self.binding(action@) == Some(s@),
                None => self.binding(action@) is None,
            },
    {
        if same_text(action, "move_left") {
            Some(&self.key_move_left)
        } else if same_text(action, "move_right") {
            Some(&self.key_move_right)
        } else if same_text(action, "soft_drop") {
            Some(&self.key_soft_drop)
        } else if same_text(action, "hard_drop") {
            Some(&self.key_hard_drop)
        } else if same_text(action, "rotate_cw") {
            Some(&self.key_rotate_cw)
        } else if same_text(action, "rotate_ccw") {
            Some(&self.key_rotate_ccw)
        } else if same_text(action, "rotate_180") {
            Some(&self.key_rotate_180)
        } else if same_text(action, "hold") {
            Some(&self.key_hold)
        } else {
            None
        }
    }

    /// Whether `key` is the key bound to the named action; false for an
    /// unknown action.
    pub fn key_matches(&self, key: &Key, action: &str) -> (r: bool)
        ensures
            r == (match self.binding(action@) {
                Some(b) => key_fits(*key, b),
                None => false,
            }),
    {
        let binding = match self.binding_of(action) {
            Some(b) => b,
            None => return false,
        };
        match key {
            Key::Character(s) => same_ignoring_ascii_case(s.as_str(), binding.as_str()),
            Key::Named(k) => {
                let name = named_key_text(*k);
                same_text(binding.as_str(), name.as_str())
            },
            Key::Other => false,
        }
    }
}

/// The default bindings: A and D move, S soft-drops, space hard-drops, L, J
/// and K rotate clockwise, counter-clockwise and half a turn, F holds.
pub open spec fn default_bindings_spec(b: KeyBindings) -> bool {
    &&& b.key_move_left@ == "a"@
    &&& b.key_move_right@ == "d"@
    &&& b.key_soft_drop@ == "s"@
    &&& b.key_hard_drop@ == " "@
    &&& b.key_rotate_cw@ == "l"@
    &&& b.key_rotate_ccw@ == "j"@
    &&& b.key_rotate_180@ == "k"@
    &&& b.key_hold@ == "f"@
}

impl Default for KeyBindings {
    fn default() -> (b: Self)
        ensures
            default_bindings_spec(b),
    {
        KeyBindings {
            key_move_left: "a".to_owned(),
            key_move_right: "d".to_owned(),
            key_soft_drop: "s".to_owned(),
            key_hard_drop: " ".to_owned(),
            key_rotate_cw: "l".to_owned(),
            key_rotate_ccw: "j".to_owned(),
            key_rotate_180: "k".to_owned(),
            key_hold: "f".to_owned(),
        }
    }
}

// ---------------------------------------------------------------------------
// The settings screen
// ---------------------------------------------------------------------------

/// What the settings screen asks of the caller: nothing, or go back.
#[derive(Debug, Clone, Copy, PartialEq, Eq, Structural)]
pub enum SettingsAction {
    Nothing,
    Back,
}

/// The settings screen's own state: the action waiting for a key, if any,
/// and whether a background picture is to be chosen.
#[derive(Debug, Clone)]
pub struct SettingsUiState {
    pub listening_for: Option<String>,
    pub pick_background: bool,
}

impl Default for SettingsUiState {
    fn default() -> (s: Self)
        ensures
            s.listening_for is None,
            !s.pick_background,
    {
        SettingsUiState { listening_for: None, pick_background: false }
    }
}

/// The bindings after the key named `name` is bound to `action`; an unknown
/// action changes nothing.
pub open spec fn rebound(b: KeyBindings, action: Seq<char>, name: Seq<char>) -> (
    Seq<char>,
    Seq<char>,
    Seq<char>,
    Seq<char>,
    Seq<char>,
    Seq<char>,
    Seq<char>,
    Seq<char>,
) {
    let n = binding_names(b);
    if action == "move_left"@ {
        (name, n.1, n.2, n.3, n.4, n.5, n.6, n.7)
    } else if action == "move_right"@ {
        (n.0, name, n.2, n.3, n.4, n.5, n.6, n.7)
    } else if action == "soft_drop"@ {
        (n.0, n.1, name, n.3, n.4, n.5, n.6, n.7)
    } else if action == "hard_drop"@ {
        (n.0, n.1, n.2, name, n.4, n.5, n.6, n.7)
    } else if action == "rotate_cw"@ {
        (n.0, n.1, n.2, n.3, name, n.5, n.6, n.7)
    } else if action == "rotate_ccw"@ {
        (n.0, n.1, n.2, n.3, n.4, name, n.6, n.7)
    } else if action == "rotate_180"@ {
        (n.0, n.1, n.2, n.3, n.4, n.5, name, n.7)
    } else if action == "hold"@ {
        (n.0, n.1, n.2, n.3, n.4, n.5, n.6, name)
    } else {
        n
    }
}

/// The eight stored names of a set of bindings.
pub open spec fn binding_names(b: KeyBindings) -> (
    Seq<char>,
    Seq<char>,
    Seq<char>,
    Seq<char>,
    Seq<char>,
    Seq<char>,
    Seq<char>,
    Seq<char>,
) {
    (
        b.key_move_left@,
        b.key_move_right@,
        b.key_soft_drop@,
        b.key_hard_drop@,
        b.key_rotate_cw@,
        b.key_rotate_ccw@,
        b.key_rotate_180@,
        b.key_hold@,
    )
}

/// A key press while the settings screen waits for a key: the key is bound
/// to the waiting action, the wait ends, and the press is taken (true).
/// With no action waiting, nothing changes and the press is not taken.
pub fn handle_settings_key(
    key: &Key,
    ui_state: &mut SettingsUiState,
    settings: &mut KeyBindings,
) -> (taken: bool)
    ensures
        taken == old(ui_state).listening_for is Some,
        final(ui_state).pick_background == old(ui_state).pick_background,
        final(ui_state).listening_for is None,
        match old(ui_state).listening_for {
            Some(action) => binding_names(*final(settings)) == rebound(
                *old(settings),
                action@,
                key_name(*key),
            ),
            None => binding_names(*final(settings)) == binding_names(*old(settings)),
        },
{
    let action = match ui_state.listening_for.take() {
        Some(a) => a,
        None => return false,
    };
    let key_str = key_to_string(key);
    if same_text(action.as_str(), "move_left") {
        settings.key_move_left = key_str;
    } else if same_text(action.as_str(), "move_right") {
        settings.key_move_right = key_str;
    } else if same_text(action.as_str(), "soft_drop") {
        settings.key_soft_drop = key_str;
    } else if same_text(action.as_str(), "hard_drop") {
        settings.key_hard_drop = key_str;
    } else if same_text(action.as_str(), "rotate_cw") {
        settings.key_rotate_cw = key_str;
    } else if same_text(action.as_str(), "rotate_ccw") {
        settings.key_rotate_ccw = key_str;
    } else if same_text(action.as_str(), "rotate_180") {
        settings.key_rotate_180 = key_str;
    } else if same_text(action.as_str(), "hold") {
        settings.key_hold = key_str;
    }
    true
}

} // verus!
