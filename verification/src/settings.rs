//! User settings and the decisions taken from them: which global shortcuts are
//! registered, how the autostart entry is brought in line, the tray menu's labels, and
//! which devices are listed.

use vstd::prelude::*;
use crate::text::{chars_of, contains_chars, contains_seq, str_eq};

verus! {

/// The persisted user settings.
pub struct AppSettings {
    pub hotkey: String,
    pub hotkey_enabled: bool,
    pub hotkey_explode: String,
    pub hotkey_explode_enabled: bool,
    pub hotkey_monitor: String,
    pub hotkey_monitor_enabled: bool,
    pub hotkey_bgm: String,
    pub hotkey_bgm_enabled: bool,
    pub hotkey_eq: String,
    pub hotkey_eq_enabled: bool,
    pub autostart: bool,
    pub language: String,
}

impl Default for AppSettings {
    /// `Ctrl+Shift+D` toggles noise suppression; no other shortcut, no autostart,
    /// simplified Chinese.
    fn default() -> (s: Self)
        ensures
            s.hotkey@ == "Ctrl+Shift+D"@,
            s.hotkey_enabled,
            s.hotkey_explode@.len() == 0,
            !s.hotkey_explode_enabled,
            s.hotkey_monitor@.len() == 0,
            !s.hotkey_monitor_enabled,
            s.hotkey_bgm@.len() == 0,
            !s.hotkey_bgm_enabled,
            s.hotkey_eq@.len() == 0,
            !s.hotkey_eq_enabled,
            !s.autostart,
            s.language@ == "zh-CN"@,
    {
        AppSettings {
            hotkey: String::from_str("Ctrl+Shift+D"),
            hotkey_enabled: true,
            hotkey_explode: String::new(),
            hotkey_explode_enabled: false,
            hotkey_monitor: String::new(),
            hotkey_monitor_enabled: false,
            hotkey_bgm: String::new(),
            hotkey_bgm_enabled: false,
            hotkey_eq: String::new(),
            hotkey_eq_enabled: false,
            autostart: false,
            language: String::from_str("zh-CN"),
        }
    }
}

/// What a global shortcut toggles.
#[derive(Clone, Copy, PartialEq, Eq, Structural, Debug)]
pub enum HotkeyAction {
    Denoise,
    Explode,
    Monitor,
    Bgm,
    Eq,
}

impl HotkeyAction {
    pub open spec fn spec_event_name(self) -> Seq<char> {
        match self {
            HotkeyAction::Denoise => "toggle-denoise"@,
            HotkeyAction::Explode => "toggle-explode"@,
            HotkeyAction::Monitor => "toggle-monitor"@,
            HotkeyAction::Bgm => "toggle-bgm"@,
            HotkeyAction::Eq => "toggle-eq"@,
        }
    }

    /// The event the main window receives when the shortcut is pressed.
    pub fn event_name(self) -> (n: &'static str)
        ensures
            n@ == self.spec_event_name(),
    {
        match self {
            HotkeyAction::Denoise => "toggle-denoise",
            HotkeyAction::Explode => "toggle-explode",
            HotkeyAction::Monitor => "toggle-monitor",
            HotkeyAction::Bgm => "toggle-bgm",
            HotkeyAction::Eq => "toggle-eq",
        }
    }
}

/// The five shortcut slots in order: denoise, explode, monitor, BGM, EQ.
pub open spec fn slot_actions() -> Seq<HotkeyAction> {
    seq![
        HotkeyAction::Denoise,
        HotkeyAction::Explode,
        HotkeyAction::Monitor,
        HotkeyAction::Bgm,
        HotkeyAction::Eq,
    ]
}

/// A shortcut to register: its key combination and what it toggles.
pub type HotkeyBinding = (String, HotkeyAction);

/// The bindings kept from `keys` (one per slot, in slot order) where `wanted` says so.
pub open spec fn spec_bindings(keys: Seq<Seq<char>>, wanted: Seq<bool>) -> Seq<(Seq<char>, HotkeyAction)>
    decreases keys.len(),
{
    if keys.len() == 0 {
        Seq::empty()
    } else {
        let prev = spec_bindings(keys.drop_last(), wanted.drop_last());
        if wanted.last() && keys.last().len() > 0 {
            prev.push((keys.last(), slot_actions()[keys.len() - 1]))
        } else {
            prev
        }
    }
}

/// The view of a list of bindings.
pub open spec fn bindings_view(b: Seq<HotkeyBinding>) -> Seq<(Seq<char>, HotkeyAction)> {
    b.map_values(|x: HotkeyBinding| (x.0@, x.1))
}

fn push_binding(out: &mut Vec<HotkeyBinding>, key: &str, wanted: bool, action: HotkeyAction)
    ensures
        bindings_view(final(out)@) == if wanted && key@.len() > 0 {
            bindings_view(old(out)@).push((key@, action))
        } else {
            bindings_view(old(out)@)
        },
{
    let k = chars_of(key);
    if wanted && k.len() > 0 {
        out.push((String::from_str(key), action));
        assert(bindings_view(out@) =~= bindings_view(old(out)@).push((key@, action)));
    }
}

/// The shortcuts to register after the user edits them: every slot whose key combination
/// is not empty, in slot order.
pub fn hotkey_bindings(
    hotkey: &str,
    hotkey_explode: &str,
    hotkey_monitor: &str,
    hotkey_bgm: &str,
    hotkey_eq: &str,
) -> (r: Vec<HotkeyBinding>)
    ensures
        bindings_view(r@) == spec_bindings(
            seq![hotkey@, hotkey_explode@, hotkey_monitor@, hotkey_bgm@, hotkey_eq@],
            seq![true, true, true, true, true],
        ),
{
    let mut r: Vec<HotkeyBinding> = Vec::new();
    push_binding(&mut r, hotkey, true, HotkeyAction::Denoise);
    push_binding(&mut r, hotkey_explode, true, HotkeyAction::Explode);
    push_binding(&mut r, hotkey_monitor, true, HotkeyAction::Monitor);
    push_binding(&mut r, hotkey_bgm, true, HotkeyAction::Bgm);
    push_binding(&mut r, hotkey_eq, true, HotkeyAction::Eq);
    proof {
        reveal_with_fuel(spec_bindings, 6);
        let keys = seq![hotkey@, hotkey_explode@, hotkey_monitor@, hotkey_bgm@, hotkey_eq@];
        let w = seq![true, true, true, true, true];
        assert(keys.drop_last() =~= seq![hotkey@, hotkey_explode@, hotkey_monitor@, hotkey_bgm@]);
        assert(keys.drop_last().drop_last() =~= seq![hotkey@, hotkey_explode@, hotkey_monitor@]);
        assert(keys.drop_last().drop_last().drop_last() =~= seq![hotkey@, hotkey_explode@]);
        assert(keys.drop_last().drop_last().drop_last().drop_last() =~= seq![hotkey@]);
        assert(keys.drop_last().drop_last().drop_last().drop_last().drop_last() =~= Seq::<Seq<char>>::empty());
        assert(w.drop_last() =~= seq![true, true, true, true]);
        assert(w.drop_last().drop_last() =~= seq![true, true, true]);
        assert(w.drop_last().drop_last().drop_last() =~= seq![true, true]);
        assert(w.drop_last().drop_last().drop_last().drop_last() =~= seq![true]);
    }
    r
}

impl AppSettings {
    /// The shortcuts registered at start-up: every slot that is switched on and has a key
    /// combination, in slot order.
    pub fn startup_bindings(&self) -> (r: Vec<HotkeyBinding>)
        ensures
            bindings_view(r@) == spec_bindings(
                seq![self.hotkey@, self.hotkey_explode@, self.hotkey_monitor@, self.hotkey_bgm@, self.hotkey_eq@],
                seq![self.hotkey_enabled, self.hotkey_explode_enabled, self.hotkey_monitor_enabled, self.hotkey_bgm_enabled, self.hotkey_eq_enabled],
            ),
    {
        let mut r: Vec<HotkeyBinding> = Vec::new();
        push_binding(&mut r, self.hotkey.as_str(), self.hotkey_enabled, HotkeyAction::Denoise);
        push_binding(&mut r, self.hotkey_explode.as_str(), self.hotkey_explode_enabled, HotkeyAction::Explode);
        push_binding(&mut r, self.hotkey_monitor.as_str(), self.hotkey_monitor_enabled, HotkeyAction::Monitor);
        push_binding(&mut r, self.hotkey_bgm.as_str(), self.hotkey_bgm_enabled, HotkeyAction::Bgm);
        push_binding(&mut r, self.hotkey_eq.as_str(), self.hotkey_eq_enabled, HotkeyAction::Eq);
        proof {
            reveal_with_fuel(spec_bindings, 6);
            let keys = seq![self.hotkey@, self.hotkey_explode@, self.hotkey_monitor@, self.hotkey_bgm@, self.hotkey_eq@];
            let w = seq![self.hotkey_enabled, self.hotkey_explode_enabled, self.hotkey_monitor_enabled, self.hotkey_bgm_enabled, self.hotkey_eq_enabled];
            assert(keys.drop_last() =~= seq![self.hotkey@, self.hotkey_explode@, self.hotkey_monitor@, self.hotkey_bgm@]);
            assert(keys.drop_last().drop_last() =~= seq![self.hotkey@, self.hotkey_explode@, self.hotkey_monitor@]);
            assert(keys.drop_last().drop_last().drop_last() =~= seq![self.hotkey@, self.hotkey_explode@]);
            assert(keys.drop_last().drop_last().drop_last().drop_last() =~= seq![self.hotkey@]);
            assert(keys.drop_last().drop_last().drop_last().drop_last().drop_last() =~= Seq::<Seq<char>>::empty());
            assert(w.drop_last() =~= seq![self.hotkey_enabled, self.hotkey_explode_enabled, self.hotkey_monitor_enabled, self.hotkey_bgm_enabled]);
            assert(w.drop_last().drop_last() =~= seq![self.hotkey_enabled, self.hotkey_explode_enabled, self.hotkey_monitor_enabled]);
            assert(w.drop_last().drop_last().drop_last() =~= seq![self.hotkey_enabled, self.hotkey_explode_enabled]);
            assert(w.drop_last().drop_last().drop_last().drop_last() =~= seq![self.hotkey_enabled]);
        }
        r
    }
}

/// What to do with the system's autostart entry.
#[derive(Clone, Copy, PartialEq, Eq, Structural, Debug)]
pub enum AutostartChange {
    Enable,
    Disable,
    Keep,
}

/// At start-up, brings the autostart entry in line with the setting: enable it when it is
/// wanted but absent, disable it when it is present but unwanted.
pub fn autostart_sync(wanted: bool, currently_enabled: bool) -> (c: AutostartChange)
    ensures
        c == if wanted && !currently_enabled {
            AutostartChange::Enable
        } else if !wanted && currently_enabled {
            AutostartChange::Disable
        } else {
            AutostartChange::Keep
        },
{
    if wanted && !currently_enabled {
        AutostartChange::Enable
    } else if !wanted && currently_enabled {
        AutostartChange::Disable
    } else {
        AutostartChange::Keep
    }
}

/// When settings are saved, the autostart entry is set to the setting outright.
pub fn autostart_on_save(wanted: bool) -> (c: AutostartChange)
    ensures
        c == if wanted { AutostartChange::Enable } else { AutostartChange::Disable },
{
    if wanted {
        AutostartChange::Enable
    } else {
        AutostartChange::Disable
    }
}

/// The tray menu's labels (show, hide, quit) for the interface language: English for
/// `"en"`, Chinese otherwise.
pub open spec fn spec_tray_labels(language: Seq<char>) -> (Seq<char>, Seq<char>, Seq<char>) {
    if language == "en"@ {
        ("Show Window"@, "Hide Window"@, "Quit"@)
    } else {
        ("显示窗口"@, "隐藏窗口"@, "退出"@)
    }
}

/// The tray menu's labels for `language`.
pub fn tray_labels(language: &str) -> (r: (String, String, String))
    ensures
        (r.0@, r.1@, r.2@) == spec_tray_labels(language@),
{
    if str_eq(language, "en") {
        (String::from_str("Show Window"), String::from_str("Hide Window"), String::from_str("Quit"))
    } else {
        (String::from_str("显示窗口"), String::from_str("隐藏窗口"), String::from_str("退出"))
    }
}

/// The input devices offered: all but the virtual cable's output side, whose name holds
/// `"CABLE Output"` (recording from it yields silence).
pub open spec fn spec_offered_inputs(names: Seq<Seq<char>>) -> Seq<Seq<char>>
    decreases names.len(),
{
    if names.len() == 0 {
        Seq::empty()
    } else {
        let prev = spec_offered_inputs(names.drop_last());
        if contains_seq(names.last(), "CABLE Output"@) {
            prev
        } else {
            prev.push(names.last())
        }
    }
}

/// The offered input devices are exactly the listed ones whose name does not hold
/// `"CABLE Output"`.
pub proof fn lemma_offered_inputs(names: Seq<Seq<char>>)
    ensures
        forall|x: Seq<char>|
            spec_offered_inputs(names).contains(x) <==> (names.contains(x) && !contains_seq(
                x,
                "CABLE Output"@,
            )),
    decreases names.len(),
{
    if names.len() > 0 {
        let prev = names.drop_last();
        lemma_offered_inputs(prev);
        assert forall|x: Seq<char>|
            spec_offered_inputs(names).contains(x) <==> (names.contains(x) && !contains_seq(x, "CABLE Output"@)) by {
            if names.contains(x) {
                let k = choose|k: int| 0 <= k < names.len() && names[k] == x;
                if k < names.len() - 1 {
                    assert(prev[k] == x);
                }
            }
            if prev.contains(x) {
                let k = choose|k: int| 0 <= k < prev.len() && prev[k] == x;
                assert(names[k] == x);
            }
            assert(names[names.len() - 1] == names.last());
            let rp = spec_offered_inputs(prev);
            let l = names.last();
            if !contains_seq(l, "CABLE Output"@) {
                let r = rp.push(l);
                if r.contains(x) {
                    let k = choose|k: int| 0 <= k < r.len() && r[k] == x;
                    if k < rp.len() {
                        assert(rp[k] == x);
                    }
                }
                if rp.contains(x) {
                    let k = choose|k: int| 0 <= k < rp.len() && rp[k] == x;
                    assert(r[k] == x);
                }
                if x == l {
                    assert(r[rp.len() as int] == x);
                }
            }
        }
    }
}

/// The views of a list of strings.
pub open spec fn string_views(v: Seq<String>) -> Seq<Seq<char>> {
    v.map_values(|s: String| s@)
}

/// Filters the capture device names down to those offered to the user.
pub fn offered_input_devices(names: &[String]) -> (r: Vec<String>)
    ensures
        string_views(r@) == spec_offered_inputs(string_views(names@)),
{
    let pattern = chars_of("CABLE Output");
    let mut r: Vec<String> = Vec::new();
    let mut i: usize = 0;
    while i < names.len()
        invariant
            pattern@ == "CABLE Output"@,
            i <= names@.len(),
            string_views(r@) == spec_offered_inputs(string_views(names@.take(i as int))),
        decreases names@.len() - i,
    {
        assert(string_views(names@.take(i + 1)).drop_last() =~= string_views(names@.take(i as int)));
        let n = chars_of(names[i].as_str());
        if !contains_chars(n.as_slice(), pattern.as_slice()) {
            let ghost before = r@;
            r.push(names[i].clone());
            assert(string_views(r@) =~= string_views(before).push(names@[i as int]@));
        }
        i = i + 1;
    }
    assert(names@.take(names@.len() as int) =~= names@);
    r
}

/// The background-music sources chosen by the user.
pub struct BgmConfig {
    pub process_names: Vec<String>,
    pub process_pids: Vec<u32>,
}

impl Default for BgmConfig {
    /// No source chosen.
    fn default() -> (c: Self)
        ensures
            c.process_names@.len() == 0,
            c.process_pids@.len() == 0,
    {
        BgmConfig { process_names: Vec::new(), process_pids: Vec::new() }
    }
}

} // verus!
