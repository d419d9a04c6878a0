//! Naming the processes that play audio, so the user can pick a background-music source:
//! which audio sessions are offered, how a process gets a friendly name, and the
//! version-resource and registry lookups those names come from.

use vstd::prelude::*;
use crate::text::{
    push_char, at_least_two_bytes, chars_of, contains_chars, contains_seq, ends_with, find_chars,
    first_occurrence, last_index_of, rfind_char, string_of, utf8_len,
};

verus! {

/// Known applications: a fragment of the lower-case executable name, and the name shown.
pub open spec fn app_name_table() -> Seq<(Seq<char>, Seq<char>)> {
    seq![
        ("qqbrowser"@, "QQ 浏览器"@),
        ("cloudmusic"@, "网易云音乐"@),
        ("qqmusic"@, "QQ 音乐"@),
        ("kugou"@, "酷狗音乐"@),
        ("kwmusic"@, "酷我音乐"@),
        ("kuwo"@, "酷我音乐"@),
        ("musicbee"@, "MusicBee"@),
        ("foobar"@, "foobar2000"@),
        ("winamp"@, "Winamp"@),
        ("potplayer"@, "PotPlayer"@),
        ("spotify"@, "Spotify"@),
        ("douyin"@, "抖音"@),
        ("weixin"@, "微信"@),
        ("wechat"@, "微信"@),
        ("obs64"@, "OBS Studio"@),
        ("obs32"@, "OBS Studio"@),
        ("itunes"@, "iTunes"@),
        ("aimp"@, "AIMP"@),
        ("chrome"@, "Chrome"@),
        ("msedge"@, "Edge"@),
        ("firefox"@, "Firefox"@),
        ("steam"@, "Steam"@),
        ("qq"@, "QQ"@),
    ]
}

/// The known-application table, in order.
pub fn app_names() -> (t: Vec<(&'static str, &'static str)>)
    ensures
        t@.len() == app_name_table().len(),
        forall|i: int|
            0 <= i < t@.len() ==> (#[trigger] t@[i]).0@ == app_name_table()[i].0 && t@[i].1@
                == app_name_table()[i].1,
{
    let mut t: Vec<(&'static str, &'static str)> = Vec::new();
    t.push(("qqbrowser", "QQ 浏览器"));
    t.push(("cloudmusic", "网易云音乐"));
    t.push(("qqmusic", "QQ 音乐"));
    t.push(("kugou", "酷狗音乐"));
    t.push(("kwmusic", "酷我音乐"));
    t.push(("kuwo", "酷我音乐"));
    t.push(("musicbee", "MusicBee"));
    t.push(("foobar", "foobar2000"));
    t.push(("winamp", "Winamp"));
    t.push(("potplayer", "PotPlayer"));
    t.push(("spotify", "Spotify"));
    t.push(("douyin", "抖音"));
    t.push(("weixin", "微信"));
    t.push(("wechat", "微信"));
    t.push(("obs64", "OBS Studio"));
    t.push(("obs32", "OBS Studio"));
    t.push(("itunes", "iTunes"));
    t.push(("aimp", "AIMP"));
    t.push(("chrome", "Chrome"));
    t.push(("msedge", "Edge"));
    t.push(("firefox", "Firefox"));
    t.push(("steam", "Steam"));
    t.push(("qq", "QQ"));
    proof {
        let spec_t = app_name_table();
        assert(spec_t.len() == 23);
        assert forall|i: int|
            0 <= i < t@.len() implies (#[trigger] t@[i]).0@ == spec_t[i].0 && t@[i].1@ == spec_t[i].1 by {
        }
    }
    t
}

/// The table entry whose name is shown for `exe_lower`, among the first `n` entries:
/// of the entries whose fragment occurs in the name, the one with the longest fragment,
/// the later one on a tie (how `max_by_key` picks).
pub open spec fn best_entry(exe_lower: Seq<char>, n: nat) -> Option<int>
    decreases n,
{
    if n == 0 {
        None
    } else {
        let prev = best_entry(exe_lower, (n - 1) as nat);
        let key = app_name_table()[n - 1].0;
        if contains_seq(exe_lower, key) && (prev is None || key.len() >= app_name_table()[
            prev->0
        ].0.len()) {
            Some(n - 1)
        } else {
            prev
        }
    }
}

/// The known name for a lower-case executable name, if some fragment of the table occurs
/// in it.
pub open spec fn spec_known_app_name(exe_lower: Seq<char>) -> Option<Seq<char>> {
    match best_entry(exe_lower, app_name_table().len()) {
        Some(i) => Some(app_name_table()[i].1),
        None => None,
    }
}

/// Whether the lower-case executable name belongs to a known player.
pub open spec fn spec_is_known_player(exe_lower: Seq<char>) -> bool {
    exists|i: int| 0 <= i < app_name_table().len() && contains_seq(exe_lower, #[trigger] app_name_table()[i].0)
}

proof fn lemma_best_entry_range(exe_lower: Seq<char>, n: nat)
    requires
        n <= app_name_table().len(),
    ensures
        best_entry(exe_lower, n) matches Some(i) ==> 0 <= i < n && contains_seq(
            exe_lower,
            app_name_table()[i].0,
        ),
        best_entry(exe_lower, n) is None ==> forall|i: int|
            0 <= i < n ==> !contains_seq(exe_lower, #[trigger] app_name_table()[i].0),
    decreases n,
{
    if n > 0 {
        lemma_best_entry_range(exe_lower, (n - 1) as nat);
    }
}

/// The name the table gives an executable (matched on its lower-case name).
pub fn known_app_name(exe_lower: &str) -> (r: Option<&'static str>)
    ensures
        match r {
            Some(name) => spec_known_app_name(exe_lower@) == Some(name@),
            None => spec_known_app_name(exe_lower@) is None,
        },
{
    let table = app_names();
    let exe = chars_of(exe_lower);
    let mut best: Option<usize> = None;
    let mut best_len: usize = 0;
    let mut i: usize = 0;
    while i < table.len()
        invariant
            table@.len() == app_name_table().len(),
            forall|k: int|
                0 <= k < table@.len() ==> (#[trigger] table@[k]).0@ == app_name_table()[k].0
                    && table@[k].1@ == app_name_table()[k].1,
            exe@ == exe_lower@,
            i <= table@.len(),
            match best {
                Some(b) => best_entry(exe@, i as nat) == Some(b as int) && best_len
                    == app_name_table()[b as int].0.len() && b < i,
                None => best_entry(exe@, i as nat) is None,
            },
        decreases table@.len() - i,
    {
        let key = chars_of(table[i].0);
        if contains_chars(exe.as_slice(), key.as_slice()) {
            match best {
                None => {
                    best = Some(i);
                    best_len = key.len();
                },
                Some(_) => {
                    if key.len() >= best_len {
                        best = Some(i);
                        best_len = key.len();
                    }
                },
            }
        }
        i = i + 1;
    }
    match best {
        Some(b) => Some(table[b].1),
        None => None,
    }
}

/// Whether the executable (by its lower-case name) is a known player.
pub fn is_known_player(exe_lower: &str) -> (b: bool)
    ensures
        b == spec_is_known_player(exe_lower@),
{
    let r = known_app_name(exe_lower);
    proof {
        lemma_best_entry_range(exe_lower@, app_name_table().len());
    }
    r.is_some()
}

/// Whether an audio session is offered as a music source: it belongs to another process
/// (a real one, not this program) and is either active or owned by a known player.
pub fn session_offered(pid: u32, own_pid: u32, active: bool, exe_lower: &str) -> (b: bool)
    ensures
        b == (pid > 0 && pid != own_pid && (active || spec_is_known_player(exe_lower@))),
{
    if pid == 0 || pid == own_pid {
        return false;
    }
    if active {
        return true;
    }
    is_known_player(exe_lower)
}

/// A top-level window as enumerated: the id of the process owning it, whether it is
/// visible, and its title (empty when it has none).
pub type WindowInfo = (u32, bool, String);

/// The title of a process's main window: of the enumerated windows, the last one that
/// belongs to `pid`, is visible and has a title.
pub open spec fn spec_window_title(windows: Seq<WindowInfo>, pid: u32) -> Option<Seq<char>>
    decreases windows.len(),
{
    if windows.len() == 0 {
        None
    } else {
        let w = windows.last();
        if w.0 == pid && w.1 && w.2@.len() > 0 {
            Some(w.2@)
        } else {
            spec_window_title(windows.drop_last(), pid)
        }
    }
}

/// Picks a process's window title from the enumerated windows.
pub fn window_title(windows: &[WindowInfo], pid: u32) -> (r: Option<String>)
    ensures
        match r {
            Some(t) => spec_window_title(windows@, pid) == Some(t@),
            None => spec_window_title(windows@, pid) is None,
        },
{
    let mut r: Option<String> = None;
    let mut i: usize = 0;
    while i < windows.len()
        invariant
            i <= windows@.len(),
            match r {
                Some(t) => spec_window_title(windows@.take(i as int), pid) == Some(t@),
                None => spec_window_title(windows@.take(i as int), pid) is None,
            },
        decreases windows@.len() - i,
    {
        assert(windows@.take(i + 1).drop_last() =~= windows@.take(i as int));
        assert(windows@.take(i + 1).last() == windows@[i as int]);
        let w = &windows[i];
        if w.0 == pid && w.1 && chars_of(w.2.as_str()).len() > 0 {
            r = Some(w.2.clone());
        }
        i = i + 1;
    }
    assert(windows@.take(windows@.len() as int) =~= windows@);
    r
}

/// The characters `" - "`.
pub open spec fn dash_sep() -> Seq<char> {
    seq![' ', '-', ' ']
}

/// A title cut before its first `" - "`, unless what comes before is shorter than two
/// bytes.
pub open spec fn title_head(t: Seq<char>) -> Seq<char> {
    match first_occurrence(t, dash_sep()) {
        Some(pos) => if utf8_len(t.take(pos)) >= 2 {
            t.take(pos)
        } else {
            t
        },
        None => t,
    }
}

/// A version number: dot-separated parts (at least two) of ASCII digits only.
pub open spec fn is_version_word(w: Seq<char>) -> bool {
    w.contains('.') && forall|i: int| 0 <= i < w.len() ==> (w[i] == '.' || ('0' <= #[trigger] w[i] && w[i] <= '9'))
}

/// A title without a trailing version number (the last space-separated word).
pub open spec fn title_without_version(r: Seq<char>) -> Seq<char> {
    match last_index_of(r, ' ') {
        Some(ls) => if is_version_word(r.skip(ls + 1)) {
            r.take(ls)
        } else {
            r
        },
        None => r,
    }
}

/// A window title cleaned for display: dynamic suffixes after `" - "` and a trailing
/// version number removed.
pub open spec fn spec_clean_window_title(t: Seq<char>) -> Seq<char> {
    title_without_version(title_head(t))
}

/// Removes the dynamic parts of a window title: everything from the first `" - "` on
/// (when at least two bytes precede it), then a trailing version number such as
/// `" 32.1.2"`.
pub fn clean_window_title(title: &str) -> (r: String)
    ensures
        r@ == spec_clean_window_title(title@),
{
    let t = chars_of(title);
    let sep: [char; 3] = [' ', '-', ' '];
    assert(sep@ =~= dash_sep());
    let mut head: Vec<char> = t.clone();
    assert(head@ == t@);
    match find_chars(t.as_slice(), sep.as_slice()) {
        Some(pos) => {
            let prefix = take_chars(t.as_slice(), pos);
            if at_least_two_bytes(prefix.as_slice()) {
                head = prefix;
            }
        },
        None => {},
    }
    assert(head@ == title_head(title@));
    let mut result: Vec<char> = head.clone();
    assert(result@ == head@);
    match rfind_char(head.as_slice(), ' ') {
        Some(ls) => {
            if version_word_from(head.as_slice(), ls + 1) {
                result = take_chars(head.as_slice(), ls);
            }
        },
        None => {},
    }
    string_of(result.as_slice())
}

/// The first `n` characters.
fn take_chars(s: &[char], n: usize) -> (r: Vec<char>)
    requires
        n <= s@.len(),
    ensures
        r@ == s@.take(n as int),
{
    let mut r: Vec<char> = Vec::new();
    let mut i: usize = 0;
    while i < n
        invariant
            n <= s@.len(),
            i <= n,
            r@ == s@.take(i as int),
        decreases n - i,
    {
        r.push(s[i]);
        i = i + 1;
        assert(r@ =~= s@.take(i as int));
    }
    r
}

/// Whether the characters from `from` on form a version number.
fn version_word_from(s: &[char], from: usize) -> (b: bool)
    requires
        from <= s@.len(),
    ensures
        b == is_version_word(s@.skip(from as int)),
{
    let ghost w = s@.skip(from as int);
    let mut seen_dot = false;
    let mut i: usize = from;
    while i < s.len()
        invariant
            from <= i <= s@.len(),
            w == s@.skip(from as int),
            seen_dot == exists|j: int| 0 <= j < i - from && w[j] == '.',
            forall|j: int| 0 <= j < i - from ==> (w[j] == '.' || ('0' <= #[trigger] w[j] && w[j] <= '9')),
        decreases s@.len() - i,
    {
        let c = s[i];
        assert(w[i - from] == c);
        if c == '.' {
            seen_dot = true;
        } else if !('0' <= c && c <= '9') {
            return false;
        }
        i = i + 1;
    }
    proof {
        if seen_dot {
            let j = choose|j: int| 0 <= j < i - from && w[j] == '.';
            assert(w.contains('.'));
        } else {
            assert forall|j: int| 0 <= j < w.len() implies w[j] != '.' by {}
        }
    }
    seen_dot
}

/// Whether a (cleaned) window title is worth showing: it takes at least two bytes.
pub open spec fn spec_usable_title(t: Seq<char>) -> bool {
    t.len() > 0 && utf8_len(t) > 1
}

/// The characters `".exe"`.
pub open spec fn exe_suffix() -> Seq<char> {
    seq!['.', 'e', 'x', 'e']
}

/// An executable name without its `".exe"` suffix.
pub open spec fn spec_strip_exe(exe: Seq<char>) -> Seq<char> {
    if ends_with(exe, exe_suffix()) {
        exe.take(exe.len() - 4)
    } else {
        exe
    }
}

/// Drops a trailing `".exe"` from an executable name.
pub fn strip_exe_suffix(exe: &str) -> (r: String)
    ensures
        r@ == spec_strip_exe(exe@),
{
    let e = chars_of(exe);
    let n: usize = e.len();
    if n >= 4 && e[n - 4] == '.' && e[n - 3] == 'e' && e[n - 2] == 'x' && e[n - 1] == 'e' {
        assert(e@.subrange(n - 4, n as int) =~= exe_suffix());
        let t = take_chars(e.as_slice(), n - 4);
        string_of(t.as_slice())
    } else {
        proof {
            if ends_with(e@, exe_suffix()) {
                assert(e@.subrange(n - 4, n as int)[0] == '.');
                assert(e@.subrange(n - 4, n as int)[1] == 'e');
                assert(e@.subrange(n - 4, n as int)[2] == 'x');
                assert(e@.subrange(n - 4, n as int)[3] == 'e');
            }
        }
        string_of(e.as_slice())
    }
}

/// The name shown for a process: the known-application name; else its window title,
/// cleaned, when that is usable; else the file description of its executable; else the
/// name registered for it; else the product name of its executable; else the executable
/// name without `".exe"`.
pub open spec fn spec_friendly_name(
    exe_lower: Seq<char>,
    exe: Seq<char>,
    window_title: Option<Seq<char>>,
    file_description: Option<Seq<char>>,
    registry_name: Option<Seq<char>>,
    product_name: Option<Seq<char>>,
) -> Seq<char> {
    match spec_known_app_name(exe_lower) {
        Some(n) => n,
        None => {
            if window_title is Some && spec_usable_title(spec_clean_window_title(window_title->0)) {
                spec_clean_window_title(window_title->0)
            } else if file_description is Some {
                file_description->0
            } else if registry_name is Some {
                registry_name->0
            } else if product_name is Some {
                product_name->0
            } else {
                spec_strip_exe(exe)
            }
        },
    }
}

/// The name shown for a process, from the lookups that may name it (see
/// `spec_friendly_name` for the order in which they are tried).
pub fn friendly_name(
    exe_lower: &str,
    exe: &str,
    window_title: Option<&str>,
    file_description: Option<&str>,
    registry_name: Option<&str>,
    product_name: Option<&str>,
) -> (r: String)
    ensures
        r@ == spec_friendly_name(
            exe_lower@,
            exe@,
            match window_title { Some(t) => Some(t@), None => None },
            match file_description { Some(t) => Some(t@), None => None },
            match registry_name { Some(t) => Some(t@), None => None },
            match product_name { Some(t) => Some(t@), None => None },
        ),
{
    match known_app_name(exe_lower) {
        Some(n) => return String::from_str(n),
        None => {},
    }
    match window_title {
        Some(t) => {
            let cleaned = clean_window_title(t);
            let c = chars_of(cleaned.as_str());
            if c.len() > 0 && at_least_two_bytes(c.as_slice()) {
                return cleaned;
            }
        },
        None => {},
    }
    match file_description {
        Some(d) => return String::from_str(d),
        None => {},
    }
    match registry_name {
        Some(d) => return String::from_str(d),
        None => {},
    }
    match product_name {
        Some(d) => return String::from_str(d),
        None => {},
    }
    strip_exe_suffix(exe)
}

/// The elements of `s` in order, each kept at its first occurrence only.
pub open spec fn first_occurrences(s: Seq<u32>) -> Seq<u32>
    decreases s.len(),
{
    if s.len() == 0 {
        Seq::empty()
    } else {
        let prev = first_occurrences(s.drop_last());
        if prev.contains(s.last()) {
            prev
        } else {
            prev.push(s.last())
        }
    }
}

/// Each process id is kept once, and exactly the ids that occur are kept.
pub proof fn lemma_first_occurrences_distinct(s: Seq<u32>)
    ensures
        forall|i: int, j: int|
            0 <= i < j < first_occurrences(s).len() ==> first_occurrences(s)[i] != first_occurrences(s)[j],
        forall|x: u32| first_occurrences(s).contains(x) <==> s.contains(x),
    decreases s.len(),
{
    if s.len() > 0 {
        let prev = s.drop_last();
        lemma_first_occurrences_distinct(prev);
        let rp = first_occurrences(prev);
        let l = s.last();
        assert forall|x: u32| first_occurrences(s).contains(x) <==> s.contains(x) by {
            if s.contains(x) {
                let k = choose|k: int| 0 <= k < s.len() && s[k] == x;
                if k < s.len() - 1 {
                    assert(prev[k] == x);
                }
            }
            if prev.contains(x) {
                let k = choose|k: int| 0 <= k < prev.len() && prev[k] == x;
                assert(s[k] == x);
            }
            assert(s[s.len() - 1] == l);
            if !rp.contains(l) {
                let r = rp.push(l);
                if r.contains(x) {
                    let k = choose|k: int| 0 <= k < r.len() && r[k] == x;
                    if k < rp.len() {
                        assert(rp[k] == x);
                    }
                }
                if rp.contains(x) {
                    let k = choose|k: int| 0 <= k < rp.len() && rp[k] == x;
                    assert(r[k] == x);
                }
                if x == l {
                    assert(r[rp.len() as int] == x);
                }
            }
        }
        if !rp.contains(l) {
            let r = rp.push(l);
            assert forall|i: int, j: int| 0 <= i < j < r.len() implies r[i] != r[j] by {
                if j == rp.len() {
                    assert(r[i] == rp[i]);
                }
            }
        }
    }
}

/// The process ids in order, each kept at its first occurrence only.
pub fn unique_pids(pids: &[u32]) -> (r: Vec<u32>)
    ensures
        r@ == first_occurrences(pids@),
{
    let mut r: Vec<u32> = Vec::new();
    let mut i: usize = 0;
    while i < pids.len()
        invariant
            i <= pids@.len(),
            r@ == first_occurrences(pids@.take(i as int)),
        decreases pids@.len() - i,
    {
        let p: u32 = pids[i];
        assert(pids@.take(i + 1).drop_last() =~= pids@.take(i as int));
        let mut seen = false;
        let mut k: usize = 0;
        while k < r.len()
            invariant
                k <= r@.len(),
                seen == exists|j: int| 0 <= j < k && r@[j] == p,
            decreases r@.len() - k,
        {
            if r[k] == p {
                seen = true;
            }
            k = k + 1;
        }
        proof {
            if seen {
                let j = choose|j: int| 0 <= j < k && r@[j] == p;
                assert(r@.contains(p));
            } else {
                assert(!r@.contains(p));
            }
        }
        if !seen {
            r.push(p);
        }
        i = i + 1;
    }
    assert(pids@.take(pids@.len() as int) =~= pids@);
    r
}

/// One offered audio process: its shown name, its executable name and its id.
pub type AudioProcess = (String, String, u32);

/// Whether the name `n` is already among the kept entries.
pub open spec fn name_taken(kept: Seq<AudioProcess>, n: Seq<char>) -> bool {
    exists|i: int| 0 <= i < kept.len() && (#[trigger] kept[i]).0@ == n
}

/// The entries kept from `s`: in order, skipping those with an empty name and those whose
/// name an earlier kept entry already has.
pub open spec fn named_entries(s: Seq<AudioProcess>) -> Seq<AudioProcess>
    decreases s.len(),
{
    if s.len() == 0 {
        Seq::empty()
    } else {
        let prev = named_entries(s.drop_last());
        let e = s.last();
        if e.0@.len() == 0 || name_taken(prev, e.0@) {
            prev
        } else {
            prev.push(e)
        }
    }
}

/// The kept entries come from the input, have non-empty names, and no two share a name.
pub proof fn lemma_named_entries_distinct(s: Seq<AudioProcess>)
    ensures
        forall|i: int|
            0 <= i < named_entries(s).len() ==> (#[trigger] named_entries(s)[i]).0@.len() > 0 && s.contains(
                named_entries(s)[i],
            ),
        forall|i: int, j: int|
            0 <= i < j < named_entries(s).len() ==> named_entries(s)[i].0@ != named_entries(s)[j].0@,
    decreases s.len(),
{
    if s.len() > 0 {
        let prev = s.drop_last();
        lemma_named_entries_distinct(prev);
        let rp = named_entries(prev);
        let e = s.last();
        let r = named_entries(s);
        assert forall|i: int| 0 <= i < r.len() implies (#[trigger] r[i]).0@.len() > 0 && s.contains(r[i]) by {
            if i < rp.len() {
                assert(r[i] == rp[i]);
                let k = choose|k: int| 0 <= k < prev.len() && prev[k] == rp[i];
                assert(s[k] == prev[k]);
            } else {
                assert(s[s.len() - 1] == e);
            }
        }
        if !(e.0@.len() == 0 || name_taken(rp, e.0@)) {
            assert forall|i: int, j: int| 0 <= i < j < r.len() implies r[i].0@ != r[j].0@ by {
                if j == rp.len() {
                    assert(r[i] == rp[i]);
                    assert(!name_taken(rp, e.0@));
                    if r[i].0@ == e.0@ {
                        assert((#[trigger] rp[i]).0@ == e.0@);
                    }
                } else {
                    assert(r[i] == rp[i] && r[j] == rp[j]);
                }
            }
        }
    }
}

/// Drops the entries with an empty name or a name shown already, keeping the order.
pub fn distinct_named(entries: Vec<AudioProcess>) -> (r: Vec<AudioProcess>)
    ensures
        r@ == named_entries(entries@),
{
    let mut r: Vec<AudioProcess> = Vec::new();
    let mut i: usize = 0;
    while i < entries.len()
        invariant
            i <= entries@.len(),
            r@ == named_entries(entries@.take(i as int)),
        decreases entries@.len() - i,
    {
        assert(entries@.take(i + 1).drop_last() =~= entries@.take(i as int));
        let e = &entries[i];
        let name_chars = chars_of(e.0.as_str());
        let mut taken = false;
        let mut k: usize = 0;
        while k < r.len()
            invariant
                k <= r@.len(),
                taken == exists|j: int| 0 <= j < k && (#[trigger] r@[j]).0@ == e.0@,
            decreases r@.len() - k,
        {
            if r[k].0 == e.0 {
                taken = true;
            }
            k = k + 1;
        }
        if name_chars.len() > 0 && !taken {
            r.push((e.0.clone(), e.1.clone(), e.2));
            assert(r@.last() == entries@.take(i + 1).last());
        }
        i = i + 1;
    }
    assert(entries@.take(entries@.len() as int) =~= entries@);
    r
}

/// The first of the looked-up values (in the order they were tried) that was found and is
/// not empty.
pub open spec fn spec_first_found(values: Seq<Option<Seq<char>>>) -> Option<Seq<char>>
    decreases values.len(),
{
    if values.len() == 0 {
        None
    } else {
        match values[0] {
            Some(v) => if v.len() > 0 {
                Some(v)
            } else {
                spec_first_found(values.drop_first())
            },
            None => spec_first_found(values.drop_first()),
        }
    }
}

/// The views of optional strings.
pub open spec fn option_views(values: Seq<Option<String>>) -> Seq<Option<Seq<char>>> {
    values.map_values(
        |v: Option<String>|
            match v {
                Some(s) => Some(s@),
                None => None,
            },
    )
}

/// Picks the name a series of lookups gives (version-resource queries, registry keys):
/// the first value found that is not empty.
pub fn first_found(values: &[Option<String>]) -> (r: Option<String>)
    ensures
        match r {
            Some(v) => spec_first_found(option_views(values@)) == Some(v@),
            None => spec_first_found(option_views(values@)) is None,
        },
{
    let mut i: usize = values.len();
    let mut r: Option<String> = None;
    while i > 0
        invariant
            i <= values@.len(),
            match r {
                Some(v) => spec_first_found(option_views(values@).skip(i as int)) == Some(v@),
                None => spec_first_found(option_views(values@).skip(i as int)) is None,
            },
        decreases i,
    {
        i = i - 1;
        let ghost vs = option_views(values@);
        assert(vs.skip(i as int).drop_first() =~= vs.skip(i + 1));
        assert(vs.skip(i as int)[0] == vs[i as int]);
        match &values[i] {
            Some(v) => {
                if chars_of(v.as_str()).len() > 0 {
                    r = Some(v.clone());
                }
            },
            None => {},
        }
    }
    assert(option_views(values@).skip(0) =~= option_views(values@));
    r
}

/// The registry keys (under `HKEY_LOCAL_MACHINE`) consulted for an application's display
/// name, in the order they are tried.
pub open spec fn spec_registry_key_paths(exe_name: Seq<char>) -> Seq<Seq<char>> {
    seq![
        "SOFTWARE\\Microsoft\\Windows\\CurrentVersion\\App Paths\\"@ + exe_name + ".exe"@,
        "SOFTWARE\\WOW6432Node\\Microsoft\\Windows\\CurrentVersion\\Uninstall\\"@ + exe_name,
        "SOFTWARE\\Microsoft\\Windows\\CurrentVersion\\Uninstall\\"@ + exe_name,
    ]
}

/// The registry keys consulted for the display name of the executable `exe_name` (given
/// without `".exe"`).
pub fn registry_key_paths(exe_name: &str) -> (r: Vec<String>)
    ensures
        r@.len() == 3,
        forall|i: int| 0 <= i < 3 ==> (#[trigger] r@[i])@ == spec_registry_key_paths(exe_name@)[i],
{
    let mut a = String::from_str("SOFTWARE\\Microsoft\\Windows\\CurrentVersion\\App Paths\\");
    a.append(exe_name);
    a.append(".exe");
    let mut b = String::from_str("SOFTWARE\\WOW6432Node\\Microsoft\\Windows\\CurrentVersion\\Uninstall\\");
    b.append(exe_name);
    let mut c = String::from_str("SOFTWARE\\Microsoft\\Windows\\CurrentVersion\\Uninstall\\");
    c.append(exe_name);
    let mut r: Vec<String> = Vec::new();
    r.push(a);
    r.push(b);
    r.push(c);
    r
}

/// The version-resource query for the string `field` in the table of language `lang` and
/// code page `code_page`.
pub open spec fn table_query(lang: u16, code_page: u16, field: Seq<char>) -> Seq<char> {
    "\\StringFileInfo\\"@ + hex4(lang) + hex4(code_page) + "\\"@ + field
}

/// The version-resource queries are the declared translation's table, if any, then the
/// tables of Simplified Chinese (0x0804), US English (0x0409) and Traditional Chinese
/// (0x0404) with the Unicode code page (0x04B0), and US English with Windows-1252
/// (0x04E4): each table once, in that order.
pub proof fn lemma_version_queries_tables(translation: Option<(u16, u16)>, field: Seq<char>)
    ensures
        spec_version_queries(translation, field) == match translation {
            Some((lang, code_page)) => seq![table_query(lang, code_page, field)],
            None => Seq::<Seq<char>>::empty(),
        } + seq![
            table_query(0x0804, 0x04B0, field),
            table_query(0x0409, 0x04B0, field),
            table_query(0x0409, 0x04E4, field),
            table_query(0x0404, 0x04B0, field),
        ],
{
    reveal_strlit("\\StringFileInfo\\");
    reveal_strlit("\\");
    reveal_strlit("\\StringFileInfo\\080404B0\\");
    reveal_strlit("\\StringFileInfo\\040904B0\\");
    reveal_strlit("\\StringFileInfo\\040904E4\\");
    reveal_strlit("\\StringFileInfo\\040404B0\\");
    assert(hex4(0x0804) =~= seq!['0', '8', '0', '4']);
    assert(hex4(0x0409) =~= seq!['0', '4', '0', '9']);
    assert(hex4(0x0404) =~= seq!['0', '4', '0', '4']);
    assert(hex4(0x04B0) =~= seq!['0', '4', 'B', '0']);
    assert(hex4(0x04E4) =~= seq!['0', '4', 'E', '4']);
    assert(("\\StringFileInfo\\080404B0\\"@ + field) =~= table_query(0x0804, 0x04B0, field));
    assert(("\\StringFileInfo\\040904B0\\"@ + field) =~= table_query(0x0409, 0x04B0, field));
    assert(("\\StringFileInfo\\040904E4\\"@ + field) =~= table_query(0x0409, 0x04E4, field));
    assert(("\\StringFileInfo\\040404B0\\"@ + field) =~= table_query(0x0404, 0x04B0, field));
    assert(spec_version_queries(translation, field) =~= match translation {
        Some((lang, code_page)) => seq![table_query(lang, code_page, field)],
        None => Seq::<Seq<char>>::empty(),
    } + seq![
        table_query(0x0804, 0x04B0, field),
        table_query(0x0409, 0x04B0, field),
        table_query(0x0409, 0x04E4, field),
        table_query(0x0404, 0x04B0, field),
    ]);
}

/// The upper-case hexadecimal digit for `d` (below 16).
pub open spec fn hex_digit(d: nat) -> char {
    if d < 10 {
        (('0' as u32) + d) as char
    } else {
        (('A' as u32) + (d - 10)) as char
    }
}

/// Four upper-case hexadecimal digits, zero-padded (what `{:04X}` prints for a `u16`).
pub open spec fn hex4(v: u16) -> Seq<char> {
    seq![
        hex_digit(((v / 4096) % 16) as nat),
        hex_digit(((v / 256) % 16) as nat),
        hex_digit(((v / 16) % 16) as nat),
        hex_digit((v % 16) as nat),
    ]
}

fn hex_char(d: u16) -> (c: char)
    requires
        d < 16,
    ensures
        c == hex_digit(d as nat),
{
    match d {
        0 => '0',
        1 => '1',
        2 => '2',
        3 => '3',
        4 => '4',
        5 => '5',
        6 => '6',
        7 => '7',
        8 => '8',
        9 => '9',
        10 => 'A',
        11 => 'B',
        12 => 'C',
        13 => 'D',
        14 => 'E',
        _ => 'F',
    }
}

fn push_hex4(s: &mut String, v: u16)
    ensures
        final(s)@ == old(s)@ + hex4(v),
{
    push_char(s, hex_char((v / 4096) % 16));
    push_char(s, hex_char((v / 256) % 16));
    push_char(s, hex_char((v / 16) % 16));
    push_char(s, hex_char(v % 16));
    assert(final(s)@ =~= old(s)@ + hex4(v));
}

/// The version-resource queries tried for the string `field` (such as `"ProductName"`):
/// first the one for the language and code page the resource declares, when it declares
/// one, then the simplified Chinese, two US English and the traditional Chinese tables.
pub open spec fn spec_version_queries(translation: Option<(u16, u16)>, field: Seq<char>) -> Seq<Seq<char>> {
    let fallbacks = seq![
        "\\StringFileInfo\\080404B0\\"@ + field,
        "\\StringFileInfo\\040904B0\\"@ + field,
        "\\StringFileInfo\\040904E4\\"@ + field,
        "\\StringFileInfo\\040404B0\\"@ + field,
    ];
    match translation {
        Some((lang, code_page)) => seq![
            "\\StringFileInfo\\"@ + hex4(lang) + hex4(code_page) + "\\"@ + field,
        ] + fallbacks,
        None => fallbacks,
    }
}

/// The version-resource queries to try, in order, for the string `field`.
pub fn version_queries(translation: Option<(u16, u16)>, field: &str) -> (r: Vec<String>)
    ensures
        r@.len() == spec_version_queries(translation, field@).len(),
        forall|i: int|
            0 <= i < r@.len() ==> (#[trigger] r@[i])@ == spec_version_queries(translation, field@)[i],
{
    let mut r: Vec<String> = Vec::new();
    match translation {
        Some((lang, code_page)) => {
            let mut q = String::from_str("\\StringFileInfo\\");
            push_hex4(&mut q, lang);
            push_hex4(&mut q, code_page);
            q.append("\\");
            q.append(field);
            r.push(q);
        },
        None => {},
    }
    let mut a = String::from_str("\\StringFileInfo\\080404B0\\");
    a.append(field);
    r.push(a);
    let mut b = String::from_str("\\StringFileInfo\\040904B0\\");
    b.append(field);
    r.push(b);
    let mut c = String::from_str("\\StringFileInfo\\040904E4\\");
    c.append(field);
    r.push(c);
    let mut d = String::from_str("\\StringFileInfo\\040404B0\\");
    d.append(field);
    r.push(d);
    r
}

} // verus!
