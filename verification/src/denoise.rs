//! Noise-suppression model selection and the persistence of a model's adaptive state
//! across model switches.

use vstd::prelude::*;
use crate::pcm::{
    le_bytes_of_words, le_byte, le_value, lemma_le_value_bound, lemma_pow256_values, lemma_words_round_trip,
    pow256, read_le_words,
};
use crate::text::str_eq;

verus! {

/// Samples per processed frame: 10 ms at 48 kHz.
pub const FRAME_SIZE: usize = 480;

/// The models offered to the user.
pub fn list_models() -> (r: Vec<&'static str>)
    ensures
        r@.len() == 2,
        r@[0]@ == "RNNoise"@,
        r@[1]@ == "DeepFilterNet3"@,
{
    let mut v: Vec<&'static str> = Vec::new();
    v.push("RNNoise");
    v.push("DeepFilterNet3");
    v
}

/// The two model implementations.
#[derive(Clone, Copy, PartialEq, Eq, Structural, Debug)]
pub enum ModelKind {
    Rnnoise,
    DeepFilter,
}

impl ModelKind {
    pub open spec fn spec_display_name(self) -> Seq<char> {
        match self {
            ModelKind::Rnnoise => "RNNoise"@,
            ModelKind::DeepFilter => "DeepFilterNet"@,
        }
    }

    /// The name a running model reports (and under which its state is saved).
    pub fn display_name(self) -> (n: &'static str)
        ensures
            n@ == self.spec_display_name(),
    {
        match self {
            ModelKind::Rnnoise => "RNNoise",
            ModelKind::DeepFilter => "DeepFilterNet",
        }
    }
}

/// The model to build for a requested name: DeepFilterNet only when `"DeepFilterNet3"` is
/// asked for and a resource directory to load it from is known; RNNoise otherwise (and
/// also when loading DeepFilterNet fails).
pub fn choose_model(name: &str, has_resource_dir: bool) -> (k: ModelKind)
    ensures
        k == if name@ == "DeepFilterNet3"@ && has_resource_dir {
            ModelKind::DeepFilter
        } else {
            ModelKind::Rnnoise
        },
{
    if str_eq(name, "DeepFilterNet3") && has_resource_dir {
        ModelKind::DeepFilter
    } else {
        ModelKind::Rnnoise
    }
}

/// The requested model name, RNNoise when none was requested.
pub fn requested_model(name: Option<&str>) -> (r: &str)
    ensures
        r@ == match name {
            Some(n) => n@,
            None => "RNNoise"@,
        },
{
    match name {
        Some(n) => n,
        None => "RNNoise",
    }
}

/// Serialises normalisation state words (the IEEE bits of each value) as four
/// little-endian bytes each.
pub fn save_norm_state(words: &[u32]) -> (r: Vec<u8>)
    requires
        words@.len() * 4 + 8 <= usize::MAX,
    ensures
        r@.len() == words@.len() * 4,
        forall|i: int, k: int|
            0 <= i < words@.len() && 0 <= k < 4 ==> #[trigger] r@[i * 4 + k] == le_byte(
                #[trigger] words@[i] as nat,
                k as nat,
            ),
{
    let mut wide: Vec<u64> = Vec::new();
    let mut i: usize = 0;
    while i < words.len()
        invariant
            i <= words@.len(),
            wide@.len() == i,
            forall|j: int| 0 <= j < i ==> #[trigger] wide@[j] == words@[j] as u64,
        decreases words@.len() - i,
    {
        wide.push(words[i] as u64);
        i = i + 1;
    }
    let r = le_bytes_of_words(wide.as_slice(), 4);
    assert forall|i: int, k: int| 0 <= i < words@.len() && 0 <= k < 4 implies #[trigger] r@[i * 4 + k]
        == le_byte(#[trigger] words@[i] as nat, k as nat) by {
        assert(wide@[i] == words@[i] as u64);
    }
    r
}

/// Restores normalisation state from saved bytes: `None` (the state is left as it is)
/// unless the bytes hold exactly `expected_words` four-byte words.
pub fn load_norm_state(state: &[u8], expected_words: usize) -> (r: Option<Vec<u32>>)
    requires
        expected_words * 4 <= usize::MAX,
    ensures
        match r {
            None => state@.len() != expected_words * 4,
            Some(w) => state@.len() == expected_words * 4 && w@.len() == expected_words && forall|
                i: int,
            |
                0 <= i < expected_words ==> #[trigger] w@[i] as nat == le_value(
                    state@.subrange(i * 4, i * 4 + 4),
                ),
        },
{
    if state.len() != expected_words * 4 {
        return None;
    }
    let wide = read_le_words(state, 4, expected_words);
    proof {
        assert(state@.len() / 4 == expected_words as nat);
        lemma_pow256_values();
    }
    let mut w: Vec<u32> = Vec::new();
    let mut i: usize = 0;
    while i < wide.len()
        invariant
            wide@.len() == expected_words,
            state@.len() == expected_words * 4,
            i <= wide@.len(),
            w@.len() == i,
            pow256(4) == 0x1_0000_0000,
            forall|j: int|
                0 <= j < wide@.len() ==> #[trigger] wide@[j] as nat == le_value(
                    state@.subrange(j * 4, j * 4 + 4),
                ),
            forall|j: int| 0 <= j < i ==> #[trigger] w@[j] as nat == wide@[j] as nat,
        decreases wide@.len() - i,
    {
        proof {
            assert(i * 4 + 4 <= state@.len()) by (nonlinear_arith)
                requires i < expected_words, state@.len() == expected_words * 4;
            lemma_le_value_bound(state@.subrange(i * 4, i * 4 + 4));
        }
        w.push(wide[i] as u32);
        i = i + 1;
    }
    Some(w)
}

/// Saving the normalisation state and loading it back restores every word bit for bit.
pub proof fn lemma_norm_state_round_trip(words: Seq<u32>, saved: Seq<u8>, loaded: Seq<u32>)
    requires
        saved.len() == words.len() * 4,
        forall|i: int, k: int|
            0 <= i < words.len() && 0 <= k < 4 ==> #[trigger] saved[i * 4 + k] == le_byte(
                #[trigger] words[i] as nat,
                k as nat,
            ),
        loaded.len() == words.len(),
        forall|i: int|
            0 <= i < words.len() ==> #[trigger] loaded[i] as nat == le_value(
                saved.subrange(i * 4, i * 4 + 4),
            ),
    ensures
        loaded == words,
{
    let wide = words.map_values(|x: u32| x as u64);
    lemma_pow256_values();
    assert forall|i: int, k: int| 0 <= i < wide.len() && 0 <= k < 4 implies #[trigger] saved[i * 4 + k]
        == le_byte(#[trigger] wide[i] as nat, k as nat) by {
        assert(wide[i] as nat == words[i] as nat);
    }
    lemma_words_round_trip(wide, 4, saved);
    assert forall|i: int| 0 <= i < words.len() implies loaded[i] == words[i] by {
        assert(le_value(saved.subrange(i * 4, i * 4 + 4)) == wide[i] as nat);
    }
    assert(loaded =~= words);
}

/// The map a list of `(model name, saved state)` entries stands for.
pub open spec fn entries_map(s: Seq<(String, Vec<u8>)>) -> Map<Seq<char>, Seq<u8>>
    decreases s.len(),
{
    if s.len() == 0 {
        Map::empty()
    } else {
        entries_map(s.drop_last()).insert(s.last().0@, s.last().1@)
    }
}

/// No two entries are saved under the same name.
pub open spec fn names_distinct(s: Seq<(String, Vec<u8>)>) -> bool {
    forall|i: int, j: int| 0 <= i < j < s.len() ==> s[i].0@ != s[j].0@
}

/// A name is in the map exactly when an entry carries it, and then (names being
/// distinct) the map holds that entry's state.
proof fn lemma_entries_map_lookup(s: Seq<(String, Vec<u8>)>, k: Seq<char>)
    requires
        names_distinct(s),
    ensures
        entries_map(s).contains_key(k) <==> exists|i: int| 0 <= i < s.len() && s[i].0@ == k,
        forall|i: int| 0 <= i < s.len() && s[i].0@ == k ==> entries_map(s)[k] == s[i].1@,
    decreases s.len(),
{
    if s.len() > 0 {
        let d = s.drop_last();
        assert(names_distinct(d)) by {
            assert forall|i: int, j: int| 0 <= i < j < d.len() implies d[i].0@ != d[j].0@ by {
                assert(d[i] == s[i] && d[j] == s[j]);
            }
        }
        lemma_entries_map_lookup(d, k);
        let last = s.len() - 1;
        assert(s[last] == s.last());
        if entries_map(s).contains_key(k) && s.last().0@ != k {
            let i = choose|i: int| 0 <= i < d.len() && d[i].0@ == k;
            assert(s[i] == d[i]);
        }
        if exists|i: int| 0 <= i < s.len() && s[i].0@ == k {
            let i = choose|i: int| 0 <= i < s.len() && s[i].0@ == k;
            if i < last {
                assert(d[i] == s[i]);
            }
        }
        assert forall|i: int| 0 <= i < s.len() && s[i].0@ == k implies entries_map(s)[k] == s[i].1@ by {
            if i < last {
                assert(d[i] == s[i]);
                assert(s[i].0@ != s[last].0@);
            }
        }
    }
}

/// Replacing the entry of a name updates that name in the map.
proof fn lemma_entries_map_update(s: Seq<(String, Vec<u8>)>, i: int, e: (String, Vec<u8>))
    requires
        names_distinct(s),
        0 <= i < s.len(),
        s[i].0@ == e.0@,
    ensures
        entries_map(s.update(i, e)) == entries_map(s).insert(e.0@, e.1@),
    decreases s.len(),
{
    let u = s.update(i, e);
    let d = s.drop_last();
    let last = s.len() - 1;
    if i == last {
        assert(u.drop_last() =~= d);
        assert(u.last() == e);
        assert(entries_map(u) =~= entries_map(s).insert(e.0@, e.1@));
    } else {
        assert(names_distinct(d)) by {
            assert forall|a: int, b: int| 0 <= a < b < d.len() implies d[a].0@ != d[b].0@ by {
                assert(d[a] == s[a] && d[b] == s[b]);
            }
        }
        assert(d[i] == s[i]);
        lemma_entries_map_update(d, i, e);
        assert(u.drop_last() =~= d.update(i, e));
        assert(u.last() == s.last());
        assert(s[last] == s.last());
        assert(s.last().0@ != e.0@);
        assert(entries_map(u) =~= entries_map(s).insert(e.0@, e.1@));
    }
}

/// Removing the entry of a name removes that name from the map.
proof fn lemma_entries_map_remove(s: Seq<(String, Vec<u8>)>, i: int)
    requires
        names_distinct(s),
        0 <= i < s.len(),
    ensures
        entries_map(s.remove(i)) == entries_map(s).remove(s[i].0@),
        names_distinct(s.remove(i)),
    decreases s.len(),
{
    let r = s.remove(i);
    let d = s.drop_last();
    let last = s.len() - 1;
    let k = s[i].0@;
    assert(names_distinct(d)) by {
        assert forall|a: int, b: int| 0 <= a < b < d.len() implies d[a].0@ != d[b].0@ by {
            assert(d[a] == s[a] && d[b] == s[b]);
        }
    }
    assert(names_distinct(r)) by {
        assert forall|a: int, b: int| 0 <= a < b < r.len() implies r[a].0@ != r[b].0@ by {
            let sa = if a < i { a } else { a + 1 };
            let sb = if b < i { b } else { b + 1 };
            assert(r[a] == s[sa] && r[b] == s[sb]);
        }
    }
    if i == last {
        assert(r =~= d);
        lemma_entries_map_lookup(d, k);
        assert forall|j: int| 0 <= j < d.len() implies d[j].0@ != k by {
            assert(d[j] == s[j]);
        }
        assert(!entries_map(d).contains_key(k));
        assert(s[last] == s.last());
        assert(entries_map(r) =~= entries_map(s).remove(k));
    } else {
        assert(d[i] == s[i]);
        lemma_entries_map_remove(d, i);
        assert(r.drop_last() =~= d.remove(i));
        assert(r.last() == s.last());
        assert(s[last] == s.last());
        assert(s.last().0@ != k);
        assert(entries_map(r) =~= entries_map(s).remove(k));
    }
}

/// The adaptive states of the models, saved under each model's name so that a model
/// switched away from and back to resumes where it was. Held as a list of pairs with no
/// name twice: vstd's specification of `HashMap` applies only to key types with a key
/// model, and `String` has none.
#[derive(Clone)]
pub struct ModelStates {
    entries: Vec<(String, Vec<u8>)>,
}

impl View for ModelStates {
    type V = Map<Seq<char>, Seq<u8>>;

    closed spec fn view(&self) -> Map<Seq<char>, Seq<u8>> {
        entries_map(self.entries@)
    }
}

impl ModelStates {
    /// Each name is saved once.
    pub closed spec fn wf(self) -> bool {
        names_distinct(self.entries@)
    }

    /// No saved state.
    pub fn new() -> (m: Self)
        ensures
            m.wf(),
            m@ == Map::<Seq<char>, Seq<u8>>::empty(),
    {
        ModelStates { entries: Vec::new() }
    }

    /// The position of the entry saved under `name`.
    fn find(&self, name: &str) -> (r: Option<usize>)
        ensures
            match r {
                Some(i) => i < self.entries@.len() && self.entries@[i as int].0@ == name@,
                None => forall|i: int| 0 <= i < self.entries@.len() ==> self.entries@[i].0@ != name@,
            },
    {
        let mut i: usize = 0;
        while i < self.entries.len()
            invariant
                i <= self.entries@.len(),
                forall|j: int| 0 <= j < i ==> self.entries@[j].0@ != name@,
            decreases self.entries@.len() - i,
        {
            if str_eq(self.entries[i].0.as_str(), name) {
                return Some(i);
            }
            i = i + 1;
        }
        None
    }

    /// The state saved under `name`, if any.
    pub fn get(&self, name: &str) -> (r: Option<&Vec<u8>>)
        requires
            self.wf(),
        ensures
            match r {
                Some(v) => self@.contains_key(name@) && v@ == self@[name@],
                None => !self@.contains_key(name@),
            },
    {
        proof {
            lemma_entries_map_lookup(self.entries@, name@);
        }
        match self.find(name) {
            Some(i) => Some(&self.entries[i].1),
            None => None,
        }
    }

    /// Saves `state` under `name`, replacing what was saved under it.
    pub fn insert(&mut self, name: &str, state: Vec<u8>)
        requires
            old(self).wf(),
        ensures
            final(self).wf(),
            final(self)@ == old(self)@.insert(name@, state@),
    {
        let e = (String::from_str(name), state);
        match self.find(name) {
            Some(i) => {
                proof {
                    lemma_entries_map_update(self.entries@, i as int, e);
                }
                self.entries.set(i, e);
                assert(names_distinct(self.entries@)) by {
                    assert forall|a: int, b: int| 0 <= a < b < self.entries@.len() implies self.entries@[a].0@
                        != self.entries@[b].0@ by {
                        if a != i && b != i {
                            assert(self.entries@[a] == old(self).entries@[a]);
                            assert(self.entries@[b] == old(self).entries@[b]);
                        } else if a == i {
                            assert(self.entries@[b] == old(self).entries@[b]);
                        } else {
                            assert(self.entries@[a] == old(self).entries@[a]);
                        }
                    }
                }
            },
            None => {
                let ghost before = self.entries@;
                self.entries.push(e);
                assert(self.entries@.drop_last() =~= before);
                assert(names_distinct(self.entries@)) by {
                    assert forall|a: int, b: int| 0 <= a < b < self.entries@.len() implies self.entries@[a].0@
                        != self.entries@[b].0@ by {
                        assert(self.entries@[a] == before[a]);
                        if b < before.len() {
                            assert(self.entries@[b] == before[b]);
                        }
                    }
                }
            },
        }
    }

    /// Forgets what was saved under `name`.
    pub fn remove(&mut self, name: &str)
        requires
            old(self).wf(),
        ensures
            final(self).wf(),
            final(self)@ == old(self)@.remove(name@),
    {
        match self.find(name) {
            Some(i) => {
                proof {
                    lemma_entries_map_remove(self.entries@, i as int);
                }
                let _ = self.entries.remove(i);
            },
            None => {
                proof {
                    lemma_entries_map_lookup(self.entries@, name@);
                    assert(self@ =~= old(self)@.remove(name@));
                }
            },
        }
    }
}

/// The bookkeeping of a model switch: the outgoing model's state, when it has one, is saved
/// under the outgoing model's name; the incoming model then resumes from the state saved
/// under its own name, if any (returned).
pub fn switch_model_states(states: &mut ModelStates, current: &str, saved: Option<Vec<u8>>, next: &str) -> (r: Option<
    Vec<u8>,
>)
    requires
        old(states).wf(),
    ensures
        final(states).wf(),
        final(states)@ == match saved {
            Some(v) => old(states)@.insert(current@, v@),
            None => old(states)@,
        },
        match r {
            Some(v) => final(states)@.contains_key(next@) && v@ == final(states)@[next@],
            None => !final(states)@.contains_key(next@),
        },
{
    match saved {
        Some(v) => states.insert(current, v),
        None => {},
    }
    match states.get(next) {
        Some(v) => Some(v.clone()),
        None => None,
    }
}

/// A state saved under a name is what is found under that name afterwards, and saving or
/// forgetting one name leaves the others as they were.
pub proof fn lemma_saved_state_restored(m: Map<Seq<char>, Seq<u8>>, name: Seq<char>, state: Seq<u8>, other: Seq<char>)
    requires
        other != name,
    ensures
        m.insert(name, state).contains_key(name),
        m.insert(name, state)[name] == state,
        m.insert(name, state).contains_key(other) == m.contains_key(other),
        m.contains_key(other) ==> m.insert(name, state)[other] == m[other],
        !m.remove(name).contains_key(name),
        m.remove(name).contains_key(other) == m.contains_key(other),
        m.contains_key(other) ==> m.remove(name)[other] == m[other],
{
}

/// A fixed-length window over the most recent feature frames, oldest first: each new
/// frame pushes the oldest one out.
pub struct FrameWindow<T> {
    frames: Vec<T>,
}

impl<T> FrameWindow<T> {
    /// The frames, oldest first.
    pub closed spec fn frames(self) -> Seq<T> {
        self.frames@
    }

    /// A window holding the given initial frames.
    pub fn new(frames: Vec<T>) -> (w: Self)
        ensures
            w.frames() == frames@,
    {
        FrameWindow { frames }
    }

    /// Number of frames in the window.
    pub fn len(&self) -> (n: usize)
        ensures
            n == self.frames().len(),
    {
        self.frames.len()
    }

    /// The frame at position `i` (0 is the oldest).
    pub fn get(&self, i: usize) -> (f: &T)
        requires
            i < self.frames().len(),
        ensures
            *f == self.frames()[i as int],
    {
        &self.frames[i]
    }

    /// Drops the oldest frame and appends `frame` as the newest.
    pub fn push(&mut self, frame: T)
        requires
            old(self).frames().len() > 0,
        ensures
            final(self).frames() == old(self).frames().drop_first().push(frame),
    {
        self.frames.remove(0);
        self.frames.push(frame);
        assert(self.frames@ =~= old(self).frames().drop_first().push(frame));
    }
}

/// A window never changes length.
pub proof fn lemma_window_length_constant<T>(frames: Seq<T>, frame: T)
    requires
        frames.len() > 0,
    ensures
        frames.drop_first().push(frame).len() == frames.len(),
{
}

/// The history frame a deep-filter tap reads: for tap `t` (1 for the previous frame, 2 for
/// the one before, ...) in a history of `len` frames, index `len - t`, or the oldest
/// frame when the history is shorter than the tap; nothing from an empty history, and
/// nothing for tap 0 (which reads the current frame instead).
pub fn tap_frame_index(len: usize, tap: usize) -> (r: Option<usize>)
    ensures
        r == if len == 0 || tap == 0 {
            None
        } else if tap <= len {
            Some((len - tap) as usize)
        } else {
            Some(0usize)
        },
{
    let idx: usize = len.saturating_sub(tap);
    if idx < len {
        Some(idx)
    } else {
        None
    }
}

/// How many frames of spectrum history the deep filter keeps.
pub const HISTORY_FRAMES: usize = 6;

/// The most recent spectra, oldest first, never more than `HISTORY_FRAMES` of them.
pub struct SpectrumHistory<T> {
    frames: std::collections::VecDeque<T>,
}

impl<T> SpectrumHistory<T> {
    pub closed spec fn frames(self) -> Seq<T> {
        self.frames@
    }

    pub fn new() -> (h: Self)
        ensures
            h.frames().len() == 0,
    {
        SpectrumHistory { frames: std::collections::VecDeque::new() }
    }

    pub fn len(&self) -> (n: usize)
        ensures
            n == self.frames().len(),
    {
        self.frames.len()
    }

    /// The frame at position `i` (0 is the oldest).
    pub fn get(&self, i: usize) -> (f: &T)
        requires
            i < self.frames().len(),
        ensures
            *f == self.frames()[i as int],
    {
        &self.frames[i]
    }

    /// Appends the newest spectrum, dropping the oldest one when the history is over its
    /// bound.
    pub fn push(&mut self, frame: T)
        requires
            old(self).frames().len() <= HISTORY_FRAMES,
        ensures
            final(self).frames().len() <= HISTORY_FRAMES,
            final(self).frames() == if old(self).frames().len() + 1 > HISTORY_FRAMES {
                old(self).frames().push(frame).drop_first()
            } else {
                old(self).frames().push(frame)
            },
    {
        self.frames.push_back(frame);
        if self.frames.len() > HISTORY_FRAMES {
            let _ = self.frames.pop_front();
            assert(self.frames@ =~= old(self).frames().push(frame).drop_first());
        }
    }
}

} // verus!
