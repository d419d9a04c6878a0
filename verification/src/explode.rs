//! The "explode" prank effects: which effect is selected, the pseudo-random noise source
//! the noisy effects draw from, and the delay line behind the demon voice's echo.

use vstd::prelude::*;

verus! {

/// The available distortion effects.
#[derive(Clone, Copy, PartialEq, Eq, Structural, Debug)]
pub enum ExplodeEffect {
    /// Square-wave distortion at high gain.
    Classic,
    /// High-frequency buzz with noise injected into quiet passages.
    Electric,
    /// Hard clipping at moderate volume.
    Distortion,
    /// Uniform noise mixed into the signal.
    WhiteNoise,
    /// Ring-modulated metallic voice.
    Robot,
    /// Low, rough voice with an echo.
    Demon,
}

/// The effect numbered `val`; unknown numbers select the classic effect.
pub open spec fn spec_effect_from_u32(val: u32) -> ExplodeEffect {
    if val == 1 {
        ExplodeEffect::Electric
    } else if val == 2 {
        ExplodeEffect::Distortion
    } else if val == 3 {
        ExplodeEffect::WhiteNoise
    } else if val == 4 {
        ExplodeEffect::Robot
    } else if val == 5 {
        ExplodeEffect::Demon
    } else {
        ExplodeEffect::Classic
    }
}

/// The number of an effect.
pub open spec fn spec_effect_number(e: ExplodeEffect) -> u32 {
    match e {
        ExplodeEffect::Classic => 0,
        ExplodeEffect::Electric => 1,
        ExplodeEffect::Distortion => 2,
        ExplodeEffect::WhiteNoise => 3,
        ExplodeEffect::Robot => 4,
        ExplodeEffect::Demon => 5,
    }
}

impl ExplodeEffect {
    /// The effect numbered `val` (`0` to `5`); any other number selects `Classic`.
    pub fn from_u32(val: u32) -> (e: Self)
        ensures
            e == spec_effect_from_u32(val),
    {
        match val {
            0 => ExplodeEffect::Classic,
            1 => ExplodeEffect::Electric,
            2 => ExplodeEffect::Distortion,
            3 => ExplodeEffect::WhiteNoise,
            4 => ExplodeEffect::Robot,
            5 => ExplodeEffect::Demon,
            _ => ExplodeEffect::Classic,
        }
    }

    /// The effect's number, as stored in the shared effect setting.
    pub fn to_u32(self) -> (n: u32)
        ensures
            n == spec_effect_number(self),
    {
        match self {
            ExplodeEffect::Classic => 0,
            ExplodeEffect::Electric => 1,
            ExplodeEffect::Distortion => 2,
            ExplodeEffect::WhiteNoise => 3,
            ExplodeEffect::Robot => 4,
            ExplodeEffect::Demon => 5,
        }
    }
}

/// Storing an effect's number and reading it back gives the same effect.
pub proof fn lemma_effect_number_round_trip(e: ExplodeEffect)
    ensures
        spec_effect_from_u32(spec_effect_number(e)) == e,
{
}

/// Reading a number as an effect and storing it back keeps known numbers and turns
/// every other number into `0`.
pub proof fn lemma_effect_number_normalizes(val: u32)
    ensures
        spec_effect_number(spec_effect_from_u32(val)) == if val <= 5 { val } else { 0 },
{
}

/// The effect a frame is processed with: none while the mode is off (the frame passes
/// through unchanged), otherwise the effect numbered by the shared setting.
pub fn select_effect(enabled: bool, effect_number: u32) -> (e: Option<ExplodeEffect>)
    ensures
        e == if enabled { Some(spec_effect_from_u32(effect_number)) } else { None },
{
    if !enabled {
        return None;
    }
    Some(ExplodeEffect::from_u32(effect_number))
}

/// One step of the linear congruential generator: `state * 1103515245 + 12345`, wrapping.
pub open spec fn lcg_next(state: u32) -> u32 {
    ((state as nat * 1103515245 + 12345) % 0x1_0000_0000) as u32
}

/// The 15 random bits drawn from a generator state: bits 16 to 30.
pub open spec fn lcg_output(state: u32) -> u32 {
    ((state / 0x1_0000) % 0x8000) as u32
}

/// The pseudo-random source behind the noisy effects.
pub struct NoiseSource {
    state: u32,
}

impl NoiseSource {
    pub closed spec fn state(self) -> u32 {
        self.state
    }

    /// A source with the fixed seed 12345.
    pub fn new() -> (s: Self)
        ensures
            s.state() == 12345,
    {
        NoiseSource { state: 12345 }
    }

    /// Advances the generator and returns its next 15 random bits (`0 ..= 32767`); the
    /// caller maps them onto `[-1, 1)` as `bits / 16384 - 1`.
    pub fn next_bits(&mut self) -> (v: u32)
        ensures
            final(self).state() == lcg_next(old(self).state()),
            v == lcg_output(final(self).state()),
            v < 0x8000,
    {
        let s: u32 = self.state.wrapping_mul(1103515245).wrapping_add(12345);
        proof {
            let x = self.state;
            assert(((x as nat * 1103515245) % 0x1_0000_0000 + 12345) % 0x1_0000_0000
                == (x as nat * 1103515245 + 12345) % 0x1_0000_0000) by (nonlinear_arith);
        }
        self.state = s;
        let v: u32 = (s >> 16) & 0x7FFF;
        assert(v == (s / 0x1_0000) % 0x8000) by (bit_vector)
            requires v == (s >> 16) & 0x7FFF;
        v
    }
}

/// Abstract state of a delay line: its slots and the slot written next.
pub struct DelayModel<T> {
    pub slots: Seq<T>,
    pub pos: nat,
}

impl<T> DelayModel<T> {
    pub open spec fn wf(self) -> bool {
        0 < self.slots.len() && self.pos < self.slots.len()
    }
}

/// Writing `v` into the current slot and moving on (wrapping at the end).
pub open spec fn delay_write<T>(m: DelayModel<T>, v: T) -> DelayModel<T> {
    DelayModel { slots: m.slots.update(m.pos as int, v), pos: (m.pos + 1) % m.slots.len() }
}

/// The slot `delay` positions behind the current one.
pub open spec fn delay_read<T>(m: DelayModel<T>, delay: nat) -> T {
    m.slots[((m.pos + m.slots.len() - delay) % (m.slots.len() as int))]
}

/// Writing each of `vs` in turn.
pub open spec fn delay_write_all<T>(m: DelayModel<T>, vs: Seq<T>) -> DelayModel<T>
    decreases vs.len(),
{
    if vs.len() == 0 {
        m
    } else {
        delay_write(delay_write_all(m, vs.drop_last()), vs.last())
    }
}

/// A circular delay line holding the most recent values written to it.
pub struct DelayLine<T: Copy> {
    slots: Vec<T>,
    pos: usize,
}

impl<T: Copy> DelayLine<T> {
    pub closed spec fn model(self) -> DelayModel<T> {
        DelayModel { slots: self.slots@, pos: self.pos as nat }
    }

    pub closed spec fn wf(self) -> bool {
        &&& 0 < self.slots@.len()
        &&& self.pos < self.slots@.len()
        &&& self.slots@.len() <= usize::MAX / 2
    }

    /// A delay line of `len` slots, all holding `fill`, writing at slot 0 first.
    pub fn new(len: usize, fill: T) -> (d: Self)
        requires
            0 < len <= usize::MAX / 2,
        ensures
            d.wf(),
            d.model().slots == Seq::new(len as nat, |i: int| fill),
            d.model().pos == 0,
    {
        let mut slots: Vec<T> = Vec::new();
        let mut i: usize = 0;
        while i < len
            invariant
                i <= len,
                slots@ == Seq::new(i as nat, |k: int| fill),
            decreases len - i,
        {
            slots.push(fill);
            i = i + 1;
            assert(slots@ =~= Seq::new(i as nat, |k: int| fill));
        }
        DelayLine { slots, pos: 0 }
    }

    /// Number of slots.
    pub fn len(&self) -> (n: usize)
        ensures
            n == self.model().slots.len(),
    {
        self.slots.len()
    }

    /// The value `delay` writes behind the next write position.
    pub fn read(&self, delay: usize) -> (v: T)
        requires
            self.wf(),
            delay <= self.model().pos + self.model().slots.len(),
        ensures
            v == delay_read(self.model(), delay as nat),
    {
        let len: usize = self.slots.len();
        let i: usize = (self.pos + len - delay) % len;
        self.slots[i]
    }

    /// Writes `v` into the current slot and moves to the next one.
    pub fn write(&mut self, v: T)
        requires
            old(self).wf(),
        ensures
            final(self).wf(),
            final(self).model() == delay_write(old(self).model(), v),
    {
        let len: usize = self.slots.len();
        let p: usize = self.pos;
        self.slots.set(p, v);
        self.pos = (p + 1) % len;
    }
}

/// An echo read `k + 1` writes after a value was written (with `k` below the line's
/// length) gives back that value.
pub proof fn lemma_delay_echo<T>(m: DelayModel<T>, v: T, vs: Seq<T>)
    requires
        m.wf(),
        vs.len() < m.slots.len(),
    ensures
        delay_read(delay_write_all(delay_write(m, v), vs), (vs.len() + 1) as nat) == v,
{
    lemma_delay_after_writes(m, v, vs);
    let n = m.slots.len() as int;
    let p = m.pos as int;
    let k = vs.len() as int;
    let after = delay_write_all(delay_write(m, v), vs);
    assert(after.pos == (p + 1 + k) % n);
    if p + 1 + k < n {
        assert((p + 1 + k) % n == p + 1 + k) by {
            vstd::arithmetic::div_mod::lemma_small_mod((p + 1 + k) as nat, n as nat);
        }
        vstd::arithmetic::div_mod::lemma_small_mod(p as nat, n as nat);
        assert((p + 1 + k + n - (k + 1)) % n == (p + n) % n);
        vstd::arithmetic::div_mod::lemma_mod_add_multiples_vanish(p, n);
    } else {
        assert((p + 1 + k) % n == p + 1 + k - n) by {
            vstd::arithmetic::div_mod::lemma_mod_sub_multiples_vanish(p + 1 + k, n);
            vstd::arithmetic::div_mod::lemma_small_mod((p + 1 + k - n) as nat, n as nat);
        }
        vstd::arithmetic::div_mod::lemma_small_mod(p as nat, n as nat);
    }
}

/// After writing `v` and then `vs`, the write position moved `vs.len() + 1` slots on and
/// `v`'s slot still holds it.
proof fn lemma_delay_after_writes<T>(m: DelayModel<T>, v: T, vs: Seq<T>)
    requires
        m.wf(),
        vs.len() < m.slots.len(),
    ensures
        ({
            let after = delay_write_all(delay_write(m, v), vs);
            &&& after.slots.len() == m.slots.len()
            &&& after.pos == (m.pos + 1 + vs.len()) as int % (m.slots.len() as int)
            &&& after.slots[m.pos as int] == v
        }),
    decreases vs.len(),
{
    let n = m.slots.len() as int;
    let p = m.pos as int;
    if vs.len() == 0 {
    } else {
        let init = vs.drop_last();
        lemma_delay_after_writes(m, v, init);
        let mid = delay_write_all(delay_write(m, v), init);
        let k = init.len() as int;
        assert(mid.pos == (p + 1 + k) % n);
        assert(0 <= mid.pos < n) by {
            vstd::arithmetic::div_mod::lemma_mod_bound(p + 1 + k, n);
        }
        // the new write goes to slot (p + 1 + k) % n, which is not p
        if p + 1 + k < n {
            vstd::arithmetic::div_mod::lemma_small_mod((p + 1 + k) as nat, n as nat);
        } else {
            vstd::arithmetic::div_mod::lemma_mod_sub_multiples_vanish(p + 1 + k, n);
            vstd::arithmetic::div_mod::lemma_small_mod((p + 1 + k - n) as nat, n as nat);
        }
        assert(mid.pos != p);
        // position advance
        vstd::arithmetic::div_mod::lemma_add_mod_noop(p + 1 + k, 1, n);
        vstd::arithmetic::div_mod::lemma_small_mod(1, n as nat);
        if n > 1 {
        }
    }
}

} // verus!
