//! PCM sample codecs: decoding device bytes into integer sample values or raw
//! little-endian words, and laying sample words out into interleaved device buffers.

use vstd::prelude::*;
use vstd::arithmetic::div_mod::{
    lemma_div_denominator, lemma_breakdown, lemma_fundamental_div_mod_converse_mod,
    lemma_div_multiples_vanish_fancy,
};

verus! {

/// How a device stores one sample: as a signed integer or as an IEEE float.
#[derive(Clone, Copy, PartialEq, Eq, Structural, Debug)]
pub enum SampleFormat {
    Int,
    Float,
}

/// `256` to the power `n`.
pub open spec fn pow256(n: nat) -> nat
    decreases n,
{
    if n == 0 {
        1
    } else {
        256 * pow256((n - 1) as nat)
    }
}

/// The unsigned little-endian value of a byte sequence.
pub open spec fn le_value(s: Seq<u8>) -> nat
    decreases s.len(),
{
    if s.len() == 0 {
        0
    } else {
        s[0] as nat + 256 * le_value(s.drop_first())
    }
}

/// Byte `k` (counting from the least significant) of the little-endian encoding of `w`.
pub open spec fn le_byte(w: nat, k: nat) -> u8 {
    ((w / pow256(k)) % 256) as u8
}

/// The two's complement reading of the unsigned `bits`-wide value `w`.
pub open spec fn signed_value(w: nat, bits: nat) -> int {
    if w >= pow2_nat((bits - 1) as nat) {
        w - pow2_nat(bits)
    } else {
        w as int
    }
}

/// `2` to the power `n`.
pub open spec fn pow2_nat(n: nat) -> nat
    decreases n,
{
    if n == 0 {
        1
    } else {
        2 * pow2_nat((n - 1) as nat)
    }
}

pub proof fn lemma_pow256_values()
    ensures
        pow256(0) == 1,
        pow256(1) == 0x100,
        pow256(2) == 0x1_0000,
        pow256(3) == 0x100_0000,
        pow256(4) == 0x1_0000_0000,
        pow256(5) == 0x100_0000_0000,
        pow256(6) == 0x1_0000_0000_0000,
        pow256(7) == 0x100_0000_0000_0000,
        pow256(8) == 0x1_0000_0000_0000_0000,
{
    reveal_with_fuel(pow256, 9);
}

pub proof fn lemma_pow2_values()
    ensures
        pow2_nat(7) == 0x80,
        pow2_nat(8) == 0x100,
        pow2_nat(15) == 0x8000,
        pow2_nat(16) == 0x1_0000,
        pow2_nat(23) == 0x80_0000,
        pow2_nat(24) == 0x100_0000,
        pow2_nat(31) == 0x8000_0000,
        pow2_nat(32) == 0x1_0000_0000,
{
    reveal_with_fuel(pow2_nat, 33);
}

/// A little-endian value of `n` bytes is below `256^n`.
pub proof fn lemma_le_value_bound(s: Seq<u8>)
    ensures
        le_value(s) < pow256(s.len()),
    decreases s.len(),
{
    if s.len() > 0 {
        lemma_le_value_bound(s.drop_first());
        assert(s.drop_first().len() == s.len() - 1);
    }
}

/// Peeling the first byte of a window of `s`.
proof fn lemma_le_value_window(s: Seq<u8>, a: int, e: int)
    requires
        0 <= a < e <= s.len(),
    ensures
        le_value(s.subrange(a, e)) == s[a] as nat + 256 * le_value(s.subrange(a + 1, e)),
{
    assert(s.subrange(a, e).drop_first() =~= s.subrange(a + 1, e));
}

/// The unsigned little-endian value of `buf[base .. base + width]`.
fn le_word(buf: &[u8], base: usize, width: usize) -> (w: u64)
    requires
        1 <= width <= 8,
        base + width <= buf@.len(),
    ensures
        w as nat == le_value(buf@.subrange(base as int, base + width)),
{
    proof {
        lemma_pow256_values();
    }
    let len: usize = buf.len();
    let mut acc: u64 = 0;
    let mut k: usize = width;
    assert(buf@.subrange(base + width, base + width) =~= Seq::<u8>::empty());
    while k > 0
        invariant
            1 <= width <= 8,
            base + width <= buf@.len(),
            buf@.len() == len,
            k <= width,
            acc as nat == le_value(buf@.subrange(base + k, base + width)),
            acc < pow256((width - k) as nat),
            pow256(0) == 1,
            pow256(7) == 0x100_0000_0000_0000,
        decreases k,
    {
        proof {
            lemma_le_value_window(buf@, base + k - 1, base + width as int);
            lemma_pow_monotone((width - k) as nat, 7);
        }
        let b: u8 = buf[base + k - 1];
        acc = acc * 256 + b as u64;
        k = k - 1;
        proof {
            assert(pow256((width - k) as nat) == 256 * pow256((width - k - 1) as nat));
        }
    }
    acc
}

proof fn lemma_pow_monotone(a: nat, b: nat)
    requires
        a <= b,
    ensures
        pow256(a) <= pow256(b),
    decreases b,
{
    if a < b {
        lemma_pow_monotone(a, (b - 1) as nat);
    }
}

/// Reads consecutive little-endian words of `width` bytes from `buf`: as many as `buf`
/// holds whole, but at most `max_out`. A trailing partial word is ignored.
pub fn read_le_words(buf: &[u8], width: usize, max_out: usize) -> (r: Vec<u64>)
    requires
        1 <= width <= 8,
    ensures
        r@.len() == if buf@.len() / (width as nat) < max_out {
            buf@.len() / (width as nat)
        } else {
            max_out as nat
        },
        forall|i: int|
            0 <= i < r@.len() ==> #[trigger] r@[i] as nat == le_value(
                buf@.subrange(i * width, i * width + width),
            ),
{
    let whole: usize = buf.len() / width;
    let n: usize = if whole < max_out { whole } else { max_out };
    let mut r: Vec<u64> = Vec::new();
    let mut i: usize = 0;
    let len: usize = buf.len();
    while i < n
        invariant
            1 <= width <= 8,
            buf@.len() == len,
            n <= buf@.len() / (width as nat),
            i <= n,
            r@.len() == i,
            forall|j: int|
                0 <= j < i ==> #[trigger] r@[j] as nat == le_value(
                    buf@.subrange(j * width, j * width + width),
                ),
        decreases n - i,
    {
        proof {
            assert((i + 1) * width <= n * width) by (nonlinear_arith)
                requires i + 1 <= n;
            assert(n * width <= buf@.len()) by (nonlinear_arith)
                requires n <= buf@.len() / (width as nat), width >= 1;
            assert(i * width + width == (i + 1) * width) by (nonlinear_arith);
        }
        let w: u64 = le_word(buf, i * width, width);
        r.push(w);
        i = i + 1;
    }
    r
}


/// How an input stream's samples are laid out, as chosen from the device's bit depth
/// and sample format. Formats the engine does not know are read as 16-bit integers.
#[derive(Clone, Copy, PartialEq, Eq, Structural, Debug)]
pub enum InputLayout {
    /// 8-bit unsigned samples centred on 128.
    Unsigned8,
    Int16,
    Int24,
    Int32,
    Float32,
    Float64,
}

impl InputLayout {
    /// Bytes per sample.
    pub open spec fn spec_width(self) -> nat {
        match self {
            InputLayout::Unsigned8 => 1,
            InputLayout::Int16 => 2,
            InputLayout::Int24 => 3,
            InputLayout::Int32 => 4,
            InputLayout::Float32 => 4,
            InputLayout::Float64 => 8,
        }
    }

    /// Bytes per sample.
    pub fn width(self) -> (w: usize)
        ensures
            w as nat == self.spec_width(),
            1 <= w <= 8,
    {
        match self {
            InputLayout::Unsigned8 => 1,
            InputLayout::Int16 => 2,
            InputLayout::Int24 => 3,
            InputLayout::Int32 => 4,
            InputLayout::Float32 => 4,
            InputLayout::Float64 => 8,
        }
    }

    /// Whether samples of this layout are integers (as opposed to IEEE floats).
    pub open spec fn spec_is_int(self) -> bool {
        !(self is Float32 || self is Float64)
    }

    /// Whether samples of this layout are integers (as opposed to IEEE floats).
    pub fn is_int(self) -> (b: bool)
        ensures
            b == self.spec_is_int(),
    {
        match self {
            InputLayout::Float32 | InputLayout::Float64 => false,
            _ => true,
        }
    }
}

/// The layout chosen for a `bits`-deep stream of `format` samples.
pub open spec fn spec_input_layout(bits: u16, format: SampleFormat) -> InputLayout {
    if bits == 8 && format is Int {
        InputLayout::Unsigned8
    } else if bits == 16 && format is Int {
        InputLayout::Int16
    } else if bits == 24 && format is Int {
        InputLayout::Int24
    } else if bits == 32 && format is Int {
        InputLayout::Int32
    } else if bits == 32 && format is Float {
        InputLayout::Float32
    } else if bits == 64 && format is Float {
        InputLayout::Float64
    } else {
        InputLayout::Int16
    }
}

/// The input layout fits the stream it is chosen for: for each known combination (8, 16,
/// 24, 32-bit integers; 32, 64-bit floats) a sample takes `bits / 8` bytes and is an
/// integer exactly when the stream is; anything else is read as 2-byte integers.
pub proof fn lemma_input_layout_fits_stream(bits: u16, format: SampleFormat)
    ensures
        if (format is Int && (bits == 8 || bits == 16 || bits == 24 || bits == 32)) || (format is Float
            && (bits == 32 || bits == 64)) {
            &&& spec_input_layout(bits, format).spec_width() == bits / 8
            &&& spec_input_layout(bits, format).spec_is_int() == (format is Int)
        } else {
            &&& spec_input_layout(bits, format).spec_width() == 2
            &&& spec_input_layout(bits, format).spec_is_int()
            &&& !(spec_input_layout(bits, format) is Unsigned8)
        },
{
}

/// Chooses how to read a `bits`-deep stream of `format` samples; unknown combinations
/// fall back to 16-bit integers.
pub fn input_layout(bits: u16, format: SampleFormat) -> (l: InputLayout)
    ensures
        l == spec_input_layout(bits, format),
{
    match (bits, format) {
        (8, SampleFormat::Int) => InputLayout::Unsigned8,
        (16, SampleFormat::Int) => InputLayout::Int16,
        (24, SampleFormat::Int) => InputLayout::Int24,
        (32, SampleFormat::Int) => InputLayout::Int32,
        (32, SampleFormat::Float) => InputLayout::Float32,
        (64, SampleFormat::Float) => InputLayout::Float64,
        _ => InputLayout::Int16,
    }
}

/// The sample value, on the 16-bit scale, that an integer layout gives the word `w`:
/// 8-bit samples are re-centred and scaled by 128, 24- and 32-bit samples keep their
/// top 16 bits (an arithmetic shift, so rounding towards minus infinity).
pub open spec fn spec_int_sample(layout: InputLayout, w: nat) -> int {
    match layout {
        InputLayout::Unsigned8 => (w - 128) * 128,
        InputLayout::Int16 => signed_value(w, 16),
        InputLayout::Int24 => signed_value(w, 24) / 256,
        InputLayout::Int32 => signed_value(w, 32) / 65536,
        _ => 0,
    }
}

/// The two's complement reading of a 16-bit word.
fn signed16(h: u64) -> (v: i32)
    requires
        h < 0x1_0000,
    ensures
        v as int == signed_value(h as nat, 16),
{
    proof {
        lemma_pow2_values();
    }
    if h >= 0x8000 {
        (h as i32) - 0x1_0000
    } else {
        h as i32
    }
}

/// The value of one integer sample word, on the 16-bit scale.
pub fn int_sample_value(layout: InputLayout, w: u64) -> (v: i32)
    requires
        layout.spec_is_int(),
        (w as nat) < pow256(layout.spec_width()),
    ensures
        v as int == spec_int_sample(layout, w as nat),
        -0x8000 <= v <= 0x7FFF || layout is Unsigned8,
{
    proof {
        lemma_pow256_values();
        lemma_pow2_values();
    }
    match layout {
        InputLayout::Unsigned8 => ((w as i32) - 128) * 128,
        InputLayout::Int16 => signed16(w),
        InputLayout::Int24 => {
            let h: u64 = w / 256;
            proof {
                if w >= 0x80_0000 {
                    lemma_shift_down(w as int, 0x1_0000, 256);
                }
            }
            signed16(h)
        },
        InputLayout::Int32 => {
            let h: u64 = w / 0x1_0000;
            proof {
                if w >= 0x8000_0000 {
                    lemma_shift_down(w as int, 0x1_0000, 0x1_0000);
                }
            }
            signed16(h)
        },
        _ => 0,
    }
}

/// Removing a multiple `m * d` before dividing by `d` lowers the quotient by `m`.
proof fn lemma_shift_down(w: int, m: int, d: int)
    requires
        0 < d,
    ensures
        (w - m * d) / d == w / d - m,
{
    let q = w / d;
    let r = w % d;
    assert(w == d * q + r) by {
        vstd::arithmetic::div_mod::lemma_fundamental_div_mod(w, d);
    }
    assert(0 <= r < d) by {
        vstd::arithmetic::div_mod::lemma_mod_bound(w, d);
    }
    assert(w - m * d == d * (q - m) + r) by (nonlinear_arith)
        requires w == d * q + r;
    lemma_div_multiples_vanish_fancy(q - m, r, d);
}

/// One 16-bit scale for every integer depth: a sample arriving as a 16-bit integer, or as a
/// 24- or 32-bit integer whose extra low bytes are zero, takes the same value, the 16-bit
/// two's complement reading of its two high bytes.
pub proof fn lemma_one_scale_across_depths(lo: u8, hi: u8)
    ensures
        spec_int_sample(InputLayout::Int16, le_value(seq![lo, hi])) == signed_value(
            lo as nat + 256 * (hi as nat),
            16,
        ),
        spec_int_sample(InputLayout::Int24, le_value(seq![0u8, lo, hi])) == spec_int_sample(
            InputLayout::Int16,
            le_value(seq![lo, hi]),
        ),
        spec_int_sample(InputLayout::Int32, le_value(seq![0u8, 0u8, lo, hi])) == spec_int_sample(
            InputLayout::Int16,
            le_value(seq![lo, hi]),
        ),
{
    lemma_pow2_values();
    let w: nat = lo as nat + 256 * (hi as nat);
    assert(le_value(seq![lo, hi]) == w) by {
        reveal_with_fuel(le_value, 3);
        assert(seq![lo, hi].drop_first() =~= seq![hi]);
        assert(seq![hi].drop_first() =~= Seq::<u8>::empty());
    }
    assert(le_value(seq![0u8, lo, hi]) == 256 * w) by {
        assert(seq![0u8, lo, hi].drop_first() =~= seq![lo, hi]);
    }
    assert(le_value(seq![0u8, 0u8, lo, hi]) == 65536 * w) by {
        assert(seq![0u8, 0u8, lo, hi].drop_first() =~= seq![0u8, lo, hi]);
    }
    let v = signed_value(w, 16);
    assert(signed_value(256 * w, 24) == 256 * v);
    assert(signed_value(65536 * w, 32) == 65536 * v);
    vstd::arithmetic::div_mod::lemma_div_multiples_vanish(v, 256);
    vstd::arithmetic::div_mod::lemma_div_multiples_vanish(v, 65536);
}

/// `buf` with the low `width` bytes of `w`, least significant first, stored at `pos`;
/// unchanged when that span does not fit inside `buf`.
pub open spec fn put_word(buf: Seq<u8>, pos: int, w: nat, width: nat) -> Seq<u8> {
    if 0 <= pos && pos + width <= buf.len() {
        Seq::new(
            buf.len(),
            |i: int|
                if pos <= i < pos + width {
                    le_byte(w, (i - pos) as nat)
                } else {
                    buf[i]
                },
        )
    } else {
        buf
    }
}

/// `buf` after storing `w` for channels `0 .. n` of the frame starting at `base`.
pub open spec fn put_channels(
    buf: Seq<u8>,
    base: int,
    w: nat,
    channel_stride: int,
    width: nat,
    n: nat,
) -> Seq<u8>
    decreases n,
{
    if n == 0 {
        buf
    } else {
        put_word(
            put_channels(buf, base, w, channel_stride, width, (n - 1) as nat),
            base + (n - 1) * channel_stride,
            w,
            width,
        )
    }
}

/// `buf` after storing frames `0 .. n` of `words`, each copied to every channel.
pub open spec fn put_frames(
    buf: Seq<u8>,
    words: Seq<u64>,
    channels: nat,
    frame_stride: int,
    channel_stride: int,
    width: nat,
    n: nat,
) -> Seq<u8>
    decreases n,
{
    if n == 0 {
        buf
    } else {
        put_channels(
            put_frames(buf, words, channels, frame_stride, channel_stride, width, (n - 1) as nat),
            (n - 1) * frame_stride,
            words[n - 1] as nat,
            channel_stride,
            width,
            channels,
        )
    }
}

/// Stores the low `width` bytes of `w`, least significant first, at `pos` when they fit.
fn write_word(buf: &mut Vec<u8>, pos: usize, w: u64, width: usize)
    requires
        width <= 8,
        pos + width <= usize::MAX,
    ensures
        final(buf)@ == put_word(old(buf)@, pos as int, w as nat, width as nat),
{
    if pos + width <= buf.len() {
        let ghost start = buf@;
        let mut tmp: u64 = w;
        let mut k: usize = 0;
        assert(pow256(0) == 1);
        while k < width
            invariant
                pos + width <= buf@.len(),
                pos + width <= usize::MAX,
                buf@.len() == start.len(),
                k <= width,
                tmp as nat == (w as nat) / pow256(k as nat),
                forall|i: int|
                    0 <= i < buf@.len() ==> #[trigger] buf@[i] == if pos <= i < pos + k {
                        le_byte(w as nat, (i - pos) as nat)
                    } else {
                        start[i]
                    },
            decreases width - k,
        {
            buf.set(pos + k, (tmp % 256) as u8);
            proof {
                lemma_pow_positive(k as nat);
                lemma_div_denominator(w as int, pow256(k as nat) as int, 256);
                assert(pow256((k + 1) as nat) == 256 * pow256(k as nat));
            }
            tmp = tmp / 256;
            k = k + 1;
        }
        assert(buf@ =~= put_word(start, pos as int, w as nat, width as nat));
    }
}

proof fn lemma_pow_positive(n: nat)
    ensures
        pow256(n) > 0,
    decreases n,
{
    if n > 0 {
        lemma_pow_positive((n - 1) as nat);
    }
}

/// Writes `words[f]` into every channel slot of frame `f`: the slot of channel `ch` starts
/// at `f * frame_stride + ch * channel_stride` and takes the word's low `width` bytes,
/// least significant first. A slot that would run past the end of `buf` is skipped.
pub fn interleave_words(
    words: &[u64],
    buf: &mut Vec<u8>,
    channels: usize,
    frame_stride: usize,
    channel_stride: usize,
    width: usize,
)
    requires
        width <= 8,
        words@.len() * frame_stride + channels * channel_stride + width <= usize::MAX,
    ensures
        final(buf)@.len() == old(buf)@.len(),
        final(buf)@ == put_frames(
            old(buf)@,
            words@,
            channels as nat,
            frame_stride as int,
            channel_stride as int,
            width as nat,
            words@.len(),
        ),
{
    let ghost start = buf@;
    let n: usize = words.len();
    let mut fi: usize = 0;
    while fi < n
        invariant
            n == words@.len(),
            width <= 8,
            n * frame_stride + channels * channel_stride + width <= usize::MAX,
            fi <= n,
            buf@ == put_frames(
                start,
                words@,
                channels as nat,
                frame_stride as int,
                channel_stride as int,
                width as nat,
                fi as nat,
            ),
        decreases n - fi,
    {
        let ghost before = buf@;
        let mut ch: usize = 0;
        while ch < channels
            invariant
                n == words@.len(),
                width <= 8,
                n * frame_stride + channels * channel_stride + width <= usize::MAX,
                fi < n,
                ch <= channels,
                buf@ == put_channels(
                    before,
                    fi * frame_stride,
                    words@[fi as int] as nat,
                    channel_stride as int,
                    width as nat,
                    ch as nat,
                ),
            decreases channels - ch,
        {
            proof {
                assert(fi * frame_stride + ch * channel_stride + width <= n * frame_stride
                    + channels * channel_stride + width) by (nonlinear_arith)
                    requires fi < n, ch < channels;
            }
            let pos: usize = fi * frame_stride + ch * channel_stride;
            write_word(buf, pos, words[fi], width);
            ch = ch + 1;
        }
        fi = fi + 1;
    }
    proof {
        lemma_put_frames_len(
            start,
            words@,
            channels as nat,
            frame_stride as int,
            channel_stride as int,
            width as nat,
            n as nat,
        );
    }
}

proof fn lemma_put_channels_len(buf: Seq<u8>, base: int, w: nat, cs: int, width: nat, n: nat)
    ensures
        put_channels(buf, base, w, cs, width, n).len() == buf.len(),
    decreases n,
{
    if n > 0 {
        lemma_put_channels_len(buf, base, w, cs, width, (n - 1) as nat);
    }
}

proof fn lemma_put_frames_len(
    buf: Seq<u8>,
    words: Seq<u64>,
    channels: nat,
    fs: int,
    cs: int,
    width: nat,
    n: nat,
)
    ensures
        put_frames(buf, words, channels, fs, cs, width, n).len() == buf.len(),
    decreases n,
{
    if n > 0 {
        lemma_put_frames_len(buf, words, channels, fs, cs, width, (n - 1) as nat);
        lemma_put_channels_len(
            put_frames(buf, words, channels, fs, cs, width, (n - 1) as nat),
            (n - 1) * fs,
            words[n - 1] as nat,
            cs,
            width,
            channels,
        );
    }
}

/// Writing the channels of one frame leaves bytes outside `[base, base + n * cs)` alone.
proof fn lemma_put_channels_outside(
    buf: Seq<u8>,
    base: int,
    w: nat,
    cs: int,
    width: nat,
    n: nat,
    i: int,
)
    requires
        width <= cs,
        0 <= i < buf.len(),
        i < base || i >= base + n * cs,
    ensures
        put_channels(buf, base, w, cs, width, n)[i] == buf[i],
    decreases n,
{
    if n > 0 {
        let m = (n - 1) as nat;
        assert(base + m * cs + cs == base + n * cs) by (nonlinear_arith)
            requires n == m + 1;
        assert(i < base || i >= base + m * cs) by (nonlinear_arith)
            requires i < base || i >= base + n * cs, 0 <= cs, n == m + 1;
        lemma_put_channels_outside(buf, base, w, cs, width, m, i);
        lemma_put_channels_len(buf, base, w, cs, width, m);
    }
}

/// After writing the channels of one frame, channel `ch` holds the word's bytes.
proof fn lemma_put_channels_slot(
    buf: Seq<u8>,
    base: int,
    w: nat,
    cs: int,
    width: nat,
    n: nat,
    ch: nat,
    k: nat,
)
    requires
        width <= cs,
        0 <= base,
        base + n * cs <= buf.len(),
        ch < n,
        k < width,
    ensures
        put_channels(buf, base, w, cs, width, n)[base + ch * cs + k] == le_byte(w, k),
    decreases n,
{
    let m = (n - 1) as nat;
    let inner = put_channels(buf, base, w, cs, width, m);
    lemma_put_channels_len(buf, base, w, cs, width, m);
    assert(base + m * cs + cs == base + n * cs) by (nonlinear_arith)
        requires n == m + 1;
    assert(0 <= m * cs) by (nonlinear_arith)
        requires 0 <= cs;
    if ch == m {
    } else {
        assert(base + ch * cs + k < base + m * cs) by (nonlinear_arith)
            requires ch < m, k < width, width <= cs;
        assert(0 <= ch * cs) by (nonlinear_arith)
            requires 0 <= cs;
        assert(base + m * cs <= base + n * cs) by (nonlinear_arith)
            requires n == m + 1, 0 <= cs;
        lemma_put_channels_slot(buf, base, w, cs, width, m, ch, k);
    }
}

/// Frames `0 .. n` leave every byte at or past `n * fs` alone.
proof fn lemma_put_frames_above(
    buf: Seq<u8>,
    words: Seq<u64>,
    channels: nat,
    fs: int,
    cs: int,
    width: nat,
    n: nat,
    i: int,
)
    requires
        width <= cs,
        channels * cs <= fs,
        0 <= i < buf.len(),
        i >= n * fs,
    ensures
        put_frames(buf, words, channels, fs, cs, width, n)[i] == buf[i],
    decreases n,
{
    if n > 0 {
        let m = (n - 1) as nat;
        let inner = put_frames(buf, words, channels, fs, cs, width, m);
        lemma_put_frames_len(buf, words, channels, fs, cs, width, m);
        assert(i >= m * fs + channels * cs && i >= m * fs) by (nonlinear_arith)
            requires i >= n * fs, n == m + 1, channels * cs <= fs, 0 <= channels * cs;
        lemma_put_channels_outside(inner, m * fs, words[m as int] as nat, cs, width, channels, i);
        lemma_put_frames_above(buf, words, channels, fs, cs, width, m, i);
    }
}

/// Where the channel slots neither overlap each other nor cross into the next frame and
/// every frame fits in the buffer, byte `k` of the slot of channel `ch` in frame `f`
/// holds byte `k` of `words[f]` after all the frames are written.
pub proof fn lemma_interleave_slot(
    buf: Seq<u8>,
    words: Seq<u64>,
    channels: nat,
    fs: int,
    cs: int,
    width: nat,
    f: nat,
    ch: nat,
    k: nat,
)
    requires
        width <= cs,
        channels * cs <= fs,
        words.len() * fs <= buf.len(),
        f < words.len(),
        ch < channels,
        k < width,
    ensures
        put_frames(buf, words, channels, fs, cs, width, words.len())[f * fs + ch * cs + k]
            == le_byte(words[f as int] as nat, k),
{
    lemma_put_frames_slot(buf, words, channels, fs, cs, width, words.len(), f, ch, k);
}

proof fn lemma_put_frames_slot(
    buf: Seq<u8>,
    words: Seq<u64>,
    channels: nat,
    fs: int,
    cs: int,
    width: nat,
    n: nat,
    f: nat,
    ch: nat,
    k: nat,
)
    requires
        width <= cs,
        channels * cs <= fs,
        n <= words.len(),
        n * fs <= buf.len(),
        f < n,
        ch < channels,
        k < width,
    ensures
        put_frames(buf, words, channels, fs, cs, width, n)[f * fs + ch * cs + k] == le_byte(
            words[f as int] as nat,
            k,
        ),
    decreases n,
{
    let m = (n - 1) as nat;
    let inner = put_frames(buf, words, channels, fs, cs, width, m);
    lemma_put_frames_len(buf, words, channels, fs, cs, width, m);
    assert(0 <= cs);
    assert(0 <= ch * cs) by (nonlinear_arith)
        requires 0 <= cs;
    assert(m * fs + fs == n * fs) by (nonlinear_arith)
        requires n == m + 1;
    assert(0 <= m * fs) by (nonlinear_arith)
        requires 0 <= channels * cs <= fs;
    if f == m {
        assert(m * fs + channels * cs <= inner.len());
        lemma_put_channels_slot(inner, m * fs, words[m as int] as nat, cs, width, channels, ch, k);
    } else {
        assert(f * fs + ch * cs + k < m * fs) by (nonlinear_arith)
            requires f < m, ch < channels, k < width, width <= cs, channels * cs <= fs;
        assert(m * fs <= n * fs);
        assert(0 <= f * fs) by (nonlinear_arith)
            requires 0 <= fs;
        lemma_put_frames_slot(buf, words, channels, fs, cs, width, m, f, ch, k);
        lemma_put_channels_outside(
            inner,
            m * fs,
            words[m as int] as nat,
            cs,
            width,
            channels,
            f * fs + ch * cs + k,
        );
    }
}

/// The little-endian value of the first `n` bytes of `x` is `x` modulo `256^n`.
proof fn lemma_le_value_of_bytes(x: nat, n: nat)
    ensures
        le_value(Seq::new(n, |k: int| le_byte(x, k as nat))) == x % pow256(n),
    decreases n,
{
    let s = Seq::new(n, |k: int| le_byte(x, k as nat));
    if n == 0 {
        assert(pow256(0) == 1);
    } else {
        let m = (n - 1) as nat;
        let t = Seq::new(m, |k: int| le_byte(x / 256, k as nat));
        assert forall|k: int| 0 <= k < m implies #[trigger] s.drop_first()[k] == t[k] by {
            lemma_pow_positive(k as nat);
            lemma_div_denominator(x as int, 256, pow256(k as nat) as int);
            assert(pow256((k + 1) as nat) == 256 * pow256(k as nat));
        }
        assert(s.drop_first() =~= t);
        lemma_le_value_of_bytes(x / 256, m);
        assert(pow256(0) == 1);
        assert(s[0] == (x % 256) as u8);
        lemma_pow_positive(m);
        lemma_breakdown(x as int, 256, pow256(m) as int);
    }
}

/// The little-endian bytes of each word in turn, `width` bytes per word.
pub fn le_bytes_of_words(words: &[u64], width: usize) -> (r: Vec<u8>)
    requires
        1 <= width <= 8,
        words@.len() * width + 2 * width <= usize::MAX,
    ensures
        r@.len() == words@.len() * width,
        forall|i: int, k: int|
            0 <= i < words@.len() && 0 <= k < width ==> #[trigger] r@[i * width + k] == le_byte(
                #[trigger] words@[i] as nat,
                k as nat,
            ),
{
    let total: usize = words.len() * width;
    let mut r: Vec<u8> = vec![0u8; total];
    let ghost start = r@;
    interleave_words(words, &mut r, 1, width, width, width);
    proof {
        lemma_put_frames_len(start, words@, 1, width as int, width as int, width as nat, words@.len());
        assert forall|i: int, k: int|
            0 <= i < words@.len() && 0 <= k < width implies #[trigger] r@[i * width + k] == le_byte(
                #[trigger] words@[i] as nat,
                k as nat,
            ) by {
            lemma_interleave_slot(
                start,
                words@,
                1,
                width as int,
                width as int,
                width as nat,
                i as nat,
                0,
                k as nat,
            );
        }
    }
    r
}

/// Reading back the bytes that `le_bytes_of_words` produced gives back every word that
/// fits in `width` bytes.
pub proof fn lemma_words_round_trip(words: Seq<u64>, width: nat, bytes: Seq<u8>)
    requires
        1 <= width <= 8,
        bytes.len() == words.len() * width,
        forall|i: int, k: int|
            0 <= i < words.len() && 0 <= k < width ==> #[trigger] bytes[i * width + k] == le_byte(
                #[trigger] words[i] as nat,
                k as nat,
            ),
        forall|i: int| 0 <= i < words.len() ==> (#[trigger] words[i] as nat) < pow256(width),
    ensures
        forall|i: int|
            0 <= i < words.len() ==> le_value(#[trigger] bytes.subrange(i * width, i * width + width))
                == words[i] as nat,
{
    assert forall|i: int| 0 <= i < words.len() implies le_value(
        #[trigger] bytes.subrange(i * width, i * width + width),
    ) == words[i] as nat by {
        assert(i * width + width <= words.len() * width) by (nonlinear_arith)
            requires 0 <= i < words.len();
        assert(0 <= i * width) by (nonlinear_arith)
            requires 0 <= i;
        let x = words[i] as nat;
        assert forall|k: int| 0 <= k < width implies #[trigger] bytes.subrange(
            i * width,
            i * width + width,
        )[k] == le_byte(x, k as nat) by {
            assert(bytes[i * width + k] == le_byte(words[i] as nat, k as nat));
        }
        assert(bytes.subrange(i * width, i * width + width) =~= Seq::new(
            width,
            |k: int| le_byte(x, k as nat),
        ));
        lemma_le_value_of_bytes(x, width);
        vstd::arithmetic::div_mod::lemma_small_mod(x, pow256(width));
    }
}

/// How an output sample is turned into a word before it is laid out.
#[derive(Clone, Copy, PartialEq, Eq, Structural, Debug)]
pub enum OutputEncoding {
    /// One byte: the sample divided by 128 and re-centred on 128, clamped to `0 ..= 255`.
    Unsigned8,
    /// Two bytes: the sample clamped to the 16-bit range.
    Int16,
    /// Three bytes: the sample times 256, clamped to the 24-bit range.
    Int24,
    /// Four bytes: the sample times 65536, clamped to the 32-bit range.
    Int32,
    /// Four bytes: the sample divided by 32767 and clamped to `-1 ..= 1`, as IEEE bits.
    Float32,
    /// Eight bytes: the sample divided by 32767 and clamped to `-1 ..= 1`, as IEEE bits.
    Float64,
}

impl OutputEncoding {
    pub open spec fn spec_width(self) -> nat {
        match self {
            OutputEncoding::Unsigned8 => 1,
            OutputEncoding::Int16 => 2,
            OutputEncoding::Int24 => 3,
            OutputEncoding::Int32 => 4,
            OutputEncoding::Float32 => 4,
            OutputEncoding::Float64 => 8,
        }
    }

    /// Bytes per encoded sample.
    pub fn width(self) -> (w: usize)
        ensures
            w as nat == self.spec_width(),
            1 <= w <= 8,
    {
        match self {
            OutputEncoding::Unsigned8 => 1,
            OutputEncoding::Int16 => 2,
            OutputEncoding::Int24 => 3,
            OutputEncoding::Int32 => 4,
            OutputEncoding::Float32 => 4,
            OutputEncoding::Float64 => 8,
        }
    }
}

/// The encoding an output stream of `bits`-deep `format` samples is written with:
/// `None` for the combinations that are refused (nothing is written), and 16-bit integers
/// for bit depths the engine does not know.
pub open spec fn spec_output_encoding(bits: u16, format: SampleFormat) -> Option<OutputEncoding> {
    if bits == 8 {
        if format is Int { Some(OutputEncoding::Unsigned8) } else { None }
    } else if bits == 16 {
        if format is Int { Some(OutputEncoding::Int16) } else { None }
    } else if bits == 24 {
        if format is Int { Some(OutputEncoding::Int24) } else { None }
    } else if bits == 32 {
        if format is Int { Some(OutputEncoding::Int32) } else { Some(OutputEncoding::Float32) }
    } else if bits == 64 {
        if format is Float { Some(OutputEncoding::Float64) } else { None }
    } else {
        Some(OutputEncoding::Int16)
    }
}

/// The output encoding fits the stream it is chosen for. It is refused exactly for float
/// streams of 8, 16 or 24 bits and integer streams of 64 bits; for the known depths (8,
/// 16, 24, 32, 64 bits) it writes `bits / 8` bytes per sample and is a float encoding
/// exactly when the stream is a float one; any other depth is written as 16-bit integers.
pub proof fn lemma_output_encoding_fits_stream(bits: u16, format: SampleFormat)
    ensures
        spec_output_encoding(bits, format) is None <==> ((format is Float && (bits == 8 || bits == 16
            || bits == 24)) || (format is Int && bits == 64)),
        spec_output_encoding(bits, format) matches Some(e) ==> if bits == 8 || bits == 16 || bits
            == 24 || bits == 32 || bits == 64 {
            &&& e.spec_width() == bits / 8
            &&& (e is Float32 || e is Float64) == (format is Float)
        } else {
            e.spec_width() == 2 && !(e is Float32 || e is Float64) && !(e is Unsigned8)
        },
{
}

/// Chooses how output samples are encoded for a `bits`-deep `format` device.
pub fn output_encoding(bits: u16, format: SampleFormat) -> (e: Option<OutputEncoding>)
    ensures
        e == spec_output_encoding(bits, format),
{
    match bits {
        8 => match format {
            SampleFormat::Int => Some(OutputEncoding::Unsigned8),
            SampleFormat::Float => None,
        },
        16 => match format {
            SampleFormat::Int => Some(OutputEncoding::Int16),
            SampleFormat::Float => None,
        },
        24 => match format {
            SampleFormat::Int => Some(OutputEncoding::Int24),
            SampleFormat::Float => None,
        },
        32 => match format {
            SampleFormat::Int => Some(OutputEncoding::Int32),
            SampleFormat::Float => Some(OutputEncoding::Float32),
        },
        64 => match format {
            SampleFormat::Float => Some(OutputEncoding::Float64),
            SampleFormat::Int => None,
        },
        _ => Some(OutputEncoding::Int16),
    }
}

/// Lays encoded mono sample words out as device frames: each word goes to every one of
/// `channels` channels, a frame is `bytes_per_frame` bytes and a channel slot is
/// `bytes_per_frame / channels` bytes; slots that do not fit in `output` are skipped and
/// nothing is written when `encoding` is `None`. Returns the byte count of the frames,
/// `words.len() * bytes_per_frame`, whether or not they were written.
pub fn format_output_bytes(
    words: &[u64],
    output: &mut Vec<u8>,
    channels: usize,
    bytes_per_frame: usize,
    encoding: Option<OutputEncoding>,
) -> (out_bytes: usize)
    requires
        channels > 0,
        words@.len() * bytes_per_frame + bytes_per_frame + 8 <= usize::MAX,
    ensures
        out_bytes == words@.len() * bytes_per_frame,
        final(output)@.len() == old(output)@.len(),
        final(output)@ == match encoding {
            Some(e) => put_frames(
                old(output)@,
                words@,
                channels as nat,
                bytes_per_frame as int,
                (bytes_per_frame / channels) as int,
                e.spec_width(),
                words@.len(),
            ),
            None => old(output)@,
        },
{
    let per_sample: usize = bytes_per_frame / channels;
    proof {
        assert(channels * per_sample <= bytes_per_frame) by (nonlinear_arith)
            requires per_sample == bytes_per_frame / channels, channels > 0;
    }
    match encoding {
        Some(e) => {
            let width: usize = e.width();
            interleave_words(words, output, channels, bytes_per_frame, per_sample, width);
            proof {
                lemma_put_frames_len(
                    old(output)@,
                    words@,
                    channels as nat,
                    bytes_per_frame as int,
                    per_sample as int,
                    width as nat,
                    words@.len(),
                );
            }
        },
        None => {},
    }
    words.len() * bytes_per_frame
}

/// How samples are encoded for the monitor device.
#[derive(Clone, Copy, PartialEq, Eq, Structural, Debug)]
pub enum MonitorEncoding {
    /// IEEE single-precision bits of the sample.
    Float32,
    /// The sample times 32767, clamped to the 16-bit range.
    Int16,
}

/// What to write to the monitor device for one block.
#[derive(Clone, Copy, PartialEq, Eq, Structural, Debug)]
pub struct MonitorPlan {
    pub frames: usize,
    pub total_bytes: usize,
    pub frame_stride: usize,
    pub channel_stride: usize,
    pub width: usize,
    pub encoding: MonitorEncoding,
}

/// Plans a monitor write of `frames` mono samples when the device has room for
/// `writable` frames and the staging buffer holds `buffer_len` bytes: `None` when the
/// device has no room or the block does not fit the buffer. 32-bit devices get IEEE
/// singles and 16-bit devices 16-bit integers; other depths get IEEE singles in 4-byte
/// channel slots inside frames sized by the device's own depth.
pub fn monitor_write_plan(
    frames: usize,
    writable: usize,
    channels: u16,
    bits_per_sample: u16,
    buffer_len: usize,
) -> (plan: Option<MonitorPlan>)
    requires
        buffer_len <= isize::MAX,
    ensures
        ({
            let n = if frames < writable { frames } else { writable };
            let bps = bits_per_sample / 8;
            let bpf = channels * bps;
            match plan {
                None => writable == 0 || n * bpf > buffer_len,
                Some(p) => {
                    &&& writable != 0
                    &&& p.frames == n
                    &&& p.total_bytes == n * bpf
                    &&& p.total_bytes <= buffer_len
                    &&& p.frame_stride == bpf
                    &&& (bits_per_sample == 32 ==> p.encoding == MonitorEncoding::Float32
                        && p.width == 4 && p.channel_stride == bps)
                    &&& (bits_per_sample == 16 ==> p.encoding == MonitorEncoding::Int16
                        && p.width == 2 && p.channel_stride == bps)
                    &&& (bits_per_sample != 32 && bits_per_sample != 16 ==> p.encoding
                        == MonitorEncoding::Float32 && p.width == 4 && p.channel_stride == 4)
                    &&& p.frames * p.frame_stride + (channels as int) * p.channel_stride + p.width
                        <= usize::MAX
                },
            }
        }),
{
    if writable == 0 {
        return None;
    }
    let n: usize = if frames < writable { frames } else { writable };
    let bps: usize = (bits_per_sample / 8) as usize;
    proof {
        assert(channels * bps <= 0xFFFF * 0x2000) by (nonlinear_arith)
            requires channels <= 0xFFFF, bps <= 0x2000;
    }
    let bpf: usize = channels as usize * bps;
    if bpf > 0 && n > buffer_len / bpf {
        proof {
            assert(n * bpf > buffer_len) by (nonlinear_arith)
                requires n > buffer_len / bpf, bpf > 0;
        }
        return None;
    }
    proof {
        if bpf > 0 {
            assert(n * bpf <= buffer_len) by (nonlinear_arith)
                requires n <= buffer_len / bpf, bpf > 0;
        } else {
            assert(n * bpf == 0) by (nonlinear_arith)
                requires bpf == 0;
        }
        assert(channels * bps <= 0xFFFF * 0x2000) by (nonlinear_arith)
            requires channels <= 0xFFFF, bps <= 0x2000;
        assert(channels * 4 <= 0x4_0000) by (nonlinear_arith)
            requires channels <= 0xFFFF;
    }
    let total: usize = n * bpf;
    let (encoding, width, channel_stride) = if bits_per_sample == 32 {
        (MonitorEncoding::Float32, 4usize, bps)
    } else if bits_per_sample == 16 {
        (MonitorEncoding::Int16, 2usize, bps)
    } else {
        (MonitorEncoding::Float32, 4usize, 4usize)
    };
    Some(
        MonitorPlan {
            frames: n,
            total_bytes: total,
            frame_stride: bpf,
            channel_stride,
            width,
            encoding,
        },
    )
}

/// Whether the first `n` captured bytes carry any signal (a byte that is not zero); the
/// warm-up after starting the input stream waits for this.
pub fn has_signal(buf: &[u8], n: usize) -> (b: bool)
    requires
        n <= buf@.len(),
    ensures
        b == exists|i: int| 0 <= i < n && buf@[i] != 0,
{
    let mut i: usize = 0;
    while i < n
        invariant
            n <= buf@.len(),
            i <= n,
            forall|j: int| 0 <= j < i ==> buf@[j] == 0,
        decreases n - i,
    {
        if buf[i] != 0 {
            return true;
        }
        i = i + 1;
    }
    false
}

} // verus!
