//! The backlog of background-music samples waiting to be mixed into the microphone
//! signal: captured blocks are appended, consumed blocks are reclaimed once they make up
//! more than half of the buffer, and the buffer is capped by dropping its oldest samples.

use vstd::prelude::*;

verus! {

/// Abstract state of a backlog: every buffered sample, and how many of them were consumed.
pub struct BacklogModel<T> {
    pub buffered: Seq<T>,
    pub read_pos: nat,
}

impl<T> BacklogModel<T> {
    /// The samples not consumed yet, oldest first.
    pub open spec fn unread(self) -> Seq<T> {
        self.buffered.subrange(self.read_pos as int, self.buffered.len() as int)
    }

    pub open spec fn wf(self) -> bool {
        self.read_pos <= self.buffered.len()
    }
}

/// Appending captured samples.
pub open spec fn model_extend<T>(m: BacklogModel<T>, data: Seq<T>) -> BacklogModel<T> {
    BacklogModel { buffered: m.buffered + data, read_pos: m.read_pos }
}

/// Reclaiming the consumed prefix once it is more than half of the buffer.
pub open spec fn model_compact<T>(m: BacklogModel<T>) -> BacklogModel<T> {
    if m.read_pos > m.buffered.len() / 2 && m.read_pos > 0 {
        BacklogModel { buffered: m.unread(), read_pos: 0 }
    } else {
        m
    }
}

/// Keeping at most `max_len` samples by dropping the oldest ones.
pub open spec fn model_cap<T>(m: BacklogModel<T>, max_len: nat) -> BacklogModel<T> {
    if m.buffered.len() > max_len {
        let excess = (m.buffered.len() - max_len) as nat;
        BacklogModel {
            buffered: m.buffered.subrange(excess as int, m.buffered.len() as int),
            read_pos: if m.read_pos >= excess { (m.read_pos - excess) as nat } else { 0 },
        }
    } else {
        m
    }
}

/// Forgetting everything once it has all been consumed.
pub open spec fn model_settle<T>(m: BacklogModel<T>) -> BacklogModel<T> {
    if m.read_pos >= m.buffered.len() {
        BacklogModel { buffered: Seq::empty(), read_pos: 0 }
    } else {
        m
    }
}

/// Taking a whole block of `n` samples: nothing is taken unless `n` are unread; when the
/// backlog is not empty it is then forgotten if everything was consumed.
pub open spec fn model_take_block<T>(m: BacklogModel<T>, n: nat) -> (BacklogModel<T>, Option<Seq<T>>) {
    if m.buffered.len() == 0 {
        (m, None)
    } else if m.read_pos + n <= m.buffered.len() {
        (
            model_settle(BacklogModel { buffered: m.buffered, read_pos: m.read_pos + n }),
            Some(m.unread().take(n as int)),
        )
    } else {
        (model_settle(m), None)
    }
}

/// Taking up to `n` samples: as many as are unread, at most `n`; the backlog is then
/// forgotten if everything was consumed.
pub open spec fn model_take_available<T>(m: BacklogModel<T>, n: nat) -> (BacklogModel<T>, Seq<T>) {
    let k = if n <= m.unread().len() { n } else { m.unread().len() };
    (
        model_settle(BacklogModel { buffered: m.buffered, read_pos: m.read_pos + k }),
        m.unread().take(k as int),
    )
}

/// One frame's turn of the backlog: the captured samples are appended, the consumed prefix
/// reclaimed, the buffer capped at `max_len`, then up to `n` samples taken.
pub open spec fn model_frame_available<T>(m: BacklogModel<T>, data: Seq<T>, max_len: nat, n: nat) -> (
    BacklogModel<T>,
    Seq<T>,
) {
    model_take_available(model_cap(model_compact(model_extend(m, data)), max_len), n)
}

/// One frame's turn of the backlog taking a whole block of `n` samples, if that many wait.
pub open spec fn model_frame_block<T>(m: BacklogModel<T>, data: Seq<T>, max_len: nat, n: nat) -> (
    BacklogModel<T>,
    Option<Seq<T>>,
) {
    model_take_block(model_cap(model_compact(model_extend(m, data)), max_len), n)
}

/// A frame's turn never reads past the buffer and leaves at most `max_len` samples
/// buffered; what it takes is at most `n` samples, the oldest unread ones after the cap.
pub proof fn lemma_frame_turn_bounded<T>(m: BacklogModel<T>, data: Seq<T>, max_len: nat, n: nat)
    requires
        m.wf(),
    ensures
        ({
            let c = model_cap(model_compact(model_extend(m, data)), max_len);
            let (a, out) = model_frame_available(m, data, max_len, n);
            let (b, blk) = model_frame_block(m, data, max_len, n);
            &&& c.wf()
            &&& c.buffered.len() <= max_len
            &&& a.wf() && a.buffered.len() <= max_len
            &&& out.len() <= n && out == c.unread().take(out.len() as int)
            &&& b.wf() && b.buffered.len() <= max_len
            &&& (blk matches Some(v) ==> v.len() == n && v == c.unread().take(n as int))
        }),
{
    let e = model_extend(m, data);
    let k = model_compact(e);
    assert(k.wf());
    lemma_cap_drops_oldest(k, max_len);
    let c = model_cap(k, max_len);
    if k.buffered.len() > max_len {
        assert(c.buffered.len() == max_len);
    }
}

/// A backlog of samples of type `T`.
pub struct BgmBacklog<T: Copy> {
    buf: Vec<T>,
    read_pos: usize,
}

impl<T: Copy> BgmBacklog<T> {
    /// The read position lies inside the buffer.
    pub closed spec fn wf(self) -> bool {
        self.read_pos <= self.buf@.len()
    }

    /// The backlog's abstract state.
    pub closed spec fn model(self) -> BacklogModel<T> {
        BacklogModel { buffered: self.buf@, read_pos: self.read_pos as nat }
    }

    /// An empty backlog.
    pub fn new() -> (b: Self)
        ensures
            b.wf(),
            b.model().buffered.len() == 0,
            b.model().read_pos == 0,
    {
        BgmBacklog { buf: Vec::new(), read_pos: 0 }
    }

    /// Number of buffered samples, consumed or not.
    pub fn buffered_len(&self) -> (n: usize)
        ensures
            n == self.model().buffered.len(),
    {
        self.buf.len()
    }

    /// Number of samples not consumed yet.
    pub fn unread_len(&self) -> (n: usize)
        requires
            self.wf(),
        ensures
            n == self.model().unread().len(),
    {
        self.buf.len() - self.read_pos
    }

    /// Appends captured samples.
    pub fn extend(&mut self, data: &[T])
        requires
            old(self).wf(),
        ensures
            final(self).wf(),
            final(self).model() == model_extend(old(self).model(), data@),
    {
        let mut i: usize = 0;
        let mut buf: Vec<T> = Vec::new();
        std::mem::swap(&mut buf, &mut self.buf);
        let ghost start = buf@;
        while i < data.len()
            invariant
                i <= data@.len(),
                buf@ == start + data@.take(i as int),
            decreases data@.len() - i,
        {
            buf.push(data[i]);
            assert(start + data@.take(i + 1) =~= (start + data@.take(i as int)).push(data@[i as int]));
            i = i + 1;
        }
        assert(data@.take(data@.len() as int) =~= data@);
        self.buf = buf;
    }

    /// The buffered samples from index `from` on.
    fn tail_from(&self, from: usize) -> (v: Vec<T>)
        requires
            from <= self.buf@.len(),
        ensures
            v@ == self.buf@.subrange(from as int, self.buf@.len() as int),
    {
        let mut v: Vec<T> = Vec::new();
        let mut i: usize = from;
        while i < self.buf.len()
            invariant
                from <= i <= self.buf@.len(),
                v@ == self.buf@.subrange(from as int, i as int),
            decreases self.buf@.len() - i,
        {
            v.push(self.buf[i]);
            i = i + 1;
            assert(v@ =~= self.buf@.subrange(from as int, i as int));
        }
        v
    }

    /// Reclaims the consumed samples once they make up more than half of the buffer.
    pub fn compact(&mut self)
        requires
            old(self).wf(),
        ensures
            final(self).wf(),
            final(self).model() == model_compact(old(self).model()),
    {
        if self.read_pos > self.buf.len() / 2 && self.read_pos > 0 {
            let rest = self.tail_from(self.read_pos);
            self.buf = rest;
            self.read_pos = 0;
        }
    }

    /// Keeps at most `max_len` samples, dropping the oldest ones.
    pub fn cap(&mut self, max_len: usize)
        requires
            old(self).wf(),
        ensures
            final(self).wf(),
            final(self).model() == model_cap(old(self).model(), max_len as nat),
    {
        if self.buf.len() > max_len {
            let excess: usize = self.buf.len() - max_len;
            let rest = self.tail_from(excess);
            let pos: usize = self.read_pos.saturating_sub(excess);
            self.buf = rest;
            self.read_pos = pos;
        }
    }

    /// Forgets everything once it has all been consumed.
    fn settle(&mut self)
        requires
            old(self).wf(),
        ensures
            final(self).wf(),
            final(self).model() == model_settle(old(self).model()),
    {
        if self.read_pos >= self.buf.len() {
            self.buf = Vec::new();
            self.read_pos = 0;
        }
    }

    /// The unread samples from the read position, `n` of them.
    fn unread_prefix(&self, n: usize) -> (v: Vec<T>)
        requires
            self.read_pos + n <= self.buf@.len(),
        ensures
            v@ == self.model().unread().take(n as int),
    {
        let mut v: Vec<T> = Vec::new();
        let mut i: usize = 0;
        let len: usize = self.buf.len();
        while i < n
            invariant
                len == self.buf@.len(),
                self.read_pos + n <= self.buf@.len(),
                i <= n,
                v@ == self.buf@.subrange(self.read_pos as int, self.read_pos + i),
            decreases n - i,
        {
            v.push(self.buf[self.read_pos + i]);
            i = i + 1;
            assert(v@ =~= self.buf@.subrange(self.read_pos as int, self.read_pos + i));
        }
        assert(v@ =~= self.model().unread().take(n as int));
        v
    }

    /// Takes a whole block of `n` samples if that many are unread.
    pub fn take_block(&mut self, n: usize) -> (r: Option<Vec<T>>)
        requires
            old(self).wf(),
        ensures
            final(self).wf(),
            ({
                let (m, out) = model_take_block(old(self).model(), n as nat);
                &&& final(self).model() == m
                &&& match r {
                    Some(v) => out == Some(v@),
                    None => out is None,
                }
            }),
    {
        if self.buf.len() == 0 {
            return None;
        }
        let mut r: Option<Vec<T>> = None;
        if n <= self.buf.len() - self.read_pos {
            let v = self.unread_prefix(n);
            self.read_pos = self.read_pos + n;
            r = Some(v);
        }
        self.settle();
        r
    }

    /// Takes as many unread samples as there are, at most `n`.
    pub fn take_available(&mut self, n: usize) -> (v: Vec<T>)
        requires
            old(self).wf(),
        ensures
            final(self).wf(),
            ({
                let (m, out) = model_take_available(old(self).model(), n as nat);
                &&& final(self).model() == m
                &&& v@ == out
            }),
    {
        let available: usize = self.buf.len() - self.read_pos;
        let k: usize = if n < available { n } else { available };
        let v = self.unread_prefix(k);
        self.read_pos = self.read_pos + k;
        self.settle();
        v
    }

    /// One frame's turn while music plays (`running`): appends `incoming`, reclaims and
    /// caps the buffer at `max_len`, then takes up to `n` samples. While music is off the
    /// backlog is left untouched and nothing is taken.
    pub fn frame_take_available(&mut self, running: bool, incoming: &[T], max_len: usize, n: usize) -> (v: Vec<T>)
        requires
            old(self).wf(),
        ensures
            final(self).wf(),
            running ==> (final(self).model(), v@) == model_frame_available(
                old(self).model(),
                incoming@,
                max_len as nat,
                n as nat,
            ),
            !running ==> final(self).model() == old(self).model() && v@.len() == 0,
    {
        if !running {
            return Vec::new();
        }
        self.extend(incoming);
        self.compact();
        self.cap(max_len);
        self.take_available(n)
    }

    /// One frame's turn while music plays (`running`): appends `incoming`, reclaims and
    /// caps the buffer at `max_len`, then takes a whole block of `n` samples if that many
    /// wait. While music is off the backlog is left untouched and nothing is taken.
    pub fn frame_take_block(&mut self, running: bool, incoming: &[T], max_len: usize, n: usize) -> (r: Option<Vec<T>>)
        requires
            old(self).wf(),
        ensures
            final(self).wf(),
            running ==> ({
                let (m, out) = model_frame_block(old(self).model(), incoming@, max_len as nat, n as nat);
                &&& final(self).model() == m
                &&& match r {
                    Some(v) => out == Some(v@),
                    None => out is None,
                }
            }),
            !running ==> final(self).model() == old(self).model() && r is None,
    {
        if !running {
            return None;
        }
        self.extend(incoming);
        self.compact();
        self.cap(max_len);
        self.take_block(n)
    }
}

/// Reclaiming consumed samples never changes what is still to be mixed.
pub proof fn lemma_compact_keeps_unread<T>(m: BacklogModel<T>)
    requires
        m.wf(),
    ensures
        model_compact(m).wf(),
        model_compact(m).unread() == m.unread(),
{
    assert(m.unread().subrange(0, m.unread().len() as int) =~= m.unread());
}

/// Capping the buffer drops unread samples only when more than `max_len` of them are
/// waiting, and then exactly the oldest ones; at most `max_len` samples stay buffered.
pub proof fn lemma_cap_drops_oldest<T>(m: BacklogModel<T>, max_len: nat)
    requires
        m.wf(),
    ensures
        model_cap(m, max_len).wf(),
        model_cap(m, max_len).buffered.len() <= max_len || model_cap(m, max_len) == m,
        m.unread().len() <= max_len ==> model_cap(m, max_len).unread() == m.unread(),
        m.unread().len() > max_len ==> model_cap(m, max_len).unread() == m.unread().subrange(
            m.unread().len() - max_len,
            m.unread().len() as int,
        ),
{
    if m.buffered.len() > max_len {
        let excess = (m.buffered.len() - max_len) as nat;
        let c = model_cap(m, max_len);
        if m.read_pos >= excess {
            assert(c.unread() =~= m.unread());
        } else {
            assert(c.unread() =~= m.unread().subrange(
                m.unread().len() - max_len,
                m.unread().len() as int,
            ));
        }
    }
}

/// Samples come out in the order they went in: after appending `data`, a block of `n`
/// samples (when that many are waiting) is the first `n` of the old unread samples
/// followed by `data`, and the rest stays unread.
pub proof fn lemma_backlog_fifo<T>(m: BacklogModel<T>, data: Seq<T>, n: nat)
    requires
        m.wf(),
        m.buffered.len() + data.len() > 0,
        n <= m.unread().len() + data.len(),
    ensures
        ({
            let (after, out) = model_take_block(model_extend(m, data), n);
            &&& out == Some((m.unread() + data).take(n as int))
            &&& after.unread() == (m.unread() + data).skip(n as int)
            &&& after.wf()
        }),
{
    let e = model_extend(m, data);
    assert(e.unread() =~= m.unread() + data);
    let moved = BacklogModel { buffered: e.buffered, read_pos: e.read_pos + n };
    assert(moved.unread() =~= (m.unread() + data).skip(n as int));
    if moved.read_pos >= moved.buffered.len() {
        assert((m.unread() + data).skip(n as int) =~= Seq::<T>::empty());
    }
}

} // verus!
