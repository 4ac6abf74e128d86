use vstd::prelude::*;

verus! {

/// Slot number (1, 2 or 3) that the writer prefers after `tail`; with no
/// frame published yet (`tail == 0`) it is the first slot.
pub open spec fn preferred_slot(tail: usize) -> usize {
    if tail == 0 {
        1
    } else if tail == 3 {
        1
    } else {
        (tail + 1) as usize
    }
}

/// Slot the writer takes when the current indicator is `tail` and the reader
/// holds `reader` (0 when it holds none): the preferred slot, unless the
/// reader holds it; then the third slot, which is neither current nor held.
pub open spec fn lease_choice(tail: usize, reader: usize) -> usize {
    let p = preferred_slot(tail);
    if tail != 0 && reader == p {
        if tail == 1 {
            3
        } else if tail == 2 {
            1
        } else {
            2
        }
    } else {
        p
    }
}

/// The slot the writer tries first when the current indicator is `tail`.
pub fn next_slot(tail: usize) -> (r: usize)
    requires
        tail <= 3,
    ensures
        r == preferred_slot(tail),
        1 <= r <= 3,
        tail != 0 ==> r != tail,
{
    if tail == 0 || tail == 3 {
        1
    } else {
        tail + 1
    }
}

/// The slot the writer falls back to when the reader holds `next_slot(tail)`:
/// the one that is neither current nor preferred.
pub fn fallback_slot(tail: usize) -> (r: usize)
    requires
        1 <= tail <= 3,
    ensures
        r == lease_choice(tail, preferred_slot(tail)),
        1 <= r <= 3,
        r != tail,
        r != preferred_slot(tail),
{
    if tail == 1 {
        3
    } else if tail == 2 {
        1
    } else {
        2
    }
}

/// Frames of `n` items cut from the front of `s`, in order; a remainder
/// shorter than `n` is not among them.
pub open spec fn chunks<T>(s: Seq<T>, n: nat) -> Seq<Seq<T>>
    decreases s.len(),
{
    if n == 0 || s.len() < n {
        Seq::empty()
    } else {
        seq![s.take(n as int)] + chunks(s.skip(n as int), n)
    }
}

/// What is left of `s` once `chunks(s, n)` is cut off.
pub open spec fn remainder<T>(s: Seq<T>, n: nat) -> Seq<T>
    decreases s.len(),
{
    if n == 0 || s.len() < n {
        s
    } else {
        remainder(s.skip(n as int), n)
    }
}

/// Appending one item either completes a frame or grows the remainder.
pub proof fn lemma_chunks_push<T>(s: Seq<T>, x: T, n: nat)
    requires
        n > 0,
    ensures
        remainder(s, n).len() < n,
        remainder(s, n).len() + 1 == n ==> chunks(s.push(x), n) == chunks(s, n).push(
            remainder(s, n).push(x),
        ) && remainder(s.push(x), n) == Seq::<T>::empty(),
        remainder(s, n).len() + 1 < n ==> chunks(s.push(x), n) == chunks(s, n) && remainder(
            s.push(x),
            n,
        ) == remainder(s, n).push(x),
    decreases s.len(),
{
    let t = s.push(x);
    if s.len() < n {
        if s.len() + 1 == n {
            assert(t.take(n as int) =~= t);
            assert(t.skip(n as int) =~= Seq::<T>::empty());
            assert(chunks(t.skip(n as int), n) =~= Seq::<Seq<T>>::empty());
            assert(remainder(t.skip(n as int), n) =~= Seq::<T>::empty());
            assert(chunks(t, n) =~= seq![t]);
            assert(chunks(s, n) =~= Seq::<Seq<T>>::empty());
            assert(remainder(s, n) == s);
            assert(chunks(s, n).push(remainder(s, n).push(x)) =~= seq![t]);
        }
    } else {
        lemma_chunks_push(s.skip(n as int), x, n);
        assert(t.take(n as int) =~= s.take(n as int));
        assert(t.skip(n as int) =~= s.skip(n as int).push(x));
        if remainder(s, n).len() + 1 == n {
            assert(chunks(t, n) =~= chunks(s, n).push(remainder(s, n).push(x)));
        }
    }
}

/// Three interchangeable frame slots handed over from one writer to one
/// reader. Slots are numbered 1 to 3; `tail_state` names the slot holding the
/// newest complete frame (0 while none has been published). The fields
/// `writer` and `reader` name the slot each side currently holds (0: none),
/// which stands for the per-slot locks: a side that holds a slot has it locked.
pub struct TailRing<T> {
    tail_state: usize,
    a: Vec<T>,
    b: Vec<T>,
    c: Vec<T>,
    buffer_size: usize,
    writer: usize,
    reader: usize,
    /// Every frame published so far, oldest first.
    published: Ghost<Seq<Seq<T>>>,
}

impl<T: Copy + Default> TailRing<T> {
    pub closed spec fn slot(&self, s: usize) -> Seq<T> {
        if s == 1 {
            self.a@
        } else if s == 2 {
            self.b@
        } else if s == 3 {
            self.c@
        } else {
            Seq::empty()
        }
    }

    pub closed spec fn tail(&self) -> usize {
        self.tail_state
    }

    pub closed spec fn size(&self) -> usize {
        self.buffer_size
    }

    pub closed spec fn writer_slot(&self) -> usize {
        self.writer
    }

    pub closed spec fn reader_slot(&self) -> usize {
        self.reader
    }

    /// The frames published so far, oldest first.
    pub closed spec fn history(&self) -> Seq<Seq<T>> {
        self.published@
    }

    /// The newest published frame; meaningful once one has been published.
    pub open spec fn latest(&self) -> Seq<T> {
        self.history().last()
    }

    /// Index of a published frame equal to the reader's slot.
    spec fn reader_witness(&self) -> int {
        choose|i: int| 0 <= i < self.published@.len() && #[trigger] self.published@[i] == self.slot(self.reader)
    }

    pub closed spec fn wf(&self) -> bool {
        &&& self.a@.len() == self.buffer_size
        &&& self.b@.len() == self.buffer_size
        &&& self.c@.len() == self.buffer_size
        &&& self.tail_state <= 3
        &&& self.writer <= 3
        &&& self.reader <= 3
        &&& self.writer != 0 ==> self.writer != self.reader
        &&& self.tail_state == 0 ==> self.published@.len() == 0 && self.reader == 0
        &&& self.tail_state != 0 ==> self.published@.len() > 0
            && self.slot(self.tail_state) == self.published@.last()
        &&& self.reader != 0 ==> exists|i: int|
            0 <= i < self.published@.len() && #[trigger] self.published@[i] == self.slot(
                self.reader,
            )
        &&& forall|i: int|
            0 <= i < self.published@.len() ==> (#[trigger] self.published@[i]).len()
                == self.buffer_size
    }

    /// The current indicator is set exactly once a frame has been published,
    /// and then names a slot that holds the newest one; every slot has the
    /// ring's size.
    pub proof fn lemma_current_tracks_history(&self)
        requires
            self.wf(),
        ensures
            self.tail() == 0 <==> self.history().len() == 0,
            self.tail() <= 3,
            self.writer_slot() <= 3,
            self.reader_slot() <= 3,
            self.tail() != 0 ==> self.slot(self.tail()) == self.latest(),
            forall|s: usize| 1 <= s <= 3 ==> #[trigger] self.slot(s).len() == self.size(),
    {
    }

    /// Three slots of `buffer_size` default values; nothing published and no
    /// slot held.
    pub fn new(buffer_size: usize) -> (r: Self)
        ensures
            r.wf(),
            r.size() == buffer_size,
            r.tail() == 0,
            r.writer_slot() == 0,
            r.reader_slot() == 0,
            r.history() == Seq::<Seq<T>>::empty(),
            forall|s: usize| 1 <= s <= 3 ==> #[trigger] r.slot(s).len() == buffer_size,
            r.slot(1) == r.slot(2) && r.slot(2) == r.slot(3),
            forall|i: int| 0 <= i < buffer_size ==> call_ensures(T::default, (), #[trigger] r.slot(1)[i]),
    {
        let d = T::default();
        let mut a: Vec<T> = Vec::new();
        let mut b: Vec<T> = Vec::new();
        let mut c: Vec<T> = Vec::new();
        let mut i: usize = 0;
        while i < buffer_size
            invariant
                i <= buffer_size,
                a@.len() == i,
                a@ == b@,
                b@ == c@,
                forall|j: int| 0 <= j < i ==> a@[j] == d,
            decreases buffer_size - i,
        {
            a.push(d);
            b.push(d);
            c.push(d);
            i = i + 1;
        }
        TailRing {
            tail_state: 0,
            a,
            b,
            c,
            buffer_size,
            writer: 0,
            reader: 0,
            published: Ghost(Seq::empty()),
        }
    }

    /// Writer side: takes a slot to write the next frame into, without
    /// waiting. The slot is neither the current one nor the one the reader
    /// holds, so its lock is free.
    pub fn get_lease(&mut self) -> (r: usize)
        requires
            old(self).wf(),
            old(self).writer_slot() == 0,
        ensures
            final(self).wf(),
            r == lease_choice(old(self).tail(), old(self).reader_slot()),
            1 <= r <= 3,
            r != old(self).tail(),
            r != old(self).reader_slot(),
            final(self).writer_slot() == r,
            final(self).tail() == old(self).tail(),
            final(self).reader_slot() == old(self).reader_slot(),
            final(self).size() == old(self).size(),
            final(self).history() == old(self).history(),
            forall|s: usize| #[trigger] final(self).slot(s) == old(self).slot(s),
    {
        let ghost rs = self.slot(self.reader);
        let ghost wi = self.reader_witness();
        let tail = self.tail_state;
        let preferred = next_slot(tail);
        let r: usize = if tail == 0 || self.reader != preferred {
            preferred
        } else {
            fallback_slot(tail)
        };
        self.writer = r;
        assert(self.slot(self.reader) == rs);
        assert(self.reader != 0 ==> self.published@[wi] == self.slot(self.reader));
        r
    }

    pub fn buffer_size(&self) -> (r: usize)
        ensures
            r == self.size(),
    {
        self.buffer_size
    }

    /// Writer side: stores `value` at `idx` of the slot the writer holds,
    /// which is not the current one.
    pub fn write(&mut self, idx: usize, value: T)
        requires
            old(self).wf(),
            old(self).writer_slot() != 0,
            old(self).writer_slot() != old(self).tail(),
            idx < old(self).size(),
        ensures
            final(self).wf(),
            final(self).slot(old(self).writer_slot()) == old(self).slot(
                old(self).writer_slot(),
            ).update(idx as int, value),
            forall|s: usize|
                s != old(self).writer_slot() ==> #[trigger] final(self).slot(s) == old(self).slot(
                    s,
                ),
            final(self).tail() == old(self).tail(),
            final(self).writer_slot() == old(self).writer_slot(),
            final(self).reader_slot() == old(self).reader_slot(),
            final(self).size() == old(self).size(),
            final(self).history() == old(self).history(),
    {
        let ghost rs = self.slot(self.reader);
        let ghost ts = self.slot(self.tail_state);
        let ghost wi = self.reader_witness();
        if self.writer == 1 {
            self.a[idx] = value;
        } else if self.writer == 2 {
            self.b[idx] = value;
        } else {
            self.c[idx] = value;
        }
        assert(self.slot(self.reader) == rs);
        assert(self.slot(self.tail_state) == ts);
        assert(self.reader != 0 ==> self.published@[wi] == self.slot(self.reader));
    }

    /// Writer side: marks the slot the writer holds as the newest complete
    /// frame. The writer still holds it until `release_lease`.
    pub fn publish(&mut self)
        requires
            old(self).wf(),
            old(self).writer_slot() != 0,
            old(self).writer_slot() != old(self).tail(),
        ensures
            final(self).wf(),
            final(self).tail() == old(self).writer_slot(),
            final(self).history() == old(self).history().push(
                old(self).slot(old(self).writer_slot()),
            ),
            forall|s: usize| #[trigger] final(self).slot(s) == old(self).slot(s),
            final(self).writer_slot() == old(self).writer_slot(),
            final(self).reader_slot() == old(self).reader_slot(),
            final(self).size() == old(self).size(),
    {
        let ghost h = self.published@;
        self.tail_state = self.writer;
        self.published = Ghost(self.published@.push(self.slot(self.writer)));
        assert(self.published@[h.len() as int] == self.slot(self.writer));
        proof {
            if self.reader != 0 {
                let i = choose|i: int| 0 <= i < h.len() && #[trigger] h[i] == self.slot(self.reader);
                assert(self.published@[i] == h[i]);
            }
        }
        assert forall|i: int| 0 <= i < self.published@.len() implies (
        #[trigger] self.published@[i]).len() == self.buffer_size by {
            if i < h.len() {
                assert(self.published@[i] == h[i]);
            }
        }
    }

    /// Writer side: unlocks the slot the writer holds.
    pub fn release_lease(&mut self)
        requires
            old(self).wf(),
        ensures
            final(self).wf(),
            final(self).writer_slot() == 0,
            final(self).tail() == old(self).tail(),
            final(self).reader_slot() == old(self).reader_slot(),
            final(self).size() == old(self).size(),
            final(self).history() == old(self).history(),
            forall|s: usize| #[trigger] final(self).slot(s) == old(self).slot(s),
    {
        let ghost wi = self.reader_witness();
        self.writer = 0;
        assert(self.reader != 0 ==> self.published@[wi] == self.slot(self.reader));
    }

    /// Reader side: tries, without waiting, to lock the slot named by the
    /// current indicator. It fails when no frame has been published yet or
    /// while the writer still holds the slot it has just published; the
    /// reader then keeps what it showed last.
    pub fn get(&mut self) -> (r: Result<usize, ()>)
        requires
            old(self).wf(),
            old(self).reader_slot() == 0,
        ensures
            final(self).wf(),
            r is Ok <==> (old(self).history().len() > 0 && old(self).writer_slot() != old(
                self,
            ).tail()),
            r is Ok ==> r->Ok_0 == old(self).tail() && final(self).reader_slot() == r->Ok_0 && 1
                <= r->Ok_0 <= 3,
            r is Ok ==> final(self).slot(r->Ok_0) == old(self).latest(),
            r is Err ==> final(self).reader_slot() == 0,
            final(self).tail() == old(self).tail(),
            final(self).writer_slot() == old(self).writer_slot(),
            final(self).size() == old(self).size(),
            final(self).history() == old(self).history(),
            forall|s: usize| #[trigger] final(self).slot(s) == old(self).slot(s),
    {
        if self.tail_state != 0 && self.writer != self.tail_state {
            self.reader = self.tail_state;
            assert(self.published@[self.published@.len() - 1] == self.slot(self.reader));
            Ok(self.tail_state)
        } else {
            Err(())
        }
    }

    /// Reader side: the frame in the slot the reader holds.
    pub fn frame(&self) -> (r: &Vec<T>)
        requires
            self.wf(),
            self.reader_slot() != 0,
        ensures
            r@ == self.slot(self.reader_slot()),
            r@.len() == self.size(),
            exists|i: int| 0 <= i < self.history().len() && #[trigger] self.history()[i] == r@,
    {
        proof {
            let i = choose|i: int|
                0 <= i < self.published@.len() && #[trigger] self.published@[i] == self.slot(
                    self.reader,
                );
            assert(self.history()[i] == self.slot(self.reader));
        }
        if self.reader == 1 {
            &self.a
        } else if self.reader == 2 {
            &self.b
        } else {
            &self.c
        }
    }

    /// Reader side: unlocks the slot the reader holds.
    pub fn release_read(&mut self)
        requires
            old(self).wf(),
        ensures
            final(self).wf(),
            final(self).reader_slot() == 0,
            final(self).tail() == old(self).tail(),
            final(self).writer_slot() == old(self).writer_slot(),
            final(self).size() == old(self).size(),
            final(self).history() == old(self).history(),
            forall|s: usize| #[trigger] final(self).slot(s) == old(self).slot(s),
    {
        self.reader = 0;
    }
}

/// The writer's side of a `TailRing`: cuts a stream of items into frames of
/// the ring's size and publishes each one as soon as it is complete.
pub struct TailSink<T> {
    filled: usize,
    _type: core::marker::PhantomData<T>,
}

impl<T: Copy + Default> TailSink<T> {
    /// Number of items of the frame being written.
    pub closed spec fn filled(&self) -> usize {
        self.filled
    }

    /// The sink and `ring` agree: the sink holds a lease exactly while a
    /// frame is partly written, and that slot is not the current one.
    pub open spec fn feeds(&self, ring: &TailRing<T>) -> bool {
        &&& ring.wf()
        &&& ring.size() > 0
        &&& self.filled() < ring.size()
        &&& (self.filled() == 0 <==> ring.writer_slot() == 0)
        &&& ring.writer_slot() != 0 ==> ring.writer_slot() != ring.tail()
    }

    /// The items of the frame being written.
    pub open spec fn pending(&self, ring: &TailRing<T>) -> Seq<T> {
        ring.slot(ring.writer_slot()).take(self.filled() as int)
    }

    pub fn new() -> (r: Self)
        ensures
            r.filled() == 0,
    {
        TailSink { filled: 0, _type: core::marker::PhantomData }
    }

    /// Writes `items` into `ring`, publishing every frame that they complete,
    /// in order. Items that do not complete a frame wait for the next call.
    pub fn work(&mut self, ring: &mut TailRing<T>, items: &[T])
        requires
            old(self).feeds(&*old(ring)),
        ensures
            final(self).feeds(&*final(ring)),
            final(ring).history() == old(ring).history() + chunks(
                old(self).pending(&*old(ring)) + items@,
                old(ring).size() as nat,
            ),
            final(self).pending(&*final(ring)) == remainder(
                old(self).pending(&*old(ring)) + items@,
                old(ring).size() as nat,
            ),
            final(ring).size() == old(ring).size(),
            final(ring).reader_slot() == old(ring).reader_slot(),
            final(ring).slot(old(ring).reader_slot()) == old(ring).slot(old(ring).reader_slot()),
            final(ring).tail() != 0 <==> final(ring).history().len() > 0,
            final(ring).history().len() > 0 ==> final(ring).slot(final(ring).tail())
                == final(ring).latest(),
    {
        let ghost p0 = self.pending(&*ring);
        let ghost h0 = ring.history();
        let ghost r0 = ring.reader_slot();
        let ghost rs0 = ring.slot(r0);
        let n = ring.buffer_size();
        let mut k: usize = 0;
        assert(p0 + items@.take(0) =~= p0);
        proof {
            lemma_remainder_of_short(p0, n as nat);
        }
        assert(h0 + chunks(p0, n as nat) =~= h0);
        while k < items.len()
            invariant
                self.feeds(&*ring),
                n == ring.size(),
                k <= items@.len(),
                ring.history() == h0 + chunks(p0 + items@.take(k as int), n as nat),
                self.pending(&*ring) == remainder(p0 + items@.take(k as int), n as nat),
                ring.reader_slot() == r0,
                ring.slot(r0) == rs0,
            decreases items@.len() - k,
        {
            let ghost sk = p0 + items@.take(k as int);
            let x = items[k];
            proof {
                lemma_chunks_push(sk, x, n as nat);
            }
            assert(p0 + items@.take(k + 1) =~= sk.push(x));
            if self.filled == 0 {
                ring.get_lease();
            }
            let ghost before = ring.slot(ring.writer_slot());
            ring.write(self.filled, x);
            self.filled = self.filled + 1;
            assert(self.pending(&*ring) =~= remainder(sk, n as nat).push(x));
            if self.filled == n {
                assert(ring.slot(ring.writer_slot()) =~= self.pending(&*ring));
                ring.publish();
                ring.release_lease();
                self.filled = 0;
                assert(self.pending(&*ring) =~= Seq::<T>::empty());
                assert(ring.history() =~= h0 + chunks(sk.push(x), n as nat));
            }
            k = k + 1;
        }
        assert(items@.take(k as int) =~= items@);
        proof {
            ring.lemma_current_tracks_history();
        }
    }
}

/// Whatever the interleaving of writer and reader steps, the slot the reader
/// holds is a frame that was published whole: it has the ring's size and is
/// one of the published frames. The writer never writes into it (see
/// `TailRing::write`), so it stays so until the reader lets go.
pub proof fn lemma_read_is_complete_frame<T: Copy + Default>(ring: &TailRing<T>)
    requires
        ring.wf(),
        ring.reader_slot() != 0,
    ensures
        ring.slot(ring.reader_slot()).len() == ring.size(),
        exists|i: int|
            0 <= i < ring.history().len() && #[trigger] ring.history()[i] == ring.slot(
                ring.reader_slot(),
            ),
{
    let i = ring.reader_witness();
    assert(ring.history()[i] == ring.slot(ring.reader_slot()));
}

/// Frame `i` cut from `s` is the items `i * n` up to `(i + 1) * n`.
pub proof fn lemma_chunk_is_slice<T>(s: Seq<T>, n: nat, i: int)
    requires
        n > 0,
        0 <= i < chunks(s, n).len(),
    ensures
        (i + 1) * n <= s.len(),
        chunks(s, n)[i] == s.subrange(i * n, (i + 1) * n),
    decreases s.len(),
{
    if i > 0 {
        lemma_chunk_is_slice(s.skip(n as int), n, i - 1);
        assert(chunks(s, n)[i] == chunks(s.skip(n as int), n)[i - 1]);
        assert((i - 1) * n + n == i * n) by (nonlinear_arith);
        assert(i * n + n == (i + 1) * n) by (nonlinear_arith);
        assert(s.skip(n as int).subrange((i - 1) * n, i * n) =~= s.subrange(i * n, (i + 1) * n));
    } else {
        assert(s.take(n as int) =~= s.subrange(0, n as int));
    }
}

/// When everything published came from a sink fed the stream `x` (the
/// history is the frames cut from `x`), the frame the reader holds is one
/// whole frame of the stream: the items `j * n` up to `(j + 1) * n` for some
/// `j`, never a partly written slot or a mix of two frames.
pub proof fn lemma_read_frame_from_stream<T: Copy + Default>(ring: &TailRing<T>, x: Seq<T>)
    requires
        ring.wf(),
        ring.reader_slot() != 0,
        ring.size() > 0,
        ring.history() == chunks(x, ring.size() as nat),
    ensures
        exists|j: int|
            0 <= j && (j + 1) * ring.size() <= x.len() && #[trigger] x.subrange(
                j * ring.size(),
                (j + 1) * ring.size(),
            ) == ring.slot(ring.reader_slot()),
{
    lemma_read_is_complete_frame(ring);
    let j = choose|i: int|
        0 <= i < ring.history().len() && #[trigger] ring.history()[i] == ring.slot(
            ring.reader_slot(),
        );
    lemma_chunk_is_slice(x, ring.size() as nat, j);
}

/// Taking a lease never waits on the reader: the writer tries the preferred
/// slot and, only if the reader holds it, takes the one other non-current
/// slot, which the reader cannot hold at the same time.
pub proof fn lemma_lease_never_waits(tail: usize, reader: usize)
    requires
        tail <= 3,
        reader <= 3,
        tail == 0 ==> reader == 0,
    ensures
        1 <= lease_choice(tail, reader) <= 3,
        lease_choice(tail, reader) != reader,
        tail != 0 ==> lease_choice(tail, reader) != tail,
        lease_choice(tail, reader) == preferred_slot(tail) || (reader == preferred_slot(tail)
            && lease_choice(tail, reader) != preferred_slot(tail)),
{
}

/// A sequence shorter than one frame is all remainder.
proof fn lemma_remainder_of_short<T>(s: Seq<T>, n: nat)
    requires
        s.len() < n,
    ensures
        remainder(s, n) == s,
        chunks(s, n) == Seq::<Seq<T>>::empty(),
{
}

} // verus!
