use vstd::prelude::*;

verus! {

/// History after one push with depth `d`: older frames are dropped until
/// fewer than `d` remain, then `f` goes in front.
pub open spec fn push_step(h: Seq<Seq<u32>>, f: Seq<u32>, d: nat) -> Seq<Seq<u32>> {
    let kept = if h.len() < d { h.len() } else { (d - 1) as nat };
    seq![f] + h.take(kept as int)
}

/// History after pushing `fs` in order, starting from `h`.
pub open spec fn after_pushes(h: Seq<Seq<u32>>, fs: Seq<Seq<u32>>, d: nat) -> Seq<Seq<u32>>
    decreases fs.len(),
{
    if fs.len() == 0 {
        h
    } else {
        push_step(after_pushes(h, fs.drop_last(), d), fs.last(), d)
    }
}

/// Sum over the frames of `h` of their value at bin `i`.
pub open spec fn bin_sum(h: Seq<Seq<u32>>, i: int) -> nat
    decreases h.len(),
{
    if h.len() == 0 {
        0
    } else {
        bin_sum(h.drop_last(), i) + h.last()[i] as nat
    }
}

/// Arithmetic mean, rounded down, of bin `i` over the frames of `h`.
pub open spec fn bin_mean(h: Seq<Seq<u32>>, i: int) -> nat {
    if h.len() == 0 {
        0
    } else {
        bin_sum(h, i) / h.len()
    }
}

/// Bounded history of recent power frames, newest first, and their running
/// mean. Power values are non-negative integers on a scale of the caller's
/// choosing.
pub struct AveragingWindow {
    frames: Vec<Vec<u32>>,
    depth: usize,
    frame_len: usize,
}

impl AveragingWindow {
    /// Held frames, newest first.
    pub closed spec fn history(&self) -> Seq<Seq<u32>> {
        self.frames@.map_values(|f: Vec<u32>| f@)
    }

    pub closed spec fn depth(&self) -> usize {
        self.depth
    }

    pub closed spec fn frame_len(&self) -> usize {
        self.frame_len
    }

    pub closed spec fn wf(&self) -> bool {
        &&& self.depth >= 1
        &&& forall|j: int| 0 <= j < self.frames@.len() ==> (#[trigger] self.frames@[j])@.len() == self.frame_len
    }

    /// A well-formed window has a depth of at least 1.
    pub proof fn lemma_depth_positive(&self)
        requires
            self.wf(),
        ensures
            self.depth() >= 1,
    {
    }

    pub fn new(depth: usize, frame_len: usize) -> (r: Self)
        requires
            depth >= 1,
        ensures
            r.wf(),
            r.depth() == depth,
            r.frame_len() == frame_len,
            r.history() == Seq::<Seq<u32>>::empty(),
    {
        let r = AveragingWindow { frames: Vec::new(), depth, frame_len };
        assert(r.history() =~= Seq::<Seq<u32>>::empty());
        r
    }

    /// Changes the depth. History is left as it is: the next push evicts
    /// down to the new depth.
    pub fn set_depth(&mut self, depth: usize)
        requires
            old(self).wf(),
            depth >= 1,
        ensures
            final(self).wf(),
            final(self).depth() == depth,
            final(self).history() == old(self).history(),
            final(self).frame_len() == old(self).frame_len(),
    {
        self.depth = depth;
    }

    pub fn current_depth(&self) -> (r: usize)
        ensures
            r == self.depth(),
    {
        self.depth
    }

    /// Number of frames held.
    pub fn len(&self) -> (r: usize)
        ensures
            r == self.history().len(),
    {
        self.frames.len()
    }

    /// Evicts the oldest frames until fewer than the depth remain, puts
    /// `frame` in front, and returns the mean of each bin over the frames now
    /// held.
    pub fn push(&mut self, frame: Vec<u32>) -> (r: Vec<u32>)
        requires
            old(self).wf(),
            frame@.len() == old(self).frame_len(),
        ensures
            final(self).wf(),
            final(self).history() == push_step(
                old(self).history(),
                frame@,
                old(self).depth() as nat,
            ),
            final(self).depth() == old(self).depth(),
            final(self).frame_len() == old(self).frame_len(),
            r@.len() == old(self).frame_len(),
            forall|i: int| 0 <= i < r@.len() ==> r@[i] == bin_mean(final(self).history(), i),
            old(self).depth() == 1 ==> r@ == frame@,
    {
        let ghost h0 = self.history();
        let ghost fr = frame@;
        while self.frames.len() >= self.depth
            invariant
                self.wf(),
                self.depth == old(self).depth,
                self.frame_len == old(self).frame_len,
                self.frames@.len() <= h0.len(),
                self.frames@.len() == h0.len() || self.frames@.len() + 1 >= self.depth,
                self.history() == h0.take(self.frames@.len() as int),
            decreases self.frames@.len(),
        {
            self.frames.pop();
            assert(self.history() =~= h0.take(self.frames@.len() as int));
        }
        self.frames.insert(0, frame);
        assert(self.history() =~= push_step(h0, fr, self.depth as nat));
        assert forall|j: int| 0 <= j < self.frames@.len() implies (
        #[trigger] self.frames@[j])@.len() == self.frame_len by {
            assert(self.history()[j] == self.frames@[j]@);
        }
        self.means()
    }

    /// Mean of each bin over the held frames.
    fn means(&self) -> (r: Vec<u32>)
        requires
            self.wf(),
            self.frames@.len() >= 1,
        ensures
            r@.len() == self.frame_len(),
            forall|i: int| 0 <= i < r@.len() ==> r@[i] == bin_mean(self.history(), i),
            self.frames@.len() == 1 ==> r@ == self.history()[0],
    {
        let h = Ghost(self.history());
        let n = self.frames.len();
        let mut r: Vec<u32> = Vec::new();
        let mut i: usize = 0;
        while i < self.frame_len
            invariant
                self.wf(),
                n == self.frames@.len(),
                n >= 1,
                h@ == self.history(),
                i <= self.frame_len,
                r@.len() == i,
                forall|b: int| 0 <= b < i ==> r@[b] == bin_mean(h@, b),
            decreases self.frame_len - i,
        {
            let mut sum: u128 = 0;
            let mut j: usize = 0;
            while j < n
                invariant
                    self.wf(),
                    n == self.frames@.len(),
                    h@ == self.history(),
                    i < self.frame_len,
                    j <= n,
                    sum == bin_sum(h@.take(j as int), i as int),
                    sum <= j * 0xffff_ffffu128,
                decreases n - j,
            {
                assert(h@[j as int] == self.frames@[j as int]@);
                let v = self.frames[j][i];
                assert(h@.take(j + 1).drop_last() =~= h@.take(j as int));
                proof {
                    assert(sum + v <= (j + 1) * 0xffff_ffffu128) by (nonlinear_arith)
                        requires
                            sum <= j * 0xffff_ffffu128,
                            v <= 0xffff_ffffu128,
                    ;
                }
                sum = sum + v as u128;
                j = j + 1;
            }
            assert(h@.take(n as int) =~= h@);
            let m = sum / (n as u128);
            proof {
                assert(m <= 0xffff_ffffu128) by (nonlinear_arith)
                    requires
                        sum <= n * 0xffff_ffffu128,
                        n >= 1,
                        m == sum / (n as u128),
                ;
            }
            r.push(m as u32);
            i = i + 1;
        }
        proof {
            if n == 1 {
                assert forall|b: int| 0 <= b < r@.len() implies r@[b] == h@[0][b] by {
                    assert(h@.drop_last() =~= Seq::<Seq<u32>>::empty());
                    assert(bin_sum(h@.drop_last(), b) == 0);
                    assert(h@[0] == self.frames@[0]@);
                    assert(r@[b] == bin_mean(h@, b));
                    assert(bin_sum(h@, b) == h@[0][b]);
                }
                assert(r@ =~= h@[0]);
            }
        }
        r
    }
}

/// Pushing `k` frames with depth `d` onto an empty window holds `min(k, d)`
/// frames, the newest first.
pub proof fn lemma_window_length(fs: Seq<Seq<u32>>, d: nat)
    requires
        d >= 1,
    ensures
        after_pushes(Seq::empty(), fs, d).len() == if fs.len() < d {
            fs.len()
        } else {
            d
        },
        fs.len() > 0 ==> after_pushes(Seq::empty(), fs, d)[0] == fs.last(),
    decreases fs.len(),
{
    if fs.len() > 0 {
        lemma_window_length(fs.drop_last(), d);
    }
}

/// Lowering the depth to `d` does not shorten the history by itself (see
/// `AveragingWindow::set_depth`); the next push keeps the newest `d - 1` held
/// frames behind the new one, so the history is then `min(len + 1, d)` long.
pub proof fn lemma_depth_decrease(h: Seq<Seq<u32>>, f: Seq<u32>, d: nat)
    requires
        d >= 1,
    ensures
        push_step(h, f, d).len() == if h.len() + 1 < d {
            h.len() + 1
        } else {
            d
        },
        push_step(h, f, d)[0] == f,
        forall|j: int| 1 <= j < push_step(h, f, d).len() ==> push_step(h, f, d)[j] == h[j - 1],
{
}

} // verus!
