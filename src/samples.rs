use vstd::prelude::*;

use std::collections::VecDeque;

verus! {

/// A block of samples, one sequence per channel.
pub struct Matrix<T> {
    inner: Vec<Vec<T>>,
}

/// The samples per channel, as sequences.
pub open spec fn rows_view<T>(rows: Seq<Vec<T>>) -> Seq<Seq<T>> {
    rows.map_values(|r: Vec<T>| r@)
}

/// The number of whole frames in `rows`: the length of its shortest channel.
pub open spec fn frames<T>(rows: Seq<Seq<T>>) -> int
    decreases rows.len(),
{
    if rows.len() == 0 {
        0
    } else if rows.len() == 1 {
        rows[0].len() as int
    } else {
        let rest = frames(rows.drop_first());
        if rows[0].len() < rest {
            rows[0].len() as int
        } else {
            rest
        }
    }
}

impl<T: Copy> Matrix<T> {
    /// The samples, one sequence per channel.
    pub closed spec fn rows(&self) -> Seq<Seq<T>> {
        rows_view(self.inner@)
    }

    /// A block holding `inner`, one vector per channel.
    pub fn init(inner: Vec<Vec<T>>) -> (r: Self)
        ensures
            r.rows() == rows_view(inner@),
    {
        Matrix { inner }
    }

    /// The number of channels.
    pub fn channel(&self) -> (r: usize)
        ensures
            r == self.rows().len(),
    {
        self.inner.len()
    }

    /// The number of whole frames.
    pub fn frame_count(&self) -> (r: usize)
        ensures
            r == frames(self.rows()),
    {
        let n = self.inner.len();
        if n == 0 {
            return 0;
        }
        let mut m: usize = self.inner[n - 1].len();
        let mut i: usize = n - 1;
        proof {
            assert(rows_view(self.inner@).skip(i as int) =~= seq![self.inner@[i as int]@]);
        }
        while i > 0
            invariant
                n == self.inner@.len(),
                0 <= i < n,
                m == frames(rows_view(self.inner@).skip(i as int)),
            decreases i,
        {
            let ghost rest = rows_view(self.inner@).skip(i as int);
            i -= 1;
            let ghost here = rows_view(self.inner@).skip(i as int);
            assert(here.drop_first() =~= rest);
            assert(here[0] == self.inner@[i as int]@);
            let l = self.inner[i].len();
            if l < m {
                m = l;
            }
        }
        assert(rows_view(self.inner@).skip(0) =~= rows_view(self.inner@));
        m
    }
}

/// A channel window after `m` new samples: the newest of the old and new
/// samples together, as many as there were.
pub open spec fn slide<T>(old: Seq<T>, new: Seq<T>, m: int) -> Seq<T> {
    (old + new.take(m)).skip(m)
}

/// Fixed-length windows over the most recent samples of each channel.
pub struct MatrixFixed<T> {
    inner: Vec<VecDeque<T>>,
    len: usize,
    channel: usize,
}

impl<T: Copy> MatrixFixed<T> {
    /// The windows, one per channel, oldest sample first.
    pub closed spec fn windows(&self) -> Seq<Seq<T>> {
        self.inner@.map_values(|d: VecDeque<T>| d@)
    }

    /// Each window has `len` samples and there are `channel` windows.
    pub closed spec fn wf(&self) -> bool {
        &&& self.inner@.len() == self.channel
        &&& forall|c: int| 0 <= c < self.channel ==> (#[trigger] self.inner@[c])@.len() == self.len
    }

    /// Window length.
    pub closed spec fn len_spec(&self) -> nat {
        self.len as nat
    }

    /// `channel` windows of `len` copies of `fill`.
    pub fn new(len: usize, channel: usize, fill: T) -> (r: Self)
        ensures
            r.wf(),
            r.len_spec() == len,
            r.windows().len() == channel,
            forall|c: int| 0 <= c < channel ==> (#[trigger] r.windows()[c]).len() == len,
            forall|c: int, i: int| 0 <= c < channel && 0 <= i < len ==> #[trigger] r.windows()[c][i] == fill,
    {
        let mut inner: Vec<VecDeque<T>> = Vec::new();
        let mut c: usize = 0;
        while c < channel
            invariant
                c <= channel,
                inner@.len() == c,
                forall|k: int| 0 <= k < c ==> (#[trigger] inner@[k])@ == Seq::new(len as nat, |i: int| fill),
            decreases channel - c,
        {
            let mut d: VecDeque<T> = VecDeque::new();
            let mut i: usize = 0;
            while i < len
                invariant
                    i <= len,
                    d@ == Seq::new(i as nat, |j: int| fill),
                decreases len - i,
            {
                d.push_back(fill);
                i += 1;
                assert(d@ =~= Seq::new(i as nat, |j: int| fill));
            }
            inner.push(d);
            c += 1;
        }
        MatrixFixed { inner, len, channel }
    }

    /// Number of channels.
    pub fn channel(&self) -> (r: usize)
        requires
            self.wf(),
        ensures
            r == self.windows().len(),
    {
        self.channel
    }

    /// Window length.
    pub fn len(&self) -> (r: usize)
        ensures
            r == self.len_spec(),
    {
        self.len
    }

    /// The windows.
    pub fn data(&self) -> (r: &[VecDeque<T>])
        ensures
            r@.map_values(|d: VecDeque<T>| d@) == self.windows(),
    {
        let r = self.inner.as_slice();
        assert(r@.map_values(|d: VecDeque<T>| d@) =~= self.windows());
        r
    }

    /// Slides each window over the whole frames of `matrix`, channel by
    /// channel.
    pub fn append(&mut self, matrix: &Matrix<T>)
        requires
            old(self).wf(),
            matrix.rows().len() == old(self).windows().len(),
        ensures
            final(self).wf(),
            final(self).len_spec() == old(self).len_spec(),
            final(self).windows().len() == old(self).windows().len(),
            forall|c: int|
                0 <= c < old(self).windows().len() ==> (#[trigger] final(self).windows()[c]).len()
                    == old(self).len_spec(),
            forall|c: int|
                0 <= c < old(self).windows().len() ==> #[trigger] final(self).windows()[c] == slide(
                    old(self).windows()[c],
                    matrix.rows()[c],
                    frames(matrix.rows()),
                ),
    {
        let m = matrix.frame_count();
        let n = self.inner.len();
        let ghost w0 = self.windows();
        proof {
            lemma_frames_le(matrix.rows());
        }
        let mut c: usize = 0;
        while c < n
            invariant
                n == self.inner@.len(),
                n == self.channel,
                self.len == old(self).len,
                c <= n,
                m == frames(matrix.rows()),
                matrix.rows().len() == n,
                forall|k: int| 0 <= k < n ==> m <= #[trigger] matrix.rows()[k].len(),
                w0.len() == n,
                forall|k: int| 0 <= k < n ==> (#[trigger] w0[k]).len() == self.len,
                forall|k: int| 0 <= k < c ==> (#[trigger] self.inner@[k])@ == slide(w0[k], matrix.rows()[k], m as int),
                forall|k: int| c <= k < n ==> (#[trigger] self.inner@[k])@ == w0[k],
            decreases n - c,
        {
            let row = &matrix.inner[c];
            assert(row@ == matrix.rows()[c as int]);
            let mut d = VecDeque::new();
            std::mem::swap(&mut d, &mut self.inner[c]);
            let ghost d0 = d@;
            assert(d0 == w0[c as int]);
            let mut i: usize = 0;
            while i < m
                invariant
                    i <= m,
                    m <= row@.len(),
                    d@ == (d0 + row@.take(i as int)).skip(i as int),
                    d0.len() == self.len,
                decreases m - i,
            {
                d.push_back(row[i]);
                d.pop_front();
                i += 1;
                assert(d@ =~= (d0 + row@.take(i as int)).skip(i as int));
            }
            std::mem::swap(&mut d, &mut self.inner[c]);
            assert(self.inner@[c as int]@ == slide(w0[c as int], matrix.rows()[c as int], m as int));
            c += 1;
        }
        assert(self.wf());
    }
}

/// No channel is shorter than the whole frames.
pub proof fn lemma_frames_le<T>(rows: Seq<Seq<T>>)
    ensures
        forall|k: int| 0 <= k < rows.len() ==> frames(rows) <= #[trigger] rows[k].len(),
        frames(rows) >= 0,
    decreases rows.len(),
{
    if rows.len() > 1 {
        lemma_frames_le(rows.drop_first());
        assert forall|k: int| 0 <= k < rows.len() implies frames(rows) <= #[trigger] rows[k].len() by {
            if k > 0 {
                assert(rows[k] == rows.drop_first()[k - 1]);
            }
        }
    }
}

} // verus!
