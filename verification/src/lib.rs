//! A sliding-window sequence adapter.
//!
//! Wrapping a source sequence and a window size `n`, a [`Slide`] produces, one
//! pull at a time, every contiguous run of `n` consecutive source elements, each
//! window shifted by one position from the previous.  Each produced window is an
//! independent copy of the adapter's internal buffer.  Once the adapter reports
//! that no further window exists, it stays exhausted forever.

use vstd::prelude::*;

verus! {

/// The mathematical state of a sliding-window adapter: the full source
/// sequence, the window size, how many source elements have been pulled so
/// far, and the contents of the in-flight window buffer.
#[verifier::ext_equal]
pub ghost struct SlideModel<A> {
    pub source: Seq<A>,
    pub n: nat,
    pub pos: int,
    pub window: Seq<A>,
}

impl<A> SlideModel<A> {
    /// The states an adapter can actually reach: the cursor stays within the
    /// source, the buffer never exceeds the window size, holds exactly the
    /// most recently pulled elements, is empty when the window size is zero,
    /// and is only partially filled once the source has run dry (or before
    /// the very first pull).
    pub open spec fn wf(self) -> bool {
        &&& 0 <= self.pos <= self.source.len()
        &&& self.window.len() <= self.pos
        &&& self.window.len() <= self.n
        &&& self.window == self.source.subrange(self.pos - self.window.len(), self.pos)
        &&& (self.n == 0 ==> self.window.len() == 0)
        &&& (self.window.len() == self.n || self.pos == self.source.len() || (self.window.len()
            == 0 && self.pos == 0))
    }

    /// An adapter in this state can never again produce a window.
    pub open spec fn exhausted(self) -> bool {
        self.n == 0 || self.pos == self.source.len()
    }

    /// The state after one production call.
    pub open spec fn step(self) -> SlideModel<A> {
        if self.n == 0 {
            self
        } else if self.window.len() == 0 {
            if self.pos + self.n <= self.source.len() {
                SlideModel {
                    pos: self.pos + self.n,
                    window: self.source.subrange(self.pos, self.pos + self.n),
                    ..self
                }
            } else {
                SlideModel {
                    pos: self.source.len() as int,
                    window: self.source.subrange(self.pos, self.source.len() as int),
                    ..self
                }
            }
        } else {
            if self.pos < self.source.len() {
                SlideModel {
                    pos: self.pos + 1,
                    window: self.window.drop_first().push(self.source[self.pos]),
                    ..self
                }
            } else {
                SlideModel { window: self.window.drop_first(), ..self }
            }
        }
    }

    /// What one production call returns: the produced window, or `None` when
    /// no further window exists.
    pub open spec fn step_output(self) -> Option<Seq<A>> {
        if self.n == 0 {
            None
        } else if self.window.len() == 0 {
            if self.pos + self.n <= self.source.len() {
                Some(self.source.subrange(self.pos, self.pos + self.n))
            } else {
                None
            }
        } else {
            if self.pos < self.source.len() {
                Some(self.window.drop_first().push(self.source[self.pos]))
            } else {
                None
            }
        }
    }
}

/// The state of a freshly constructed adapter: nothing pulled, empty buffer.
pub open spec fn init_model<A>(source: Seq<A>, n: nat) -> SlideModel<A> {
    SlideModel { source, n, pos: 0, window: Seq::empty() }
}

/// The adapter state after `k` production calls on a fresh adapter over
/// `source` with window size `n`.  Each call of `Slide::next` ensures that it
/// takes the adapter's state through exactly one `step`, so this describes
/// the exec adapter after `k` calls of `next`.
pub open spec fn model_after<A>(source: Seq<A>, n: nat, k: nat) -> SlideModel<A>
    decreases k,
{
    if k == 0 {
        init_model(source, n)
    } else {
        model_after(source, n, (k - 1) as nat).step()
    }
}

/// What the `k`-th production call (counting from zero) on a fresh adapter
/// over `source` with window size `n` returns.
pub open spec fn output_at<A>(source: Seq<A>, n: nat, k: nat) -> Option<Seq<A>> {
    model_after(source, n, k).step_output()
}

/// All windows of size `n` over `source`: for 0 < n <= |source| these are
/// the |source| - n + 1 contiguous runs of `n` consecutive elements, in
/// source order; for n == 0 and for n > |source| there are none.
pub open spec fn windows<A>(source: Seq<A>, n: nat) -> Seq<Seq<A>> {
    if 0 < n <= source.len() {
        Seq::new((source.len() - n + 1) as nat, |i: int| source.subrange(i, i + n))
    } else {
        Seq::empty()
    }
}

proof fn lemma_subrange_drop_first<A>(s: Seq<A>, a: int, b: int)
    requires
        0 <= a < b <= s.len(),
    ensures
        s.subrange(a, b).drop_first() == s.subrange(a + 1, b),
{
    assert(s.subrange(a, b).drop_first() =~= s.subrange(a + 1, b));
}

proof fn lemma_subrange_push<A>(s: Seq<A>, a: int, b: int)
    requires
        0 <= a <= b < s.len(),
    ensures
        s.subrange(a, b).push(s[b]) == s.subrange(a, b + 1),
{
    assert(s.subrange(a, b).push(s[b]) =~= s.subrange(a, b + 1));
}

/// A sliding-window adapter over a finite source sequence.  `next` returns a
/// `VecDeque` holding a copy of the current window.
pub struct Slide<A> {
    source: Vec<A>,
    pos: usize,
    n: usize,
    window: std::collections::VecDeque<A>,
}

impl<A> View for Slide<A> {
    type V = SlideModel<A>;

    closed spec fn view(&self) -> SlideModel<A> {
        SlideModel {
            source: self.source@,
            n: self.n as nat,
            pos: self.pos as int,
            window: self.window@,
        }
    }
}

impl<A: Copy> Slide<A> {
    /// Constructs an adapter over `source` with window size `n`.
    pub fn new(source: Vec<A>, n: usize) -> (s: Slide<A>)
        ensures
            s@.wf(),
            s@ == init_model(source@, n as nat),
    {
        let s = Slide {
            source,
            pos: 0,
            n,
            window: std::collections::VecDeque::with_capacity(n),
        };
        proof {
            assert(s@.window =~= init_model(s@.source, n as nat).window);
            assert(s@.window =~= s@.source.subrange(0, 0));
            assert(s@ =~= init_model(s@.source, n as nat));
        }
        s
    }

    /// Pulls the next source element, if any, and appends it to the window
    /// buffer.  Returns whether an element was available.
    pub fn push_window(&mut self) -> (ok: bool)
        requires
            old(self)@.pos <= old(self)@.source.len(),
        ensures
            ok == (old(self)@.pos < old(self)@.source.len()),
            ok ==> final(self)@ == (SlideModel {
                pos: old(self)@.pos + 1,
                window: old(self)@.window.push(old(self)@.source[old(self)@.pos]),
                ..old(self)@
            }),
            !ok ==> final(self)@ == old(self)@,
    {
        if self.pos < self.source.len() {
            let x: A = self.source[self.pos];
            self.window.push_back(x);
            self.pos = self.pos + 1;
            true
        } else {
            false
        }
    }

    /// Produces the next window: an independent, order-preserving copy of the
    /// `n` source elements now buffered, each call shifted one position past
    /// the previous window.  Returns `None` once no further window can be
    /// produced; from then on every call returns `None`.
    pub fn next(&mut self) -> (result: Option<std::collections::VecDeque<A>>)
        requires
            old(self)@.wf(),
        ensures
            final(self)@.wf(),
            final(self)@ == old(self)@.step(),
            old(self)@.exhausted() ==> result is None,
            result is None ==> final(self)@.exhausted(),
            match result {
                Some(w) => old(self)@.step_output() == Some(w@) && w@.len() == old(self)@.n,
                None => old(self)@.step_output() is None,
            },
    {
        if self.n == 0 {
            return None;
        }
        let ghost m0 = self@;
        if self.window.len() == 0 {
            // Initial fill: pull until the buffer holds n elements.
            #[verifier::loop_isolation(false)]
            while self.window.len() < self.n
                invariant
                    self@.n == m0.n,
                    self@.source == m0.source,
                    0 < self@.n,
                    0 <= m0.pos <= self@.pos <= self@.source.len(),
                    self@.window.len() == self@.pos - m0.pos,
                    self@.window.len() <= self@.n,
                    self@.window == self@.source.subrange(m0.pos, self@.pos),
                decreases self@.n - self@.window.len(),
            {
                if !self.push_window() {
                    // The source ran dry before a full window was assembled.
                    proof {
                        assert(m0.pos + m0.n > m0.source.len());
                        assert(self@ =~= m0.step());
                        assert(self@.window =~= self@.source.subrange(
                            self@.pos - self@.window.len(),
                            self@.pos,
                        ));
                    }
                    return None;
                }
                proof {
                    assert(self@.window =~= self@.source.subrange(m0.pos, self@.pos));
                }
            }
            proof {
                assert(m0.pos + m0.n <= m0.source.len());
                assert(self@ =~= m0.step());
                assert(self@.window =~= self@.source.subrange(
                    self@.pos - self@.window.len(),
                    self@.pos,
                ));
            }
        } else {
            // Steady state: evict the oldest element, then pull one new one.
            let evicted = self.window.pop_front();
            proof {
                assert(evicted is Some);
            }
            if !self.push_window() {
                // The eviction stands, but no element was left to refill with:
                // the adapter is exhausted from here on.
                proof {
                    lemma_subrange_drop_first(m0.source, m0.pos - m0.window.len(), m0.pos);
                    assert(self@ =~= m0.step());
                    assert(self@.window == self@.source.subrange(
                        self@.pos - self@.window.len(),
                        self@.pos,
                    ));
                }
                return None;
            }
            proof {
                assert(m0.window.len() == m0.n);
                lemma_subrange_drop_first(m0.source, m0.pos - m0.window.len(), m0.pos);
                lemma_subrange_push(m0.source, m0.pos - m0.window.len() + 1, m0.pos);
                assert(self@ =~= m0.step());
                assert(self@.window == self@.source.subrange(
                    self@.pos - self@.window.len(),
                    self@.pos,
                ));
            }
        }
        Some(self.copy_window())
    }

    /// Hands out an independent copy of the current window buffer.
    fn copy_window(&self) -> (r: std::collections::VecDeque<A>)
        ensures
            r@ == self@.window,
    {
        let mut r: std::collections::VecDeque<A> = std::collections::VecDeque::with_capacity(
            self.window.len(),
        );
        let mut i: usize = 0;
        while i < self.window.len()
            invariant
                i <= self.window@.len(),
                r@ == self.window@.subrange(0, i as int),
            decreases self.window@.len() - i,
        {
            let x: A = self.window[i];
            r.push_back(x);
            i = i + 1;
        }
        proof {
            assert(r@ =~= self.window@);
        }
        r
    }
}

/// Anything that can be turned into a sliding-window adapter over its
/// elements.
pub trait SlideIterator<A>: Sized {
    /// The elements the source yields, in order.
    spec fn elements(self) -> Seq<A>;

    /// Returns a sliding-window adapter of window size `n` over `self`.
    fn slide(self, n: usize) -> (s: Slide<A>)
        ensures
            s@.wf(),
            s@ == init_model(self.elements(), n as nat),
    ;
}

impl<A: Copy> SlideIterator<A> for Vec<A> {
    open spec fn elements(self) -> Seq<A> {
        self@
    }

    fn slide(self, n: usize) -> (s: Slide<A>) {
        Slide::new(self, n)
    }
}

proof fn lemma_step_exhausted<A>(m: SlideModel<A>)
    requires
        m.exhausted(),
    ensures
        m.step_output() is None,
        m.step().exhausted(),
{
}

proof fn lemma_exhausted_stays<A>(source: Seq<A>, n: nat, k: nat, j: nat)
    requires
        model_after(source, n, k).exhausted(),
        k <= j,
    ensures
        model_after(source, n, j).exhausted(),
        output_at(source, n, j) is None,
    decreases j - k,
{
    if j == k {
        lemma_step_exhausted(model_after(source, n, k));
    } else {
        lemma_exhausted_stays(source, n, k, (j - 1) as nat);
        lemma_step_exhausted(model_after(source, n, (j - 1) as nat));
        lemma_step_exhausted(model_after(source, n, j));
    }
}

proof fn lemma_running_state<A>(source: Seq<A>, n: nat, k: nat)
    requires
        0 < n <= source.len(),
        1 <= k <= source.len() - n + 1,
    ensures
        model_after(source, n, k) == (SlideModel {
            source,
            n,
            pos: n + k - 1,
            window: source.subrange(k - 1, k - 1 + n),
        }),
    decreases k,
{
    if k == 1 {
        assert(model_after(source, n, 0) == init_model(source, n));
        assert(model_after(source, n, 1) == init_model(source, n).step());
        assert(model_after(source, n, 1) =~= (SlideModel {
            source,
            n,
            pos: n as int,
            window: source.subrange(0, n as int),
        }));
    } else {
        lemma_running_state(source, n, (k - 1) as nat);
        lemma_subrange_drop_first(source, k - 2, k - 2 + n);
        lemma_subrange_push(source, k - 1, k - 2 + n);
        assert(model_after(source, n, k) =~= (SlideModel {
            source,
            n,
            pos: n + k - 1,
            window: source.subrange(k - 1, k - 1 + n),
        }));
    }
}

/// Law: for window sizes 0 < n <= |source|, the adapter produces exactly
/// |source| - n + 1 windows; the k-th production call returns the k-th
/// window, source[k .. k+n), in source order, and every later call
/// produces nothing.
pub proof fn lemma_full_production<A>(source: Seq<A>, n: nat, k: nat)
    requires
        0 < n <= source.len(),
    ensures
        windows(source, n).len() == source.len() - n + 1,
        k < windows(source, n).len() ==> output_at(source, n, k) == Some(
            source.subrange(k as int, k + n as int),
        ),
        k < windows(source, n).len() ==> output_at(source, n, k) == Some(windows(source, n)[k as int]),
        k >= windows(source, n).len() ==> output_at(source, n, k) is None,
{
    let w = (source.len() - n + 1) as nat;
    if k < w {
        if k == 0 {
            assert(output_at(source, n, 0) == Some(source.subrange(0, n as int)));
        } else {
            lemma_running_state(source, n, k);
            lemma_subrange_drop_first(source, k - 1, k - 1 + n);
            lemma_subrange_push(source, k as int, k - 1 + n);
        }
    } else {
        lemma_running_state(source, n, w);
        lemma_exhausted_stays(source, n, w, k);
    }
}

/// Law: with window size zero the adapter never produces a window, however
/// many production calls are made.
pub proof fn lemma_zero_window<A>(source: Seq<A>, k: nat)
    ensures
        output_at(source, 0, k) is None,
{
    lemma_exhausted_stays(source, 0, 0, k);
}

/// Law: a window size larger than the source length never produces a
/// window; the adapter is exhausted from the first call on, without ever
/// exposing a partial window.
pub proof fn lemma_overlong_window<A>(source: Seq<A>, n: nat, k: nat)
    requires
        n > source.len(),
    ensures
        output_at(source, n, k) is None,
{
    if k == 0 {
        assert(output_at(source, n, 0) is None);
    } else {
        assert(model_after(source, n, 1) == init_model(source, n).step());
        lemma_exhausted_stays(source, n, 1, k);
    }
}

/// Law: when the window size equals the (positive) source length, the
/// adapter produces exactly one window, the whole source in order, and
/// nothing afterwards.
pub proof fn lemma_whole_source_window<A>(source: Seq<A>, k: nat)
    requires
        source.len() > 0,
    ensures
        windows(source, source.len()).len() == 1,
        output_at(source, source.len(), 0) == Some(source),
        k >= 1 ==> output_at(source, source.len(), k) is None,
{
    lemma_full_production(source, source.len(), k);
    if k >= 1 {
        lemma_full_production(source, source.len(), 0);
    }
    assert(source.subrange(0, source.len() as int) =~= source);
}

/// Law: exhaustion is permanent: once a production call returns nothing,
/// every later call on the same adapter returns nothing as well.
pub proof fn lemma_exhaustion_permanent<A>(source: Seq<A>, n: nat, k: nat, j: nat)
    requires
        output_at(source, n, k) is None,
        k <= j,
    ensures
        output_at(source, n, j) is None,
{
    if n == 0 {
        lemma_zero_window(source, j);
    } else if n > source.len() {
        lemma_overlong_window(source, n, j);
    } else {
        lemma_full_production(source, n, k);
        lemma_full_production(source, n, j);
    }
}

} // verus!
