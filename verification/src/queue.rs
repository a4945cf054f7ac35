//! The frames of one input that wait for their tick, and the choice of
//! the frame to show.

use vstd::prelude::*;

verus! {

/// Decoded data of an input together with the time at which it is due.
#[derive(Debug)]
pub struct Frame<T> {
    /// Presentation timestamp.
    pub pts: u64,
    pub data: T,
}

/// Where an input stands between its registration and its end.
#[derive(Clone, Copy, Debug, PartialEq, Eq, Structural)]
pub enum Liveness {
    /// Registered; nothing has arrived yet.
    Registered,
    /// At least one frame has arrived.
    Streaming,
    /// Unregistered; what it holds is still served for `ticks_left` ticks.
    Draining { ticks_left: u64 },
    /// Unregistered, and what it held is released.
    Removed,
}

/// Mathematical value of a [`FrameSynchronizer`].
pub struct SynchronizerView<T> {
    /// The frames that wait to be selected, by ascending timestamp.
    pub buffer: Seq<Frame<T>>,
    /// The frame that was selected last.
    pub selected: Option<Frame<T>>,
    /// How many frames may wait.
    pub capacity: nat,
    pub liveness: Liveness,
}

/// Holds of the frames that are due before `pts`.
pub open spec fn before<T>(pts: u64) -> spec_fn(Frame<T>) -> bool {
    |f: Frame<T>| f.pts < pts
}

/// Holds of the frames that are due after `pts`.
pub open spec fn after<T>(pts: u64) -> spec_fn(Frame<T>) -> bool {
    |f: Frame<T>| f.pts > pts
}

/// Holds of the frames that are due at `pts` or before.
pub open spec fn until<T>(pts: u64) -> spec_fn(Frame<T>) -> bool {
    |f: Frame<T>| f.pts <= pts
}

/// Whether the timestamps ascend strictly.
pub open spec fn ascending<T>(buffer: Seq<Frame<T>>) -> bool {
    forall|i: int, j: int| 0 <= i < j < buffer.len() ==> buffer[i].pts < buffer[j].pts
}

/// The newest `capacity` frames of `buffer`.
pub open spec fn newest<T>(buffer: Seq<Frame<T>>, capacity: nat) -> Seq<Frame<T>> {
    if buffer.len() > capacity {
        buffer.subrange(buffer.len() - capacity, buffer.len() as int)
    } else {
        buffer
    }
}

impl<T> SynchronizerView<T> {
    /// The buffer is in order and within its bound, everything in it is
    /// newer than the selected frame, and an input that is removed holds
    /// nothing.
    pub open spec fn wf(self) -> bool {
        &&& ascending(self.buffer)
        &&& self.buffer.len() <= self.capacity
        &&& self.selected matches Some(s) ==> forall|i: int|
            0 <= i < self.buffer.len() ==> s.pts < (#[trigger] self.buffer[i]).pts
        &&& self.liveness is Removed ==> self.buffer.len() == 0 && self.selected is None
    }

    /// Whether a frame that arrives is taken into the buffer: the input
    /// is not unregistered and the frame is newer than the selected one.
    pub open spec fn accepts(self, frame: Frame<T>) -> bool {
        &&& self.liveness is Registered || self.liveness is Streaming
        &&& self.selected matches Some(s) ==> s.pts < frame.pts
    }

    /// The state after `frame` arrived. An accepted frame takes its place
    /// by timestamp, in place of one with the same timestamp if there is
    /// one; of more frames than the capacity the oldest leaves.
    pub open spec fn after_push(self, frame: Frame<T>) -> Self {
        if self.liveness is Draining || self.liveness is Removed {
            self
        } else if self.accepts(frame) {
            SynchronizerView {
                buffer: newest(
                    self.buffer.filter(before(frame.pts)) + seq![frame] + self.buffer.filter(
                        after(frame.pts),
                    ),
                    self.capacity,
                ),
                liveness: Liveness::Streaming,
                ..self
            }
        } else {
            SynchronizerView { liveness: Liveness::Streaming, ..self }
        }
    }

    /// The state after a selection for time `t`. The newest buffered frame
    /// that is due becomes the selected one and what is older leaves the
    /// buffer; with nothing due the selected frame stays. A draining input
    /// counts one tick down, and releases everything once none is left.
    pub open spec fn after_select(self, t: u64) -> Self {
        match self.liveness {
            Liveness::Removed => self,
            Liveness::Draining { ticks_left } if ticks_left == 0 => SynchronizerView {
                buffer: Seq::empty(),
                selected: None,
                liveness: Liveness::Removed,
                ..self
            },
            _ => {
                let due = self.buffer.filter(until(t));
                SynchronizerView {
                    buffer: self.buffer.filter(after(t)),
                    selected: if due.len() > 0 {
                        Some(due.last())
                    } else {
                        self.selected
                    },
                    liveness: match self.liveness {
                        Liveness::Draining { ticks_left } => Liveness::Draining {
                            ticks_left: (ticks_left - 1) as u64,
                        },
                        other => other,
                    },
                    ..self
                }
            },
        }
    }

    /// Whether a selection for time `t` picks a frame that was not picked
    /// before: the input has not used up its time of grace and a buffered
    /// frame is due.
    pub open spec fn is_fresh(self, t: u64) -> bool {
        &&& !(self.liveness is Removed)
        &&& !(self.liveness matches Liveness::Draining { ticks_left } && ticks_left == 0)
        &&& self.buffer.filter(until(t)).len() > 0
    }

    /// The state after the input was unregistered with `grace` ticks
    /// of grace. Unregistering twice changes nothing.
    pub open spec fn after_removal(self, grace: u64) -> Self {
        match self.liveness {
            Liveness::Registered | Liveness::Streaming => SynchronizerView {
                liveness: Liveness::Draining { ticks_left: grace },
                ..self
            },
            _ => self,
        }
    }

    /// The state after the frames of `frames` arrived in order.
    pub open spec fn after_pushes(self, frames: Seq<Frame<T>>) -> Self
        decreases frames.len(),
    {
        if frames.len() == 0 {
            self
        } else {
            self.after_pushes(frames.drop_last()).after_push(frames.last())
        }
    }
}

/// Where a predicate holds of exactly the first `a` items, filtering by
/// it gives those items.
pub proof fn lemma_filter_prefix<A>(s: Seq<A>, pred: spec_fn(A) -> bool, a: int)
    requires
        0 <= a <= s.len(),
        forall|i: int| 0 <= i < a ==> pred(#[trigger] s[i]),
        forall|i: int| a <= i < s.len() ==> !pred(#[trigger] s[i]),
    ensures
        s.filter(pred) == s.take(a),
    decreases s.len(),
{
    reveal(Seq::filter);
    if s.len() > 0 {
        let init = s.drop_last();
        if a == s.len() {
            lemma_filter_prefix(init, pred, a - 1);
            assert(init.take(a - 1).push(s.last()) =~= s.take(a));
        } else {
            lemma_filter_prefix(init, pred, a);
            assert(init.take(a) =~= s.take(a));
        }
    } else {
        assert(s.take(a) =~= s);
    }
}

/// Where a predicate holds of exactly the items from position `b` on,
/// filtering by it gives those items.
pub proof fn lemma_filter_suffix<A>(s: Seq<A>, pred: spec_fn(A) -> bool, b: int)
    requires
        0 <= b <= s.len(),
        forall|i: int| 0 <= i < b ==> !pred(#[trigger] s[i]),
        forall|i: int| b <= i < s.len() ==> pred(#[trigger] s[i]),
    ensures
        s.filter(pred) == s.skip(b),
    decreases s.len(),
{
    reveal(Seq::filter);
    if s.len() > 0 {
        let init = s.drop_last();
        if b == s.len() {
            lemma_filter_suffix(init, pred, b - 1);
            assert(init.skip(b - 1) =~= Seq::<A>::empty());
            assert(s.skip(b) =~= Seq::<A>::empty());
        } else {
            lemma_filter_suffix(init, pred, b);
            assert(init.skip(b).push(s.last()) =~= s.skip(b));
        }
    } else {
        assert(s.skip(b) =~= s);
    }
}


/// In an ascending buffer the frames that are due before `pts` stand
/// before all others; the result is how many they are.
pub proof fn lemma_split_before<T>(buffer: Seq<Frame<T>>, pts: u64) -> (a: int)
    requires
        ascending(buffer),
    ensures
        0 <= a <= buffer.len(),
        forall|i: int| 0 <= i < a ==> (#[trigger] buffer[i]).pts < pts,
        forall|i: int| a <= i < buffer.len() ==> (#[trigger] buffer[i]).pts >= pts,
    decreases buffer.len(),
{
    let n = buffer.len() as int;
    if n == 0 {
        0
    } else if buffer[n - 1].pts < pts {
        assert forall|i: int| 0 <= i < n implies (#[trigger] buffer[i]).pts < pts by {
            if i < n - 1 {
                assert(buffer[i].pts < buffer[n - 1].pts);
            }
        }
        n
    } else {
        let init = buffer.drop_last();
        assert forall|i: int, j: int| 0 <= i < j < init.len() implies init[i].pts
            < init[j].pts by {
            assert(buffer[i].pts < buffer[j].pts);
        }
        let a = lemma_split_before(init, pts);
        assert forall|i: int| 0 <= i < a implies (#[trigger] buffer[i]).pts < pts by {
            assert(init[i].pts < pts);
        }
        assert forall|i: int| a <= i < n implies (#[trigger] buffer[i]).pts >= pts by {
            if i < n - 1 {
                assert(init[i].pts >= pts);
            }
        }
        a
    }
}

/// In an ascending buffer the frames that are due at `t` or before stand
/// before all others; the result is how many they are.
pub proof fn lemma_split_until<T>(buffer: Seq<Frame<T>>, t: u64) -> (a: int)
    requires
        ascending(buffer),
    ensures
        0 <= a <= buffer.len(),
        forall|i: int| 0 <= i < a ==> (#[trigger] buffer[i]).pts <= t,
        forall|i: int| a <= i < buffer.len() ==> (#[trigger] buffer[i]).pts > t,
        buffer.filter(until(t)) == buffer.take(a),
        buffer.filter(after(t)) == buffer.skip(a),
    decreases buffer.len(),
{
    let n = buffer.len() as int;
    let a = if n == 0 {
        0
    } else if buffer[n - 1].pts <= t {
        assert forall|i: int| 0 <= i < n implies (#[trigger] buffer[i]).pts <= t by {
            if i < n - 1 {
                assert(buffer[i].pts < buffer[n - 1].pts);
            }
        }
        n
    } else {
        let init = buffer.drop_last();
        assert forall|i: int, j: int| 0 <= i < j < init.len() implies init[i].pts
            < init[j].pts by {
            assert(buffer[i].pts < buffer[j].pts);
        }
        let a = lemma_split_until(init, t);
        assert forall|i: int| 0 <= i < a implies (#[trigger] buffer[i]).pts <= t by {
            assert(init[i].pts <= t);
        }
        assert forall|i: int| a <= i < n implies (#[trigger] buffer[i]).pts > t by {
            if i < n - 1 {
                assert(init[i].pts > t);
            }
        }
        a
    };
    lemma_filter_prefix(buffer, until::<T>(t), a);
    lemma_filter_suffix(buffer, after::<T>(t), a);
    a
}

/// Each step leaves a well-formed synchronizer well-formed.
pub proof fn lemma_steps_keep_wf<T>(s: SynchronizerView<T>, frame: Frame<T>, t: u64, grace: u64)
    requires
        s.wf(),
    ensures
        s.after_push(frame).wf(),
        s.after_select(t).wf(),
        s.after_removal(grace).wf(),
{
    if !(s.liveness is Draining || s.liveness is Removed) && s.accepts(frame) {
        let a = lemma_split_before(s.buffer, frame.pts);
        let b = if a < s.buffer.len() && s.buffer[a].pts == frame.pts {
            a + 1
        } else {
            a
        };
        lemma_filter_prefix(s.buffer, before::<T>(frame.pts), a);
        lemma_filter_suffix(s.buffer, after::<T>(frame.pts), b);
        let longer = s.buffer.take(a) + seq![frame] + s.buffer.skip(b);
        assert(ascending(longer));
        assert(longer.len() <= s.capacity + 1);
    }
    let a = lemma_split_until(s.buffer, t);
    if a > 0 {
        assert(s.buffer.take(a).last() == s.buffer[a - 1]);
    }
}

/// Taking in frames changes neither the selected frame nor whether the
/// synchronizer is well-formed, and does not end an input.
pub proof fn lemma_pushes_keep_selection<T>(s: SynchronizerView<T>, frames: Seq<Frame<T>>)
    requires
        s.wf(),
    ensures
        s.after_pushes(frames).wf(),
        s.after_pushes(frames).selected == s.selected,
        s.after_pushes(frames).liveness is Removed == s.liveness is Removed,
    decreases frames.len(),
{
    if frames.len() > 0 {
        lemma_pushes_keep_selection(s, frames.drop_last());
        lemma_steps_keep_wf(s.after_pushes(frames.drop_last()), frames.last(), 0, 0);
    }
}

/// A selection never goes back: whatever arrives between two selections,
/// and whatever the two times are, the second does not pick a frame that
/// is due before the one the first picked; and as long as the input is
/// not released, an input that showed a frame keeps showing one.
pub proof fn lemma_selection_never_goes_back<T>(
    s: SynchronizerView<T>,
    t1: u64,
    frames: Seq<Frame<T>>,
    t2: u64,
)
    requires
        s.wf(),
    ensures
        ({
            let first = s.after_select(t1);
            let second = first.after_pushes(frames).after_select(t2);
            &&& second.wf()
            &&& (first.selected is Some && second.selected is Some) ==> first.selected->0.pts
                <= second.selected->0.pts
            &&& (first.selected is Some && !(second.liveness is Removed))
                ==> second.selected is Some
        }),
{
    let first = s.after_select(t1);
    lemma_steps_keep_wf(s, arbitrary(), t1, 0);
    lemma_pushes_keep_selection(first, frames);
    let between = first.after_pushes(frames);
    lemma_steps_keep_wf(between, arbitrary(), t2, 0);
    let a = lemma_split_until(between.buffer, t2);
    if a > 0 {
        assert(between.buffer.take(a).last() == between.buffer[a - 1]);
    }
}

/// What a selection picks is due, and nothing in the buffer that is due is
/// newer.
pub proof fn lemma_selection_is_latest_due<T>(s: SynchronizerView<T>, t: u64)
    requires
        s.wf(),
        s.liveness is Registered || s.liveness is Streaming,
    ensures
        ({
            let picked = s.after_select(t).selected;
            &&& picked is None ==> s.selected is None && forall|i: int|
                0 <= i < s.buffer.len() ==> (#[trigger] s.buffer[i]).pts > t
            &&& picked matches Some(frame) ==> {
                &&& s.selected == Some(frame) || (frame.pts <= t && s.buffer.contains(frame))
                &&& forall|i: int|
                    0 <= i < s.buffer.len() && (#[trigger] s.buffer[i]).pts <= t ==> s.buffer[i].pts
                        <= frame.pts
            }
        }),
{
    let a = lemma_split_until(s.buffer, t);
    if a > 0 {
        assert(s.buffer.take(a).last() == s.buffer[a - 1]);
    }
}

/// Buffers the frames of one input and picks the one to show at a tick.
#[derive(Debug)]
pub struct FrameSynchronizer<T> {
    buffer: Vec<Frame<T>>,
    selected: Option<Frame<T>>,
    capacity: usize,
    liveness: Liveness,
}

impl<T> View for FrameSynchronizer<T> {
    type V = SynchronizerView<T>;

    closed spec fn view(&self) -> SynchronizerView<T> {
        SynchronizerView {
            buffer: self.buffer@,
            selected: self.selected,
            capacity: self.capacity as nat,
            liveness: self.liveness,
        }
    }
}

impl<T> FrameSynchronizer<T> {
    /// A synchronizer for an input that was just registered; at most
    /// `capacity` frames will wait in it.
    pub fn new(capacity: usize) -> (res: Self)
        ensures
            res@.wf(),
            res@ == (SynchronizerView::<T> {
                buffer: Seq::empty(),
                selected: None,
                capacity: capacity as nat,
                liveness: Liveness::Registered,
            }),
    {
        let res = Self {
            buffer: Vec::new(),
            selected: None,
            capacity,
            liveness: Liveness::Registered,
        };
        assert(res@.buffer =~= Seq::empty());
        res
    }

    /// Where the input stands between its registration and its end.
    pub fn liveness(&self) -> (res: Liveness)
        ensures
            res == self@.liveness,
    {
        self.liveness
    }

    /// How many frames wait to be selected.
    pub fn buffered(&self) -> (res: usize)
        ensures
            res == self@.buffer.len(),
    {
        self.buffer.len()
    }

    /// The frame that was selected last.
    pub fn selected(&self) -> (res: Option<&Frame<T>>)
        ensures
            res is Some == self@.selected is Some,
            res matches Some(frame) ==> self@.selected == Some(*frame),
    {
        self.selected.as_ref()
    }

    /// Takes in a frame that arrived, in whatever order frames arrive.
    /// Says whether the frame went into the buffer; it is dropped if the
    /// input is unregistered or the frame is not newer than the selected
    /// one.
    pub fn push(&mut self, frame: Frame<T>) -> (accepted: bool)
        requires
            old(self)@.wf(),
        ensures
            final(self)@.wf(),
            final(self)@ == old(self)@.after_push(frame),
            accepted == old(self)@.accepts(frame),
    {
        match self.liveness {
            Liveness::Draining { .. } | Liveness::Removed => {
                return false;
            },
            _ => {},
        }
        self.liveness = Liveness::Streaming;
        let stale = match &self.selected {
            Some(s) => frame.pts <= s.pts,
            None => false,
        };
        if stale {
            return false;
        }
        let ghost buffer = self.buffer@;
        let pts = frame.pts;
        let mut at: usize = 0;
        while at < self.buffer.len() && self.buffer[at].pts < pts
            invariant
                at <= self.buffer.len(),
                self.buffer@ == buffer,
                forall|i: int| 0 <= i < at ==> (#[trigger] buffer[i]).pts < pts,
            decreases self.buffer.len() - at,
        {
            at += 1;
        }
        proof {
            lemma_filter_prefix(buffer, before::<T>(pts), at as int);
        }
        if at < self.buffer.len() && self.buffer[at].pts == pts {
            proof {
                lemma_filter_suffix(buffer, after::<T>(pts), at as int + 1);
            }
            self.buffer.set(at, frame);
            assert(self.buffer@ =~= buffer.take(at as int) + seq![frame] + buffer.skip(
                at as int + 1,
            ));
        } else {
            proof {
                lemma_filter_suffix(buffer, after::<T>(pts), at as int);
            }
            self.buffer.insert(at, frame);
            assert(self.buffer@ =~= buffer.take(at as int) + seq![frame] + buffer.skip(at as int));
            if self.buffer.len() > self.capacity {
                let ghost longer = self.buffer@;
                self.buffer.remove(0);
                assert(self.buffer@ =~= newest(longer, self.capacity as nat));
            }
        }
        true
    }

    /// Moves the selection on to time `t` and says whether a frame was
    /// picked that was not picked before.
    pub fn advance(&mut self, t: u64) -> (fresh: bool)
        requires
            old(self)@.wf(),
        ensures
            final(self)@.wf(),
            final(self)@ == old(self)@.after_select(t),
            fresh == old(self)@.is_fresh(t),
            fresh ==> final(self)@.selected is Some,
            (old(self)@.selected is Some && final(self)@.selected is Some) ==> old(
                self,
            )@.selected->0.pts <= final(self)@.selected->0.pts,
    {
        match self.liveness {
            Liveness::Removed => {
                return false;
            },
            Liveness::Draining { ticks_left } => {
                if ticks_left == 0 {
                    self.buffer = Vec::new();
                    self.selected = None;
                    self.liveness = Liveness::Removed;
                    assert(self.buffer@ =~= Seq::empty());
                    return false;
                }
                self.liveness = Liveness::Draining { ticks_left: ticks_left - 1 };
            },
            _ => {},
        }
        let ghost buffer = self.buffer@;
        let mut due: usize = 0;
        while due < self.buffer.len() && self.buffer[due].pts <= t
            invariant
                due <= self.buffer.len(),
                self.buffer@ == buffer,
                forall|i: int| 0 <= i < due ==> (#[trigger] buffer[i]).pts <= t,
            decreases self.buffer.len() - due,
        {
            due += 1;
        }
        proof {
            lemma_filter_prefix(buffer, until::<T>(t), due as int);
            lemma_filter_suffix(buffer, after::<T>(t), due as int);
        }
        if due > 0 {
            let later = self.buffer.split_off(due);
            let newest_due = self.buffer.pop();
            self.selected = newest_due;
            self.buffer = later;
            assert(self.buffer@ =~= buffer.skip(due as int));
            assert(buffer.take(due as int).last() == buffer[due as int - 1]);
            true
        } else {
            assert(buffer.skip(0) =~= buffer);
            false
        }
    }

    /// Picks the frame for a tick at time `t`: the buffered frame with the
    /// largest timestamp that is not after `t`; the frame picked before
    /// where none is due; `None` where none was ever picked, or where the
    /// input is unregistered and its time of grace is over.
    pub fn select(&mut self, t: u64) -> (res: Option<&Frame<T>>)
        requires
            old(self)@.wf(),
        ensures
            final(self)@.wf(),
            final(self)@ == old(self)@.after_select(t),
            res is Some == final(self)@.selected is Some,
            res matches Some(frame) ==> final(self)@.selected == Some(*frame),
            (old(self)@.selected is Some && final(self)@.selected is Some) ==> old(
                self,
            )@.selected->0.pts <= final(self)@.selected->0.pts,
    {
        let _ = self.advance(t);
        self.selected.as_ref()
    }

    /// Ends the input: it takes no more frames, serves what it holds for
    /// `grace` more ticks and then releases it.
    pub fn remove(&mut self, grace: u64)
        requires
            old(self)@.wf(),
        ensures
            final(self)@.wf(),
            final(self)@ == old(self)@.after_removal(grace),
    {
        match self.liveness {
            Liveness::Registered | Liveness::Streaming => {
                self.liveness = Liveness::Draining { ticks_left: grace };
            },
            _ => {},
        }
    }
}

} // verus!
