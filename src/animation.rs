use vstd::prelude::*;

verus! {

/// One timed step of an animation.
pub struct Keyframe<T> {
    pub duration_ms: u16,
    /// The sum of the durations of this keyframe and all before it.
    pub cumulative_duration_ms: u16,
    pub value: T,
}

impl<T> Keyframe<T> {
    pub fn new(duration_ms: u16, value: T) -> (r: Self)
        ensures
            r.duration_ms == duration_ms,
            r.cumulative_duration_ms == 0,
            r.value == value,
    {
        Keyframe { duration_ms, value, cumulative_duration_ms: 0 }
    }
}

/// The sum of the durations of the first `n` keyframes.
pub open spec fn duration_upto<T>(s: Seq<Keyframe<T>>, n: int) -> int
    decreases n,
{
    if n <= 0 || n > s.len() {
        0
    } else {
        duration_upto(s, n - 1) + s[n - 1].duration_ms
    }
}

/// Two sequences whose first `n` durations agree have the same prefix sum.
proof fn lemma_duration_upto_same<T>(a: Seq<Keyframe<T>>, b: Seq<Keyframe<T>>, n: int)
    requires
        0 <= n <= a.len(),
        a.len() == b.len(),
        forall|i: int| 0 <= i < n ==> a[i].duration_ms == b[i].duration_ms,
    ensures
        duration_upto(a, n) == duration_upto(b, n),
    decreases n,
{
    if n > 0 {
        lemma_duration_upto_same(a, b, n - 1);
    }
}

/// Prefix sums of durations never decrease.
proof fn lemma_duration_upto_mono<T>(s: Seq<Keyframe<T>>, i: int, j: int)
    requires
        0 <= i <= j <= s.len(),
    ensures
        duration_upto(s, i) <= duration_upto(s, j),
    decreases j,
{
    if i < j {
        lemma_duration_upto_mono(s, i, j - 1);
    }
}

/// An immutable, non-empty sequence of keyframes, shared by any number of
/// cursors.
pub struct Animation<T> {
    keyframes: Vec<Keyframe<T>>,
}

impl<T> Animation<T> {
    /// The keyframes, in playback order.
    pub closed spec fn frames(&self) -> Seq<Keyframe<T>> {
        self.keyframes@
    }

    /// Non-empty, and each keyframe's cumulative duration is the sum of the
    /// durations up to and including it.
    pub open spec fn wf(&self) -> bool {
        &&& self.frames().len() > 0
        &&& forall|i: int|
            0 <= i < self.frames().len() ==> #[trigger] self.frames()[i].cumulative_duration_ms
                == duration_upto(self.frames(), i + 1)
    }

    /// Builds an animation, computing each keyframe's cumulative duration.
    pub fn new(keyframes: Vec<Keyframe<T>>) -> (r: Self)
        requires
            keyframes@.len() > 0,
            duration_upto(keyframes@, keyframes@.len() as int) <= u16::MAX,
        ensures
            r.wf(),
            r.frames().len() == keyframes@.len(),
            forall|i: int|
                0 <= i < keyframes@.len() ==> (#[trigger] r.frames()[i]).duration_ms
                    == keyframes@[i].duration_ms && r.frames()[i].value == keyframes@[i].value,
    {
        let mut kf = keyframes;
        let n = kf.len();
        let mut acc: u16 = 0;
        let mut i: usize = 0;
        while i < n
            invariant
                n == kf@.len(),
                n == keyframes@.len(),
                0 <= i <= n,
                duration_upto(keyframes@, n as int) <= u16::MAX,
                acc == duration_upto(keyframes@, i as int),
                forall|j: int|
                    0 <= j < n ==> (#[trigger] kf@[j]).duration_ms == keyframes@[j].duration_ms
                        && kf@[j].value == keyframes@[j].value,
                forall|j: int|
                    0 <= j < i ==> (#[trigger] kf@[j]).cumulative_duration_ms == duration_upto(
                        keyframes@,
                        j + 1,
                    ),
            decreases n - i,
        {
            proof {
                lemma_duration_upto_mono(keyframes@, i as int + 1, n as int);
            }
            acc = acc + kf[i].duration_ms;
            kf[i].cumulative_duration_ms = acc;
            i = i + 1;
        }
        proof {
            assert forall|j: int| 0 <= j < n implies #[trigger] kf@[j].cumulative_duration_ms
                == duration_upto(kf@, j + 1) by {
                lemma_duration_upto_same(kf@, keyframes@, j + 1);
            }
        }
        Animation { keyframes: kf }
    }

    /// The number of keyframes.
    pub fn len(&self) -> (r: usize)
        ensures
            r == self.frames().len(),
    {
        self.keyframes.len()
    }

    /// The keyframe at `i`.
    pub fn keyframe(&self, i: usize) -> (r: &Keyframe<T>)
        requires
            i < self.frames().len(),
        ensures
            *r == self.frames()[i as int],
    {
        &self.keyframes[i]
    }
}

/// In a well-formed animation, cumulative durations never decrease.
pub proof fn lemma_cumulative_mono<T>(a: &Animation<T>, i: int, j: int)
    requires
        a.wf(),
        0 <= i <= j < a.frames().len(),
    ensures
        a.frames()[i].cumulative_duration_ms <= a.frames()[j].cumulative_duration_ms,
{
    assert(a.frames()[i].cumulative_duration_ms == duration_upto(a.frames(), i + 1));
    assert(a.frames()[j].cumulative_duration_ms == duration_upto(a.frames(), j + 1));
    lemma_duration_upto_mono(a.frames(), i + 1, j + 1);
}

/// The frame that a cursor started at `start` and standing at `from` reaches
/// at time `now`: the first keyframe at or after `from` whose end
/// (`cumulative_duration_ms + start`) has not yet passed `now`, or the number
/// of keyframes if all have passed.
pub open spec fn advance_to<T>(frames: Seq<Keyframe<T>>, start: int, now: int, from: int) -> int
    decreases frames.len() - from,
{
    if from < 0 || from >= frames.len() || frames[from].cumulative_duration_ms + start >= now {
        from
    } else {
        advance_to(frames, start, now, from + 1)
    }
}

proof fn lemma_advance_to_ge<T>(frames: Seq<Keyframe<T>>, start: int, now: int, from: int)
    ensures
        advance_to(frames, start, now, from) >= from,
        from >= 0 && from <= frames.len() ==> advance_to(frames, start, now, from) <= frames.len(),
    decreases frames.len() - from,
{
    if !(from < 0 || from >= frames.len() || frames[from].cumulative_duration_ms + start >= now) {
        lemma_advance_to_ge(frames, start, now, from + 1);
    }
}

proof fn lemma_advance_to_stops<T>(
    frames: Seq<Keyframe<T>>,
    start: int,
    now: int,
    from: int,
    i: int,
)
    requires
        0 <= from <= i <= frames.len(),
        forall|k: int| from <= k < i ==> #[trigger] frames[k].cumulative_duration_ms + start < now,
        i < frames.len() ==> frames[i].cumulative_duration_ms + start >= now,
    ensures
        advance_to(frames, start, now, from) == i,
    decreases i - from,
{
    if from < i {
        lemma_advance_to_stops(frames, start, now, from + 1, i);
    }
}

/// For a cursor started at `t0`, an update at time `t` shows keyframe `i`
/// when `t` lies after the end of keyframe `i - 1` (any `t` up to the end of
/// keyframe 0 for `i == 0`) and no later than the end of keyframe `i`; once
/// `t` is past the end of the last keyframe it reaches the end and stops.
pub proof fn lemma_cursor_frame_at_time<T>(a: &Animation<T>, t0: int, t: int, i: int)
    requires
        a.wf(),
        0 <= i <= a.frames().len(),
        i > 0 ==> a.frames()[i - 1].cumulative_duration_ms + t0 < t,
        i < a.frames().len() ==> t <= a.frames()[i].cumulative_duration_ms + t0,
    ensures
        advance_to(a.frames(), t0, t, 0) == i,
{
    assert forall|k: int| 0 <= k < i implies #[trigger] a.frames()[k].cumulative_duration_ms + t0
        < t by {
        lemma_cumulative_mono(a, k, i - 1);
    }
    lemma_advance_to_stops(a.frames(), t0, t, 0, i);
}

/// Only the time elapsed since the start decides how far a cursor advances.
pub proof fn lemma_advance_to_elapsed<T>(
    frames: Seq<Keyframe<T>>,
    s1: int,
    n1: int,
    s2: int,
    n2: int,
    from: int,
)
    requires
        n1 - s1 == n2 - s2,
    ensures
        advance_to(frames, s1, n1, from) == advance_to(frames, s2, n2, from),
    decreases frames.len() - from,
{
    if !(from < 0 || from >= frames.len() || frames[from].cumulative_duration_ms + s1 >= n1) {
        lemma_advance_to_elapsed(frames, s1, n1, s2, n2, from + 1);
    }
}

/// One step of looping playback at time `now`: the cursor advances, or, once
/// the animation has ended (or the cursor was stopped), restarts at `now`.
/// Gives the new cursor and the index of the keyframe shown.
pub open spec fn loop_step<T>(frames: Seq<Keyframe<T>>, c: AnimationCursor, now: u64) -> (
    AnimationCursor,
    int,
) {
    let f = advance_to(frames, c.start_ms as int, now as int, c.current_frame as int);
    if c.playing && f < frames.len() {
        (AnimationCursor { start_ms: c.start_ms, current_frame: f as usize, playing: true }, f)
    } else {
        (AnimationCursor { start_ms: now, current_frame: 0, playing: true }, 0)
    }
}

/// The cursor `c` with its start moved `shift` milliseconds later.
pub open spec fn shifted(c: AnimationCursor, shift: int) -> AnimationCursor {
    AnimationCursor { start_ms: (c.start_ms + shift) as u64, ..c }
}

/// Looping playback does not depend on when it happens: moving the cursor's
/// start and the time of the step by the same amount shows the same keyframe
/// and leaves the cursor moved by that amount, restarts included. A run of
/// steps over later cycles thus repeats the first cycle, shifted by the time
/// at which each cycle restarted.
pub proof fn lemma_loop_step_shift<T>(frames: Seq<Keyframe<T>>, c: AnimationCursor, now: u64, shift: int)
    requires
        0 <= c.start_ms + shift <= u64::MAX,
        0 <= now + shift <= u64::MAX,
    ensures
        loop_step(frames, shifted(c, shift), (now + shift) as u64).1 == loop_step(frames, c, now).1,
        loop_step(frames, shifted(c, shift), (now + shift) as u64).0 == shifted(
            loop_step(frames, c, now).0,
            shift,
        ),
{
    lemma_advance_to_elapsed(
        frames,
        c.start_ms as int,
        now as int,
        c.start_ms + shift,
        now + shift,
        c.current_frame as int,
    );
}

/// A playback position in an animation, kept apart from the animation so that
/// many instances can share one animation.
#[derive(Clone, Copy)]
pub struct AnimationCursor {
    pub start_ms: u64,
    pub current_frame: usize,
    pub playing: bool,
}

impl AnimationCursor {
    /// A stopped cursor at frame 0.
    pub fn new() -> (r: Self)
        ensures
            r.start_ms == 0,
            r.current_frame == 0,
            !r.playing,
    {
        AnimationCursor { start_ms: 0, current_frame: 0, playing: false }
    }

    /// Restarts playback at frame 0 with `now_ms` as the epoch, returning the
    /// first keyframe's value.
    pub fn start<'a, T>(&mut self, now_ms: u64, animation: &'a Animation<T>) -> (r: &'a T)
        requires
            animation.wf(),
        ensures
            final(self).start_ms == now_ms,
            final(self).current_frame == 0,
            final(self).playing,
            *r == animation.frames()[0].value,
    {
        self.start_ms = now_ms;
        self.current_frame = 0;
        self.playing = true;
        &animation.keyframes[0].value
    }

    /// Advances past every keyframe whose end has passed at `now_ms`. Returns
    /// the active keyframe's value, or `None` (and stops) once every keyframe
    /// has passed. A stopped cursor stays as it is and returns `None`.
    pub fn update<'a, T>(&mut self, now_ms: u64, animation: &'a Animation<T>) -> (r: Option<&'a T>)
        ensures
            final(self).start_ms == old(self).start_ms,
            final(self).current_frame >= old(self).current_frame,
            !old(self).playing ==> r.is_none() && *final(self) == *old(self),
            old(self).playing ==> {
                let f = advance_to(
                    animation.frames(),
                    old(self).start_ms as int,
                    now_ms as int,
                    old(self).current_frame as int,
                );
                &&& final(self).current_frame == f
                &&& f < animation.frames().len() ==> final(self).playing && r == Some(
                    &animation.frames()[f].value,
                )
                &&& f >= animation.frames().len() ==> !final(self).playing && r.is_none()
            },
    {
        if !self.playing {
            return None;
        }
        let n = animation.keyframes.len();
        let ghost from = self.current_frame as int;
        let ghost target = advance_to(
            animation.frames(),
            self.start_ms as int,
            now_ms as int,
            from,
        );
        proof {
            lemma_advance_to_ge(animation.frames(), self.start_ms as int, now_ms as int, from);
        }
        while self.current_frame < n && now_ms > self.start_ms
            && (animation.keyframes[self.current_frame].cumulative_duration_ms as u64) < now_ms
                - self.start_ms
            invariant
                n == animation.frames().len(),
                self.playing,
                self.start_ms == old(self).start_ms,
                from <= self.current_frame <= target,
                target == advance_to(
                    animation.frames(),
                    self.start_ms as int,
                    now_ms as int,
                    self.current_frame as int,
                ),
            decreases n - self.current_frame,
        {
            proof {
                lemma_advance_to_ge(
                    animation.frames(),
                    self.start_ms as int,
                    now_ms as int,
                    self.current_frame + 1,
                );
            }
            self.current_frame = self.current_frame + 1;
        }
        if self.current_frame < n {
            Some(&animation.keyframes[self.current_frame].value)
        } else {
            self.playing = false;
            None
        }
    }
}

} // verus!
