use vstd::prelude::*;

verus! {

/// A value pinned to a frame.
#[derive(Clone, Copy)]
pub struct Keyframe<T: Copy> {
    value: T,
    frame: usize,
}

impl<T: Copy> Keyframe<T> {
    pub closed spec fn spec_value(&self) -> T {
        self.value
    }

    pub closed spec fn spec_frame(&self) -> usize {
        self.frame
    }

    /// A keyframe with a linear transition towards the next one.
    pub fn new(value: T, frame: usize) -> (k: Keyframe<T>)
        ensures
            k.spec_value() == value,
            k.spec_frame() == frame,
    {
        Keyframe { value, frame }
    }

    pub fn boxed(self) -> (b: Box<Keyframe<T>>)
        ensures
            *b == self,
    {
        Box::new(self)
    }

    /// The keyframe's value.
    pub fn value(&self) -> (v: T)
        ensures
            v == self.spec_value(),
    {
        self.value
    }

    /// The keyframe's frame.
    pub fn frame(&self) -> (f: usize)
        ensures
            f == self.spec_frame(),
    {
        self.frame
    }
}

/// Where a frame falls among the keyframes: on (or past, or before) a
/// keyframe whose value holds unchanged, or `time_in` frames into the
/// `span` frames between keyframe `from` and the next one.
#[derive(Clone, Copy, PartialEq, Eq, Structural, Debug)]
pub enum FrameSample {
    Hold(usize),
    Blend { from: usize, time_in: usize, span: usize },
}

/// The keyframe a lookup settles on, searching down from keyframe `i`: the
/// first one whose frame is not after `frame`, or keyframe 0.
pub open spec fn search_back<T>(keys: Seq<(T, usize)>, frame: usize, i: int) -> int
    decreases i,
{
    if i <= 0 {
        0
    } else if keys[i].1 <= frame {
        i
    } else {
        search_back(keys, frame, i - 1)
    }
}

/// The keyframe a lookup of `frame` settles on.
pub open spec fn located<T>(keys: Seq<(T, usize)>, frame: usize) -> int {
    search_back(keys, frame, keys.len() - 1)
}

/// Frames at which the keyframes give a value: there is a keyframe, and
/// when there are several, one of them is not after `frame`.
pub open spec fn defined_at<T>(keys: Seq<(T, usize)>, frame: usize) -> bool {
    &&& keys.len() > 0
    &&& keys.len() == 1 || exists|j: int| 0 <= j < keys.len() && #[trigger] keys[j].1 <= frame
}

/// How the value at `frame` comes about.
pub open spec fn sample_at<T>(keys: Seq<(T, usize)>, frame: usize) -> FrameSample {
    let n = keys.len();
    let i = located(keys, frame);
    if n == 1 {
        FrameSample::Hold(0)
    } else if i == n - 1 {
        FrameSample::Hold((n - 1) as usize)
    } else if frame - keys[i].1 <= 0 {
        FrameSample::Hold(i as usize)
    } else {
        FrameSample::Blend {
            from: i as usize,
            time_in: (frame - keys[i].1) as usize,
            span: (keys[i + 1].1 - keys[i].1) as usize,
        }
    }
}

/// An attribute whose value moves between keyframes.
pub struct InterpolatedAttribute<T: Copy> {
    keyframes: Vec<Box<Keyframe<T>>>,
}

impl<T: Copy> View for InterpolatedAttribute<T> {
    type V = Seq<(T, usize)>;

    /// The `(value, frame)` pairs of the keyframes, in the order they were added.
    closed spec fn view(&self) -> Seq<(T, usize)> {
        self.keyframes@.map_values(|k: Box<Keyframe<T>>| (k.value, k.frame))
    }
}

impl<T: Copy> InterpolatedAttribute<T> {
    pub fn new() -> (a: InterpolatedAttribute<T>)
        ensures
            a@ == Seq::<(T, usize)>::empty(),
    {
        let a = InterpolatedAttribute { keyframes: Vec::new() };
        assert(a@ =~= Seq::<(T, usize)>::empty());
        a
    }

    /// Adds a keyframe after the existing ones.
    pub fn add(&mut self, value: T, frame: usize)
        ensures
            final(self)@ == old(self)@.push((value, frame)),
    {
        let x = Box::new(Keyframe::new(value, frame));
        self.keyframes.push(x);
        assert(self@ =~= old(self)@.push((value, frame)));
    }

    /// Adds a keyframe after the existing ones, with a linear transition.
    pub fn add_t(&mut self, value: T, frame: usize)
        ensures
            final(self)@ == old(self)@.push((value, frame)),
    {
        let x = Box::new(Keyframe::new(value, frame));
        self.keyframes.push(x);
        assert(self@ =~= old(self)@.push((value, frame)));
    }

    pub fn boxed(self) -> (b: Box<InterpolatedAttribute<T>>)
        ensures
            b@ == self@,
    {
        Box::new(self)
    }

    /// The number of keyframes.
    pub fn len(&self) -> (n: usize)
        ensures
            n == self@.len(),
    {
        self.keyframes.len()
    }

    /// Keyframe `i`.
    pub fn keyframe(&self, i: usize) -> (k: &Keyframe<T>)
        requires
            i < self@.len(),
        ensures
            (k.spec_value(), k.spec_frame()) == self@[i as int],
    {
        &self.keyframes[i]
    }

    /// Whether the attribute has a value at `frame`.
    pub fn is_defined_at(&self, frame: usize) -> (r: bool)
        ensures
            r == defined_at(self@, frame),
    {
        let n = self.keyframes.len();
        if n == 0 {
            return false;
        }
        if n == 1 {
            return true;
        }
        for j in 0..n
            invariant
                n == self@.len(),
                forall|k: int| 0 <= k < j ==> #[trigger] self@[k].1 > frame,
        {
            if self.keyframes[j].frame <= frame {
                assert(self@[j as int].1 <= frame);
                return true;
            }
        }
        false
    }

    /// Finds where `frame` falls: searching down from the last keyframe for
    /// the first one not after `frame` (or keyframe 0), the value holds at the
    /// last keyframe and on a keyframe's own frame, and blends towards the
    /// next keyframe in between.
    pub fn sample(&self, frame: usize) -> (r: FrameSample)
        requires
            defined_at(self@, frame),
        ensures
            r == sample_at(self@, frame),
    {
        let k = &self.keyframes;
        let n = k.len();
        if n == 1 {
            return FrameSample::Hold(0);
        }
        let mut i = n - 1;
        while k[i].frame > frame && i > 0
            invariant
                n == self@.len(),
                n > 1,
                i < n,
                k == &self.keyframes,
                search_back(self@, frame, (n - 1) as int) == search_back(self@, frame, i as int),
            decreases i,
        {
            i -= 1;
        }
        assert(search_back(self@, frame, i as int) == i as int);
        if n - 1 == i {
            return FrameSample::Hold(n - 1);
        }
        proof {
            lemma_search_back_bound(self@, frame, (n - 1) as int);
        }
        let time_in = frame - k[i].frame;
        if time_in <= 0 {
            return FrameSample::Hold(i);
        }
        let span = k[i + 1].frame - k[i].frame;
        FrameSample::Blend { from: i, time_in, span }
    }
}

/// When the keyframes give a value at `frame` and the search settles before
/// the last keyframe, the keyframe it settles on is not after `frame` and
/// every later one is.
proof fn lemma_search_back_bound<T>(keys: Seq<(T, usize)>, frame: usize, i: int)
    requires
        0 <= i < keys.len(),
    ensures
        0 <= search_back(keys, frame, i) <= i,
        forall|j: int| search_back(keys, frame, i) < j <= i ==> #[trigger] keys[j].1 > frame,
        search_back(keys, frame, i) > 0 ==> keys[search_back(keys, frame, i)].1 <= frame,
    decreases i,
{
    if i > 0 && keys[i].1 > frame {
        lemma_search_back_bound(keys, frame, i - 1);
    }
}

/// Keyframes in strictly increasing frame order.
pub open spec fn strictly_ordered<T>(keys: Seq<(T, usize)>) -> bool {
    forall|i: int, j: int| 0 <= i < j < keys.len() ==> #[trigger] keys[i].1 < #[trigger] keys[j].1
}

proof fn lemma_search_back_settles<T>(keys: Seq<(T, usize)>, frame: usize, j: int, i: int)
    requires
        0 <= j <= i < keys.len(),
        keys[j].1 <= frame,
        forall|m: int| j < m <= i ==> #[trigger] keys[m].1 > frame,
    ensures
        search_back(keys, frame, i) == j,
    decreases i,
{
    if i > j {
        lemma_search_back_settles(keys, frame, j, i - 1);
    }
}

/// On its own frame, a keyframe's value holds: with keyframes in strictly
/// increasing frame order, sampling at keyframe `j`'s frame gives keyframe `j`.
pub proof fn lemma_keyframe_value_on_its_frame<T>(keys: Seq<(T, usize)>, j: int)
    requires
        strictly_ordered(keys),
        0 <= j < keys.len(),
    ensures
        defined_at(keys, keys[j].1),
        sample_at(keys, keys[j].1) == FrameSample::Hold(j as usize),
{
    let frame = keys[j].1;
    assert forall|m: int| j < m <= keys.len() - 1 implies #[trigger] keys[m].1 > frame by {
        assert(keys[j].1 < keys[m].1);
    }
    lemma_search_back_settles(keys, frame, j, keys.len() - 1);
}

/// From the last keyframe's frame on, the last keyframe's value holds.
pub proof fn lemma_last_keyframe_holds<T>(keys: Seq<(T, usize)>, frame: usize)
    requires
        keys.len() > 0,
        keys.last().1 <= frame,
    ensures
        defined_at(keys, frame),
        sample_at(keys, frame) == FrameSample::Hold((keys.len() - 1) as usize),
{
    assert(keys[keys.len() - 1].1 <= frame);
}

/// Strictly between two neighbouring keyframes, the value blends from the
/// earlier one: `time_in` frames into the span between them.
pub proof fn lemma_between_keyframes_blends<T>(keys: Seq<(T, usize)>, j: int, frame: usize)
    requires
        strictly_ordered(keys),
        0 <= j,
        j + 1 < keys.len(),
        keys[j].1 < frame < keys[j + 1].1,
    ensures
        defined_at(keys, frame),
        sample_at(keys, frame) == (FrameSample::Blend {
            from: j as usize,
            time_in: (frame - keys[j].1) as usize,
            span: (keys[j + 1].1 - keys[j].1) as usize,
        }),
{
    assert forall|m: int| j < m <= keys.len() - 1 implies #[trigger] keys[m].1 > frame by {
        if m > j + 1 {
            assert(keys[j + 1].1 < keys[m].1);
        }
    }
    lemma_search_back_settles(keys, frame, j, keys.len() - 1);
}

/// A lookup settles on the latest keyframe not after the frame, counting
/// from the end: every later keyframe is after the frame, and the one it
/// settles on is not (unless it is keyframe 0, where the search stops).
pub proof fn lemma_lookup_settles_on_last_keyframe_not_after<T>(keys: Seq<(T, usize)>, frame: usize)
    requires
        keys.len() > 0,
    ensures
        0 <= located(keys, frame) < keys.len(),
        forall|j: int| located(keys, frame) < j < keys.len() ==> #[trigger] keys[j].1 > frame,
        located(keys, frame) > 0 ==> keys[located(keys, frame)].1 <= frame,
        defined_at(keys, frame) && keys.len() > 1 ==> keys[located(keys, frame)].1 <= frame,
{
    lemma_search_back_bound(keys, frame, keys.len() - 1);
    if defined_at(keys, frame) && keys.len() > 1 && located(keys, frame) == 0 {
        let j = choose|j: int| 0 <= j < keys.len() && #[trigger] keys[j].1 <= frame;
        if j > 0 {
            assert(keys[j].1 > frame);
        }
    }
}

/// How a sample relates to the keyframes: a blend starts at the keyframe
/// the lookup settles on, strictly inside the span to the next keyframe;
/// a hold is on that keyframe, or the last one, or the only one.
pub proof fn lemma_sample_within_span<T>(keys: Seq<(T, usize)>, frame: usize)
    requires
        defined_at(keys, frame),
        keys.len() <= usize::MAX,
    ensures
        sample_at(keys, frame) matches FrameSample::Blend { from, time_in, span } ==> {
            &&& from == located(keys, frame)
            &&& from + 1 < keys.len()
            &&& keys[from as int].1 + time_in == frame
            &&& keys[from as int].1 + span == keys[from + 1].1
            &&& 0 < time_in < span
        },
        sample_at(keys, frame) matches FrameSample::Hold(i) ==> {
            ||| keys.len() == 1 && i == 0
            ||| i == keys.len() - 1
            ||| i == located(keys, frame) && keys[i as int].1 == frame
        },
{
    lemma_lookup_settles_on_last_keyframe_not_after(keys, frame);
    let n = keys.len();
    let i = located(keys, frame);
    if n > 1 && i < n - 1 {
        assert(keys[i].1 <= frame);
        assert(keys[i + 1].1 > frame);
        let t = frame - keys[i].1;
        let sp = keys[i + 1].1 - keys[i].1;
        assert(0 <= t <= usize::MAX);
        assert(0 < sp <= usize::MAX);
        assert(i as usize == i);
        if t > 0 {
            assert(sample_at(keys, frame) == FrameSample::Blend {
                from: i as usize,
                time_in: t as usize,
                span: sp as usize,
            });
            assert(t as usize == t);
            assert(sp as usize == sp);
        } else {
            assert(sample_at(keys, frame) == FrameSample::Hold(i as usize));
            assert(keys[i].1 == frame);
        }
    }
}

} // verus!
