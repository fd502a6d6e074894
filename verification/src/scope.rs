//! The oscilloscope tap: samples on their way from the audio thread to a display.
//!
//! The audio thread sends every output sample into a ring; when the display falls behind and the
//! ring is full, samples are dropped. The display asks for one window of samples at a time, which
//! starts where the signal last rose through zero, so that a steady tone stands still.

use rtrb::{Consumer, Producer};
use vstd::prelude::*;
use crate::rings::{new_sample_ring, pop_sample};
use crate::single::Single;

verus! {

/// The number of samples in a window.
pub const SCOPE_WINDOW: usize = 1024;

/// The number of samples that the ring holds.
pub const SCOPE_CAPACITY: usize = 8192;

/// The number of samples that are kept to look for the start of a window in.
pub const HISTORY: usize = 3072;

/// The display's end of the tap.
pub struct ScopeReader {
    pub consumer: Consumer<Single>,
    /// The latest samples, oldest first.
    pub history: Vec<Single>,
}

/// The latest [`HISTORY`] of the samples.
pub open spec fn recent(samples: Seq<Single>) -> Seq<Single> {
    if samples.len() <= HISTORY {
        samples
    } else {
        samples.skip(samples.len() - HISTORY)
    }
}

/// Whether the signal rises through zero between sample `i` and the next one.
pub open spec fn rises(samples: Seq<Single>, i: int) -> bool {
    samples[i].at_most(Single::of(0)) && Single::of(0).below(samples[i + 1])
}

/// Where the window starts: at the latest rise before `limit`, or at `fallback` where there is
/// none.
pub open spec fn trigger(samples: Seq<Single>, limit: int, fallback: int) -> int
    decreases limit,
{
    if limit <= 0 {
        fallback
    } else if rises(samples, limit - 1) {
        limit - 1
    } else {
        trigger(samples, limit - 1, fallback)
    }
}

/// The window to draw of the samples that are kept: all of them while they are too few, then a
/// whole window from the trigger on.
pub open spec fn window(samples: Seq<Single>) -> Seq<Single> {
    if samples.len() < SCOPE_WINDOW {
        samples
    } else {
        let newest = samples.len() - SCOPE_WINDOW;
        let start = trigger(samples, newest + 1, newest);
        samples.subrange(start, start + SCOPE_WINDOW)
    }
}

/// Whether a tap is the same one, further on: what was taken stays taken, in the order in which it
/// was sent.
pub open spec fn goes_on(before: ScopeReader, after: ScopeReader) -> bool {
    let old_log = crate::rings::samples_taken(before.consumer);
    let new_log = crate::rings::samples_taken(after.consumer);
    let all = crate::rings::samples_out(before.consumer);
    &&& crate::rings::samples_out(after.consumer) == all
    &&& old_log.is_prefix_of(new_log)
    &&& old_log.is_prefix_of(all) ==> new_log.is_prefix_of(all)
}

/// What sending a sample does to the ring of a tap: it goes in, unless as many are under way as the
/// ring can hold.
pub open spec fn sends_sample(
    before: Producer<Single>,
    after: Producer<Single>,
    sample: Single,
) -> bool {
    let old_log = crate::rings::samples_sent(before);
    let new_log = crate::rings::samples_sent(after);
    let room = crate::rings::samples_room(before);
    let freed = crate::rings::samples_freed(after);
    &&& crate::rings::samples_room(after) == room
    &&& crate::rings::samples_in(after) == crate::rings::samples_in(before)
    &&& new_log.is_prefix_of(crate::rings::samples_in(after))
    &&& crate::rings::samples_freed(before) <= freed <= old_log.len()
    &&& new_log == if old_log.len() < room + freed {
        old_log.push(sample)
    } else {
        old_log
    }
}

/// The samples taken between two states of the tap.
pub open spec fn arrived(before: ScopeReader, after: ScopeReader) -> Seq<Single> {
    crate::rings::samples_taken(after.consumer).skip(
        crate::rings::samples_taken(before.consumer).len() as int,
    )
}

impl ScopeReader {
    /// Take the samples that are waiting, and return the window to draw.
    pub fn frame(&mut self) -> (r: Vec<Single>)
        ensures
            goes_on(*old(self), *final(self)),
            final(self).history@ == recent(old(self).history@ + arrived(*old(self), *final(self))),
            r@ == window(final(self).history@),
            crate::rings::samples_drained(final(self).consumer) || arrived(
                *old(self),
                *final(self),
            ).len() == u64::MAX,
    {
        let ghost taken = crate::rings::samples_taken(self.consumer);
        let ghost kept = self.history@;
        assert(taken.skip(taken.len() as int) =~= Seq::empty());
        assert(kept + Seq::<Single>::empty() =~= kept);
        let mut waiting: bool = true;
        let mut budget: u64 = u64::MAX;
        while waiting && budget > 0
            invariant
                waiting || crate::rings::samples_drained(self.consumer),
                waiting ==> crate::rings::samples_taken(self.consumer).len() == taken.len() + (
                u64::MAX - budget),
                goes_on(*old(self), *self),
                taken == crate::rings::samples_taken(old(self).consumer),
                self.history@ == kept + crate::rings::samples_taken(self.consumer).skip(
                    taken.len() as int,
                ),
            decreases budget,
        {
            budget = budget - 1;
            let ghost so_far = crate::rings::samples_taken(self.consumer);
            match pop_sample(&mut self.consumer) {
                Some(s) => {
                    self.history.push(s);
                    proof {
                        let now = crate::rings::samples_taken(self.consumer);
                        assert(now.skip(taken.len() as int) =~= so_far.skip(
                            taken.len() as int,
                        ).push(s));
                        assert(self.history@ =~= kept + now.skip(taken.len() as int));
                    }
                },
                None => {
                    waiting = false;
                },
            }
        }
        let len: usize = self.history.len();
        if len > HISTORY {
            let newest = self.history.split_off(len - HISTORY);
            self.history = newest;
        }
        self.aligned()
    }

    fn aligned(&self) -> (r: Vec<Single>)
        ensures
            r@ == window(self.history@),
    {
        let len: usize = self.history.len();
        if len < SCOPE_WINDOW {
            return copy_samples(&self.history, 0, len);
        }
        let newest: usize = len - SCOPE_WINDOW;
        let mut start: usize = newest;
        let mut i: usize = newest + 1;
        let mut searching: bool = true;
        while searching && i > 0
            invariant
                len == self.history@.len(),
                newest == len - SCOPE_WINDOW,
                i <= newest + 1,
                start <= newest,
                searching ==> start == newest && trigger(
                    self.history@,
                    newest + 1,
                    newest as int,
                ) == trigger(self.history@, i as int, newest as int),
                !searching ==> start == trigger(self.history@, newest + 1, newest as int),
            decreases i,
        {
            i = i - 1;
            if self.history[i].le(Single::zero()) && Single::zero().lt(self.history[i + 1]) {
                start = i;
                searching = false;
            }
        }
        copy_samples(&self.history, start, start + SCOPE_WINDOW)
    }
}

fn copy_samples(samples: &Vec<Single>, from: usize, to: usize) -> (r: Vec<Single>)
    requires
        from <= to <= samples@.len(),
    ensures
        r@ == samples@.subrange(from as int, to as int),
{
    let mut copy: Vec<Single> = Vec::with_capacity(to - from);
    for i in from..to
        invariant
            from <= i <= to <= samples@.len(),
            copy@ == samples@.subrange(from as int, i as int),
    {
        copy.push(samples[i]);
        assert(samples@.subrange(from as int, i + 1) =~= samples@.subrange(
            from as int,
            i as int,
        ).push(samples@[i as int]));
    }
    copy
}

/// The two ends of a tap: the audio thread's and the display's.
pub fn scope_channel() -> (r: (Producer<Single>, ScopeReader))
    ensures
        crate::rings::samples_sent(r.0) == Seq::<Single>::empty(),
        crate::rings::samples_room(r.0) == SCOPE_CAPACITY,
        crate::rings::samples_taken(r.1.consumer) == Seq::<Single>::empty(),
        r.1.history@ == Seq::<Single>::empty(),
        crate::rings::samples_linked(r.0, r.1.consumer),
{
    let (producer, consumer) = new_sample_ring(SCOPE_CAPACITY);
    (producer, ScopeReader { consumer, history: Vec::with_capacity(HISTORY) })
}

/// A full window starts on the latest rise that leaves room for it, so that a steady tone is drawn
/// at the same phase every time; where the signal never rises by then, it is the newest window.
pub proof fn windows_start_on_a_rise(samples: Seq<Single>)
    requires
        samples.len() >= SCOPE_WINDOW,
    ensures
        ({
            let newest = samples.len() - SCOPE_WINDOW;
            let start = trigger(samples, newest + 1, newest);
            &&& window(samples).len() == SCOPE_WINDOW
            &&& 0 <= start <= newest
            &&& forall|i: int| start < i <= newest ==> !rises(samples, i)
            &&& (exists|i: int| 0 <= i <= newest && rises(samples, i)) ==> rises(
                window(samples),
                0,
            )
            &&& (forall|i: int| 0 <= i <= newest ==> !rises(samples, i)) ==> start == newest
        }),
{
    let newest = samples.len() - SCOPE_WINDOW;
    lemma_trigger(samples, newest + 1, newest);
}

proof fn lemma_trigger(samples: Seq<Single>, limit: int, fallback: int)
    requires
        0 <= limit <= fallback + 1,
    ensures
        ({
            let start = trigger(samples, limit, fallback);
            ||| 0 <= start < limit && rises(samples, start) && forall|i: int|
                start < i < limit ==> !rises(samples, i)
            ||| start == fallback && forall|i: int| 0 <= i < limit ==> !rises(samples, i)
        }),
    decreases limit,
{
    if limit > 0 && !rises(samples, limit - 1) {
        lemma_trigger(samples, limit - 1, fallback);
    }
}

/// What is kept never grows beyond [`HISTORY`] samples, and consists of the latest ones.
pub proof fn history_is_bounded(samples: Seq<Single>)
    ensures
        recent(samples).len() <= HISTORY,
        samples.len() >= HISTORY ==> recent(samples).len() == HISTORY,
        forall|i: int|
            0 <= i < recent(
                samples,
            ).len() ==> #[trigger] recent(samples)[i] == samples[samples.len()
                - recent(samples).len() + i],
{
}

/// A window shows consecutive samples, in order: all there are while they are too few, and a whole
/// window of them from then on, which starts where the signal last rises through zero.
pub proof fn windows_show_what_was_heard(samples: Seq<Single>, i: int)
    requires
        0 <= i < window(samples).len(),
    ensures
        samples.len() < 1024 ==> window(samples) == samples,
        samples.len() >= 1024 ==> window(samples).len() == 1024,
        samples.len() >= 1024 ==> exists|start: int|
            {
                &&& 0 <= start <= samples.len() - 1024
                &&& window(samples) == #[trigger] samples.subrange(start, start + 1024)
                &&& forall|k: int| start < k <= samples.len() - 1024 ==> !#[trigger] rises(samples, k)
                &&& rises(samples, start) || start == samples.len() - 1024
            },
{
    if samples.len() >= 1024 {
        let newest = samples.len() - SCOPE_WINDOW;
        lemma_trigger(samples, newest + 1, newest);
        let start = trigger(samples, newest + 1, newest);
        assert(window(samples) == samples.subrange(start, start + 1024));
    }
}

/// The signal rises through zero where a sample that is zero or below is followed by one above.
pub proof fn rises_go_through_zero(samples: Seq<Single>, i: int)
    requires
        0 <= i < samples.len() - 1,
        !samples[i].nan(),
        !samples[i + 1].nan(),
    ensures
        rises(samples, i) <==> samples[i].scaled() <= 0 && samples[i + 1].scaled() > 0,
{
    let zero = Single::of(0);
    crate::single::order_is_numeric(samples[i], zero);
    crate::single::order_is_numeric(zero, samples[i + 1]);
}

/// A sample is sent to the display exactly where there is room for it beside those under way, and
/// is then the one that was put out.
pub proof fn samples_are_sent_where_there_is_room(
    before: Producer<Single>,
    after: Producer<Single>,
    sample: Single,
)
    requires
        sends_sample(before, after, sample),
    ensures
        ({
            let log = crate::rings::samples_sent(before);
            let under_way = log.len() - crate::rings::samples_freed(after);
            let sent = crate::rings::samples_sent(after);
            &&& under_way < crate::rings::samples_room(before) ==> sent.len() == log.len() + 1
                && sent.last() == sample
            &&& under_way >= crate::rings::samples_room(before) ==> sent.len() == log.len()
            &&& forall|i: int| 0 <= i < log.len() ==> sent[i] == #[trigger] log[i]
        }),
{
}

/// What arrives at the display is what was taken since, in order, and nothing is left out.
pub proof fn arrivals_are_what_was_taken(before: ScopeReader, after: ScopeReader, i: int)
    requires
        goes_on(before, after),
        0 <= i < arrived(before, after).len(),
    ensures
        ({
            let old_log = crate::rings::samples_taken(before.consumer);
            let new_log = crate::rings::samples_taken(after.consumer);
            &&& arrived(before, after).len() == new_log.len() - old_log.len()
            &&& arrived(before, after)[i] == new_log[old_log.len() + i]
        }),
{
}

} // verus!
