//! The lock-free rings between the control thread and the audio thread.
//!
//! A ring has one end that sends and one that takes; neither ever waits. Of a sending end the
//! contracts here know what was sent through it so far, how much the ring can hold, and how much of
//! it had been taken out again when the end last sent; of a taking end what was taken from it so far
//! and whether it was found empty. Both ends also know everything that ever passes through the ring,
//! which is what ties them together: what was sent so far and what was taken so far are both a
//! beginning of it. When something is taken is up to the other thread, and no contract here says
//! that.

use std::sync::Arc;

use rtrb::{Consumer, Producer};
use vstd::prelude::*;
use crate::clip::AudioClip;
use crate::commands::Command;
use crate::player::TrackedClip;
use crate::single::Single;

verus! {

/// `rtrb::Producer`, the sending end of a ring.
#[verifier::external_type_specification]
#[verifier::external_body]
#[verifier::reject_recursive_types(T)]
pub struct ExProducer<T>(rtrb::Producer<T>);

/// `rtrb::Consumer`, the taking end of a ring.
#[verifier::external_type_specification]
#[verifier::external_body]
#[verifier::reject_recursive_types(T)]
pub struct ExConsumer<T>(rtrb::Consumer<T>);

/// The commands that were sent through a sending end, oldest first.
pub uninterp spec fn commands_sent(tx: Producer<Command>) -> Seq<Command>;

/// The number of commands that the ring behind a sending end can hold.
pub uninterp spec fn commands_room(tx: Producer<Command>) -> nat;

/// The commands that were taken from a taking end, oldest first.
pub uninterp spec fn commands_taken(rx: Consumer<Command>) -> Seq<Command>;

/// Whether the latest look into a taking end found the ring empty.
pub uninterp spec fn commands_drained(rx: Consumer<Command>) -> bool;

/// How many of the commands that were sent had been taken out again when a sending end last sent.
pub uninterp spec fn commands_freed(tx: Producer<Command>) -> nat;

/// All commands that ever go into the ring behind a sending end, oldest first.
pub uninterp spec fn commands_in(tx: Producer<Command>) -> Seq<Command>;

/// All commands that ever went into the ring behind a taking end, oldest first.
pub uninterp spec fn commands_out(rx: Consumer<Command>) -> Seq<Command>;

/// `rtrb::RingBuffer::new` for commands: an empty ring with room for `capacity` of them. The room
/// is allocated here, which is why it is bounded.
#[verifier::external_body]
pub(crate) fn new_command_ring(capacity: usize) -> (r: (Producer<Command>, Consumer<Command>))
    requires
        0 < capacity <= 0x1_0000,
    ensures
        commands_sent(r.0) == Seq::<Command>::empty(),
        commands_room(r.0) == capacity,
        commands_taken(r.1) == Seq::<Command>::empty(),
        commands_freed(r.0) == 0,
        commands_in(r.0) == commands_out(r.1),
{
    rtrb::RingBuffer::new(capacity)
}

/// `rtrb::Producer::push` of a command. `None` says that it was sent; a full ring hands it back. A
/// ring is full while as many are under way as it has room for: sent, and not yet taken out.
#[verifier::external_body]
pub(crate) fn push_command(tx: &mut Producer<Command>, value: Command) -> (r: Option<Command>)
    ensures
        r is None ==> commands_sent(*final(tx)) == commands_sent(*old(tx)).push(value),
        r is Some ==> r->0 == value && commands_sent(*final(tx)) == commands_sent(*old(tx)),
        r is None <==> commands_sent(*old(tx)).len() < commands_room(*old(tx)) + commands_freed(
            *final(tx),
        ),
        commands_freed(*old(tx)) <= commands_freed(*final(tx)) <= commands_sent(*old(tx)).len(),
        commands_room(*final(tx)) == commands_room(*old(tx)),
        commands_in(*final(tx)) == commands_in(*old(tx)),
        commands_sent(*final(tx)).is_prefix_of(commands_in(*final(tx))),
{
    match tx.push(value) {
        Ok(()) => None,
        Err(rtrb::PushError::Full(back)) => Some(back),
    }
}

/// `rtrb::Consumer::pop` of a command. `None` says that the ring was empty.
#[verifier::external_body]
pub(crate) fn pop_command(rx: &mut Consumer<Command>) -> (r: Option<Command>)
    ensures
        r is Some ==> commands_taken(*final(rx)) == commands_taken(*old(rx)).push(r->0),
        r is None ==> commands_taken(*final(rx)) == commands_taken(*old(rx)),
        commands_drained(*final(rx)) <==> r is None,
        commands_out(*final(rx)) == commands_out(*old(rx)),
        commands_taken(*final(rx)).is_prefix_of(commands_out(*final(rx))),
{
    rx.pop().ok()
}

/// The clips that were sent through a sending end, oldest first.
pub uninterp spec fn clips_sent(tx: Producer<TrackedClip>) -> Seq<TrackedClip>;

/// The number of clips that the ring behind a sending end can hold.
pub uninterp spec fn clips_room(tx: Producer<TrackedClip>) -> nat;

/// The clips that were taken from a taking end, oldest first.
pub uninterp spec fn clips_taken(rx: Consumer<TrackedClip>) -> Seq<TrackedClip>;

/// Whether the latest look into a taking end found the ring empty.
pub uninterp spec fn clips_drained(rx: Consumer<TrackedClip>) -> bool;

/// How many of the clips that were sent had been taken out again when a sending end last sent.
pub uninterp spec fn clips_freed(tx: Producer<TrackedClip>) -> nat;

/// All clips that ever go into the ring behind a sending end, oldest first.
pub uninterp spec fn clips_in(tx: Producer<TrackedClip>) -> Seq<TrackedClip>;

/// All clips that ever went into the ring behind a taking end, oldest first.
pub uninterp spec fn clips_out(rx: Consumer<TrackedClip>) -> Seq<TrackedClip>;

/// `rtrb::RingBuffer::new` for clips: an empty ring with room for `capacity` of them. The room is
/// allocated here, which is why it is bounded.
#[verifier::external_body]
pub(crate) fn new_clip_ring(capacity: usize) -> (r: (Producer<TrackedClip>, Consumer<TrackedClip>))
    requires
        0 < capacity <= 0x1_0000,
    ensures
        clips_sent(r.0) == Seq::<TrackedClip>::empty(),
        clips_room(r.0) == capacity,
        clips_taken(r.1) == Seq::<TrackedClip>::empty(),
        clips_freed(r.0) == 0,
        clips_in(r.0) == clips_out(r.1),
{
    rtrb::RingBuffer::new(capacity)
}

/// `rtrb::Producer::push` of a clip. `None` says that it was sent; a full ring hands it back. A ring
/// is full while as many are under way as it has room for: sent, and not yet taken out.
#[verifier::external_body]
pub(crate) fn push_clip(
    tx: &mut Producer<TrackedClip>,
    value: TrackedClip,
) -> (r: Option<TrackedClip>)
    ensures
        r is None ==> clips_sent(*final(tx)) == clips_sent(*old(tx)).push(value),
        r is Some ==> r->0 == value && clips_sent(*final(tx)) == clips_sent(*old(tx)),
        r is None <==> clips_sent(*old(tx)).len() < clips_room(*old(tx)) + clips_freed(
            *final(tx),
        ),
        clips_freed(*old(tx)) <= clips_freed(*final(tx)) <= clips_sent(*old(tx)).len(),
        clips_room(*final(tx)) == clips_room(*old(tx)),
        clips_in(*final(tx)) == clips_in(*old(tx)),
        clips_sent(*final(tx)).is_prefix_of(clips_in(*final(tx))),
{
    match tx.push(value) {
        Ok(()) => None,
        Err(rtrb::PushError::Full(back)) => Some(back),
    }
}

/// `rtrb::Consumer::pop` of a clip. `None` says that the ring was empty.
#[verifier::external_body]
pub(crate) fn pop_clip(rx: &mut Consumer<TrackedClip>) -> (r: Option<TrackedClip>)
    ensures
        r is Some ==> clips_taken(*final(rx)) == clips_taken(*old(rx)).push(r->0),
        r is None ==> clips_taken(*final(rx)) == clips_taken(*old(rx)),
        clips_drained(*final(rx)) <==> r is None,
        clips_out(*final(rx)) == clips_out(*old(rx)),
        clips_taken(*final(rx)).is_prefix_of(clips_out(*final(rx))),
{
    rx.pop().ok()
}

/// The retired clips that were sent through a sending end, oldest first.
pub uninterp spec fn retired_sent(tx: Producer<Arc<AudioClip>>) -> Seq<Arc<AudioClip>>;

/// The number of retired clips that the ring behind a sending end can hold.
pub uninterp spec fn retired_room(tx: Producer<Arc<AudioClip>>) -> nat;

/// The retired clips that were taken from a taking end, oldest first.
pub uninterp spec fn retired_taken(rx: Consumer<Arc<AudioClip>>) -> Seq<Arc<AudioClip>>;

/// Whether the latest look into a taking end found the ring empty.
pub uninterp spec fn retired_drained(rx: Consumer<Arc<AudioClip>>) -> bool;

/// How many of the retired clips that were sent had been taken out again when a sending end last
/// sent.
pub uninterp spec fn retired_freed(tx: Producer<Arc<AudioClip>>) -> nat;

/// All retired clips that ever go into the ring behind a sending end, oldest first.
pub uninterp spec fn retired_in(tx: Producer<Arc<AudioClip>>) -> Seq<Arc<AudioClip>>;

/// All retired clips that ever went into the ring behind a taking end, oldest first.
pub uninterp spec fn retired_out(rx: Consumer<Arc<AudioClip>>) -> Seq<Arc<AudioClip>>;

/// `rtrb::RingBuffer::new` for retired clips: an empty ring with room for `capacity` of them. The
/// room is allocated here, which is why it is bounded.
#[verifier::external_body]
pub(crate) fn new_retired_clip_ring(
    capacity: usize,
) -> (r: (Producer<Arc<AudioClip>>, Consumer<Arc<AudioClip>>))
    requires
        0 < capacity <= 0x1_0000,
    ensures
        retired_sent(r.0) == Seq::<Arc<AudioClip>>::empty(),
        retired_room(r.0) == capacity,
        retired_taken(r.1) == Seq::<Arc<AudioClip>>::empty(),
        retired_freed(r.0) == 0,
        retired_in(r.0) == retired_out(r.1),
{
    rtrb::RingBuffer::new(capacity)
}

/// `rtrb::Producer::push` of a retired clip. `None` says that it was sent; a full ring hands it
/// back. A ring is full while as many are under way as it has room for: sent, and not yet taken
/// out.
#[verifier::external_body]
pub(crate) fn push_retired_clip(
    tx: &mut Producer<Arc<AudioClip>>,
    value: Arc<AudioClip>,
) -> (r: Option<Arc<AudioClip>>)
    ensures
        r is None ==> retired_sent(*final(tx)) == retired_sent(*old(tx)).push(value),
        r is Some ==> r->0 == value && retired_sent(*final(tx)) == retired_sent(*old(tx)),
        r is None <==> retired_sent(*old(tx)).len() < retired_room(*old(tx)) + retired_freed(
            *final(tx),
        ),
        retired_freed(*old(tx)) <= retired_freed(*final(tx)) <= retired_sent(*old(tx)).len(),
        retired_room(*final(tx)) == retired_room(*old(tx)),
        retired_in(*final(tx)) == retired_in(*old(tx)),
        retired_sent(*final(tx)).is_prefix_of(retired_in(*final(tx))),
{
    match tx.push(value) {
        Ok(()) => None,
        Err(rtrb::PushError::Full(back)) => Some(back),
    }
}

/// `rtrb::Consumer::pop` of a retired clip. `None` says that the ring was empty.
#[verifier::external_body]
pub(crate) fn pop_retired_clip(rx: &mut Consumer<Arc<AudioClip>>) -> (r: Option<Arc<AudioClip>>)
    ensures
        r is Some ==> retired_taken(*final(rx)) == retired_taken(*old(rx)).push(r->0),
        r is None ==> retired_taken(*final(rx)) == retired_taken(*old(rx)),
        retired_drained(*final(rx)) <==> r is None,
        retired_out(*final(rx)) == retired_out(*old(rx)),
        retired_taken(*final(rx)).is_prefix_of(retired_out(*final(rx))),
{
    rx.pop().ok()
}

/// The samples that were sent through a sending end, oldest first.
pub uninterp spec fn samples_sent(tx: Producer<Single>) -> Seq<Single>;

/// The number of samples that the ring behind a sending end can hold.
pub uninterp spec fn samples_room(tx: Producer<Single>) -> nat;

/// The samples that were taken from a taking end, oldest first.
pub uninterp spec fn samples_taken(rx: Consumer<Single>) -> Seq<Single>;

/// Whether the latest look into a taking end found the ring empty.
pub uninterp spec fn samples_drained(rx: Consumer<Single>) -> bool;

/// How many of the samples that were sent had been taken out again when a sending end last sent.
pub uninterp spec fn samples_freed(tx: Producer<Single>) -> nat;

/// All samples that ever go into the ring behind a sending end, oldest first.
pub uninterp spec fn samples_in(tx: Producer<Single>) -> Seq<Single>;

/// All samples that ever went into the ring behind a taking end, oldest first.
pub uninterp spec fn samples_out(rx: Consumer<Single>) -> Seq<Single>;

/// `rtrb::RingBuffer::new` for samples: an empty ring with room for `capacity` of them. The room is
/// allocated here, which is why it is bounded.
#[verifier::external_body]
pub(crate) fn new_sample_ring(capacity: usize) -> (r: (Producer<Single>, Consumer<Single>))
    requires
        0 < capacity <= 0x1_0000,
    ensures
        samples_sent(r.0) == Seq::<Single>::empty(),
        samples_room(r.0) == capacity,
        samples_taken(r.1) == Seq::<Single>::empty(),
        samples_freed(r.0) == 0,
        samples_in(r.0) == samples_out(r.1),
{
    rtrb::RingBuffer::new(capacity)
}

/// `rtrb::Producer::push` of a sample. `None` says that it was sent; a full ring hands it back. A
/// ring is full while as many are under way as it has room for: sent, and not yet taken out.
#[verifier::external_body]
pub(crate) fn push_sample(tx: &mut Producer<Single>, value: Single) -> (r: Option<Single>)
    ensures
        r is None ==> samples_sent(*final(tx)) == samples_sent(*old(tx)).push(value),
        r is Some ==> r->0 == value && samples_sent(*final(tx)) == samples_sent(*old(tx)),
        r is None <==> samples_sent(*old(tx)).len() < samples_room(*old(tx)) + samples_freed(
            *final(tx),
        ),
        samples_freed(*old(tx)) <= samples_freed(*final(tx)) <= samples_sent(*old(tx)).len(),
        samples_room(*final(tx)) == samples_room(*old(tx)),
        samples_in(*final(tx)) == samples_in(*old(tx)),
        samples_sent(*final(tx)).is_prefix_of(samples_in(*final(tx))),
{
    match tx.push(value) {
        Ok(()) => None,
        Err(rtrb::PushError::Full(back)) => Some(back),
    }
}

/// `rtrb::Consumer::pop` of a sample. `None` says that the ring was empty.
#[verifier::external_body]
pub(crate) fn pop_sample(rx: &mut Consumer<Single>) -> (r: Option<Single>)
    ensures
        r is Some ==> samples_taken(*final(rx)) == samples_taken(*old(rx)).push(r->0),
        r is None ==> samples_taken(*final(rx)) == samples_taken(*old(rx)),
        samples_drained(*final(rx)) <==> r is None,
        samples_out(*final(rx)) == samples_out(*old(rx)),
        samples_taken(*final(rx)).is_prefix_of(samples_out(*final(rx))),
{
    rx.pop().ok()
}

/// Whether two ends belong to one ring of commands.
pub open spec fn commands_linked(tx: Producer<Command>, rx: Consumer<Command>) -> bool {
    &&& commands_in(tx) == commands_out(rx)
    &&& commands_sent(tx).is_prefix_of(commands_in(tx))
    &&& commands_taken(rx).is_prefix_of(commands_out(rx))
}

/// A ring of commands keeps the order and misses nothing: what was taken from one end is the
/// beginning of what was sent through the other.
pub proof fn commands_arrive_in_order(tx: Producer<Command>, rx: Consumer<Command>)
    requires
        commands_linked(tx, rx),
    ensures
        forall|i: int|
            0 <= i < commands_taken(rx).len() && i < commands_sent(tx).len()
                ==> commands_taken(rx)[i] == commands_sent(tx)[i],
        commands_taken(rx).len() <= commands_sent(tx).len() ==> commands_taken(rx).is_prefix_of(
            commands_sent(tx),
        ),
        commands_taken(rx).len() == commands_sent(tx).len() ==> commands_taken(rx)
            == commands_sent(tx),
{
    let taken = commands_taken(rx);
    let sent = commands_sent(tx);
    assert forall|i: int| 0 <= i < taken.len() && i < sent.len() implies taken[i]
        == sent[i] by {
        assert(commands_in(tx)[i] == sent[i]);
        assert(commands_out(rx)[i] == taken[i]);
    }
    if taken.len() <= sent.len() {
        assert(taken =~= sent.take(taken.len() as int));
    }
    if taken.len() == sent.len() {
        assert(taken =~= sent);
    }
}

/// Whether two ends belong to one ring of clips.
pub open spec fn clips_linked(tx: Producer<TrackedClip>, rx: Consumer<TrackedClip>) -> bool {
    &&& clips_in(tx) == clips_out(rx)
    &&& clips_sent(tx).is_prefix_of(clips_in(tx))
    &&& clips_taken(rx).is_prefix_of(clips_out(rx))
}

/// A ring of clips keeps the order and misses nothing: what was taken from one end is the
/// beginning of what was sent through the other.
pub proof fn clips_arrive_in_order(tx: Producer<TrackedClip>, rx: Consumer<TrackedClip>)
    requires
        clips_linked(tx, rx),
    ensures
        forall|i: int|
            0 <= i < clips_taken(rx).len() && i < clips_sent(tx).len()
                ==> clips_taken(rx)[i] == clips_sent(tx)[i],
        clips_taken(rx).len() <= clips_sent(tx).len() ==> clips_taken(rx).is_prefix_of(
            clips_sent(tx),
        ),
        clips_taken(rx).len() == clips_sent(tx).len() ==> clips_taken(rx)
            == clips_sent(tx),
{
    let taken = clips_taken(rx);
    let sent = clips_sent(tx);
    assert forall|i: int| 0 <= i < taken.len() && i < sent.len() implies taken[i]
        == sent[i] by {
        assert(clips_in(tx)[i] == sent[i]);
        assert(clips_out(rx)[i] == taken[i]);
    }
    if taken.len() <= sent.len() {
        assert(taken =~= sent.take(taken.len() as int));
    }
    if taken.len() == sent.len() {
        assert(taken =~= sent);
    }
}

/// Whether two ends belong to one ring of retired clips.
pub open spec fn retired_linked(
    tx: Producer<Arc<AudioClip>>,
    rx: Consumer<Arc<AudioClip>>,
) -> bool {
    &&& retired_in(tx) == retired_out(rx)
    &&& retired_sent(tx).is_prefix_of(retired_in(tx))
    &&& retired_taken(rx).is_prefix_of(retired_out(rx))
}

/// A ring of retired clips keeps the order and misses nothing: what was taken from one end is the
/// beginning of what was sent through the other.
pub proof fn retired_arrive_in_order(tx: Producer<Arc<AudioClip>>, rx: Consumer<Arc<AudioClip>>)
    requires
        retired_linked(tx, rx),
    ensures
        forall|i: int|
            0 <= i < retired_taken(rx).len() && i < retired_sent(tx).len()
                ==> retired_taken(rx)[i] == retired_sent(tx)[i],
        retired_taken(rx).len() <= retired_sent(tx).len() ==> retired_taken(rx).is_prefix_of(
            retired_sent(tx),
        ),
        retired_taken(rx).len() == retired_sent(tx).len() ==> retired_taken(rx)
            == retired_sent(tx),
{
    let taken = retired_taken(rx);
    let sent = retired_sent(tx);
    assert forall|i: int| 0 <= i < taken.len() && i < sent.len() implies taken[i]
        == sent[i] by {
        assert(retired_in(tx)[i] == sent[i]);
        assert(retired_out(rx)[i] == taken[i]);
    }
    if taken.len() <= sent.len() {
        assert(taken =~= sent.take(taken.len() as int));
    }
    if taken.len() == sent.len() {
        assert(taken =~= sent);
    }
}

/// Whether two ends belong to one ring of samples.
pub open spec fn samples_linked(tx: Producer<Single>, rx: Consumer<Single>) -> bool {
    &&& samples_in(tx) == samples_out(rx)
    &&& samples_sent(tx).is_prefix_of(samples_in(tx))
    &&& samples_taken(rx).is_prefix_of(samples_out(rx))
}

/// A ring of samples keeps the order and misses nothing: what was taken from one end is the
/// beginning of what was sent through the other.
pub proof fn samples_arrive_in_order(tx: Producer<Single>, rx: Consumer<Single>)
    requires
        samples_linked(tx, rx),
    ensures
        forall|i: int|
            0 <= i < samples_taken(rx).len() && i < samples_sent(tx).len()
                ==> samples_taken(rx)[i] == samples_sent(tx)[i],
        samples_taken(rx).len() <= samples_sent(tx).len() ==> samples_taken(rx).is_prefix_of(
            samples_sent(tx),
        ),
        samples_taken(rx).len() == samples_sent(tx).len() ==> samples_taken(rx)
            == samples_sent(tx),
{
    let taken = samples_taken(rx);
    let sent = samples_sent(tx);
    assert forall|i: int| 0 <= i < taken.len() && i < sent.len() implies taken[i]
        == sent[i] by {
        assert(samples_in(tx)[i] == sent[i]);
        assert(samples_out(rx)[i] == taken[i]);
    }
    if taken.len() <= sent.len() {
        assert(taken =~= sent.take(taken.len() as int));
    }
    if taken.len() == sent.len() {
        assert(taken =~= sent);
    }
}

} // verus!
