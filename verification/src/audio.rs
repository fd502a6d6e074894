//! The two sides of the engine: [`Engine`] on the control thread and [`Callback`] on the audio
//! thread.
//!
//! The audio thread must not free memory, so it never lets go of a clip: whatever a command or a new
//! clip displaces goes back through the retirement ring and is freed by the control thread. Should
//! that ring be full, the clip is leaked.

use std::mem::ManuallyDrop;
use std::sync::Arc;

use rtrb::{Consumer, Producer};
use vstd::prelude::*;
use crate::api::capped_index;
use crate::clip::{AudioClip, Fraction};
use crate::commands::{command_channel, Command};
use crate::dsp::chain::ChainSetup;
use crate::mixer::{Mixer, MixerView, MAX_TRACKS};
use crate::player::{clip_channel, retire_channel, Placement, TrackedClip};
use crate::rings::{
    pop_clip, pop_command, pop_retired_clip, push_clip, push_command, push_retired_clip,
};
use crate::sampler::{TimelineClip, MAX_CLIPS_PER_TRACK};
use crate::scope::{scope_channel, ScopeReader};
use crate::single::Single;

verus! {

/// Whether `kept` is `all` with some items left out.
pub open spec fn leaves_out(kept: Seq<Arc<AudioClip>>, all: Seq<Arc<AudioClip>>) -> bool
    decreases all.len(),
{
    if all.len() == 0 {
        kept.len() == 0
    } else {
        ||| leaves_out(kept, all.drop_last())
        ||| kept.len() > 0 && kept.last() == all.last() && leaves_out(
            kept.drop_last(),
            all.drop_last(),
        )
    }
}

/// What retiring the clips `displaced`, in order, does to the retirement ring: it sends those that
/// find room, which is all of them as long as there is room for them beside those under way.
pub open spec fn retires(
    before: Producer<Arc<AudioClip>>,
    after: Producer<Arc<AudioClip>>,
    displaced: Seq<Arc<AudioClip>>,
) -> bool {
    let old_log = crate::rings::retired_sent(before);
    let new_log = crate::rings::retired_sent(after);
    &&& crate::rings::retired_room(after) == crate::rings::retired_room(before)
    &&& crate::rings::retired_in(after) == crate::rings::retired_in(before)
    &&& crate::rings::retired_freed(before) <= crate::rings::retired_freed(after)
    &&& old_log.is_prefix_of(new_log)
    &&& old_log.is_prefix_of(crate::rings::retired_in(before)) ==> new_log.is_prefix_of(
        crate::rings::retired_in(before),
    )
    &&& leaves_out(new_log.skip(old_log.len() as int), displaced)
    &&& old_log.len() + displaced.len() <= crate::rings::retired_room(before)
        + crate::rings::retired_freed(before) ==> new_log == old_log + displaced
}

/// A clip in the form in which it may be displaced, as a sequence of none or one.
pub open spec fn as_seq(clip: Option<Arc<AudioClip>>) -> Seq<Arc<AudioClip>> {
    match clip {
        Some(c) => seq![c],
        None => Seq::empty(),
    }
}

/// The clips of placed clips.
pub open spec fn sources(placed: Seq<TimelineClip>) -> Seq<Arc<AudioClip>> {
    placed.map_values(|tc: TimelineClip| tc.clip)
}

/// The mixer after a command.
pub open spec fn applied(mixer: MixerView, cmd: Command) -> MixerView {
    match cmd {
        Command::ClearTrack(t) => mixer.with_fresh_strip(t as int),
        Command::RemoveClip(t, slot) => mixer.with_slot(t as int, slot as int, None),
        _ => mixer.handled(cmd),
    }
}

/// The clips that a command displaces.
pub open spec fn displaced_by(mixer: MixerView, cmd: Command) -> Seq<Arc<AudioClip>> {
    match cmd {
        Command::ClearTrack(t) => if t < mixer.strips.len() {
            as_seq(mixer.strips[t as int].player.clip) + sources(
                crate::sampler::placed(mixer.strips[t as int].slots),
            )
        } else {
            Seq::empty()
        },
        Command::RemoveClip(t, slot) => match mixer.clip_at(t as int, slot as int) {
            Some(tc) => seq![tc.clip],
            None => Seq::empty(),
        },
        _ => Seq::empty(),
    }
}

/// The mixer after a sequence of commands.
pub open spec fn applied_all(mixer: MixerView, cmds: Seq<Command>) -> MixerView
    decreases cmds.len(),
{
    if cmds.len() == 0 {
        mixer
    } else {
        applied(applied_all(mixer, cmds.drop_last()), cmds.last())
    }
}

/// The clips that a sequence of commands displaces.
pub open spec fn displaced_by_all(mixer: MixerView, cmds: Seq<Command>) -> Seq<Arc<AudioClip>>
    decreases cmds.len(),
{
    if cmds.len() == 0 {
        Seq::empty()
    } else {
        displaced_by_all(mixer, cmds.drop_last()) + displaced_by(
            applied_all(mixer, cmds.drop_last()),
            cmds.last(),
        )
    }
}

/// Whether an arriving clip can be taken in: it is sound, and the track and slot that it is meant
/// for exist.
pub open spec fn welcome(mixer: MixerView, arrival: TrackedClip) -> bool {
    &&& arrival.clip.wf()
    &&& arrival.track < mixer.strips.len()
    &&& arrival.placement matches Some(at) ==> at.slot
        < mixer.strips[arrival.track as int].slots.len()
}

/// The mixer after a clip arrived for one of its tracks.
pub open spec fn installed(mixer: MixerView, arrival: TrackedClip) -> MixerView {
    if !welcome(mixer, arrival) {
        mixer
    } else {
        match arrival.placement {
            None => mixer.loaded(arrival.track as int, arrival.clip),
            Some(at) => mixer.with_slot(
                arrival.track as int,
                at.slot as int,
                Some(crate::mixer::placed_clip(arrival.clip, at)),
            ),
        }
    }
}

/// The clips that an arriving clip displaces. One that cannot be taken in displaces itself.
pub open spec fn displaced_by_clip(mixer: MixerView, arrival: TrackedClip) -> Seq<Arc<AudioClip>> {
    if !welcome(mixer, arrival) {
        seq![arrival.clip]
    } else {
        match arrival.placement {
            None => as_seq(mixer.strips[arrival.track as int].player.clip),
            Some(at) => match mixer.clip_at(arrival.track as int, at.slot as int) {
                Some(tc) => seq![tc.clip],
                None => Seq::empty(),
            },
        }
    }
}

/// The mixer after a sequence of clips arrived.
pub open spec fn installed_all(mixer: MixerView, clips: Seq<TrackedClip>) -> MixerView
    decreases clips.len(),
{
    if clips.len() == 0 {
        mixer
    } else {
        installed(installed_all(mixer, clips.drop_last()), clips.last())
    }
}

/// The clips that a sequence of arriving clips displaces.
pub open spec fn displaced_by_clips(mixer: MixerView, clips: Seq<TrackedClip>) -> Seq<
    Arc<AudioClip>,
>
    decreases clips.len(),
{
    if clips.len() == 0 {
        Seq::empty()
    } else {
        displaced_by_clips(mixer, clips.drop_last()) + displaced_by_clip(
            installed_all(mixer, clips.drop_last()),
            clips.last(),
        )
    }
}

/// The mixer after the commands and clips that were waiting.
pub open spec fn serviced(
    mixer: MixerView,
    cmds: Seq<Command>,
    clips: Seq<TrackedClip>,
) -> MixerView {
    installed_all(applied_all(mixer, cmds), clips)
}

/// The clips that the commands and clips that were waiting displace.
pub open spec fn displaced_by_service(
    mixer: MixerView,
    cmds: Seq<Command>,
    clips: Seq<TrackedClip>,
) -> Seq<Arc<AudioClip>> {
    displaced_by_all(mixer, cmds) + displaced_by_clips(applied_all(mixer, cmds), clips)
}

proof fn lemma_retire_one(
    start: Producer<Arc<AudioClip>>,
    before: Producer<Arc<AudioClip>>,
    after: Producer<Arc<AudioClip>>,
    displaced: Seq<Arc<AudioClip>>,
    clip: Arc<AudioClip>,
)
    requires
        retires(start, before, displaced),
        retires(before, after, seq![clip]),
    ensures
        retires(start, after, displaced.push(clip)),
{
    let s0 = crate::rings::retired_sent(start);
    let s1 = crate::rings::retired_sent(before);
    let s2 = crate::rings::retired_sent(after);
    let one = seq![clip];
    let kept = s2.skip(s1.len() as int);
    let all = displaced.push(clip);
    assert(one.drop_last() =~= Seq::empty());
    assert(all.drop_last() =~= displaced);
    reveal_with_fuel(leaves_out, 2);
    if kept.len() == 0 {
        assert(s2 =~= s1);
    } else {
        assert(kept.drop_last().len() == 0);
        assert(kept.last() == clip);
        assert(s2 =~= s1.push(clip));
        let now = s2.skip(s0.len() as int);
        assert(now.drop_last() =~= s1.skip(s0.len() as int));
        assert(now.last() == clip);
    }
    if s0.len() + all.len() <= crate::rings::retired_room(start) + crate::rings::retired_freed(
        start,
    ) {
        assert(s1 == s0 + displaced);
        assert(s2 =~= s0 + all);
    }
}

proof fn lemma_leaves_out_join(
    k1: Seq<Arc<AudioClip>>,
    a1: Seq<Arc<AudioClip>>,
    k2: Seq<Arc<AudioClip>>,
    a2: Seq<Arc<AudioClip>>,
)
    requires
        leaves_out(k1, a1),
        leaves_out(k2, a2),
    ensures
        leaves_out(k1 + k2, a1 + a2),
    decreases a2.len(),
{
    if a2.len() == 0 {
        assert(k1 + k2 =~= k1);
        assert(a1 + a2 =~= a1);
    } else {
        assert((a1 + a2).drop_last() =~= a1 + a2.drop_last());
        if leaves_out(k2, a2.drop_last()) {
            lemma_leaves_out_join(k1, a1, k2, a2.drop_last());
        } else {
            lemma_leaves_out_join(k1, a1, k2.drop_last(), a2.drop_last());
            assert((k1 + k2).drop_last() =~= k1 + k2.drop_last());
        }
    }
}

proof fn lemma_retire_join(
    start: Producer<Arc<AudioClip>>,
    before: Producer<Arc<AudioClip>>,
    after: Producer<Arc<AudioClip>>,
    first: Seq<Arc<AudioClip>>,
    second: Seq<Arc<AudioClip>>,
)
    requires
        retires(start, before, first),
        retires(before, after, second),
    ensures
        retires(start, after, first + second),
{
    let s0 = crate::rings::retired_sent(start);
    let s1 = crate::rings::retired_sent(before);
    let s2 = crate::rings::retired_sent(after);
    let k1 = s1.skip(s0.len() as int);
    let k2 = s2.skip(s1.len() as int);
    lemma_leaves_out_join(k1, first, k2, second);
    assert(s2.skip(s0.len() as int) =~= k1 + k2);
    if s0.len() + first.len() + second.len() <= crate::rings::retired_room(start)
        + crate::rings::retired_freed(start) {
        assert(s2 =~= s0 + (first + second));
    }
}

proof fn lemma_retire_none(ring: Producer<Arc<AudioClip>>)
    ensures
        retires(ring, ring, Seq::empty()),
{
    let log = crate::rings::retired_sent(ring);
    assert(log.skip(log.len() as int) =~= Seq::empty());
    assert(log + Seq::<Arc<AudioClip>>::empty() =~= log);
}

/// Send a displaced clip back to the control thread, or leak it where there is no room: it must not
/// be freed here.
pub fn retire(retired: &mut Producer<Arc<AudioClip>>, clip: Arc<AudioClip>)
    ensures
        retires(*old(retired), *final(retired), seq![clip]),
{
    let ghost log = crate::rings::retired_sent(*retired);
    let ghost one = seq![clip];
    proof {
        reveal_with_fuel(leaves_out, 2);
        assert(one.drop_last() =~= Seq::empty());
        assert(log.push(clip).skip(log.len() as int) =~= one);
        assert(log.skip(log.len() as int) =~= Seq::empty());
        assert(log.push(clip) =~= log + one);
    }
    if let Some(back) = push_retired_clip(retired, clip) {
        let _leaked = ManuallyDrop::new(back);
    }
}

/// The audio thread's ends of the rings.
pub struct AudioRings {
    pub commands: Consumer<Command>,
    pub clips: Consumer<TrackedClip>,
    pub retired: Producer<Arc<AudioClip>>,
    pub scope: Producer<Single>,
}

/// The audio thread's side of the engine.
pub struct Callback {
    pub mixer: Mixer,
    pub rings: AudioRings,
    /// Room for the clips of a track while they are being retired.
    pub spare: Vec<Option<TimelineClip>>,
}

impl Callback {
    /// What every callback satisfies between two calls.
    pub open spec fn wf(self) -> bool {
        &&& self.mixer.wf()
        &&& self.spare@.len() == MAX_CLIPS_PER_TRACK
        &&& forall|i: int| 0 <= i < self.spare@.len() ==> #[trigger] self.spare@[i] is None
    }

    /// The audio side of an engine, for a device of the given rate. Everything that it will ever
    /// need is allocated here.
    pub fn new(rings: AudioRings, device_rate: u32, setup: ChainSetup) -> (r: Self)
        ensures
            r.wf(),
            r.rings == rings,
            r.mixer@ == MixerView::fresh(device_rate, setup),
    {
        let mut spare: Vec<Option<TimelineClip>> = Vec::with_capacity(MAX_CLIPS_PER_TRACK);
        for i in 0..MAX_CLIPS_PER_TRACK
            invariant
                spare@.len() == i,
                forall|k: int| 0 <= k < i ==> #[trigger] spare@[k] is None,
        {
            spare.push(None);
        }
        Callback { mixer: Mixer::new(device_rate, setup), rings, spare }
    }

    fn clear_track(&mut self, t: u8)
        requires
            old(self).wf(),
        ensures
            final(self).wf(),
            final(self).mixer@ == old(self).mixer@.with_fresh_strip(t as int),
            retires(
                old(self).rings.retired,
                final(self).rings.retired,
                displaced_by(old(self).mixer@, Command::ClearTrack(t)),
            ),
            final(self).rings == (AudioRings {
                retired: final(self).rings.retired,
                ..old(self).rings
            }),
    {
        let ghost start = self.rings.retired;
        let ghost before = self.mixer@;
        let ghost placed = if t < before.strips.len() {
            crate::sampler::placed(before.strips[t as int].slots)
        } else {
            Seq::empty()
        };
        let displaced = self.mixer.clear_track(t, self.spare.as_mut_slice());
        let ghost first = as_seq(displaced);
        proof {
            lemma_retire_none(start);
        }
        if let Some(clip) = displaced {
            let ghost here = self.rings.retired;
            retire(&mut self.rings.retired, clip);
            proof {
                lemma_retire_one(start, here, self.rings.retired, Seq::empty(), clip);
                assert(Seq::empty().push(clip) =~= first);
            }
        }
        assert(first + sources(placed.take(0)) =~= first);
        let n: usize = self.spare.len();
        proof {
            if t < before.strips.len() {
                crate::sampler::placed_fits(before.strips[t as int].slots);
            }
        }
        for i in 0..n
            invariant
                n == MAX_CLIPS_PER_TRACK,
                n == self.spare@.len(),
                placed.len() <= n,
                self.mixer.wf(),
                self.mixer@ == before.with_fresh_strip(t as int),
                self.rings == (AudioRings { retired: self.rings.retired, ..old(self).rings }),
                forall|k: int| 0 <= k < i ==> #[trigger] self.spare@[k] is None,
                forall|k: int|
                    i <= k < n ==> #[trigger] self.spare@[k] == (if k < placed.len() {
                        Some(placed[k])
                    } else {
                        None
                    }),
                retires(
                    start,
                    self.rings.retired,
                    first + sources(
                        placed.take(
                            if i < placed.len() {
                                i as int
                            } else {
                                placed.len() as int
                            },
                        ),
                    ),
                ),
        {
            let taken = self.spare[i].take();
            if let Some(tc) = taken {
                let ghost here = self.rings.retired;
                let clip = tc.clip;
                retire(&mut self.rings.retired, clip);
                proof {
                    let so_far = first + sources(placed.take(i as int));
                    lemma_retire_one(start, here, self.rings.retired, so_far, clip);
                    assert(so_far.push(clip) =~= first + sources(placed.take(i + 1)));
                }
            }
        }
        proof {
            assert(placed.take(placed.len() as int) =~= placed);
            assert(first + sources(placed) =~= displaced_by(before, Command::ClearTrack(t)));
        }
    }

    /// Follow a command. Clips that it displaces are retired.
    pub fn apply_command(&mut self, cmd: Command)
        requires
            old(self).wf(),
        ensures
            final(self).wf(),
            final(self).mixer@ == applied(old(self).mixer@, cmd),
            retires(
                old(self).rings.retired,
                final(self).rings.retired,
                displaced_by(old(self).mixer@, cmd),
            ),
            final(self).rings == (AudioRings {
                retired: final(self).rings.retired,
                ..old(self).rings
            }),
    {
        let ghost start = self.rings.retired;
        proof {
            lemma_retire_none(start);
        }
        match cmd {
            Command::ClearTrack(t) => {
                self.clear_track(t);
            },
            Command::RemoveClip(t, slot) => {
                if let Some(tc) = self.mixer.remove_clip(t, slot) {
                    retire(&mut self.rings.retired, tc.clip);
                }
            },
            _ => {
                self.mixer.handle(cmd);
            },
        }
    }

    /// Put a clip that arrived where it belongs. The clip that it displaces is retired; so is one
    /// that belongs nowhere.
    pub fn install_clip(&mut self, arrival: TrackedClip)
        requires
            old(self).wf(),
        ensures
            final(self).wf(),
            final(self).mixer@ == installed(old(self).mixer@, arrival),
            retires(
                old(self).rings.retired,
                final(self).rings.retired,
                displaced_by_clip(old(self).mixer@, arrival),
            ),
            final(self).rings == (AudioRings {
                retired: final(self).rings.retired,
                ..old(self).rings
            }),
    {
        proof {
            lemma_retire_none(self.rings.retired);
        }
        let slot: usize = match arrival.placement {
            Some(at) => at.slot as usize,
            None => 0,
        };
        if !arrival.clip.is_sound() || arrival.track as usize >= MAX_TRACKS || slot
            >= MAX_CLIPS_PER_TRACK {
            retire(&mut self.rings.retired, arrival.clip);
            return;
        }
        match arrival.placement {
            None => {
                if let Some(displaced) = self.mixer.set_clip(arrival.track, arrival.clip) {
                    retire(&mut self.rings.retired, displaced);
                }
            },
            Some(at) => {
                if let Some(tc) = self.mixer.place_clip(arrival.track, arrival.clip, at) {
                    retire(&mut self.rings.retired, tc.clip);
                }
            },
        }
    }

    /// Follow the commands that are waiting, in order.
    pub fn drain_commands(&mut self)
        requires
            old(self).wf(),
        ensures
            final(self).wf(),
            takes_commands(old(self).rings.commands, final(self).rings.commands),
            final(self).mixer@ == applied_all(
                old(self).mixer@,
                new_commands(old(self).rings, final(self).rings),
            ),
            retires(
                old(self).rings.retired,
                final(self).rings.retired,
                displaced_by_all(
                    old(self).mixer@,
                    new_commands(old(self).rings, final(self).rings),
                ),
            ),
            crate::rings::commands_drained(final(self).rings.commands) || new_commands(
                old(self).rings,
                final(self).rings,
            ).len() == u64::MAX,
            final(self).rings.clips == old(self).rings.clips,
            final(self).rings.scope == old(self).rings.scope,
    {
        let ghost start = self.rings;
        let ghost before = self.mixer@;
        proof {
            lemma_retire_none(start.retired);
            assert(new_commands(start, start) =~= Seq::empty());
        }
        let mut waiting: bool = true;
        let mut budget: u64 = u64::MAX;
        while waiting && budget > 0
            invariant
                self.wf(),
                waiting || crate::rings::commands_drained(self.rings.commands),
                waiting ==> new_commands(start, self.rings).len() == u64::MAX - budget,
                takes_commands(start.commands, self.rings.commands),
                self.mixer@ == applied_all(before, new_commands(start, self.rings)),
                retires(
                    start.retired,
                    self.rings.retired,
                    displaced_by_all(before, new_commands(start, self.rings)),
                ),
                self.rings.clips == start.clips,
                self.rings.scope == start.scope,
            decreases budget,
        {
            budget = budget - 1;
            let ghost here = self.rings;
            let ghost mixed = self.mixer@;
            let ghost so_far = new_commands(start, here);
            match pop_command(&mut self.rings.commands) {
                Some(cmd) => {
                    self.apply_command(cmd);
                    proof {
                        let now = new_commands(start, self.rings);
                        assert(now =~= so_far.push(cmd));
                        assert(now.drop_last() =~= so_far);
                        lemma_retire_join(
                            start.retired,
                            here.retired,
                            self.rings.retired,
                            displaced_by_all(before, so_far),
                            displaced_by(mixed, cmd),
                        );
                    }
                },
                None => {
                    waiting = false;
                },
            }
        }
    }

    /// Put the clips that are waiting where they belong, in order.
    pub fn drain_clips(&mut self)
        requires
            old(self).wf(),
        ensures
            final(self).wf(),
            takes_clips(old(self).rings.clips, final(self).rings.clips),
            final(self).mixer@ == installed_all(
                old(self).mixer@,
                new_clips(old(self).rings, final(self).rings),
            ),
            retires(
                old(self).rings.retired,
                final(self).rings.retired,
                displaced_by_clips(
                    old(self).mixer@,
                    new_clips(old(self).rings, final(self).rings),
                ),
            ),
            crate::rings::clips_drained(final(self).rings.clips) || new_clips(
                old(self).rings,
                final(self).rings,
            ).len() == u64::MAX,
            final(self).rings.commands == old(self).rings.commands,
            final(self).rings.scope == old(self).rings.scope,
    {
        let ghost start = self.rings;
        let ghost before = self.mixer@;
        proof {
            lemma_retire_none(start.retired);
            assert(new_clips(start, start) =~= Seq::empty());
        }
        let mut waiting: bool = true;
        let mut budget: u64 = u64::MAX;
        while waiting && budget > 0
            invariant
                self.wf(),
                waiting || crate::rings::clips_drained(self.rings.clips),
                waiting ==> new_clips(start, self.rings).len() == u64::MAX - budget,
                takes_clips(start.clips, self.rings.clips),
                self.mixer@ == installed_all(before, new_clips(start, self.rings)),
                retires(
                    start.retired,
                    self.rings.retired,
                    displaced_by_clips(before, new_clips(start, self.rings)),
                ),
                self.rings.commands == start.commands,
                self.rings.scope == start.scope,
            decreases budget,
        {
            budget = budget - 1;
            let ghost here = self.rings;
            let ghost mixed = self.mixer@;
            let ghost so_far = new_clips(start, here);
            match pop_clip(&mut self.rings.clips) {
                Some(arrival) => {
                    self.install_clip(arrival);
                    proof {
                        let now = new_clips(start, self.rings);
                        assert(now =~= so_far.push(arrival));
                        assert(now.drop_last() =~= so_far);
                        lemma_retire_join(
                            start.retired,
                            here.retired,
                            self.rings.retired,
                            displaced_by_clips(before, so_far),
                            displaced_by_clip(mixed, arrival),
                        );
                    }
                },
                None => {
                    waiting = false;
                },
            }
        }
    }

    /// Do what is to be done before a block is rendered: follow the commands that are waiting, then
    /// put the clips that are waiting where they belong.
    pub fn service(&mut self)
        requires
            old(self).wf(),
        ensures
            final(self).wf(),
            takes_commands(old(self).rings.commands, final(self).rings.commands),
            takes_clips(old(self).rings.clips, final(self).rings.clips),
            final(self).mixer@ == serviced(
                old(self).mixer@,
                new_commands(old(self).rings, final(self).rings),
                new_clips(old(self).rings, final(self).rings),
            ),
            retires(
                old(self).rings.retired,
                final(self).rings.retired,
                displaced_by_service(
                    old(self).mixer@,
                    new_commands(old(self).rings, final(self).rings),
                    new_clips(old(self).rings, final(self).rings),
                ),
            ),
            crate::rings::commands_drained(final(self).rings.commands) || new_commands(
                old(self).rings,
                final(self).rings,
            ).len() == u64::MAX,
            crate::rings::clips_drained(final(self).rings.clips) || new_clips(
                old(self).rings,
                final(self).rings,
            ).len() == u64::MAX,
            final(self).rings.scope == old(self).rings.scope,
    {
        let ghost start = self.rings;
        let ghost before = self.mixer@;
        self.drain_commands();
        let ghost here = self.rings;
        let ghost mixed = self.mixer@;
        self.drain_clips();
        proof {
            lemma_retire_join(
                start.retired,
                here.retired,
                self.rings.retired,
                displaced_by_all(before, new_commands(start, self.rings)),
                displaced_by_clips(mixed, new_clips(start, self.rings)),
            );
        }
    }

    /// What the display is to see of the engine after a block.
    pub fn snapshot(&self) -> (r: Snapshot)
        requires
            self.wf(),
        ensures
            r.playhead == self.mixer@.strips[0].player.whole_frames(),
            r.playhead_rate == self.mixer@.pos_rate(),
            r.playing == self.mixer@.playing(),
            r.timeline == self.mixer@.playhead,
            r.rolling == self.mixer@.rolling,
            forall|t: int|
                0 <= t < MAX_TRACKS ==> #[trigger] r.track_peaks_l@[t]
                    == self.mixer@.strips[t].peak_l,
            forall|t: int|
                0 <= t < MAX_TRACKS ==> #[trigger] r.track_peaks_r@[t]
                    == self.mixer@.strips[t].peak_r,
            r.master_peak_l == self.mixer@.master_peak_l,
            r.master_peak_r == self.mixer@.master_peak_r,
    {
        let mut track_peaks_l = [Single::zero();8];
        let mut track_peaks_r = [Single::zero();8];
        for t in 0..MAX_TRACKS
            invariant
                self.wf(),
                forall|k: int|
                    0 <= k < t ==> #[trigger] track_peaks_l@[k] == self.mixer@.strips[k].peak_l,
                forall|k: int|
                    0 <= k < t ==> #[trigger] track_peaks_r@[k] == self.mixer@.strips[k].peak_r,
        {
            track_peaks_l[t] = self.mixer.track_peak_left(t);
            track_peaks_r[t] = self.mixer.track_peak_right(t);
        }
        Snapshot {
            playhead: self.mixer.pos_frames(),
            playhead_rate: self.mixer.pos_rate(),
            playing: self.mixer.is_playing(),
            timeline: self.mixer.playhead,
            rolling: self.mixer.rolling,
            track_peaks_l,
            track_peaks_r,
            master_peak_l: self.mixer.master_peak_left(),
            master_peak_r: self.mixer.master_peak_right(),
        }
    }
}

/// What the audio thread publishes after a block.
#[derive(Clone, Copy, Debug)]
pub struct Snapshot {
    /// The position of the transport, in frames of the clip of the first track.
    pub playhead: i64,
    /// The rate of that clip, or 0 where there is none.
    pub playhead_rate: u32,
    /// Whether any track plays.
    pub playing: bool,
    /// The position of the timeline, in device frames.
    pub timeline: i64,
    /// Whether the timeline moves.
    pub rolling: bool,
    /// The levels of the tracks.
    pub track_peaks_l: [Single; 8],
    pub track_peaks_r: [Single; 8],
    /// The level of the master.
    pub master_peak_l: Single,
    pub master_peak_r: Single,
}

impl Snapshot {
    /// The position of the transport in seconds from the start of the clip, as frames of the clip
    /// over the rate of the clip.
    pub open spec fn position(self) -> Fraction {
        if self.playhead_rate == 0 {
            Fraction { num: 0, den: 1 }
        } else {
            Fraction { num: self.playhead as i128, den: self.playhead_rate as u64 }
        }
    }

    /// What there is to see before the first block.
    pub fn silent() -> (r: Self)
        ensures
            r.playhead == 0,
            r.playhead_rate == 0,
            !r.playing,
            r.timeline == 0,
            !r.rolling,
            forall|t: int| 0 <= t < MAX_TRACKS ==> #[trigger] r.track_peaks_l@[t] == Single::of(0),
            forall|t: int| 0 <= t < MAX_TRACKS ==> #[trigger] r.track_peaks_r@[t] == Single::of(0),
            r.master_peak_l == Single::of(0),
            r.master_peak_r == Single::of(0),
    {
        Snapshot {
            playhead: 0,
            playhead_rate: 0,
            playing: false,
            timeline: 0,
            rolling: false,
            track_peaks_l: [Single::zero();8],
            track_peaks_r: [Single::zero();8],
            master_peak_l: Single::zero(),
            master_peak_r: Single::zero(),
        }
    }

    /// The levels of a track, left and right. A track that does not exist is silent.
    pub fn track_peak_levels(&self, track: usize) -> (r: (Single, Single))
        ensures
            r == (if track < MAX_TRACKS {
                (self.track_peaks_l@[track as int], self.track_peaks_r@[track as int])
            } else {
                (Single::of(0), Single::of(0))
            }),
    {
        if track >= MAX_TRACKS {
            return (Single::zero(), Single::zero());
        }
        (self.track_peaks_l[track], self.track_peaks_r[track])
    }

    /// The levels of the master, left and right.
    pub fn master_peak_levels(&self) -> (r: (Single, Single))
        ensures
            r == (self.master_peak_l, self.master_peak_r),
    {
        (self.master_peak_l, self.master_peak_r)
    }
}

/// Whether an end of the command ring is the same one, further on: what was taken stays taken, in
/// the order in which it was sent.
pub open spec fn takes_commands(before: Consumer<Command>, after: Consumer<Command>) -> bool {
    let old_log = crate::rings::commands_taken(before);
    let new_log = crate::rings::commands_taken(after);
    let all = crate::rings::commands_out(before);
    &&& crate::rings::commands_out(after) == all
    &&& old_log.is_prefix_of(new_log)
    &&& old_log.is_prefix_of(all) ==> new_log.is_prefix_of(all)
}

/// Whether an end of the clip ring is the same one, further on: what was taken stays taken, in the
/// order in which it was sent.
pub open spec fn takes_clips(before: Consumer<TrackedClip>, after: Consumer<TrackedClip>) -> bool {
    let old_log = crate::rings::clips_taken(before);
    let new_log = crate::rings::clips_taken(after);
    let all = crate::rings::clips_out(before);
    &&& crate::rings::clips_out(after) == all
    &&& old_log.is_prefix_of(new_log)
    &&& old_log.is_prefix_of(all) ==> new_log.is_prefix_of(all)
}

/// The commands taken between two states of the rings.
pub open spec fn new_commands(before: AudioRings, after: AudioRings) -> Seq<Command> {
    crate::rings::commands_taken(after.commands).skip(
        crate::rings::commands_taken(before.commands).len() as int,
    )
}

/// The clips taken between two states of the rings.
pub open spec fn new_clips(before: AudioRings, after: AudioRings) -> Seq<TrackedClip> {
    crate::rings::clips_taken(after.clips).skip(
        crate::rings::clips_taken(before.clips).len() as int,
    )
}

/// The control thread's side of the engine.
pub struct Engine {
    pub commands: Producer<Command>,
    pub clips: Producer<TrackedClip>,
    pub retired: Consumer<Arc<AudioClip>>,
    /// Frames per second of the output device, or 0 as long as there is none.
    pub device_rate: u32,
    pub scope: ScopeReader,
}

/// What a request does to the engine: it sends the command. Where the ring is full the command is
/// lost.
pub open spec fn asks(before: Engine, after: Engine, cmd: Command) -> bool {
    &&& after == (Engine { commands: after.commands, ..before })
    &&& sends_command(before.commands, after.commands, cmd)
}

/// What sending a command does to its ring: it goes in, unless as many are under way as the ring
/// can hold.
pub open spec fn sends_command(
    before: Producer<Command>,
    after: Producer<Command>,
    cmd: Command,
) -> bool {
    let old_log = crate::rings::commands_sent(before);
    let new_log = crate::rings::commands_sent(after);
    let room = crate::rings::commands_room(before);
    let freed = crate::rings::commands_freed(after);
    &&& crate::rings::commands_room(after) == room
    &&& crate::rings::commands_in(after) == crate::rings::commands_in(before)
    &&& new_log.is_prefix_of(crate::rings::commands_in(after))
    &&& crate::rings::commands_freed(before) <= freed <= old_log.len()
    &&& new_log == if old_log.len() < room + freed {
        old_log.push(cmd)
    } else {
        old_log
    }
}

/// What sending a clip does to its ring: it goes in, unless as many are under way as the ring can
/// hold.
pub open spec fn sends_clip(
    before: Producer<TrackedClip>,
    after: Producer<TrackedClip>,
    clip: TrackedClip,
) -> bool {
    let old_log = crate::rings::clips_sent(before);
    let new_log = crate::rings::clips_sent(after);
    let room = crate::rings::clips_room(before);
    let freed = crate::rings::clips_freed(after);
    &&& crate::rings::clips_room(after) == room
    &&& crate::rings::clips_in(after) == crate::rings::clips_in(before)
    &&& new_log.is_prefix_of(crate::rings::clips_in(after))
    &&& crate::rings::clips_freed(before) <= freed <= old_log.len()
    &&& new_log == if old_log.len() < room + freed {
        old_log.push(clip)
    } else {
        old_log
    }
}

/// What collecting the retired clips does to their ring: it takes until the ring is empty.
pub open spec fn collects(
    before: Consumer<Arc<AudioClip>>,
    after: Consumer<Arc<AudioClip>>,
) -> bool {
    let old_log = crate::rings::retired_taken(before);
    let new_log = crate::rings::retired_taken(after);
    let all = crate::rings::retired_out(before);
    &&& crate::rings::retired_out(after) == all
    &&& old_log.is_prefix_of(new_log)
    &&& old_log.is_prefix_of(all) ==> new_log.is_prefix_of(all)
    &&& crate::rings::retired_drained(after) || new_log.len() == old_log.len() + u64::MAX
}

/// Whether the two sides of an engine are connected: each ring runs from the one to the other.
pub open spec fn linked(engine: Engine, rings: AudioRings) -> bool {
    &&& crate::rings::commands_linked(engine.commands, rings.commands)
    &&& crate::rings::clips_linked(engine.clips, rings.clips)
    &&& crate::rings::retired_linked(rings.retired, engine.retired)
    &&& crate::rings::samples_linked(rings.scope, engine.scope.consumer)
}

impl Engine {
    /// Make the rings of an engine. The control side still has no device; see
    /// [`Engine::set_device_rate`].
    pub fn connect() -> (r: (Engine, AudioRings))
        ensures
            crate::rings::commands_sent(r.0.commands) == Seq::<Command>::empty(),
            crate::rings::commands_room(r.0.commands) == crate::commands::CAPACITY,
            crate::rings::clips_sent(r.0.clips) == Seq::<TrackedClip>::empty(),
            crate::rings::clips_room(r.0.clips) == crate::player::CLIP_RING_CAPACITY,
            crate::rings::retired_taken(r.0.retired) == Seq::<Arc<AudioClip>>::empty(),
            crate::rings::samples_taken(r.0.scope.consumer) == Seq::<Single>::empty(),
            r.0.scope.history@ == Seq::<Single>::empty(),
            r.0.device_rate == 0,
            crate::rings::commands_taken(r.1.commands) == Seq::<Command>::empty(),
            crate::rings::clips_taken(r.1.clips) == Seq::<TrackedClip>::empty(),
            crate::rings::retired_sent(r.1.retired) == Seq::<Arc<AudioClip>>::empty(),
            crate::rings::retired_room(r.1.retired) == crate::player::RETIRE_RING_CAPACITY,
            crate::rings::samples_sent(r.1.scope) == Seq::<Single>::empty(),
            crate::rings::samples_room(r.1.scope) == crate::scope::SCOPE_CAPACITY,
            linked(r.0, r.1),
    {
        let (commands, command_rx) = command_channel();
        let (clips, clip_rx) = clip_channel();
        let (retire_tx, retired) = retire_channel();
        let (scope_tx, scope) = scope_channel();
        (
            Engine { commands, clips, retired, device_rate: 0, scope },
            AudioRings { commands: command_rx, clips: clip_rx, retired: retire_tx, scope: scope_tx },
        )
    }

    /// Learn the rate of the output device, once it is known.
    pub fn set_device_rate(&mut self, device_rate: u32)
        ensures
            *final(self) == (Engine { device_rate, ..*old(self) }),
    {
        self.device_rate = device_rate;
    }

    fn ask(&mut self, cmd: Command)
        ensures
            asks(*old(self), *final(self), cmd),
    {
        let _lost = push_command(&mut self.commands, cmd);
    }

    /// Load a clip into the player of a track. This stops and rewinds every track, so that the new
    /// clip does not start in the middle of things. Retired clips are collected first.
    pub fn load_clip(&mut self, track: u8, clip: Arc<AudioClip>)
        ensures
            collects(old(self).retired, final(self).retired),
            sends_command(old(self).commands, final(self).commands, Command::Stop),
            sends_clip(
                old(self).clips,
                final(self).clips,
                (TrackedClip { track, clip, placement: None }),
            ),
            final(self).device_rate == old(self).device_rate,
            final(self).scope == old(self).scope,
    {
        self.collect_garbage();
        self.ask(Command::Stop);
        let _lost = push_clip(&mut self.clips, TrackedClip { track, clip, placement: None });
    }

    /// Put a clip onto the timeline of a track, without stopping. Retired clips are collected
    /// first.
    pub fn place_clip(&mut self, track: u8, clip: Arc<AudioClip>, at: Placement)
        ensures
            collects(old(self).retired, final(self).retired),
            final(self).commands == old(self).commands,
            sends_clip(
                old(self).clips,
                final(self).clips,
                (TrackedClip { track, clip, placement: Some(at) }),
            ),
            final(self).device_rate == old(self).device_rate,
            final(self).scope == old(self).scope,
    {
        self.collect_garbage();
        let _lost = push_clip(&mut self.clips, TrackedClip { track, clip, placement: Some(at) });
    }

    /// Take the clips off a track and set its strip back. Retired clips are collected first.
    pub fn clear_track(&mut self, track: u8)
        ensures
            collects(old(self).retired, final(self).retired),
            sends_command(old(self).commands, final(self).commands, Command::ClearTrack(track)),
            final(self).clips == old(self).clips,
            final(self).device_rate == old(self).device_rate,
            final(self).scope == old(self).scope,
    {
        self.collect_garbage();
        self.ask(Command::ClearTrack(track));
    }

    /// Take a clip off the timeline of a track. Retired clips are collected first.
    pub fn remove_clip(&mut self, track: u8, slot: u8)
        ensures
            collects(old(self).retired, final(self).retired),
            sends_command(
                old(self).commands,
                final(self).commands,
                Command::RemoveClip(track, slot),
            ),
            final(self).clips == old(self).clips,
            final(self).device_rate == old(self).device_rate,
            final(self).scope == old(self).scope,
    {
        self.collect_garbage();
        self.ask(Command::RemoveClip(track, slot));
    }

    /// Choose the filter of an equalizer band, by its code. A code that is too large stays unknown.
    pub fn set_track_eq_band_kind(&mut self, track: u8, band: u8, code: u32)
        ensures
            asks(
                *old(self),
                *final(self),
                Command::SetTrackEqBandKind(track, band, crate::api::capped(code)),
            ),
    {
        self.ask(Command::SetTrackEqBandKind(track, band, capped_index(code)));
    }

    /// Start or resume every track.
    pub fn play(&mut self)
        ensures
            asks(*old(self), *final(self), Command::Play),
    {
        self.ask(Command::Play);
    }

    /// Hold every track where it is.
    pub fn pause(&mut self)
        ensures
            asks(*old(self), *final(self), Command::Pause),
    {
        self.ask(Command::Pause);
    }

    /// Stop every track and rewind it.
    pub fn stop_playback(&mut self)
        ensures
            asks(*old(self), *final(self), Command::Stop),
    {
        self.ask(Command::Stop);
    }

    /// Move every track to a time in seconds.
    pub fn seek(&mut self, secs: Single)
        ensures
            asks(*old(self), *final(self), Command::Seek(secs)),
    {
        self.ask(Command::Seek(secs));
    }

    /// Choose whether tracks start over at their end.
    pub fn set_looping(&mut self, on: bool)
        ensures
            asks(*old(self), *final(self), Command::SetLooping(on)),
    {
        self.ask(Command::SetLooping(on));
    }

    /// Move the fader of a track, in decibels.
    pub fn set_track_gain_db(&mut self, track: u8, db: Single)
        ensures
            asks(*old(self), *final(self), Command::SetTrackGainDb(track, db)),
    {
        self.ask(Command::SetTrackGainDb(track, db));
    }

    /// Move the fader of a track, as a multiplier.
    pub fn set_track_gain_linear(&mut self, track: u8, linear: Single)
        ensures
            asks(*old(self), *final(self), Command::SetTrackGainLinear(track, linear)),
    {
        self.ask(Command::SetTrackGainLinear(track, linear));
    }

    /// Move a track in the stereo field.
    pub fn set_track_pan(&mut self, track: u8, pan: Single)
        ensures
            asks(*old(self), *final(self), Command::SetTrackPan(track, pan)),
    {
        self.ask(Command::SetTrackPan(track, pan));
    }

    /// Move an equalizer band, in Hz.
    pub fn set_track_eq_band_freq(&mut self, track: u8, band: u8, hz: Single)
        ensures
            asks(*old(self), *final(self), Command::SetTrackEqBandFreq(track, band, hz)),
    {
        self.ask(Command::SetTrackEqBandFreq(track, band, hz));
    }

    /// Change the bandwidth of an equalizer band.
    pub fn set_track_eq_band_q(&mut self, track: u8, band: u8, q: Single)
        ensures
            asks(*old(self), *final(self), Command::SetTrackEqBandQ(track, band, q)),
    {
        self.ask(Command::SetTrackEqBandQ(track, band, q));
    }

    /// Change the boost or cut of an equalizer band, in decibels.
    pub fn set_track_eq_band_gain_db(&mut self, track: u8, band: u8, db: Single)
        ensures
            asks(*old(self), *final(self), Command::SetTrackEqBandGainDb(track, band, db)),
    {
        self.ask(Command::SetTrackEqBandGainDb(track, band, db));
    }

    /// Switch an equalizer band on or off.
    pub fn set_track_eq_band_enabled(&mut self, track: u8, band: u8, on: bool)
        ensures
            asks(*old(self), *final(self), Command::SetTrackEqBandEnabled(track, band, on)),
    {
        self.ask(Command::SetTrackEqBandEnabled(track, band, on));
    }

    /// Move the master fader, in decibels.
    pub fn set_master_gain_db(&mut self, db: Single)
        ensures
            asks(*old(self), *final(self), Command::SetMasterGainDb(db)),
    {
        self.ask(Command::SetMasterGainDb(db));
    }

    /// Move the master fader, as a multiplier.
    pub fn set_master_gain_linear(&mut self, linear: Single)
        ensures
            asks(*old(self), *final(self), Command::SetMasterGainLinear(linear)),
    {
        self.ask(Command::SetMasterGainLinear(linear));
    }

    /// Move the master bus in the stereo field.
    pub fn set_master_pan(&mut self, pan: Single)
        ensures
            asks(*old(self), *final(self), Command::SetMasterPan(pan)),
    {
        self.ask(Command::SetMasterPan(pan));
    }

    /// Move a clip on the timeline.
    pub fn move_clip(&mut self, track: u8, slot: u8, start_frame: i64)
        ensures
            asks(*old(self), *final(self), Command::MoveClip(track, slot, start_frame)),
    {
        self.ask(Command::MoveClip(track, slot, start_frame));
    }

    /// Change how long a clip lasts on the timeline.
    pub fn resize_clip(&mut self, track: u8, slot: u8, length_frames: u32)
        ensures
            asks(*old(self), *final(self), Command::ResizeClip(track, slot, length_frames)),
    {
        self.ask(Command::ResizeClip(track, slot, length_frames));
    }

    /// Change the source frame that a clip on the timeline starts with.
    pub fn set_clip_source_offset(&mut self, track: u8, slot: u8, source_offset_frames: u32)
        ensures
            asks(
                *old(self),
                *final(self),
                Command::SetClipSourceOffset(track, slot, source_offset_frames),
            ),
    {
        self.ask(Command::SetClipSourceOffset(track, slot, source_offset_frames));
    }

    /// The rate of the output device.
    pub fn sample_rate(&self) -> (r: u32)
        ensures
            r == self.device_rate,
    {
        self.device_rate
    }

    /// The published position of the transport in seconds from the start of the clip: frames of the
    /// clip over the rate of the clip. Without a clip it is zero.
    pub fn playhead_secs(&self, published: &Snapshot) -> (r: Fraction)
        ensures
            r.den > 0,
            r == published.position(),
    {
        if published.playhead_rate == 0 {
            return Fraction { num: 0, den: 1 };
        }
        Fraction { num: published.playhead as i128, den: published.playhead_rate as u64 }
    }

    /// The published position of the timeline in seconds: device frames over the rate of the
    /// device. Without a device it is zero.
    pub fn timeline_secs(&self, published: &Snapshot) -> (r: Fraction)
        ensures
            r.den > 0,
            r == (if self.device_rate == 0 {
                Fraction { num: 0, den: 1 }
            } else {
                Fraction { num: published.timeline as i128, den: self.device_rate as u64 }
            }),
    {
        if self.device_rate == 0 {
            return Fraction { num: 0, den: 1 };
        }
        Fraction { num: published.timeline as i128, den: self.device_rate as u64 }
    }

    /// Free the clips that the audio thread has sent back.
    pub fn collect_garbage(&mut self)
        ensures
            collects(old(self).retired, final(self).retired),
            *final(self) == (Engine { retired: final(self).retired, ..*old(self) }),
    {
        let ghost taken = crate::rings::retired_taken(self.retired);
        let mut waiting: bool = true;
        let mut budget: u64 = u64::MAX;
        while waiting && budget > 0
            invariant
                waiting || crate::rings::retired_drained(self.retired),
                waiting ==> crate::rings::retired_taken(self.retired).len() == taken.len() + (
                u64::MAX - budget),
                taken.is_prefix_of(crate::rings::retired_taken(self.retired)),
                taken == crate::rings::retired_taken(old(self).retired),
                crate::rings::retired_out(self.retired) == crate::rings::retired_out(
                    old(self).retired,
                ),
                taken.is_prefix_of(crate::rings::retired_out(self.retired))
                    ==> crate::rings::retired_taken(self.retired).is_prefix_of(
                    crate::rings::retired_out(self.retired),
                ),
                *self == (Engine { retired: self.retired, ..*old(self) }),
            decreases budget,
        {
            budget = budget - 1;
            waiting = pop_retired_clip(&mut self.retired).is_some();
        }
    }

    /// The window of samples to draw next. See [`ScopeReader::frame`].
    pub fn scope_frame(&mut self) -> (r: Vec<Single>)
        ensures
            crate::scope::goes_on(old(self).scope, final(self).scope),
            final(self).scope.history@ == crate::scope::recent(
                old(self).scope.history@ + crate::scope::arrived(
                    old(self).scope,
                    final(self).scope,
                ),
            ),
            r@ == crate::scope::window(final(self).scope.history@),
            crate::rings::samples_drained(final(self).scope.consumer) || crate::scope::arrived(
                old(self).scope,
                final(self).scope,
            ).len() == u64::MAX,
            *final(self) == (Engine { scope: final(self).scope, ..*old(self) }),
    {
        self.scope.frame()
    }
}

/// Loading a clip brings everything to a halt at the start, so that the clip does not sound by
/// itself: every player is stopped and rewound, the timeline too, and the track holds the clip.
pub proof fn loading_stops_everything(mixer: MixerView, track: u8, clip: Arc<AudioClip>, t: int)
    requires
        clip.wf(),
        track < mixer.strips.len(),
        0 <= t < mixer.strips.len(),
    ensures
        ({
            let after = serviced(
                mixer,
                seq![Command::Stop],
                seq![TrackedClip { track, clip, placement: None }],
            );
            &&& after.strips[track as int].player.clip == Some(clip)
            &&& !after.strips[t].player.playing
            &&& after.strips[t].player.pos == 0
            &&& !after.playing()
            &&& !after.rolling
            &&& after.playhead == 0
            &&& after.strips[t].chain == mixer.strips[t].chain
        }),
{
    let cmds = seq![Command::Stop];
    let arrival = TrackedClip { track, clip, placement: None };
    let clips = seq![arrival];
    reveal_with_fuel(applied_all, 2);
    reveal_with_fuel(installed_all, 2);
    assert(cmds.drop_last() =~= Seq::empty());
    assert(clips.drop_last() =~= Seq::empty());
    let stopped = applied(mixer, Command::Stop);
    assert(applied_all(mixer, cmds) == stopped);
    assert(installed_all(stopped, clips) == installed(stopped, arrival));
}

/// The two sides of an engine stay connected, whatever either of them does in the meantime: a
/// request, sending a clip, collecting what was retired, drawing a window, servicing the rings and
/// putting out a sample.
pub proof fn sides_stay_connected(
    engine: Engine,
    later: Engine,
    rings: AudioRings,
    after: AudioRings,
    cmd: Command,
    clip: TrackedClip,
    displaced: Seq<Arc<AudioClip>>,
    sample: Single,
)
    requires
        linked(engine, rings),
        later.commands == engine.commands || sends_command(engine.commands, later.commands, cmd),
        later.clips == engine.clips || sends_clip(engine.clips, later.clips, clip),
        later.retired == engine.retired || collects(engine.retired, later.retired),
        later.scope == engine.scope || crate::scope::goes_on(engine.scope, later.scope),
        after.commands == rings.commands || takes_commands(rings.commands, after.commands),
        after.clips == rings.clips || takes_clips(rings.clips, after.clips),
        after.retired == rings.retired || retires(rings.retired, after.retired, displaced),
        after.scope == rings.scope || crate::scope::sends_sample(
            rings.scope,
            after.scope,
            sample,
        ),
    ensures
        linked(later, after),
{
}

/// The audio thread follows what the control thread asked for: in the order in which it was asked,
/// and with nothing missed. Once as many commands were taken as were sent, the mixer is where all
/// requests since `before` take it; so with clips.
pub proof fn requests_are_followed_in_order(
    engine: Engine,
    before: AudioRings,
    after: AudioRings,
    mixer: MixerView,
)
    requires
        linked(engine, after),
        takes_commands(before.commands, after.commands),
        takes_clips(before.clips, after.clips),
        crate::rings::commands_taken(after.commands).len() == crate::rings::commands_sent(
            engine.commands,
        ).len(),
        crate::rings::clips_taken(after.clips).len() == crate::rings::clips_sent(
            engine.clips,
        ).len(),
    ensures
        ({
            let cmds = crate::rings::commands_sent(engine.commands).skip(
                crate::rings::commands_taken(before.commands).len() as int,
            );
            let clips = crate::rings::clips_sent(engine.clips).skip(
                crate::rings::clips_taken(before.clips).len() as int,
            );
            serviced(mixer, new_commands(before, after), new_clips(before, after)) == serviced(
                mixer,
                cmds,
                clips,
            )
        }),
{
    crate::rings::commands_arrive_in_order(engine.commands, after.commands);
    crate::rings::clips_arrive_in_order(engine.clips, after.clips);
}

/// Placing a clip on the timeline does not disturb playback: no player and not the timeline itself
/// is stopped or moved.
pub proof fn placing_does_not_stop(mixer: MixerView, arrival: TrackedClip, t: int)
    requires
        arrival.placement is Some,
        0 <= t < mixer.strips.len(),
    ensures
        installed(mixer, arrival).strips[t].player == mixer.strips[t].player,
        installed(mixer, arrival).strips[t].chain == mixer.strips[t].chain,
        installed(mixer, arrival).playhead == mixer.playhead,
        installed(mixer, arrival).rolling == mixer.rolling,
{
}

/// A request is sent exactly where there is room for it beside those under way, and then it is the
/// one that was made, behind all that were sent before. It changes nothing else of the engine.
pub proof fn requests_are_sent_where_there_is_room(before: Engine, after: Engine, cmd: Command)
    requires
        asks(before, after, cmd),
    ensures
        ({
            let log = crate::rings::commands_sent(before.commands);
            let under_way = log.len() - crate::rings::commands_freed(after.commands);
            let sent = crate::rings::commands_sent(after.commands);
            &&& under_way < crate::rings::commands_room(before.commands) ==> sent.len() == log.len()
                + 1 && sent.last() == cmd
            &&& under_way >= crate::rings::commands_room(before.commands) ==> sent.len()
                == log.len()
            &&& forall|i: int| 0 <= i < log.len() ==> sent[i] == #[trigger] log[i]
            &&& log.len() < crate::rings::commands_room(before.commands) ==> sent.last() == cmd
        }),
        after.clips == before.clips,
        after.retired == before.retired,
        after.scope == before.scope,
        after.device_rate == before.device_rate,
{
}

/// A clip is sent exactly where there is room for it beside those under way, and then it is the one
/// that was handed over, behind all that were sent before.
pub proof fn clips_are_sent_where_there_is_room(
    before: Producer<TrackedClip>,
    after: Producer<TrackedClip>,
    clip: TrackedClip,
)
    requires
        sends_clip(before, after, clip),
    ensures
        ({
            let log = crate::rings::clips_sent(before);
            let under_way = log.len() - crate::rings::clips_freed(after);
            let sent = crate::rings::clips_sent(after);
            &&& under_way < crate::rings::clips_room(before) ==> sent.len() == log.len() + 1
                && sent.last() == clip
            &&& under_way >= crate::rings::clips_room(before) ==> sent.len() == log.len()
            &&& forall|i: int| 0 <= i < log.len() ==> sent[i] == #[trigger] log[i]
            &&& log.len() < crate::rings::clips_room(before) ==> sent.last() == clip
        }),
{
}

/// Displaced clips are sent back, all of them and in order, as long as there is room for them beside
/// those under way; and nothing is ever sent back that was not displaced.
pub proof fn displaced_clips_are_sent_back(
    before: Producer<Arc<AudioClip>>,
    after: Producer<Arc<AudioClip>>,
    displaced: Seq<Arc<AudioClip>>,
    i: int,
)
    requires
        retires(before, after, displaced),
    ensures
        ({
            let log = crate::rings::retired_sent(before);
            let sent = crate::rings::retired_sent(after);
            let under_way = log.len() - crate::rings::retired_freed(before);
            &&& log.len() <= sent.len() <= log.len() + displaced.len()
            &&& 0 <= i < log.len() ==> sent[i] == log[i]
            &&& log.len() <= i < sent.len() ==> displaced.contains(sent[i])
            &&& under_way + displaced.len() <= crate::rings::retired_room(before) ==> sent.len()
                == log.len() + displaced.len() && forall|k: int|
                0 <= k < displaced.len() ==> sent[log.len() + k] == #[trigger] displaced[k]
        }),
{
    let log = crate::rings::retired_sent(before);
    let sent = crate::rings::retired_sent(after);
    let new = sent.skip(log.len() as int);
    lemma_kept_are_of_all(new, displaced);
    if log.len() <= i < sent.len() {
        assert(new[i - log.len()] == sent[i]);
        assert(new.contains(sent[i]));
    }
}

proof fn lemma_kept_are_of_all(kept: Seq<Arc<AudioClip>>, all: Seq<Arc<AudioClip>>)
    requires
        leaves_out(kept, all),
    ensures
        kept.len() <= all.len(),
        forall|x: Arc<AudioClip>| kept.contains(x) ==> all.contains(x),
    decreases all.len(),
{
    if all.len() > 0 {
        let rest = all.drop_last();
        if leaves_out(kept, rest) {
            lemma_kept_are_of_all(kept, rest);
        } else {
            lemma_kept_are_of_all(kept.drop_last(), rest);
        }
        assert forall|x: Arc<AudioClip>| kept.contains(x) implies all.contains(x) by {
            let i = choose|i: int| 0 <= i < kept.len() && kept[i] == x;
            if leaves_out(kept, rest) {
                assert(rest.contains(x));
                let j = choose|j: int| 0 <= j < rest.len() && rest[j] == x;
                assert(all[j] == x);
            } else if i < kept.len() - 1 {
                assert(kept.drop_last()[i] == x);
                assert(rest.contains(x));
                let j = choose|j: int| 0 <= j < rest.len() && rest[j] == x;
                assert(all[j] == x);
            } else {
                assert(all[all.len() - 1] == x);
            }
        }
    }
}

/// Every command but those that take clips away does what it does to a mixer by itself, and
/// displaces nothing.
pub proof fn most_commands_displace_nothing(mixer: MixerView, cmd: Command)
    requires
        !(cmd is ClearTrack),
        !(cmd is RemoveClip),
    ensures
        applied(mixer, cmd) == mixer.handled(cmd),
        displaced_by(mixer, cmd).len() == 0,
{
}

/// Clearing a track takes the clip of its player and then those of its slots, in order, and sets the
/// track back to how it was built: without clips, stopped at the start, not looping, its chain and
/// meters as new. The rest of the mixer stays as it is, and so does everything if there is no such
/// track.
pub proof fn cleared_tracks_give_up_their_clips(mixer: MixerView, t: u8, i: int)
    requires
        0 <= i < mixer.strips.len(),
    ensures
        ({
            let after = applied(mixer, Command::ClearTrack(t));
            let displaced = displaced_by(mixer, Command::ClearTrack(t));
            let strip = mixer.strips[t as int];
            let slots = strip.slots.filter(|s: Option<TimelineClip>| s is Some);
            &&& after.strips.len() == mixer.strips.len()
            &&& i != t ==> after.strips[i] == mixer.strips[i]
            &&& after == (MixerView { strips: after.strips, ..mixer })
            &&& t >= mixer.strips.len() ==> after == mixer && displaced.len() == 0
            &&& t < mixer.strips.len() ==> {
                let new = after.strips[t as int];
                let first = if strip.player.clip is Some {
                    1int
                } else {
                    0
                };
                &&& new.player.clip is None
                &&& new.player.pos == 0
                &&& !new.player.playing
                &&& !new.player.looping
                &&& new.player.device_rate == strip.player.device_rate
                &&& new.slots.len() == MAX_CLIPS_PER_TRACK
                &&& forall|s: int| 0 <= s < new.slots.len() ==> #[trigger] new.slots[s] is None
                &&& crate::mixer::transparent(new.chain, strip.chain.setup)
                &&& new.peak_l.bits == 0
                &&& new.peak_r.bits == 0
                &&& displaced.len() == first + slots.len()
                &&& strip.player.clip is Some ==> displaced[0] == strip.player.clip->0
                &&& forall|k: int|
                    0 <= k < slots.len() ==> displaced[first + k] == (#[trigger] slots[k])->0.clip
            }
        }),
{
    if t < mixer.strips.len() {
        let slots = mixer.strips[t as int].slots;
        crate::sampler::placed_clips_are_those_in_the_slots(slots);
    }
}

/// Removing a clip takes it out of its slot, and nothing else changes. Where there is no clip,
/// nothing changes at all.
pub proof fn removed_clips_are_given_up(mixer: MixerView, t: u8, slot: u8)
    ensures
        ({
            let after = applied(mixer, Command::RemoveClip(t, slot));
            let displaced = displaced_by(mixer, Command::RemoveClip(t, slot));
            let there = t < mixer.strips.len() && slot < mixer.strips[t as int].slots.len();
            &&& !there ==> after == mixer && displaced.len() == 0
            &&& there ==> {
                let strip = mixer.strips[t as int];
                &&& after == (MixerView {
                    strips: mixer.strips.update(
                        t as int,
                        crate::strip::StripView {
                            slots: strip.slots.update(slot as int, None),
                            ..strip
                        },
                    ),
                    ..mixer
                })
                &&& strip.slots[slot as int] is None ==> displaced.len() == 0
                &&& strip.slots[slot as int] matches Some(tc) ==> displaced.len() == 1
                    && displaced[0] == tc.clip
            }
        }),
{
}

/// A clip that arrives for a track is put into its player, stopped at the start, or into the slot
/// and at the place that it was sent for; the clip that was there is given up. One that is not
/// sound, or for which there is no track or slot, is itself given up, and nothing changes.
pub proof fn arriving_clips_are_put_in_place(mixer: MixerView, arrival: TrackedClip)
    ensures
        ({
            let t = arrival.track as int;
            let after = installed(mixer, arrival);
            let displaced = displaced_by_clip(mixer, arrival);
            let strip = mixer.strips[t];
            let fits = {
                &&& arrival.clip.wf()
                &&& t < mixer.strips.len()
                &&& arrival.placement matches Some(at) ==> at.slot < strip.slots.len()
            };
            &&& !fits ==> after == mixer && displaced.len() == 1 && displaced[0] == arrival.clip
            &&& fits && arrival.placement is None ==> {
                &&& after == (MixerView {
                    strips: mixer.strips.update(
                        t,
                        crate::strip::StripView {
                            player: crate::player::WavPlayer {
                                clip: Some(arrival.clip),
                                pos: 0,
                                playing: false,
                                ..strip.player
                            },
                            ..strip
                        },
                    ),
                    ..mixer
                })
                &&& strip.player.clip is None ==> displaced.len() == 0
                &&& strip.player.clip matches Some(old) ==> displaced.len() == 1 && displaced[0]
                    == old
            }
            &&& fits ==> (arrival.placement matches Some(at) ==> {
                &&& after == (MixerView {
                    strips: mixer.strips.update(
                        t,
                        crate::strip::StripView {
                            slots: strip.slots.update(
                                at.slot as int,
                                Some(
                                    TimelineClip {
                                        clip: arrival.clip,
                                        start_frame: at.start_frame,
                                        length_frames: at.length_frames,
                                        source_offset_frames: at.source_offset_frames,
                                    },
                                ),
                            ),
                            ..strip
                        },
                    ),
                    ..mixer
                })
                &&& strip.slots[at.slot as int] is None ==> displaced.len() == 0
                &&& strip.slots[at.slot as int] matches Some(tc) ==> displaced.len() == 1
                    && displaced[0] == tc.clip
            })
        }),
{
}

/// Commands, and clips, are followed one after the other, in the order in which they come; what they
/// displace is given up in that order too.
pub proof fn later_ones_come_later(
    mixer: MixerView,
    cmds: Seq<Command>,
    cmd: Command,
    clips: Seq<TrackedClip>,
    clip: TrackedClip,
)
    ensures
        applied_all(mixer, Seq::empty()) == mixer,
        applied_all(mixer, cmds.push(cmd)) == applied(applied_all(mixer, cmds), cmd),
        displaced_by_all(mixer, Seq::empty()).len() == 0,
        displaced_by_all(mixer, cmds.push(cmd)) == displaced_by_all(mixer, cmds) + displaced_by(
            applied_all(mixer, cmds),
            cmd,
        ),
        installed_all(mixer, Seq::empty()) == mixer,
        installed_all(mixer, clips.push(clip)) == installed(installed_all(mixer, clips), clip),
        displaced_by_clips(mixer, Seq::empty()).len() == 0,
        displaced_by_clips(mixer, clips.push(clip)) == displaced_by_clips(mixer, clips)
            + displaced_by_clip(installed_all(mixer, clips), clip),
{
    assert(cmds.push(cmd).drop_last() =~= cmds);
    assert(clips.push(clip).drop_last() =~= clips);
}

/// Commands that are waiting are followed before clips that are waiting are put in place: what they
/// displace goes first.
pub proof fn commands_come_before_clips(
    mixer: MixerView,
    cmds: Seq<Command>,
    clips: Seq<TrackedClip>,
)
    ensures
        serviced(mixer, cmds, Seq::empty()) == applied_all(mixer, cmds),
        serviced(mixer, Seq::empty(), clips) == installed_all(mixer, clips),
        serviced(mixer, cmds, clips) == serviced(
            serviced(mixer, cmds, Seq::empty()),
            Seq::empty(),
            clips,
        ),
        displaced_by_service(mixer, cmds, clips) == displaced_by_service(
            mixer,
            cmds,
            Seq::empty(),
        ) + displaced_by_service(serviced(mixer, cmds, Seq::empty()), Seq::empty(), clips),
{
    let mid = applied_all(mixer, cmds);
    let none = Seq::<Arc<AudioClip>>::empty();
    assert(displaced_by_clips(mid, Seq::empty()) =~= none);
    assert(displaced_by_all(mid, Seq::empty()) =~= none);
    assert(displaced_by_all(mixer, cmds) + none =~= displaced_by_all(mixer, cmds));
    assert(none + displaced_by_clips(mid, clips) =~= displaced_by_clips(mid, clips));
}

/// The time that is shown after seeking is the time that was sought, to the frame of the clip of the
/// first track: the frame that starts at or before it, or the last frame. Times are compared as
/// whole numbers: `scaled` is `2^149` times the time.
pub proof fn sought_times_are_shown(mixer: MixerView, secs: Single, published: Snapshot)
    requires
        mixer.strips.len() > 0,
        mixer.strips[0].player.wf(),
        mixer.strips[0].player.clip is Some,
        mixer.strips[0].player.clip->0.sample_rate > 0,
        0 < mixer.strips[0].player.clip->0.frames <= i64::MAX,
        !secs.nan(),
        secs.key() > 0,
        published.playhead == mixer.handled(Command::Seek(secs)).strips[0].player.whole_frames(),
        published.playhead_rate == mixer.handled(Command::Seek(secs)).pos_rate(),
    ensures
        ({
            let clip = mixer.strips[0].player.clip->0;
            let shown = published.position();
            let unit = vstd::arithmetic::power2::pow2(149) as int;
            &&& shown.den == clip.sample_rate
            &&& 0 <= shown.num <= clip.frames - 1
            &&& shown.num * unit <= secs.scaled() * shown.den || secs.bits
                == crate::single::INFINITY
            &&& shown.num < clip.frames - 1 ==> secs.scaled() * shown.den < (shown.num + 1) * unit
        }),
{
    let player = mixer.strips[0].player;
    let clip = player.clip->0;
    let rate = clip.sample_rate as int;
    crate::player::seeking_is_exact(player, secs);
    crate::single::whole_parts_are_exact(secs, rate, 0);
    vstd::arithmetic::power2::lemma2_to64();
    vstd::arithmetic::power2::lemma_pow2_pos(149);
    let unit = vstd::arithmetic::power2::pow2(149) as int;
    let whole = secs.floor_times(rate, 0);
    let num = published.position().num as int;
    assert(secs.scaled() * rate * 1 == secs.scaled() * rate);
    assert(num <= whole ==> num * unit <= whole * unit) by (nonlinear_arith)
        requires
            unit > 0,
    ;
}

/// What was taken between two states of the rings is what the later logs have and the earlier ones
/// have not, in order.
pub proof fn new_ones_are_those_taken_since(before: AudioRings, after: AudioRings, i: int)
    requires
        takes_commands(before.commands, after.commands),
        takes_clips(before.clips, after.clips),
    ensures
        ({
            let old_cmds = crate::rings::commands_taken(before.commands);
            let cmds = crate::rings::commands_taken(after.commands);
            let old_clips = crate::rings::clips_taken(before.clips);
            let clips = crate::rings::clips_taken(after.clips);
            &&& new_commands(before, after).len() == cmds.len() - old_cmds.len()
            &&& 0 <= i < new_commands(before, after).len() ==> new_commands(before, after)[i]
                == cmds[old_cmds.len() + i]
            &&& new_clips(before, after).len() == clips.len() - old_clips.len()
            &&& 0 <= i < new_clips(before, after).len() ==> new_clips(before, after)[i]
                == clips[old_clips.len() + i]
        }),
{
}

/// The time that is shown is that of the clip: its frames over its rate, and nothing without one.
pub proof fn shown_times_are_frames_over_rate(published: Snapshot)
    ensures
        published.playhead_rate > 0 ==> published.position().num == published.playhead
            && published.position().den == published.playhead_rate,
        published.playhead_rate == 0 ==> published.position().num == 0 && published.position().den
            == 1,
{
}

/// Collecting takes every clip that came back, and takes none back that was collected before.
pub proof fn collecting_empties_the_ring(
    before: Consumer<Arc<AudioClip>>,
    after: Consumer<Arc<AudioClip>>,
)
    requires
        collects(before, after),
    ensures
        crate::rings::retired_taken(after).len() < crate::rings::retired_taken(before).len()
            + u64::MAX ==> crate::rings::retired_drained(after),
        crate::rings::retired_taken(before).is_prefix_of(crate::rings::retired_taken(after)),
{
}

} // verus!
