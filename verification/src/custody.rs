//! Who holds which clip.
//!
//! The audio thread must never free a clip. That is shown here by keeping count: a clip that a mixer
//! holds, or that arrives, is afterwards either held by the mixer or among the clips that were
//! displaced, which are all retired. None gets lost, and none is made up.

use std::sync::Arc;

use vstd::multiset::Multiset;
use vstd::prelude::*;
use crate::clip::AudioClip;
use crate::commands::Command;
use crate::mixer::{MixerView, MAX_TRACKS};
use crate::player::{TrackedClip, CLIP_RING_CAPACITY, RETIRE_RING_CAPACITY};
use crate::sampler::{TimelineClip, MAX_CLIPS_PER_TRACK};
use crate::strip::StripView;

verus! {

/// The clip of a player, if it has one.
pub open spec fn held_by_player(clip: Option<Arc<AudioClip>>) -> Multiset<Arc<AudioClip>> {
    match clip {
        Some(c) => Multiset::singleton(c),
        None => Multiset::empty(),
    }
}

/// The clip of a slot, if there is one.
pub open spec fn held_by_slot(slot: Option<TimelineClip>) -> Multiset<Arc<AudioClip>> {
    match slot {
        Some(tc) => Multiset::singleton(tc.clip),
        None => Multiset::empty(),
    }
}

/// The clips of some slots, each as often as it is placed.
pub open spec fn held_by_slots(slots: Seq<Option<TimelineClip>>) -> Multiset<Arc<AudioClip>>
    decreases slots.len(),
{
    if slots.len() == 0 {
        Multiset::empty()
    } else {
        held_by_slots(slots.drop_last()).add(held_by_slot(slots.last()))
    }
}

/// The clips of a track.
pub open spec fn held_by_strip(strip: StripView) -> Multiset<Arc<AudioClip>> {
    held_by_player(strip.player.clip).add(held_by_slots(strip.slots))
}

/// The clips of some tracks.
pub open spec fn held_by_strips(strips: Seq<StripView>) -> Multiset<Arc<AudioClip>>
    decreases strips.len(),
{
    if strips.len() == 0 {
        Multiset::empty()
    } else {
        held_by_strips(strips.drop_last()).add(held_by_strip(strips.last()))
    }
}

/// The clips of a mixer.
pub open spec fn held(mixer: MixerView) -> Multiset<Arc<AudioClip>> {
    held_by_strips(mixer.strips)
}

proof fn lemma_shift(
    a: Multiset<Arc<AudioClip>>,
    b: Multiset<Arc<AudioClip>>,
    c: Multiset<Arc<AudioClip>>,
    d: Multiset<Arc<AudioClip>>,
    more: Multiset<Arc<AudioClip>>,
)
    requires
        a.add(b) == c.add(d),
    ensures
        a.add(more).add(b) == c.add(more).add(d),
{
    assert forall|x: Arc<AudioClip>| #[trigger]
        a.add(more).add(b).count(x) == c.add(more).add(d).count(x) by {
        assert(a.add(b).count(x) == a.count(x) + b.count(x));
        assert(c.add(d).count(x) == c.count(x) + d.count(x));
        assert(a.add(more).count(x) == a.count(x) + more.count(x));
        assert(c.add(more).count(x) == c.count(x) + more.count(x));
    }
    assert(a.add(more).add(b) =~= c.add(more).add(d));
}

proof fn lemma_slot_update(slots: Seq<Option<TimelineClip>>, i: int, new: Option<TimelineClip>)
    requires
        0 <= i < slots.len(),
    ensures
        held_by_slots(slots.update(i, new)).add(held_by_slot(slots[i])) == held_by_slots(
            slots,
        ).add(held_by_slot(new)),
    decreases slots.len(),
{
    let rest = slots.drop_last();
    let after = slots.update(i, new);
    if i == slots.len() - 1 {
        assert(after.drop_last() =~= rest);
    } else {
        assert(after.drop_last() =~= rest.update(i, new));
        assert(after.last() == slots.last());
        lemma_slot_update(rest, i, new);
        lemma_shift(
            held_by_slots(rest.update(i, new)),
            held_by_slot(slots[i]),
            held_by_slots(rest),
            held_by_slot(new),
            held_by_slot(slots.last()),
        );
    }
    assert(held_by_slots(after).add(held_by_slot(slots[i])) =~= held_by_slots(slots).add(
        held_by_slot(new),
    ));
}

proof fn lemma_strip_update(strips: Seq<StripView>, t: int, new: StripView)
    requires
        0 <= t < strips.len(),
    ensures
        held_by_strips(strips.update(t, new)).add(held_by_strip(strips[t])) == held_by_strips(
            strips,
        ).add(held_by_strip(new)),
    decreases strips.len(),
{
    let rest = strips.drop_last();
    let after = strips.update(t, new);
    if t == strips.len() - 1 {
        assert(after.drop_last() =~= rest);
    } else {
        assert(after.drop_last() =~= rest.update(t, new));
        assert(after.last() == strips.last());
        lemma_strip_update(rest, t, new);
        lemma_shift(
            held_by_strips(rest.update(t, new)),
            held_by_strip(strips[t]),
            held_by_strips(rest),
            held_by_strip(new),
            held_by_strip(strips.last()),
        );
    }
    assert(held_by_strips(after).add(held_by_strip(strips[t])) =~= held_by_strips(strips).add(
        held_by_strip(new),
    ));
}

proof fn lemma_placed(slots: Seq<Option<TimelineClip>>)
    ensures
        crate::audio::sources(crate::sampler::placed(slots)).to_multiset() == held_by_slots(slots),
    decreases slots.len(),
{
    broadcast use vstd::seq_lib::group_to_multiset_ensures;

    let placed = crate::sampler::placed(slots);
    if slots.len() == 0 {
        assert(crate::audio::sources(placed) =~= Seq::empty());
        assert(crate::audio::sources(placed).to_multiset() =~= Multiset::empty());
    } else {
        let rest = crate::sampler::placed(slots.drop_last());
        lemma_placed(slots.drop_last());
        if let Some(tc) = slots.last() {
            assert(crate::audio::sources(placed) =~= crate::audio::sources(rest).push(tc.clip));
        }
        assert(crate::audio::sources(placed).to_multiset() =~= held_by_slots(slots));
    }
}

proof fn lemma_empty_slots(slots: Seq<Option<TimelineClip>>)
    requires
        forall|i: int| 0 <= i < slots.len() ==> #[trigger] slots[i] is None,
    ensures
        held_by_slots(slots) == Multiset::<Arc<AudioClip>>::empty(),
    decreases slots.len(),
{
    if slots.len() > 0 {
        lemma_empty_slots(slots.drop_last());
        assert(held_by_slots(slots) =~= Multiset::empty());
    }
}

proof fn lemma_single(clip: Arc<AudioClip>)
    ensures
        seq![clip].to_multiset() == Multiset::singleton(clip),
{
    broadcast use vstd::seq_lib::group_to_multiset_ensures;

    let empty = Seq::<Arc<AudioClip>>::empty();
    assert(seq![clip] =~= empty.push(clip));
    assert(empty.to_multiset() =~= Multiset::empty());
    assert(seq![clip].to_multiset() =~= Multiset::singleton(clip));
}

proof fn lemma_none()
    ensures
        Seq::<Arc<AudioClip>>::empty().to_multiset() == Multiset::<Arc<AudioClip>>::empty(),
{
    broadcast use vstd::seq_lib::group_to_multiset_ensures;

    assert(Seq::<Arc<AudioClip>>::empty().to_multiset() =~= Multiset::empty());
}

proof fn lemma_same_strips(a: Seq<StripView>, b: Seq<StripView>)
    requires
        a.len() == b.len(),
        forall|t: int|
            0 <= t < a.len() ==> held_by_strip(#[trigger] a[t]) == held_by_strip(b[t]),
    ensures
        held_by_strips(a) == held_by_strips(b),
    decreases a.len(),
{
    if a.len() > 0 {
        lemma_same_strips(a.drop_last(), b.drop_last());
        assert(held_by_strip(a[a.len() - 1]) == held_by_strip(b[b.len() - 1]));
    }
}

proof fn lemma_edit(
    slots: Seq<Option<TimelineClip>>,
    slot: int,
    edit: spec_fn(TimelineClip) -> TimelineClip,
)
    requires
        forall|tc: TimelineClip| #[trigger] edit(tc).clip == tc.clip,
    ensures
        held_by_slots(crate::sampler::Sampler::edited(slots, slot, edit)) == held_by_slots(slots),
{
    if 0 <= slot < slots.len() && slots[slot] is Some {
        let new = Some(edit(slots[slot]->0));
        lemma_slot_update(slots, slot, new);
        let after = held_by_slots(slots.update(slot, new));
        let one = held_by_slot(new);
        assert(one == held_by_slot(slots[slot]));
        assert forall|x: Arc<AudioClip>| #[trigger] after.count(x) == held_by_slots(slots).count(
            x,
        ) by {
            assert(after.add(one).count(x) == held_by_slots(slots).add(one).count(x));
        }
        assert(after =~= held_by_slots(slots));
    }
}

/// A command neither loses nor makes up a clip: what the mixer held before it is what it holds
/// after it together with what was displaced.
pub proof fn commands_keep_every_clip(mixer: MixerView, cmd: Command)
    ensures
        held(mixer) == held(crate::audio::applied(mixer, cmd)).add(
            crate::audio::displaced_by(mixer, cmd).to_multiset(),
        ),
{
    let after = crate::audio::applied(mixer, cmd);
    let displaced = crate::audio::displaced_by(mixer, cmd);
    lemma_none();
    match cmd {
        Command::ClearTrack(t) => {
            if t < mixer.strips.len() {
                let strip = mixer.strips[t as int];
                let fresh = StripView::fresh(strip.player.device_rate, strip.chain.setup);
                lemma_strip_update(mixer.strips, t as int, fresh);
                lemma_empty_slots(fresh.slots);
                lemma_placed(strip.slots);
                let first = crate::audio::as_seq(strip.player.clip);
                let rest = crate::audio::sources(crate::sampler::placed(strip.slots));
                vstd::seq_lib::lemma_multiset_commutative(first, rest);
                if let Some(clip) = strip.player.clip {
                    lemma_single(clip);
                }
                assert(displaced.to_multiset() == held_by_strip(strip));
                assert(held_by_strip(fresh) =~= Multiset::empty());
                assert(held(mixer) =~= held(mixer).add(held_by_strip(fresh)));
            } else {
                assert(held(mixer) =~= held(mixer).add(Multiset::empty()));
            }
        },
        Command::RemoveClip(t, slot) => {
            if t < mixer.strips.len() && slot < mixer.strips[t as int].slots.len() {
                lemma_slot_change(mixer, t as int, slot as int, None);
                if let Some(tc) = mixer.clip_at(t as int, slot as int) {
                    lemma_single(tc.clip);
                }
                assert(held(mixer) =~= held(mixer).add(held_by_slot(None)));
            } else {
                assert(after.strips =~= mixer.strips);
                assert(held(mixer) =~= held(mixer).add(Multiset::empty()));
            }
        },
        _ => {
            assert forall|t: int| 0 <= t < mixer.strips.len() implies held_by_strip(
                #[trigger] after.strips[t],
            ) == held_by_strip(mixer.strips[t]) by {
                lemma_handled_strip(mixer, cmd, t);
            }
            lemma_same_strips(after.strips, mixer.strips);
            assert(held(mixer) =~= held(mixer).add(Multiset::empty()));
        },
    }
}

proof fn lemma_handled_strip(mixer: MixerView, cmd: Command, t: int)
    requires
        0 <= t < mixer.strips.len(),
    ensures
        mixer.handled(cmd).strips.len() == mixer.strips.len(),
        held_by_strip(mixer.handled(cmd).strips[t]) == held_by_strip(mixer.strips[t]),
{
    let slots = mixer.strips[t].slots;
    match cmd {
        Command::MoveClip(u, slot, start_frame) => {
            lemma_edit(
                slots,
                slot as int,
                |tc: TimelineClip| (TimelineClip { start_frame, ..tc }),
            );
        },
        Command::ResizeClip(u, slot, length_frames) => {
            lemma_edit(
                slots,
                slot as int,
                |tc: TimelineClip| (TimelineClip { length_frames, ..tc }),
            );
        },
        Command::SetClipSourceOffset(u, slot, source_offset_frames) => {
            lemma_edit(
                slots,
                slot as int,
                |tc: TimelineClip| (TimelineClip { source_offset_frames, ..tc }),
            );
        },
        _ => {},
    }
}

proof fn lemma_slot_change(mixer: MixerView, t: int, slot: int, new: Option<TimelineClip>)
    requires
        0 <= t < mixer.strips.len(),
        0 <= slot < mixer.strips[t].slots.len(),
    ensures
        held(mixer.with_slot(t, slot, new)).add(held_by_slot(mixer.clip_at(t, slot))) == held(
            mixer,
        ).add(held_by_slot(new)),
{
    let strip = mixer.strips[t];
    let changed = StripView { slots: strip.slots.update(slot, new), ..strip };
    let after = mixer.with_slot(t, slot, new);
    assert(after.strips =~= mixer.strips.update(t, changed));
    lemma_slot_update(strip.slots, slot, new);
    lemma_strip_update(mixer.strips, t, changed);
    let gone = held_by_slot(strip.slots[slot]);
    let come = held_by_slot(new);
    assert forall|x: Arc<AudioClip>| #[trigger]
        held(after).add(gone).count(x) == held(mixer).add(come).count(x) by {
        assert(held_by_slots(changed.slots).add(gone).count(x) == held_by_slots(strip.slots).add(
            come,
        ).count(x));
        assert(held_by_strips(after.strips).add(held_by_strip(strip)).count(x) == held_by_strips(
            mixer.strips,
        ).add(held_by_strip(changed)).count(x));
    }
    assert(held(after).add(gone) =~= held(mixer).add(come));
}

proof fn lemma_player_change(mixer: MixerView, t: int, clip: Arc<AudioClip>)
    requires
        0 <= t < mixer.strips.len(),
    ensures
        held(mixer.loaded(t, clip)).add(held_by_player(mixer.strips[t].player.clip)) == held(
            mixer,
        ).add(Multiset::singleton(clip)),
{
    let strip = mixer.strips[t];
    let after = mixer.loaded(t, clip);
    let changed = after.strips[t];
    assert(after.strips =~= mixer.strips.update(t, changed));
    lemma_strip_update(mixer.strips, t, changed);
    let gone = held_by_player(strip.player.clip);
    let come = Multiset::singleton(clip);
    assert forall|x: Arc<AudioClip>| #[trigger]
        held(after).add(gone).count(x) == held(mixer).add(come).count(x) by {
        assert(held_by_strips(after.strips).add(held_by_strip(strip)).count(x) == held_by_strips(
            mixer.strips,
        ).add(held_by_strip(changed)).count(x));
    }
    assert(held(after).add(gone) =~= held(mixer).add(come));
}

/// An arriving clip is kept or sent back, and so is every clip that was there before: what the
/// mixer held together with the arrival is what it holds afterwards together with what was
/// displaced.
pub proof fn arrivals_keep_every_clip(mixer: MixerView, arrival: TrackedClip)
    ensures
        held(mixer).add(Multiset::singleton(arrival.clip)) == held(
            crate::audio::installed(mixer, arrival),
        ).add(crate::audio::displaced_by_clip(mixer, arrival).to_multiset()),
{
    lemma_none();
    lemma_single(arrival.clip);
    if crate::audio::welcome(mixer, arrival) {
        let t = arrival.track as int;
        match arrival.placement {
            None => {
                lemma_player_change(mixer, t, arrival.clip);
                if let Some(clip) = mixer.strips[t].player.clip {
                    lemma_single(clip);
                }
            },
            Some(at) => {
                let new = Some(crate::mixer::placed_clip(arrival.clip, at));
                lemma_slot_change(mixer, t, at.slot as int, new);
                if let Some(tc) = mixer.clip_at(t, at.slot as int) {
                    lemma_single(tc.clip);
                }
            },
        }
    }
}

/// The clips of arrivals.
pub open spec fn arriving(clips: Seq<TrackedClip>) -> Seq<Arc<AudioClip>> {
    clips.map_values(|c: TrackedClip| c.clip)
}

proof fn lemma_all_commands(mixer: MixerView, cmds: Seq<Command>)
    ensures
        held(mixer) == held(crate::audio::applied_all(mixer, cmds)).add(
            crate::audio::displaced_by_all(mixer, cmds).to_multiset(),
        ),
    decreases cmds.len(),
{
    lemma_none();
    if cmds.len() == 0 {
        assert(held(mixer).add(Multiset::empty()) =~= held(mixer));
    } else {
        let rest = cmds.drop_last();
        let mid = crate::audio::applied_all(mixer, rest);
        let last = crate::audio::displaced_by(mid, cmds.last());
        let earlier = crate::audio::displaced_by_all(mixer, rest);
        lemma_all_commands(mixer, rest);
        commands_keep_every_clip(mid, cmds.last());
        vstd::seq_lib::lemma_multiset_commutative(earlier, last);
        let after = held(crate::audio::applied_all(mixer, cmds));
        assert(after.add(last.to_multiset()).add(earlier.to_multiset()) =~= after.add(
            earlier.to_multiset().add(last.to_multiset()),
        ));
    }
}

proof fn lemma_all_arrivals(mixer: MixerView, clips: Seq<TrackedClip>)
    ensures
        held(mixer).add(arriving(clips).to_multiset()) == held(
            crate::audio::installed_all(mixer, clips),
        ).add(crate::audio::displaced_by_clips(mixer, clips).to_multiset()),
    decreases clips.len(),
{
    lemma_none();
    if clips.len() == 0 {
        assert(arriving(clips) =~= Seq::empty());
    } else {
        let rest = clips.drop_last();
        let mid = crate::audio::installed_all(mixer, rest);
        let last = crate::audio::displaced_by_clip(mid, clips.last());
        let earlier = crate::audio::displaced_by_clips(mixer, rest);
        let one = seq![clips.last().clip];
        lemma_all_arrivals(mixer, rest);
        arrivals_keep_every_clip(mid, clips.last());
        lemma_single(clips.last().clip);
        vstd::seq_lib::lemma_multiset_commutative(earlier, last);
        vstd::seq_lib::lemma_multiset_commutative(arriving(rest), one);
        assert(arriving(clips) =~= arriving(rest) + one);
        let before = held(mixer);
        let after = held(crate::audio::installed_all(mixer, clips));
        let come = Multiset::singleton(clips.last().clip);
        assert forall|x: Arc<AudioClip>| #[trigger]
            before.add(arriving(clips).to_multiset()).count(x) == after.add(
                (earlier + last).to_multiset(),
            ).count(x) by {
            assert(before.add(arriving(rest).to_multiset()).count(x) == held(mid).add(
                earlier.to_multiset(),
            ).count(x));
            assert(held(mid).add(come).count(x) == after.add(last.to_multiset()).count(x));
        }
        assert(before.add(arriving(clips).to_multiset()) =~= after.add(
            (earlier + last).to_multiset(),
        ));
    }
}

/// Whatever commands and clips are waiting, servicing them loses no clip and makes none up: what
/// the mixer held together with what arrived is what it holds afterwards together with what is
/// retired.
pub proof fn service_keeps_every_clip(
    mixer: MixerView,
    cmds: Seq<Command>,
    clips: Seq<TrackedClip>,
)
    ensures
        held(mixer).add(arriving(clips).to_multiset()) == held(
            crate::audio::serviced(mixer, cmds, clips),
        ).add(crate::audio::displaced_by_service(mixer, cmds, clips).to_multiset()),
{
    let mid = crate::audio::applied_all(mixer, cmds);
    let first = crate::audio::displaced_by_all(mixer, cmds);
    let second = crate::audio::displaced_by_clips(mid, clips);
    lemma_all_commands(mixer, cmds);
    lemma_all_arrivals(mid, clips);
    vstd::seq_lib::lemma_multiset_commutative(first, second);
    let after = held(crate::audio::serviced(mixer, cmds, clips));
    assert forall|x: Arc<AudioClip>| #[trigger]
        held(mixer).add(arriving(clips).to_multiset()).count(x) == after.add(
            (first + second).to_multiset(),
        ).count(x) by {
        assert(held(mid).add(arriving(clips).to_multiset()).count(x) == after.add(
            second.to_multiset(),
        ).count(x));
    }
    assert(held(mixer).add(arriving(clips).to_multiset()) =~= after.add(
        (first + second).to_multiset(),
    ));
}

/// Whatever is waiting, one service never displaces more clips than the retirement ring has room
/// for: an empty ring takes all of them, and none is leaked.
pub proof fn one_service_fits_the_ring(
    mixer: MixerView,
    cmds: Seq<Command>,
    clips: Seq<TrackedClip>,
)
    requires
        mixer.strips.len() == MAX_TRACKS,
        forall|t: int|
            0 <= t < mixer.strips.len() ==> (#[trigger] mixer.strips[t]).slots.len()
                == MAX_CLIPS_PER_TRACK,
        clips.len() <= CLIP_RING_CAPACITY,
    ensures
        crate::audio::displaced_by_service(mixer, cmds, clips).len() <= RETIRE_RING_CAPACITY,
{
    let displaced = crate::audio::displaced_by_service(mixer, cmds, clips);
    let after = crate::audio::serviced(mixer, cmds, clips);
    service_keeps_every_clip(mixer, cmds, clips);
    lemma_strips_hold(mixer.strips);
    displaced.to_multiset_ensures();
    arriving(clips).to_multiset_ensures();
    assert(held(mixer).add(arriving(clips).to_multiset()).len() == held(mixer).len()
        + arriving(clips).to_multiset().len());
    assert(held(after).add(displaced.to_multiset()).len() == held(after).len()
        + displaced.to_multiset().len());
}

proof fn lemma_slots_hold(slots: Seq<Option<TimelineClip>>)
    ensures
        held_by_slots(slots).len() <= slots.len(),
    decreases slots.len(),
{
    if slots.len() > 0 {
        lemma_slots_hold(slots.drop_last());
    }
}

proof fn lemma_strips_hold(strips: Seq<StripView>)
    requires
        forall|t: int|
            0 <= t < strips.len() ==> (#[trigger] strips[t]).slots.len() == MAX_CLIPS_PER_TRACK,
    ensures
        held_by_strips(strips).len() <= strips.len() * (MAX_CLIPS_PER_TRACK + 1),
    decreases strips.len(),
{
    if strips.len() > 0 {
        lemma_strips_hold(strips.drop_last());
        lemma_slots_hold(strips.last().slots);
    }
}

/// Commands may arrive in pieces: following some, and later the rest, is following all of them.
pub proof fn commands_may_arrive_in_pieces(mixer: MixerView, some: Seq<Command>, rest: Seq<Command>)
    ensures
        crate::audio::applied_all(crate::audio::applied_all(mixer, some), rest)
            == crate::audio::applied_all(mixer, some + rest),
    decreases rest.len(),
{
    if rest.len() == 0 {
        assert(some + rest =~= some);
    } else {
        commands_may_arrive_in_pieces(mixer, some, rest.drop_last());
        assert((some + rest).drop_last() =~= some + rest.drop_last());
        assert((some + rest).last() == rest.last());
    }
}

} // verus!
