//! [`Strip`]: one track of the mixer, with its sources, its processing chain and its meter.

use std::sync::Arc;

use vstd::prelude::*;
use crate::clip::AudioClip;
use crate::commands::Command;
use crate::dsp::chain::{Chain, ChainSetup, ChainView};
use crate::player::{Tap, WavPlayer};
use crate::sampler::{Sampler, Span, TimelineClip};
use crate::single::Single;

verus! {

/// The largest block, in frames, that a strip renders at once.
pub const MAX_BLOCK: usize = 4096;

/// One track.
pub struct Strip {
    /// The clip that plays from the start of the transport.
    pub player: WavPlayer,
    /// The clips that have a place on the timeline.
    pub timeline: Sampler,
    pub chain: Chain,
    /// The level after the chain, held up by peaks and falling slowly.
    pub peak_l: Single,
    pub peak_r: Single,
}

/// The state of a track.
#[verifier::ext_equal]
pub struct StripView {
    pub player: WavPlayer,
    pub slots: Seq<Option<TimelineClip>>,
    pub chain: ChainView,
    pub peak_l: Single,
    pub peak_r: Single,
}

impl View for Strip {
    type V = StripView;

    open spec fn view(&self) -> StripView {
        StripView {
            player: self.player,
            slots: self.timeline.slots@,
            chain: self.chain@,
            peak_l: self.peak_l,
            peak_r: self.peak_r,
        }
    }
}

impl StripView {
    /// A track as it is built: no clips, a transparent chain, a meter at zero.
    pub open spec fn fresh(device_rate: u32, setup: ChainSetup) -> StripView {
        StripView {
            player: WavPlayer::fresh(device_rate),
            slots: Sampler::empty_slots(),
            chain: ChainView::fresh(setup),
            peak_l: Single::of(0),
            peak_r: Single::of(0),
        }
    }

    /// The track after a transport command.
    pub open spec fn handled(self, cmd: Command) -> StripView {
        StripView { player: self.player.handled(cmd), ..self }
    }
}

/// The level of a meter after a sample: it jumps to a louder one at once, and falls otherwise.
/// `decayed` is what is left of the level by then.
pub open spec fn metered(decayed: Single, sample: Single) -> Single {
    decayed.larger(sample.unsigned())
}

impl Strip {
    /// What every track satisfies.
    pub open spec fn wf(self) -> bool {
        &&& self.player.wf()
        &&& self.timeline.wf()
        &&& self.timeline.device_rate == self.player.device_rate
    }

    /// A track as it is built, for a device of the given rate.
    pub fn new(device_rate: u32, setup: ChainSetup) -> (r: Self)
        ensures
            r.wf(),
            r@ == StripView::fresh(device_rate, setup),
    {
        Strip {
            player: WavPlayer::new(device_rate),
            timeline: Sampler::new(device_rate),
            chain: Chain::new(setup),
            peak_l: Single::zero(),
            peak_r: Single::zero(),
        }
    }

    /// Follow a transport command.
    pub fn handle_transport(&mut self, cmd: Command)
        requires
            old(self).wf(),
        ensures
            final(self).wf(),
            final(self)@ == old(self)@.handled(cmd),
    {
        self.player.handle(cmd);
    }

    /// Load a clip into the player. The clip that was there is handed back and not freed.
    pub fn set_clip(&mut self, clip: Arc<AudioClip>) -> (r: Option<Arc<AudioClip>>)
        requires
            old(self).wf(),
            clip.wf(),
        ensures
            final(self).wf(),
            r == old(self)@.player.clip,
            final(self)@ == (StripView {
                player: WavPlayer {
                    clip: Some(clip),
                    pos: 0,
                    playing: false,
                    ..old(self)@.player
                },
                ..old(self)@
            }),
    {
        self.player.set_clip(clip)
    }

    /// Go back to the state the track was built in. The clip of the player is handed back, and
    /// those of the timeline are put into `out`; none is freed.
    pub fn clear(&mut self, out: &mut [Option<TimelineClip>]) -> (r: Option<Arc<AudioClip>>)
        requires
            old(self).wf(),
            old(out)@.len() >= crate::sampler::MAX_CLIPS_PER_TRACK,
        ensures
            final(self).wf(),
            r == old(self)@.player.clip,
            final(self)@ == StripView::fresh(
                old(self)@.player.device_rate,
                old(self)@.chain.setup,
            ),
            final(out)@.len() == old(out)@.len(),
            forall|i: int|
                0 <= i < final(out)@.len() ==> #[trigger] final(out)@[i] == (if i
                    < crate::sampler::placed(old(self)@.slots).len() {
                    Some(crate::sampler::placed(old(self)@.slots)[i])
                } else {
                    old(out)@[i]
                }),
    {
        let ghost slots = self.timeline.slots@;
        let ghost room = out@.len() as int;
        let displaced = self.player.clear();
        self.timeline.clear_all_into(out);
        self.chain.reset();
        self.peak_l = Single::zero();
        self.peak_r = Single::zero();
        proof {
            assert forall|i: int| 0 <= i < slots.len() implies self.timeline.slots@[i] is None by {
                crate::sampler::clearing_is_complete(slots, room, i);
            }
            assert(self.timeline.slots@ =~= Sampler::empty_slots());
        }
        displaced
    }

    /// The position of the player in whole clip frames.
    pub fn pos_frames(&self) -> (r: i64)
        requires
            self.wf(),
        ensures
            r == self@.player.whole_frames(),
    {
        self.player.pos_frames()
    }

    /// Whether the player advances.
    pub fn is_playing(&self) -> (r: bool)
        ensures
            r == self@.player.playing,
    {
        self.player.is_playing()
    }

    /// The level of the left channel.
    pub fn peak_left(&self) -> (r: Single)
        ensures
            r == self@.peak_l,
    {
        self.peak_l
    }

    /// The level of the right channel.
    pub fn peak_right(&self) -> (r: Single)
        ensures
            r == self@.peak_r,
    {
        self.peak_r
    }

    /// Say where the sources are read for a block of `taps.len()` frames, and move past it: `taps`
    /// for the player, and `spans` for the timeline, whose first frame is `playhead`. A timeline
    /// that does not roll is silent.
    pub fn plan_block(
        &mut self,
        playhead: i64,
        rolling: bool,
        taps: &mut [Tap],
        spans: &mut Vec<Span>,
    )
        requires
            old(self).wf(),
            old(taps)@.len() <= MAX_BLOCK,
        ensures
            final(self).wf(),
            final(self)@ == (StripView {
                player: old(self)@.player.after(old(taps)@.len()),
                ..old(self)@
            }),
            final(taps)@.len() == old(taps)@.len(),
            forall|i: int|
                0 <= i < final(taps)@.len() ==> #[trigger] final(taps)@[i]
                    == old(self)@.player.after(i as nat).tap(),
            rolling ==> crate::sampler::answers(
                old(self)@.slots,
                old(self)@.player.device_rate as int,
                playhead as int,
                old(taps)@.len() as int,
                final(spans)@,
            ),
            !rolling ==> final(spans)@.len() == 0,
    {
        let frames: usize = taps.len();
        proof {
            crate::player::taps_lie_inside(self.player, frames as nat);
        }
        self.player.render(taps);
        if rolling {
            self.timeline.render(playhead, frames, spans);
        } else {
            spans.clear();
        }
    }

    /// Meter one frame after the chain. `decayed_l` and `decayed_r` are the levels after the
    /// release of one frame.
    pub fn meter(&mut self, decayed_l: Single, decayed_r: Single, l: Single, r: Single)
        requires
            old(self).wf(),
        ensures
            final(self).wf(),
            final(self)@ == (StripView {
                peak_l: metered(decayed_l, l),
                peak_r: metered(decayed_r, r),
                ..old(self)@
            }),
    {
        self.peak_l = decayed_l.max(l.abs());
        self.peak_r = decayed_r.max(r.abs());
    }
}

/// A meter never reads below the sample it has just seen, nor below what was left of the level.
pub proof fn meters_attack_at_once(decayed: Single, sample: Single)
    ensures
        !sample.nan() ==> sample.unsigned().at_most(metered(decayed, sample)),
        !decayed.nan() ==> decayed.at_most(metered(decayed, sample)),
        metered(decayed, sample) == decayed || metered(decayed, sample) == sample.unsigned(),
{
}

} // verus!
