//! Inbound-event handler: owns the shared state of the relay and carries one
//! chat message through the rate limiter and the playback pipeline, routed by
//! the group's voice connection.

use vstd::prelude::*;

use crate::cache::{AudioCache, AudioData, KeyModel, Synthesizer};
use crate::connection::{find_group, ConnectionManager};
use crate::limiter::{limiter_step, RateLimiter};
use crate::pipeline::{audio_views, collect_somes, handle_message, outcome_ok};
use crate::segment::spec_segments;
use crate::sounds::{SoundResolver, SoundStore};
use crate::Millis;

verus! {

/// The handler of inbound chat events.
pub struct Handler {
    pub limiter: RateLimiter,
    pub cache: AudioCache,
    pub sounds: SoundStore,
    pub connections: ConnectionManager,
}

impl Handler {
    /// Relay one chat message from `user_id` in `group_id`, arriving at
    /// `now`. Nothing happens while the group has no voice connection or the
    /// user is rate limited (a policy rejection, not an error). Otherwise the
    /// message is segmented and resolved, and the clips to enqueue are
    /// returned together with the text channel routed to the connection and
    /// the ghost transcript of per-segment outcomes.
    pub fn message<S: Synthesizer, R: SoundResolver>(
        &mut self,
        group_id: u64,
        user_id: u64,
        now: Millis,
        text: &str,
        speaker: u64,
        speed: u32,
        synth: &mut S,
        resolver: &mut R,
    ) -> (r: Option<(u64, Vec<AudioData>, Ghost<Seq<Option<Seq<u8>>>>)>)
        requires
            old(self).limiter.wf(),
        ensures
            final(self).limiter.wf(),
            final(self).limiter.policy == old(self).limiter.policy,
            final(self).connections == old(self).connections,
            final(self).sounds == old(self).sounds,
            ({
                let pre = *old(self);
                let post = *final(self);
                let conn = find_group(pre.connections.groups@, group_id);
                let step = limiter_step(pre.limiter.policy, pre.limiter.user_model(user_id), now);
                match conn {
                    None => r is None && post.limiter == pre.limiter && post.cache.entries@
                        == pre.cache.entries@,
                    Some(c) => {
                        &&& post.limiter.user_model(user_id) == step.state
                        &&& forall|u: u64|
                            u != user_id ==> post.limiter.user_model(u) == pre.limiter.user_model(u)
                        &&& (!step.admitted ==> r is None && post.cache.entries@
                            == pre.cache.entries@)
                        &&& (step.admitted ==> match r {
                            Some(out) => {
                                &&& out.0 == c.text_channel
                                &&& out.2@.len() == spec_segments(text@).len()
                                &&& (forall|j: int|
                                    0 <= j < out.2@.len() ==> outcome_ok(
                                        pre.cache.entries@,
                                        pre.sounds@,
                                        speaker,
                                        speed,
                                        spec_segments(text@)[j],
                                        #[trigger] out.2@[j],
                                    ))
                                &&& audio_views(out.1@) == collect_somes(out.2@)
                                &&& (forall|k: KeyModel|
                                    pre.cache.spec_lookup(k) is Some
                                        ==> #[trigger] post.cache.spec_lookup(k)
                                        == pre.cache.spec_lookup(k))
                            },
                            None => false,
                        })
                    },
                }
            }),
    {
        let route = match self.connections.find(group_id) {
            Some(c) => c.text_channel,
            None => {
                return None;
            },
        };
        let admitted = self.limiter.check_rate_limit(user_id, now);
        if !admitted {
            return None;
        }
        let (clips, transcript) = handle_message(
            &mut self.cache,
            &self.sounds,
            synth,
            resolver,
            text,
            speaker,
            speed,
        );
        Some((route, clips, transcript))
    }
}

} // verus!
