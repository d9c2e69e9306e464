//! Playback pipeline: one chat message in, an ordered sequence of playable
//! clips out.
//!
//! The message is segmented, then every segment is resolved in order: text
//! through the synthesis cache, URL markers through the fixed clip of the
//! sound store, soundboard references through the external resolver. A
//! segment whose resolution fails is skipped and never stops the rest. The
//! contract carries a ghost transcript with one entry per segment, so the
//! output is exactly the sequence of successful resolutions, in segment
//! order.

use vstd::prelude::*;

use crate::cache::{lookup, AudioCache, AudioData, CacheKey, KeyModel, Synthesizer};
use crate::segment::{seg_models, segment, spec_segments, SegModel, Segment};
use crate::sounds::{SoundResolver, SoundStore};

verus! {

/// The name of the clip played in place of a URL.
pub open spec fn spec_url_sound_name() -> Seq<char> {
    "URL"@
}

/// The name of the clip played in place of a URL.
pub fn url_sound_name() -> (r: &'static str)
    ensures
        r@ == spec_url_sound_name(),
{
    "URL"
}

/// What may stand in the transcript for one segment, judged against the cache
/// contents and sound store from before the message: a cached text resolves
/// to its cached bytes, a URL marker to the fixed clip exactly when the store
/// has it; an uncached text or a soundboard reference is up to the external
/// collaborator.
pub open spec fn outcome_ok(
    cache0: Seq<(CacheKey, AudioData)>,
    sounds: Map<Seq<char>, AudioData>,
    speaker: u64,
    speed: u32,
    seg: SegModel,
    oc: Option<Seq<u8>>,
) -> bool {
    match seg {
        SegModel::Text(t) => match lookup(cache0, KeyModel { speaker, speed, text: t }) {
            Some(bytes) => oc == Some(bytes),
            None => true,
        },
        SegModel::Url => if sounds.contains_key(spec_url_sound_name()) {
            oc == Some(sounds[spec_url_sound_name()]@)
        } else {
            oc is None
        },
        SegModel::Sound { .. } => true,
    }
}

/// The successful entries of a transcript, in order.
pub open spec fn collect_somes(oc: Seq<Option<Seq<u8>>>) -> Seq<Seq<u8>>
    decreases oc.len(),
{
    if oc.len() == 0 {
        Seq::empty()
    } else {
        let rest = collect_somes(oc.drop_last());
        match oc.last() {
            Some(b) => rest.push(b),
            None => rest,
        }
    }
}

/// The byte views of a sequence of clips.
pub open spec fn audio_views(v: Seq<AudioData>) -> Seq<Seq<u8>> {
    v.map_values(|d: AudioData| d@)
}

proof fn lemma_collect_push(oc: Seq<Option<Seq<u8>>>, x: Option<Seq<u8>>)
    ensures
        collect_somes(oc.push(x)) == (match x {
            Some(b) => collect_somes(oc).push(b),
            None => collect_somes(oc),
        }),
{
    assert(oc.push(x).drop_last() =~= oc);
}

proof fn lemma_audio_views_push(v: Seq<AudioData>, d: AudioData)
    ensures
        audio_views(v.push(d)) == audio_views(v).push(d@),
{
    assert(audio_views(v.push(d)) =~= audio_views(v).push(d@));
}

/// Turn one message into the ordered clips to enqueue. The second component
/// is a ghost transcript with one outcome per segment: the clips returned are
/// exactly its successes, in segment order, and every outcome is admissible
/// against the caches as they stood before the call. Keys already cached keep
/// their bytes.
pub fn handle_message<S: Synthesizer, R: SoundResolver>(
    cache: &mut AudioCache,
    sounds: &SoundStore,
    synth: &mut S,
    resolver: &mut R,
    text: &str,
    speaker: u64,
    speed: u32,
) -> (r: (Vec<AudioData>, Ghost<Seq<Option<Seq<u8>>>>))
    ensures
        r.1@.len() == spec_segments(text@).len(),
        forall|j: int|
            0 <= j < r.1@.len() ==> outcome_ok(
                old(cache).entries@,
                sounds@,
                speaker,
                speed,
                spec_segments(text@)[j],
                #[trigger] r.1@[j],
            ),
        audio_views(r.0@) == collect_somes(r.1@),
        forall|k: KeyModel|
            old(cache).spec_lookup(k) is Some ==> #[trigger] final(cache).spec_lookup(k) == old(
                cache,
            ).spec_lookup(k),
{
    let segs = segment(text);
    let ghost models = spec_segments(text@);
    let ghost cache0 = old(cache).entries@;
    let mut out: Vec<AudioData> = Vec::new();
    let ghost mut oc: Seq<Option<Seq<u8>>> = Seq::empty();
    let mut j: usize = 0;
    while j < segs.len()
        invariant
            j <= segs.len(),
            seg_models(segs@) == models,
            models == spec_segments(text@),
            cache0 == old(cache).entries@,
            oc.len() == j,
            forall|jj: int|
                0 <= jj < j ==> outcome_ok(
                    cache0,
                    sounds@,
                    speaker,
                    speed,
                    models[jj],
                    #[trigger] oc[jj],
                ),
            audio_views(out@) == collect_somes(oc),
            forall|k: KeyModel|
                lookup(cache0, k) is Some ==> #[trigger] cache.spec_lookup(k) == lookup(cache0, k),
        decreases segs.len() - j,
    {
        let ghost oc0 = oc;
        let ghost out0 = out@;
        let ghost m = models[j as int];
        assert(m == segs@[j as int]@);
        let outcome: Option<AudioData> = match &segs[j] {
            Segment::Text(t) => {
                let key = CacheKey { speaker, speed, text: t.clone() };
                let ghost kv = key@;
                let ghost pre = *cache;
                let got = cache.get_or_synthesize(key, synth);
                proof {
                    assert(kv == (KeyModel { speaker, speed, text: m->Text_0 }));
                    if lookup(cache0, kv) is Some {
                        assert(pre.spec_lookup(kv) == lookup(cache0, kv));
                    }
                    assert forall|k: KeyModel| lookup(cache0, k) is Some implies #[trigger] cache
                        .spec_lookup(k) == lookup(cache0, k) by {
                        if k != kv {
                            assert(cache.spec_lookup(k) == pre.spec_lookup(k));
                        }
                    }
                }
                match got {
                    Ok(d) => Some(d),
                    Err(_) => None,
                }
            },
            Segment::UrlMarker => sounds.get(url_sound_name()),
            Segment::SoundboardRef { sound_id, guild_id } => resolver.resolve(
                *sound_id,
                *guild_id,
            ),
        };
        match outcome {
            Some(d) => {
                proof {
                    oc = oc.push(Some(d@));
                    lemma_collect_push(oc0, Some(d@));
                    lemma_audio_views_push(out0, d);
                }
                out.push(d);
            },
            None => {
                proof {
                    oc = oc.push(None);
                    lemma_collect_push(oc0, None);
                }
            },
        }
        assert(outcome_ok(cache0, sounds@, speaker, speed, m, oc[j as int]));
        j = j + 1;
    }
    proof {
        assert(oc.len() == models.len());
    }
    (out, Ghost(oc))
}

} // verus!
