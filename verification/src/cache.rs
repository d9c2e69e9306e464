//! Audio cache: maps a synthesis fingerprint to previously produced audio.
//!
//! A hit returns a fresh handle over the cached bytes without consulting the
//! synthesis backend; a miss calls the backend and caches the result only on
//! success. A small closed set of predefined utterances can be populated
//! eagerly at startup, one synthesis call per entry, with per-entry failure
//! containment.

use vstd::prelude::*;

verus! {

/// Why a synthesis call failed: the backend reported an error, or it did not
/// answer in time.
#[derive(Debug, Clone, Copy, PartialEq, Eq, Structural)]
pub enum SynthesisError {
    Backend,
    Timeout,
}

/// Mathematical model of a cache key.
pub ghost struct KeyModel {
    pub speaker: u64,
    pub speed: u32,
    pub text: Seq<char>,
}

/// Fingerprint of one synthesis request: speaker, speed (in hundredths of the
/// backend's speed unit), and the text to speak. Two fingerprints are equal
/// exactly when all three fields are.
pub struct CacheKey {
    pub speaker: u64,
    pub speed: u32,
    pub text: String,
}

impl View for CacheKey {
    type V = KeyModel;

    open spec fn view(&self) -> KeyModel {
        KeyModel { speaker: self.speaker, speed: self.speed, text: self.text@ }
    }
}

/// Synthesized audio, owned. A handle over it is an independent copy of the
/// bytes, so many listeners can play one cached clip concurrently.
#[derive(Debug, PartialEq, Eq)]
pub struct AudioData {
    pub bytes: Vec<u8>,
}

impl View for AudioData {
    type V = Seq<u8>;

    open spec fn view(&self) -> Seq<u8> {
        self.bytes@
    }
}

impl AudioData {
    /// A fresh, independent playback handle over the same bytes.
    pub fn handle(&self) -> (r: AudioData)
        ensures
            r@ == self@,
    {
        let mut bytes: Vec<u8> = Vec::new();
        let mut i: usize = 0;
        while i < self.bytes.len()
            invariant
                i <= self.bytes.len(),
                bytes@ == self.bytes@.subrange(0, i as int),
            decreases self.bytes.len() - i,
        {
            bytes.push(self.bytes[i]);
            proof {
                assert(self.bytes@.subrange(0, i + 1 as int) =~= self.bytes@.subrange(
                    0,
                    i as int,
                ).push(self.bytes@[i as int]));
            }
            i = i + 1;
        }
        proof {
            assert(self.bytes@.subrange(0, self.bytes@.len() as int) =~= self.bytes@);
        }
        AudioData { bytes }
    }
}

/// The synthesis backend: an external collaborator that turns text into audio
/// bytes for a speaker and speed, or fails. Nothing is assumed of its
/// behaviour; every caller states what holds whatever it returns.
pub trait Synthesizer {
    fn synthesize(&mut self, speaker: u64, speed: u32, text: &str) -> Result<
        Vec<u8>,
        SynthesisError,
    >;
}

// ---------------------------------------------------------------------------
// The cache
// ---------------------------------------------------------------------------

/// The bytes cached under `k`, if any; the latest insertion wins.
pub open spec fn lookup(entries: Seq<(CacheKey, AudioData)>, k: KeyModel) -> Option<Seq<u8>>
    decreases entries.len(),
{
    if entries.len() == 0 {
        None
    } else if entries.last().0@ == k {
        Some(entries.last().1@)
    } else {
        lookup(entries.drop_last(), k)
    }
}

/// Cache of synthesized audio, keyed by fingerprint. Entries are immutable
/// once inserted; only successful syntheses are inserted.
pub struct AudioCache {
    pub entries: Vec<(CacheKey, AudioData)>,
}

impl AudioCache {
    /// The bytes this cache holds for a key.
    pub open spec fn spec_lookup(self, k: KeyModel) -> Option<Seq<u8>> {
        lookup(self.entries@, k)
    }

    /// An empty cache.
    pub fn new() -> (r: AudioCache)
        ensures
            forall|k: KeyModel| r.spec_lookup(k) is None,
            r.entries@.len() == 0,
    {
        AudioCache { entries: Vec::new() }
    }

    /// A fresh handle over the bytes cached for `key`, if present.
    pub fn get(&self, key: &CacheKey) -> (r: Option<AudioData>)
        ensures
            match r {
                Some(d) => self.spec_lookup(key@) == Some(d@),
                None => self.spec_lookup(key@) is None,
            },
    {
        proof {
            assert(self.entries@.subrange(0, self.entries@.len() as int) =~= self.entries@);
        }
        let mut i: usize = self.entries.len();
        while i > 0
            invariant
                i <= self.entries.len(),
                lookup(self.entries@, key@) == lookup(self.entries@.subrange(0, i as int), key@),
            decreases i,
        {
            proof {
                assert(self.entries@.subrange(0, i as int).drop_last() =~= self.entries@.subrange(
                    0,
                    i - 1,
                ));
                assert(self.entries@.subrange(0, i as int).last() == self.entries@[i - 1]);
            }
            if keys_equal(&self.entries[i - 1].0, key) {
                return Some(self.entries[i - 1].1.handle());
            }
            i = i - 1;
        }
        None
    }

    /// Return a handle for `key`, synthesizing on a miss. On a hit the
    /// backend is left untouched and the cache unchanged; on a miss the
    /// result is cached only when synthesis succeeds, and no other key
    /// changes. Failures are never cached.
    pub fn get_or_synthesize<S: Synthesizer>(&mut self, key: CacheKey, synth: &mut S) -> (r: Result<
        AudioData,
        SynthesisError,
    >)
        ensures
            old(self).spec_lookup(key@) is Some ==> final(self).entries@ == old(self).entries@
                && *final(synth) == *old(synth) && match r {
                Ok(d) => old(self).spec_lookup(key@) == Some(d@),
                Err(_) => false,
            },
            old(self).spec_lookup(key@) is None && r is Ok ==> final(self).spec_lookup(key@)
                == Some(r->Ok_0@) && forall|k2: KeyModel|
                k2 != key@ ==> final(self).spec_lookup(k2) == old(self).spec_lookup(k2),
            old(self).spec_lookup(key@) is None && r is Err ==> final(self).entries@ == old(
                self,
            ).entries@,
    {
        let ghost kv = key@;
        match self.get(&key) {
            Some(d) => Ok(d),
            None => {
                match synth.synthesize(key.speaker, key.speed, key_text(&key)) {
                    Ok(bytes) => {
                        let data = AudioData { bytes };
                        let out = data.handle();
                        self.entries.push((key, data));
                        proof {
                            assert(self.entries@.drop_last() =~= old(self).entries@);
                            assert(self.entries@.last().0@ == kv);
                            assert(self.spec_lookup(kv) == Some(out@));
                        }
                        Ok(out)
                    },
                    Err(e) => Err(e),
                }
            },
        }
    }
}

/// The text field of a key, borrowed.
fn key_text<'a>(key: &'a CacheKey) -> (r: &'a str)
    ensures
        r@ == key@.text,
{
    key.text.as_str()
}

/// Field-wise key equality; decides equality of the key models.
fn keys_equal(a: &CacheKey, b: &CacheKey) -> (r: bool)
    ensures
        r == (a@ == b@),
{
    let r = a.speaker == b.speaker && a.speed == b.speed && a.text == b.text;
    proof {
        if a@.text == b@.text && a@.speaker == b@.speaker && a@.speed == b@.speed {
            assert(a@ == b@);
        }
    }
    r
}

// ---------------------------------------------------------------------------
// Predefined utterances
// ---------------------------------------------------------------------------

/// The closed set of utterances cached eagerly at startup.
#[derive(Debug, Clone, Copy, PartialEq, Eq, Structural)]
pub enum PredefinedUtterance {
    /// Spoken when a voice connection has been established.
    Connected,
    /// Spoken in place of a URL.
    UrlReplacement,
}

/// The fixed text of a predefined utterance.
pub open spec fn spec_predefined_text(u: PredefinedUtterance) -> Seq<char> {
    match u {
        PredefinedUtterance::Connected => "connected"@,
        PredefinedUtterance::UrlReplacement => "URL"@,
    }
}

/// The fixed text of a predefined utterance.
pub fn predefined_text(u: PredefinedUtterance) -> (r: &'static str)
    ensures
        r@ == spec_predefined_text(u),
{
    match u {
        PredefinedUtterance::Connected => "connected",
        PredefinedUtterance::UrlReplacement => "URL",
    }
}

/// The cache key of a predefined utterance.
pub open spec fn predefined_key(u: PredefinedUtterance, speaker: u64, speed: u32) -> KeyModel {
    KeyModel { speaker, speed, text: spec_predefined_text(u) }
}

impl AudioCache {
    /// Populate the cache with every predefined utterance, one synthesis call
    /// each. A failed entry is skipped, reported in the result, and does not
    /// stop the others: each utterance not reported failed is cached
    /// afterwards. An utterance that is already cached cannot fail, and no
    /// cached entry changes.
    pub fn populate_predefined<S: Synthesizer>(&mut self, speaker: u64, speed: u32, synth: &mut S)
        -> (failed: Vec<PredefinedUtterance>)
        ensures
            forall|u: PredefinedUtterance|
                !failed@.contains(u) ==> final(self).spec_lookup(
                    predefined_key(u, speaker, speed),
                ) is Some,
            forall|u: PredefinedUtterance|
                old(self).spec_lookup(#[trigger] predefined_key(u, speaker, speed)) is Some
                    ==> !failed@.contains(u),
            forall|k: KeyModel|
                old(self).spec_lookup(k) is Some ==> #[trigger] final(self).spec_lookup(k) == old(
                    self,
                ).spec_lookup(k),
    {
        let mut failed: Vec<PredefinedUtterance> = Vec::new();
        let ghost orig = *self;
        let key_connected = CacheKey {
            speaker,
            speed,
            text: predefined_text(PredefinedUtterance::Connected).to_owned(),
        };
        let ghost kcv = key_connected@;
        let r1 = self.get_or_synthesize(key_connected, synth);
        if r1.is_err() {
            failed.push(PredefinedUtterance::Connected);
        }
        let ghost mid = *self;
        let key_url = CacheKey {
            speaker,
            speed,
            text: predefined_text(PredefinedUtterance::UrlReplacement).to_owned(),
        };
        let ghost kuv = key_url@;
        let r2 = self.get_or_synthesize(key_url, synth);
        if r2.is_err() {
            failed.push(PredefinedUtterance::UrlReplacement);
        }
        proof {
            assert(kcv == predefined_key(PredefinedUtterance::Connected, speaker, speed));
            assert(kuv == predefined_key(PredefinedUtterance::UrlReplacement, speaker, speed));
            if r1 is Ok {
                assert(mid.spec_lookup(kcv) is Some);
                if mid.spec_lookup(kuv) is Some {
                    assert(self.spec_lookup(kcv) is Some);
                } else if r2 is Ok {
                    assert(kcv != kuv);
                    assert(self.spec_lookup(kcv) is Some);
                } else {
                    assert(self.spec_lookup(kcv) is Some);
                }
            } else {
                assert(failed@[0] == PredefinedUtterance::Connected);
                assert(failed@.contains(PredefinedUtterance::Connected));
            }
            if r2 is Ok {
                assert(self.spec_lookup(kuv) is Some);
            } else {
                assert(failed@.last() == PredefinedUtterance::UrlReplacement);
                assert(failed@.contains(PredefinedUtterance::UrlReplacement));
            }
            assert forall|u: PredefinedUtterance| !failed@.contains(u) implies self.spec_lookup(
                predefined_key(u, speaker, speed),
            ) is Some by {
                match u {
                    PredefinedUtterance::Connected => {},
                    PredefinedUtterance::UrlReplacement => {},
                }
            }
            // A hit cannot fail, so an utterance cached on entry is never
            // reported, and every cached entry survives both calls.
            assert(orig.spec_lookup(kcv) is Some ==> r1 is Ok);
            if orig.spec_lookup(kuv) is Some {
                if mid.spec_lookup(kuv) is Some {
                    assert(r2 is Ok);
                } else {
                    assert(kuv != kcv);
                    assert(mid.spec_lookup(kuv) == orig.spec_lookup(kuv));
                    assert(false);
                }
            }
            assert forall|i: int| 0 <= i < failed@.len() implies orig.spec_lookup(
                predefined_key(failed@[i], speaker, speed),
            ) is None by {
                if failed@[i] == PredefinedUtterance::Connected {
                    assert(r1 is Err);
                } else {
                    assert(failed@[i] == PredefinedUtterance::UrlReplacement);
                    assert(r2 is Err);
                    if orig.spec_lookup(kuv) is Some {
                        assert(false);
                    }
                }
            }
            assert forall|k: KeyModel| orig.spec_lookup(k) is Some implies #[trigger] self
                .spec_lookup(k) == orig.spec_lookup(k) by {
                if orig.spec_lookup(kcv) is None && r1 is Ok {
                    assert(k != kcv);
                    assert(mid.spec_lookup(k) == orig.spec_lookup(k));
                } else {
                    assert(mid.spec_lookup(k) == orig.spec_lookup(k));
                }
                if mid.spec_lookup(kuv) is None && r2 is Ok {
                    assert(k != kuv || mid.spec_lookup(k) is None);
                    assert(self.spec_lookup(k) == mid.spec_lookup(k));
                } else {
                    assert(self.spec_lookup(k) == mid.spec_lookup(k));
                }
            }
        }
        failed
    }
}

} // verus!
