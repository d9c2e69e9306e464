use seitai::cache::{
    AudioCache, CacheKey, PredefinedUtterance, SynthesisError, Synthesizer,
};

struct CountingSynth {
    calls: usize,
    fail: bool,
}

impl Synthesizer for CountingSynth {
    fn synthesize(&mut self, speaker: u64, speed: u32, text: &str) -> Result<Vec<u8>, SynthesisError> {
        self.calls += 1;
        if self.fail {
            Err(SynthesisError::Backend)
        } else {
            Ok(format!("{speaker}/{speed}/{text}").into_bytes())
        }
    }
}

fn key(speaker: u64, speed: u32, text: &str) -> CacheKey {
    CacheKey { speaker, speed, text: text.to_string() }
}

#[test]
fn second_lookup_of_same_key_skips_synthesis() {
    let mut cache = AudioCache::new();
    let mut synth = CountingSynth { calls: 0, fail: false };
    let first = cache.get_or_synthesize(key(1, 100, "hello"), &mut synth).unwrap();
    assert_eq!(synth.calls, 1);
    let second = cache.get_or_synthesize(key(1, 100, "hello"), &mut synth).unwrap();
    assert_eq!(synth.calls, 1);
    assert_eq!(first.bytes, second.bytes);
    assert_eq!(first.bytes, b"1/100/hello".to_vec());
}

#[test]
fn distinct_fingerprints_are_cached_separately() {
    let mut cache = AudioCache::new();
    let mut synth = CountingSynth { calls: 0, fail: false };
    cache.get_or_synthesize(key(1, 100, "a"), &mut synth).unwrap();
    cache.get_or_synthesize(key(2, 100, "a"), &mut synth).unwrap();
    cache.get_or_synthesize(key(1, 120, "a"), &mut synth).unwrap();
    cache.get_or_synthesize(key(1, 100, "b"), &mut synth).unwrap();
    assert_eq!(synth.calls, 4);
    // Every one of them is now a hit.
    cache.get_or_synthesize(key(1, 100, "a"), &mut synth).unwrap();
    cache.get_or_synthesize(key(2, 100, "a"), &mut synth).unwrap();
    assert_eq!(synth.calls, 4);
}

#[test]
fn failures_are_not_cached() {
    let mut cache = AudioCache::new();
    let mut synth = CountingSynth { calls: 0, fail: true };
    assert_eq!(
        cache.get_or_synthesize(key(1, 100, "x"), &mut synth),
        Err(SynthesisError::Backend)
    );
    assert_eq!(synth.calls, 1);
    // The failure was not cached: the next call synthesizes again.
    assert!(cache.get_or_synthesize(key(1, 100, "x"), &mut synth).is_err());
    assert_eq!(synth.calls, 2);
    synth.fail = false;
    assert!(cache.get_or_synthesize(key(1, 100, "x"), &mut synth).is_ok());
    assert_eq!(synth.calls, 3);
    // Now it is cached.
    assert!(cache.get_or_synthesize(key(1, 100, "x"), &mut synth).is_ok());
    assert_eq!(synth.calls, 3);
}

#[test]
fn get_returns_independent_handles() {
    let mut cache = AudioCache::new();
    let mut synth = CountingSynth { calls: 0, fail: false };
    cache.get_or_synthesize(key(1, 100, "clip"), &mut synth).unwrap();
    let mut h1 = cache.get(&key(1, 100, "clip")).unwrap();
    h1.bytes.push(0xFF);
    let h2 = cache.get(&key(1, 100, "clip")).unwrap();
    assert_eq!(h2.bytes, b"1/100/clip".to_vec());
    assert_eq!(cache.get(&key(9, 100, "clip")).map(|d| d.bytes), None);
}

#[test]
fn populate_predefined_caches_every_utterance() {
    let mut cache = AudioCache::new();
    let mut synth = CountingSynth { calls: 0, fail: false };
    let failed = cache.populate_predefined(1, 100, &mut synth);
    assert!(failed.is_empty());
    assert_eq!(synth.calls, 2);
    assert!(cache.get(&key(1, 100, "connected")).is_some());
    assert!(cache.get(&key(1, 100, "URL")).is_some());
    // Populating again hits the cache instead of synthesizing.
    let failed = cache.populate_predefined(1, 100, &mut synth);
    assert!(failed.is_empty());
    assert_eq!(synth.calls, 2);
}

#[test]
fn populate_predefined_reports_failures_and_continues() {
    let mut cache = AudioCache::new();
    let mut synth = CountingSynth { calls: 0, fail: true };
    let failed = cache.populate_predefined(1, 100, &mut synth);
    assert_eq!(
        failed,
        vec![PredefinedUtterance::Connected, PredefinedUtterance::UrlReplacement]
    );
    assert_eq!(synth.calls, 2);
    assert!(cache.get(&key(1, 100, "connected")).is_none());
    // A later on-demand miss behaves normally once the backend recovers.
    synth.fail = false;
    let failed = cache.populate_predefined(1, 100, &mut synth);
    assert!(failed.is_empty());
    assert!(cache.get(&key(1, 100, "connected")).is_some());
}
