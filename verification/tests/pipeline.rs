use seitai::cache::{AudioCache, AudioData, SynthesisError, Synthesizer};
use seitai::pipeline::handle_message;
use seitai::sounds::{SoundResolver, SoundStore};

struct TestSynth {
    calls: Vec<String>,
    fail_on: Option<String>,
}

impl Synthesizer for TestSynth {
    fn synthesize(&mut self, _speaker: u64, _speed: u32, text: &str) -> Result<Vec<u8>, SynthesisError> {
        self.calls.push(text.to_string());
        match &self.fail_on {
            Some(bad) if bad == text => Err(SynthesisError::Timeout),
            _ => Ok(text.as_bytes().to_vec()),
        }
    }
}

struct TestResolver;

impl SoundResolver for TestResolver {
    fn resolve(&mut self, sound_id: u64, _guild_id: Option<u64>) -> Option<AudioData> {
        if sound_id == 1 {
            Some(AudioData { bytes: vec![0xAA] })
        } else {
            None
        }
    }
}

fn store_with_url_clip() -> SoundStore {
    let mut store = SoundStore::new();
    store.insert("URL".to_string(), AudioData { bytes: vec![0xBB] });
    store
}

fn byte_views(outs: &[AudioData]) -> Vec<Vec<u8>> {
    outs.iter().map(|d| d.bytes.clone()).collect()
}

#[test]
fn segments_resolve_in_order() {
    let mut cache = AudioCache::new();
    let store = store_with_url_clip();
    let mut synth = TestSynth { calls: Vec::new(), fail_on: None };
    let mut resolver = TestResolver;
    let (outs, _) = handle_message(
        &mut cache,
        &store,
        &mut synth,
        &mut resolver,
        "hello http://x.y <sound:1>\n<sound:2>\nworld",
        1,
        100,
    );
    // Sound 2 is unknown to the resolver and is skipped; everything else
    // plays in segment order.
    assert_eq!(
        byte_views(&outs),
        vec![b"hello".to_vec(), vec![0xBB], vec![0xAA], b"world".to_vec()]
    );
    assert_eq!(synth.calls, vec!["hello".to_string(), "world".to_string()]);
}

#[test]
fn failed_segment_is_skipped_and_the_rest_play() {
    let mut cache = AudioCache::new();
    let store = store_with_url_clip();
    let mut synth = TestSynth { calls: Vec::new(), fail_on: Some("bad".to_string()) };
    let mut resolver = TestResolver;
    let (outs, _) = handle_message(
        &mut cache,
        &store,
        &mut synth,
        &mut resolver,
        "good\nbad\nalso good",
        1,
        100,
    );
    assert_eq!(byte_views(&outs), vec![b"good".to_vec(), b"also good".to_vec()]);
    // The failure did not stop processing: all three were attempted.
    assert_eq!(synth.calls.len(), 3);
    // The failure was not cached.
    assert!(cache.get(&seitai::cache::CacheKey { speaker: 1, speed: 100, text: "bad".to_string() }).is_none());
}

#[test]
fn url_marker_without_clip_is_skipped() {
    let mut cache = AudioCache::new();
    let store = SoundStore::new();
    let mut synth = TestSynth { calls: Vec::new(), fail_on: None };
    let mut resolver = TestResolver;
    let (outs, _) = handle_message(
        &mut cache,
        &store,
        &mut synth,
        &mut resolver,
        "a http://x b",
        1,
        100,
    );
    assert_eq!(byte_views(&outs), vec![b"a".to_vec(), b"b".to_vec()]);
}

#[test]
fn repeated_text_is_synthesized_once() {
    let mut cache = AudioCache::new();
    let store = store_with_url_clip();
    let mut synth = TestSynth { calls: Vec::new(), fail_on: None };
    let mut resolver = TestResolver;
    let (_, _) = handle_message(&mut cache, &store, &mut synth, &mut resolver, "echo", 1, 100);
    let (outs, _) = handle_message(&mut cache, &store, &mut synth, &mut resolver, "echo\necho", 1, 100);
    assert_eq!(byte_views(&outs), vec![b"echo".to_vec(), b"echo".to_vec()]);
    // One synthesis in total: every later occurrence was a cache hit.
    assert_eq!(synth.calls, vec!["echo".to_string()]);
}

#[test]
fn whitespace_only_message_plays_nothing() {
    let mut cache = AudioCache::new();
    let store = store_with_url_clip();
    let mut synth = TestSynth { calls: Vec::new(), fail_on: None };
    let mut resolver = TestResolver;
    let (outs, _) = handle_message(&mut cache, &store, &mut synth, &mut resolver, "  \n ", 1, 100);
    assert!(outs.is_empty());
    assert!(synth.calls.is_empty());
}

#[test]
fn store_returns_independent_copies() {
    let store = store_with_url_clip();
    let mut c1 = store.get("URL").unwrap();
    c1.bytes.push(0x01);
    let c2 = store.get("URL").unwrap();
    assert_eq!(c2.bytes, vec![0xBB]);
    assert!(store.get("missing").is_none());
}
