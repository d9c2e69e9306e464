use seitai::cache::{AudioCache, AudioData, SynthesisError, Synthesizer};
use seitai::connection::ConnectionManager;
use seitai::handler::Handler;
use seitai::limiter::RateLimiter;
use seitai::sounds::{SoundResolver, SoundStore};

struct EchoSynth {
    calls: usize,
}

impl Synthesizer for EchoSynth {
    fn synthesize(&mut self, _speaker: u64, _speed: u32, text: &str) -> Result<Vec<u8>, SynthesisError> {
        self.calls += 1;
        Ok(text.as_bytes().to_vec())
    }
}

struct NoSounds;

impl SoundResolver for NoSounds {
    fn resolve(&mut self, _sound_id: u64, _guild_id: Option<u64>) -> Option<AudioData> {
        None
    }
}

fn handler() -> Handler {
    let mut sounds = SoundStore::new();
    sounds.insert("URL".to_string(), AudioData { bytes: vec![0xBB] });
    Handler {
        limiter: RateLimiter::new(2, 60_000, 20_000, 60_000, 3, 2, 3_600_000),
        cache: AudioCache::new(),
        sounds,
        connections: ConnectionManager::new(),
    }
}

#[test]
fn message_without_connection_is_dropped() {
    let mut h = handler();
    let mut synth = EchoSynth { calls: 0 };
    let r = h.message(10, 1, 0, "hello", 1, 100, &mut synth, &mut NoSounds);
    assert!(r.is_none());
    assert_eq!(synth.calls, 0);
}

#[test]
fn message_is_routed_segmented_and_played() {
    let mut h = handler();
    h.connections.join(10, 500);
    h.connections.join_completed(10, true);
    let mut synth = EchoSynth { calls: 0 };
    let (route, clips, _) = h
        .message(10, 1, 0, "see http://a.b ok", 1, 100, &mut synth, &mut NoSounds)
        .unwrap();
    assert_eq!(route, 500);
    let bytes: Vec<Vec<u8>> = clips.iter().map(|d| d.bytes.clone()).collect();
    assert_eq!(bytes, vec![b"see".to_vec(), vec![0xBB], b"ok".to_vec()]);
}

#[test]
fn rate_limited_message_is_silently_dropped() {
    let mut h = handler();
    h.connections.join(10, 500);
    h.connections.join_completed(10, true);
    let mut synth = EchoSynth { calls: 0 };
    assert!(h.message(10, 1, 0, "one", 1, 100, &mut synth, &mut NoSounds).is_some());
    assert!(h.message(10, 1, 10, "two", 1, 100, &mut synth, &mut NoSounds).is_some());
    // Third message inside the window: rejected, no synthesis.
    let calls_before = synth.calls;
    assert!(h.message(10, 1, 20, "three", 1, 100, &mut synth, &mut NoSounds).is_none());
    assert_eq!(synth.calls, calls_before);
    // Another user is unaffected.
    assert!(h.message(10, 2, 30, "hi", 1, 100, &mut synth, &mut NoSounds).is_some());
}
