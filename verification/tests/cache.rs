use sha2::Digest;
use simple_dub::cache::{fingerprint_text, job_fingerprint, JobFingerprintInput};

fn sample() -> JobFingerprintInput<'static> {
    JobFingerprintInput {
        input_path: "C:\\video\\\"a\".mkv",
        input_size: 10_000,
        input_modified_unix_ms: 123,
        audio_stream_index: 1,
        subtitle_stream_index: None,
        translation_model: "m",
        tts_engine: "piper-dmitri-fp32",
        tts_model: "v5_5_ru",
        tts_speaker: "aidar",
        original_volume_milli: 300,
    }
}

#[test]
fn fingerprint_text_is_compact_json() {
    let input = sample();
    let text = fingerprint_text(&input);
    assert_eq!(
        text,
        "{\"input_path\":\"C:\\\\video\\\\\\\"a\\\".mkv\",\"input_size\":10000,\
         \"input_modified_unix_ms\":123,\"audio_stream_index\":1,\
         \"subtitle_stream_index\":null,\"translation_model\":\"m\",\
         \"tts_engine\":\"piper-dmitri-fp32\",\"tts_model\":\"v5_5_ru\",\
         \"tts_speaker\":\"aidar\",\"original_volume_milli\":300}"
    );
    let parsed: serde_json::Value = serde_json::from_str(&text).unwrap();
    assert_eq!(parsed["input_path"], "C:\\video\\\"a\".mkv");
}

#[test]
fn fingerprint_escapes_control_characters_like_serde_json() {
    let mut input = sample();
    input.tts_speaker = "a\u{1}\tb\n";
    let text = fingerprint_text(&input);
    assert!(text.contains("\"tts_speaker\":\"a\\u0001\\tb\\n\""));
    assert_eq!(
        serde_json::to_string("a\u{1}\tb\n").unwrap(),
        "\"a\\u0001\\tb\\n\""
    );
}

#[test]
fn fingerprint_is_lower_case_sha256_hex_of_the_json() {
    let key = job_fingerprint(&sample());
    assert_eq!(key.len(), 64);
    assert!(key.chars().all(|c| c.is_ascii_digit() || ('a'..='f').contains(&c)));
    assert_eq!(key, job_fingerprint(&sample()));
    let mut other = sample();
    other.subtitle_stream_index = Some(0);
    assert_ne!(key, job_fingerprint(&other));
}

#[test]
fn fingerprint_matches_sha256_of_the_json_text() {
    let input = sample();
    let digest = sha2::Sha256::digest(fingerprint_text(&input).as_bytes());
    let expected: String = digest.iter().map(|byte| format!("{byte:02x}")).collect();
    assert_eq!(job_fingerprint(&input), expected);
}
