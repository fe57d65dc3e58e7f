use simple_dub::smoke::{parse, read_smoke_arguments};
use simple_dub::tts::TtsEngine;

fn args(list: &[&str]) -> Vec<String> {
    list.iter().map(|s| s.to_string()).collect()
}

#[test]
fn reads_counts_and_reports_bad_ones() {
    assert_eq!(parse("12", "AUDIO_INDEX").unwrap(), 12);
    assert_eq!(parse("+3", "AUDIO_INDEX").unwrap(), 3);
    assert_eq!(
        parse("x", "AUDIO_INDEX").unwrap_err(),
        "Неверный AUDIO_INDEX: invalid digit found in string"
    );
    assert_eq!(
        parse("", "AUDIO_STREAM_COUNT").unwrap_err(),
        "Неверный AUDIO_STREAM_COUNT: cannot parse integer from empty string"
    );
}

#[test]
fn reads_a_full_smoke_command_line() {
    let parsed = read_smoke_arguments(&args(&[
        "dub-smoke", "in.mkv", "rt", "1", "2", "12.5", "2", "silero",
    ]))
    .unwrap();
    assert_eq!(parsed.input_path, "in.mkv");
    assert_eq!(parsed.runtime_root, "rt");
    assert_eq!(parsed.audio_stream_index, 1);
    assert_eq!(parsed.subtitle_stream_index, Some(2));
    assert_eq!(parsed.subtitle_language.as_deref(), Some("rus"));
    assert_eq!(parsed.existing_audio_streams, 2);
    assert_eq!(parsed.duration_text, "12.5");
    assert_eq!(parsed.engine, TtsEngine::SileroEugene);
}

#[test]
fn none_in_any_case_means_no_subtitles() {
    let parsed = read_smoke_arguments(&args(&[
        "dub-smoke", "in.mkv", "rt", "0", "NoNe", "1", "1", "piper", "eng",
    ]))
    .unwrap();
    assert_eq!(parsed.subtitle_stream_index, None);
    assert_eq!(parsed.subtitle_language, None);
    assert_eq!(parsed.engine, TtsEngine::PiperDmitriFp32);
}

#[test]
fn smoke_errors_come_in_order() {
    assert!(read_smoke_arguments(&args(&["dub-smoke"]))
        .unwrap_err()
        .starts_with("Использование: dub-smoke"));
    assert_eq!(
        read_smoke_arguments(&args(&["p", "i", "r", "x", "y", "1", "z", "espeak"])).unwrap_err(),
        "Неизвестный TTS: espeak"
    );
    assert_eq!(
        read_smoke_arguments(&args(&["p", "i", "r", "x", "y", "1", "z", "piper"])).unwrap_err(),
        "Неверный SUBTITLE_INDEX: invalid digit found in string"
    );
    assert_eq!(
        read_smoke_arguments(&args(&["p", "i", "r", "x", "none", "1", "z", "piper"]))
            .unwrap_err(),
        "Неверный AUDIO_INDEX: invalid digit found in string"
    );
}
