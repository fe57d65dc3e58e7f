use simple_dub::cache::{job_fingerprint, JobFingerprintInput};
use simple_dub::commands::{
    build_mux_args, build_silero_args, build_whisper_args, MuxOptions, SileroOptions,
    WhisperOptions,
};
use simple_dub::media::{media_info_from_probe, MediaInfo, ProbeReport, ProbeStream, SubtitleKind};
use simple_dub::pipeline::{choose_pipeline_route, fits_in_slot, PipelineRoute};

fn probe_stream(
    index: u32,
    codec: &str,
    codec_type: &str,
    channels: Option<u32>,
    layout: Option<&str>,
    default: u8,
    language: &str,
    title: &str,
) -> ProbeStream {
    ProbeStream {
        index,
        codec_name: Some(codec.to_owned()),
        codec_type: codec_type.to_owned(),
        channels,
        channel_layout: layout.map(str::to_owned),
        default_flag: Some(default),
        language_tag: Some(language.to_owned()),
        title_tag: Some(title.to_owned()),
    }
}

/// The report of the sample file: video, Japanese stereo audio, Russian ASS
/// subtitles and English PGS subtitles, one chapter.
fn sample_media() -> MediaInfo {
    media_info_from_probe(&ProbeReport {
        streams: vec![
            probe_stream(0, "h264", "video", None, None, 1, "und", "Video"),
            probe_stream(1, "aac", "audio", Some(2), Some("stereo"), 1, "jpn", "Original"),
            probe_stream(2, "ass", "subtitle", None, None, 0, "rus", "Russian"),
            probe_stream(3, "hdmv_pgs_subtitle", "subtitle", None, None, 0, "eng", "English PGS"),
        ],
        chapter_count: 1,
        format_name: Some("matroska,webm".to_owned()),
    })
}

#[test]
fn parses_tracks_and_classifies_subtitles() {
    let media = sample_media();

    assert_eq!(media.audio_streams().len(), 1);
    assert_eq!(media.audio_streams()[0].language.as_deref(), Some("jpn"));
    assert_eq!(media.audio_streams()[0].channels, Some(2));
    assert!(media.audio_streams()[0].is_default);

    let subtitles = media.subtitle_streams();
    assert_eq!(subtitles.len(), 2);
    assert_eq!(subtitles[0].subtitle_kind, Some(SubtitleKind::Text));
    assert_eq!(subtitles[1].subtitle_kind, Some(SubtitleKind::Image));
    assert_eq!(media.chapter_count, 1);
}

#[test]
fn chooses_pipeline_from_selected_subtitles() {
    let media = sample_media();
    let subtitles = media.subtitle_streams();

    assert_eq!(
        choose_pipeline_route(Some(subtitles[0]), "ru"),
        PipelineRoute::UseRussianSubtitles
    );
    assert_eq!(
        choose_pipeline_route(Some(subtitles[1]), "ru"),
        PipelineRoute::TranscribeAndTranslate
    );
    assert_eq!(
        choose_pipeline_route(None, "ru"),
        PipelineRoute::TranscribeAndTranslate
    );
}

#[test]
fn builds_whisper_cpp_command_for_multilingual_cuda_flow() {
    let args = build_whisper_args(&WhisperOptions {
        model_path: "models/ggml-large-v3-turbo.bin",
        audio_path: "work/asr.wav",
        output_base: "work/transcript",
        language: "auto",
        vad_model_path: Some("models/ggml-silero-v6.2.0.bin"),
    });

    assert!(args
        .windows(2)
        .any(|pair| pair == ["--model", "models/ggml-large-v3-turbo.bin"]));
    assert!(args.windows(2).any(|pair| pair == ["--language", "auto"]));
    assert!(args.iter().any(|arg| arg == "--output-json"));
    assert!(args.iter().any(|arg| arg == "--vad"));
    assert!(!args.iter().any(|arg| arg == "--no-gpu"));
}

#[test]
fn builds_silero_v5_5_worker_contract_without_qwen() {
    let args = build_silero_args(&SileroOptions {
        model_path: "models/v5_5_ru.pt",
        input_manifest: "work/segments.json",
        output_dir: "work/tts",
        speaker: "aidar",
        sample_rate: 48_000,
    });

    assert!(args
        .windows(2)
        .any(|pair| pair == ["--model", "models/v5_5_ru.pt"]));
    assert!(args.windows(2).any(|pair| pair == ["--speaker", "aidar"]));
    assert!(args
        .windows(2)
        .any(|pair| pair == ["--sample-rate", "48000"]));
    assert!(!args.iter().any(|arg| arg.to_lowercase().contains("qwen")));
}

#[test]
fn mux_preserves_source_streams_and_adds_russian_dub() {
    let args = build_mux_args(&MuxOptions {
        input_path: "input.mkv",
        dubbed_audio_path: "work/dubbed.mka",
        output_path: "output.dub.ru.mkv",
        existing_audio_streams: 2,
        make_default: false,
    });

    assert!(args.windows(2).any(|pair| pair == ["-map", "0"]));
    assert!(args.windows(2).any(|pair| pair == ["-map", "1:a:0"]));
    assert!(args.windows(2).any(|pair| pair == ["-c", "copy"]));
    assert!(args
        .windows(2)
        .any(|pair| pair == ["-metadata:s:a:2", "language=rus"]));
    assert!(args
        .windows(2)
        .any(|pair| pair == ["-metadata:s:a:2", "title=Русский одноголосый дубляж"]));
    assert_eq!(args.last().map(String::as_str), Some("output.dub.ru.mkv"));
}

#[test]
fn cache_key_changes_with_semantic_job_inputs() {
    let base = JobFingerprintInput {
        input_path: "show.mkv",
        input_size: 10_000,
        input_modified_unix_ms: 123,
        audio_stream_index: 1,
        subtitle_stream_index: Some(2),
        translation_model: "google/gemini-3.5-flash-lite",
        tts_engine: "piper-dmitri-fp32",
        tts_model: "v5_5_ru",
        tts_speaker: "aidar",
        original_volume_milli: 300,
    };

    let first = job_fingerprint(&base);
    let mut changed = base.clone();
    changed.tts_engine = "silero-v5-5-eugene";
    let second = job_fingerprint(&changed);

    assert_ne!(first, second);
    assert_eq!(first.len(), 64);
}

#[test]
fn accepts_synthesized_cues_within_ten_percent_of_the_slot() {
    assert!(fits_in_slot(4_000, 4_300));
    assert!(fits_in_slot(4_000, 4_400));
    assert!(!fits_in_slot(4_000, 4_401));
    assert!(!fits_in_slot(4_000, 4_800));
    assert!(fits_in_slot(0, 0));
    assert!(!fits_in_slot(0, 1));
    assert!(fits_in_slot(u64::MAX, u64::MAX / 100));
}

#[test]
fn whisper_arguments_without_vad_end_with_flash_attention() {
    let args = build_whisper_args(&WhisperOptions {
        model_path: "C:\\models\\m.bin",
        audio_path: "a.wav",
        output_base: "out",
        language: "ja",
        vad_model_path: None,
    });
    assert_eq!(
        args,
        vec![
            "--model",
            "C:/models/m.bin",
            "--file",
            "a.wav",
            "--output-file",
            "out",
            "--language",
            "ja",
            "--output-json",
            "--print-progress",
            "--flash-attn",
        ]
    );
}

#[test]
fn mux_marks_the_dub_default_when_asked() {
    let args = build_mux_args(&MuxOptions {
        input_path: "in.mkv",
        dubbed_audio_path: "d.mka",
        output_path: "o.mkv",
        existing_audio_streams: 0,
        make_default: true,
    });
    assert!(args
        .windows(2)
        .any(|pair| pair == ["-disposition:a:0", "default"]));
    assert!(args.windows(2).any(|pair| pair == ["-c:a:0", "aac"]));
    assert!(args.windows(2).any(|pair| pair == ["-b:a:0", "192k"]));
}

#[test]
fn same_language_compares_canonical_tags() {
    let media = sample_media();
    let subtitles = media.subtitle_streams();
    assert_eq!(
        choose_pipeline_route(Some(subtitles[0]), " RUSSIAN "),
        PipelineRoute::UseRussianSubtitles
    );
    assert_eq!(
        choose_pipeline_route(Some(subtitles[0]), "en"),
        PipelineRoute::TranslateSubtitles
    );
}

#[test]
fn default_dub_clears_the_default_flag_of_copied_audio() {
    let args = build_mux_args(&MuxOptions {
        input_path: "input.mkv",
        dubbed_audio_path: "work/dubbed.mka",
        output_path: "output.dub.ru.mkv",
        existing_audio_streams: 2,
        make_default: true,
    });
    assert!(args
        .windows(2)
        .any(|pair| pair == ["-disposition:a:2", "default"]));
    assert!(args.windows(2).any(|pair| pair == ["-disposition:a:0", "0"]));
    assert!(args.windows(2).any(|pair| pair == ["-disposition:a:1", "0"]));
    assert_eq!(args.last().map(String::as_str), Some("output.dub.ru.mkv"));

    let kept = build_mux_args(&MuxOptions {
        input_path: "input.mkv",
        dubbed_audio_path: "work/dubbed.mka",
        output_path: "output.dub.ru.mkv",
        existing_audio_streams: 2,
        make_default: false,
    });
    assert!(!kept.iter().any(|arg| arg == "-disposition:a:0"));
}
