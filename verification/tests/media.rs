use simple_dub::media::{
    classify_subtitle, media_info_from_probe, normalize_language, stream_info_from_probe,
    ProbeReport, ProbeStream, StreamType, SubtitleKind,
};
use simple_dub::pipeline::{canonical_language, is_same_language};

fn bare(index: u32, codec_type: &str) -> ProbeStream {
    ProbeStream {
        index,
        codec_name: None,
        codec_type: codec_type.to_owned(),
        channels: None,
        channel_layout: None,
        default_flag: None,
        language_tag: None,
        title_tag: None,
    }
}

#[test]
fn classifies_bitmap_subtitle_codecs_as_images() {
    for codec in ["hdmv_pgs_subtitle", "dvd_subtitle", "dvb_subtitle", "xsub"] {
        assert_eq!(classify_subtitle(Some(codec)), SubtitleKind::Image);
    }
    assert_eq!(classify_subtitle(Some("subrip")), SubtitleKind::Text);
    assert_eq!(classify_subtitle(None), SubtitleKind::Text);
}

#[test]
fn normalizes_language_tags() {
    assert_eq!(normalize_language("  ENG "), "eng");
    assert_eq!(normalize_language("Rus"), "rus");
}

#[test]
fn unknown_codec_types_are_other_streams_without_subtitle_kind() {
    let info = stream_info_from_probe(&bare(5, "attachment"));
    assert_eq!(info.stream_type, StreamType::Other);
    assert_eq!(info.subtitle_kind, None);
    assert!(!info.is_default);
    assert_eq!(info.language, None);

    let subtitle = stream_info_from_probe(&bare(6, "subtitle"));
    assert_eq!(subtitle.subtitle_kind, Some(SubtitleKind::Text));
}

#[test]
fn default_flag_other_than_one_is_not_default() {
    let mut raw = bare(1, "audio");
    raw.default_flag = Some(2);
    assert!(!stream_info_from_probe(&raw).is_default);
    raw.default_flag = Some(1);
    assert!(stream_info_from_probe(&raw).is_default);
}

#[test]
fn keeps_stream_order_and_metadata() {
    let media = media_info_from_probe(&ProbeReport {
        streams: vec![bare(0, "audio"), bare(1, "video"), bare(2, "audio")],
        chapter_count: 0,
        format_name: None,
    });
    let audio = media.audio_streams();
    assert_eq!(audio.len(), 2);
    assert_eq!(audio[0].index, 0);
    assert_eq!(audio[1].index, 2);
    assert!(media.subtitle_streams().is_empty());
    assert_eq!(media.format_name, None);
}

#[test]
fn canonical_language_maps_russian_spellings() {
    assert_eq!(canonical_language("RUS"), "ru");
    assert_eq!(canonical_language(" russian "), "ru");
    assert_eq!(canonical_language("JPN"), "JPN");
    assert!(is_same_language(Some("rus"), "ru"));
    assert!(!is_same_language(Some("jpn"), "JPN"));
    assert!(!is_same_language(None, "ru"));
}
