use simple_dub::subtitles::{
    format_timestamp, parse_srt, parse_timestamp, write_srt, SubtitleError, SubtitleSegment,
};

#[test]
fn parses_multiline_srt_and_removes_visual_markup() {
    let input = "\u{feff}1\r\n\
00:00:01,250 --> 00:00:03,500\r\n\
<i>Первый</i> текст\r\n\
в две строки\r\n\r\n\
2\r\n\
00:00:05.000 --> 00:00:06.100\r\n\
{\\an8}Второй текст\r\n";

    let segments = parse_srt(input).expect("SRT должен разбираться");

    assert_eq!(
        segments,
        vec![
            SubtitleSegment {
                id: "1".to_owned(),
                start_ms: 1_250,
                end_ms: 3_500,
                text: "Первый текст в две строки".to_owned(),
            },
            SubtitleSegment {
                id: "2".to_owned(),
                start_ms: 5_000,
                end_ms: 6_100,
                text: "Второй текст".to_owned(),
            },
        ]
    );
}

#[test]
fn rejects_invalid_or_reversed_timestamps() {
    let invalid = "1\n00:00:04,000 --> 00:00:03,000\nТекст\n";
    let error = parse_srt(invalid).expect_err("обратный интервал должен отклоняться");

    assert!(error.message().contains("интервал"));
}

#[test]
fn srt_round_trip_preserves_ids_timing_and_text() {
    let source = vec![SubtitleSegment {
        id: "scene-7".to_owned(),
        start_ms: 65_432,
        end_ms: 68_000,
        text: "Строка для озвучки".to_owned(),
    }];

    let serialized = write_srt(&source);
    let parsed = parse_srt(&serialized).unwrap();

    assert_eq!(parsed[0].start_ms, source[0].start_ms);
    assert_eq!(parsed[0].end_ms, source[0].end_ms);
    assert_eq!(parsed[0].text, source[0].text);
}

#[test]
fn written_srt_numbers_blocks_and_formats_timestamps() {
    let source = vec![
        SubtitleSegment {
            id: "a".to_owned(),
            start_ms: 0,
            end_ms: 1_500,
            text: "Раз".to_owned(),
        },
        SubtitleSegment {
            id: "b".to_owned(),
            start_ms: 3_723_004,
            end_ms: 3_724_000,
            text: "Два".to_owned(),
        },
    ];
    assert_eq!(
        write_srt(&source),
        "1\n00:00:00,000 --> 00:00:01,500\nРаз\n\n2\n01:02:03,004 --> 01:02:04,000\nДва\n\n"
    );
}

#[test]
fn round_trip_renumbers_cues() {
    let source = vec![
        SubtitleSegment {
            id: "x".to_owned(),
            start_ms: 10,
            end_ms: 20,
            text: "первая".to_owned(),
        },
        SubtitleSegment {
            id: "y".to_owned(),
            start_ms: 30,
            end_ms: 40,
            text: "вторая".to_owned(),
        },
    ];
    let parsed = parse_srt(&write_srt(&source)).unwrap();
    assert_eq!(parsed.len(), 2);
    assert_eq!(parsed[0].id, "1");
    assert_eq!(parsed[1].id, "2");
    assert_eq!(parsed[1].text, "вторая");
}

#[test]
fn rejects_a_block_without_timing() {
    let error = parse_srt("1\nтекст без времени\n").unwrap_err();
    assert!(matches!(error, SubtitleError::MissingTiming { block: 1 }));
    assert_eq!(error.message(), "в блоке 1 отсутствует строка времени");
}

#[test]
fn rejects_a_malformed_timestamp() {
    let error = parse_srt("1\n00:00:xx,000 --> 00:00:03,000\nТекст\n").unwrap_err();
    assert!(matches!(error, SubtitleError::InvalidTimestamp { .. }));
}

#[test]
fn reversed_interval_names_its_block() {
    let error = parse_srt("1\n00:00:01,000 --> 00:00:02,000\nа\n\n2\n00:00:05,000 --> 00:00:05,000\nб\n")
        .unwrap_err();
    assert!(matches!(error, SubtitleError::ReversedInterval { block: 2 }));
    assert_eq!(error.message(), "неверный интервал в блоке 2: конец не позже начала");
}

#[test]
fn duration_saturates_at_zero_for_reversed_cues() {
    let forward = SubtitleSegment {
        id: "1".to_owned(),
        start_ms: 1_000,
        end_ms: 2_500,
        text: "t".to_owned(),
    };
    let reversed = SubtitleSegment {
        id: "2".to_owned(),
        start_ms: 5_000,
        end_ms: 4_000,
        text: "t".to_owned(),
    };
    assert_eq!(forward.duration_ms(), 1_500);
    assert_eq!(reversed.duration_ms(), 0);
}

#[test]
fn decodes_entities_and_drops_markup() {
    let parsed =
        parse_srt("1\n00:00:00,000 --> 00:00:01,000\n<b>Tom &amp; Jerry</b> {\\pos(1,2)}&quot;hi&quot;\n")
            .unwrap();
    assert_eq!(parsed[0].text, "Tom & Jerry \"hi\"");
}

#[test]
fn bom_and_line_endings_do_not_change_the_cues() {
    let plain = "1\n00:00:01,000 --> 00:00:02,000\nПривет\n\n2\n00:00:03,000 --> 00:00:04,500\nмир\n";
    let expected = parse_srt(plain).unwrap();
    assert_eq!(parse_srt(&format!("\u{feff}{plain}")).unwrap(), expected);
    assert_eq!(parse_srt(&plain.replace('\n', "\r\n")).unwrap(), expected);
    assert_eq!(parse_srt(&plain.replace('\n', "\r")).unwrap(), expected);
}

#[test]
fn timestamps_format_and_read_back() {
    assert_eq!(format_timestamp(3_723_004), "01:02:03,004");
    assert_eq!(parse_timestamp("01:02:03,004").unwrap(), 3_723_004);
    assert_eq!(parse_timestamp("0:00:01.5").unwrap(), 1_500);
    for value in [0_u64, 999, 59_999, 3_600_000, 360_000_123] {
        assert_eq!(parse_timestamp(&format_timestamp(value)).unwrap(), value);
    }
    assert!(matches!(
        parse_timestamp("00:60:00,000"),
        Err(SubtitleError::InvalidTimestamp { .. })
    ));
}
