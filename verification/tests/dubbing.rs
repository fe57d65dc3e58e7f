use std::cell::{Cell, RefCell};

use simple_dub::dubbing::{
    samples_for,
    choose_output_name,
    completion_percent, extract_json_object, is_russian, merge_translation, output_file_name,
    parse_whisper_progress, plan_stages, process_failure_message, scale_progress, tts_progress,
    silero_audio_paths, translation_progress, SileroResult,
    ProgressFilter, StageProgress, TranslatedItem,
};
use simple_dub::subtitles::SubtitleSegment;
use simple_dub::translation::{translate_in_batches, translate_with_fallback};

fn segment(id: &str, text: &str) -> SubtitleSegment {
    SubtitleSegment {
        id: id.to_owned(),
        start_ms: 0,
        end_ms: 1_000,
        text: text.to_owned(),
    }
}

#[test]
fn translation_retries_a_failed_batch() {
    let input = vec![segment("1", "Hello")];
    let attempts = Cell::new(0);

    let result = translate_with_fallback(&input, 3, || {}, |batch: &[SubtitleSegment]| {
        attempts.set(attempts.get() + 1);
        if attempts.get() == 1 {
            return Err("invalid JSON".to_owned());
        }
        Ok(batch
            .iter()
            .map(|item| segment(&item.id, "Привет"))
            .collect())
    });

    assert_eq!(attempts.get(), 2);
    assert_eq!(result.segments.len(), 1);
    assert_eq!(result.segments[0].text, "Привет");
    assert_eq!(result.skipped_count, 0);
}

#[test]
fn translation_skips_only_the_item_that_fails_three_times() {
    let input = vec![segment("1", "Hello"), segment("2", "Goodbye")];
    let batch_attempts = Cell::new(0);
    let second_item_attempts = Cell::new(0);

    let result = translate_with_fallback(&input, 3, || {}, |batch: &[SubtitleSegment]| {
        if batch.len() > 1 {
            batch_attempts.set(batch_attempts.get() + 1);
            return Err("invalid batch JSON".to_owned());
        }
        if batch[0].id == "2" {
            second_item_attempts.set(second_item_attempts.get() + 1);
            return Err("invalid item JSON".to_owned());
        }
        Ok(vec![segment("1", "Привет")])
    });

    assert_eq!(batch_attempts.get(), 3);
    assert_eq!(second_item_attempts.get(), 3);
    assert_eq!(result.segments.len(), 1);
    assert_eq!(result.segments[0].id, "1");
    assert_eq!(result.skipped_count, 1);
}

#[test]
fn a_single_cue_that_always_fails_is_skipped_without_item_retries() {
    let input = vec![segment("1", "Hello")];
    let calls = Cell::new(0);
    let pauses = Cell::new(0);
    let result = translate_with_fallback(&input, 2, || pauses.set(pauses.get() + 1), |_batch: &[SubtitleSegment]| {
        calls.set(calls.get() + 1);
        Err("down".to_owned())
    });
    assert_eq!(calls.get(), 2);
    assert_eq!(pauses.get(), 1);
    assert!(result.segments.is_empty());
    assert_eq!(result.skipped_count, 1);
}

#[test]
fn zero_attempts_still_tries_once() {
    let input = vec![segment("1", "a"), segment("2", "b")];
    let calls = Cell::new(0);
    let result = translate_with_fallback(&input, 0, || {}, |batch: &[SubtitleSegment]| {
        calls.set(calls.get() + 1);
        Ok(batch.to_vec())
    });
    assert_eq!(calls.get(), 1);
    assert_eq!(result.segments.len(), 2);
    assert_eq!(result.skipped_count, 0);
}

#[test]
fn whisper_progress_is_parsed_from_streamed_stderr() {
    assert_eq!(
        parse_whisper_progress("whisper_print_progress_callback: progress =  37%"),
        Some(37)
    );
    assert_eq!(
        parse_whisper_progress("whisper_print_progress_callback: progress = 100%"),
        Some(100)
    );
    assert_eq!(
        parse_whisper_progress("whisper_model_load: loading model"),
        None
    );
}

#[test]
fn whisper_progress_caps_at_one_hundred() {
    assert_eq!(parse_whisper_progress("progress = 250%%"), Some(100));
    assert_eq!(parse_whisper_progress("progress = 300%"), None);
    assert_eq!(parse_whisper_progress("progress = x%"), None);
}

#[test]
fn subprocess_progress_stays_inside_its_stage_range() {
    assert_eq!(scale_progress(0, 35, 80), 35);
    assert_eq!(scale_progress(50, 35, 80), 57);
    assert_eq!(scale_progress(100, 35, 80), 80);
}

#[test]
fn scale_progress_clamps_out_of_range_bounds() {
    assert_eq!(scale_progress(200, 0, 100), 100);
    assert_eq!(scale_progress(50, 120, 10), 100);
    assert_eq!(scale_progress(50, 40, 20), 40);
}

#[test]
fn stage_plan_for_russian_text_subtitles_skips_recognition_and_translation() {
    let plan = plan_stages(Some(2), Some("text"), Some("rus"));
    assert!(plan.uses_text_subtitles);
    assert!(!plan.needs_translation);
    assert_eq!(plan.stage_count, 5);
    assert_eq!(plan.asr, None);
    assert_eq!(plan.translate, None);
    assert_eq!(plan.tts, 2);
    assert_eq!(plan.mux, 5);
}

#[test]
fn stage_plan_for_recognition_has_seven_stages() {
    let plan = plan_stages(None, None, None);
    assert!(!plan.uses_text_subtitles);
    assert!(plan.needs_translation);
    assert_eq!(plan.stage_count, 7);
    assert_eq!(plan.asr, Some(2));
    assert_eq!(plan.translate, Some(3));
    assert_eq!(plan.tts, 4);
    assert_eq!(plan.align, 5);
    assert_eq!(plan.balance, 6);
    assert_eq!(plan.mux, 7);
}

#[test]
fn stage_plan_for_foreign_text_subtitles_translates() {
    let plan = plan_stages(Some(3), Some("text"), Some("eng"));
    assert_eq!(plan.stage_count, 6);
    assert_eq!(plan.translate, Some(2));
    assert_eq!(plan.tts, 3);
    let image = plan_stages(Some(3), Some("image"), Some("rus"));
    assert!(!image.uses_text_subtitles);
    assert_eq!(image.stage_count, 7);
}

#[test]
fn russian_tags_are_recognized() {
    assert!(is_russian(Some("ru")));
    assert!(is_russian(Some(" RUS ")));
    assert!(is_russian(Some("Russian")));
    assert!(!is_russian(Some("ukr")));
    assert!(!is_russian(None));
}

#[test]
fn stage_progress_reports_stage_position_and_caps_percent() {
    let stage = StageProgress::new(2, 7, "asr");
    let progress = stage.progress(137, "Распознавание речи");
    assert_eq!(progress.percent, 100);
    assert_eq!(progress.stage, "asr");
    assert_eq!(progress.stage_index, 2);
    assert_eq!(progress.stage_count, 7);
    assert_eq!(progress.message, "Распознавание речи");
}

#[test]
fn tts_progress_counts_cues() {
    let stage = StageProgress::new(4, 7, "tts");
    let progress = tts_progress(&stage, 3, 8);
    assert_eq!(progress.percent, 37);
    assert_eq!(progress.message, "Озвучено 3 из 8 реплик");
    assert_eq!(completion_percent(0, 0), 0);
    assert_eq!(completion_percent(5, 5), 100);
}

#[test]
fn extracts_the_outermost_json_object() {
    assert_eq!(
        extract_json_object("Here: {\"segments\": [{\"id\": \"1\"}]} done").unwrap(),
        "{\"segments\": [{\"id\": \"1\"}]}"
    );
    assert_eq!(
        extract_json_object("no json").unwrap_err(),
        "Модель не вернула JSON-объект"
    );
    assert_eq!(
        extract_json_object("{ unfinished").unwrap_err(),
        "Модель вернула незавершённый JSON-объект"
    );
}

#[test]
fn merges_translation_by_id_and_keeps_timing() {
    let batch = vec![
        SubtitleSegment {
            id: "1".to_owned(),
            start_ms: 100,
            end_ms: 900,
            text: "Hello".to_owned(),
        },
        SubtitleSegment {
            id: "2".to_owned(),
            start_ms: 1_000,
            end_ms: 2_000,
            text: "Bye".to_owned(),
        },
    ];
    let items = vec![
        TranslatedItem {
            id: "2".to_owned(),
            text: "  Пока ".to_owned(),
        },
        TranslatedItem {
            id: "1".to_owned(),
            text: "Привет".to_owned(),
        },
    ];
    let merged = merge_translation(&batch, &items).unwrap();
    assert_eq!(merged[0].id, "1");
    assert_eq!(merged[0].text, "Привет");
    assert_eq!(merged[0].start_ms, 100);
    assert_eq!(merged[1].text, "Пока");
    assert_eq!(merged[1].end_ms, 2_000);
}

#[test]
fn merge_reports_count_missing_id_and_blank_text() {
    let batch = vec![segment("1", "a"), segment("2", "b")];
    let one = vec![TranslatedItem {
        id: "1".to_owned(),
        text: "x".to_owned(),
    }];
    assert_eq!(
        merge_translation(&batch, &one).unwrap_err(),
        "Модель вернула 1 реплик вместо 2"
    );
    let wrong_id = vec![
        TranslatedItem {
            id: "1".to_owned(),
            text: "x".to_owned(),
        },
        TranslatedItem {
            id: "3".to_owned(),
            text: "y".to_owned(),
        },
    ];
    assert_eq!(
        merge_translation(&batch, &wrong_id).unwrap_err(),
        "В переводе отсутствует id 2"
    );
    let blank = vec![
        TranslatedItem {
            id: "1".to_owned(),
            text: "   ".to_owned(),
        },
        TranslatedItem {
            id: "2".to_owned(),
            text: "y".to_owned(),
        },
    ];
    assert_eq!(
        merge_translation(&batch, &blank).unwrap_err(),
        "Пустой перевод для id 1"
    );
}

#[test]
fn failure_message_prefers_error_output_over_status() {
    assert_eq!(
        process_failure_message("Не удалось", "  boom \n", "exit code: 1"),
        "Не удалось: boom"
    );
    assert_eq!(
        process_failure_message("Не удалось", " \n", "exit code: 1"),
        "Не удалось: процесс завершился с кодом exit code: 1"
    );
}

#[test]
fn output_names_carry_the_dub_suffix() {
    assert_eq!(output_file_name("show", None), "show.dub.ru.mkv");
    assert_eq!(output_file_name("show", Some(12)), "show.dub.ru.12.mkv");
}

#[test]
fn progress_filter_drops_repeats_and_reports_completion_once() {
    let mut filter = ProgressFilter::new();
    assert_eq!(filter.observe(Some(10)), Some(10));
    assert_eq!(filter.observe(Some(10)), None);
    assert_eq!(filter.observe(None), None);
    assert_eq!(filter.observe(Some(100)), Some(100));
    assert_eq!(filter.completion(100), None);
    let fresh = ProgressFilter::new();
    assert_eq!(fresh.completion(80), Some(80));
}

#[test]
fn translates_in_batches_of_twenty_four() {
    let input: Vec<SubtitleSegment> = (0..50).map(|i| segment(&i.to_string(), "x")).collect();
    let sizes = RefCell::new(Vec::new());
    let reports = RefCell::new(Vec::new());
    let result = translate_in_batches(
        &input,
        || {},
        |batch: &[SubtitleSegment]| {
            sizes.borrow_mut().push(batch.len());
            if batch.len() > 1 && batch[0].id == "24" {
                return Err("bad batch".to_owned());
            }
            if batch.len() == 1 && batch[0].id == "30" {
                return Err("bad item".to_owned());
            }
            Ok(batch.to_vec())
        },
        |done, batches, translated, skipped| {
            reports.borrow_mut().push((done, batches, translated, skipped))
        },
    );
    assert_eq!(result.segments.len(), 49);
    assert_eq!(result.skipped_count, 1);
    let sizes = sizes.into_inner();
    assert_eq!(sizes[0], 24);
    assert_eq!(&sizes[1..4], &[24, 24, 24]);
    assert_eq!(sizes.len(), 1 + 3 + 26 + 1);
    assert_eq!(*sizes.last().unwrap(), 2);
    assert_eq!(reports.into_inner(), vec![(1, 3, 24, 0), (2, 3, 47, 1), (3, 3, 49, 1)]);
}

#[test]
fn translation_progress_reports_counts() {
    let stage = StageProgress::new(3, 7, "translate");
    let progress = translation_progress(&stage, 2, 3, 47, 50, 1);
    assert_eq!(progress.percent, 66);
    assert_eq!(progress.message, "Переведено 47 из 50 реплик, пропущено 1");
}

#[test]
fn silero_results_must_match_cues_and_carry_paths() {
    let ok = vec![
        SileroResult {
            audio_path: Some("a.wav".to_owned()),
            error: None,
        },
        SileroResult {
            audio_path: Some("b.wav".to_owned()),
            error: None,
        },
    ];
    assert_eq!(silero_audio_paths(&ok, 2).unwrap(), vec!["a.wav", "b.wav"]);
    assert_eq!(
        silero_audio_paths(&ok, 3).unwrap_err(),
        "Silero вернул неверное количество аудиофрагментов"
    );
    let failed = vec![
        SileroResult {
            audio_path: None,
            error: None,
        },
        SileroResult {
            audio_path: Some("b.wav".to_owned()),
            error: Some("CUDA".to_owned()),
        },
    ];
    assert_eq!(
        silero_audio_paths(&failed, 2).unwrap_err(),
        "Silero не вернул путь аудиофрагмента"
    );
    let errored = vec![SileroResult {
        audio_path: Some("x.wav".to_owned()),
        error: Some("CUDA".to_owned()),
    }];
    assert_eq!(silero_audio_paths(&errored, 1).unwrap_err(), "Ошибка Silero: CUDA");
}

#[test]
fn stage_progress_serializes_stage_position() {
    let progress = StageProgress::new(2, 7, "asr").progress(37, "Распознавание речи");
    let mut object = serde_json::Map::new();
    object.insert("percent".to_owned(), progress.percent.into());
    object.insert("stageIndex".to_owned(), progress.stage_index.into());
    object.insert("stageCount".to_owned(), progress.stage_count.into());
    let json = serde_json::Value::Object(object);

    assert_eq!(json["percent"], 37);
    assert_eq!(json["stageIndex"], 2);
    assert_eq!(json["stageCount"], 7);
}

#[test]
fn output_name_takes_the_first_free_candidate() {
    let taken = ["show.dub.ru.mkv", "show.dub.ru.2.mkv"];
    let asked = RefCell::new(Vec::new());
    let (name, _) = choose_output_name("show", |name: &str| {
        asked.borrow_mut().push(name.to_owned());
        taken.contains(&name)
    });
    assert_eq!(name.as_deref(), Some("show.dub.ru.3.mkv"));
    assert_eq!(asked.borrow().len(), 3);

    let (free, _) = choose_output_name("clip", |_name: &str| false);
    assert_eq!(free.as_deref(), Some("clip.dub.ru.mkv"));

    let calls = Cell::new(0);
    let (none, _) = choose_output_name("full", |_name: &str| {
        calls.set(calls.get() + 1);
        true
    });
    assert_eq!(none, None);
    assert_eq!(calls.get(), 9999);
}

#[test]
fn a_closing_brace_right_before_the_opening_one_gives_an_empty_cut() {
    assert_eq!(extract_json_object("}{").unwrap(), "");
    assert_eq!(extract_json_object("x}{y").unwrap(), "");
}

#[test]
fn cue_times_map_to_voice_track_samples() {
    assert_eq!(samples_for(0), 0);
    assert_eq!(samples_for(1_000), 48_000);
    assert_eq!(samples_for(1), 48);
    assert_eq!(samples_for(1_250), 60_000);
}
