use simple_dub::tts::{
    resolve_tts_runtime, resolve_tts_runtime_with_separator, tts_required_entries,
    tts_required_entries_with_separator, PiperRuntime, SileroRuntime, TtsBackend, TtsEngine,
    TtsRuntime, TtsRuntimeError,
};

#[test]
fn piper_dmitri_fp32_is_the_stable_default_engine() {
    let engine = TtsEngine::default();

    assert_eq!(engine, TtsEngine::PiperDmitriFp32);
    assert_eq!(engine.id(), "piper-dmitri-fp32");
    assert_eq!(
        serde_json::to_string(engine.id()).unwrap(),
        "\"piper-dmitri-fp32\""
    );
    assert_eq!(
        serde_json::to_string(TtsEngine::SileroEugene.id()).unwrap(),
        "\"silero-v5-5-eugene\""
    );
}

#[test]
fn engines_expose_expected_backend_model_and_voice() {
    let piper = TtsEngine::PiperDmitriFp32.descriptor();
    assert_eq!(piper.backend, TtsBackend::SherpaOnnx);
    assert_eq!(piper.model_id, "ru_RU-dmitri-medium");
    assert_eq!(piper.speaker, "dmitri");
    assert_eq!(piper.sample_rate, 22_050);

    let silero = TtsEngine::SileroEugene.descriptor();
    assert_eq!(silero.backend, TtsBackend::SileroStandalone);
    assert_eq!(silero.model_id, "v5_5_ru");
    assert_eq!(silero.speaker, "eugene");
    assert_eq!(silero.sample_rate, 48_000);
}

#[test]
fn resolves_engine_specific_runtime_without_cross_engine_fallback() {
    let root = "runtime";
    let piper_flags = vec![true; tts_required_entries(root, TtsEngine::PiperDmitriFp32).len()];

    let resolved = resolve_tts_runtime(root, TtsEngine::PiperDmitriFp32, &piper_flags)
        .expect("готовый Piper runtime должен разрешаться");

    match resolved {
        TtsRuntime::Piper(PiperRuntime {
            library_path,
            model_path,
            tokens_path,
            data_dir,
        }) => {
            assert!(library_path.ends_with("sherpa-onnx-c-api.dll"));
            assert!(model_path.ends_with("ru_RU-dmitri-medium.onnx"));
            assert!(tokens_path.ends_with("tokens.txt"));
            assert!(data_dir.ends_with("espeak-ng-data"));
        }
        other => panic!("ожидался Piper runtime, получен {other:?}"),
    }

    let silero_flags = vec![true; tts_required_entries(root, TtsEngine::SileroEugene).len()];
    let resolved = resolve_tts_runtime(root, TtsEngine::SileroEugene, &silero_flags)
        .expect("готовый Silero runtime должен разрешаться");
    match resolved {
        TtsRuntime::Silero(SileroRuntime {
            worker_path,
            model_path,
        }) => {
            assert!(worker_path.ends_with("silero-worker.exe"));
            assert!(model_path.ends_with("v5_5_ru.pt"));
        }
        other => panic!("ожидался Silero runtime, получен {other:?}"),
    }
}

#[test]
fn missing_silero_runtime_returns_actionable_error_instead_of_piper() {
    let error = resolve_tts_runtime("runtime", TtsEngine::SileroEugene, &[false, false])
        .expect_err("отсутствующий Silero не должен заменяться на Piper");

    assert!(matches!(
        error,
        TtsRuntimeError::MissingFiles {
            engine: TtsEngine::SileroEugene,
            ..
        }
    ));
    assert!(error.message().contains("Silero 5.5 · Eugene"));
    assert!(error.message().contains("установ"));
}

#[test]
fn expected_layout_joins_parts_under_the_engine_directory() {
    let piper = PiperRuntime::expected_with_separator("C:/runtime", '/');
    assert_eq!(
        piper.library_path,
        "C:/runtime/tts/piper-dmitri-fp32/bin/sherpa-onnx-c-api.dll"
    );
    assert_eq!(
        piper.data_dir,
        "C:/runtime/tts/piper-dmitri-fp32/model/espeak-ng-data"
    );
    let silero = SileroRuntime::expected_with_separator("root/", '/');
    assert_eq!(
        silero.worker_path,
        "root/tts/silero-v5-5-eugene/worker/silero-worker.exe"
    );
    assert_eq!(silero.model_path, "root/tts/silero-v5-5-eugene/models/v5_5_ru.pt");
}

#[test]
fn lists_only_the_missing_entries_in_order() {
    let entries = tts_required_entries_with_separator("r", TtsEngine::PiperDmitriFp32, '/');
    assert_eq!(entries.len(), 4);
    assert!(entries[3].is_directory);
    let error = resolve_tts_runtime_with_separator(
        "r",
        TtsEngine::PiperDmitriFp32,
        &[true, false, true, false],
        '/',
    )
    .unwrap_err();
    match &error {
        TtsRuntimeError::MissingFiles { engine, missing } => {
            assert_eq!(*engine, TtsEngine::PiperDmitriFp32);
            assert_eq!(
                missing,
                &vec![
                    "r/tts/piper-dmitri-fp32/model/ru_RU-dmitri-medium.onnx".to_owned(),
                    "r/tts/piper-dmitri-fp32/model/espeak-ng-data".to_owned(),
                ]
            );
        }
    }
    assert_eq!(
        error.message(),
        "TTS-движок «Piper · Dmitri FP32» не установлен: отсутствуют файлы \
         [\"r/tts/piper-dmitri-fp32/model/ru_RU-dmitri-medium.onnx\", \
         \"r/tts/piper-dmitri-fp32/model/espeak-ng-data\"]. \
         Установите его в настройках приложения."
    );
}

#[test]
fn display_names_and_ids() {
    assert_eq!(TtsEngine::PiperDmitriFp32.display_name(), "Piper · Dmitri FP32");
    assert_eq!(TtsEngine::SileroEugene.display_name(), "Silero 5.5 · Eugene");
    assert_eq!(TtsEngine::SileroEugene.id(), "silero-v5-5-eugene");
    assert_eq!(TtsEngine::SileroEugene.descriptor().engine, TtsEngine::SileroEugene);
}

#[test]
fn windows_layout_joins_with_backslashes() {
    let piper = PiperRuntime::expected_with_separator("C:\\runtime", '\\');
    assert_eq!(
        piper.library_path,
        "C:\\runtime\\tts\\piper-dmitri-fp32\\bin\\sherpa-onnx-c-api.dll"
    );
    let silero = SileroRuntime::expected_with_separator("C:/runtime/", '\\');
    assert_eq!(
        silero.model_path,
        "C:/runtime/tts\\silero-v5-5-eugene\\models\\v5_5_ru.pt"
    );
    let entries = tts_required_entries_with_separator("D:\\r\\", TtsEngine::SileroEugene, '\\');
    assert_eq!(entries[0].path, "D:\\r\\tts\\silero-v5-5-eugene\\worker\\silero-worker.exe");
}

#[test]
fn platform_layout_uses_the_main_separator() {
    let sep = std::path::MAIN_SEPARATOR;
    assert_eq!(
        PiperRuntime::expected("base"),
        PiperRuntime::expected_with_separator("base", sep)
    );
    assert_eq!(
        SileroRuntime::expected("base"),
        SileroRuntime::expected_with_separator("base", sep)
    );
    let platform: Vec<String> = tts_required_entries("base", TtsEngine::SileroEugene)
        .into_iter()
        .map(|e| e.path)
        .collect();
    let explicit: Vec<String> =
        tts_required_entries_with_separator("base", TtsEngine::SileroEugene, sep)
            .into_iter()
            .map(|e| e.path)
            .collect();
    assert_eq!(platform, explicit);
    let resolved = resolve_tts_runtime("base", TtsEngine::SileroEugene, &[true, true]).unwrap();
    assert_eq!(
        resolved,
        TtsRuntime::Silero(SileroRuntime::expected_with_separator("base", sep))
    );
}
