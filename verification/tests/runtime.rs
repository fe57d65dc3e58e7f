use simple_dub::runtime::{
    installer_failure_message, installer_line, parse_progress, plan_installation, InstallerLine,
};
use simple_dub::tts::TtsEngine;

#[test]
fn parses_installer_progress() {
    assert_eq!(
        parse_progress("[progress]50|Загрузка модели"),
        Some((50, "Загрузка модели".to_owned()))
    );
    assert_eq!(parse_progress("обычный вывод"), None);
}

#[test]
fn installer_progress_needs_a_bar_and_a_u8_percent() {
    assert_eq!(parse_progress("[progress]50 Загрузка"), None);
    assert_eq!(parse_progress("[progress]300|x"), None);
    assert_eq!(parse_progress("[progress] 5|x"), None);
    assert_eq!(parse_progress("[progress]7|a|b "), Some((7, "a|b".to_owned())));
}

#[test]
fn installs_only_the_chosen_engine_and_missing_whisper() {
    let plan = plan_installation(TtsEngine::SileroEugene, false, true, true, false);
    assert!(!plan.piper);
    assert!(plan.silero);
    assert!(plan.whisper);
    assert_eq!(plan.switches(), vec!["-InstallWhisper", "-InstallSilero"]);

    let ready = plan_installation(TtsEngine::PiperDmitriFp32, true, false, false, false);
    assert!(ready.is_complete());
    assert!(ready.switches().is_empty());
}

#[test]
fn sorts_installer_lines() {
    match installer_line("[progress]90|Готово") {
        InstallerLine::Progress { percent, message } => {
            assert_eq!(percent, 10);
            assert_eq!(message, "Готово");
        }
        other => panic!("unexpected {other:?}"),
    }
    assert!(matches!(installer_line("   "), InstallerLine::Blank));
    match installer_line("warning: slow") {
        InstallerLine::Output(text) => assert_eq!(text, "warning: slow"),
        other => panic!("unexpected {other:?}"),
    }
}

#[test]
fn installer_failure_joins_output_and_error_text() {
    let output = vec!["step 1".to_owned(), "step 2".to_owned()];
    assert_eq!(
        installer_failure_message(&output, " fatal \n", "exit code: 1"),
        "Установка компонентов завершилась с ошибкой: step 1\nstep 2\nfatal"
    );
    assert_eq!(
        installer_failure_message(&Vec::new(), "", "exit code: 2"),
        "Установка компонентов завершилась с ошибкой: exit code: 2"
    );
    assert_eq!(
        installer_failure_message(&Vec::new(), "denied", "exit code: 2"),
        "Установка компонентов завершилась с ошибкой: denied"
    );
}
