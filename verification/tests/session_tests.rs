use voice2text::session::{check_clipboard_text, check_recording, CommandError, RecordingSession};

#[test]
fn session_start_then_stop() {
    let mut s = RecordingSession::new();
    assert!(!s.is_recording());
    assert_eq!(s.check_start(), Ok(()));
    s.start_finished(true);
    assert!(s.is_recording());
    assert_eq!(s.check_start(), Err(CommandError::AlreadyRecording));
    assert_eq!(s.begin_stop(), Ok(()));
    assert!(!s.is_recording());
    assert_eq!(s.begin_stop(), Err(CommandError::NotRecording));
}

#[test]
fn session_failed_start_stays_idle() {
    let mut s = RecordingSession::new();
    s.start_finished(false);
    assert!(!s.is_recording());
}

#[test]
fn command_checks_and_messages() {
    assert_eq!(check_recording(&[]), Err(CommandError::NoAudio));
    assert_eq!(check_recording(&[0]), Ok(()));
    assert_eq!(check_clipboard_text(""), Err(CommandError::EmptyText));
    assert_eq!(check_clipboard_text("x"), Ok(()));
    assert_eq!(CommandError::AlreadyRecording.message(), "已经在录音中");
    assert_eq!(CommandError::NotRecording.message(), "当前未在录音");
    assert_eq!(CommandError::NoAudio.message(), "没有录制到音频数据");
    assert_eq!(CommandError::EmptyText.message(), "文本为空");
}
