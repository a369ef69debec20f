use std::sync::mpsc;
use voice2text::recorder::{
    recorder_step, start_outcome, stop_outcome, stream_opened, AudioRecorder, RecorderAction, RecorderCommand, RecorderError,
    RecorderPhase,
};

#[test]
fn recorder_step_table() {
    assert_eq!(recorder_step(RecorderPhase::Idle, Some(RecorderCommand::Start)), (RecorderPhase::Idle, RecorderAction::OpenStream));
    assert_eq!(recorder_step(RecorderPhase::Idle, Some(RecorderCommand::Stop)), (RecorderPhase::Idle, RecorderAction::Ignore));
    assert_eq!(recorder_step(RecorderPhase::Idle, Some(RecorderCommand::Shutdown)), (RecorderPhase::Idle, RecorderAction::Exit));
    assert_eq!(recorder_step(RecorderPhase::Idle, None), (RecorderPhase::Idle, RecorderAction::Exit));
    assert_eq!(recorder_step(RecorderPhase::Recording, Some(RecorderCommand::Start)), (RecorderPhase::Recording, RecorderAction::Ignore));
    assert_eq!(recorder_step(RecorderPhase::Recording, Some(RecorderCommand::Stop)), (RecorderPhase::Idle, RecorderAction::Deliver));
    assert_eq!(recorder_step(RecorderPhase::Recording, Some(RecorderCommand::Shutdown)), (RecorderPhase::Recording, RecorderAction::Exit));
    assert_eq!(recorder_step(RecorderPhase::Recording, None), (RecorderPhase::Recording, RecorderAction::Exit));
    assert_eq!(stream_opened(true), RecorderPhase::Recording);
    assert_eq!(stream_opened(false), RecorderPhase::Idle);
}

#[test]
fn recorder_start_drains_old_data_and_sends_start() {
    let (cmd_tx, cmd_rx) = mpsc::channel();
    let (data_tx, data_rx) = mpsc::channel();
    let mut recorder = AudioRecorder::with_channels(cmd_tx, data_rx, 44100);
    data_tx.send(vec![1, 2, 3]).unwrap();
    data_tx.send(vec![4]).unwrap();
    assert_eq!(recorder.start(), Ok(()));
    assert_eq!(cmd_rx.try_recv().unwrap(), RecorderCommand::Start);
    assert!(cmd_rx.try_recv().is_err());
    // the stale recordings are gone: the next one handed over is the new one
    data_tx.send(vec![9, 9]).unwrap();
    assert_eq!(recorder.stop(), Ok(vec![9, 9]));
    assert_eq!(cmd_rx.try_recv().unwrap(), RecorderCommand::Stop);
    assert_eq!(recorder.sample_rate(), 44100);
}

#[test]
fn recorder_reports_a_gone_thread() {
    let (cmd_tx, cmd_rx) = mpsc::channel();
    let (data_tx, data_rx) = mpsc::channel::<Vec<i16>>();
    let mut recorder = AudioRecorder::with_channels(cmd_tx, data_rx, 16000);
    drop(data_tx);
    assert_eq!(recorder.stop(), Err(RecorderError::NoRecording));
    drop(cmd_rx);
    assert_eq!(recorder.start(), Err(RecorderError::StartNotSent));
    assert_eq!(recorder.stop(), Err(RecorderError::StopNotSent));
    recorder.shutdown();
}

#[test]
fn recorder_shutdown_sends_shutdown() {
    let (cmd_tx, cmd_rx) = mpsc::channel();
    let (_data_tx, data_rx) = mpsc::channel::<Vec<i16>>();
    let mut recorder = AudioRecorder::with_channels(cmd_tx, data_rx, 16000);
    recorder.shutdown();
    assert_eq!(cmd_rx.try_recv().unwrap(), RecorderCommand::Shutdown);
}

#[test]
fn recorder_outcomes() {
    assert_eq!(start_outcome(true), Ok(()));
    assert_eq!(start_outcome(false), Err(RecorderError::StartNotSent));
    assert_eq!(stop_outcome(false, Some(vec![1])), Err(RecorderError::StopNotSent));
    assert_eq!(stop_outcome(true, None), Err(RecorderError::NoRecording));
    assert_eq!(stop_outcome(true, Some(vec![1, 2])), Ok(vec![1, 2]));
}

#[test]
fn recorder_error_messages() {
    assert_eq!(
        RecorderError::StartNotSent.message(),
        format!("发送 Start 指令失败: {}", mpsc::SendError(()))
    );
    assert_eq!(
        RecorderError::StopNotSent.message(),
        format!("发送 Stop 指令失败: {}", mpsc::SendError(()))
    );
    assert_eq!(
        RecorderError::NoRecording.message(),
        format!("接收音频数据失败: {}", mpsc::RecvError)
    );
}

#[test]
fn recorder_second_start_keeps_one_command_each() {
    let (cmd_tx, cmd_rx) = mpsc::channel();
    let (data_tx, data_rx) = mpsc::channel();
    let mut recorder = AudioRecorder::with_channels(cmd_tx, data_rx, 48000);
    assert_eq!(recorder.start(), Ok(()));
    assert_eq!(recorder.start(), Ok(()));
    data_tx.send(vec![5]).unwrap();
    assert_eq!(recorder.stop(), Ok(vec![5]));
    let sent: Vec<RecorderCommand> = cmd_rx.try_iter().collect();
    assert_eq!(sent, vec![RecorderCommand::Start, RecorderCommand::Start, RecorderCommand::Stop]);
}
