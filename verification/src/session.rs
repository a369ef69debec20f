use vstd::prelude::*;

verus! {

/// Why a command of the user interface was refused.
#[derive(Clone, Copy, Debug, PartialEq, Eq, Structural)]
pub enum CommandError {
    /// A recording is already running.
    AlreadyRecording,
    /// No recording is running.
    NotRecording,
    /// The recording holds no samples.
    NoAudio,
    /// There is no text to copy.
    EmptyText,
}

/// The message shown to the user for each refusal.
pub open spec fn error_message(e: CommandError) -> Seq<char> {
    match e {
        CommandError::AlreadyRecording => "已经在录音中"@,
        CommandError::NotRecording => "当前未在录音"@,
        CommandError::NoAudio => "没有录制到音频数据"@,
        CommandError::EmptyText => "文本为空"@,
    }
}

impl CommandError {
    /// The message shown to the user.
    pub fn message(&self) -> (r: String)
        ensures
            r@ == error_message(*self),
    {
        match self {
            CommandError::AlreadyRecording => String::from_str("已经在录音中"),
            CommandError::NotRecording => String::from_str("当前未在录音"),
            CommandError::NoAudio => String::from_str("没有录制到音频数据"),
            CommandError::EmptyText => String::from_str("文本为空"),
        }
    }
}

/// The answer to a request to start: refused while a recording runs.
pub open spec fn start_answer(recording: bool) -> Result<(), CommandError> {
    if recording {
        Err(CommandError::AlreadyRecording)
    } else {
        Ok(())
    }
}

/// Whether a recording runs after an attempt to start the recorder.
pub open spec fn recording_after_start(recording: bool, started: bool) -> bool {
    recording || started
}

/// The answer to a request to stop: refused while no recording runs.
pub open spec fn stop_answer(recording: bool) -> Result<(), CommandError> {
    if recording {
        Ok(())
    } else {
        Err(CommandError::NotRecording)
    }
}

/// Whether the user interface believes a recording is running.
pub struct RecordingSession {
    recording: bool,
}

impl RecordingSession {
    /// Whether a recording is running.
    pub closed spec fn active(&self) -> bool {
        self.recording
    }

    /// A session with no recording running.
    pub fn new() -> (r: Self)
        ensures
            !r.active(),
    {
        RecordingSession { recording: false }
    }

    /// Whether a recording is running.
    pub fn is_recording(&self) -> (r: bool)
        ensures
            r == self.active(),
    {
        self.recording
    }

    /// Whether a recording may be started now.
    pub fn check_start(&self) -> (r: Result<(), CommandError>)
        ensures
            r == start_answer(self.active()),
    {
        if self.recording {
            Err(CommandError::AlreadyRecording)
        } else {
            Ok(())
        }
    }

    /// Records the outcome of asking the recorder to start.
    pub fn start_finished(&mut self, started: bool)
        ensures
            final(self).active() == recording_after_start(old(self).active(), started),
    {
        if started {
            self.recording = true;
        }
    }

    /// Ends the running recording, or refuses when none runs.
    pub fn begin_stop(&mut self) -> (r: Result<(), CommandError>)
        ensures
            r == stop_answer(old(self).active()),
            !final(self).active(),
    {
        if !self.recording {
            return Err(CommandError::NotRecording);
        }
        self.recording = false;
        Ok(())
    }
}

/// A finished recording is refused when it holds no samples.
pub fn check_recording(samples: &[i16]) -> (r: Result<(), CommandError>)
    ensures
        r == (if samples@.len() == 0 {
            Err(CommandError::NoAudio)
        } else {
            Ok(())
        }),
{
    if samples.len() == 0 {
        Err(CommandError::NoAudio)
    } else {
        Ok(())
    }
}

/// Text for the clipboard is refused when it is empty.
pub fn check_clipboard_text(text: &str) -> (r: Result<(), CommandError>)
    ensures
        r == (if text@.len() == 0 {
            Err(CommandError::EmptyText)
        } else {
            Ok(())
        }),
{
    if text.is_empty() {
        Err(CommandError::EmptyText)
    } else {
        Ok(())
    }
}

/// From idle, a start whose recorder starts and then a stop are both
/// accepted, and the session is idle again.
pub proof fn law_start_stop_round_trip()
    ensures
        start_answer(false) == Ok::<(), CommandError>(()),
        recording_after_start(false, true),
        stop_answer(recording_after_start(false, true)) == Ok::<(), CommandError>(()),
{
}

/// A start is refused exactly while a recording runs and a stop exactly
/// while none runs; the two refusals are told apart.
pub proof fn law_refusals(recording: bool)
    ensures
        (start_answer(recording) is Err) <==> recording,
        (stop_answer(recording) is Err) <==> !recording,
        start_answer(recording) != stop_answer(recording),
{
}

/// A start whose recorder fails leaves the session idle.
pub proof fn law_failed_start_stays_idle()
    ensures
        !recording_after_start(false, false),
{
}

} // verus!
