use std::sync::mpsc::{Receiver, Sender};
use vstd::prelude::*;

verus! {

#[verifier::external_type_specification]
#[verifier::external_body]
#[verifier::reject_recursive_types(T)]
pub struct ExSender<T>(Sender<T>);

#[verifier::external_type_specification]
#[verifier::external_body]
#[verifier::reject_recursive_types(T)]
pub struct ExReceiver<T>(Receiver<T>);

/// A command to the recording thread.
#[derive(Clone, Copy, Debug, PartialEq, Eq, Structural)]
pub enum RecorderCommand {
    Start,
    Stop,
    Shutdown,
}

/// Whether the recording thread has an input stream running.
#[derive(Clone, Copy, Debug, PartialEq, Eq, Structural)]
pub enum RecorderPhase {
    Idle,
    Recording,
}

/// What the recording thread does next.
#[derive(Clone, Copy, Debug, PartialEq, Eq, Structural)]
pub enum RecorderAction {
    /// Open and start an input stream for a new recording.
    OpenStream,
    /// Nothing: the command does not apply in this phase.
    Ignore,
    /// Stop the stream, gather everything it captured and hand it over.
    Deliver,
    /// Drop any stream and end the thread.
    Exit,
}

/// The recording thread's response to a command (`None` when the command
/// channel is closed): the next phase and the action to perform.
pub open spec fn recorder_transition(
    phase: RecorderPhase,
    command: Option<RecorderCommand>,
) -> (RecorderPhase, RecorderAction) {
    match command {
        None => (phase, RecorderAction::Exit),
        Some(RecorderCommand::Shutdown) => (phase, RecorderAction::Exit),
        Some(RecorderCommand::Start) => match phase {
            RecorderPhase::Idle => (RecorderPhase::Idle, RecorderAction::OpenStream),
            RecorderPhase::Recording => (RecorderPhase::Recording, RecorderAction::Ignore),
        },
        Some(RecorderCommand::Stop) => match phase {
            RecorderPhase::Idle => (RecorderPhase::Idle, RecorderAction::Ignore),
            RecorderPhase::Recording => (RecorderPhase::Idle, RecorderAction::Deliver),
        },
    }
}

/// The phase after an attempt to open a stream.
pub open spec fn phase_after_open(opened: bool) -> RecorderPhase {
    if opened {
        RecorderPhase::Recording
    } else {
        RecorderPhase::Idle
    }
}

/// Decides what the recording thread does with a received command.
pub fn recorder_step(phase: RecorderPhase, command: Option<RecorderCommand>) -> (r: (
    RecorderPhase,
    RecorderAction,
))
    ensures
        r == recorder_transition(phase, command),
{
    match command {
        None => (phase, RecorderAction::Exit),
        Some(RecorderCommand::Shutdown) => (phase, RecorderAction::Exit),
        Some(RecorderCommand::Start) => match phase {
            RecorderPhase::Idle => (RecorderPhase::Idle, RecorderAction::OpenStream),
            RecorderPhase::Recording => (RecorderPhase::Recording, RecorderAction::Ignore),
        },
        Some(RecorderCommand::Stop) => match phase {
            RecorderPhase::Idle => (RecorderPhase::Idle, RecorderAction::Ignore),
            RecorderPhase::Recording => (RecorderPhase::Idle, RecorderAction::Deliver),
        },
    }
}

/// The phase the recording thread is in after trying to open a stream.
pub fn stream_opened(opened: bool) -> (r: RecorderPhase)
    ensures
        r == phase_after_open(opened),
{
    if opened {
        RecorderPhase::Recording
    } else {
        RecorderPhase::Idle
    }
}

/// A shutdown command, or the loss of the command channel, ends the
/// recording thread whatever its phase.
pub proof fn law_shutdown_ends_thread(phase: RecorderPhase)
    ensures
        recorder_transition(phase, Some(RecorderCommand::Shutdown)).1 == RecorderAction::Exit,
        recorder_transition(phase, None).1 == RecorderAction::Exit,
{
}

/// A recording is handed over exactly when a stop command reaches a
/// running recording, and the thread is idle afterwards.
pub proof fn law_deliver_only_on_stop(phase: RecorderPhase, command: Option<RecorderCommand>)
    ensures
        (recorder_transition(phase, command).1 == RecorderAction::Deliver) <==> (phase
            == RecorderPhase::Recording && command == Some(RecorderCommand::Stop)),
        recorder_transition(phase, command).1 == RecorderAction::Deliver ==> recorder_transition(
            phase,
            command,
        ).0 == RecorderPhase::Idle,
{
}

/// A start command while recording changes nothing, and a stop command
/// while idle changes nothing.
pub proof fn law_redundant_commands_ignored()
    ensures
        recorder_transition(RecorderPhase::Recording, Some(RecorderCommand::Start)) == (
            RecorderPhase::Recording,
            RecorderAction::Ignore,
        ),
        recorder_transition(RecorderPhase::Idle, Some(RecorderCommand::Stop)) == (
            RecorderPhase::Idle,
            RecorderAction::Ignore,
        ),
{
}

/// Start, a stream that opens, then stop: the thread opens a stream,
/// records, hands the recording over and is idle again.
pub proof fn law_start_then_stop_delivers()
    ensures
        recorder_transition(RecorderPhase::Idle, Some(RecorderCommand::Start)) == (
            RecorderPhase::Idle,
            RecorderAction::OpenStream,
        ),
        recorder_transition(phase_after_open(true), Some(RecorderCommand::Stop)) == (
            RecorderPhase::Idle,
            RecorderAction::Deliver,
        ),
        phase_after_open(false) == RecorderPhase::Idle,
{
}

/// The phase the recording thread reaches from idle after the commands
/// `cmds`, when every stream it opens starts.
pub open spec fn phase_after(cmds: Seq<RecorderCommand>) -> RecorderPhase
    decreases cmds.len(),
{
    if cmds.len() == 0 {
        RecorderPhase::Idle
    } else {
        let step = recorder_transition(phase_after(cmds.drop_last()), Some(cmds.last()));
        if step.1 == RecorderAction::OpenStream {
            phase_after_open(true)
        } else {
            step.0
        }
    }
}

/// A start command came after the last stop command in `cmds`.
pub open spec fn started_since_stop(cmds: Seq<RecorderCommand>) -> bool {
    exists|j: int|
        0 <= j < cmds.len() && #[trigger] cmds[j] == RecorderCommand::Start && forall|k: int|
            j < k < cmds.len() ==> #[trigger] cmds[k] != RecorderCommand::Stop
}

proof fn lemma_phase_after(cmds: Seq<RecorderCommand>)
    ensures
        (phase_after(cmds) == RecorderPhase::Recording) <==> started_since_stop(cmds),
    decreases cmds.len(),
{
    if cmds.len() > 0 {
        let p = cmds.drop_last();
        let n = cmds.len() - 1;
        lemma_phase_after(p);
        let c = cmds.last();
        assert(cmds[n] == c);
        if c == RecorderCommand::Start {
            assert(cmds[n] == RecorderCommand::Start);
            assert(forall|k: int| n < k < cmds.len() ==> cmds[k] != RecorderCommand::Stop);
        } else if c == RecorderCommand::Stop {
            if started_since_stop(cmds) {
                let j = choose|j: int|
                    0 <= j < cmds.len() && #[trigger] cmds[j] == RecorderCommand::Start
                        && forall|k: int|
                        j < k < cmds.len() ==> #[trigger] cmds[k] != RecorderCommand::Stop;
                assert(j != n);
                assert(cmds[n] != RecorderCommand::Stop);
            }
        } else {
            if started_since_stop(p) {
                let j = choose|j: int|
                    0 <= j < p.len() && #[trigger] p[j] == RecorderCommand::Start && forall|k: int|
                        j < k < p.len() ==> #[trigger] p[k] != RecorderCommand::Stop;
                assert(cmds[j] == RecorderCommand::Start);
                assert forall|k: int| j < k < cmds.len() implies #[trigger] cmds[k]
                    != RecorderCommand::Stop by {
                    if k < n {
                        assert(cmds[k] == p[k]);
                    }
                }
            }
            if started_since_stop(cmds) {
                let j = choose|j: int|
                    0 <= j < cmds.len() && #[trigger] cmds[j] == RecorderCommand::Start
                        && forall|k: int|
                        j < k < cmds.len() ==> #[trigger] cmds[k] != RecorderCommand::Stop;
                assert(j != n);
                assert(p[j] == RecorderCommand::Start);
                assert forall|k: int| j < k < p.len() implies #[trigger] p[k]
                    != RecorderCommand::Stop by {
                    assert(cmds[k] == p[k]);
                }
            }
        }
    }
}

/// Fed with commands in order, and with streams that open, the recording
/// thread hands a recording over on a stop exactly when a start came since
/// the last stop, and ignores a start that comes while a start is pending
/// (the recording is neither restarted nor split).
pub proof fn law_thread_follows_commands(cmds: Seq<RecorderCommand>, i: int)
    requires
        0 <= i < cmds.len(),
    ensures
        (recorder_transition(phase_after(cmds.take(i)), Some(cmds[i])).1
            == RecorderAction::Deliver) <==> (cmds[i] == RecorderCommand::Stop
            && started_since_stop(cmds.take(i))),
        cmds[i] == RecorderCommand::Start && started_since_stop(cmds.take(i))
            ==> recorder_transition(phase_after(cmds.take(i)), Some(cmds[i])) == (
            RecorderPhase::Recording,
            RecorderAction::Ignore,
        ),
{
    lemma_phase_after(cmds.take(i));
}

/// Why a call on the recorder failed.
#[derive(Clone, Copy, Debug, PartialEq, Eq, Structural)]
pub enum RecorderError {
    /// The start command could not be sent: the recording thread is gone.
    StartNotSent,
    /// The stop command could not be sent: the recording thread is gone.
    StopNotSent,
    /// No recording came back: the recording thread is gone.
    NoRecording,
}

/// What a closed channel reports to a sender and to a receiver.
pub open spec fn channel_report(sending: bool) -> Seq<char> {
    if sending {
        "sending on a closed channel"@
    } else {
        "receiving on a closed channel"@
    }
}

/// The message shown for each failure: what failed, then the channel's
/// own report.
pub open spec fn recorder_error_message(e: RecorderError) -> Seq<char> {
    match e {
        RecorderError::StartNotSent => "发送 Start 指令失败: "@ + channel_report(true),
        RecorderError::StopNotSent => "发送 Stop 指令失败: "@ + channel_report(true),
        RecorderError::NoRecording => "接收音频数据失败: "@ + channel_report(false),
    }
}

impl RecorderError {
    /// The message shown to the user.
    pub fn message(&self) -> (r: String)
        ensures
            r@ == recorder_error_message(*self),
    {
        let (mut text, sending) = match self {
            RecorderError::StartNotSent => (String::from_str("发送 Start 指令失败: "), true),
            RecorderError::StopNotSent => (String::from_str("发送 Stop 指令失败: "), true),
            RecorderError::NoRecording => (String::from_str("接收音频数据失败: "), false),
        };
        if sending {
            text.append("sending on a closed channel");
        } else {
            text.append("receiving on a closed channel");
        }
        text
    }
}

/// The answer to a start request, given whether the start command went out.
pub open spec fn start_result(sent: bool) -> Result<(), RecorderError> {
    if sent {
        Ok(())
    } else {
        Err(RecorderError::StartNotSent)
    }
}

/// The answer to a stop request, given whether the stop command went out
/// and, when it did, what came back on the data channel.
pub open spec fn stop_result(sent: bool, received: Option<Vec<i16>>) -> Result<
    Vec<i16>,
    RecorderError,
> {
    if !sent {
        Err(RecorderError::StopNotSent)
    } else {
        match received {
            Some(samples) => Ok(samples),
            None => Err(RecorderError::NoRecording),
        }
    }
}

/// A stop hands over exactly what the data channel delivered: the
/// delivered recording itself when the stop command went out, and an error
/// when the command was refused or nothing came.
pub proof fn law_stop_hands_over_delivery(sent: bool, received: Option<Vec<i16>>)
    ensures
        (stop_result(sent, received) is Ok) == (sent && received is Some),
        received matches Some(v) ==> (sent ==> stop_result(sent, received) == Ok::<
            Vec<i16>,
            RecorderError,
        >(v)),
{
}

/// Answers a start request once the start command has been sent or not.
pub fn start_outcome(sent: bool) -> (r: Result<(), RecorderError>)
    ensures
        r == start_result(sent),
{
    if sent {
        Ok(())
    } else {
        Err(RecorderError::StartNotSent)
    }
}

/// Answers a stop request once the stop command has been sent or not and,
/// when it was, the data channel has answered.
pub fn stop_outcome(sent: bool, received: Option<Vec<i16>>) -> (r: Result<Vec<i16>, RecorderError>)
    ensures
        r == stop_result(sent, received),
{
    if !sent {
        return Err(RecorderError::StopNotSent);
    }
    match received {
        Some(samples) => Ok(samples),
        None => Err(RecorderError::NoRecording),
    }
}

/// Sends `command` with `Sender::send`, which fails only when the
/// receiving end has been dropped. Whether it succeeds depends on the
/// other thread, so nothing is stated of the result.
#[verifier::external_body]
fn send_command(tx: &Sender<RecorderCommand>, command: RecorderCommand) -> (sent: bool) {
    tx.send(command).is_ok()
}

/// Takes a value waiting in the channel, without blocking, with
/// `Receiver::try_recv`. What is waiting depends on the other thread, so
/// nothing is stated of the result.
#[verifier::external_body]
fn take_waiting(rx: &Receiver<Vec<i16>>) -> (r: Option<Vec<i16>>) {
    rx.try_recv().ok()
}

/// Waits for the next value with `Receiver::recv`, which gives nothing
/// once the sending end has been dropped. What arrives depends on the
/// other thread, so nothing is stated of the result.
#[verifier::external_body]
fn wait_for(rx: &Receiver<Vec<i16>>) -> (r: Option<Vec<i16>>) {
    rx.recv().ok()
}

/// One exchange of the handle with the recording thread.
#[derive(Clone, Copy, Debug, PartialEq, Eq, Structural)]
pub enum ChannelEvent {
    /// A command handed to the command channel, and whether the channel
    /// took it (it refuses only once the thread is gone).
    Sent(RecorderCommand, bool),
    /// A look at the data channel without waiting, and whether a
    /// recording was waiting there (it is taken and dropped).
    Polled(bool),
    /// A wait on the data channel, and whether a recording came.
    Waited(bool),
}

/// The looks taken while draining the data channel: every one found a
/// stale recording except the last, which found the channel empty; or the
/// draining stopped after `usize::MAX` recordings, more than memory holds.
pub open spec fn is_drain(d: Seq<ChannelEvent>) -> bool {
    ||| {
        &&& d.len() >= 1
        &&& d.last() == ChannelEvent::Polled(false)
        &&& forall|i: int| 0 <= i < d.len() - 1 ==> d[i] == ChannelEvent::Polled(true)
    }
    ||| {
        &&& d.len() == usize::MAX
        &&& forall|i: int| 0 <= i < d.len() ==> d[i] == ChannelEvent::Polled(true)
    }
}

/// The commands that reached the recording thread, in order: those the
/// command channel took.
pub open spec fn commands_delivered(log: Seq<ChannelEvent>) -> Seq<RecorderCommand>
    decreases log.len(),
{
    if log.len() == 0 {
        Seq::<RecorderCommand>::empty()
    } else {
        let front = commands_delivered(log.drop_last());
        match log.last() {
            ChannelEvent::Sent(c, true) => front.push(c),
            _ => front,
        }
    }
}

/// The handle of the recording thread: commands go to it over one
/// channel, finished recordings come back over another.
pub struct AudioRecorder {
    command_tx: Sender<RecorderCommand>,
    data_rx: Receiver<Vec<i16>>,
    sample_rate: u32,
    exchanges: Ghost<Seq<ChannelEvent>>,
    handed_over: Ghost<Seq<Seq<i16>>>,
}

impl AudioRecorder {
    /// The input device's sample rate in Hz.
    pub closed spec fn rate(&self) -> u32 {
        self.sample_rate
    }

    /// Every exchange with the recording thread so far, in order.
    pub closed spec fn log(&self) -> Seq<ChannelEvent> {
        self.exchanges@
    }

    /// Every recording the data channel has handed to a waiting stop so
    /// far, each with its samples in the order the thread captured them.
    pub closed spec fn recordings(&self) -> Seq<Seq<i16>> {
        self.handed_over@
    }

    /// A handle over the channels of a running recording thread whose
    /// device records at `sample_rate` Hz.
    pub fn with_channels(
        command_tx: Sender<RecorderCommand>,
        data_rx: Receiver<Vec<i16>>,
        sample_rate: u32,
    ) -> (r: Self)
        ensures
            r.rate() == sample_rate,
            r.log() == Seq::<ChannelEvent>::empty(),
            r.recordings() == Seq::<Seq<i16>>::empty(),
    {
        AudioRecorder {
            command_tx,
            data_rx,
            sample_rate,
            exchanges: Ghost(Seq::empty()),
            handed_over: Ghost(Seq::empty()),
        }
    }

    /// Hands `command` to the thread.
    fn send(&mut self, command: RecorderCommand) -> (taken: bool)
        ensures
            final(self).rate() == old(self).rate(),
            final(self).log() == old(self).log().push(ChannelEvent::Sent(command, taken)),
            final(self).recordings() == old(self).recordings(),
    {
        let taken = send_command(&self.command_tx, command);
        self.exchanges = Ghost(self.exchanges@.push(ChannelEvent::Sent(command, taken)));
        taken
    }

    /// Takes and drops a recording waiting in the data channel, if any.
    fn poll(&mut self) -> (found: bool)
        ensures
            final(self).rate() == old(self).rate(),
            final(self).log() == old(self).log().push(ChannelEvent::Polled(found)),
            final(self).recordings() == old(self).recordings(),
    {
        let found = take_waiting(&self.data_rx).is_some();
        self.exchanges = Ghost(self.exchanges@.push(ChannelEvent::Polled(found)));
        found
    }

    /// Waits for the next recording.
    fn wait(&mut self) -> (r: Option<Vec<i16>>)
        ensures
            final(self).rate() == old(self).rate(),
            final(self).log() == old(self).log().push(ChannelEvent::Waited(r is Some)),
            r matches Some(v) ==> final(self).recordings() == old(self).recordings().push(v@),
            r is None ==> final(self).recordings() == old(self).recordings(),
    {
        let r = wait_for(&self.data_rx);
        self.exchanges = Ghost(self.exchanges@.push(ChannelEvent::Waited(r is Some)));
        self.handed_over = Ghost(
            match &r {
                Some(v) => self.handed_over@.push(v@),
                None => self.handed_over@,
            },
        );
        r
    }

    /// Drops any recording left from before, then asks the thread to
    /// start recording: the answer is `Ok` exactly when the start command
    /// was taken.
    pub fn start(&mut self) -> (r: Result<(), RecorderError>)
        ensures
            r matches Err(e) ==> e == RecorderError::StartNotSent,
            final(self).rate() == old(self).rate(),
            final(self).recordings() == old(self).recordings(),
            final(self).log().len() > old(self).log().len(),
            final(self).log().take(old(self).log().len() as int) == old(self).log(),
            is_drain(
                final(self).log().subrange(
                    old(self).log().len() as int,
                    final(self).log().len() - 1,
                ),
            ),
            final(self).log().last() matches ChannelEvent::Sent(c, taken) && c
                == RecorderCommand::Start && r == start_result(taken),
    {
        let ghost base = self.log();
        // A channel cannot hold more values than fit in memory, so the
        // count bounds the draining.
        let mut budget: usize = usize::MAX;
        let mut emptied = false;
        while budget > 0 && !emptied
            invariant
                self.rate() == old(self).rate(),
                self.recordings() == old(self).recordings(),
                base == old(self).log(),
                self.log().len() == base.len() + (usize::MAX - budget),
                self.log().take(base.len() as int) == base,
                forall|i: int|
                    base.len() <= i < self.log().len() - (if emptied {
                        1int
                    } else {
                        0int
                    }) ==> self.log()[i] == ChannelEvent::Polled(true),
                emptied ==> self.log().len() > base.len() && self.log().last()
                    == ChannelEvent::Polled(false),
            decreases budget,
        {
            let ghost before = self.log();
            let found = self.poll();
            proof {
                assert(self.log().take(base.len() as int) =~= before.take(base.len() as int));
            }
            if !found {
                emptied = true;
            }
            budget = budget - 1;
        }
        let ghost drained = self.log();
        proof {
            let d = drained.subrange(base.len() as int, drained.len() as int);
            if emptied {
                assert forall|i: int| 0 <= i < d.len() - 1 implies d[i] == ChannelEvent::Polled(
                    true,
                ) by {
                    assert(d[i] == drained[base.len() + i]);
                }
                assert(d.last() == drained.last());
            } else {
                assert forall|i: int| 0 <= i < d.len() implies d[i] == ChannelEvent::Polled(
                    true,
                ) by {
                    assert(d[i] == drained[base.len() + i]);
                }
            }
            assert(is_drain(d));
        }
        let taken = self.send(RecorderCommand::Start);
        proof {
            let after = self.log();
            assert(after.take(base.len() as int) =~= drained.take(base.len() as int));
            assert(after.subrange(base.len() as int, after.len() - 1) =~= drained.subrange(
                base.len() as int,
                drained.len() as int,
            ));
        }
        start_outcome(taken)
    }

    /// Asks the thread to stop recording and, when the stop command was
    /// taken, waits for the recording.
    pub fn stop(&mut self) -> (r: Result<Vec<i16>, RecorderError>)
        ensures
            r matches Err(e) ==> (e == RecorderError::StopNotSent || e
                == RecorderError::NoRecording),
            final(self).rate() == old(self).rate(),
            r matches Ok(v) ==> final(self).recordings() == old(self).recordings().push(v@),
            r is Err ==> final(self).recordings() == old(self).recordings(),
            r == Err::<Vec<i16>, RecorderError>(RecorderError::StopNotSent) ==> final(self).log()
                == old(self).log().push(ChannelEvent::Sent(RecorderCommand::Stop, false)),
            r != Err::<Vec<i16>, RecorderError>(RecorderError::StopNotSent) ==> final(self).log()
                == old(self).log().push(ChannelEvent::Sent(RecorderCommand::Stop, true)).push(
                ChannelEvent::Waited(r is Ok),
            ),
    {
        if !self.send(RecorderCommand::Stop) {
            return stop_outcome(false, None);
        }
        let received = self.wait();
        stop_outcome(true, received)
    }

    /// The input device's sample rate in Hz.
    pub fn sample_rate(&self) -> (r: u32)
        ensures
            r == self.rate(),
    {
        self.sample_rate
    }

    /// Asks the thread to end; a thread that is already gone needs nothing.
    pub fn shutdown(&mut self)
        ensures
            final(self).rate() == old(self).rate(),
            final(self).recordings() == old(self).recordings(),
            final(self).log().len() == old(self).log().len() + 1,
            final(self).log().take(old(self).log().len() as int) == old(self).log(),
            final(self).log().last() matches ChannelEvent::Sent(c, _) && c
                == RecorderCommand::Shutdown,
    {
        let _ = self.send(RecorderCommand::Shutdown);
        proof {
            assert(self.log().take(old(self).log().len() as int) =~= old(self).log());
        }
    }
}

/// Once the thread has taken a start command from a handle it is
/// recording, and once it has taken a stop command it is idle (with
/// streams that open).
pub proof fn law_delivered_command_sets_phase(log: Seq<ChannelEvent>)
    requires
        log.len() > 0,
    ensures
        log.last() == ChannelEvent::Sent(RecorderCommand::Start, true) ==> phase_after(
            commands_delivered(log),
        ) == RecorderPhase::Recording,
        log.last() == ChannelEvent::Sent(RecorderCommand::Stop, true) ==> phase_after(
            commands_delivered(log),
        ) == RecorderPhase::Idle,
{
    let cmds = commands_delivered(log);
    if log.last() == ChannelEvent::Sent(RecorderCommand::Start, true) || log.last()
        == ChannelEvent::Sent(RecorderCommand::Stop, true) {
        assert(cmds.len() > 0);
        assert(cmds.drop_last() == commands_delivered(log.drop_last()));
    }
}

} // verus!
