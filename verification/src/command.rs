//! Running a command to its end: with a time limit, a limit on its output, and
//! a token that cancels it. Whatever happens, a command that was started is
//! stopped, with everything that it started.

use vstd::prelude::*;
use crate::herdr::{HerdrError, HerdrErrorModel, Result};
use crate::text;

verus! {

/// How many seconds a command may take.
pub const COMMAND_TIMEOUT_SECS: u64 = 30;

/// How many bytes a command may print to one output.
pub const MAX_COMMAND_OUTPUT: usize = 8_388_608;

/// What reading an output gave.
#[derive(Debug)]
pub enum ReadEvent {
    /// Some bytes; none at its end.
    Bytes(Vec<u8>),
    /// Nothing for now.
    WouldBlock,
    /// A signal came in between.
    Interrupted,
    /// An error.
    Failed(String),
}

/// How reading an output goes on.
#[derive(Debug, PartialEq, Eq)]
pub enum DrainStep {
    /// There may be more.
    More,
    /// There is no more for now.
    Done,
    /// Reading failed.
    Failed(String),
}

/// The view of a [`DrainStep`].
#[verifier::ext_equal]
pub enum DrainModel {
    More,
    Done,
    Failed(Seq<char>),
}

impl View for DrainStep {
    type V = DrainModel;

    open spec fn view(&self) -> DrainModel {
        match self {
            DrainStep::More => DrainModel::More,
            DrainStep::Done => DrainModel::Done,
            DrainStep::Failed(error) => DrainModel::Failed(error@),
        }
    }
}

/// What was read so far, and how reading goes on, after what reading gave.
pub open spec fn drained(output: Seq<u8>, event: ReadEvent) -> (Seq<u8>, DrainModel) {
    match event {
        ReadEvent::Bytes(bytes) => if bytes@.len() == 0 {
            (output, DrainModel::Done)
        } else if output.len() + bytes@.len() > MAX_COMMAND_OUTPUT {
            (output, DrainModel::Failed("command output exceeds 8 MiB limit"@))
        } else {
            (output + bytes@, DrainModel::More)
        },
        ReadEvent::WouldBlock => (output, DrainModel::Done),
        ReadEvent::Interrupted => (output, DrainModel::More),
        ReadEvent::Failed(error) => (output, DrainModel::Failed(error@)),
    }
}

/// Take in what reading an output gave.
pub fn drain_step(output: &mut Vec<u8>, event: ReadEvent) -> (step: DrainStep)
    ensures
        (final(output)@, step@) == drained(old(output)@, event),
        old(output)@.len() <= MAX_COMMAND_OUTPUT ==> final(output)@.len() <= MAX_COMMAND_OUTPUT,
{
    match event {
        ReadEvent::Bytes(bytes) => {
            if bytes.len() == 0 {
                return DrainStep::Done;
            }
            if output.len() > MAX_COMMAND_OUTPUT || bytes.len() > MAX_COMMAND_OUTPUT - output.len() {
                return DrainStep::Failed("command output exceeds 8 MiB limit".to_string());
            }
            let mut bytes = bytes;
            output.append(&mut bytes);
            DrainStep::More
        },
        ReadEvent::WouldBlock => DrainStep::Done,
        ReadEvent::Interrupted => DrainStep::More,
        ReadEvent::Failed(error) => DrainStep::Failed(error),
    }
}

/// What to do for a command.
#[derive(Debug, Clone, Copy, PartialEq, Eq)]
pub enum CommandAction {
    /// Look at the cancellation token and at the clock.
    Check,
    /// Start the command, in a session of its own.
    Spawn,
    /// Make its outputs readable without waiting.
    Configure,
    /// Read what its outputs hold.
    Drain,
    /// Ask whether it has ended.
    Wait,
    /// Wait a moment.
    Sleep,
    /// Stop it, with everything that it started.
    Stop,
    /// Nothing: it is over.
    Done,
}

/// What came of it.
#[derive(Debug)]
pub enum CommandEvent {
    /// The token and the clock, in seconds since the start.
    Checked { cancelled: bool, elapsed: u64 },
    Spawned(std::result::Result<(), String>),
    Configured(std::result::Result<(), String>),
    Drained(std::result::Result<(), String>),
    /// Whether it has ended, and then whether it succeeded.
    Waited(std::result::Result<Option<bool>, String>),
    Slept,
    Stopped,
}

/// How a command ended: whether it succeeded, or why it was given up.
pub type Ending = std::result::Result<bool, HerdrError>;

/// The view of an ending.
pub open spec fn ending_view(ending: Ending) -> std::result::Result<bool, HerdrErrorModel> {
    match ending {
        Ok(success) => Ok(success),
        Err(error) => Err(error@),
    }
}

/// Where a command stands.
#[derive(Debug)]
pub enum CommandStage {
    /// Before the start.
    Starting,
    /// Being started.
    Spawning,
    /// Started; its outputs are being set up.
    Configuring,
    /// Running; the token and the clock come next.
    Checking,
    /// Running; its outputs come next.
    Draining,
    /// Running; whether it has ended comes next.
    Waiting,
    /// Running; a moment passes.
    Sleeping,
    /// Being stopped, for an ending.
    Stopping(Ending),
    /// Stopped after it had ended; its outputs come last.
    Collecting(bool),
    /// Over.
    Ended(Ending),
}

/// The view of a [`CommandStage`].
#[verifier::ext_equal]
pub enum StageModel {
    Starting,
    Spawning,
    Configuring,
    Checking,
    Draining,
    Waiting,
    Sleeping,
    Stopping(std::result::Result<bool, HerdrErrorModel>),
    Collecting(bool),
    Ended(std::result::Result<bool, HerdrErrorModel>),
}

impl View for CommandStage {
    type V = StageModel;

    open spec fn view(&self) -> StageModel {
        match self {
            CommandStage::Starting => StageModel::Starting,
            CommandStage::Spawning => StageModel::Spawning,
            CommandStage::Configuring => StageModel::Configuring,
            CommandStage::Checking => StageModel::Checking,
            CommandStage::Draining => StageModel::Draining,
            CommandStage::Waiting => StageModel::Waiting,
            CommandStage::Sleeping => StageModel::Sleeping,
            CommandStage::Stopping(ending) => StageModel::Stopping(ending_view(*ending)),
            CommandStage::Collecting(success) => StageModel::Collecting(*success),
            CommandStage::Ended(ending) => StageModel::Ended(ending_view(*ending)),
        }
    }
}

impl StageModel {
    /// What to do at a stage.
    pub open spec fn action(self) -> CommandAction {
        match self {
            StageModel::Starting => CommandAction::Check,
            StageModel::Spawning => CommandAction::Spawn,
            StageModel::Configuring => CommandAction::Configure,
            StageModel::Checking => CommandAction::Check,
            StageModel::Draining => CommandAction::Drain,
            StageModel::Waiting => CommandAction::Wait,
            StageModel::Sleeping => CommandAction::Sleep,
            StageModel::Stopping(_) => CommandAction::Stop,
            StageModel::Collecting(_) => CommandAction::Drain,
            StageModel::Ended(_) => CommandAction::Done,
        }
    }

    /// Whether the command runs, or may still do so.
    pub open spec fn runs(self) -> bool {
        match self {
            StageModel::Configuring => true,
            StageModel::Checking => true,
            StageModel::Draining => true,
            StageModel::Waiting => true,
            StageModel::Sleeping => true,
            StageModel::Stopping(_) => true,
            _ => false,
        }
    }

    /// The next stage, after what came of the action.
    pub open spec fn next(self, label: Seq<char>, event: CommandEvent) -> StageModel {
        match (self, event) {
            (StageModel::Starting, CommandEvent::Checked { cancelled, .. }) => if cancelled {
                StageModel::Ended(Err(cancelled_error(label)))
            } else {
                StageModel::Spawning
            },
            (StageModel::Spawning, CommandEvent::Spawned(Ok(_))) => StageModel::Configuring,
            (StageModel::Spawning, CommandEvent::Spawned(Err(error))) => StageModel::Ended(
                Err(HerdrErrorModel::Spawn("spawn "@ + label + ": "@ + error@)),
            ),
            (StageModel::Configuring, CommandEvent::Configured(Ok(_))) => StageModel::Checking,
            (StageModel::Configuring, CommandEvent::Configured(Err(error))) => StageModel::Stopping(
                Err(HerdrErrorModel::Spawn("configure "@ + label + " output: "@ + error@)),
            ),
            (StageModel::Checking, CommandEvent::Checked { cancelled, elapsed }) => if cancelled {
                StageModel::Stopping(Err(cancelled_error(label)))
            } else if elapsed >= COMMAND_TIMEOUT_SECS {
                StageModel::Stopping(Err(timeout_error(label)))
            } else {
                StageModel::Draining
            },
            (StageModel::Draining, CommandEvent::Drained(Ok(_))) => StageModel::Waiting,
            (StageModel::Draining, CommandEvent::Drained(Err(error))) => StageModel::Stopping(
                Err(read_error(label, error@)),
            ),
            (StageModel::Waiting, CommandEvent::Waited(Ok(Some(success)))) => StageModel::Stopping(
                Ok(success),
            ),
            (StageModel::Waiting, CommandEvent::Waited(Ok(None))) => StageModel::Sleeping,
            (StageModel::Waiting, CommandEvent::Waited(Err(error))) => StageModel::Stopping(
                Err(HerdrErrorModel::Spawn("wait for "@ + label + ": "@ + error@)),
            ),
            (StageModel::Sleeping, CommandEvent::Slept) => StageModel::Checking,
            (StageModel::Stopping(Ok(success)), CommandEvent::Stopped) => StageModel::Collecting(
                success,
            ),
            (StageModel::Stopping(Err(error)), CommandEvent::Stopped) => StageModel::Ended(
                Err(error),
            ),
            (StageModel::Collecting(success), CommandEvent::Drained(Ok(_))) => StageModel::Ended(
                Ok(success),
            ),
            (StageModel::Collecting(_), CommandEvent::Drained(Err(error))) => StageModel::Ended(
                Err(read_error(label, error@)),
            ),
            _ => self,
        }
    }
}

/// The error of a cancelled command.
pub open spec fn cancelled_error(label: Seq<char>) -> HerdrErrorModel {
    HerdrErrorModel::Cancelled(label + " cancelled"@)
}

/// The error of a command that took too long.
pub open spec fn timeout_error(label: Seq<char>) -> HerdrErrorModel {
    HerdrErrorModel::Timeout(
        label + " timed out after "@ + text::decimal(COMMAND_TIMEOUT_SECS as nat) + " seconds"@,
    )
}

/// The error of a command whose output could not be read.
pub open spec fn read_error(label: Seq<char>, error: Seq<char>) -> HerdrErrorModel {
    HerdrErrorModel::Spawn("read "@ + label + " output: "@ + error)
}

/// A message around a label.
fn message(before: &str, label: &str, after: &str, error: &str) -> (words: String)
    ensures
        words@ == before@ + label@ + after@ + error@,
{
    let mut words = text::joined(before, label);
    words.append(after);
    words.append(error);
    words
}

/// A command on its way.
#[derive(Debug)]
pub struct CommandRun {
    label: String,
    stage: CommandStage,
}

/// The view of a [`CommandRun`].
#[verifier::ext_equal]
pub struct CommandModel {
    pub label: Seq<char>,
    pub stage: StageModel,
}

impl View for CommandRun {
    type V = CommandModel;

    closed spec fn view(&self) -> CommandModel {
        CommandModel { label: self.label@, stage: self.stage@ }
    }
}

impl CommandRun {
    /// A command that has not been started, under the name that messages use.
    pub fn new(label: &str) -> (run: CommandRun)
        ensures
            run@ == (CommandModel { label: label@, stage: StageModel::Starting }),
    {
        CommandRun { label: label.to_string(), stage: CommandStage::Starting }
    }

    /// What to do now.
    pub fn action(&self) -> (action: CommandAction)
        ensures
            action == self@.stage.action(),
    {
        match &self.stage {
            CommandStage::Starting => CommandAction::Check,
            CommandStage::Spawning => CommandAction::Spawn,
            CommandStage::Configuring => CommandAction::Configure,
            CommandStage::Checking => CommandAction::Check,
            CommandStage::Draining => CommandAction::Drain,
            CommandStage::Waiting => CommandAction::Wait,
            CommandStage::Sleeping => CommandAction::Sleep,
            CommandStage::Stopping(_) => CommandAction::Stop,
            CommandStage::Collecting(_) => CommandAction::Drain,
            CommandStage::Ended(_) => CommandAction::Done,
        }
    }

    /// The error of a cancelled command.
    fn cancelled(&self) -> (error: HerdrError)
        ensures
            error@ == cancelled_error(self@.label),
    {
        HerdrError::Cancelled(text::joined(self.label.as_str(), " cancelled"))
    }

    /// The error of a command that took too long.
    fn timed_out(&self) -> (error: HerdrError)
        ensures
            error@ == timeout_error(self@.label),
    {
        let mut words = text::joined(self.label.as_str(), " timed out after ");
        words.append(text::number_text(30).as_str());
        words.append(" seconds");
        HerdrError::Timeout(words)
    }

    /// The error of a command whose output could not be read.
    fn unreadable(&self, error: &str) -> (failure: HerdrError)
        ensures
            failure@ == read_error(self@.label, error@),
    {
        let label = self.label.as_str();
        HerdrError::Spawn(message("read ", label, " output: ", error))
    }

    /// The stage after a look at the token and at the clock.
    fn checked(&self, cancelled: bool, elapsed: u64) -> (stage: CommandStage)
        requires
            self@.stage is Checking,
        ensures
            stage@ == self@.stage.next(
                self@.label,
                CommandEvent::Checked { cancelled, elapsed },
            ),
    {
        if cancelled {
            CommandStage::Stopping(Err(self.cancelled()))
        } else if elapsed >= COMMAND_TIMEOUT_SECS {
            CommandStage::Stopping(Err(self.timed_out()))
        } else {
            CommandStage::Draining
        }
    }

    /// Take in what came of the action.
    pub fn step(&mut self, event: CommandEvent)
        ensures
            final(self)@ == (CommandModel {
                stage: old(self)@.stage.next(old(self)@.label, event),
                ..old(self)@
            }),
    {
        let label = self.label.as_str();
        let next = match (&self.stage, event) {
            (CommandStage::Starting, CommandEvent::Checked { cancelled, .. }) => if cancelled {
                CommandStage::Ended(Err(self.cancelled()))
            } else {
                CommandStage::Spawning
            },
            (CommandStage::Spawning, CommandEvent::Spawned(Ok(_))) => CommandStage::Configuring,
            (CommandStage::Spawning, CommandEvent::Spawned(Err(error))) => CommandStage::Ended(
                Err(HerdrError::Spawn(message("spawn ", label, ": ", error.as_str()))),
            ),
            (CommandStage::Configuring, CommandEvent::Configured(Ok(_))) => CommandStage::Checking,
            (
                CommandStage::Configuring,
                CommandEvent::Configured(Err(error)),
            ) => CommandStage::Stopping(
                Err(HerdrError::Spawn(message("configure ", label, " output: ", error.as_str()))),
            ),
            (CommandStage::Checking, CommandEvent::Checked { cancelled, elapsed }) => self.checked(
                cancelled,
                elapsed,
            ),
            (CommandStage::Draining, CommandEvent::Drained(Ok(_))) => CommandStage::Waiting,
            (CommandStage::Draining, CommandEvent::Drained(Err(error))) => CommandStage::Stopping(
                Err(self.unreadable(error.as_str())),
            ),
            (
                CommandStage::Waiting,
                CommandEvent::Waited(Ok(Some(success))),
            ) => CommandStage::Stopping(Ok(success)),
            (CommandStage::Waiting, CommandEvent::Waited(Ok(None))) => CommandStage::Sleeping,
            (CommandStage::Waiting, CommandEvent::Waited(Err(error))) => CommandStage::Stopping(
                Err(HerdrError::Spawn(message("wait for ", label, ": ", error.as_str()))),
            ),
            (CommandStage::Sleeping, CommandEvent::Slept) => CommandStage::Checking,
            (CommandStage::Stopping(Ok(success)), CommandEvent::Stopped) => {
                CommandStage::Collecting(*success)
            },
            (CommandStage::Stopping(Err(error)), CommandEvent::Stopped) => CommandStage::Ended(
                Err(error.clone()),
            ),
            (CommandStage::Collecting(success), CommandEvent::Drained(Ok(_))) => {
                CommandStage::Ended(Ok(*success))
            },
            (CommandStage::Collecting(_), CommandEvent::Drained(Err(error))) => CommandStage::Ended(
                Err(self.unreadable(error.as_str())),
            ),
            _ => {
                return;
            },
        };
        self.stage = next;
    }

    /// How the command ended, once it has.
    pub fn ending(&self) -> (ending: Option<Ending>)
        ensures
            match ending {
                Some(ending) => self@.stage == StageModel::Ended(ending_view(ending)),
                None => self@.stage !is Ended,
            },
    {
        match &self.stage {
            CommandStage::Ended(Ok(success)) => Some(Ok(*success)),
            CommandStage::Ended(Err(error)) => Some(Err(error.clone())),
            _ => None,
        }
    }
}

/// A command that runs is never left behind: it comes to an end only by being
/// stopped.
pub proof fn running_command_is_stopped_first(
    stage: StageModel,
    label: Seq<char>,
    event: CommandEvent,
)
    requires
        stage.runs(),
        !stage.next(label, event).runs(),
    ensures
        stage is Stopping,
        event is Stopped,
{
}

/// A cancelled command, and one that takes too long, is stopped at the next look,
/// and says so.
pub proof fn limits_stop_a_command(label: Seq<char>, elapsed: u64)
    ensures
        StageModel::Checking.next(label, CommandEvent::Checked { cancelled: true, elapsed })
            == StageModel::Stopping(Err(cancelled_error(label))),
        elapsed >= COMMAND_TIMEOUT_SECS ==> StageModel::Checking.next(
            label,
            CommandEvent::Checked { cancelled: false, elapsed },
        ) == StageModel::Stopping(Err(timeout_error(label))),
        StageModel::Starting.next(label, CommandEvent::Checked { cancelled: true, elapsed })
            == StageModel::Ended(Err(cancelled_error(label))),
{
}

/// What has ended stays as it is.
pub proof fn ended_command_stays_ended(stage: StageModel, label: Seq<char>, event: CommandEvent)
    requires
        stage is Ended,
    ensures
        stage.next(label, event) == stage,
{
}

} // verus!
