//! Shared types: timestamps, modalities, priorities, statuses and errors.
use vstd::prelude::*;
use std::time::Duration;
use std::time::SystemTime;
use std::time::SystemTimeError;

use crate::text::concat_str;

verus! {

#[verifier::external_type_specification]
#[verifier::external_body]
pub struct ExSystemTime(SystemTime);

#[verifier::external_type_specification]
#[verifier::external_body]
pub struct ExSystemTimeError(SystemTimeError);

/// Calls `std::time::SystemTime::now`: the current wall-clock time.
/// Nothing is claimed of the value returned.
#[verifier::external_body]
pub(crate) fn wall_clock_now() -> SystemTime {
    SystemTime::now()
}

/// Calls `SystemTime::duration_since` with `UNIX_EPOCH` as the earlier time.
/// It errs when the clock reads a time before the epoch; nothing else is claimed.
#[verifier::external_body]
fn since_unix_epoch(t: &SystemTime) -> Result<Duration, SystemTimeError> {
    t.duration_since(std::time::UNIX_EPOCH)
}

/// Calls `Duration::as_millis`: the whole number of milliseconds in the duration.
/// The value depends on the duration alone, which Verus does not see into, so
/// nothing is claimed of it here.
#[verifier::external_body]
fn duration_millis(d: &Duration) -> u128 {
    d.as_millis()
}

/// Calls `uuid::Uuid::new_v4` and formats the random UUID with `to_string`.
/// The value is random: nothing is claimed of it.
#[verifier::external_body]
pub(crate) fn new_uuid_string() -> String {
    uuid::Uuid::new_v4().to_string()
}

/// Milliseconds since the UNIX epoch.
#[derive(Debug, Clone, Copy, PartialEq, Eq, PartialOrd, Ord, Hash)]
pub struct Timestamp(pub u64);

impl Timestamp {
    /// The current time in milliseconds since the UNIX epoch (truncated to 64 bits).
    /// A clock set before the epoch reads as 0.
    pub fn now() -> Timestamp {
        let t = wall_clock_now();
        let ms = match since_unix_epoch(&t) {
            Ok(d) => Some(duration_millis(&d)),
            Err(_) => None,
        };
        Self::from_epoch_millis(ms)
    }

    /// The timestamp of a clock reading: its milliseconds since the epoch,
    /// truncated to 64 bits, or 0 for a clock set before the epoch (`None`).
    pub fn from_epoch_millis(ms: Option<u128>) -> (t: Timestamp)
        ensures
            t == Timestamp(
                match ms {
                    Some(m) => m as u64,
                    None => 0,
                },
            ),
    {
        match ms {
            Some(m) => Timestamp(m as u64),
            None => Timestamp(0),
        }
    }
}

/// Sensor modality.
#[derive(Debug, Clone, Copy, PartialEq, Eq, Hash, Structural)]
pub enum Modality {
    Vision,
    Audio,
    Lidar,
    Imu,
    Touch,
}

/// Priority level for actions and behaviors, from `Low` to `Critical`.
#[derive(Debug, Clone, Copy, PartialEq, Eq, PartialOrd, Ord, Hash, Structural)]
pub enum Priority {
    Low,
    Normal,
    High,
    Critical,
}

impl Priority {
    /// The numeric rank of the priority: `Low` is 0, `Critical` is 3.
    pub open spec fn spec_rank(self) -> nat {
        match self {
            Priority::Low => 0,
            Priority::Normal => 1,
            Priority::High => 2,
            Priority::Critical => 3,
        }
    }

    /// The numeric rank of the priority.
    pub fn rank(&self) -> (r: u8)
        ensures
            r == self.spec_rank(),
    {
        match self {
            Priority::Low => 0,
            Priority::Normal => 1,
            Priority::High => 2,
            Priority::Critical => 3,
        }
    }
}

/// Threat level for the guardian system, from `NoThreat` to `Confirmed`.
#[derive(Debug, Clone, Copy, PartialEq, Eq, PartialOrd, Ord, Hash, Structural)]
pub enum ThreatLevel {
    NoThreat,
    Suspicious,
    Confirmed,
}

impl ThreatLevel {
    /// The numeric rank of the level: `NoThreat` is 0, `Confirmed` is 2.
    pub open spec fn spec_rank(self) -> nat {
        match self {
            ThreatLevel::NoThreat => 0,
            ThreatLevel::Suspicious => 1,
            ThreatLevel::Confirmed => 2,
        }
    }

    /// The text shown for the level.
    pub open spec fn spec_label(self) -> Seq<char> {
        match self {
            ThreatLevel::NoThreat => "NONE"@,
            ThreatLevel::Suspicious => "SUSPICIOUS"@,
            ThreatLevel::Confirmed => "CONFIRMED"@,
        }
    }

    /// The numeric rank of the level.
    pub fn rank(&self) -> (r: u8)
        ensures
            r == self.spec_rank(),
    {
        match self {
            ThreatLevel::NoThreat => 0,
            ThreatLevel::Suspicious => 1,
            ThreatLevel::Confirmed => 2,
        }
    }

    /// The display text of the level: `NONE`, `SUSPICIOUS` or `CONFIRMED`.
    pub fn label(&self) -> (s: &'static str)
        ensures
            s@ == self.spec_label(),
    {
        match self {
            ThreatLevel::NoThreat => "NONE",
            ThreatLevel::Suspicious => "SUSPICIOUS",
            ThreatLevel::Confirmed => "CONFIRMED",
        }
    }
}

/// Status of a task node.
#[derive(Debug, Clone, Copy, PartialEq, Eq, Structural)]
pub enum TaskStatus {
    Pending,
    InProgress,
    Completed,
    Failed,
}

/// Kind of memory entry.
#[derive(Debug, Clone, Copy, PartialEq, Eq, Structural)]
pub enum MemoryKind {
    Perception,
    Conversation,
    Goal,
    Event,
    Fact,
}

/// Events that can influence the emotional state.
#[derive(Debug, Clone, Copy, PartialEq, Eq, Structural)]
pub enum EmotionalEvent {
    PositiveInteraction,
    NegativeInteraction,
    ThreatDetected,
    GoalCompleted,
    GoalFailed,
    Idle,
}

/// The kind of object in the simulated world.
#[derive(Debug, Clone, PartialEq, Eq)]
pub enum ObjectKind {
    Obstacle,
    Target,
    Person { name: Option<String>, is_known: bool },
}

impl ObjectKind {
    /// The map symbol of an object kind.
    pub open spec fn spec_symbol(&self) -> char {
        match self {
            ObjectKind::Obstacle => 'O',
            ObjectKind::Target => 'T',
            ObjectKind::Person { .. } => 'P',
        }
    }

    /// The map symbol of an object kind: `O` obstacle, `T` target, `P` person.
    pub fn symbol(&self) -> (c: char)
        ensures
            c == self.spec_symbol(),
    {
        match self {
            ObjectKind::Obstacle => 'O',
            ObjectKind::Target => 'T',
            ObjectKind::Person { .. } => 'P',
        }
    }
}

/// Errors of the brain's subsystems, each with its message.
#[derive(Debug, Clone, PartialEq, Eq)]
pub enum BrainError {
    Sensor(String),
    Actuator(String),
    Memory(String),
    Perception(String),
    Language(String),
    Planner(String),
    Decision(String),
    Bus(String),
    Config(String),
    Internal(String),
    Io(String),
}

impl BrainError {
    /// The prefix of the error's text, before its message.
    pub open spec fn spec_prefix(&self) -> Seq<char> {
        match self {
            BrainError::Sensor(_) => "Sensor subsystem failed: "@,
            BrainError::Actuator(_) => "Actuator command failed: "@,
            BrainError::Memory(_) => "Memory store operation failed: "@,
            BrainError::Perception(_) => "Perception pipeline failed: "@,
            BrainError::Language(_) => "Language backend error: "@,
            BrainError::Planner(_) => "Planner could not decompose goal: "@,
            BrainError::Decision(_) => "Decision engine error: "@,
            BrainError::Bus(_) => "Event bus error: "@,
            BrainError::Config(_) => "Configuration error: "@,
            BrainError::Internal(_) => "Internal error: "@,
            BrainError::Io(_) => "I/O error: "@,
        }
    }

    /// The message the error carries.
    pub open spec fn spec_message(&self) -> Seq<char> {
        match self {
            BrainError::Sensor(m) => m@,
            BrainError::Actuator(m) => m@,
            BrainError::Memory(m) => m@,
            BrainError::Perception(m) => m@,
            BrainError::Language(m) => m@,
            BrainError::Planner(m) => m@,
            BrainError::Decision(m) => m@,
            BrainError::Bus(m) => m@,
            BrainError::Config(m) => m@,
            BrainError::Internal(m) => m@,
            BrainError::Io(m) => m@,
        }
    }

    /// The full text of the error, as it is displayed.
    pub fn describe(&self) -> (s: String)
        ensures
            s@ == self.spec_prefix() + self.spec_message(),
    {
        match self {
            BrainError::Sensor(m) => concat_str("Sensor subsystem failed: ", m.as_str()),
            BrainError::Actuator(m) => concat_str("Actuator command failed: ", m.as_str()),
            BrainError::Memory(m) => concat_str("Memory store operation failed: ", m.as_str()),
            BrainError::Perception(m) => concat_str("Perception pipeline failed: ", m.as_str()),
            BrainError::Language(m) => concat_str("Language backend error: ", m.as_str()),
            BrainError::Planner(m) => concat_str("Planner could not decompose goal: ", m.as_str()),
            BrainError::Decision(m) => concat_str("Decision engine error: ", m.as_str()),
            BrainError::Bus(m) => concat_str("Event bus error: ", m.as_str()),
            BrainError::Config(m) => concat_str("Configuration error: ", m.as_str()),
            BrainError::Internal(m) => concat_str("Internal error: ", m.as_str()),
            BrainError::Io(m) => concat_str("I/O error: ", m.as_str()),
        }
    }
}

} // verus!
