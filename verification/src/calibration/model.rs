use vstd::prelude::*;

use crate::jobs::{JobId, JobRecord};
use crate::sensor::Sensor;

verus! {

/// The job actions of a preflight calibration.
#[derive(Clone, Copy, Debug, PartialEq, Eq, Structural)]
pub enum Action {
    StartPreflightCalibration,
    AwaitCommandAck,
    ReadOffsets,
    CancelCalibration,
}

/// The job name under which an action is enqueued.
pub open spec fn action_name(action: Action) -> Seq<char> {
    match action {
        Action::StartPreflightCalibration => "start_preflight_calibration"@,
        Action::AwaitCommandAck => "await_command_ack"@,
        Action::ReadOffsets => "read_offsets"@,
        Action::CancelCalibration => "cancel_calibration"@,
    }
}

impl Action {
    pub fn name(self) -> (name: &'static str)
        ensures
            name@ == action_name(self),
    {
        match self {
            Action::StartPreflightCalibration => "start_preflight_calibration",
            Action::AwaitCommandAck => "await_command_ack",
            Action::ReadOffsets => "read_offsets",
            Action::CancelCalibration => "cancel_calibration",
        }
    }
}

/// Why a calibration was requested.
#[derive(Clone, Copy, Debug, PartialEq, Eq, Structural)]
pub enum UseCase {
    CalibrateGyroscope,
    CalibrateBarometer,
    CalibrateStationarySensors,
    CancelCalibration,
}

/// Where the calibration of one sensor stands.
#[derive(Clone, Copy, Debug, PartialEq, Eq, Structural)]
pub enum CalibrationStatus {
    Idle,
    Running,
    Succeeded,
    Failed,
    Cancelled,
}

/// The calibration service's state.
#[derive(Debug)]
pub struct Snapshot {
    pub gyro: CalibrationStatus,
    pub baro: CalibrationStatus,
    pub last_ack: Option<String>,
    pub gyro_offset: Option<i32>,
    pub ground_pressure: Option<i32>,
}

/// The value of a `Snapshot`.
pub struct SnapshotView {
    pub gyro: CalibrationStatus,
    pub baro: CalibrationStatus,
    pub last_ack: Option<Seq<char>>,
    pub gyro_offset: Option<i32>,
    pub ground_pressure: Option<i32>,
}

impl View for Snapshot {
    type V = SnapshotView;

    open spec fn view(&self) -> SnapshotView {
        SnapshotView {
            gyro: self.gyro,
            baro: self.baro,
            last_ack: match self.last_ack {
                Some(ack) => Some(ack@),
                None => None,
            },
            gyro_offset: self.gyro_offset,
            ground_pressure: self.ground_pressure,
        }
    }
}

impl SnapshotView {
    /// The status of `sensor`.
    pub open spec fn status(self, sensor: Sensor) -> CalibrationStatus {
        match sensor {
            Sensor::Gyro => self.gyro,
            Sensor::Baro => self.baro,
        }
    }

    /// The offset recorded for `sensor` (the gyro offset or the ground pressure).
    pub open spec fn offset(self, sensor: Sensor) -> Option<i32> {
        match sensor {
            Sensor::Gyro => self.gyro_offset,
            Sensor::Baro => self.ground_pressure,
        }
    }

    /// This snapshot with the status of `sensor` replaced.
    pub open spec fn with_status(self, sensor: Sensor, status: CalibrationStatus) -> SnapshotView {
        match sensor {
            Sensor::Gyro => SnapshotView { gyro: status, ..self },
            Sensor::Baro => SnapshotView { baro: status, ..self },
        }
    }

    /// This snapshot with the offset of `sensor` replaced.
    pub open spec fn with_offset(self, sensor: Sensor, offset: Option<i32>) -> SnapshotView {
        match sensor {
            Sensor::Gyro => SnapshotView { gyro_offset: offset, ..self },
            Sensor::Baro => SnapshotView { ground_pressure: offset, ..self },
        }
    }

    /// This snapshot with the last acknowledgement replaced.
    pub open spec fn with_last_ack(self, last_ack: Option<Seq<char>>) -> SnapshotView {
        SnapshotView { last_ack, ..self }
    }
}

/// The default snapshot: both sensors idle, nothing recorded.
pub open spec fn default_snapshot() -> SnapshotView {
    SnapshotView {
        gyro: CalibrationStatus::Idle,
        baro: CalibrationStatus::Idle,
        last_ack: None,
        gyro_offset: None,
        ground_pressure: None,
    }
}

impl Default for Snapshot {
    fn default() -> (s: Snapshot)
        ensures
            s@ == default_snapshot(),
    {
        Snapshot {
            gyro: CalibrationStatus::Idle,
            baro: CalibrationStatus::Idle,
            last_ack: None,
            gyro_offset: None,
            ground_pressure: None,
        }
    }
}

impl Snapshot {
    pub fn status_of(&self, sensor: Sensor) -> (status: CalibrationStatus)
        ensures
            status == self@.status(sensor),
    {
        match sensor {
            Sensor::Gyro => self.gyro,
            Sensor::Baro => self.baro,
        }
    }

    pub fn set_status(&mut self, sensor: Sensor, status: CalibrationStatus)
        ensures
            final(self)@ == old(self)@.with_status(sensor, status),
    {
        match sensor {
            Sensor::Gyro => self.gyro = status,
            Sensor::Baro => self.baro = status,
        }
    }

    pub fn set_offset(&mut self, sensor: Sensor, value: i32)
        ensures
            final(self)@ == old(self)@.with_offset(sensor, Some(value)),
    {
        match sensor {
            Sensor::Gyro => self.gyro_offset = Some(value),
            Sensor::Baro => self.ground_pressure = Some(value),
        }
    }

    pub fn offset_of(&self, sensor: Sensor) -> (offset: Option<i32>)
        ensures
            offset == self@.offset(sensor),
    {
        match sensor {
            Sensor::Gyro => self.gyro_offset,
            Sensor::Baro => self.ground_pressure,
        }
    }

    pub fn clear_offset(&mut self, sensor: Sensor)
        ensures
            final(self)@ == old(self)@.with_offset(sensor, None),
    {
        match sensor {
            Sensor::Gyro => self.gyro_offset = None,
            Sensor::Baro => self.ground_pressure = None,
        }
    }

    /// A copy of this snapshot.
    pub fn duplicate(&self) -> (out: Snapshot)
        ensures
            out@ == self@,
    {
        let last_ack = match &self.last_ack {
            Some(ack) => Some(ack.clone()),
            None => None,
        };
        Snapshot {
            gyro: self.gyro,
            baro: self.baro,
            last_ack,
            gyro_offset: self.gyro_offset,
            ground_pressure: self.ground_pressure,
        }
    }
}

/// Commands the calibration service accepts.
#[derive(Debug)]
pub enum Command {
    StartGyro,
    StartBaro,
    StartStationary,
    Cancel,
    JobProgress { job_id: JobId, payload: Vec<u8> },
    AckObserved { sensor: Sensor, ack: String },
    OffsetsRead { sensor: Sensor, value: i32 },
}

/// Events the calibration service emits.
#[derive(Debug)]
pub enum Event {
    Requested { use_case: UseCase },
    Progress { sensor: Sensor, detail: String },
    Completed { sensor: Sensor },
    Failed { sensor: Sensor, reason: String },
    Cancelled { sensor: Sensor },
}

/// The value of an `Event`.
pub enum EventView {
    Requested { use_case: UseCase },
    Progress { sensor: Sensor, detail: Seq<char> },
    Completed { sensor: Sensor },
    Failed { sensor: Sensor, reason: Seq<char> },
    Cancelled { sensor: Sensor },
}

impl View for Event {
    type V = EventView;

    open spec fn view(&self) -> EventView {
        match self {
            Event::Requested { use_case } => EventView::Requested { use_case: *use_case },
            Event::Progress { sensor, detail } => EventView::Progress { sensor: *sensor, detail: detail@ },
            Event::Completed { sensor } => EventView::Completed { sensor: *sensor },
            Event::Failed { sensor, reason } => EventView::Failed { sensor: *sensor, reason: reason@ },
            Event::Cancelled { sensor } => EventView::Cancelled { sensor: *sensor },
        }
    }
}

/// The values of a list of events.
pub open spec fn events_view(events: Seq<Event>) -> Seq<EventView> {
    events.map_values(|event: Event| event@)
}

/// I/O the calibration service needs performed for a running job.
#[derive(Clone, Copy, Debug, PartialEq, Eq, Structural)]
pub enum IoRequest {
    PreflightCalibration { job_id: JobId, sensor: Sensor },
    ReadOffsets { job_id: JobId, sensor: Sensor },
    CancelAutopilot { job_id: JobId },
}

/// Queries the calibration service answers.
#[derive(Clone, Copy, Debug)]
pub enum Query {
    GetSnapshot,
}

/// The answer to a query: the state and the job table.
#[derive(Debug)]
pub struct CalibrationView {
    pub snapshot: Snapshot,
    pub jobs: Vec<JobRecord>,
}

} // verus!
