use vstd::prelude::*;

use crate::jobs::JobId;
use crate::sensor::Sensor;

verus! {

/// Commands the autopilot accepts.
#[derive(Clone, Copy, Debug)]
pub enum Command {
    Preflight { correlation: u32, sensor: Sensor },
    AdvanceAck { job_id: JobId, sensor: Sensor },
    SetMoving(bool),
}

/// Events the autopilot emits.
#[derive(Debug)]
pub enum Event {
    Ack { sensor: Sensor, ack: String },
    OffsetsWritten { sensor: Sensor, value: i32 },
}

/// The value of an `Event`.
pub enum EventView {
    Ack { sensor: Sensor, ack: Seq<char> },
    OffsetsWritten { sensor: Sensor, value: i32 },
}

impl View for Event {
    type V = EventView;

    open spec fn view(&self) -> EventView {
        match self {
            Event::Ack { sensor, ack } => EventView::Ack { sensor: *sensor, ack: ack@ },
            Event::OffsetsWritten { sensor, value } => EventView::OffsetsWritten {
                sensor: *sensor,
                value: *value,
            },
        }
    }
}

/// The values of a list of events.
pub open spec fn events_view(events: Seq<Event>) -> Seq<EventView> {
    events.map_values(|event: Event| event@)
}

/// I/O the autopilot needs performed for a running job: a tick that advances it.
#[derive(Clone, Copy, Debug, PartialEq, Eq, Structural)]
pub enum IoRequest {
    Tick { job_id: JobId },
}

/// The autopilot's state.
#[derive(Debug)]
pub struct Snapshot {
    pub moving: bool,
    pub ack: Option<String>,
    pub gyro_offset: Option<i32>,
    pub ground_pressure: Option<i32>,
}

/// The value of a `Snapshot`.
pub struct SnapshotView {
    pub moving: bool,
    pub ack: Option<Seq<char>>,
    pub gyro_offset: Option<i32>,
    pub ground_pressure: Option<i32>,
}

impl View for Snapshot {
    type V = SnapshotView;

    open spec fn view(&self) -> SnapshotView {
        SnapshotView {
            moving: self.moving,
            ack: match self.ack {
                Some(ack) => Some(ack@),
                None => None,
            },
            gyro_offset: self.gyro_offset,
            ground_pressure: self.ground_pressure,
        }
    }
}

impl Default for Snapshot {
    fn default() -> (s: Snapshot)
        ensures
            s@ == (SnapshotView { moving: false, ack: None, gyro_offset: None, ground_pressure: None }),
    {
        Snapshot { moving: false, ack: None, gyro_offset: None, ground_pressure: None }
    }
}

impl Snapshot {
    /// A copy of this snapshot.
    pub fn duplicate(&self) -> (out: Snapshot)
        ensures
            out@ == self@,
    {
        let ack = match &self.ack {
            Some(ack) => Some(ack.clone()),
            None => None,
        };
        Snapshot {
            moving: self.moving,
            ack,
            gyro_offset: self.gyro_offset,
            ground_pressure: self.ground_pressure,
        }
    }
}

/// Queries the autopilot answers.
#[derive(Clone, Copy, Debug)]
pub enum Query {
    GetSnapshot,
}

/// The answer to a query: the state.
#[derive(Debug)]
pub struct PreflightView {
    pub snapshot: Snapshot,
}

} // verus!
