use vstd::prelude::*;

use crate::calibration::handle::{
    ack_observed, ack_outcome, cancel, cancel_post, job_progress, job_progress_post, offsets_outcome,
    offsets_read, start_sensor, start_sensor_post, start_stationary, start_stationary_post,
};
use crate::calibration::jobs::{io_for_job, io_from_job};
use crate::calibration::model::{
    CalibrationView, Command, Event, IoRequest, Query, Snapshot, UseCase, events_view,
};
use crate::calibration::publish::{published, publish_effects};
use crate::effect::{Effect, effects_view};
use crate::jobs::{JobId, JobOp, JobRecord, JobSpec, duplicate_records, records_view};
use crate::sensor::Sensor;

verus! {

/// The calibration service's domain: how it handles commands and queries.
pub struct Calibration;

/// The outcome of a handled command: the events, the effects to publish, and the changes to the
/// job table, in the order the host applies them.
pub struct Handled {
    pub events: Vec<Event>,
    pub effects: Vec<Effect<IoRequest>>,
    pub job_ops: Vec<JobOp>,
}

impl Calibration {
    /// Handles one command against the snapshot and the job table as it stands.
    pub fn handle_command(snapshot: &mut Snapshot, jobs: &[JobRecord], command: Command) -> (out: Handled)
        ensures
            ({
                let before = old(snapshot)@;
                let after = final(snapshot)@;
                let events = events_view(out.events@);
                let ops = out.job_ops@;
                let table = records_view(jobs@);
                match command {
                    Command::StartGyro => start_sensor_post(
                        before,
                        after,
                        events,
                        ops,
                        Sensor::Gyro,
                        UseCase::CalibrateGyroscope,
                    ),
                    Command::StartBaro => start_sensor_post(
                        before,
                        after,
                        events,
                        ops,
                        Sensor::Baro,
                        UseCase::CalibrateBarometer,
                    ),
                    Command::StartStationary => start_stationary_post(after, events, ops),
                    Command::Cancel => cancel_post(before, after, table, events, ops),
                    Command::JobProgress { job_id, payload } => job_progress_post(
                        before,
                        after,
                        table,
                        job_id,
                        payload@,
                        events,
                        ops,
                    ),
                    Command::AckObserved { sensor, ack } => (after, events, ops) == ack_outcome(
                        before,
                        table,
                        sensor,
                        ack@,
                    ),
                    Command::OffsetsRead { sensor, value } => (after, events, ops) == offsets_outcome(
                        before,
                        table,
                        sensor,
                        value,
                    ),
                }
            }),
            effects_view(out.effects@) == published(final(snapshot)@, events_view(out.events@)),
    {
        let (events, job_ops) = match command {
            Command::StartGyro => start_sensor(snapshot, Sensor::Gyro, UseCase::CalibrateGyroscope),
            Command::StartBaro => start_sensor(snapshot, Sensor::Baro, UseCase::CalibrateBarometer),
            Command::StartStationary => start_stationary(snapshot),
            Command::Cancel => cancel(snapshot, jobs),
            Command::JobProgress { job_id, payload } => job_progress(snapshot, jobs, job_id, payload.as_slice()),
            Command::AckObserved { sensor, ack } => ack_observed(snapshot, jobs, sensor, ack),
            Command::OffsetsRead { sensor, value } => offsets_read(snapshot, jobs, sensor, value),
        };
        let effects = publish_effects(snapshot, events.as_slice());
        Handled { events, effects, job_ops }
    }

    /// Answers a query from the snapshot and the job table, changing neither.
    pub fn handle_query(snapshot: &Snapshot, jobs: &[JobRecord], query: Query) -> (view: CalibrationView)
        ensures
            view.snapshot@ == snapshot@,
            records_view(view.jobs@) == records_view(jobs@),
    {
        CalibrationView { snapshot: snapshot.duplicate(), jobs: duplicate_records(jobs) }
    }

    /// The I/O a newly running leaf job needs.
    pub fn io_from_job(job_id: JobId, job_spec: &JobSpec) -> (io: IoRequest)
        ensures
            io == io_for_job(job_id, job_spec@),
    {
        io_from_job(job_id, job_spec)
    }
}

} // verus!
