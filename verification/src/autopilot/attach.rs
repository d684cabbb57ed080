use vstd::prelude::*;

use crate::autopilot::model::{Command, IoRequest};
use crate::calibration::jobs::{job_spec_of, parse_sensor, sensor_of_bytes, spec_of_job};
use crate::jobs::{JobId, JobRecord, records_view};
use crate::sensor::Sensor;

verus! {

/// The sensor that the first record with id `job_id` names in its payload.
pub open spec fn job_sensor_of(jobs: Seq<crate::jobs::JobRecordView>, job_id: JobId) -> Option<Sensor> {
    match spec_of_job(jobs, job_id) {
        Some(spec) => sensor_of_bytes(spec.payload),
        None => None,
    }
}

pub fn sensor_from_job(jobs: &[JobRecord], job_id: JobId) -> (sensor: Option<Sensor>)
    ensures
        sensor == job_sensor_of(records_view(jobs@), job_id),
{
    match job_spec_of(jobs, job_id) {
        Some(spec) => parse_sensor(spec.payload.as_slice()),
        None => None,
    }
}

/// The command a preflight RPC body asks for: a preflight of the sensor it names, or none.
pub fn rpc_command(payload: &[u8]) -> (command: Option<Command>)
    ensures
        match sensor_of_bytes(payload@) {
            Some(sensor) => command == Some(Command::Preflight { correlation: 0, sensor }),
            None => command is None,
        },
{
    match parse_sensor(payload) {
        Some(sensor) => Some(Command::Preflight { correlation: 0, sensor }),
        None => None,
    }
}

/// The command a tick of a job performs: advancing the acknowledgement of the sensor the job names,
/// the gyroscope when it names none.
pub fn tick_command(jobs: &[JobRecord], io_request: IoRequest) -> (command: Command)
    ensures
        ({
            let IoRequest::Tick { job_id } = io_request;
            command == (Command::AdvanceAck {
                job_id,
                sensor: match job_sensor_of(records_view(jobs@), job_id) {
                    Some(sensor) => sensor,
                    None => Sensor::Gyro,
                },
            })
        }),
{
    let IoRequest::Tick { job_id } = io_request;
    let sensor = match sensor_from_job(jobs, job_id) {
        Some(sensor) => sensor,
        None => Sensor::Gyro,
    };
    Command::AdvanceAck { job_id, sensor }
}

} // verus!
