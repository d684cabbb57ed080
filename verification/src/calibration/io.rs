use vstd::prelude::*;

use crate::calibration::handle::cancel_bytes;
use crate::calibration::jobs::{job_spec_of, spec_of_job};
use crate::calibration::keys::AUTOPILOT_RPC_PREFLIGHT;
use crate::calibration::model::{action_name, Action, Command, IoRequest, Snapshot, SnapshotView};
use crate::calibration::jobs::sensor_payload;
use crate::jobs::{JobId, JobRecord, JobRecordView, records_view};
use crate::sensor::{Sensor, sensor_bytes};
use crate::text::str_eq;

verus! {

/// What the host does with the reply of an RPC it made for a job.
#[derive(Clone, Copy, Debug, PartialEq, Eq, Structural)]
pub enum ReplyHandling {
    /// Report the job's progress with the reply as the payload.
    ReplyAsProgress { job_id: JobId },
    /// Report the job's progress with an empty payload, whatever the reply.
    EmptyProgress { job_id: JobId },
}

/// How the host performs an I/O request.
#[derive(Debug)]
pub enum IoPlan {
    /// Call an RPC, then feed back the command that `then` makes of the reply.
    Rpc { key: String, payload: Vec<u8>, then: ReplyHandling },
    /// Feed back a command at once, or nothing.
    Local(Option<Command>),
}

/// The command the host feeds back once an RPC replied.
pub fn reply_command(then: ReplyHandling, reply: Vec<u8>) -> (command: Command)
    ensures
        match then {
            ReplyHandling::ReplyAsProgress { job_id } => command matches Command::JobProgress { job_id: id, payload } && id == job_id && payload@ == reply@,
            ReplyHandling::EmptyProgress { job_id } => command matches Command::JobProgress { job_id: id, payload } && id == job_id && payload@.len() == 0,
        },
{
    match then {
        ReplyHandling::ReplyAsProgress { job_id } => Command::JobProgress { job_id, payload: reply },
        ReplyHandling::EmptyProgress { job_id } => Command::JobProgress { job_id, payload: Vec::new() },
    }
}

/// The value of an I/O plan.
pub enum IoPlanView {
    Rpc { key: Seq<char>, payload: Seq<u8>, then: ReplyHandling },
    /// `Some(job_id)` when the command fed back is an empty progress report for that job.
    LocalProgress(Option<JobId>),
}

/// The plan for an I/O request, given the snapshot and the job table.
pub open spec fn io_plan(s: SnapshotView, jobs: Seq<JobRecordView>, io: IoRequest) -> IoPlanView {
    match io {
        IoRequest::PreflightCalibration { job_id, sensor } => IoPlanView::Rpc {
            key: AUTOPILOT_RPC_PREFLIGHT@,
            payload: sensor_bytes(sensor),
            then: ReplyHandling::ReplyAsProgress { job_id },
        },
        IoRequest::ReadOffsets { job_id, sensor } => {
            let awaiting_ack = match spec_of_job(jobs, job_id) {
                Some(spec) => spec.name == action_name(Action::AwaitCommandAck),
                None => false,
            };
            if awaiting_ack || s.offset(sensor) is None {
                IoPlanView::LocalProgress(None)
            } else {
                IoPlanView::LocalProgress(Some(job_id))
            }
        },
        IoRequest::CancelAutopilot { job_id } => {
            let payload = match spec_of_job(jobs, job_id) {
                Some(spec) => if spec.payload.len() > 0 {
                    spec.payload
                } else {
                    cancel_bytes()
                },
                None => cancel_bytes(),
            };
            IoPlanView::Rpc {
                key: AUTOPILOT_RPC_PREFLIGHT@,
                payload,
                then: ReplyHandling::EmptyProgress { job_id },
            }
        },
    }
}

/// Whether a plan is the one `view` describes.
pub open spec fn plan_matches(plan: IoPlan, view: IoPlanView) -> bool {
    match view {
        IoPlanView::Rpc { key, payload, then } => plan matches IoPlan::Rpc { key: k, payload: p, then: t }
            && k@ == key && p@ == payload && t == then,
        IoPlanView::LocalProgress(None) => plan matches IoPlan::Local(None),
        IoPlanView::LocalProgress(Some(job_id)) => plan matches IoPlan::Local(Some(Command::JobProgress { job_id: id, payload }))
            && id == job_id && payload@.len() == 0,
    }
}

/// Plans an I/O request of the calibration service.
pub fn execute_io(snapshot: &Snapshot, jobs: &[JobRecord], io_request: IoRequest) -> (plan: IoPlan)
    ensures
        plan_matches(plan, io_plan(snapshot@, records_view(jobs@), io_request)),
{
    match io_request {
        IoRequest::PreflightCalibration { job_id, sensor } => {
            let payload = sensor_payload(sensor);
            IoPlan::Rpc {
                key: String::from_str(AUTOPILOT_RPC_PREFLIGHT),
                payload,
                then: ReplyHandling::ReplyAsProgress { job_id },
            }
        },
        IoRequest::ReadOffsets { job_id, sensor } => {
            let awaiting_ack = match job_spec_of(jobs, job_id) {
                Some(spec) => str_eq(spec.name.as_str(), Action::AwaitCommandAck.name()),
                None => false,
            };
            if awaiting_ack {
                return IoPlan::Local(None);
            }
            let ready = match sensor {
                Sensor::Gyro => snapshot.gyro_offset.is_some(),
                Sensor::Baro => snapshot.ground_pressure.is_some(),
            };
            if ready {
                IoPlan::Local(Some(Command::JobProgress { job_id, payload: Vec::new() }))
            } else {
                IoPlan::Local(None)
            }
        },
        IoRequest::CancelAutopilot { job_id } => {
            let payload = match job_spec_of(jobs, job_id) {
                Some(spec) => if spec.payload.len() > 0 {
                    spec.payload
                } else {
                    vec![99u8, 97u8, 110u8, 99u8, 101u8, 108u8]
                },
                None => vec![99u8, 97u8, 110u8, 99u8, 101u8, 108u8],
            };
            proof {
                assert(seq![99u8, 97u8, 110u8, 99u8, 101u8, 108u8] =~= cancel_bytes());
            }
            IoPlan::Rpc {
                key: String::from_str(AUTOPILOT_RPC_PREFLIGHT),
                payload,
                then: ReplyHandling::EmptyProgress { job_id },
            }
        },
    }
}

} // verus!
