use vstd::prelude::*;

use crate::calibration::model::{action_name, Action, IoRequest};
use crate::jobs::{JobGraph, JobId, JobRecord, JobRecordView, JobSpec, JobSpecView, JobStatus, records_view};
use crate::sensor::{Sensor, sensor_bytes};
use crate::text::str_eq;

verus! {

/// The sensor a payload names, if it names one exactly.
pub open spec fn sensor_of_bytes(payload: Seq<u8>) -> Option<Sensor> {
    if payload == sensor_bytes(Sensor::Gyro) {
        Some(Sensor::Gyro)
    } else if payload == sensor_bytes(Sensor::Baro) {
        Some(Sensor::Baro)
    } else {
        None
    }
}

/// A job graph that is the leaf for `action` on `sensor`.
pub open spec fn is_leaf_for(graph: JobGraph, action: Action, sensor: Sensor) -> bool {
    graph matches JobGraph::Leaf(spec) && spec@ == (JobSpecView {
        name: action_name(action),
        payload: sensor_bytes(sensor),
    })
}

/// A job graph that runs, in order, the three steps of a preflight calibration of `sensor`.
pub open spec fn is_preflight_sequence(graph: JobGraph, sensor: Sensor) -> bool {
    &&& graph matches JobGraph::Sequence(children)
    &&& children@.len() == 3
    &&& is_leaf_for(children@[0], Action::StartPreflightCalibration, sensor)
    &&& is_leaf_for(children@[1], Action::AwaitCommandAck, sensor)
    &&& is_leaf_for(children@[2], Action::ReadOffsets, sensor)
}

pub fn sensor_payload(sensor: Sensor) -> (payload: Vec<u8>)
    ensures
        payload@ == sensor_bytes(sensor),
{
    match sensor {
        Sensor::Gyro => vec![103u8, 121u8, 114u8, 111u8],
        Sensor::Baro => vec![98u8, 97u8, 114u8, 111u8],
    }
}

pub fn parse_sensor(payload: &[u8]) -> (sensor: Option<Sensor>)
    ensures
        sensor == sensor_of_bytes(payload@),
{
    if payload.len() != 4 {
        return None;
    }
    if payload[0] == 103u8 && payload[1] == 121u8 && payload[2] == 114u8 && payload[3] == 111u8 {
        assert(payload@ =~= sensor_bytes(Sensor::Gyro));
        Some(Sensor::Gyro)
    } else if payload[0] == 98u8 && payload[1] == 97u8 && payload[2] == 114u8 && payload[3] == 111u8 {
        assert(payload@ =~= sensor_bytes(Sensor::Baro));
        Some(Sensor::Baro)
    } else {
        assert(payload@ != sensor_bytes(Sensor::Gyro) ==> payload@[0] != 103u8 || payload@[1] != 121u8
            || payload@[2] != 114u8 || payload@[3] != 111u8);
        None
    }
}

pub fn leaf(action: Action, sensor: Sensor) -> (graph: JobGraph)
    ensures
        is_leaf_for(graph, action, sensor),
{
    JobGraph::Leaf(JobSpec { name: String::from_str(action.name()), payload: sensor_payload(sensor) })
}

pub fn preflight_sequence(sensor: Sensor) -> (graph: JobGraph)
    ensures
        is_preflight_sequence(graph, sensor),
{
    JobGraph::Sequence(
        vec![
            leaf(Action::StartPreflightCalibration, sensor),
            leaf(Action::AwaitCommandAck, sensor),
            leaf(Action::ReadOffsets, sensor),
        ],
    )
}

/// The value of an optional job spec.
pub open spec fn opt_spec_view(spec: Option<JobSpec>) -> Option<JobSpecView> {
    match spec {
        Some(spec) => Some(spec@),
        None => None,
    }
}

/// `k` is the first position of the table whose record has id `job_id`.
pub open spec fn is_first_with_id(jobs: Seq<JobRecordView>, job_id: JobId, k: int) -> bool {
    &&& 0 <= k < jobs.len()
    &&& jobs[k].job_id == job_id
    &&& forall|j: int| 0 <= j < k ==> jobs[j].job_id != job_id
}

/// The spec of the first record with id `job_id`: none when no record has that id, or when the
/// first one that has it is a sequence node.
pub open spec fn spec_of_job(jobs: Seq<JobRecordView>, job_id: JobId) -> Option<JobSpecView> {
    if exists|k: int| is_first_with_id(jobs, job_id, k) {
        jobs[choose|k: int| is_first_with_id(jobs, job_id, k)].job_spec
    } else {
        None
    }
}

pub fn job_spec_of(jobs: &[JobRecord], job_id: JobId) -> (spec: Option<JobSpec>)
    ensures
        opt_spec_view(spec) == spec_of_job(records_view(jobs@), job_id),
{
    let ghost table = records_view(jobs@);
    let mut i: usize = 0;
    while i < jobs.len()
        invariant
            i <= jobs@.len(),
            table == records_view(jobs@),
            forall|j: int| 0 <= j < i ==> jobs@[j].job_id != job_id,
        decreases jobs@.len() - i,
    {
        if jobs[i].job_id == job_id {
            let found = match &jobs[i].job_spec {
                Some(spec) => Some(spec.duplicate()),
                None => None,
            };
            proof {
                assert forall|j: int| 0 <= j < i implies table[j].job_id != job_id by {
                    assert(table[j].job_id == jobs@[j].job_id);
                }
                assert(is_first_with_id(table, job_id, i as int));
                let k = choose|k: int| is_first_with_id(table, job_id, k);
                if k < i {
                    assert(table[k].job_id == jobs@[k].job_id);
                } else if k > i {
                    assert(table[i as int].job_id == job_id);
                }
                assert(k == i);
            }
            return found;
        }
        i += 1;
    }
    proof {
        assert forall|k: int| !is_first_with_id(table, job_id, k) by {
            if 0 <= k < table.len() {
                assert(table[k].job_id == jobs@[k].job_id);
            }
        }
    }
    None
}

/// A record of a running leaf job for `action` on `sensor`.
pub open spec fn is_running_named(record: JobRecordView, action: Action, sensor: Sensor) -> bool {
    &&& record.status == JobStatus::Running
    &&& record.job_spec matches Some(spec)
    &&& spec.name == action_name(action)
    &&& sensor_of_bytes(spec.payload) == Some(sensor)
}

/// `k` is the first position of the table that holds a running leaf job for `action` on `sensor`.
pub open spec fn is_first_running_named(jobs: Seq<JobRecordView>, action: Action, sensor: Sensor, k: int) -> bool {
    &&& 0 <= k < jobs.len()
    &&& is_running_named(jobs[k], action, sensor)
    &&& forall|j: int| 0 <= j < k ==> !is_running_named(jobs[j], action, sensor)
}

/// The id of the first running leaf job for `action` on `sensor`, if any.
pub open spec fn running_named_id(jobs: Seq<JobRecordView>, action: Action, sensor: Sensor) -> Option<JobId> {
    if exists|k: int| is_first_running_named(jobs, action, sensor, k) {
        Some(jobs[choose|k: int| is_first_running_named(jobs, action, sensor, k)].job_id)
    } else {
        None
    }
}

pub fn running_named(jobs: &[JobRecord], action: Action, sensor: Sensor) -> (job_id: Option<JobId>)
    ensures
        job_id == running_named_id(records_view(jobs@), action, sensor),
{
    let ghost table = records_view(jobs@);
    let mut i: usize = 0;
    while i < jobs.len()
        invariant
            i <= jobs@.len(),
            table == records_view(jobs@),
            forall|j: int| 0 <= j < i ==> !is_running_named(#[trigger] table[j], action, sensor),
        decreases jobs@.len() - i,
    {
        let record = &jobs[i];
        assert(table[i as int] == record@);
        if record.status == JobStatus::Running {
            if let Some(spec) = &record.job_spec {
                if str_eq(spec.name.as_str(), action.name()) && parse_sensor(spec.payload.as_slice()) == Some(sensor) {
                    proof {
                        assert(is_first_running_named(table, action, sensor, i as int));
                        let k = choose|k: int| is_first_running_named(table, action, sensor, k);
                        assert(k == i);
                    }
                    return Some(record.job_id);
                }
            }
        }
        i += 1;
    }
    None
}

/// A record of a root job that can still be cancelled.
pub open spec fn is_cancellable_root(record: JobRecordView) -> bool {
    &&& record.parent is None
    &&& (record.status == JobStatus::Queued || record.status == JobStatus::Running
        || record.status == JobStatus::Cancelling)
}

/// The id of a record when it is a cancellable root.
pub open spec fn cancellable_root_id(record: JobRecordView) -> Option<JobId> {
    if is_cancellable_root(record) {
        Some(record.job_id)
    } else {
        None
    }
}

/// The ids of the root jobs that are queued, running or being cancelled, in table order.
pub fn cancellable_roots(jobs: &[JobRecord]) -> (roots: Vec<JobId>)
    ensures
        roots@ == records_view(jobs@).filter_map(|record: JobRecordView| cancellable_root_id(record)),
{
    let ghost table = records_view(jobs@);
    let mut roots: Vec<JobId> = Vec::new();
    let mut i: usize = 0;
    while i < jobs.len()
        invariant
            i <= jobs@.len(),
            table == records_view(jobs@),
            roots@ == table.take(i as int).filter_map(|record: JobRecordView| cancellable_root_id(record)),
        decreases jobs@.len() - i,
    {
        let record = &jobs[i];
        proof {
            table.lemma_filter_map_take_succ(|record: JobRecordView| cancellable_root_id(record), i as int);
            assert(table[i as int] == record@);
        }
        if record.parent.is_none() && (record.status == JobStatus::Queued || record.status
            == JobStatus::Running || record.status == JobStatus::Cancelling) {
            roots.push(record.job_id);
        }
        i += 1;
    }
    assert(table.take(jobs@.len() as int) == table);
    roots
}

/// The I/O request a newly running leaf job needs.
pub open spec fn io_for_job(job_id: JobId, spec: JobSpecView) -> IoRequest {
    let sensor = match sensor_of_bytes(spec.payload) {
        Some(sensor) => sensor,
        None => Sensor::Gyro,
    };
    if spec.name == action_name(Action::StartPreflightCalibration) {
        IoRequest::PreflightCalibration { job_id, sensor }
    } else if spec.name == action_name(Action::ReadOffsets) {
        IoRequest::ReadOffsets { job_id, sensor }
    } else if spec.name == action_name(Action::CancelCalibration) {
        IoRequest::CancelAutopilot { job_id }
    } else {
        IoRequest::ReadOffsets { job_id, sensor }
    }
}

pub fn io_from_job(job_id: JobId, job_spec: &JobSpec) -> (io: IoRequest)
    ensures
        io == io_for_job(job_id, job_spec@),
{
    let sensor = match parse_sensor(job_spec.payload.as_slice()) {
        Some(sensor) => sensor,
        None => Sensor::Gyro,
    };
    let name = job_spec.name.as_str();
    if str_eq(name, Action::StartPreflightCalibration.name()) {
        IoRequest::PreflightCalibration { job_id, sensor }
    } else if str_eq(name, Action::ReadOffsets.name()) {
        IoRequest::ReadOffsets { job_id, sensor }
    } else if str_eq(name, Action::CancelCalibration.name()) {
        IoRequest::CancelAutopilot { job_id }
    } else {
        IoRequest::ReadOffsets { job_id, sensor }
    }
}

} // verus!
