use vstd::prelude::*;

use crate::calibration::handle::{
    ack_outcome, after_cancel, job_progress_outcome, job_progress_post, offsets_outcome,
};
use crate::calibration::jobs::{io_for_job, sensor_of_bytes};
use crate::calibration::model::{action_name, Action, CalibrationStatus, EventView, IoRequest, SnapshotView};
use crate::jobs::{JobId, JobOp, JobRecordView, JobSpecView};
use crate::sensor::{Sensor, lemma_sensor_text, sensor_bytes, sensor_text};
use vstd::utf8::encode_utf8;

verus! {

/// Setting one sensor's status or offset reads back, and leaves the other sensor as it was.
pub proof fn law_snapshot_fields(s: SnapshotView, sensor: Sensor, other: Sensor, status: CalibrationStatus, offset: Option<i32>)
    requires
        other != sensor,
    ensures
        s.with_status(sensor, status).status(sensor) == status,
        s.with_status(sensor, status).status(other) == s.status(other),
        s.with_status(sensor, status).offset(other) == s.offset(other),
        s.with_offset(sensor, offset).offset(sensor) == offset,
        s.with_offset(sensor, offset).offset(other) == s.offset(other),
        s.with_offset(sensor, offset).status(other) == s.status(other),
{
}

/// A sensor's job payload names that sensor, whether written as job payload bytes or as the
/// UTF-8 encoding of its wire name.
pub proof fn law_sensor_payload_roundtrip(sensor: Sensor)
    ensures
        sensor_of_bytes(sensor_bytes(sensor)) == Some(sensor),
        sensor_of_bytes(encode_utf8(sensor_text(sensor))) == Some(sensor),
{
    lemma_sensor_text(sensor);
    lemma_sensor_text(Sensor::Gyro);
    assert(sensor_bytes(Sensor::Gyro) != sensor_bytes(Sensor::Baro)) by {
        assert(sensor_bytes(Sensor::Gyro)[0] != sensor_bytes(Sensor::Baro)[0]);
    }
}

/// A cancel leaves no calibration running.
pub proof fn law_cancel_stops_running(s: SnapshotView)
    ensures
        after_cancel(s.gyro) != CalibrationStatus::Running,
        after_cancel(s.baro) != CalibrationStatus::Running,
{
}

/// Once a sensor's calibration is cancelled, no progress report, acknowledgement or offset
/// reading changes its status.
pub proof fn law_cancelled_is_final(
    s: SnapshotView,
    jobs: Seq<JobRecordView>,
    cancelled: Sensor,
    spec: Option<JobSpecView>,
    payload: Seq<u8>,
    sensor: Sensor,
    ack: Seq<char>,
    value: i32,
)
    requires
        s.status(cancelled) == CalibrationStatus::Cancelled,
    ensures
        job_progress_outcome(s, spec, payload).0.status(cancelled) == CalibrationStatus::Cancelled,
        ack_outcome(s, jobs, sensor, ack).0.status(cancelled) == CalibrationStatus::Cancelled,
        offsets_outcome(s, jobs, sensor, value).0.status(cancelled) == CalibrationStatus::Cancelled,
{
}

/// The I/O of each leaf of a sensor's preflight sequence, and of the cancel leaf.
pub proof fn law_leaf_io(job_id: JobId, sensor: Sensor, payload: Seq<u8>)
    ensures
        io_for_job(job_id, JobSpecView { name: action_name(Action::StartPreflightCalibration), payload: sensor_bytes(sensor) })
            == (IoRequest::PreflightCalibration { job_id, sensor }),
        io_for_job(job_id, JobSpecView { name: action_name(Action::AwaitCommandAck), payload: sensor_bytes(sensor) })
            == (IoRequest::ReadOffsets { job_id, sensor }),
        io_for_job(job_id, JobSpecView { name: action_name(Action::ReadOffsets), payload: sensor_bytes(sensor) })
            == (IoRequest::ReadOffsets { job_id, sensor }),
        io_for_job(job_id, JobSpecView { name: action_name(Action::CancelCalibration), payload })
            == (IoRequest::CancelAutopilot { job_id }),
{
    law_sensor_payload_roundtrip(sensor);
    reveal_strlit("start_preflight_calibration");
    reveal_strlit("await_command_ack");
    reveal_strlit("read_offsets");
    reveal_strlit("cancel_calibration");
    assert(action_name(Action::AwaitCommandAck).len() != action_name(Action::StartPreflightCalibration).len());
    assert(action_name(Action::AwaitCommandAck).len() != action_name(Action::ReadOffsets).len());
    assert(action_name(Action::AwaitCommandAck).len() != action_name(Action::CancelCalibration).len());
    assert(action_name(Action::ReadOffsets).len() != action_name(Action::StartPreflightCalibration).len());
    assert(action_name(Action::CancelCalibration).len() != action_name(Action::StartPreflightCalibration).len());
    assert(action_name(Action::CancelCalibration).len() != action_name(Action::ReadOffsets).len());
}

/// The other sensor.
pub open spec fn other_sensor(sensor: Sensor) -> Sensor {
    match sensor {
        Sensor::Gyro => Sensor::Baro,
        Sensor::Baro => Sensor::Gyro,
    }
}

/// A successful progress report (any payload but "FAILED" and "fail") for the running
/// `read_offsets` job of a sensor whose calibration is not cancelled completes that sensor's
/// calibration as soon as its offset is known: with an offset already recorded, whatever the
/// payload, the sensor succeeds with that offset and `Completed` is emitted; with none, a payload
/// that reads as a number is recorded and the sensor succeeds. The other sensor is untouched and
/// the job is completed as a success.
pub proof fn law_read_offsets_report_completes(
    before: SnapshotView,
    after: SnapshotView,
    jobs: Seq<JobRecordView>,
    job_id: JobId,
    payload: Seq<u8>,
    events: Seq<EventView>,
    ops: Seq<JobOp>,
    k: int,
    sensor: Sensor,
)
    requires
        job_progress_post(before, after, jobs, job_id, payload, events, ops),
        0 <= k < jobs.len(),
        jobs[k].job_id == job_id,
        forall|j: int| 0 <= j < k ==> jobs[j].job_id != job_id,
        jobs[k].job_spec == Some(JobSpecView { name: "read_offsets"@, payload: sensor_bytes(sensor) }),
        before.status(sensor) != CalibrationStatus::Cancelled,
        payload != seq![70u8, 65u8, 73u8, 76u8, 69u8, 68u8],
        payload != seq![102u8, 97u8, 105u8, 108u8],
        before.offset(sensor) is Some || crate::text::parse_i32_payload(payload) is Some,
    ensures
        after.status(sensor) == CalibrationStatus::Succeeded,
        before.offset(sensor) is Some ==> after.offset(sensor) == before.offset(sensor),
        before.offset(sensor) is None ==> after.offset(sensor) == crate::text::parse_i32_payload(payload),
        events == seq![EventView::Completed { sensor }],
        ops == seq![JobOp::Complete { job_id, succeeded: true }],
        after.status(other_sensor(sensor)) == before.status(other_sensor(sensor)),
        after.offset(other_sensor(sensor)) == before.offset(other_sensor(sensor)),
{
    reveal_strlit("read_offsets");
    reveal_strlit("start_preflight_calibration");
    assert(crate::calibration::jobs::is_first_with_id(jobs, job_id, k));
    let c = choose|c: int| crate::calibration::jobs::is_first_with_id(jobs, job_id, c);
    assert(c == k) by {
        if c < k {
            assert(jobs[c].job_id != job_id);
        } else if k < c {
            assert(jobs[k].job_id != job_id);
        }
    }
    assert(sensor_of_bytes(sensor_bytes(sensor)) == Some(sensor)) by {
        reveal_with_fuel(sensor_of_bytes, 1);
        assert(sensor_bytes(Sensor::Gyro) != sensor_bytes(Sensor::Baro)) by {
            assert(sensor_bytes(Sensor::Gyro)[0] != sensor_bytes(Sensor::Baro)[0]);
        }
    }
    assert(action_name(Action::ReadOffsets) != action_name(Action::StartPreflightCalibration)) by {
        assert(action_name(Action::ReadOffsets).len() != action_name(Action::StartPreflightCalibration).len());
    }
}

/// A failed progress report ("FAILED" or "fail") for a job of a sensor whose calibration is not
/// cancelled fails that sensor's calibration: the sensor is marked Failed, one `Failed` event names
/// it, the job is completed as a failure, and the other sensor is untouched.
pub proof fn law_failed_report_fails_sensor(
    before: SnapshotView,
    after: SnapshotView,
    jobs: Seq<JobRecordView>,
    job_id: JobId,
    payload: Seq<u8>,
    events: Seq<EventView>,
    ops: Seq<JobOp>,
    k: int,
    name: Seq<char>,
    sensor: Sensor,
)
    requires
        job_progress_post(before, after, jobs, job_id, payload, events, ops),
        0 <= k < jobs.len(),
        jobs[k].job_id == job_id,
        forall|j: int| 0 <= j < k ==> jobs[j].job_id != job_id,
        jobs[k].job_spec == Some(JobSpecView { name, payload: sensor_bytes(sensor) }),
        before.status(sensor) != CalibrationStatus::Cancelled,
        payload == seq![70u8, 65u8, 73u8, 76u8, 69u8, 68u8] || payload == seq![102u8, 97u8, 105u8, 108u8],
    ensures
        after.status(sensor) == CalibrationStatus::Failed,
        events.len() == 1,
        events[0] matches EventView::Failed { sensor: s, .. } && s == sensor,
        ops == seq![JobOp::Complete { job_id, succeeded: false }],
        after.status(other_sensor(sensor)) == before.status(other_sensor(sensor)),
        after.offset(other_sensor(sensor)) == before.offset(other_sensor(sensor)),
        after.offset(sensor) == before.offset(sensor),
{
    assert(crate::calibration::jobs::is_first_with_id(jobs, job_id, k));
    let c = choose|c: int| crate::calibration::jobs::is_first_with_id(jobs, job_id, c);
    assert(c == k) by {
        if c < k {
            assert(jobs[c].job_id != job_id);
        } else if k < c {
            assert(jobs[k].job_id != job_id);
        }
    }
    assert(sensor_of_bytes(sensor_bytes(sensor)) == Some(sensor)) by {
        assert(sensor_bytes(Sensor::Gyro)[0] != sensor_bytes(Sensor::Baro)[0]);
    }
    assert(seq![70u8, 65u8, 73u8, 76u8, 69u8, 68u8] != seq![102u8, 97u8, 105u8, 108u8]) by {
        assert(seq![70u8, 65u8, 73u8, 76u8, 69u8, 68u8].len() != seq![102u8, 97u8, 105u8, 108u8].len());
    }
}

} // verus!
