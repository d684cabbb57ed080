use vstd::prelude::*;

use crate::calibration::jobs::{
    cancellable_root_id, cancellable_roots, is_preflight_sequence, job_spec_of,
    parse_sensor, preflight_sequence, running_named, running_named_id, sensor_of_bytes,
    spec_of_job,
};
use crate::calibration::model::{
    action_name, Action, CalibrationStatus, Event, EventView, Snapshot, SnapshotView, UseCase,
    events_view,
};
use crate::jobs::{
    JobGraph, JobId, JobOp, JobRecord, JobRecordView, JobSpec, JobSpecView, JobStatus, records_view,
};
use crate::sensor::Sensor;
use crate::text::{
    ascii_uppercase, bytes_eq, chars_eq, chars_of, contains_seq, find_chars, parse_i32,
    parse_i32_payload, str_eq, to_ascii_uppercase,
};

verus! {

/// The job graph of the cancel leaf, whose payload is "cancel" when a leaf was running.
pub open spec fn is_cancel_leaf(graph: JobGraph, leaf_was_running: bool) -> bool {
    graph matches JobGraph::Leaf(spec) && spec@ == (JobSpecView {
        name: action_name(Action::CancelCalibration),
        payload: if leaf_was_running {
            cancel_bytes()
        } else {
            Seq::empty()
        },
    })
}

/// The ASCII bytes of "cancel".
pub open spec fn cancel_bytes() -> Seq<u8> {
    seq![99u8, 97u8, 110u8, 99u8, 101u8, 108u8]
}

/// Some leaf job of the table is running.
pub open spec fn some_leaf_running(jobs: Seq<JobRecordView>) -> bool {
    exists|k: int| 0 <= k < jobs.len() && jobs[k].job_spec is Some && jobs[k].status == JobStatus::Running
}

/// The status a sensor has after a cancel: a running calibration becomes cancelled.
pub open spec fn after_cancel(status: CalibrationStatus) -> CalibrationStatus {
    if status == CalibrationStatus::Running {
        CalibrationStatus::Cancelled
    } else {
        status
    }
}

/// The events of a cancel, given the statuses before it.
pub open spec fn cancel_events(s: SnapshotView) -> Seq<EventView> {
    seq![EventView::Requested { use_case: UseCase::CancelCalibration }] + (if s.gyro
        == CalibrationStatus::Running {
        seq![EventView::Cancelled { sensor: Sensor::Gyro }]
    } else {
        Seq::empty()
    }) + (if s.baro == CalibrationStatus::Running {
        seq![EventView::Cancelled { sensor: Sensor::Baro }]
    } else {
        Seq::empty()
    })
}

/// What starting the calibration of `sensor` does: the sensor runs with its offset and the last
/// acknowledgement cleared, and its preflight sequence is enqueued.
pub open spec fn start_sensor_post(
    before: SnapshotView,
    after: SnapshotView,
    events: Seq<EventView>,
    ops: Seq<JobOp>,
    sensor: Sensor,
    use_case: UseCase,
) -> bool {
    &&& after == before.with_status(sensor, CalibrationStatus::Running).with_offset(sensor, None).with_last_ack(None)
    &&& events == seq![
        EventView::Requested { use_case },
        EventView::Progress { sensor, detail: "started"@ },
    ]
    &&& ops.len() == 1
    &&& ops[0] matches JobOp::Enqueue(graph) && is_preflight_sequence(graph, sensor)
}

/// Starts the preflight calibration of one sensor.
pub fn start_sensor(snapshot: &mut Snapshot, sensor: Sensor, use_case: UseCase) -> (out: (
    Vec<Event>,
    Vec<JobOp>,
))
    ensures
        start_sensor_post(old(snapshot)@, final(snapshot)@, events_view(out.0@), out.1@, sensor, use_case),
{
    snapshot.set_status(sensor, CalibrationStatus::Running);
    snapshot.clear_offset(sensor);
    snapshot.last_ack = None;
    let ops = vec![JobOp::Enqueue(preflight_sequence(sensor))];
    let events = vec![
        Event::Requested { use_case },
        Event::Progress { sensor, detail: String::from_str("started") },
    ];
    assert(events_view(events@) =~= seq![
        EventView::Requested { use_case },
        EventView::Progress { sensor, detail: "started"@ },
    ]);
    (events, ops)
}

/// What starting the stationary calibration does: both sensors run with everything recorded
/// cleared, and the gyroscope's preflight sequence then the barometer's are enqueued as one job.
pub open spec fn start_stationary_post(after: SnapshotView, events: Seq<EventView>, ops: Seq<JobOp>) -> bool {
    &&& after == (SnapshotView {
        gyro: CalibrationStatus::Running,
        baro: CalibrationStatus::Running,
        last_ack: None,
        gyro_offset: None,
        ground_pressure: None,
    })
    &&& events == seq![
        EventView::Requested { use_case: UseCase::CalibrateStationarySensors },
        EventView::Progress { sensor: Sensor::Gyro, detail: "stationary"@ },
    ]
    &&& ops.len() == 1
    &&& ops[0] matches JobOp::Enqueue(graph) && graph matches JobGraph::Sequence(children)
        && children@.len() == 2 && is_preflight_sequence(children@[0], Sensor::Gyro)
        && is_preflight_sequence(children@[1], Sensor::Baro)
}

/// Starts the stationary calibration: the gyroscope, then the barometer.
pub fn start_stationary(snapshot: &mut Snapshot) -> (out: (Vec<Event>, Vec<JobOp>))
    ensures
        start_stationary_post(final(snapshot)@, events_view(out.0@), out.1@),
{
    snapshot.gyro = CalibrationStatus::Running;
    snapshot.baro = CalibrationStatus::Running;
    snapshot.gyro_offset = None;
    snapshot.ground_pressure = None;
    snapshot.last_ack = None;
    let ops = vec![
        JobOp::Enqueue(
            JobGraph::Sequence(vec![preflight_sequence(Sensor::Gyro), preflight_sequence(Sensor::Baro)]),
        ),
    ];
    let events = vec![
        Event::Requested { use_case: UseCase::CalibrateStationarySensors },
        Event::Progress { sensor: Sensor::Gyro, detail: String::from_str("stationary") },
    ];
    assert(events_view(events@) =~= seq![
        EventView::Requested { use_case: UseCase::CalibrateStationarySensors },
        EventView::Progress { sensor: Sensor::Gyro, detail: "stationary"@ },
    ]);
    (events, ops)
}

/// Whether some leaf job of the table is running.
fn any_leaf_running(jobs: &[JobRecord]) -> (running: bool)
    ensures
        running == some_leaf_running(records_view(jobs@)),
{
    let ghost table = records_view(jobs@);
    let mut i: usize = 0;
    while i < jobs.len()
        invariant
            i <= jobs@.len(),
            table == records_view(jobs@),
            forall|j: int|
                0 <= j < i ==> !(table[j].job_spec is Some && table[j].status == JobStatus::Running),
        decreases jobs@.len() - i,
    {
        assert(table[i as int] == jobs@[i as int]@);
        if jobs[i].job_spec.is_some() && jobs[i].status == JobStatus::Running {
            return true;
        }
        i += 1;
    }
    false
}

/// What a cancel does: running calibrations become cancelled, every cancellable root job is
/// cancelled in table order, then the cancel leaf is enqueued.
pub open spec fn cancel_post(
    before: SnapshotView,
    after: SnapshotView,
    jobs: Seq<JobRecordView>,
    events: Seq<EventView>,
    ops: Seq<JobOp>,
) -> bool {
    let roots = jobs.filter_map(|record: JobRecordView| cancellable_root_id(record));
    &&& after == (SnapshotView { gyro: after_cancel(before.gyro), baro: after_cancel(before.baro), ..before })
    &&& events == cancel_events(before)
    &&& ops.len() == roots.len() + 1
    &&& forall|i: int| 0 <= i < roots.len() ==> ops[i] == (JobOp::Cancel { job_id: roots[i] })
    &&& ops.last() matches JobOp::Enqueue(graph) && is_cancel_leaf(graph, some_leaf_running(jobs))
}

/// Cancels every calibration in progress and asks the autopilot to stop its own.
pub fn cancel(snapshot: &mut Snapshot, jobs: &[JobRecord]) -> (out: (Vec<Event>, Vec<JobOp>))
    ensures
        cancel_post(old(snapshot)@, final(snapshot)@, records_view(jobs@), events_view(out.0@), out.1@),
{
    let ghost before = snapshot@;
    let mut events = vec![Event::Requested { use_case: UseCase::CancelCalibration }];
    let running_leaf = any_leaf_running(jobs);
    let roots = cancellable_roots(jobs);
    let mut ops: Vec<JobOp> = Vec::new();
    let mut i: usize = 0;
    while i < roots.len()
        invariant
            i <= roots@.len(),
            ops@.len() == i,
            forall|k: int| 0 <= k < i ==> ops@[k] == (JobOp::Cancel { job_id: roots@[k] }),
        decreases roots@.len() - i,
    {
        ops.push(JobOp::Cancel { job_id: roots[i] });
        i += 1;
    }
    if snapshot.gyro == CalibrationStatus::Running {
        snapshot.gyro = CalibrationStatus::Cancelled;
        events.push(Event::Cancelled { sensor: Sensor::Gyro });
    }
    if snapshot.baro == CalibrationStatus::Running {
        snapshot.baro = CalibrationStatus::Cancelled;
        events.push(Event::Cancelled { sensor: Sensor::Baro });
    }
    let payload = if running_leaf {
        vec![99u8, 97u8, 110u8, 99u8, 101u8, 108u8]
    } else {
        Vec::new()
    };
    assert(payload@ =~= (if running_leaf { cancel_bytes() } else { Seq::empty() }));
    ops.push(
        JobOp::Enqueue(
            JobGraph::Leaf(JobSpec { name: String::from_str(Action::CancelCalibration.name()), payload }),
        ),
    );
    assert(events_view(events@) =~= cancel_events(before));
    (events, ops)
}

/// The ASCII bytes of "FAILED".
pub open spec fn failed_upper_bytes() -> Seq<u8> {
    seq![70u8, 65u8, 73u8, 76u8, 69u8, 68u8]
}

/// The ASCII bytes of "fail".
pub open spec fn fail_bytes() -> Seq<u8> {
    seq![102u8, 97u8, 105u8, 108u8]
}

/// A job progress payload reports success unless it is exactly "FAILED" or "fail".
pub open spec fn progress_succeeded(payload: Seq<u8>) -> bool {
    payload != failed_upper_bytes() && payload != fail_bytes()
}

/// The sensor a job spec's payload names, the gyroscope when it names none.
pub open spec fn job_sensor(spec: JobSpecView) -> Sensor {
    match sensor_of_bytes(spec.payload) {
        Some(sensor) => sensor,
        None => Sensor::Gyro,
    }
}

/// The snapshot and events after a progress report `payload` for a job whose spec is `spec`.
pub open spec fn job_progress_outcome(
    s: SnapshotView,
    spec: Option<JobSpecView>,
    payload: Seq<u8>,
) -> (SnapshotView, Seq<EventView>) {
    let succeeded = progress_succeeded(payload);
    match spec {
        None => (s, Seq::empty()),
        Some(spec) => {
            let sensor = job_sensor(spec);
            if s.status(sensor) == CalibrationStatus::Cancelled {
                (s, Seq::empty())
            } else if spec.name == action_name(Action::StartPreflightCalibration) {
                if succeeded {
                    (s, seq![EventView::Progress { sensor, detail: "preflight"@ }])
                } else {
                    (
                        s.with_status(sensor, CalibrationStatus::Failed),
                        seq![EventView::Failed { sensor, reason: "preflight failed"@ }],
                    )
                }
            } else if spec.name == action_name(Action::ReadOffsets) && succeeded {
                let value = match s.offset(sensor) {
                    Some(v) => Some(v),
                    None => parse_i32_payload(payload),
                };
                match value {
                    Some(v) => (
                        s.with_offset(sensor, Some(v)).with_status(sensor, CalibrationStatus::Succeeded),
                        seq![EventView::Completed { sensor }],
                    ),
                    None => (s, Seq::empty()),
                }
            } else if !succeeded {
                (
                    s.with_status(sensor, CalibrationStatus::Failed),
                    seq![EventView::Failed { sensor, reason: "job failed"@ }],
                )
            } else {
                (s, Seq::empty())
            }
        },
    }
}

/// What a progress report does: the job is completed, then the outcome of the report applies.
pub open spec fn job_progress_post(
    before: SnapshotView,
    after: SnapshotView,
    jobs: Seq<JobRecordView>,
    job_id: JobId,
    payload: Seq<u8>,
    events: Seq<EventView>,
    ops: Seq<JobOp>,
) -> bool {
    let (s, expected) = job_progress_outcome(before, spec_of_job(jobs, job_id), payload);
    &&& ops =~= seq![JobOp::Complete { job_id, succeeded: progress_succeeded(payload) }]
    &&& after == s
    &&& events =~= expected
}

/// Applies a progress report for a job: completes the job (a failure when the payload is
/// "FAILED" or "fail") and advances the calibration of the sensor that the job names.
pub fn job_progress(snapshot: &mut Snapshot, jobs: &[JobRecord], job_id: JobId, payload: &[u8]) -> (out: (
    Vec<Event>,
    Vec<JobOp>,
))
    ensures
        job_progress_post(
            old(snapshot)@,
            final(snapshot)@,
            records_view(jobs@),
            job_id,
            payload@,
            events_view(out.0@),
            out.1@,
        ),
{
    let ghost before = snapshot@;
    let job_spec = job_spec_of(jobs, job_id);
    let succeeded = !bytes_eq(payload, &[70u8, 65u8, 73u8, 76u8, 69u8, 68u8]) && !bytes_eq(
        payload,
        &[102u8, 97u8, 105u8, 108u8],
    );
    proof {
        assert(seq![70u8, 65u8, 73u8, 76u8, 69u8, 68u8] =~= failed_upper_bytes());
        assert(seq![102u8, 97u8, 105u8, 108u8] =~= fail_bytes());
    }
    let ops = vec![JobOp::Complete { job_id, succeeded }];
    assert(ops@ =~= seq![JobOp::Complete { job_id, succeeded: progress_succeeded(payload@) }]);
    let job_spec = match job_spec {
        Some(spec) => spec,
        None => {
            return (Vec::new(), ops);
        },
    };
    let sensor = match parse_sensor(job_spec.payload.as_slice()) {
        Some(sensor) => sensor,
        None => Sensor::Gyro,
    };
    if snapshot.status_of(sensor) == CalibrationStatus::Cancelled {
        return (Vec::new(), ops);
    }
    let name = job_spec.name.as_str();
    if str_eq(name, Action::StartPreflightCalibration.name()) {
        if succeeded {
            let events = vec![Event::Progress { sensor, detail: String::from_str("preflight") }];
            assert(events_view(events@) =~= seq![EventView::Progress { sensor, detail: "preflight"@ }]);
            (events, ops)
        } else {
            snapshot.set_status(sensor, CalibrationStatus::Failed);
            let events = vec![Event::Failed { sensor, reason: String::from_str("preflight failed") }];
            assert(events_view(events@) =~= seq![
                EventView::Failed { sensor, reason: "preflight failed"@ },
            ]);
            (events, ops)
        }
    } else if str_eq(name, Action::ReadOffsets.name()) && succeeded {
        let value = match snapshot.offset_of(sensor) {
            Some(v) => Some(v),
            None => parse_i32(payload),
        };
        if let Some(v) = value {
            snapshot.set_offset(sensor, v);
        }
        if snapshot.offset_of(sensor).is_some() {
            snapshot.set_status(sensor, CalibrationStatus::Succeeded);
            let events = vec![Event::Completed { sensor }];
            assert(events_view(events@) =~= seq![EventView::Completed { sensor }]);
            (events, ops)
        } else {
            (Vec::new(), ops)
        }
    } else if !succeeded {
        snapshot.set_status(sensor, CalibrationStatus::Failed);
        let events = vec![Event::Failed { sensor, reason: String::from_str("job failed") }];
        assert(events_view(events@) =~= seq![EventView::Failed { sensor, reason: "job failed"@ }]);
        (events, ops)
    } else {
        (Vec::new(), ops)
    }
}

/// The upper-case text "IN_PROGRESS".
pub open spec fn in_progress_text() -> Seq<char> {
    "IN_PROGRESS"@
}

/// An acknowledgement counts as success when, upper-cased, it contains "ACCEPTED" or is "OK".
pub open spec fn ack_succeeded(ack: Seq<char>) -> bool {
    contains_seq(ascii_uppercase(ack), "ACCEPTED"@) || ascii_uppercase(ack) == "OK"@
}

/// The snapshot, events and job changes after the autopilot acknowledged `ack` for `sensor`.
pub open spec fn ack_outcome(
    s: SnapshotView,
    jobs: Seq<JobRecordView>,
    sensor: Sensor,
    ack: Seq<char>,
) -> (SnapshotView, Seq<EventView>, Seq<JobOp>) {
    let recorded = s.with_last_ack(Some(ack));
    if s.status(sensor) == CalibrationStatus::Cancelled {
        (recorded, Seq::empty(), Seq::empty())
    } else if contains_seq(ascii_uppercase(ack), in_progress_text()) {
        (recorded, seq![EventView::Progress { sensor, detail: ack }], Seq::empty())
    } else {
        let succeeded = ack_succeeded(ack);
        let ops = match running_named_id(jobs, Action::AwaitCommandAck, sensor) {
            Some(job_id) => seq![JobOp::Complete { job_id, succeeded }],
            None => Seq::empty(),
        };
        if succeeded {
            (recorded, seq![EventView::Progress { sensor, detail: ack }], ops)
        } else {
            (
                recorded.with_status(sensor, CalibrationStatus::Failed),
                seq![EventView::Failed { sensor, reason: ack }],
                ops,
            )
        }
    }
}

/// Applies an acknowledgement the autopilot published for `sensor`.
pub fn ack_observed(snapshot: &mut Snapshot, jobs: &[JobRecord], sensor: Sensor, ack: String) -> (out: (
    Vec<Event>,
    Vec<JobOp>,
))
    ensures
        (final(snapshot)@, events_view(out.0@), out.1@) == ack_outcome(
            old(snapshot)@,
            records_view(jobs@),
            sensor,
            ack@,
        ),
{
    let ghost before = snapshot@;
    snapshot.last_ack = Some(ack.clone());
    if snapshot.status_of(sensor) == CalibrationStatus::Cancelled {
        return (Vec::new(), Vec::new());
    }
    let ack_chars = chars_of(ack.as_str());
    let upper = to_ascii_uppercase(&ack_chars);
    let in_progress = chars_of("IN_PROGRESS");
    if find_chars(&upper, &in_progress).is_some() {
        let events = vec![Event::Progress { sensor, detail: ack }];
        assert(events_view(events@) =~= seq![EventView::Progress { sensor, detail: ack@ }]);
        return (events, Vec::new());
    }
    let accepted = chars_of("ACCEPTED");
    let ok = chars_of("OK");
    let succeeded = find_chars(&upper, &accepted).is_some() || chars_eq(&upper, &ok);
    let mut ops: Vec<JobOp> = Vec::new();
    if let Some(job_id) = running_named(jobs, Action::AwaitCommandAck, sensor) {
        ops.push(JobOp::Complete { job_id, succeeded });
    }
    proof {
        let expected = match running_named_id(records_view(jobs@), Action::AwaitCommandAck, sensor) {
            Some(job_id) => seq![JobOp::Complete { job_id, succeeded }],
            None => Seq::<JobOp>::empty(),
        };
        assert(ops@ =~= expected);
    }
    if succeeded {
        let events = vec![Event::Progress { sensor, detail: ack }];
        assert(events_view(events@) =~= seq![EventView::Progress { sensor, detail: ack@ }]);
        (events, ops)
    } else {
        snapshot.set_status(sensor, CalibrationStatus::Failed);
        let events = vec![Event::Failed { sensor, reason: ack }];
        assert(events_view(events@) =~= seq![EventView::Failed { sensor, reason: ack@ }]);
        (events, ops)
    }
}

/// The snapshot, events and job changes after the autopilot's offsets for `sensor` were read.
pub open spec fn offsets_outcome(
    s: SnapshotView,
    jobs: Seq<JobRecordView>,
    sensor: Sensor,
    value: i32,
) -> (SnapshotView, Seq<EventView>, Seq<JobOp>) {
    let recorded = s.with_offset(sensor, Some(value));
    if s.status(sensor) == CalibrationStatus::Cancelled {
        (recorded, Seq::empty(), Seq::empty())
    } else {
        match running_named_id(jobs, Action::ReadOffsets, sensor) {
            Some(job_id) => (
                recorded.with_status(sensor, CalibrationStatus::Succeeded),
                seq![EventView::Completed { sensor }],
                seq![JobOp::Complete { job_id, succeeded: true }],
            ),
            None => (recorded, Seq::empty(), Seq::empty()),
        }
    }
}

/// Records the offset read for `sensor` and completes its read-offsets job when one is running.
pub fn offsets_read(snapshot: &mut Snapshot, jobs: &[JobRecord], sensor: Sensor, value: i32) -> (out: (
    Vec<Event>,
    Vec<JobOp>,
))
    ensures
        (final(snapshot)@, events_view(out.0@), out.1@) == offsets_outcome(
            old(snapshot)@,
            records_view(jobs@),
            sensor,
            value,
        ),
{
    snapshot.set_offset(sensor, value);
    if snapshot.status_of(sensor) == CalibrationStatus::Cancelled {
        return (Vec::new(), Vec::new());
    }
    if let Some(job_id) = running_named(jobs, Action::ReadOffsets, sensor) {
        snapshot.set_status(sensor, CalibrationStatus::Succeeded);
        let events = vec![Event::Completed { sensor }];
        let ops = vec![JobOp::Complete { job_id, succeeded: true }];
        assert(events_view(events@) =~= seq![EventView::Completed { sensor }]);
        assert(ops@ =~= seq![JobOp::Complete { job_id, succeeded: true }]);
        (events, ops)
    } else {
        (Vec::new(), Vec::new())
    }
}

} // verus!
