use blueos_logic::calibration::cli::{from_cli, tokens, wants_snapshot, CliCommand};
use blueos_logic::calibration::domain::Calibration;
use blueos_logic::calibration::io::{execute_io, IoPlan, ReplyHandling};
use blueos_logic::calibration::jobs::{leaf, parse_sensor, preflight_sequence, running_named, sensor_payload};
use blueos_logic::calibration::model::{
    Action, CalibrationStatus, Command, Event, IoRequest, Query, Snapshot, UseCase,
};
use blueos_logic::calibration::publish::{event_bytes, frame_event, optional_i32, snapshot_bytes};
use blueos_logic::calibration::wire::{parse_ack, parse_offsets};
use blueos_logic::jobs::{JobGraph, JobId, JobOp, JobRecord, JobSpec, JobStatus};
use blueos_logic::sensor::Sensor;

/// A small job table that applies the handler's job changes in order: a sequence runs its
/// children one after the other, the first leaf of a new graph starts at once.
struct Table {
    records: Vec<JobRecord>,
    children: Vec<(u64, Vec<u64>)>,
    next: u64,
}

impl Table {
    fn new() -> Self {
        Table { records: Vec::new(), children: Vec::new(), next: 1 }
    }

    fn add(&mut self, graph: JobGraph, parent: Option<JobId>) -> u64 {
        let id = self.next;
        self.next += 1;
        match graph {
            JobGraph::Leaf(spec) => {
                self.records.push(JobRecord { job_id: JobId(id), parent, status: JobStatus::Queued, job_spec: Some(spec) });
            }
            JobGraph::Sequence(items) => {
                self.records.push(JobRecord { job_id: JobId(id), parent, status: JobStatus::Queued, job_spec: None });
                let mut kids = Vec::new();
                for item in items {
                    kids.push(self.add(item, Some(JobId(id))));
                }
                self.children.push((id, kids));
            }
        }
        id
    }

    fn record(&mut self, id: u64) -> &mut JobRecord {
        self.records.iter_mut().find(|r| r.job_id.0 == id).expect("job")
    }

    fn kids(&self, id: u64) -> Vec<u64> {
        self.children.iter().find(|(p, _)| *p == id).map(|(_, k)| k.clone()).unwrap_or_default()
    }

    fn start(&mut self, id: u64) {
        self.record(id).status = JobStatus::Running;
        if let Some(first) = self.kids(id).first().copied() {
            self.start(first);
        }
    }

    fn finish(&mut self, id: u64, succeeded: bool) {
        let status = self.record(id).status;
        if status != JobStatus::Running {
            return;
        }
        self.record(id).status = if succeeded { JobStatus::Succeeded } else { JobStatus::Failed };
        let parent = self.record(id).parent;
        if let Some(JobId(p)) = parent {
            if !succeeded {
                self.finish(p, false);
                return;
            }
            let kids = self.kids(p);
            let pos = kids.iter().position(|k| *k == id).unwrap();
            match kids.get(pos + 1) {
                Some(next) => self.start(*next),
                None => self.finish(p, true),
            }
        }
    }

    fn cancel(&mut self, id: u64) {
        let status = self.record(id).status;
        if matches!(status, JobStatus::Succeeded | JobStatus::Failed | JobStatus::Cancelled) {
            return;
        }
        self.record(id).status = JobStatus::Cancelled;
        for kid in self.kids(id) {
            self.cancel(kid);
        }
    }

    fn apply(&mut self, ops: Vec<JobOp>) {
        for op in ops {
            match op {
                JobOp::Enqueue(graph) => {
                    let id = self.add(graph, None);
                    self.start(id);
                }
                JobOp::Complete { job_id, succeeded } => self.finish(job_id.0, succeeded),
                JobOp::Cancel { job_id } => self.cancel(job_id.0),
            }
        }
    }

    fn running_leaf_names(&self) -> Vec<String> {
        self.records
            .iter()
            .filter(|r| r.status == JobStatus::Running && r.job_spec.is_some())
            .map(|r| r.job_spec.as_ref().unwrap().name.clone())
            .collect()
    }
}

fn handle(snapshot: &mut Snapshot, table: &mut Table, command: Command) -> Vec<Event> {
    let out = Calibration::handle_command(snapshot, &table.records, command);
    table.apply(out.job_ops);
    out.events
}

/// The I/O request of the first running leaf: what the host performs next.
fn first_running_io(table: &Table) -> Option<IoRequest> {
    table
        .records
        .iter()
        .find(|r| r.status == JobStatus::Running && r.job_spec.is_some())
        .map(|r| Calibration::io_from_job(r.job_id, r.job_spec.as_ref().unwrap()))
}

fn cancel_leaf_id(table: &Table) -> JobId {
    table
        .records
        .iter()
        .find(|r| r.job_spec.as_ref().map(|spec| spec.name == "cancel_calibration").unwrap_or(false))
        .map(|r| r.job_id)
        .expect("cancel leaf")
}

fn job_names(table: &Table) -> Vec<String> {
    table.records.iter().filter_map(|r| r.job_spec.as_ref().map(|spec| spec.name.clone())).collect()
}

#[test]
fn io_from_job_maps_action_names() {
    let start = JobSpec {
        name: Action::StartPreflightCalibration.name().to_string(),
        payload: b"baro".to_vec(),
    };
    assert!(matches!(
        Calibration::io_from_job(JobId(1), &start),
        IoRequest::PreflightCalibration { job_id: JobId(1), sensor: Sensor::Baro }
    ));
    let await_ack = JobSpec {
        name: Action::AwaitCommandAck.name().to_string(),
        payload: b"gyro".to_vec(),
    };
    assert!(matches!(
        Calibration::io_from_job(JobId(2), &await_ack),
        IoRequest::ReadOffsets { job_id: JobId(2), sensor: Sensor::Gyro }
    ));
    let cancel = JobSpec {
        name: Action::CancelCalibration.name().to_string(),
        payload: Vec::new(),
    };
    assert!(matches!(
        Calibration::io_from_job(JobId(3), &cancel),
        IoRequest::CancelAutopilot { job_id: JobId(3) }
    ));
}

#[test]
fn start_gyro_requests_and_runs_preflight_leaf() {
    let mut snapshot = Snapshot::default();
    let mut table = Table::new();
    let events = handle(&mut snapshot, &mut table, Command::StartGyro);
    assert!(events
        .iter()
        .any(|event| matches!(event, Event::Requested { use_case: UseCase::CalibrateGyroscope })));
    assert_eq!(snapshot.gyro, CalibrationStatus::Running);
    assert_eq!(table.running_leaf_names(), ["start_preflight_calibration"]);
    let start = running_named(&table.records, Action::StartPreflightCalibration, Sensor::Gyro).unwrap();
    let spec = table.records.iter().find(|r| r.job_id == start).unwrap().job_spec.as_ref().unwrap();
    assert!(matches!(
        Calibration::io_from_job(start, spec),
        IoRequest::PreflightCalibration { sensor: Sensor::Gyro, .. }
    ));
}

#[test]
fn gyro_and_baro_leaves_share_name_and_differ_in_payload() {
    match (leaf(Action::StartPreflightCalibration, Sensor::Gyro), leaf(Action::StartPreflightCalibration, Sensor::Baro)) {
        (JobGraph::Leaf(gyro_spec), JobGraph::Leaf(baro_spec)) => {
            assert_eq!(gyro_spec.name, baro_spec.name);
            assert_eq!(gyro_spec.name, Action::StartPreflightCalibration.name());
            assert_ne!(gyro_spec.payload, baro_spec.payload);
        }
        _ => panic!("expected leaves"),
    }
}

#[test]
fn preflight_sequence_has_three_steps_in_order() {
    match preflight_sequence(Sensor::Baro) {
        JobGraph::Sequence(children) => {
            let names: Vec<String> = children
                .iter()
                .map(|child| match child {
                    JobGraph::Leaf(spec) => spec.name.clone(),
                    _ => panic!("expected leaf"),
                })
                .collect();
            assert_eq!(names, ["start_preflight_calibration", "await_command_ack", "read_offsets"]);
        }
        _ => panic!("expected sequence"),
    }
}

#[test]
fn stationary_sequences_gyro_then_baro() {
    let mut snapshot = Snapshot::default();
    let mut table = Table::new();
    handle(&mut snapshot, &mut table, Command::StartStationary);
    assert_eq!(table.running_leaf_names(), ["start_preflight_calibration"]);
    let start = running_named(&table.records, Action::StartPreflightCalibration, Sensor::Gyro).unwrap();
    handle(&mut snapshot, &mut table, Command::JobProgress { job_id: start, payload: b"ok".to_vec() });
    assert_eq!(table.running_leaf_names(), ["await_command_ack"]);
    handle(&mut snapshot, &mut table, Command::AckObserved { sensor: Sensor::Gyro, ack: "ACCEPTED".to_string() });
    assert_eq!(table.running_leaf_names(), ["read_offsets"]);
    handle(&mut snapshot, &mut table, Command::OffsetsRead { sensor: Sensor::Gyro, value: 3 });
    assert_eq!(snapshot.gyro, CalibrationStatus::Succeeded);
    assert_eq!(table.running_leaf_names(), ["start_preflight_calibration"]);
    let start = running_named(&table.records, Action::StartPreflightCalibration, Sensor::Baro).unwrap();
    handle(&mut snapshot, &mut table, Command::JobProgress { job_id: start, payload: b"ok".to_vec() });
    handle(&mut snapshot, &mut table, Command::AckObserved { sensor: Sensor::Baro, ack: "ACCEPTED".to_string() });
    handle(&mut snapshot, &mut table, Command::OffsetsRead { sensor: Sensor::Baro, value: 1013 });
    assert_eq!(snapshot.gyro, CalibrationStatus::Succeeded);
    assert_eq!(snapshot.baro, CalibrationStatus::Succeeded);
    assert_eq!(snapshot.gyro_offset, Some(3));
    assert_eq!(snapshot.ground_pressure, Some(1013));
    let view = Calibration::handle_query(&snapshot, &table.records, Query::GetSnapshot);
    assert_eq!(view.snapshot.gyro, CalibrationStatus::Succeeded);
    assert_eq!(view.snapshot.baro, CalibrationStatus::Succeeded);
}

#[test]
fn cancel_marks_jobs_and_snapshot() {
    let mut snapshot = Snapshot::default();
    let mut table = Table::new();
    handle(&mut snapshot, &mut table, Command::StartGyro);
    assert_eq!(snapshot.gyro, CalibrationStatus::Running);
    let out = Calibration::handle_command(&mut snapshot, &table.records, Command::Cancel);
    assert_eq!(snapshot.gyro, CalibrationStatus::Cancelled);
    assert!(out.events.iter().any(|event| matches!(event, Event::Cancelled { sensor: Sensor::Gyro })));
    assert!(matches!(out.job_ops.first(), Some(JobOp::Cancel { .. })));
    assert!(matches!(out.job_ops.last(), Some(JobOp::Enqueue(JobGraph::Leaf(spec))) if spec.name == "cancel_calibration"));
    table.apply(out.job_ops);
    assert!(table.records.iter().any(|job| matches!(job.status, JobStatus::Cancelled | JobStatus::Cancelling)));
    assert_eq!(first_running_io(&table), Some(IoRequest::CancelAutopilot { job_id: cancel_leaf_id(&table) }));
}

#[test]
fn query_reads_snapshot_only() {
    let mut snapshot = Snapshot::default();
    let mut table = Table::new();
    handle(&mut snapshot, &mut table, Command::StartGyro);
    let before = snapshot.gyro;
    let jobs_before = format!("{:?}", table.records);
    let view = Calibration::handle_query(&snapshot, &table.records, Query::GetSnapshot);
    assert_eq!(view.snapshot.gyro, before);
    assert_eq!(snapshot.gyro, before);
    assert_eq!(format!("{:?}", table.records), jobs_before);
    assert_eq!(snapshot.gyro, CalibrationStatus::Running);
    assert_eq!(view.jobs.len(), table.records.len());
}

#[test]
fn gyro_and_baro_share_start_preflight_calibration() {
    let mut snapshot = Snapshot::default();
    let mut gyro = Table::new();
    let events = handle(&mut snapshot, &mut gyro, Command::StartGyro);
    assert!(events
        .iter()
        .any(|event| matches!(event, Event::Requested { use_case: UseCase::CalibrateGyroscope })));
    assert!(matches!(first_running_io(&gyro), Some(IoRequest::PreflightCalibration { sensor: Sensor::Gyro, .. })));
    assert!(job_names(&gyro).iter().any(|name| name == Action::StartPreflightCalibration.name()));

    let mut snapshot = Snapshot::default();
    let mut baro = Table::new();
    handle(&mut snapshot, &mut baro, Command::StartBaro);
    assert!(matches!(first_running_io(&baro), Some(IoRequest::PreflightCalibration { sensor: Sensor::Baro, .. })));
    match (leaf(Action::StartPreflightCalibration, Sensor::Gyro), leaf(Action::StartPreflightCalibration, Sensor::Baro)) {
        (JobGraph::Leaf(gyro_spec), JobGraph::Leaf(baro_spec)) => {
            assert_eq!(gyro_spec.name, baro_spec.name);
            assert_eq!(gyro_spec.name, Action::StartPreflightCalibration.name());
            assert_ne!(gyro_spec.payload, baro_spec.payload);
        }
        _ => panic!("expected leaves"),
    }
}

#[test]
fn failed_ack_fails_the_sensor() {
    let mut snapshot = Snapshot::default();
    let mut table = Table::new();
    handle(&mut snapshot, &mut table, Command::StartBaro);
    let start = running_named(&table.records, Action::StartPreflightCalibration, Sensor::Baro).unwrap();
    handle(&mut snapshot, &mut table, Command::JobProgress { job_id: start, payload: b"ok".to_vec() });
    let events = handle(&mut snapshot, &mut table, Command::AckObserved { sensor: Sensor::Baro, ack: "DENIED".to_string() });
    assert_eq!(snapshot.baro, CalibrationStatus::Failed);
    assert!(matches!(events.as_slice(), [Event::Failed { sensor: Sensor::Baro, reason }] if reason == "DENIED"));
    assert_eq!(snapshot.last_ack.as_deref(), Some("DENIED"));
}

#[test]
fn in_progress_ack_only_reports_progress() {
    let mut snapshot = Snapshot::default();
    let mut table = Table::new();
    handle(&mut snapshot, &mut table, Command::StartGyro);
    let out = Calibration::handle_command(
        &mut snapshot,
        &table.records,
        Command::AckObserved { sensor: Sensor::Gyro, ack: "in_progress".to_string() },
    );
    assert!(out.job_ops.is_empty());
    assert!(matches!(out.events.as_slice(), [Event::Progress { sensor: Sensor::Gyro, .. }]));
    assert_eq!(snapshot.gyro, CalibrationStatus::Running);
}

#[test]
fn failed_preflight_progress_fails_the_sensor() {
    let mut snapshot = Snapshot::default();
    let mut table = Table::new();
    handle(&mut snapshot, &mut table, Command::StartGyro);
    let start = running_named(&table.records, Action::StartPreflightCalibration, Sensor::Gyro).unwrap();
    let out = Calibration::handle_command(&mut snapshot, &table.records, Command::JobProgress { job_id: start, payload: b"FAILED".to_vec() });
    assert!(matches!(out.job_ops.as_slice(), [JobOp::Complete { succeeded: false, .. }]));
    assert_eq!(snapshot.gyro, CalibrationStatus::Failed);
}

#[test]
fn offsets_ignored_after_cancel() {
    let mut snapshot = Snapshot::default();
    snapshot.gyro = CalibrationStatus::Cancelled;
    let out = Calibration::handle_command(&mut snapshot, &[], Command::OffsetsRead { sensor: Sensor::Gyro, value: 9 });
    assert!(out.events.is_empty());
    assert!(out.job_ops.is_empty());
    assert_eq!(snapshot.gyro_offset, Some(9));
    assert_eq!(snapshot.gyro, CalibrationStatus::Cancelled);
}

#[test]
fn sensor_payload_round_trips() {
    assert_eq!(parse_sensor(&sensor_payload(Sensor::Gyro)), Some(Sensor::Gyro));
    assert_eq!(parse_sensor(&sensor_payload(Sensor::Baro)), Some(Sensor::Baro));
    assert_eq!(parse_sensor(b"gyr"), None);
    assert_eq!(parse_sensor(b"GYRO"), None);
}

#[test]
fn wire_samples_parse_into_commands() {
    assert!(matches!(
        parse_ack(b" gyro:ACCEPTED \n"),
        Some(Command::AckObserved { sensor: Sensor::Gyro, ref ack }) if ack == "ACCEPTED"
    ));
    assert!(matches!(parse_offsets(b"baro:1013"), Some(Command::OffsetsRead { sensor: Sensor::Baro, value: 1013 })));
    assert!(matches!(parse_offsets(b"gyro:-7"), Some(Command::OffsetsRead { sensor: Sensor::Gyro, value: -7 })));
    assert!(parse_offsets(b"gyro:x").is_none());
    assert!(parse_ack(b"compass:OK").is_none());
    assert!(parse_ack(&[0xff, 0xfe]).is_none());
}

#[test]
fn snapshot_and_event_bytes_are_the_published_texts() {
    let mut snapshot = Snapshot::default();
    snapshot.gyro = CalibrationStatus::Succeeded;
    snapshot.gyro_offset = Some(-3);
    snapshot.last_ack = Some("ACCEPTED".to_string());
    assert_eq!(
        String::from_utf8(snapshot_bytes(&snapshot)).unwrap(),
        "gyro=Succeeded;baro=Idle;last_ack=ACCEPTED;gyro_offset=-3;ground_pressure="
    );
    let event = Event::Progress { sensor: Sensor::Baro, detail: "say \"hi\"".to_string() };
    assert_eq!(
        String::from_utf8(event_bytes(&event)).unwrap(),
        "Progress { sensor: Baro, detail: \"say \\\"hi\\\"\" }"
    );
    assert_eq!(optional_i32(Some(42)), "42");
    assert_eq!(optional_i32(None), "");
}

#[test]
fn events_frame_their_quoted_text() {
    let failed = Event::Failed { sensor: Sensor::Gyro, reason: "DENIED".to_string() };
    assert_eq!(String::from_utf8(frame_event(&failed, "<q>")).unwrap(), "Failed { sensor: Gyro, reason: <q> }");
    assert_eq!(String::from_utf8(event_bytes(&failed)).unwrap(), "Failed { sensor: Gyro, reason: \"DENIED\" }");
    let done = Event::Completed { sensor: Sensor::Baro };
    assert_eq!(String::from_utf8(frame_event(&done, "ignored")).unwrap(), "Completed { sensor: Baro }");
    let requested = Event::Requested { use_case: UseCase::CalibrateStationarySensors };
    assert_eq!(
        String::from_utf8(event_bytes(&requested)).unwrap(),
        "Requested { use_case: CalibrateStationarySensors }"
    );
}

#[test]
fn cli_tokens_round_trip() {
    assert_eq!(tokens(Some(CliCommand::Stationary)), vec!["stationary".to_string()]);
    assert!(matches!(from_cli(&tokens(Some(CliCommand::Gyro))), Some(Command::StartGyro)));
    assert!(matches!(from_cli(&tokens(Some(CliCommand::Cancel))), Some(Command::Cancel)));
    assert!(from_cli(&tokens(Some(CliCommand::Snapshot))).is_none());
    assert!(wants_snapshot(&tokens(Some(CliCommand::Snapshot))));
    assert!(from_cli(&[]).is_none());
}

#[test]
fn preflight_io_plans_an_rpc_that_reports_progress() {
    let snapshot = Snapshot::default();
    match execute_io(&snapshot, &[], IoRequest::PreflightCalibration { job_id: JobId(4), sensor: Sensor::Gyro }) {
        IoPlan::Rpc { key, payload, then } => {
            assert_eq!(key, "autopilot/rpc/preflight_calibration");
            assert_eq!(payload, b"gyro".to_vec());
            assert_eq!(then, ReplyHandling::ReplyAsProgress { job_id: JobId(4) });
        }
        other => panic!("expected an rpc, got {:?}", other),
    }
}
