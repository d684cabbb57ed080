use blueos_logic::autopilot::attach::{rpc_command, sensor_from_job, tick_command};
use blueos_logic::autopilot::domain::Autopilot;
use blueos_logic::autopilot::keys::{ack_wire, offset_wire, sensor_wire, STATE_ACK, STATE_OFFSETS};
use blueos_logic::autopilot::model::{Command, Event, IoRequest, Query, Snapshot};
use blueos_logic::autopilot::preflight::{ACK_ACCEPTED, ACK_FAILED, ACK_IN_PROGRESS, FAKE_GROUND_PRESSURE, FAKE_GYRO_OFFSET};
use blueos_logic::effect::Effect;
use blueos_logic::jobs::{JobGraph, JobId, JobOp, JobRecord, JobStatus};
use blueos_logic::sensor::Sensor;

/// The host starts the enqueued tick leaf under `job_id`; the table it keeps and the tick it runs.
fn start_tick(ops: Vec<JobOp>, job_id: JobId) -> (Vec<JobRecord>, IoRequest) {
    let mut records = Vec::new();
    for op in ops {
        if let JobOp::Enqueue(JobGraph::Leaf(spec)) = op {
            let io = Autopilot::io_from_job(job_id, &spec);
            records.push(JobRecord { job_id, parent: None, status: JobStatus::Running, job_spec: Some(spec) });
            return (records, io);
        }
    }
    panic!("tick");
}

#[test]
fn query_reads_snapshot_without_mutation() {
    let snapshot = Snapshot { moving: true, ack: Some(ACK_ACCEPTED.to_string()), gyro_offset: Some(9), ground_pressure: Some(8) };
    let view = Autopilot::handle_query(&snapshot, Query::GetSnapshot);
    assert!(view.snapshot.moving);
    assert_eq!(view.snapshot.gyro_offset, Some(9));
    assert_eq!(snapshot.gyro_offset, Some(9));
    assert_eq!(view.snapshot.ground_pressure, Some(8));
}

#[test]
fn moving_preflight_replies_failed_without_job() {
    let mut snapshot = Snapshot::default();
    let out = Autopilot::handle_command(&mut snapshot, Command::SetMoving(true));
    assert!(out.events.is_empty() && out.effects.is_empty() && out.job_ops.is_empty());
    let out = Autopilot::handle_command(&mut snapshot, Command::Preflight { correlation: 3, sensor: Sensor::Gyro });
    assert!(out.events.iter().any(|event| matches!(
        event,
        Event::Ack { sensor: Sensor::Gyro, ack } if ack == ACK_FAILED
    )));
    assert!(out.effects.iter().any(|effect| matches!(
        effect,
        Effect::Reply { correlation: 3, payload } if payload.as_slice() == ACK_FAILED.as_bytes()
    )));
    assert!(out.effects.iter().any(|effect| matches!(effect, Effect::Publish { key, .. } if key == STATE_ACK)));
    assert!(!out.effects.iter().any(|effect| matches!(effect, Effect::Io(_))));
    assert!(out.job_ops.is_empty());
    assert_eq!(snapshot.ack.as_deref(), Some(ACK_FAILED));
    assert_eq!(snapshot.gyro_offset, None);
}

#[test]
fn still_preflight_then_advance_ack_writes_gyro_offset() {
    let mut snapshot = Snapshot::default();
    let out = Autopilot::handle_command(&mut snapshot, Command::Preflight { correlation: 7, sensor: Sensor::Gyro });
    assert!(out.events.iter().any(|event| matches!(event, Event::Ack { ack, .. } if ack == ACK_IN_PROGRESS)));
    assert!(out.effects.iter().any(|effect| matches!(
        effect,
        Effect::Reply { correlation: 7, payload } if payload.as_slice() == ACK_IN_PROGRESS.as_bytes()
    )));
    assert_eq!(snapshot.ack.as_deref(), Some(ACK_IN_PROGRESS));
    let (table, tick) = start_tick(out.job_ops, JobId(11));
    let command = tick_command(&table, tick);
    assert!(matches!(command, Command::AdvanceAck { job_id: JobId(11), sensor: Sensor::Gyro }));
    let out = Autopilot::handle_command(&mut snapshot, command);
    assert!(out.events.iter().any(|event| matches!(event, Event::Ack { ack, .. } if ack == ACK_ACCEPTED)));
    assert!(out.events.iter().any(|event| matches!(
        event,
        Event::OffsetsWritten { sensor: Sensor::Gyro, value: FAKE_GYRO_OFFSET }
    )));
    assert!(out.effects.iter().any(|effect| matches!(effect, Effect::Publish { key, .. } if key == STATE_ACK)));
    assert!(out.effects.iter().any(|effect| match effect {
        Effect::Publish { key, payload } => key == STATE_OFFSETS && *payload == offset_wire(Sensor::Gyro, FAKE_GYRO_OFFSET),
        _ => false,
    }));
    assert!(matches!(out.job_ops.as_slice(), [JobOp::Complete { job_id: JobId(11), succeeded: true }]));
    assert_eq!(snapshot.ack.as_deref(), Some(ACK_ACCEPTED));
    assert_eq!(snapshot.gyro_offset, Some(FAKE_GYRO_OFFSET));
    assert_eq!(snapshot.ground_pressure, None);
}

#[test]
fn advance_ack_writes_baro_ground_pressure() {
    let mut snapshot = Snapshot::default();
    let out = Autopilot::handle_command(&mut snapshot, Command::Preflight { correlation: 0, sensor: Sensor::Baro });
    let (table, tick) = start_tick(out.job_ops, JobId(2));
    let command = tick_command(&table, tick);
    let _ = Autopilot::handle_command(&mut snapshot, command);
    assert_eq!(snapshot.ground_pressure, Some(FAKE_GROUND_PRESSURE));
    assert_eq!(snapshot.gyro_offset, None);
}

#[test]
fn rpc_bodies_name_the_sensor() {
    assert!(matches!(rpc_command(b"gyro"), Some(Command::Preflight { sensor: Sensor::Gyro, .. })));
    assert!(matches!(rpc_command(b"baro"), Some(Command::Preflight { sensor: Sensor::Baro, .. })));
    assert!(rpc_command(b"compass").is_none());
}

#[test]
fn sensor_of_unknown_job_is_none() {
    assert_eq!(sensor_from_job(&[], JobId(5)), None);
}

#[test]
fn wires_are_sensor_colon_value() {
    assert_eq!(sensor_wire(Sensor::Gyro), b"gyro");
    assert_eq!(ack_wire(Sensor::Baro, "ACCEPTED"), b"baro:ACCEPTED".to_vec());
    assert_eq!(offset_wire(Sensor::Baro, 1013), b"baro:1013".to_vec());
    assert_eq!(offset_wire(Sensor::Gyro, -12), b"gyro:-12".to_vec());
}
