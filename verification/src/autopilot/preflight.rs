use vstd::prelude::*;

use crate::autopilot::keys::{STATE_ACK, STATE_OFFSETS, ack_text, ack_wire, offset_text, offset_wire};
use crate::autopilot::model::{Event, EventView, IoRequest, Snapshot, SnapshotView, events_view};
use crate::effect::{Effect, EffectView, effects_view};
use crate::jobs::{JobGraph, JobId, JobOp, JobSpec, JobSpecView};
use crate::sensor::{Sensor, sensor_str, sensor_text};
use vstd::utf8::encode_utf8;

verus! {

/// The name of the job that advances a preflight acknowledgement.
pub const ADVANCE_ACK: &'static str = "advance_ack";

pub const ACK_FAILED: &'static str = "FAILED";

pub const ACK_IN_PROGRESS: &'static str = "IN_PROGRESS";

pub const ACK_ACCEPTED: &'static str = "ACCEPTED";

/// The gyroscope offset the simulated autopilot reports.
pub const FAKE_GYRO_OFFSET: i32 = 1;

/// The ground pressure the simulated autopilot reports.
pub const FAKE_GROUND_PRESSURE: i32 = 1013;

/// The leaf job that later advances the acknowledgement for `sensor`.
pub open spec fn is_advance_leaf(graph: JobGraph, sensor: Sensor) -> bool {
    graph matches JobGraph::Leaf(spec) && spec@ == (JobSpecView {
        name: ADVANCE_ACK@,
        payload: encode_utf8(sensor_text(sensor)),
    })
}

/// The acknowledgement published and replied for a preflight request, with the effects it has.
pub open spec fn ack_effects(sensor: Sensor, ack: Seq<char>, correlation: u32) -> Seq<EffectView<IoRequest>> {
    seq![
        EffectView::Publish { key: STATE_ACK@, payload: encode_utf8(ack_text(sensor, ack)) },
        EffectView::Reply { correlation, payload: encode_utf8(ack) },
    ]
}

/// What a preflight request does: refused ("FAILED") while the vehicle moves; otherwise
/// acknowledged "IN_PROGRESS" with a job enqueued to advance it.
pub open spec fn preflight_post(
    before: SnapshotView,
    after: SnapshotView,
    correlation: u32,
    sensor: Sensor,
    events: Seq<EventView>,
    effects: Seq<EffectView<IoRequest>>,
    ops: Seq<JobOp>,
) -> bool {
    let ack = if before.moving {
        ACK_FAILED@
    } else {
        ACK_IN_PROGRESS@
    };
    &&& after == (SnapshotView { ack: Some(ack), ..before })
    &&& events == seq![EventView::Ack { sensor, ack }]
    &&& effects == ack_effects(sensor, ack, correlation)
    &&& if before.moving {
        ops.len() == 0
    } else {
        ops.len() == 1 && (ops[0] matches JobOp::Enqueue(graph) && is_advance_leaf(graph, sensor))
    }
}

pub fn preflight(snapshot: &mut Snapshot, correlation: u32, sensor: Sensor) -> (out: (
    Vec<Event>,
    Vec<Effect<IoRequest>>,
    Vec<JobOp>,
))
    ensures
        preflight_post(
            old(snapshot)@,
            final(snapshot)@,
            correlation,
            sensor,
            events_view(out.0@),
            effects_view(out.1@),
            out.2@,
        ),
{
    let ack = if snapshot.moving {
        ACK_FAILED
    } else {
        ACK_IN_PROGRESS
    };
    let mut ops: Vec<JobOp> = Vec::new();
    if !snapshot.moving {
        ops.push(
            JobOp::Enqueue(
                JobGraph::Leaf(JobSpec { name: String::from_str(ADVANCE_ACK), payload: sensor_str(sensor).as_bytes_vec() }),
            ),
        );
    }
    snapshot.ack = Some(String::from_str(ack));
    let events = vec![Event::Ack { sensor, ack: String::from_str(ack) }];
    let effects = vec![
        Effect::Publish { key: String::from_str(STATE_ACK), payload: ack_wire(sensor, ack) },
        Effect::Reply { correlation, payload: ack.as_bytes_vec() },
    ];
    assert(events_view(events@) =~= seq![EventView::Ack { sensor, ack: ack@ }]);
    assert(effects_view(effects@) =~= ack_effects(sensor, ack@, correlation));
    (events, effects, ops)
}

/// The offset the simulated autopilot writes for a sensor.
pub open spec fn fake_offset(sensor: Sensor) -> i32 {
    match sensor {
        Sensor::Gyro => FAKE_GYRO_OFFSET,
        Sensor::Baro => FAKE_GROUND_PRESSURE,
    }
}

/// What advancing an acknowledgement does: the job completes, the acknowledgement becomes
/// "ACCEPTED" and the sensor's offset is written and published.
pub open spec fn advance_ack_post(
    before: SnapshotView,
    after: SnapshotView,
    job_id: JobId,
    sensor: Sensor,
    events: Seq<EventView>,
    effects: Seq<EffectView<IoRequest>>,
    ops: Seq<JobOp>,
) -> bool {
    let value = fake_offset(sensor);
    &&& ops == seq![JobOp::Complete { job_id, succeeded: true }]
    &&& after == (match sensor {
        Sensor::Gyro => SnapshotView { ack: Some(ACK_ACCEPTED@), gyro_offset: Some(value), ..before },
        Sensor::Baro => SnapshotView { ack: Some(ACK_ACCEPTED@), ground_pressure: Some(value), ..before },
    })
    &&& events == seq![
        EventView::Ack { sensor, ack: ACK_ACCEPTED@ },
        EventView::OffsetsWritten { sensor, value },
    ]
    &&& effects == seq![
        EffectView::<IoRequest>::Publish { key: STATE_ACK@, payload: encode_utf8(ack_text(sensor, ACK_ACCEPTED@)) },
        EffectView::<IoRequest>::Publish { key: STATE_OFFSETS@, payload: encode_utf8(offset_text(sensor, value)) },
    ]
}

pub fn advance_ack(snapshot: &mut Snapshot, job_id: JobId, sensor: Sensor) -> (out: (
    Vec<Event>,
    Vec<Effect<IoRequest>>,
    Vec<JobOp>,
))
    ensures
        advance_ack_post(
            old(snapshot)@,
            final(snapshot)@,
            job_id,
            sensor,
            events_view(out.0@),
            effects_view(out.1@),
            out.2@,
        ),
{
    let ops = vec![JobOp::Complete { job_id, succeeded: true }];
    snapshot.ack = Some(String::from_str(ACK_ACCEPTED));
    let value = match sensor {
        Sensor::Gyro => {
            snapshot.gyro_offset = Some(FAKE_GYRO_OFFSET);
            FAKE_GYRO_OFFSET
        },
        Sensor::Baro => {
            snapshot.ground_pressure = Some(FAKE_GROUND_PRESSURE);
            FAKE_GROUND_PRESSURE
        },
    };
    let events = vec![
        Event::Ack { sensor, ack: String::from_str(ACK_ACCEPTED) },
        Event::OffsetsWritten { sensor, value },
    ];
    let effects = vec![
        Effect::Publish { key: String::from_str(STATE_ACK), payload: ack_wire(sensor, ACK_ACCEPTED) },
        Effect::Publish { key: String::from_str(STATE_OFFSETS), payload: offset_wire(sensor, value) },
    ];
    assert(ops@ =~= seq![JobOp::Complete { job_id, succeeded: true }]);
    assert(events_view(events@) =~= seq![
        EventView::Ack { sensor, ack: ACK_ACCEPTED@ },
        EventView::OffsetsWritten { sensor, value },
    ]);
    assert(effects_view(effects@) =~= seq![
        EffectView::<IoRequest>::Publish { key: STATE_ACK@, payload: encode_utf8(ack_text(sensor, ACK_ACCEPTED@)) },
        EffectView::<IoRequest>::Publish { key: STATE_OFFSETS@, payload: encode_utf8(offset_text(sensor, value)) },
    ]);
    (events, effects, ops)
}

} // verus!
