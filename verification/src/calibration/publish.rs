use vstd::prelude::*;

use crate::calibration::keys::{CALIBRATION_STATE_SNAPSHOT, CALIBRATION_STREAM_EVENTS};
use crate::calibration::model::{
    CalibrationStatus, Event, EventView, IoRequest, Snapshot, SnapshotView, UseCase, events_view,
};
use crate::effect::{Effect, EffectView, effects_view};
use crate::sensor::Sensor;
use crate::text::{decimal, format_i32};
use vstd::utf8::encode_utf8;

verus! {

/// The `Debug` text of a calibration status.
pub open spec fn status_debug(status: CalibrationStatus) -> Seq<char> {
    match status {
        CalibrationStatus::Idle => "Idle"@,
        CalibrationStatus::Running => "Running"@,
        CalibrationStatus::Succeeded => "Succeeded"@,
        CalibrationStatus::Failed => "Failed"@,
        CalibrationStatus::Cancelled => "Cancelled"@,
    }
}

/// The `Debug` text of a sensor.
pub open spec fn sensor_debug(sensor: Sensor) -> Seq<char> {
    match sensor {
        Sensor::Gyro => "Gyro"@,
        Sensor::Baro => "Baro"@,
    }
}

/// The `Debug` text of a use case.
pub open spec fn use_case_debug(use_case: UseCase) -> Seq<char> {
    match use_case {
        UseCase::CalibrateGyroscope => "CalibrateGyroscope"@,
        UseCase::CalibrateBarometer => "CalibrateBarometer"@,
        UseCase::CalibrateStationarySensors => "CalibrateStationarySensors"@,
        UseCase::CancelCalibration => "CancelCalibration"@,
    }
}

/// The `Debug` text of a string: the text quoted, with the escapes that `str`'s `Debug` writes.
pub uninterp spec fn str_debug(text: Seq<char>) -> Seq<char>;

/// `<str as Debug>::fmt`, through `format!("{:?}", text)`: the quoted and escaped text.
#[verifier::external_body]
fn debug_text(text: &str) -> (out: String)
    ensures
        out@ == str_debug(text@),
{
    format!("{:?}", text)
}

fn status_name(status: CalibrationStatus) -> (name: &'static str)
    ensures
        name@ == status_debug(status),
{
    match status {
        CalibrationStatus::Idle => "Idle",
        CalibrationStatus::Running => "Running",
        CalibrationStatus::Succeeded => "Succeeded",
        CalibrationStatus::Failed => "Failed",
        CalibrationStatus::Cancelled => "Cancelled",
    }
}

fn sensor_name(sensor: Sensor) -> (name: &'static str)
    ensures
        name@ == sensor_debug(sensor),
{
    match sensor {
        Sensor::Gyro => "Gyro",
        Sensor::Baro => "Baro",
    }
}

fn use_case_name(use_case: UseCase) -> (name: &'static str)
    ensures
        name@ == use_case_debug(use_case),
{
    match use_case {
        UseCase::CalibrateGyroscope => "CalibrateGyroscope",
        UseCase::CalibrateBarometer => "CalibrateBarometer",
        UseCase::CalibrateStationarySensors => "CalibrateStationarySensors",
        UseCase::CancelCalibration => "CancelCalibration",
    }
}

/// The decimal text of an optional value, empty when there is none.
pub open spec fn optional_decimal(value: Option<i32>) -> Seq<char> {
    match value {
        Some(v) => decimal(v as int),
        None => Seq::empty(),
    }
}

pub fn optional_i32(value: Option<i32>) -> (text: String)
    ensures
        text@ == optional_decimal(value),
{
    match value {
        Some(number) => format_i32(number),
        None => String::new(),
    }
}

/// The text of a published snapshot.
pub open spec fn snapshot_text(s: SnapshotView) -> Seq<char> {
    "gyro="@ + status_debug(s.gyro) + ";baro="@ + status_debug(s.baro) + ";last_ack="@ + (match s.last_ack {
        Some(ack) => ack,
        None => Seq::empty(),
    }) + ";gyro_offset="@ + optional_decimal(s.gyro_offset) + ";ground_pressure="@ + optional_decimal(
        s.ground_pressure,
    )
}

/// The text of a streamed event, with the `Debug` text of its detail or reason given as `quoted`.
pub open spec fn event_text_quoted(event: EventView, quoted: Seq<char>) -> Seq<char> {
    match event {
        EventView::Requested { use_case } => "Requested { use_case: "@ + use_case_debug(use_case) + " }"@,
        EventView::Progress { sensor, .. } => "Progress { sensor: "@ + sensor_debug(sensor) + ", detail: "@ + quoted
            + " }"@,
        EventView::Completed { sensor } => "Completed { sensor: "@ + sensor_debug(sensor) + " }"@,
        EventView::Failed { sensor, .. } => "Failed { sensor: "@ + sensor_debug(sensor) + ", reason: "@ + quoted
            + " }"@,
        EventView::Cancelled { sensor } => "Cancelled { sensor: "@ + sensor_debug(sensor) + " }"@,
    }
}

/// The free text an event carries: a progress detail or a failure reason; empty for the others.
pub open spec fn event_free_text(event: EventView) -> Seq<char> {
    match event {
        EventView::Progress { detail, .. } => detail,
        EventView::Failed { reason, .. } => reason,
        _ => Seq::empty(),
    }
}

/// The text of a streamed event: its `Debug` text.
pub open spec fn event_text(event: EventView) -> Seq<char> {
    event_text_quoted(event, str_debug(event_free_text(event)))
}

pub fn snapshot_bytes(snapshot: &Snapshot) -> (bytes: Vec<u8>)
    ensures
        bytes@ == encode_utf8(snapshot_text(snapshot@)),
{
    let mut out = String::new();
    out.append("gyro=");
    out.append(status_name(snapshot.gyro));
    out.append(";baro=");
    out.append(status_name(snapshot.baro));
    out.append(";last_ack=");
    match &snapshot.last_ack {
        Some(ack) => out.append(ack.as_str()),
        None => {},
    }
    out.append(";gyro_offset=");
    let gyro_offset = optional_i32(snapshot.gyro_offset);
    out.append(gyro_offset.as_str());
    out.append(";ground_pressure=");
    let ground_pressure = optional_i32(snapshot.ground_pressure);
    out.append(ground_pressure.as_str());
    proof {
        let ack = match snapshot@.last_ack {
            Some(ack) => ack,
            None => Seq::<char>::empty(),
        };
        assert(out@ =~= snapshot_text(snapshot@));
    }
    out.as_str().as_bytes_vec()
}

/// The bytes of a streamed event, given the `Debug` text of its detail or reason.
pub fn frame_event(event: &Event, quoted: &str) -> (bytes: Vec<u8>)
    ensures
        bytes@ == encode_utf8(event_text_quoted(event@, quoted@)),
{
    let mut out = String::new();
    match event {
        Event::Requested { use_case } => {
            out.append("Requested { use_case: ");
            out.append(use_case_name(*use_case));
            out.append(" }");
        },
        Event::Progress { sensor, .. } => {
            out.append("Progress { sensor: ");
            out.append(sensor_name(*sensor));
            out.append(", detail: ");
            out.append(quoted);
            out.append(" }");
        },
        Event::Completed { sensor } => {
            out.append("Completed { sensor: ");
            out.append(sensor_name(*sensor));
            out.append(" }");
        },
        Event::Failed { sensor, .. } => {
            out.append("Failed { sensor: ");
            out.append(sensor_name(*sensor));
            out.append(", reason: ");
            out.append(quoted);
            out.append(" }");
        },
        Event::Cancelled { sensor } => {
            out.append("Cancelled { sensor: ");
            out.append(sensor_name(*sensor));
            out.append(" }");
        },
    }
    assert(out@ =~= event_text_quoted(event@, quoted@));
    out.as_str().as_bytes_vec()
}

/// The bytes of a streamed event: its `Debug` text.
pub fn event_bytes(event: &Event) -> (bytes: Vec<u8>)
    ensures
        bytes@ == encode_utf8(event_text(event@)),
{
    let quoted = match event {
        Event::Progress { detail, .. } => debug_text(detail.as_str()),
        Event::Failed { reason, .. } => debug_text(reason.as_str()),
        _ => String::new(),
    };
    frame_event(event, quoted.as_str())
}

/// The effects of a handled command: the snapshot, then each event, published in order.
pub open spec fn published(s: SnapshotView, events: Seq<EventView>) -> Seq<EffectView<IoRequest>> {
    seq![
        EffectView::Publish {
            key: CALIBRATION_STATE_SNAPSHOT@,
            payload: encode_utf8(snapshot_text(s)),
        },
    ] + events.map_values(
        |event: EventView|
            EffectView::Publish { key: CALIBRATION_STREAM_EVENTS@, payload: encode_utf8(event_text(event)) },
    )
}

pub fn publish_effects(snapshot: &Snapshot, events: &[Event]) -> (effects: Vec<Effect<IoRequest>>)
    ensures
        effects_view(effects@) == published(snapshot@, events_view(events@)),
{
    let mut effects = vec![
        Effect::Publish {
            key: String::from_str(CALIBRATION_STATE_SNAPSHOT),
            payload: snapshot_bytes(snapshot),
        },
    ];
    let mut i: usize = 0;
    while i < events.len()
        invariant
            i <= events@.len(),
            effects@.len() == i + 1,
            effects@[0]@ == (EffectView::<IoRequest>::Publish {
                key: CALIBRATION_STATE_SNAPSHOT@,
                payload: encode_utf8(snapshot_text(snapshot@)),
            }),
            forall|k: int|
                0 <= k < i ==> #[trigger] effects@[k + 1]@ == (EffectView::<IoRequest>::Publish {
                    key: CALIBRATION_STREAM_EVENTS@,
                    payload: encode_utf8(event_text(events@[k]@)),
                }),
        decreases events@.len() - i,
    {
        effects.push(
            Effect::Publish {
                key: String::from_str(CALIBRATION_STREAM_EVENTS),
                payload: event_bytes(&events[i]),
            },
        );
        i += 1;
    }
    proof {
        let expected = published(snapshot@, events_view(events@));
        assert forall|k: int| 0 <= k < effects@.len() implies effects_view(effects@)[k] == expected[k] by {
            if k > 0 {
                assert(effects@[(k - 1) + 1]@ == expected[k]);
            }
        }
        assert(effects_view(effects@) =~= expected);
    }
    effects
}

} // verus!
