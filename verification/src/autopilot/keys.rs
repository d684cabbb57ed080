use vstd::prelude::*;

use crate::sensor::{Sensor, sensor_str, sensor_text};
use crate::text::{decimal, format_i32};
use vstd::utf8::encode_utf8;

verus! {

/// The RPC that starts a preflight calibration. Body: "gyro" or "baro"; reply: "IN_PROGRESS" or
/// "FAILED".
pub const RPC_PREFLIGHT: &'static str = "autopilot/rpc/preflight_calibration";

/// The state key for command acknowledgements: "<sensor>:<ack>".
pub const STATE_ACK: &'static str = "autopilot/state/command_ack";

/// The state key for sensor offsets: "<sensor>:<i32>" (the gyro offset or the ground pressure).
pub const STATE_OFFSETS: &'static str = "autopilot/state/sensor_offsets";

/// The text of an acknowledgement sample.
pub open spec fn ack_text(sensor: Sensor, ack: Seq<char>) -> Seq<char> {
    sensor_text(sensor) + ":"@ + ack
}

/// The text of an offsets sample.
pub open spec fn offset_text(sensor: Sensor, value: i32) -> Seq<char> {
    sensor_text(sensor) + ":"@ + decimal(value as int)
}

pub fn sensor_wire(sensor: Sensor) -> (wire: &'static [u8])
    ensures
        wire@ == encode_utf8(sensor_text(sensor)),
{
    sensor_str(sensor).as_bytes()
}

pub fn ack_wire(sensor: Sensor, ack: &str) -> (wire: Vec<u8>)
    ensures
        wire@ == encode_utf8(ack_text(sensor, ack@)),
{
    let mut out = String::from_str(sensor_str(sensor));
    out.append(":");
    out.append(ack);
    out.as_str().as_bytes_vec()
}

pub fn offset_wire(sensor: Sensor, value: i32) -> (wire: Vec<u8>)
    ensures
        wire@ == encode_utf8(offset_text(sensor, value)),
{
    let mut out = String::from_str(sensor_str(sensor));
    out.append(":");
    let digits = format_i32(value);
    out.append(digits.as_str());
    out.as_str().as_bytes_vec()
}

} // verus!
