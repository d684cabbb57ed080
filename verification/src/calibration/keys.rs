use vstd::prelude::*;

verus! {

/// The autopilot's RPC that starts a preflight calibration.
pub const AUTOPILOT_RPC_PREFLIGHT: &'static str = "autopilot/rpc/preflight_calibration";

/// The autopilot's state key for command acknowledgements ("<sensor>:<ack>").
pub const AUTOPILOT_STATE_ACK: &'static str = "autopilot/state/command_ack";

/// The autopilot's state key for sensor offsets ("<sensor>:<i32>").
pub const AUTOPILOT_STATE_OFFSETS: &'static str = "autopilot/state/sensor_offsets";

/// The key under which the calibration snapshot is published.
pub const CALIBRATION_STATE_SNAPSHOT: &'static str = "calibration/state/snapshot";

/// The key under which calibration events are streamed.
pub const CALIBRATION_STREAM_EVENTS: &'static str = "calibration/stream/events";

} // verus!
