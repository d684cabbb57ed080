use vstd::prelude::*;
use vstd::utf8::{encode_utf8, is_ascii_chars, is_ascii_chars_encode_utf8};

verus! {

/// The two sensors whose preflight calibration the services coordinate.
#[derive(Clone, Copy, Debug, PartialEq, Eq, Structural)]
pub enum Sensor {
    Gyro,
    Baro,
}

/// The wire name of a sensor.
pub open spec fn sensor_text(sensor: Sensor) -> Seq<char> {
    match sensor {
        Sensor::Gyro => "gyro"@,
        Sensor::Baro => "baro"@,
    }
}

/// The ASCII bytes of a sensor's wire name.
pub open spec fn sensor_bytes(sensor: Sensor) -> Seq<u8> {
    match sensor {
        Sensor::Gyro => seq![103u8, 121u8, 114u8, 111u8],
        Sensor::Baro => seq![98u8, 97u8, 114u8, 111u8],
    }
}

/// The sensor a text names, if it names one exactly.
pub open spec fn sensor_of_text(text: Seq<char>) -> Option<Sensor> {
    if text == sensor_text(Sensor::Gyro) {
        Some(Sensor::Gyro)
    } else if text == sensor_text(Sensor::Baro) {
        Some(Sensor::Baro)
    } else {
        None
    }
}

/// The wire name of a sensor.
pub fn sensor_str(sensor: Sensor) -> (name: &'static str)
    ensures
        name@ == sensor_text(sensor),
{
    match sensor {
        Sensor::Gyro => "gyro",
        Sensor::Baro => "baro",
    }
}

/// A sensor's wire name is four ASCII letters, and its bytes are their UTF-8 encoding.
pub proof fn lemma_sensor_text(sensor: Sensor)
    ensures
        sensor_text(sensor).len() == 4,
        encode_utf8(sensor_text(sensor)) == sensor_bytes(sensor),
        sensor_text(Sensor::Gyro) != sensor_text(Sensor::Baro),
        forall|i: int| 0 <= i < 4 ==> sensor_text(sensor)[i] != ':',
{
    reveal_strlit("gyro");
    reveal_strlit("baro");
    let text = sensor_text(sensor);
    assert(is_ascii_chars(text));
    is_ascii_chars_encode_utf8(text);
    assert(encode_utf8(text) =~= sensor_bytes(sensor));
    assert(sensor_text(Sensor::Gyro)[0] != sensor_text(Sensor::Baro)[0]);
}

} // verus!
