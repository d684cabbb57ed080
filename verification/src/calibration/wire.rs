use vstd::prelude::*;

use crate::calibration::model::Command;
use crate::autopilot::keys::{ack_text, offset_text};
use crate::sensor::{Sensor, lemma_sensor_text, sensor_of_text, sensor_text};
use vstd::utf8::{encode_utf8, encode_utf8_decode_utf8, encode_utf8_valid_utf8};
use crate::text::{decimal, is_first_of, is_white_space, lemma_decimal_parses, lemma_trim_end_concat, trim_end, trim_start, chars_of, parse_i32_chars, parse_i32_text, range_eq, split_once, split_once_range, str_from_utf8, trim, trim_bounds, utf8_text};

verus! {

/// The sensor and the text after the first ':' of a trimmed UTF-8 sample "<sensor>:<rest>".
pub open spec fn sample_fields(payload: Seq<u8>) -> Option<(Sensor, Seq<char>)> {
    match utf8_text(payload) {
        None => None,
        Some(text) => match split_once(trim(text), ':') {
            None => None,
            Some((name, rest)) => match sensor_of_text(name) {
                Some(sensor) => Some((sensor, rest)),
                None => None,
            },
        },
    }
}

/// The sensor a name spells: "gyro" or "baro".
pub fn parse_sensor(text: &str) -> (sensor: Option<Sensor>)
    ensures
        sensor == sensor_of_text(text@),
{
    let chars = chars_of(text);
    assert(chars@.subrange(0, chars@.len() as int) =~= text@);
    sensor_in(&chars, 0, chars.len())
}

fn sensor_in(chars: &[char], lo: usize, hi: usize) -> (sensor: Option<Sensor>)
    requires
        lo <= hi <= chars@.len(),
    ensures
        sensor == sensor_of_text(chars@.subrange(lo as int, hi as int)),
{
    let gyro = chars_of("gyro");
    let baro = chars_of("baro");
    if range_eq(chars, lo, hi, &gyro) {
        Some(Sensor::Gyro)
    } else if range_eq(chars, lo, hi, &baro) {
        Some(Sensor::Baro)
    } else {
        None
    }
}

/// Splits a sample into its sensor and the character range of the rest of its trimmed text.
fn sample_parts(text: &str, chars: &[char]) -> (parts: Option<(Sensor, usize, usize)>)
    requires
        chars@ == text@,
    ensures
        match split_once(trim(text@), ':') {
            None => parts is None,
            Some((name, rest)) => match sensor_of_text(name) {
                Some(sensor) => parts matches Some((s, lo, hi)) && s == sensor && lo <= hi <= chars@.len()
                    && chars@.subrange(lo as int, hi as int) == rest,
                None => parts is None,
            },
        },
{
    let (lo, hi) = trim_bounds(chars);
    proof {
        assert(chars@.subrange(lo as int, hi as int) == trim(text@));
    }
    match split_once_range(chars, lo, hi, ':') {
        None => None,
        Some((end, start)) => {
            proof {
                assert(chars@.subrange(lo as int, end as int) =~= chars@.subrange(lo as int, hi as int).subrange(0, end - lo));
            }
            match sensor_in(chars, lo, end) {
                Some(sensor) => Some((sensor, start, hi)),
                None => None,
            }
        },
    }
}

/// The acknowledgement command a published "<sensor>:<ack>" sample carries.
pub fn parse_ack(payload: &[u8]) -> (command: Option<Command>)
    ensures
        match sample_fields(payload@) {
            Some((sensor, ack)) => command matches Some(Command::AckObserved { sensor: s, ack: a }) && s
                == sensor && a@ == ack,
            None => command is None,
        },
{
    let text = str_from_utf8(payload)?;
    let chars = chars_of(text);
    let (sensor, lo, hi) = sample_parts(text, &chars)?;
    let ack = String::from_str(text.substring_char(lo, hi));
    Some(Command::AckObserved { sensor, ack })
}

/// The offsets command a published "<sensor>:<i32>" sample carries.
pub fn parse_offsets(payload: &[u8]) -> (command: Option<Command>)
    ensures
        match sample_fields(payload@) {
            Some((sensor, rest)) => match parse_i32_text(rest) {
                Some(value) => command == Some(Command::OffsetsRead { sensor, value }),
                None => command is None,
            },
            None => command is None,
        },
{
    let text = str_from_utf8(payload)?;
    let chars = chars_of(text);
    let (sensor, lo, hi) = sample_parts(text, &chars)?;
    let value = parse_i32_chars(&chars, lo, hi)?;
    Some(Command::OffsetsRead { sensor, value })
}

/// A sample whose text is a sensor's name, ':' and `rest` splits into that sensor and `rest`
/// without its trailing white space.
proof fn lemma_sample_text(sensor: Sensor, rest: Seq<char>)
    ensures
        sample_fields(encode_utf8(sensor_text(sensor) + ":"@ + rest)) == Some((sensor, trim_end(rest))),
{
    broadcast use encode_utf8_decode_utf8, encode_utf8_valid_utf8;

    reveal_strlit(":");
    lemma_sensor_text(sensor);
    let name = sensor_text(sensor);
    let head = name + ":"@;
    let text = head + rest;
    assert(utf8_text(encode_utf8(text)) == Some(text));
    assert(text[0] == name[0]);
    assert(!is_white_space(text[0])) by {
        reveal_strlit("gyro");
        reveal_strlit("baro");
    }
    assert(trim_start(text) == text);
    assert(head.last() == ':');
    lemma_trim_end_concat(head, rest);
    let trimmed = head + trim_end(rest);
    assert(trim(text) == trimmed);
    assert(is_first_of(trimmed, ':', 4)) by {
        assert forall|j: int| 0 <= j < 4 implies trimmed[j] != ':' by {
            assert(trimmed[j] == name[j]);
        }
    }
    let k = choose|k: int| is_first_of(trimmed, ':', k);
    assert(k == 4) by {
        if k < 4 {
            assert(trimmed[k] == name[k]);
        }
    }
    assert(trimmed.subrange(0, 4) =~= name);
    assert(trimmed.subrange(5, trimmed.len() as int) =~= trim_end(rest));
}

/// What the calibration service reads from an acknowledgement the autopilot publishes: the same
/// sensor, and the acknowledgement without its trailing white space.
pub proof fn law_ack_sample_roundtrip(sensor: Sensor, ack: Seq<char>)
    ensures
        sample_fields(encode_utf8(ack_text(sensor, ack))) == Some((sensor, trim_end(ack))),
{
    lemma_sample_text(sensor, ack);
}

/// What the calibration service reads from offsets the autopilot publishes: the same sensor and
/// the same value.
pub proof fn law_offset_sample_roundtrip(sensor: Sensor, value: i32)
    ensures
        sample_fields(encode_utf8(offset_text(sensor, value))) == Some((sensor, decimal(value as int))),
        parse_i32_text(decimal(value as int)) == Some(value),
{
    lemma_sample_text(sensor, decimal(value as int));
    lemma_decimal_parses(value);
    let d = decimal(value as int);
    assert(trim_end(d) == d);
}

} // verus!
