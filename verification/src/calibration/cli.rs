use vstd::prelude::*;

use crate::calibration::model::Command;
use crate::text::str_eq;

verus! {

/// The subcommands of the calibration command line.
#[derive(Clone, Copy, Debug, PartialEq, Eq, Structural)]
pub enum CliCommand {
    Gyro,
    Baro,
    Stationary,
    Cancel,
    Snapshot,
}

/// The argument token a subcommand stands for.
pub open spec fn cli_token(command: CliCommand) -> Seq<char> {
    match command {
        CliCommand::Gyro => "gyro"@,
        CliCommand::Baro => "baro"@,
        CliCommand::Stationary => "stationary"@,
        CliCommand::Cancel => "cancel"@,
        CliCommand::Snapshot => "snapshot"@,
    }
}

/// The argument tokens of a parsed command line.
pub fn tokens(command: Option<CliCommand>) -> (args: Vec<String>)
    ensures
        match command {
            Some(c) => args@.len() == 1 && args@[0]@ == cli_token(c),
            None => args@.len() == 0,
        },
{
    match command {
        Some(CliCommand::Gyro) => vec![String::from_str("gyro")],
        Some(CliCommand::Baro) => vec![String::from_str("baro")],
        Some(CliCommand::Stationary) => vec![String::from_str("stationary")],
        Some(CliCommand::Cancel) => vec![String::from_str("cancel")],
        Some(CliCommand::Snapshot) => vec![String::from_str("snapshot")],
        None => Vec::new(),
    }
}

/// The command that the first argument asks for, if it asks for one.
pub open spec fn cli_command(first: Seq<char>) -> Option<Command> {
    if first == "gyro"@ {
        Some(Command::StartGyro)
    } else if first == "baro"@ {
        Some(Command::StartBaro)
    } else if first == "stationary"@ {
        Some(Command::StartStationary)
    } else if first == "cancel"@ {
        Some(Command::Cancel)
    } else {
        None
    }
}

pub fn from_cli(args: &[String]) -> (command: Option<Command>)
    ensures
        args@.len() == 0 ==> command is None,
        args@.len() > 0 ==> command == cli_command(args@[0]@),
{
    if args.len() == 0 {
        return None;
    }
    let first = args[0].as_str();
    if str_eq(first, "gyro") {
        Some(Command::StartGyro)
    } else if str_eq(first, "baro") {
        Some(Command::StartBaro)
    } else if str_eq(first, "stationary") {
        Some(Command::StartStationary)
    } else if str_eq(first, "cancel") {
        Some(Command::Cancel)
    } else {
        None
    }
}

/// Whether the first argument asks for the snapshot to be printed.
pub fn wants_snapshot(args: &[String]) -> (snapshot: bool)
    ensures
        snapshot == (args@.len() > 0 && args@[0]@ == "snapshot"@),
{
    args.len() > 0 && str_eq(args[0].as_str(), "snapshot")
}

} // verus!
