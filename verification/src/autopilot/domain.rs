use vstd::prelude::*;

use crate::autopilot::model::{Command, Event, IoRequest, PreflightView, Query, Snapshot, SnapshotView, events_view};
use crate::autopilot::preflight::{advance_ack, advance_ack_post, preflight, preflight_post};
use crate::effect::{Effect, effects_view};
use crate::jobs::{JobId, JobOp, JobSpec};

verus! {

/// The autopilot's domain: how it handles commands and queries.
pub struct Autopilot;

/// The outcome of a handled command: the events, the effects, and the changes to the job table.
pub struct Handled {
    pub events: Vec<Event>,
    pub effects: Vec<Effect<IoRequest>>,
    pub job_ops: Vec<JobOp>,
}

impl Autopilot {
    pub fn handle_command(snapshot: &mut Snapshot, command: Command) -> (out: Handled)
        ensures
            ({
                let before = old(snapshot)@;
                let after = final(snapshot)@;
                let events = events_view(out.events@);
                let effects = effects_view(out.effects@);
                let ops = out.job_ops@;
                match command {
                    Command::SetMoving(moving) => {
                        &&& after == (SnapshotView { moving, ..before })
                        &&& events.len() == 0
                        &&& effects.len() == 0
                        &&& ops.len() == 0
                    },
                    Command::Preflight { correlation, sensor } => preflight_post(
                        before,
                        after,
                        correlation,
                        sensor,
                        events,
                        effects,
                        ops,
                    ),
                    Command::AdvanceAck { job_id, sensor } => advance_ack_post(
                        before,
                        after,
                        job_id,
                        sensor,
                        events,
                        effects,
                        ops,
                    ),
                }
            }),
    {
        match command {
            Command::SetMoving(moving) => {
                snapshot.moving = moving;
                Handled { events: Vec::new(), effects: Vec::new(), job_ops: Vec::new() }
            },
            Command::Preflight { correlation, sensor } => {
                let (events, effects, job_ops) = preflight(snapshot, correlation, sensor);
                Handled { events, effects, job_ops }
            },
            Command::AdvanceAck { job_id, sensor } => {
                let (events, effects, job_ops) = advance_ack(snapshot, job_id, sensor);
                Handled { events, effects, job_ops }
            },
        }
    }

    /// Answers a query with a copy of the snapshot, changing nothing.
    pub fn handle_query(snapshot: &Snapshot, query: Query) -> (view: PreflightView)
        ensures
            view.snapshot@ == snapshot@,
    {
        PreflightView { snapshot: snapshot.duplicate() }
    }

    /// A tick job's I/O: the host maps the job back to the acknowledgement it advances.
    pub fn io_from_job(job_id: JobId, job_spec: &JobSpec) -> (io: IoRequest)
        ensures
            io == (IoRequest::Tick { job_id }),
    {
        IoRequest::Tick { job_id }
    }
}

} // verus!
