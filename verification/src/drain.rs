//! The decisions of one drain task: what to do with each raw record read
//! from its shard, and when to stop for good.
//!
//! A task starts running. It stops when a record cannot be decoded or when
//! the consumer of its charges is gone, and once stopped it stays stopped.

use vstd::prelude::*;
use crate::schema::{wire_duration, wire_query, QueryEvent, RECORD_LEN};
use crate::tenant::{buffer_text, charged, process_event, tenant_of, ProcessedQueryEvent};

verus! {

/// Whether a drain task still works.
#[derive(Clone, Copy, Debug, PartialEq, Eq, Structural)]
pub enum DrainState {
    Running,
    Stopped,
}

/// What the task does next.
#[derive(Clone, Debug, PartialEq, Eq)]
pub enum DrainAction {
    /// Send this charge to the consumer.
    Forward(ProcessedQueryEvent),
    /// The record names no tenant: go on with the next one.
    Skip,
    /// Stop reading the shard.
    Halt,
}

/// The mathematical form of an action.
pub enum ActionModel {
    Forward(Seq<char>, u64),
    Skip,
    Halt,
}

impl View for DrainAction {
    type V = ActionModel;

    open spec fn view(&self) -> ActionModel {
        match self {
            DrainAction::Forward(e) => ActionModel::Forward(e.tenant_id@, e.duration_micro),
            DrainAction::Skip => ActionModel::Skip,
            DrainAction::Halt => ActionModel::Halt,
        }
    }
}

/// The charge that the raw record `raw` stands for, if it names a tenant.
pub open spec fn raw_charge(raw: Seq<u8>) -> Option<(Seq<char>, u64)>
    recommends
        raw.len() >= RECORD_LEN,
{
    charged(tenant_of(buffer_text(wire_query(raw))), wire_duration(raw))
}

/// The state after `raw` was read in state `state`.
pub open spec fn state_after_record(state: DrainState, raw: Seq<u8>) -> DrainState {
    if state == DrainState::Running && raw.len() >= RECORD_LEN {
        DrainState::Running
    } else {
        DrainState::Stopped
    }
}

/// The action for `raw`, read in state `state`.
pub open spec fn action_for_record(state: DrainState, raw: Seq<u8>) -> ActionModel {
    if state == DrainState::Running && raw.len() >= RECORD_LEN {
        match raw_charge(raw) {
            Some(c) => ActionModel::Forward(c.0, c.1),
            None => ActionModel::Skip,
        }
    } else {
        ActionModel::Halt
    }
}

/// The state after a send that was `delivered` or not.
pub open spec fn state_after_send(state: DrainState, delivered: bool) -> DrainState {
    if state == DrainState::Running && delivered {
        DrainState::Running
    } else {
        DrainState::Stopped
    }
}

/// The action that a decoded record and the charge made of it call for.
pub fn route(charge: Option<ProcessedQueryEvent>) -> (action: DrainAction)
    ensures
        action == match charge {
            Some(e) => DrainAction::Forward(e),
            None => DrainAction::Skip,
        },
{
    match charge {
        Some(e) => DrainAction::Forward(e),
        None => DrainAction::Skip,
    }
}

/// Decides on one raw record read from the shard. A running task decodes
/// it and forwards its charge, or skips it where it names no tenant; a
/// record too short to decode stops the task. A stopped task halts.
pub fn on_record(state: DrainState, raw: &[u8]) -> (next: (DrainState, DrainAction))
    ensures
        next.0 == state_after_record(state, raw@),
        next.1@ == action_for_record(state, raw@),
{
    match state {
        DrainState::Stopped => (DrainState::Stopped, DrainAction::Halt),
        DrainState::Running => match QueryEvent::decode(raw) {
            Some(event) => (DrainState::Running, route(process_event(event))),
            None => (DrainState::Stopped, DrainAction::Halt),
        },
    }
}

/// Takes note of how a send ended: a charge that could not be delivered
/// means the consumer is gone, and the task stops.
pub fn on_send_result(state: DrainState, delivered: bool) -> (next: DrainState)
    ensures
        next == state_after_send(state, delivered),
{
    match state {
        DrainState::Running => if delivered {
            DrainState::Running
        } else {
            DrainState::Stopped
        },
        DrainState::Stopped => DrainState::Stopped,
    }
}

/// A stopped task never runs again, whatever it is given.
pub proof fn lemma_stopped_is_final(raw: Seq<u8>, delivered: bool)
    ensures
        state_after_record(DrainState::Stopped, raw) == DrainState::Stopped,
        action_for_record(DrainState::Stopped, raw) == ActionModel::Halt,
        state_after_send(DrainState::Stopped, delivered) == DrainState::Stopped,
{
}

/// A running task goes on exactly as long as records decode and sends are
/// delivered.
pub proof fn lemma_running_continues(raw: Seq<u8>, delivered: bool)
    ensures
        state_after_record(DrainState::Running, raw) == DrainState::Running <==> raw.len()
            >= RECORD_LEN,
        state_after_send(DrainState::Running, delivered) == DrainState::Running <==> delivered,
{
}

} // verus!
