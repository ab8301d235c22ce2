//! The per-instance scheduler core.
//!
//! Each tracking instance runs a dedicated worker that multiplexes a
//! command channel with a periodic filter tick. The worker's decisions
//! live here: what each command does to the measurement buffer and what
//! reply it calls for, and the rule that a tick consumes the whole buffer
//! exactly once. The channels, the clock and the filter itself are the
//! worker's side.

use vstd::prelude::*;

verus! {

/// What a state listener asks for: how many particles each update
/// snapshot should carry.
#[derive(Debug, Clone, Copy, PartialEq, Eq, Structural)]
pub struct StateListenerConfig {
    pub num_particles: usize,
}

/// A command sent to an instance worker, generic in the measurement type
/// it buffers.
pub enum InstanceCommand<M> {
    GetSnapshot(usize),
    GetTarget,
    NewMeasurement(Vec<M>),
    AddListener(StateListenerConfig),
}

/// What the worker owes after handling a command: a snapshot reply of the
/// requested size, an estimate reply, nothing (the measurements were
/// buffered), or a freshly registered listener.
#[derive(Debug, Clone, Copy, PartialEq, Eq, Structural)]
pub enum InstanceAction {
    ReplySnapshot(usize),
    ReplyTarget,
    Buffered,
    ListenerAdded(StateListenerConfig),
}

/// The worker state that the commands act on: the tick rate and the
/// measurements waiting for the next filter step.
pub struct InstanceCore<M> {
    pub update_rate: u64,
    pub measurement_buffer: Vec<M>,
}

impl<M> InstanceCore<M> {
    /// A fresh core with an empty buffer.
    pub fn new(update_rate: u64) -> (c: InstanceCore<M>)
        ensures
            c.update_rate == update_rate,
            c.measurement_buffer@ =~= Seq::<M>::empty(),
    {
        InstanceCore { update_rate, measurement_buffer: Vec::new() }
    }

    /// Handle one command: new measurements are appended to the buffer in
    /// order; every other command leaves the buffer alone and calls for
    /// its reply.
    pub fn handle_cmd(&mut self, cmd: InstanceCommand<M>) -> (a: InstanceAction)
        ensures
            final(self).update_rate == old(self).update_rate,
            ({
                let before = old(self).measurement_buffer@;
                let after = final(self).measurement_buffer@;
                match cmd {
                    InstanceCommand::GetSnapshot(k) => a == InstanceAction::ReplySnapshot(k)
                        && after == before,
                    InstanceCommand::GetTarget => a == InstanceAction::ReplyTarget && after
                        == before,
                    InstanceCommand::NewMeasurement(v) => a == InstanceAction::Buffered && after
                        == before + v@,
                    InstanceCommand::AddListener(c) => a == InstanceAction::ListenerAdded(c)
                        && after == before,
                }
            }),
    {
        match cmd {
            InstanceCommand::GetSnapshot(k) => InstanceAction::ReplySnapshot(k),
            InstanceCommand::GetTarget => InstanceAction::ReplyTarget,
            InstanceCommand::NewMeasurement(mut v) => {
                self.measurement_buffer.append(&mut v);
                InstanceAction::Buffered
            },
            InstanceCommand::AddListener(c) => InstanceAction::ListenerAdded(c),
        }
    }

    /// On a filter tick: take every buffered measurement, leaving the
    /// buffer empty, so each measurement feeds exactly one filter step.
    pub fn take_buffer(&mut self) -> (b: Vec<M>)
        ensures
            final(self).update_rate == old(self).update_rate,
            final(self).measurement_buffer@ =~= Seq::<M>::empty(),
            b@ == old(self).measurement_buffer@,
    {
        let mut b: Vec<M> = Vec::new();
        std::mem::swap(&mut b, &mut self.measurement_buffer);
        b
    }
}

/// The index of the first entry of `entries` whose key reads `key`.
pub open spec fn assoc_index<X>(entries: Seq<(String, X)>, key: Seq<char>) -> Option<int>
    decreases entries.len(),
{
    if entries.len() == 0 {
        None
    } else if entries[0].0@ == key {
        Some(0)
    } else {
        match assoc_index(entries.drop_first(), key) {
            Some(i) => Some(i + 1),
            None => None,
        }
    }
}

/// Find the first entry with the given key.
pub fn assoc_get_index<X>(entries: &Vec<(String, X)>, key: &String) -> (r: Option<usize>)
    ensures
        (match r {
            Some(i) => assoc_index(entries@, key@) == Some(i as int) && i < entries@.len(),
            None => assoc_index(entries@, key@) is None,
        }),
{
    let mut i: usize = 0;
    proof {
        assert(entries@.subrange(0, entries@.len() as int) =~= entries@);
    }
    while i < entries.len()
        invariant
            i <= entries@.len(),
            assoc_index(entries@, key@) == (match assoc_index(
                entries@.subrange(i as int, entries@.len() as int),
                key@,
            ) {
                Some(j) => Some(j + i),
                None => None::<int>,
            }),
        decreases entries@.len() - i,
    {
        let ghost rest = entries@.subrange(i as int, entries@.len() as int);
        if entries[i].0 == *key {
            proof {
                assert(rest[0] == entries@[i as int]);
            }
            return Some(i);
        }
        proof {
            assert(rest[0] == entries@[i as int]);
            assert(rest.drop_first() =~= entries@.subrange(i + 1, entries@.len() as int));
        }
        i += 1;
    }
    proof {
        assert(entries@.subrange(entries@.len() as int, entries@.len() as int).len() == 0);
    }
    None
}

/// Resolve a beacon mac to a signal source: look the mac up in the
/// instance's beacon mapping, fall back to the raw mac when it is not
/// mapped, and return the index of the signal source registered under
/// that id — or nothing, for a beacon the instance does not know.
pub fn resolve_beacon<X>(
    beacon_mapping: &Vec<(String, String)>,
    signal_sources: &Vec<(String, X)>,
    mac: &String,
) -> (r: Option<usize>)
    ensures
        ({
            let id = match assoc_index(beacon_mapping@, mac@) {
                Some(i) => beacon_mapping@[i].1@,
                None => mac@,
            };
            match r {
                Some(j) => assoc_index(signal_sources@, id) == Some(j as int) && j
                    < signal_sources@.len(),
                None => assoc_index(signal_sources@, id) is None,
            }
        }),
{
    match assoc_get_index(beacon_mapping, mac) {
        Some(i) => assoc_get_index(signal_sources, &beacon_mapping[i].1),
        None => assoc_get_index(signal_sources, mac),
    }
}

} // verus!
