//! Checkpoint/restore security domain.
use vstd::prelude::*;

use crate::counter::{bump, bumped};

verus! {

/// Checkpoint bookkeeping: operations done and the persisted cap generation.
pub struct CheckpointState {
    pub checkpoint_ops: u64,
    pub persisted_generation: u64,
}

impl CheckpointState {
    pub fn new() -> (r: Self)
        ensures
            r.checkpoint_ops == 0,
            r.persisted_generation == 1,
    {
        CheckpointState { checkpoint_ops: 0, persisted_generation: 1 }
    }
}

pub fn checkpoint_ops(s: &CheckpointState) -> (r: u64)
    ensures
        r == s.checkpoint_ops,
{
    s.checkpoint_ops
}

pub fn persisted_generation(s: &CheckpointState) -> (r: u64)
    ensures
        r == s.persisted_generation,
{
    s.persisted_generation
}

/// Persist a cap generation across a power cycle; generation 0 is refused.
pub fn persist_cap_state(s: &mut CheckpointState, generation: u64) -> (r: bool)
    ensures
        r == (generation != 0),
        r ==> final(s).persisted_generation == generation && final(s).checkpoint_ops == bumped(
            old(s).checkpoint_ops,
        ),
        !r ==> *final(s) == *old(s),
{
    if generation == 0 {
        return false;
    }
    s.persisted_generation = generation;
    s.checkpoint_ops = bump(s.checkpoint_ops);
    true
}

pub fn epoch13_checkpoint_graduated(s: &mut CheckpointState) -> (r: bool)
    ensures
        final(s).persisted_generation == 2,
        final(s).checkpoint_ops == bumped(old(s).checkpoint_ops),
        r == (old(s).checkpoint_ops != u64::MAX),
{
    persist_cap_state(s, 2) && checkpoint_ops(s) > 0 && persisted_generation(s) >= 2
}

} // verus!
