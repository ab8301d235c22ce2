//! Shared tracking types: the server-side view of a beacon packet, and
//! the particle's discrete mode.
//!
//! On the server the mac travels as its 12-hex-digit string, ready to be
//! looked up in an instance's beacon mapping.

use vstd::prelude::*;

verus! {

/// A beacon packet as the server receives it: the mac already formatted
/// as a hex string.
#[derive(Debug, Clone)]
pub struct BeaconPacket {
    pub time: u64,
    pub mac: String,
    pub rssi: i8,
    pub sequence: u8,
    pub session: u8,
}


/// The discrete motion mode of a particle or of an estimate.
#[derive(Debug, Clone, Copy, PartialEq, Eq, Structural)]
pub enum ParticleMode {
    Stationary,
    Moving,
}

/// How many of the modes are `Stationary`.
pub open spec fn count_stationary(s: Seq<ParticleMode>) -> nat
    decreases s.len(),
{
    if s.len() == 0 {
        0
    } else {
        count_stationary(s.drop_last()) + (if s.last() is Stationary {
            1nat
        } else {
            0nat
        })
    }
}

/// The mode an estimate reports: `Stationary` iff a strict majority of
/// the population is stationary.
pub fn majority_mode(modes: &Vec<ParticleMode>) -> (m: ParticleMode)
    ensures
        m == (if count_stationary(modes@) > modes@.len() / 2 {
            ParticleMode::Stationary
        } else {
            ParticleMode::Moving
        }),
{
    let mut stationary: usize = 0;
    let mut i: usize = 0;
    proof {
        assert(modes@.subrange(0, 0) =~= Seq::<ParticleMode>::empty());
    }
    while i < modes.len()
        invariant
            i <= modes@.len(),
            stationary == count_stationary(modes@.subrange(0, i as int)),
            stationary <= i,
        decreases modes@.len() - i,
    {
        proof {
            assert(modes@.subrange(0, i + 1).drop_last() =~= modes@.subrange(0, i as int));
            assert(modes@.subrange(0, i + 1).last() == modes@[i as int]);
        }
        if matches!(modes[i], ParticleMode::Stationary) {
            stationary = stationary + 1;
        }
        i += 1;
    }
    proof {
        assert(modes@.subrange(0, modes@.len() as int) =~= modes@);
    }
    if stationary > modes.len() / 2 {
        ParticleMode::Stationary
    } else {
        ParticleMode::Moving
    }
}

} // verus!
