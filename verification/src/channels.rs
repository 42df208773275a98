//! The seeds of the noise channels of one run.
//!
//! Every channel is seeded from the low 32 bits of the seed of the run, each
//! a fixed step further on, so that the channels are independent of one
//! another and all follow from the one seed.

use vstd::prelude::*;

verus! {

/// How far the seed of the temperature channel lies from that of the run.
pub const TEMPERATURE_STEP: u32 = 10;

/// How far the seed of the vegetation channel lies from that of the run.
pub const VEGETATION_STEP: u32 = 20;

/// How far the seed of the beach bias channel lies from that of the run.
pub const BEACH_STEP: u32 = 30;

/// How far the seed of the cliff bias channel lies from that of the run.
pub const CLIFF_STEP: u32 = 40;

/// How far the seed of the lake bias channel lies from that of the run.
pub const LAKE_STEP: u32 = 50;

/// The seeds of the six noise channels.
#[derive(Clone, Copy, Debug, PartialEq, Eq, Structural)]
pub struct ChannelSeeds {
    pub altitude: u32,
    pub temperature: u32,
    pub vegetation: u32,
    pub beach_bias: u32,
    pub cliff_bias: u32,
    pub lake_bias: u32,
}

/// The seed of a channel: the low 32 bits of the seed of the run plus the
/// step of the channel, wrapping round at 32 bits.
pub open spec fn channel_seed(seed: u64, step: u32) -> int {
    (seed % 0x1_0000_0000 + step) % 0x1_0000_0000
}

/// The seed of the channel that lies `step` from the seed of the run.
fn stepped(seed: u64, step: u32) -> (s: u32)
    ensures
        s == channel_seed(seed, step),
{
    ((seed % 0x1_0000_0000 + step as u64) % 0x1_0000_0000) as u32
}

/// The seeds of the six noise channels of the run with the given seed. The
/// altitude channel has the low 32 bits of the seed itself.
pub fn channel_seeds(seed: u64) -> (s: ChannelSeeds)
    ensures
        s.altitude == seed % 0x1_0000_0000,
        s.temperature == channel_seed(seed, TEMPERATURE_STEP),
        s.vegetation == channel_seed(seed, VEGETATION_STEP),
        s.beach_bias == channel_seed(seed, BEACH_STEP),
        s.cliff_bias == channel_seed(seed, CLIFF_STEP),
        s.lake_bias == channel_seed(seed, LAKE_STEP),
{
    ChannelSeeds {
        altitude: stepped(seed, 0),
        temperature: stepped(seed, TEMPERATURE_STEP),
        vegetation: stepped(seed, VEGETATION_STEP),
        beach_bias: stepped(seed, BEACH_STEP),
        cliff_bias: stepped(seed, CLIFF_STEP),
        lake_bias: stepped(seed, LAKE_STEP),
    }
}

} // verus!
