use vstd::prelude::*;

verus! {

/// Format of the captured audio stream.
#[derive(Clone, Copy, Debug, PartialEq, Eq, Structural)]
pub struct PwAudioInfo {
    channels: u32,
    rate: u32,
}

impl PwAudioInfo {
    /// Number of interleaved channels.
    pub closed spec fn channels_spec(&self) -> u32 {
        self.channels
    }

    /// Sample rate in Hz.
    pub closed spec fn rate_spec(&self) -> u32 {
        self.rate
    }

    /// A format of `channels` channels at `rate` Hz.
    pub fn new(channels: u32, rate: u32) -> (r: Self)
        ensures
            r.channels_spec() == channels,
            r.rate_spec() == rate,
    {
        PwAudioInfo { channels, rate }
    }

    /// Number of interleaved channels.
    pub fn channels(&self) -> (r: u32)
        ensures
            r == self.channels_spec(),
    {
        self.channels
    }

    /// Sample rate in Hz.
    pub fn rate(&self) -> (r: u32)
        ensures
            r == self.rate_spec(),
    {
        self.rate
    }
}

} // verus!
