//! DST (Direct Stream Transfer) stream geometry: which channel counts and
//! sample rates a DST decoder accepts, and how many DSD bytes one frame
//! expands to. The accepted configurations model the DST decoder from its
//! constants; the decoder's own rejection rules are not available here.
use vstd::prelude::*;

verus! {

pub const DSD64_SAMPLE_RATE: u32 = 2_822_400u32;
pub const DSD128_SAMPLE_RATE: u32 = 5_644_800u32;
pub const DSD256_SAMPLE_RATE: u32 = 11_289_600u32;

/// Most channels a DST stream carries.
pub const MAX_CHANNELS: usize = 6usize;

/// DST frames per second of audio: each frame holds 1/75 s.
pub const FRAMES_PER_SECOND: usize = 75usize;

/// Why a DST decoder cannot be set up.
#[derive(Debug, Clone, PartialEq, Eq, Structural)]
pub enum DstDecodeError {
    /// Channel count outside `1..=MAX_CHANNELS`.
    InvalidChannelCount(usize),
    /// Sample rate that is not DSD64, DSD128 or DSD256.
    UnsupportedSampleRate(usize),
}

/// Whether a DST decoder accepts `sample_rate`.
pub open spec fn is_dst_sample_rate(sample_rate: int) -> bool {
    sample_rate == DSD64_SAMPLE_RATE || sample_rate == DSD128_SAMPLE_RATE || sample_rate
        == DSD256_SAMPLE_RATE
}

/// A DST stream may have one to six channels at DSD64, DSD128 or DSD256,
/// and a decoded frame then holds 4704, 9408 or 18816 bytes per channel.
pub proof fn lemma_dst_configurations(channel_count: int, sample_rate: int)
    ensures
        is_dst_sample_rate(sample_rate) <==> (sample_rate == 2_822_400 || sample_rate == 5_644_800
            || sample_rate == 11_289_600),
        MAX_CHANNELS == 6,
        sample_rate == 2_822_400 ==> spec_frame_bytes(channel_count, sample_rate) == channel_count
            * 4704,
        sample_rate == 5_644_800 ==> spec_frame_bytes(channel_count, sample_rate) == channel_count
            * 9408,
        sample_rate == 11_289_600 ==> spec_frame_bytes(channel_count, sample_rate) == channel_count
            * 18816,
{
}

/// DSD bytes in one decoded frame: per channel, the bits of 1/75 s packed
/// eight to a byte.
pub open spec fn spec_frame_bytes(channel_count: int, sample_rate: int) -> int {
    channel_count * (sample_rate / 8 / FRAMES_PER_SECOND as int)
}

/// The stream configuration of a DST-to-DSD decoder: channel count and DSD
/// rate, and from them the size of a decoded frame. It holds no decoding
/// state and decodes nothing itself.
pub struct DstDsdDecoder {
    channel_count: usize,
    sample_rate: usize,
}

impl DstDsdDecoder {
    /// The decoder's stream configuration is one a DST stream can have.
    pub closed spec fn wf(&self) -> bool {
        &&& 1 <= self.channel_count <= MAX_CHANNELS
        &&& is_dst_sample_rate(self.sample_rate as int)
    }

    pub closed spec fn spec_channel_count(&self) -> usize {
        self.channel_count
    }

    pub closed spec fn spec_sample_rate(&self) -> usize {
        self.sample_rate
    }

    /// What a well-formed decoder's configuration is.
    pub proof fn lemma_config(&self)
        requires
            self.wf(),
        ensures
            1 <= self.spec_channel_count() <= MAX_CHANNELS,
            is_dst_sample_rate(self.spec_sample_rate() as int),
    {
    }

    /// A decoder for `channel_count` channels at `sample_rate`; an error
    /// unless there are one to six channels at DSD64, DSD128 or DSD256.
    pub fn new(channel_count: usize, sample_rate: usize) -> (r: Result<Self, DstDecodeError>)
        ensures
            !(1 <= channel_count <= MAX_CHANNELS) ==> r == Err::<Self, DstDecodeError>(
                DstDecodeError::InvalidChannelCount(channel_count),
            ),
            1 <= channel_count <= MAX_CHANNELS && !is_dst_sample_rate(sample_rate as int) ==> r
                == Err::<Self, DstDecodeError>(DstDecodeError::UnsupportedSampleRate(sample_rate)),
            1 <= channel_count <= MAX_CHANNELS && is_dst_sample_rate(sample_rate as int) ==> (r
                matches Ok(d) && d.wf() && d.spec_channel_count() == channel_count
                && d.spec_sample_rate() == sample_rate),
            r is Ok <==> (1 <= channel_count <= 6 && (sample_rate == 2_822_400 || sample_rate
                == 5_644_800 || sample_rate == 11_289_600)),
    {
        if channel_count == 0 || channel_count > MAX_CHANNELS {
            return Err(DstDecodeError::InvalidChannelCount(channel_count));
        }
        if sample_rate != DSD64_SAMPLE_RATE as usize && sample_rate != DSD128_SAMPLE_RATE as usize
            && sample_rate != DSD256_SAMPLE_RATE as usize {
            return Err(DstDecodeError::UnsupportedSampleRate(sample_rate));
        }
        Ok(DstDsdDecoder { channel_count, sample_rate })
    }

    pub fn channel_count(&self) -> (r: usize)
        ensures
            r == self.spec_channel_count(),
    {
        self.channel_count
    }

    pub fn sample_rate(&self) -> (r: usize)
        ensures
            r == self.spec_sample_rate(),
    {
        self.sample_rate
    }

    /// Size of one decoded, interleaved DSD frame in bytes.
    pub fn dsd_frame_bytes(&self) -> (r: usize)
        requires
            self.wf(),
        ensures
            r == spec_frame_bytes(self.spec_channel_count() as int, self.spec_sample_rate() as int),
            r as int % self.spec_channel_count() as int == 0,
    {
        let per_channel = self.sample_rate / 8 / FRAMES_PER_SECOND;
        assert(per_channel <= 18816);
        assert(self.channel_count * per_channel <= 6 * 18816) by (nonlinear_arith)
            requires
                self.channel_count <= 6,
                per_channel <= 18816,
        ;
        let r = self.channel_count * per_channel;
        assert(r as int % self.channel_count as int == 0) by (nonlinear_arith)
            requires
                r == self.channel_count * per_channel,
                self.channel_count > 0,
        ;
        r
    }
}

} // verus!
