//! Decisions the DSD and DST audio decoders make when they are set up and
//! when a packet arrives: which parameters are required, which PCM rate to
//! produce, how large a packet may be, and whether a decoded DST frame is
//! usable.
use vstd::prelude::*;
use crate::buffer::{DsdPcmOptions, DsdBitOrder, FilterType, DsdPcmError, ConverterPlan, spec_plan_error};
use crate::dst::{DstDsdDecoder, spec_frame_bytes};

verus! {

/// PCM rate produced from DSD64 input.
pub const DEFAULT_DSD64_PCM_RATE: u32 = 176_400u32;

/// PCM rate produced from DST input at DSD64.
pub const DEFAULT_DST_PCM_RATE: u32 = 176_400u32;

/// Frames per packet assumed when the stream does not say: one SACD frame
/// (1/75 s of DSD64) per channel, in bytes.
pub const DEFAULT_FRAMES_PER_PACKET: u64 = 4704u64;

/// Sample rate assumed when the stream does not say: DSD64.
pub const DEFAULT_DSD_SAMPLE_RATE: u32 = 2_822_400u32;

/// A failed DSD-to-PCM decode, carrying the converter error that caused it.
#[derive(Debug, Clone, PartialEq, Eq, Structural)]
pub struct DsdDecodeError {
    pub source: DsdPcmError,
}

/// Why a decoder cannot be built from the stream's codec parameters.
#[derive(Debug, Clone, Copy, PartialEq, Eq, Structural)]
pub enum DecoderSetupError {
    /// The parameters name another codec.
    CodecMismatch,
    /// The parameters carry no channel layout.
    MissingChannelCount,
    /// The channel layout has no channels.
    ZeroChannelCount,
}

/// PCM output rate for a DSD input rate: 176.4 kHz for DSD64 to DSD256,
/// 352.8 kHz for DSD512, 176.4 kHz for anything else.
pub open spec fn spec_default_output_sample_rate(input_sample_rate: u32) -> u32 {
    if input_sample_rate == 22_579_200 {
        352_800
    } else {
        176_400
    }
}

/// PCM output rate the DSD decoder chooses for a DSD input rate.
pub fn default_output_sample_rate(input_sample_rate: u32) -> (r: u32)
    ensures
        r == spec_default_output_sample_rate(input_sample_rate),
        input_sample_rate == 22_579_200 ==> r == 352_800,
        input_sample_rate != 22_579_200 ==> r == 176_400,
{
    match input_sample_rate {
        2_822_400 => DEFAULT_DSD64_PCM_RATE,
        5_644_800 => 176_400,
        11_289_600 => 176_400,
        22_579_200 => 352_800,
        _ => DEFAULT_DSD64_PCM_RATE,
    }
}

/// PCM output rate the DST decoder chooses for a DSD input rate.
pub fn dst_default_output_sample_rate(input_sample_rate: u32) -> (r: u32)
    ensures
        r == spec_default_output_sample_rate(input_sample_rate),
        input_sample_rate == 22_579_200 ==> r == 352_800,
        input_sample_rate != 22_579_200 ==> r == 176_400,
{
    match input_sample_rate {
        2_822_400 => DEFAULT_DST_PCM_RATE,
        5_644_800 => 176_400,
        11_289_600 => 176_400,
        22_579_200 => 352_800,
        _ => DEFAULT_DST_PCM_RATE,
    }
}

/// The converter options for a stream of `channel_count` channels at
/// `input_sample_rate`: SACD defaults with the rate and channel count
/// replaced and the default output rate for that input.
pub open spec fn spec_stream_options(input_sample_rate: u32, channel_count: usize) -> DsdPcmOptions {
    DsdPcmOptions {
        input_sample_rate,
        output_sample_rate: spec_default_output_sample_rate(input_sample_rate),
        channels: channel_count,
        filter_type: FilterType::Equiripple,
        bit_order: DsdBitOrder::MsbFirst,
    }
}

/// The converter options of every decoder stream are the SACD defaults,
/// MSB-first bytes through the equiripple filter, whatever the stream's rate
/// and channel count; only the input rate, the output rate chosen for it and
/// the channel count come from the stream.
pub proof fn lemma_stream_options_use_sacd_defaults(input_sample_rate: u32, channel_count: usize)
    ensures
        spec_stream_options(input_sample_rate, channel_count).bit_order == DsdBitOrder::MsbFirst,
        spec_stream_options(input_sample_rate, channel_count).filter_type == FilterType::Equiripple,
        spec_stream_options(input_sample_rate, channel_count).channels == channel_count,
        spec_stream_options(input_sample_rate, channel_count).input_sample_rate
            == input_sample_rate,
        spec_stream_options(input_sample_rate, channel_count).output_sample_rate == (if input_sample_rate
            == 22_579_200 {
            352_800u32
        } else {
            176_400u32
        }),
{
}

/// The converter options the DSD decoder uses: the checks on the codec
/// parameters, then DSD64 when the rate is missing.
pub fn dsd_decoder_options(is_dsd_codec: bool, channel_count: Option<usize>, sample_rate: Option<
    u32,
>) -> (r: Result<DsdPcmOptions, DecoderSetupError>)
    ensures
        !is_dsd_codec ==> r == Err::<DsdPcmOptions, DecoderSetupError>(
            DecoderSetupError::CodecMismatch,
        ),
        is_dsd_codec && channel_count is None ==> r == Err::<DsdPcmOptions, DecoderSetupError>(
            DecoderSetupError::MissingChannelCount,
        ),
        is_dsd_codec && channel_count == Some(0usize) ==> r == Err::<
            DsdPcmOptions,
            DecoderSetupError,
        >(DecoderSetupError::ZeroChannelCount),
        r matches Ok(o) ==> o.bit_order == DsdBitOrder::MsbFirst && o.filter_type
            == FilterType::Equiripple && o.channels == channel_count.unwrap() && o.input_sample_rate
            == (match sample_rate {
            Some(s) => s,
            None => 2_822_400u32,
        }),
        is_dsd_codec && (channel_count matches Some(c) && c > 0) ==> r == Ok::<
            DsdPcmOptions,
            DecoderSetupError,
        >(
            spec_stream_options(
                match sample_rate {
                    Some(s) => s,
                    None => DEFAULT_DSD_SAMPLE_RATE,
                },
                channel_count.unwrap(),
            ),
        ),
{
    if !is_dsd_codec {
        return Err(DecoderSetupError::CodecMismatch);
    }
    let count = match channel_count {
        Some(c) => c,
        None => return Err(DecoderSetupError::MissingChannelCount),
    };
    if count == 0 {
        return Err(DecoderSetupError::ZeroChannelCount);
    }
    let input_sample_rate = match sample_rate {
        Some(s) => s,
        None => DEFAULT_DSD_SAMPLE_RATE,
    };
    let output_sample_rate = default_output_sample_rate(input_sample_rate);
    let sacd = DsdPcmOptions::sacd(count);
    Ok(DsdPcmOptions { input_sample_rate, output_sample_rate, channels: count, ..sacd })
}

/// The DSD decoder's converter set-up for `opts` with the given ratios; a
/// failure becomes a decode error that keeps the converter's error as its
/// source.
pub fn dsd_converter_plan(opts: DsdPcmOptions, decim_ratio: i32, upsample_ratio: u32) -> (r:
    Result<ConverterPlan, DsdDecodeError>)
    ensures
        r is Err <==> spec_plan_error(opts, decim_ratio, upsample_ratio) is Some,
        r matches Err(e) ==> spec_plan_error(opts, decim_ratio, upsample_ratio) == Some(e.source),
        r matches Ok(p) ==> {
            &&& p.wf()
            &&& p.options() == opts
            &&& p.spec_decim_ratio() == decim_ratio
            &&& p.spec_upsample_ratio() == upsample_ratio
        },
{
    match ConverterPlan::new(opts, decim_ratio, upsample_ratio) {
        Ok(p) => Ok(p),
        Err(source) => Err(DsdDecodeError { source }),
    }
}

/// Interleaved input bytes in the largest packet the DSD decoder expects:
/// the stream's frames per packet (one SACD frame when unknown or too large
/// for `usize`) times the channel count; `None` when that product does not
/// fit in `usize`.
pub fn packet_input_bytes(max_frames_per_packet: Option<u64>, channel_count: usize) -> (r: Option<
    usize,
>)
    ensures
        ({
            let frames: int = match max_frames_per_packet {
                Some(f) => if f <= usize::MAX {
                    f as int
                } else {
                    DEFAULT_FRAMES_PER_PACKET as int
                },
                None => DEFAULT_FRAMES_PER_PACKET as int,
            };
            &&& frames * channel_count <= usize::MAX ==> r == Some((frames * channel_count) as usize)
            &&& frames * channel_count > usize::MAX ==> r is None
        }),
{
    let frames_u64 = match max_frames_per_packet {
        Some(f) => f,
        None => DEFAULT_FRAMES_PER_PACKET,
    };
    let frames: usize = if frames_u64 <= usize::MAX as u64 {
        frames_u64 as usize
    } else {
        DEFAULT_FRAMES_PER_PACKET as usize
    };
    frames.checked_mul(channel_count)
}

/// The channel count and DSD rate the DST decoder is built for: the checks
/// on the codec parameters, then DSD64 when the rate is missing.
pub fn dst_stream_config(is_dst_codec: bool, channel_count: Option<usize>, sample_rate: Option<
    u32,
>) -> (r: Result<(usize, usize), DecoderSetupError>)
    ensures
        !is_dst_codec ==> r == Err::<(usize, usize), DecoderSetupError>(
            DecoderSetupError::CodecMismatch,
        ),
        is_dst_codec && channel_count is None ==> r == Err::<(usize, usize), DecoderSetupError>(
            DecoderSetupError::MissingChannelCount,
        ),
        is_dst_codec && channel_count == Some(0usize) ==> r == Err::<
            (usize, usize),
            DecoderSetupError,
        >(DecoderSetupError::ZeroChannelCount),
        is_dst_codec && (channel_count matches Some(c) && c > 0) ==> r == Ok::<
            (usize, usize),
            DecoderSetupError,
        >(
            (
                channel_count.unwrap(),
                match sample_rate {
                    Some(s) => s as usize,
                    None => DEFAULT_DSD_SAMPLE_RATE as usize,
                },
            ),
        ),
{
    if !is_dst_codec {
        return Err(DecoderSetupError::CodecMismatch);
    }
    let count = match channel_count {
        Some(c) => c,
        None => return Err(DecoderSetupError::MissingChannelCount),
    };
    if count == 0 {
        return Err(DecoderSetupError::ZeroChannelCount);
    }
    let rate = match sample_rate {
        Some(s) => s as usize,
        None => DEFAULT_DSD_SAMPLE_RATE as usize,
    };
    Ok((count, rate))
}

/// The converter options the DST decoder uses for the DSD its inner decoder
/// produces.
pub fn dst_pcm_options(decoder: &DstDsdDecoder) -> (r: DsdPcmOptions)
    requires
        decoder.wf(),
    ensures
        r == spec_stream_options(
            decoder.spec_sample_rate() as u32,
            decoder.spec_channel_count(),
        ),
        r.bit_order == DsdBitOrder::MsbFirst,
        r.filter_type == FilterType::Equiripple,
        r.channels == decoder.spec_channel_count(),
        r.input_sample_rate == decoder.spec_sample_rate(),
{
    proof {
        decoder.lemma_config();
    }
    let rate = decoder.sample_rate() as u32;
    let channels = decoder.channel_count();
    let sacd = DsdPcmOptions::sacd(channels);
    DsdPcmOptions {
        input_sample_rate: rate,
        output_sample_rate: dst_default_output_sample_rate(rate),
        channels,
        ..sacd
    }
}

/// The part of the DST decoder's buffer that a frame of `written` bytes
/// filled, when it holds whole frames of every channel; `None` otherwise.
pub fn decoded_frame_len(written: usize, buffer_len: usize, channel_count: usize) -> (r: Option<
    usize,
>)
    requires
        channel_count > 0,
    ensures
        r is Some <==> (written as int % channel_count as int == 0 && written <= buffer_len),
        r matches Some(n) ==> n == written,
{
    if written % channel_count != 0 {
        return None;
    }
    if written > buffer_len {
        return None;
    }
    Some(written)
}

/// A full DST frame always splits into whole frames of every channel, so the
/// DST decoder's alignment check passes on it.
pub proof fn lemma_full_frame_is_aligned(decoder: &DstDsdDecoder)
    requires
        decoder.wf(),
    ensures
        spec_frame_bytes(decoder.spec_channel_count() as int, decoder.spec_sample_rate() as int)
            % decoder.spec_channel_count() as int == 0,
{
    let c = decoder.spec_channel_count() as int;
    let p = decoder.spec_sample_rate() as int / 8 / 75;
    decoder.lemma_config();
    assert((c * p) % c == 0) by (nonlinear_arith)
        requires
            c > 0,
    ;
}

} // verus!
