//! Conversion options, errors, and the integer side of DSD-to-PCM
//! conversion: input-rate checks, the choice of processor, output capacity,
//! and splitting an interleaved DSD stream into channels.
use vstd::prelude::*;
use crate::bits::reverse_bits;
use crate::decimator::{strided, strided_len, maybe_reversed, PrecalcTaps, select_precalc_taps};

verus! {

/// Base DSD sample rate (DSD64): 64 times 44.1 kHz.
pub const DSD64_RATE: u32 = 2_822_400u32;

/// Bit order of the DSD bytes handed to the converter.
#[derive(Debug, Clone, Copy, PartialEq, Eq, Structural)]
pub enum DsdBitOrder {
    LsbFirst,
    MsbFirst,
}

/// Encoding of the PCM bytes the converter writes.
#[derive(Debug, Clone, Copy, PartialEq, Eq, Structural)]
pub enum PcmOutputEncoding {
    Pcm24Le,
    Float32Le,
}

impl PcmOutputEncoding {
    /// Bytes one sample takes in this encoding.
    pub fn bytes_per_sample(self) -> (r: usize)
        ensures
            r == (match self {
                PcmOutputEncoding::Pcm24Le => 3usize,
                PcmOutputEncoding::Float32Le => 4usize,
            }),
    {
        match self {
            PcmOutputEncoding::Pcm24Le => 3,
            PcmOutputEncoding::Float32Le => 4,
        }
    }
}

/// The three low bytes of a 24-bit PCM sample held in an `i32`, least
/// significant first.
pub fn pcm24_le_bytes(value: i32) -> (r: [u8; 3])
    ensures
        r[0] == (value as u32) & 0xffu32,
        r[1] == ((value as u32) >> 8u32) & 0xffu32,
        r[2] == ((value as u32) >> 16u32) & 0xffu32,
{
    let v = value as u32;
    assert(v & 0xffu32 <= 0xffu32) by (bit_vector);
    assert((v >> 8u32) & 0xffu32 <= 0xffu32) by (bit_vector);
    assert((v >> 16u32) & 0xffu32 <= 0xffu32) by (bit_vector);
    let b0 = (v & 0xffu32) as u8;
    let b1 = ((v >> 8u32) & 0xffu32) as u8;
    let b2 = ((v >> 16u32) & 0xffu32) as u8;
    let r = [b0, b1, b2];
    assert(r[0] == b0 && r[1] == b1 && r[2] == b2);
    r
}

/// Low-pass filter design used for decimation.
#[derive(Debug, Clone, Copy, PartialEq, Eq, Structural)]
pub enum FilterType {
    Dsd2Pcm,
    XLD,
    Equiripple,
    Chebyshev,
}

/// Supported DSD rates, as multiples of DSD64.
#[derive(Debug, Clone, Copy, PartialEq, Eq, Structural)]
pub enum DsdRate {
    Dsd64,
    Dsd128,
    Dsd256,
    Dsd512,
}

/// The multiple of DSD64 a rate stands for.
pub open spec fn rate_multiple(r: DsdRate) -> u32 {
    match r {
        DsdRate::Dsd64 => 1,
        DsdRate::Dsd128 => 2,
        DsdRate::Dsd256 => 4,
        DsdRate::Dsd512 => 8,
    }
}

/// Whether `m` is the multiple of a supported DSD rate.
pub open spec fn is_supported_multiple(m: int) -> bool {
    m == 1 || m == 2 || m == 4 || m == 8
}

/// Each rate stands for its named multiple of DSD64, different rates for
/// different multiples, and DSD64 is 2,822,400 Hz: DSD128 is 5,644,800 Hz,
/// DSD256 11,289,600 Hz and DSD512 22,579,200 Hz.
pub proof fn lemma_rate_names(a: DsdRate, b: DsdRate)
    ensures
        rate_multiple(DsdRate::Dsd64) == 1,
        rate_multiple(DsdRate::Dsd128) == 2,
        rate_multiple(DsdRate::Dsd256) == 4,
        rate_multiple(DsdRate::Dsd512) == 8,
        rate_multiple(a) == rate_multiple(b) ==> a == b,
        DSD64_RATE * rate_multiple(DsdRate::Dsd128) == 5_644_800,
        DSD64_RATE * rate_multiple(DsdRate::Dsd256) == 11_289_600,
        DSD64_RATE * rate_multiple(DsdRate::Dsd512) == 22_579_200,
{
}

/// An input rate is recognised exactly when it is DSD64, DSD128, DSD256 or
/// DSD512, and then as its multiple of DSD64.
pub proof fn lemma_rate_multiplier_values(sample_rate: u32)
    ensures
        sample_rate == 2_822_400 ==> spec_rate_multiplier(sample_rate) == Some(1int),
        sample_rate == 5_644_800 ==> spec_rate_multiplier(sample_rate) == Some(2int),
        sample_rate == 11_289_600 ==> spec_rate_multiplier(sample_rate) == Some(4int),
        sample_rate == 22_579_200 ==> spec_rate_multiplier(sample_rate) == Some(8int),
        !(sample_rate == 2_822_400 || sample_rate == 5_644_800 || sample_rate == 11_289_600
            || sample_rate == 22_579_200) ==> spec_rate_multiplier(sample_rate) is None,
{
}

impl DsdRate {
    /// The rate that is `multiplier` times DSD64, if supported.
    pub fn from_multiplier(multiplier: u32) -> (r: Option<DsdRate>)
        ensures
            r is Some <==> is_supported_multiple(multiplier as int),
            r matches Some(rate) ==> rate_multiple(rate) == multiplier,
            multiplier == 1 ==> r == Some(DsdRate::Dsd64),
            multiplier == 2 ==> r == Some(DsdRate::Dsd128),
            multiplier == 4 ==> r == Some(DsdRate::Dsd256),
            multiplier == 8 ==> r == Some(DsdRate::Dsd512),
            !(multiplier == 1 || multiplier == 2 || multiplier == 4 || multiplier == 8) ==> r is None,
    {
        match multiplier {
            1 => Some(DsdRate::Dsd64),
            2 => Some(DsdRate::Dsd128),
            4 => Some(DsdRate::Dsd256),
            8 => Some(DsdRate::Dsd512),
            _ => None,
        }
    }

    /// The multiple of DSD64 this rate stands for.
    pub fn multiplier(self) -> (m: u32)
        ensures
            m == rate_multiple(self),
            self == DsdRate::Dsd64 ==> m == 1,
            self == DsdRate::Dsd128 ==> m == 2,
            self == DsdRate::Dsd256 ==> m == 4,
            self == DsdRate::Dsd512 ==> m == 8,
    {
        match self {
            DsdRate::Dsd64 => 1,
            DsdRate::Dsd128 => 2,
            DsdRate::Dsd256 => 4,
            DsdRate::Dsd512 => 8,
        }
    }
}

/// What the converter is asked to do.
#[derive(Debug, Clone, Copy)]
pub struct DsdPcmOptions {
    pub input_sample_rate: u32,
    pub output_sample_rate: u32,
    pub channels: usize,
    pub filter_type: FilterType,
    pub bit_order: DsdBitOrder,
}

impl DsdPcmOptions {
    /// Options for SACD material: DSD64 in, 176.4 kHz out, equiripple
    /// filter, MSB-first bytes.
    pub fn sacd(channels: usize) -> (o: Self)
        ensures
            o.input_sample_rate == 2_822_400,
            o.output_sample_rate == 176_400,
            o.channels == channels,
            o.filter_type == FilterType::Equiripple,
            o.bit_order == DsdBitOrder::MsbFirst,
    {
        DsdPcmOptions {
            input_sample_rate: 2_822_400,
            output_sample_rate: 176_400,
            channels,
            filter_type: FilterType::Equiripple,
            bit_order: DsdBitOrder::MsbFirst,
        }
    }
}

/// Why a conversion cannot be set up or carried out.
#[derive(Debug, Clone, PartialEq, Eq, Structural)]
pub enum DsdPcmError {
    InvalidChannelCount,
    InvalidInputLength,
    UnsupportedInputRate(u32),
    UnsupportedConversion { input_sample_rate: u32, output_sample_rate: u32, filter_type: FilterType },
}

/// The DSD64 multiple of `sample_rate`, when it is a supported DSD rate.
pub open spec fn spec_rate_multiplier(sample_rate: u32) -> Option<int> {
    if sample_rate % DSD64_RATE == 0 && is_supported_multiple((sample_rate / DSD64_RATE) as int) {
        Some((sample_rate / DSD64_RATE) as int)
    } else {
        None
    }
}

/// The multiple of DSD64 that `sample_rate` is; an error for any rate that is
/// not DSD64, DSD128, DSD256 or DSD512.
pub fn dsd_rate_multiplier(sample_rate: u32) -> (r: Result<i32, DsdPcmError>)
    ensures
        match spec_rate_multiplier(sample_rate) {
            Some(m) => r == Ok::<i32, DsdPcmError>(m as i32),
            None => r == Err::<i32, DsdPcmError>(DsdPcmError::UnsupportedInputRate(sample_rate)),
        },
        sample_rate == 2_822_400 ==> r == Ok::<i32, DsdPcmError>(1),
        sample_rate == 5_644_800 ==> r == Ok::<i32, DsdPcmError>(2),
        sample_rate == 11_289_600 ==> r == Ok::<i32, DsdPcmError>(4),
        sample_rate == 22_579_200 ==> r == Ok::<i32, DsdPcmError>(8),
        !(sample_rate == 2_822_400 || sample_rate == 5_644_800 || sample_rate == 11_289_600
            || sample_rate == 22_579_200) ==> r == Err::<i32, DsdPcmError>(
            DsdPcmError::UnsupportedInputRate(sample_rate),
        ),
{
    let base: u32 = DSD64_RATE;
    if sample_rate % base != 0 {
        return Err(DsdPcmError::UnsupportedInputRate(sample_rate));
    }
    let multiplier = sample_rate / base;
    match DsdRate::from_multiplier(multiplier) {
        Some(rate) => Ok(rate.multiplier() as i32),
        None => Err(DsdPcmError::UnsupportedInputRate(sample_rate)),
    }
}

/// How each channel is turned into PCM.
#[derive(Debug, Clone, Copy, PartialEq, Eq, Structural)]
pub enum ProcessorKind {
    /// Straight integer decimation through precomputed byte tables.
    Integer(PrecalcTaps),
    /// Rational resampling (upsampling by a factor greater than one).
    Rational,
}

/// The integer side of a DSD-to-PCM converter: its options, its decimation
/// and upsampling ratios, and the processor every channel uses.
#[derive(Debug)]
pub struct ConverterPlan {
    opts: DsdPcmOptions,
    dsd_rate: i32,
    decim_ratio: i32,
    upsample_ratio: u32,
    kind: ProcessorKind,
}

/// Why a plan for `opts` with the given ratios fails, if it does.
pub open spec fn spec_plan_error(opts: DsdPcmOptions, decim_ratio: i32, upsample_ratio: u32) -> Option<
    DsdPcmError,
> {
    if opts.channels == 0 {
        Some(DsdPcmError::InvalidChannelCount)
    } else if spec_rate_multiplier(opts.input_sample_rate) is None {
        Some(DsdPcmError::UnsupportedInputRate(opts.input_sample_rate))
    } else if upsample_ratio <= 1 && crate::decimator::spec_precalc_taps(
        opts.filter_type,
        spec_rate_multiplier(opts.input_sample_rate).unwrap(),
        decim_ratio as int,
    ) is None {
        Some(
            DsdPcmError::UnsupportedConversion {
                input_sample_rate: opts.input_sample_rate,
                output_sample_rate: opts.output_sample_rate,
                filter_type: opts.filter_type,
            },
        )
    } else {
        None
    }
}

impl ConverterPlan {
    /// A plan always has at least one channel, and its integer path always
    /// decimates by a whole, positive number of bytes.
    pub closed spec fn wf(&self) -> bool {
        &&& self.opts.channels > 0
        &&& self.kind matches ProcessorKind::Integer(_) ==> {
            &&& self.decim_ratio > 0
            &&& self.decim_ratio % 8 == 0
            &&& self.upsample_ratio <= 1
        }
    }

    pub closed spec fn options(&self) -> DsdPcmOptions {
        self.opts
    }

    pub closed spec fn spec_decim_ratio(&self) -> i32 {
        self.decim_ratio
    }

    pub closed spec fn spec_upsample_ratio(&self) -> u32 {
        self.upsample_ratio
    }

    pub closed spec fn spec_kind(&self) -> ProcessorKind {
        self.kind
    }

    /// The DSD64 multiple of the input rate.
    pub closed spec fn spec_dsd_rate(&self) -> i32 {
        self.dsd_rate
    }

    /// Sets up a conversion of `opts` whose rate conversion decimates by
    /// `decim_ratio` after upsampling by `upsample_ratio`. Channels must be
    /// at least one and the input rate a supported DSD rate; with no
    /// upsampling the filter must have a precomputed table for the
    /// decimation, else the conversion is unsupported.
    pub fn new(opts: DsdPcmOptions, decim_ratio: i32, upsample_ratio: u32) -> (r: Result<
        Self,
        DsdPcmError,
    >)
        ensures
            match spec_plan_error(opts, decim_ratio, upsample_ratio) {
                Some(e) => r == Err::<Self, DsdPcmError>(e),
                None => r matches Ok(p) && {
                    &&& p.wf()
                    &&& p.options() == opts
                    &&& p.spec_decim_ratio() == decim_ratio
                    &&& p.spec_upsample_ratio() == upsample_ratio
                    &&& p.spec_dsd_rate() == spec_rate_multiplier(opts.input_sample_rate).unwrap()
                    &&& if upsample_ratio > 1 {
                        p.spec_kind() == ProcessorKind::Rational
                    } else {
                        p.spec_kind() == ProcessorKind::Integer(
                            crate::decimator::spec_precalc_taps(
                                opts.filter_type,
                                p.spec_dsd_rate() as int,
                                decim_ratio as int,
                            ).unwrap(),
                        )
                    }
                },
            },
    {
        if opts.channels == 0 {
            return Err(DsdPcmError::InvalidChannelCount);
        }
        let dsd_rate = match dsd_rate_multiplier(opts.input_sample_rate) {
            Ok(m) => m,
            Err(e) => return Err(e),
        };
        let kind = if upsample_ratio > 1 {
            ProcessorKind::Rational
        } else {
            match select_precalc_taps(opts.filter_type, dsd_rate, decim_ratio) {
                Some(t) => {
                    proof {
                        crate::decimator::lemma_selected_decimation_is_whole_bytes(
                            opts.filter_type,
                            dsd_rate as int,
                            decim_ratio as int,
                        );
                    }
                    ProcessorKind::Integer(t)
                },
                None => {
                    return Err(
                        DsdPcmError::UnsupportedConversion {
                            input_sample_rate: opts.input_sample_rate,
                            output_sample_rate: opts.output_sample_rate,
                            filter_type: opts.filter_type,
                        },
                    );
                },
            }
        };
        Ok(ConverterPlan { opts, dsd_rate, decim_ratio, upsample_ratio, kind })
    }

    pub fn input_sample_rate(&self) -> (r: u32)
        ensures
            r == self.options().input_sample_rate,
    {
        self.opts.input_sample_rate
    }

    pub fn output_sample_rate(&self) -> (r: u32)
        ensures
            r == self.options().output_sample_rate,
    {
        self.opts.output_sample_rate
    }

    pub fn channels(&self) -> (r: usize)
        ensures
            r == self.options().channels,
    {
        self.opts.channels
    }

    pub fn options_value(&self) -> (r: DsdPcmOptions)
        ensures
            r == self.options(),
    {
        self.opts
    }

    pub fn decim_ratio(&self) -> (r: i32)
        ensures
            r == self.spec_decim_ratio(),
    {
        self.decim_ratio
    }

    pub fn upsample_ratio(&self) -> (r: u32)
        ensures
            r == self.spec_upsample_ratio(),
    {
        self.upsample_ratio
    }

    pub fn kind(&self) -> (r: ProcessorKind)
        ensures
            r == self.spec_kind(),
    {
        self.kind
    }

    /// On the integer path a plan decimates by a whole, positive number of
    /// bytes without upsampling.
    pub proof fn lemma_integer_decimation(&self)
        requires
            self.wf(),
            self.spec_kind() is Integer,
        ensures
            self.spec_decim_ratio() > 0,
            self.spec_decim_ratio() % 8 == 0,
            self.spec_upsample_ratio() <= 1,
            self.options().channels > 0,
    {
    }

    /// At least one channel.
    pub proof fn lemma_channels_positive(&self)
        requires
            self.wf(),
        ensures
            self.options().channels > 0,
    {
    }

    /// Output frames per channel the buffers must hold for
    /// `interleaved_input_bytes` of input: the upsampled bit count per
    /// channel over the decimation, rounded up, plus 16 frames of slack for
    /// the rational resampler.
    pub fn max_output_frames(&self, interleaved_input_bytes: usize) -> (r: usize)
        requires
            self.wf(),
            self.spec_decim_ratio() != 0,
            (interleaved_input_bytes / self.options().channels) * 8 <= usize::MAX,
            (interleaved_input_bytes / self.options().channels) * 8 * self.spec_upsample_ratio()
                <= usize::MAX,
            spec_max_output_frames(
                self.options().channels as int,
                self.spec_decim_ratio() as int,
                self.spec_upsample_ratio() as int,
                interleaved_input_bytes as int,
            ) <= usize::MAX,
        ensures
            r == spec_max_output_frames(
                self.options().channels as int,
                self.spec_decim_ratio() as int,
                self.spec_upsample_ratio() as int,
                interleaved_input_bytes as int,
            ),
    {
        let bytes_per_channel = interleaved_input_bytes / self.opts.channels;
        let bits_per_channel = bytes_per_channel * 8;
        let d = self.decim_ratio as i64;
        let decim: usize = if d < 0 {
            (0 - d) as usize
        } else {
            d as usize
        };
        let total = bits_per_channel * (self.upsample_ratio as usize);
        let frames = if total % decim != 0 {
            total / decim + 1
        } else {
            total / decim
        };
        if self.upsample_ratio > 1 {
            frames + 16
        } else {
            frames
        }
    }
}

/// `a / b` rounded up.
pub open spec fn ceil_div(a: int, b: int) -> int {
    a / b + if a % b != 0 {
        1int
    } else {
        0int
    }
}

/// `|x|`.
pub open spec fn abs(x: int) -> int {
    if x < 0 {
        -x
    } else {
        x
    }
}

/// Output frames per channel needed for `n` interleaved input bytes.
pub open spec fn spec_max_output_frames(channels: int, decim: int, upsample: int, n: int) -> int {
    ceil_div((n / channels) * 8 * upsample, abs(decim)) + if upsample > 1 {
        16int
    } else {
        0int
    }
}

/// `a / b` rounded up never shrinks as `a` grows.
proof fn lemma_ceil_div_monotone(a1: int, a2: int, b: int)
    requires
        0 <= a1 <= a2,
        b > 0,
    ensures
        ceil_div(a1, b) <= ceil_div(a2, b),
{
    let q1 = a1 / b;
    let q2 = a2 / b;
    let r1 = a1 % b;
    let r2 = a2 % b;
    vstd::arithmetic::div_mod::lemma_fundamental_div_mod(a1, b);
    vstd::arithmetic::div_mod::lemma_fundamental_div_mod(a2, b);
    vstd::arithmetic::div_mod::lemma_div_is_ordered(a1, a2, b);
    assert(0 <= r1 < b && 0 <= r2 < b) by {
        vstd::arithmetic::div_mod::lemma_mod_bound(a1, b);
        vstd::arithmetic::div_mod::lemma_mod_bound(a2, b);
    }
    if q1 == q2 {
        assert(r1 <= r2) by (nonlinear_arith)
            requires
                a1 == b * q1 + r1,
                a2 == b * q2 + r2,
                q1 == q2,
                a1 <= a2,
        ;
    }
}

/// The capacity is the fewest outputs whose decimation windows cover every
/// upsampled input bit of a channel, plus 16 frames of slack exactly when
/// the plan upsamples.
pub proof fn lemma_capacity_is_least_cover(channels: int, decim: int, upsample: int, n: int)
    requires
        channels > 0,
        decim != 0,
        upsample >= 0,
        n >= 0,
    ensures
        ({
            let total = (n / channels) * 8 * upsample;
            let d = if decim < 0 {
                -decim
            } else {
                decim
            };
            let k = spec_max_output_frames(channels, decim, upsample, n) - if upsample > 1 {
                16int
            } else {
                0int
            };
            &&& k * d >= total
            &&& (k - 1) * d < total
            &&& k >= 0
        }),
{
    let total = (n / channels) * 8 * upsample;
    let d = abs(decim);
    let q = total / d;
    let r = total % d;
    vstd::arithmetic::div_mod::lemma_fundamental_div_mod(total, d);
    vstd::arithmetic::div_mod::lemma_mod_bound(total, d);
    assert(total >= 0) by (nonlinear_arith)
        requires
            n >= 0,
            channels > 0,
            upsample >= 0,
            total == (n / channels) * 8 * upsample,
    ;
    assert(q >= 0) by (nonlinear_arith)
        requires
            total >= 0,
            d > 0,
            q == total / d,
    ;
    let k = ceil_div(total, d);
    if r != 0 {
        assert(k * d >= total && (k - 1) * d < total) by (nonlinear_arith)
            requires
                k == q + 1,
                total == d * q + r,
                0 < r < d,
        ;
    } else {
        assert(k * d == total && (k - 1) * d == total - d) by (nonlinear_arith)
            requires
                k == q,
                total == d * q + r,
                r == 0,
        ;
    }
}

/// The capacity `max_output_frames` asks for never shrinks as the input
/// grows.
pub proof fn lemma_capacity_monotone(channels: int, decim: int, upsample: int, n1: int, n2: int)
    requires
        channels > 0,
        decim != 0,
        upsample >= 0,
        0 <= n1 <= n2,
    ensures
        spec_max_output_frames(channels, decim, upsample, n1) <= spec_max_output_frames(
            channels,
            decim,
            upsample,
            n2,
        ),
{
    vstd::arithmetic::div_mod::lemma_div_is_ordered(n1, n2, channels);
    let b1 = n1 / channels;
    let b2 = n2 / channels;
    assert(0 <= b1) by (nonlinear_arith)
        requires
            n1 >= 0,
            channels > 0,
            b1 == n1 / channels,
    ;
    assert(b1 * 8 * upsample <= b2 * 8 * upsample) by (nonlinear_arith)
        requires
            0 <= b1 <= b2,
            upsample >= 0,
    ;
    assert(0 <= b1 * 8 * upsample) by (nonlinear_arith)
        requires
            0 <= b1,
            upsample >= 0,
    ;
    lemma_ceil_div_monotone(b1 * 8 * upsample, b2 * 8 * upsample, abs(decim));
}

/// For a plan that decimates by whole bytes without upsampling, a buffer of
/// `max_output_frames` frames holds every output a channel's decimator
/// produces: the channel's output is never cut short.
pub proof fn lemma_capacity_holds_all_outputs(
    channels: int,
    decim: int,
    n: int,
)
    requires
        channels > 0,
        decim > 0,
        decim % 8 == 0,
        n >= 0,
    ensures
        ({
            let bpc = n / channels;
            let bpo = decim / 8;
            let cap = spec_max_output_frames(channels, decim, 1, n);
            &&& cap >= 0
            &&& crate::decimator::produced_count(bpc as nat, bpo as nat, cap as nat) == bpc / bpo
        }),
{
    let bpc = n / channels;
    let bpo = decim / 8;
    assert(bpc >= 0) by (nonlinear_arith)
        requires
            n >= 0,
            channels > 0,
            bpc == n / channels,
    ;
    assert(decim == 8 * bpo);
    vstd::arithmetic::div_mod::lemma_div_denominator(bpc * 8, 8, bpo);
    assert(bpc * 8 == 8 * bpc) by (nonlinear_arith);
    vstd::arithmetic::div_mod::lemma_div_multiples_vanish(bpc, 8);
    assert((bpc * 8) / decim == bpc / bpo);
    assert(bpc * 8 * 1 == bpc * 8);
    assert(bpc / bpo >= 0) by (nonlinear_arith)
        requires
            bpc >= 0,
            bpo > 0,
    ;
}

/// Splits an interleaved DSD stream into its channels, reversing every
/// byte's bits when the input is MSB-first; an input that does not hold a
/// whole number of frames is rejected.
pub fn split_channels(input: &[u8], channels: usize, bit_order: DsdBitOrder) -> (r: Result<
    Vec<Vec<u8>>,
    DsdPcmError,
>)
    requires
        channels > 0,
    ensures
        input@.len() as int % channels as int != 0 <==> r == Err::<Vec<Vec<u8>>, DsdPcmError>(
            DsdPcmError::InvalidInputLength,
        ),
        input@.len() as int % channels as int == 0 <==> r is Ok,
        r matches Ok(out) ==> {
            &&& out.len() == channels
            &&& forall|c: int|
                0 <= c < channels ==> (#[trigger] out[c])@ == strided(
                    input@,
                    c,
                    channels as int,
                    bit_order == DsdBitOrder::MsbFirst,
                )
            &&& forall|c: int|
                0 <= c < channels ==> (#[trigger] out[c])@.len() == input@.len() as int / channels as int
        },
{
    if input.len() % channels != 0 {
        return Err(DsdPcmError::InvalidInputLength);
    }
    let rev = match bit_order {
        DsdBitOrder::LsbFirst => false,
        DsdBitOrder::MsbFirst => true,
    };
    let n = input.len();
    let mut out: Vec<Vec<u8>> = Vec::new();
    let mut c: usize = 0;
    while c < channels
        invariant
            c <= channels,
            n == input@.len(),
            n as int % channels as int == 0,
            rev == (bit_order == DsdBitOrder::MsbFirst),
            out.len() == c,
            forall|c2: int|
                0 <= c2 < c ==> (#[trigger] out[c2])@ == strided(input@, c2, channels as int, rev),
            forall|c2: int|
                0 <= c2 < c ==> (#[trigger] out[c2])@.len() == n as int / channels as int,
        decreases channels - c,
    {
        let v = channel_bytes(input, c, channels, rev);
        proof {
            lemma_channel_len(n as int, c as int, channels as int);
        }
        out.push(v);
        c = c + 1;
    }
    Ok(out)
}

/// The bytes of channel `channel` of an interleaved stream, bit-reversed when
/// `rev` holds.
fn channel_bytes(input: &[u8], channel: usize, channels: usize, rev: bool) -> (v: Vec<u8>)
    requires
        channels > 0,
    ensures
        v@ == strided(input@, channel as int, channels as int, rev),
{
    let ghost stream = strided(input@, channel as int, channels as int, rev);
    let mut v: Vec<u8> = Vec::new();
    let mut idx = channel;
    let mut exhausted = channel >= input.len();
    let ghost mut m: int = 0;
    while !exhausted
        invariant
            channels > 0,
            stream == strided(input@, channel as int, channels as int, rev),
            v.len() == m,
            v@ == stream.take(m),
            !exhausted ==> idx == channel + m * channels,
            !exhausted ==> idx < input@.len(),
            !exhausted ==> m + strided_len(input@.len() as int, idx as int, channels as int)
                == stream.len(),
            exhausted ==> m == stream.len(),
            m <= stream.len(),
        decreases stream.len() - m,
    {
        let raw = input[idx];
        let b = if rev {
            reverse_bits(raw)
        } else {
            raw
        };
        assert(stream[m] == b);
        v.push(b);
        proof {
            m = m + 1;
            assert(v@ =~= stream.take(m));
        }
        if input.len() - idx <= channels {
            exhausted = true;
        } else {
            assert(idx + channels == channel + m * channels) by (nonlinear_arith)
                requires
                    idx == channel + (m - 1) * channels,
            ;
            idx = idx + channels;
        }
    }
    assert(v@ =~= stream);
    v
}

/// In a stream of `n` bytes interleaved over `channels` channels, with `n` a
/// whole number of frames, every channel carries `n / channels` bytes.
pub proof fn lemma_channel_len(n: int, channel: int, channels: int)
    requires
        channels > 0,
        0 <= channel < channels,
        n >= 0,
        n % channels == 0,
    ensures
        strided_len(n, channel, channels) == n / channels,
{
    let k = n / channels;
    assert(n == k * channels) by (nonlinear_arith)
        requires
            channels > 0,
            n % channels == 0,
            k == n / channels,
    ;
    assert(k >= 0) by (nonlinear_arith)
        requires
            channels > 0,
            n >= 0,
            k == n / channels,
    ;
    lemma_channel_len_from(k, 0, channel, channels);
}

/// Induction step for `lemma_channel_len`: from frame `j` on, channel
/// `channel` has `k - j` bytes left.
proof fn lemma_channel_len_from(k: int, j: int, channel: int, channels: int)
    requires
        channels > 0,
        0 <= channel < channels,
        0 <= j <= k,
    ensures
        strided_len(k * channels, channel + j * channels, channels) == k - j,
    decreases k - j,
{
    let len = k * channels;
    let pos = channel + j * channels;
    if j == k {
        assert(pos >= len) by (nonlinear_arith)
            requires
                pos == channel + j * channels,
                len == k * channels,
                j == k,
                channel >= 0,
        ;
    } else {
        assert((j + 1) * channels <= k * channels) by (nonlinear_arith)
            requires
                j + 1 <= k,
                channels > 0,
        ;
        assert((j + 1) * channels == j * channels + channels) by (nonlinear_arith);
        assert(pos < len);
        assert(pos + channels == channel + (j + 1) * channels) by (nonlinear_arith)
            requires
                pos == channel + j * channels,
        ;
        lemma_channel_len_from(k, j + 1, channel, channels);
        if pos + channels >= len {
            assert(j + 1 == k) by (nonlinear_arith)
                requires
                    pos + channels == channel + (j + 1) * channels,
                    pos + channels >= len,
                    len == k * channels,
                    j < k,
                    channel < channels,
                    channel >= 0,
            ;
        }
    }
}

/// Channel `channel` of an interleaved stream of whole frames is the byte
/// at `m * channels + channel` of every frame `m`, bit-reversed for
/// MSB-first input. Both conversion paths read exactly this sequence: the
/// planar one after `split_channels`, the direct one through
/// `process_interleaved_bytes`.
pub proof fn lemma_channel_stream(input: Seq<u8>, channel: int, channels: int, rev: bool)
    requires
        channels > 0,
        0 <= channel < channels,
        input.len() as int % channels == 0,
    ensures
        strided(input, channel, channels, rev).len() == input.len() as int / channels,
        forall|m: int|
            0 <= m < input.len() as int / channels ==> #[trigger] strided(input, channel, channels, rev)[m]
                == maybe_reversed(input[m * channels + channel], rev),
{
    lemma_channel_len(input.len() as int, channel, channels);
    assert forall|m: int| 0 <= m < input.len() as int / channels implies #[trigger] strided(
        input,
        channel,
        channels,
        rev,
    )[m] == maybe_reversed(input[m * channels + channel], rev) by {
        assert(channel + m * channels == m * channels + channel);
    }
}

/// Every channel of a stream of whole frames yields the same number of
/// outputs from decimators with equal output spacing, so the converter's
/// check that all channels produced the same frame count never fails on the
/// integer path.
pub proof fn lemma_channels_produce_equal_frames(
    n: int,
    c1: int,
    c2: int,
    channels: int,
    bpo: nat,
    out_len: nat,
)
    requires
        channels > 0,
        0 <= c1 < channels,
        0 <= c2 < channels,
        n >= 0,
        n % channels == 0,
    ensures
        crate::decimator::produced_count(strided_len(n, c1, channels), bpo, out_len)
            == crate::decimator::produced_count(strided_len(n, c2, channels), bpo, out_len),
{
    lemma_channel_len(n, c1, channels);
    lemma_channel_len(n, c2, channels);
}

} // verus!
