//! The integer path of DSD-to-PCM conversion across all channels: one
//! table decimator per channel, fed either from channels split out of the
//! interleaved input (planar path) or straight from the interleaved input
//! (direct path).
use vstd::prelude::*;
use crate::buffer::{
    ConverterPlan, DsdBitOrder, DsdPcmError, ProcessorKind, split_channels, lemma_channel_len,
    spec_max_output_frames, lemma_capacity_holds_all_outputs,
};
use crate::bits::reversed_byte;
use crate::decimator::{
    DecimatorState, fed, strided, produced_count, is_next_power_of_two, DSD_SILENCE, alike,
    lemma_fed_deterministic, lemma_lane_restride, lemma_next_power_unique,
};

verus! {

/// The table decimators of every channel of an integer-path conversion.
pub struct ChannelDecimators {
    plan: ConverterPlan,
    states: Vec<DecimatorState>,
}

/// The byte stream channel `c` of `input` contributes under `plan`.
pub open spec fn channel_stream(plan: ConverterPlan, input: Seq<u8>, c: int) -> Seq<u8> {
    strided(
        input,
        c,
        plan.options().channels as int,
        plan.options().bit_order == DsdBitOrder::MsbFirst,
    )
}

/// `after` is `before` with every channel's decimator fed that channel of
/// `input`, and `outs[c]` are channel `c`'s outputs.
pub open spec fn converted(
    before: ChannelDecimators,
    after: ChannelDecimators,
    input: Seq<u8>,
    out_len: nat,
    outs: Seq<Vec<Vec<(u8, u8)>>>,
) -> bool {
    &&& outs.len() == before.spec_plan().options().channels
    &&& forall|c: int|
        0 <= c < outs.len() ==> fed(
            before.channel(c),
            after.channel(c),
            channel_stream(before.spec_plan(), input, c),
            out_len,
            (#[trigger] outs[c])@,
        )
}

/// The direct and the planar path of a conversion agree: from the same
/// decimators, on the same input and with the same room, every channel gets
/// the same outputs and is left with the same history, whichever path fed
/// it.
pub proof fn lemma_direct_matches_planar(
    before: ChannelDecimators,
    after_planar: ChannelDecimators,
    after_direct: ChannelDecimators,
    input: Seq<u8>,
    out_len: nat,
    planar: Seq<Vec<Vec<(u8, u8)>>>,
    direct: Seq<Vec<Vec<(u8, u8)>>>,
)
    requires
        converted(before, after_planar, input, out_len, planar),
        converted(before, after_direct, input, out_len, direct),
    ensures
        planar.len() == direct.len(),
        forall|c: int|
            0 <= c < planar.len() ==> {
                &&& (#[trigger] planar[c])@.len() == direct[c]@.len()
                &&& forall|j: int| 0 <= j < planar[c]@.len() ==> planar[c]@[j]@ == direct[c]@[j]@
                &&& after_planar.channel(c).recent() == after_direct.channel(c).recent()
            },
{
    assert forall|c: int| 0 <= c < planar.len() implies {
        &&& (#[trigger] planar[c])@.len() == direct[c]@.len()
        &&& forall|j: int| 0 <= j < planar[c]@.len() ==> planar[c]@[j]@ == direct[c]@[j]@
        &&& after_planar.channel(c).recent() == after_direct.channel(c).recent()
    } by {
        lemma_fed_deterministic(
            before.channel(c),
            before.channel(c),
            after_planar.channel(c),
            after_direct.channel(c),
            channel_stream(before.spec_plan(), input, c),
            out_len,
            planar[c]@,
            direct[c]@,
        );
    }
}

/// `d` is what `ChannelDecimators::new(plan, half_taps_len)` builds: per
/// channel a fresh decimator with the filter's tables and the plan's output
/// spacing, its history all idle pattern.
pub open spec fn built_from(d: ChannelDecimators, plan: ConverterPlan, half_taps_len: nat) -> bool {
    &&& d.wf()
    &&& d.spec_plan() == plan
    &&& forall|c: int|
        0 <= c < plan.options().channels ==> {
            &&& (#[trigger] d.channel(c)).tables() == (half_taps_len + 7) / 8
            &&& d.channel(c).span() == 2 * d.channel(c).tables() - 1
            &&& d.channel(c).bytes_per_output() == plan.spec_decim_ratio() / 8
            &&& is_next_power_of_two(d.channel(c).history_len(), 2 * d.channel(c).tables() + 8)
            &&& d.channel(c).recent() == Seq::new(d.channel(c).history_len(), |j: int| DSD_SILENCE)
        }
}

/// Two sets of decimators whose channels no caller can tell apart.
pub open spec fn channels_alike(a: ChannelDecimators, b: ChannelDecimators) -> bool {
    &&& a.spec_plan().options().channels == b.spec_plan().options().channels
    &&& forall|c: int|
        0 <= c < a.spec_plan().options().channels ==> alike(
            #[trigger] a.channel(c),
            b.channel(c),
        )
}

/// Any channel of one freshly built set of decimators is alike any channel
/// of another built with the same filter length and decimation.
pub proof fn lemma_fresh_channels_alike(
    d1: ChannelDecimators,
    p1: ConverterPlan,
    c1: int,
    d2: ChannelDecimators,
    p2: ConverterPlan,
    c2: int,
    h: nat,
)
    requires
        built_from(d1, p1, h),
        built_from(d2, p2, h),
        p1.spec_decim_ratio() == p2.spec_decim_ratio(),
        0 <= c1 < p1.options().channels,
        0 <= c2 < p2.options().channels,
    ensures
        alike(d1.channel(c1), d2.channel(c2)),
{
    lemma_next_power_unique(
        d1.channel(c1).history_len(),
        d2.channel(c2).history_len(),
        2 * d1.channel(c1).tables() + 8,
    );
    assert(d1.channel(c1).recent() =~= d2.channel(c2).recent());
}

/// Two sets of decimators built with the same channel count, filter length
/// and decimation are alike, whatever their bit orders.
pub proof fn lemma_built_alike(
    d1: ChannelDecimators,
    p1: ConverterPlan,
    d2: ChannelDecimators,
    p2: ConverterPlan,
    h: nat,
)
    requires
        built_from(d1, p1, h),
        built_from(d2, p2, h),
        p1.options().channels == p2.options().channels,
        p1.spec_decim_ratio() == p2.spec_decim_ratio(),
    ensures
        channels_alike(d1, d2),
{
    assert forall|c: int| 0 <= c < p1.options().channels implies alike(
        #[trigger] d1.channel(c),
        d2.channel(c),
    ) by {
        lemma_fresh_channels_alike(d1, p1, c, d2, p2, c, h);
    }
}

/// Converters that are alike and use the same plan stay in step: fed the
/// same input with the same room they produce the same outputs and remain
/// alike. In particular two converters built with the same arguments and fed
/// the same sequence of inputs give identical results at every step.
pub proof fn lemma_alike_stay_in_step(
    a: ChannelDecimators,
    b: ChannelDecimators,
    a1: ChannelDecimators,
    b1: ChannelDecimators,
    input: Seq<u8>,
    out_len: nat,
    oa: Seq<Vec<Vec<(u8, u8)>>>,
    ob: Seq<Vec<Vec<(u8, u8)>>>,
)
    requires
        a.spec_plan() == b.spec_plan(),
        a1.spec_plan() == a.spec_plan(),
        b1.spec_plan() == b.spec_plan(),
        channels_alike(a, b),
        converted(a, a1, input, out_len, oa),
        converted(b, b1, input, out_len, ob),
    ensures
        channels_alike(a1, b1),
        oa.len() == ob.len(),
        forall|c: int|
            0 <= c < oa.len() ==> {
                &&& (#[trigger] oa[c])@.len() == ob[c]@.len()
                &&& forall|j: int| 0 <= j < oa[c]@.len() ==> oa[c]@[j]@ == ob[c]@[j]@
            },
{
    assert forall|c: int| 0 <= c < oa.len() implies {
        &&& (#[trigger] oa[c])@.len() == ob[c]@.len()
        &&& forall|j: int| 0 <= j < oa[c]@.len() ==> oa[c]@[j]@ == ob[c]@[j]@
    } by {
        lemma_fed_deterministic(
            a.channel(c),
            b.channel(c),
            a1.channel(c),
            b1.channel(c),
            channel_stream(a.spec_plan(), input, c),
            out_len,
            oa[c]@,
            ob[c]@,
        );
    }
    assert forall|c: int| 0 <= c < a1.spec_plan().options().channels implies alike(
        #[trigger] a1.channel(c),
        b1.channel(c),
    ) by {
        lemma_fed_deterministic(
            a.channel(c),
            b.channel(c),
            a1.channel(c),
            b1.channel(c),
            channel_stream(a.spec_plan(), input, c),
            out_len,
            oa[c]@,
            ob[c]@,
        );
    }
}

/// The two bit orders agree: converting MSB-first input `x` gives exactly
/// what converting, with LSB-first order, the input `y` whose every byte is
/// `x`'s bit-reversed gives, from decimators that are alike.
pub proof fn lemma_bit_orders_agree(
    a: ChannelDecimators,
    b: ChannelDecimators,
    a1: ChannelDecimators,
    b1: ChannelDecimators,
    x: Seq<u8>,
    y: Seq<u8>,
    out_len: nat,
    oa: Seq<Vec<Vec<(u8, u8)>>>,
    ob: Seq<Vec<Vec<(u8, u8)>>>,
)
    requires
        a.spec_plan().options().bit_order == DsdBitOrder::MsbFirst,
        b.spec_plan().options().bit_order == DsdBitOrder::LsbFirst,
        a.spec_plan().options().channels > 0,
        channels_alike(a, b),
        y.len() == x.len(),
        forall|i: int| 0 <= i < x.len() ==> #[trigger] y[i] == reversed_byte(x[i]),
        converted(a, a1, x, out_len, oa),
        converted(b, b1, y, out_len, ob),
    ensures
        oa.len() == ob.len(),
        forall|c: int|
            0 <= c < oa.len() ==> {
                &&& (#[trigger] oa[c])@.len() == ob[c]@.len()
                &&& forall|j: int| 0 <= j < oa[c]@.len() ==> oa[c]@[j]@ == ob[c]@[j]@
                &&& alike(a1.channel(c), b1.channel(c))
            },
{
    let ch = a.spec_plan().options().channels as int;
    assert forall|c: int| 0 <= c < oa.len() implies {
        &&& (#[trigger] oa[c])@.len() == ob[c]@.len()
        &&& forall|j: int| 0 <= j < oa[c]@.len() ==> oa[c]@[j]@ == ob[c]@[j]@
        &&& alike(a1.channel(c), b1.channel(c))
    } by {
        assert(channel_stream(a.spec_plan(), x, c) =~= channel_stream(b.spec_plan(), y, c)) by {
            assert forall|m: int|
                0 <= m < channel_stream(a.spec_plan(), x, c).len() implies #[trigger] channel_stream(
                a.spec_plan(),
                x,
                c,
            )[m] == channel_stream(b.spec_plan(), y, c)[m] by {
                crate::decimator::lemma_strided_index(x.len() as int, c, ch, m);
                assert(y[c + m * ch] == reversed_byte(x[c + m * ch]));
            }
        }
        lemma_fed_deterministic(
            a.channel(c),
            b.channel(c),
            a1.channel(c),
            b1.channel(c),
            channel_stream(a.spec_plan(), x, c),
            out_len,
            oa[c]@,
            ob[c]@,
        );
    }
}

/// Each output channel depends only on its own byte lane: channel `k` of an
/// interleaved conversion equals converting, with a one-channel converter in
/// the same bit order whose decimator is alike, the raw bytes
/// `x[k], x[k + n], x[k + 2n], ...` alone.
pub proof fn lemma_lane_independent(
    a: ChannelDecimators,
    b: ChannelDecimators,
    a1: ChannelDecimators,
    b1: ChannelDecimators,
    x: Seq<u8>,
    k: int,
    out_len: nat,
    oa: Seq<Vec<Vec<(u8, u8)>>>,
    ob: Seq<Vec<Vec<(u8, u8)>>>,
)
    requires
        a.spec_plan().options().channels > 0,
        0 <= k < a.spec_plan().options().channels,
        b.spec_plan().options().channels == 1,
        b.spec_plan().options().bit_order == a.spec_plan().options().bit_order,
        alike(a.channel(k), b.channel(0)),
        converted(a, a1, x, out_len, oa),
        converted(
            b,
            b1,
            strided(x, k, a.spec_plan().options().channels as int, false),
            out_len,
            ob,
        ),
    ensures
        ob.len() == 1,
        oa[k]@.len() == ob[0]@.len(),
        forall|j: int| 0 <= j < oa[k]@.len() ==> oa[k]@[j]@ == ob[0]@[j]@,
        alike(a1.channel(k), b1.channel(0)),
{
    let n = a.spec_plan().options().channels as int;
    let rev = a.spec_plan().options().bit_order == DsdBitOrder::MsbFirst;
    lemma_lane_restride(x, k, n, rev);
    assert(channel_stream(b.spec_plan(), strided(x, k, n, false), 0) == channel_stream(
        a.spec_plan(),
        x,
        k,
    ));
    assert(oa[k] == oa[k]);
    assert(ob[0] == ob[0]);
    lemma_fed_deterministic(
        a.channel(k),
        b.channel(0),
        a1.channel(k),
        b1.channel(0),
        channel_stream(a.spec_plan(), x, k),
        out_len,
        oa[k]@,
        ob[0]@,
    );
}

/// Two freshly built converters, alike but for bit order, agree: MSB-first
/// input `x` and the LSB-first input of `x`'s bytes bit-reversed give the
/// same outputs.
pub proof fn lemma_bit_orders_agree_fresh(
    a: ChannelDecimators,
    pa: ConverterPlan,
    b: ChannelDecimators,
    pb: ConverterPlan,
    h: nat,
    a1: ChannelDecimators,
    b1: ChannelDecimators,
    x: Seq<u8>,
    y: Seq<u8>,
    out_len: nat,
    oa: Seq<Vec<Vec<(u8, u8)>>>,
    ob: Seq<Vec<Vec<(u8, u8)>>>,
)
    requires
        built_from(a, pa, h),
        built_from(b, pb, h),
        pa.options().channels == pb.options().channels,
        pa.spec_decim_ratio() == pb.spec_decim_ratio(),
        pa.options().bit_order == DsdBitOrder::MsbFirst,
        pb.options().bit_order == DsdBitOrder::LsbFirst,
        y.len() == x.len(),
        forall|i: int| 0 <= i < x.len() ==> #[trigger] y[i] == reversed_byte(x[i]),
        converted(a, a1, x, out_len, oa),
        converted(b, b1, y, out_len, ob),
    ensures
        oa.len() == ob.len(),
        forall|c: int|
            0 <= c < oa.len() ==> {
                &&& (#[trigger] oa[c])@.len() == ob[c]@.len()
                &&& forall|j: int| 0 <= j < oa[c]@.len() ==> oa[c]@[j]@ == ob[c]@[j]@
            },
{
    pa.lemma_channels_positive();
    lemma_built_alike(a, pa, b, pb, h);
    lemma_bit_orders_agree(a, b, a1, b1, x, y, out_len, oa, ob);
}

/// For freshly built converters: channel `k` of an `n`-channel conversion
/// equals the conversion, by a one-channel converter built alike, of the raw
/// lane `x[k], x[k + n], ...`.
pub proof fn lemma_lane_independent_fresh(
    a: ChannelDecimators,
    pa: ConverterPlan,
    b: ChannelDecimators,
    pb: ConverterPlan,
    h: nat,
    a1: ChannelDecimators,
    b1: ChannelDecimators,
    x: Seq<u8>,
    k: int,
    out_len: nat,
    oa: Seq<Vec<Vec<(u8, u8)>>>,
    ob: Seq<Vec<Vec<(u8, u8)>>>,
)
    requires
        built_from(a, pa, h),
        built_from(b, pb, h),
        pb.options().channels == 1,
        pa.spec_decim_ratio() == pb.spec_decim_ratio(),
        pa.options().bit_order == pb.options().bit_order,
        0 <= k < pa.options().channels,
        converted(a, a1, x, out_len, oa),
        converted(b, b1, strided(x, k, pa.options().channels as int, false), out_len, ob),
    ensures
        ob.len() == 1,
        oa[k]@.len() == ob[0]@.len(),
        forall|j: int| 0 <= j < oa[k]@.len() ==> oa[k]@[j]@ == ob[0]@[j]@,
{
    lemma_fresh_channels_alike(a, pa, k, b, pb, 0, h);
    lemma_lane_independent(a, b, a1, b1, x, k, out_len, oa, ob);
}

/// Two converters freshly built with the same arguments and fed the same
/// first input give identical results and remain alike, so by
/// `lemma_alike_stay_in_step` they agree on every later input too.
pub proof fn lemma_fresh_converters_agree(
    a: ChannelDecimators,
    b: ChannelDecimators,
    plan: ConverterPlan,
    h: nat,
    a1: ChannelDecimators,
    b1: ChannelDecimators,
    input: Seq<u8>,
    out_len: nat,
    oa: Seq<Vec<Vec<(u8, u8)>>>,
    ob: Seq<Vec<Vec<(u8, u8)>>>,
)
    requires
        built_from(a, plan, h),
        built_from(b, plan, h),
        a1.spec_plan() == plan,
        b1.spec_plan() == plan,
        converted(a, a1, input, out_len, oa),
        converted(b, b1, input, out_len, ob),
    ensures
        channels_alike(a1, b1),
        oa.len() == ob.len(),
        forall|c: int|
            0 <= c < oa.len() ==> {
                &&& (#[trigger] oa[c])@.len() == ob[c]@.len()
                &&& forall|j: int| 0 <= j < oa[c]@.len() ==> oa[c]@[j]@ == ob[c]@[j]@
            },
{
    lemma_built_alike(a, plan, b, plan, h);
    lemma_alike_stay_in_step(a, b, a1, b1, input, out_len, oa, ob);
}

impl ChannelDecimators {
    /// One well-formed decimator per channel, all spaced by the plan's
    /// decimation in bytes.
    pub closed spec fn wf(&self) -> bool {
        &&& self.plan.wf()
        &&& self.plan.spec_kind() is Integer
        &&& self.states.len() == self.plan.options().channels
        &&& forall|c: int|
            0 <= c < self.states.len() ==> {
                &&& (#[trigger] self.states[c]).wf()
                &&& self.states[c].bytes_per_output() == self.plan.spec_decim_ratio() / 8
            }
    }

    pub closed spec fn spec_plan(&self) -> ConverterPlan {
        self.plan
    }

    /// The decimator of channel `c`.
    pub closed spec fn channel(&self, c: int) -> DecimatorState {
        self.states[c]
    }

    /// The output capacity per channel the conversion uses for `n` input
    /// bytes.
    pub open spec fn capacity(&self, n: int) -> int {
        spec_max_output_frames(
            self.spec_plan().options().channels as int,
            self.spec_plan().spec_decim_ratio() as int,
            self.spec_plan().spec_upsample_ratio() as int,
            n,
        )
    }

    /// With buffers of the capacity `capacity(n)`, every channel of a whole
    /// number of frames yields exactly its bytes over the output spacing
    /// when the plan does not upsample.
    proof fn lemma_capacity_frames(&self, n: int, c: int)
        requires
            self.wf(),
            n >= 0,
            n % self.spec_plan().options().channels as int == 0,
            0 <= c < self.spec_plan().options().channels,
            self.spec_plan().spec_upsample_ratio() == 1,
        ensures
            produced_count(
                crate::decimator::strided_len(n, c, self.spec_plan().options().channels as int),
                (self.spec_plan().spec_decim_ratio() / 8) as nat,
                self.capacity(n) as nat,
            ) == (n / self.spec_plan().options().channels as int) / (
            self.spec_plan().spec_decim_ratio() / 8) as int,
    {
        self.spec_plan().lemma_integer_decimation();
        let ch = self.spec_plan().options().channels as int;
        lemma_channel_len(n, c, ch);
        lemma_capacity_holds_all_outputs(ch, self.spec_plan().spec_decim_ratio() as int, n);
    }

    /// Planar conversion with buffers sized by the plan's `max_output_frames`:
    /// each channel of a whole-frame input yields exactly (bytes per
    /// channel) / (bytes per output) frames when the plan does not upsample.
    pub fn convert_interleaved(&mut self, input: &[u8]) -> (r: Result<
        Vec<Vec<Vec<(u8, u8)>>>,
        DsdPcmError,
    >)
        requires
            old(self).wf(),
            (input@.len() as int / old(self).spec_plan().options().channels as int) * 8
                <= usize::MAX,
            old(self).capacity(input@.len() as int) <= usize::MAX,
        ensures
            final(self).wf(),
            final(self).spec_plan() == old(self).spec_plan(),
            input@.len() as int % old(self).spec_plan().options().channels as int != 0 ==> r
                == Err::<Vec<Vec<Vec<(u8, u8)>>>, DsdPcmError>(DsdPcmError::InvalidInputLength)
                && *final(self) == *old(self),
            input@.len() as int % old(self).spec_plan().options().channels as int == 0 ==> (r
                matches Ok(outs) && converted(
                *old(self),
                *final(self),
                input@,
                old(self).capacity(input@.len() as int) as nat,
                outs@,
            ) && (old(self).spec_plan().spec_upsample_ratio() == 1 ==> forall|c: int|
                0 <= c < outs.len() ==> (#[trigger] outs[c])@.len() == (input@.len() as int
                / old(self).spec_plan().options().channels as int) / (old(
                self,
            ).spec_plan().spec_decim_ratio() / 8) as int)),
    {
        let cap = self.capacity_for(input.len());
        let r = self.planar_lookups(input, cap);
        proof {
            if input@.len() as int % old(self).spec_plan().options().channels as int == 0 {
                assert forall|c: int| 0 <= c < old(self).spec_plan().options().channels implies
                    old(self).spec_plan().spec_upsample_ratio() == 1 ==> produced_count(
                    crate::decimator::strided_len(
                        input@.len() as int,
                        c,
                        old(self).spec_plan().options().channels as int,
                    ),
                    (old(self).spec_plan().spec_decim_ratio() / 8) as nat,
                    old(self).capacity(input@.len() as int) as nat,
                ) == (input@.len() as int / old(self).spec_plan().options().channels as int) / (
                old(self).spec_plan().spec_decim_ratio() / 8) as int by {
                    if old(self).spec_plan().spec_upsample_ratio() == 1 {
                        old(self).lemma_capacity_frames(input@.len() as int, c);
                    }
                }
            }
        }
        r
    }

    /// Direct conversion with buffers sized by the plan's
    /// `max_output_frames`, with the same frame counts as the planar one.
    pub fn convert_interleaved_direct(&mut self, input: &[u8]) -> (r: Result<
        Vec<Vec<Vec<(u8, u8)>>>,
        DsdPcmError,
    >)
        requires
            old(self).wf(),
            (input@.len() as int / old(self).spec_plan().options().channels as int) * 8
                <= usize::MAX,
            old(self).capacity(input@.len() as int) <= usize::MAX,
        ensures
            final(self).wf(),
            final(self).spec_plan() == old(self).spec_plan(),
            input@.len() as int % old(self).spec_plan().options().channels as int != 0 ==> r
                == Err::<Vec<Vec<Vec<(u8, u8)>>>, DsdPcmError>(DsdPcmError::InvalidInputLength)
                && *final(self) == *old(self),
            input@.len() as int % old(self).spec_plan().options().channels as int == 0 ==> (r
                matches Ok(outs) && converted(
                *old(self),
                *final(self),
                input@,
                old(self).capacity(input@.len() as int) as nat,
                outs@,
            ) && (old(self).spec_plan().spec_upsample_ratio() == 1 ==> forall|c: int|
                0 <= c < outs.len() ==> (#[trigger] outs[c])@.len() == (input@.len() as int
                / old(self).spec_plan().options().channels as int) / (old(
                self,
            ).spec_plan().spec_decim_ratio() / 8) as int)),
    {
        let cap = self.capacity_for(input.len());
        let r = self.direct_lookups(input, cap);
        proof {
            if input@.len() as int % old(self).spec_plan().options().channels as int == 0 {
                assert forall|c: int| 0 <= c < old(self).spec_plan().options().channels implies
                    old(self).spec_plan().spec_upsample_ratio() == 1 ==> produced_count(
                    crate::decimator::strided_len(
                        input@.len() as int,
                        c,
                        old(self).spec_plan().options().channels as int,
                    ),
                    (old(self).spec_plan().spec_decim_ratio() / 8) as nat,
                    old(self).capacity(input@.len() as int) as nat,
                ) == (input@.len() as int / old(self).spec_plan().options().channels as int) / (
                old(self).spec_plan().spec_decim_ratio() / 8) as int by {
                    if old(self).spec_plan().spec_upsample_ratio() == 1 {
                        old(self).lemma_capacity_frames(input@.len() as int, c);
                    }
                }
            }
        }
        r
    }

    /// The plan's `max_output_frames` for `n` input bytes.
    fn capacity_for(&self, n: usize) -> (r: usize)
        requires
            self.wf(),
            (n as int / self.spec_plan().options().channels as int) * 8 <= usize::MAX,
            self.capacity(n as int) <= usize::MAX,
        ensures
            r == self.capacity(n as int),
    {
        proof {
            self.plan.lemma_integer_decimation();
            let b = n as int / self.plan.options().channels as int;
            assert(b >= 0) by (nonlinear_arith)
                requires
                    n >= 0,
                    self.plan.options().channels > 0,
                    b == n as int / self.plan.options().channels as int,
            ;
            assert(b * 8 * self.plan.spec_upsample_ratio() <= b * 8) by (nonlinear_arith)
                requires
                    b >= 0,
                    self.plan.spec_upsample_ratio() <= 1,
            ;
        }
        self.plan.max_output_frames(n)
    }

    /// The plan the decimators were built for.
    pub fn plan(&self) -> (r: &ConverterPlan)
        ensures
            *r == self.spec_plan(),
    {
        &self.plan
    }

    /// Decimators for every channel of an integer-path `plan`, with a filter
    /// of `half_taps_len` right-half taps; `None` for an empty filter.
    pub fn new(plan: ConverterPlan, half_taps_len: usize) -> (r: Option<Self>)
        requires
            plan.wf(),
            plan.spec_kind() is Integer,
            half_taps_len <= usize::MAX / 16,
        ensures
            r is None <==> half_taps_len == 0,
            r matches Some(d) ==> built_from(d, plan, half_taps_len as nat),
    {
        let channels = plan.channels();
        let decim = plan.decim_ratio() as u32;
        let mut states: Vec<DecimatorState> = Vec::new();
        let mut c: usize = 0;
        while c < channels
            invariant
                c <= channels,
                channels == plan.options().channels,
                plan.wf(),
                plan.spec_kind() is Integer,
                decim == plan.spec_decim_ratio() as u32,
                half_taps_len <= usize::MAX / 16,
                states.len() == c,
                half_taps_len > 0 || c == 0,
                forall|k: int|
                    0 <= k < c ==> {
                        &&& (#[trigger] states[k]).wf()
                        &&& states[k].bytes_per_output() == plan.spec_decim_ratio() / 8
                        &&& states[k].tables() == (half_taps_len + 7) / 8
                        &&& states[k].span() == 2 * states[k].tables() - 1
                        &&& is_next_power_of_two(states[k].history_len(), 2 * states[k].tables() + 8)
                        &&& states[k].recent() == Seq::new(
                            states[k].history_len(),
                            |j: int| DSD_SILENCE,
                        )
                    },
            decreases channels - c,
        {
            proof {
                plan.lemma_integer_decimation();
            }
            match DecimatorState::new(half_taps_len, decim) {
                Some(st) => {
                    states.push(st);
                },
                None => {
                    return None;
                },
            }
            c = c + 1;
        }
        proof {
            plan.lemma_integer_decimation();
        }
        if channels > 0 && half_taps_len == 0 {
            return None;
        }
        Some(ChannelDecimators { plan, states })
    }

    /// The integer side of planar conversion: splits `input` into channels
    /// and feeds each channel's decimator its bytes, with room for `out_len`
    /// outputs per channel; an input that is not a whole number of frames is
    /// rejected and leaves every decimator as it was.
    pub fn planar_lookups(&mut self, input: &[u8], out_len: usize) -> (r: Result<
        Vec<Vec<Vec<(u8, u8)>>>,
        DsdPcmError,
    >)
        requires
            old(self).wf(),
        ensures
            final(self).wf(),
            final(self).spec_plan() == old(self).spec_plan(),
            input@.len() as int % old(self).spec_plan().options().channels as int != 0 ==> r
                == Err::<Vec<Vec<Vec<(u8, u8)>>>, DsdPcmError>(DsdPcmError::InvalidInputLength)
                && *final(self) == *old(self),
            input@.len() as int % old(self).spec_plan().options().channels as int == 0 ==> (r
                matches Ok(outs) && converted(*old(self), *final(self), input@, out_len as nat, outs@)),
    {
        proof {
            self.plan.lemma_channels_positive();
        }
        let channels = self.plan.channels();
        let order = self.plan.options_value().bit_order;
        let split = match split_channels(input, channels, order) {
            Ok(v) => v,
            Err(e) => return Err(e),
        };
        self.feed_all(input, Some(&split), out_len)
    }

    /// The integer side of direct conversion: feeds each channel's decimator
    /// straight from the interleaved `input`, with the same result as the
    /// planar path.
    pub fn direct_lookups(&mut self, input: &[u8], out_len: usize) -> (r: Result<
        Vec<Vec<Vec<(u8, u8)>>>,
        DsdPcmError,
    >)
        requires
            old(self).wf(),
        ensures
            final(self).wf(),
            final(self).spec_plan() == old(self).spec_plan(),
            input@.len() as int % old(self).spec_plan().options().channels as int != 0 ==> r
                == Err::<Vec<Vec<Vec<(u8, u8)>>>, DsdPcmError>(DsdPcmError::InvalidInputLength)
                && *final(self) == *old(self),
            input@.len() as int % old(self).spec_plan().options().channels as int == 0 ==> (r
                matches Ok(outs) && converted(*old(self), *final(self), input@, out_len as nat, outs@)),
    {
        proof {
            self.plan.lemma_integer_decimation();
        }
        let channels = self.plan.channels();
        if input.len() % channels != 0 {
            return Err(DsdPcmError::InvalidInputLength);
        }
        self.feed_all(input, None, out_len)
    }

    /// Feeds every channel, from `split` when given (the channels already
    /// split out of `input`) and else straight from `input`, and checks that
    /// all channels produced the same number of outputs.
    fn feed_all(&mut self, input: &[u8], split: Option<&Vec<Vec<u8>>>, out_len: usize) -> (r:
        Result<Vec<Vec<Vec<(u8, u8)>>>, DsdPcmError>)
        requires
            old(self).wf(),
            input@.len() as int % old(self).spec_plan().options().channels as int == 0,
            split matches Some(v) ==> {
                &&& v.len() == old(self).spec_plan().options().channels
                &&& forall|c: int|
                    0 <= c < v.len() ==> (#[trigger] v[c])@ == channel_stream(
                        old(self).spec_plan(),
                        input@,
                        c,
                    )
            },
        ensures
            final(self).wf(),
            final(self).spec_plan() == old(self).spec_plan(),
            r matches Ok(outs) && outs.len() == old(self).spec_plan().options().channels
                && forall|c: int|
                0 <= c < outs.len() ==> fed(
                    old(self).channel(c),
                    final(self).channel(c),
                    channel_stream(old(self).spec_plan(), input@, c),
                    out_len as nat,
                    (#[trigger] outs[c])@,
                ),
    {
        proof {
            self.plan.lemma_channels_positive();
        }
        let ghost old_states = self.states@;
        let ghost plan = self.plan;
        let channels = self.plan.channels();
        let rev = self.plan.options_value().bit_order == DsdBitOrder::MsbFirst;
        let ghost bpo = plan.spec_decim_ratio() / 8;
        let ghost per_channel = input@.len() as int / channels as int;
        let mut pending: Vec<DecimatorState> = Vec::new();
        std::mem::swap(&mut pending, &mut self.states);
        let mut done: Vec<DecimatorState> = Vec::new();
        let mut outs: Vec<Vec<Vec<(u8, u8)>>> = Vec::new();
        let mut produced: Option<usize> = None;
        let mut c: usize = 0;
        while c < channels
            invariant
                plan == self.plan,
                plan.wf(),
                plan.spec_kind() is Integer,
                channels == plan.options().channels,
                channels > 0,
                rev == (plan.options().bit_order == DsdBitOrder::MsbFirst),
                bpo == plan.spec_decim_ratio() / 8,
                input@.len() as int % channels as int == 0,
                per_channel == input@.len() as int / channels as int,
                old_states.len() == channels,
                forall|k: int|
                    0 <= k < channels ==> {
                        &&& (#[trigger] old_states[k]).wf()
                        &&& old_states[k].bytes_per_output() == bpo
                    },
                split matches Some(v) ==> {
                    &&& v.len() == channels
                    &&& forall|k: int|
                        0 <= k < v.len() ==> (#[trigger] v[k])@ == channel_stream(
                            plan,
                            input@,
                            k,
                        )
                },
                c <= channels,
                pending@ == old_states.subrange(c as int, channels as int),
                done.len() == c,
                outs.len() == c,
                forall|k: int|
                    0 <= k < c ==> fed(
                        old_states[k],
                        #[trigger] done[k],
                        channel_stream(plan, input@, k),
                        out_len as nat,
                        outs[k]@,
                    ),
                c == 0 <==> produced is None,
                produced matches Some(e) ==> e == produced_count(per_channel as nat, bpo as nat, out_len as nat),
            decreases channels - c,
        {
            let mut st = pending.remove(0);
            assert(st == old_states[c as int]);
            proof {
                lemma_channel_len(input@.len() as int, c as int, channels as int);
            }
            let o = match split {
                Some(v) => st.process_bytes(v[c].as_slice(), out_len),
                None => st.process_interleaved_bytes(input, c, channels, rev, out_len),
            };
            assert(o.len() == produced_count(per_channel as nat, bpo as nat, out_len as nat));
            match produced {
                Some(expected) => {
                    if o.len() != expected {
                        return Err(DsdPcmError::InvalidInputLength);
                    }
                },
                None => {
                    produced = Some(o.len());
                },
            }
            done.push(st);
            outs.push(o);
            c = c + 1;
        }
        self.states = done;
        assert forall|k: int| 0 <= k < self.states.len() implies {
            &&& (#[trigger] self.states[k]).wf()
            &&& self.states[k].bytes_per_output() == plan.spec_decim_ratio() / 8
        } by {
            assert(fed(
                old_states[k],
                done[k],
                channel_stream(plan, input@, k),
                out_len as nat,
                outs[k]@,
            ));
        }
        Ok(outs)
    }
}

} // verus!
