use rdsd2pcm::buffer::{
    dsd_rate_multiplier, pcm24_le_bytes, split_channels, ConverterPlan, DsdBitOrder, DsdPcmError, DsdPcmOptions,
    DsdRate, FilterType, PcmOutputEncoding, ProcessorKind,
};
use rdsd2pcm::converter::ChannelDecimators;
use rdsd2pcm::decimator::PrecalcTaps;

#[test]
fn sacd_options() {
    let o = DsdPcmOptions::sacd(2);
    assert_eq!(o.input_sample_rate, 2_822_400);
    assert_eq!(o.output_sample_rate, 176_400);
    assert_eq!(o.channels, 2);
    assert_eq!(o.filter_type, FilterType::Equiripple);
    assert_eq!(o.bit_order, DsdBitOrder::MsbFirst);
}

#[test]
fn bytes_per_sample_of_each_encoding() {
    assert_eq!(PcmOutputEncoding::Pcm24Le.bytes_per_sample(), 3);
    assert_eq!(PcmOutputEncoding::Float32Le.bytes_per_sample(), std::mem::size_of::<f32>());
}

#[test]
fn dsd_rate_multipliers() {
    assert_eq!(dsd_rate_multiplier(2_822_400), Ok(1));
    assert_eq!(dsd_rate_multiplier(5_644_800), Ok(2));
    assert_eq!(dsd_rate_multiplier(11_289_600), Ok(4));
    assert_eq!(dsd_rate_multiplier(22_579_200), Ok(8));
    assert_eq!(dsd_rate_multiplier(8_467_200), Err(DsdPcmError::UnsupportedInputRate(8_467_200)));
    assert_eq!(dsd_rate_multiplier(45_158_400), Err(DsdPcmError::UnsupportedInputRate(45_158_400)));
    assert_eq!(dsd_rate_multiplier(44_100), Err(DsdPcmError::UnsupportedInputRate(44_100)));
    assert_eq!(dsd_rate_multiplier(0), Err(DsdPcmError::UnsupportedInputRate(0)));
    assert_eq!(DsdRate::from_multiplier(3), None);
    assert_eq!(DsdRate::from_multiplier(8).map(|r| r.multiplier()), Some(8));
}

#[test]
fn plan_errors() {
    assert_eq!(
        ConverterPlan::new(DsdPcmOptions::sacd(0), 16, 1).err(),
        Some(DsdPcmError::InvalidChannelCount)
    );
    let opts = DsdPcmOptions { input_sample_rate: 44_100, ..DsdPcmOptions::sacd(2) };
    assert_eq!(
        ConverterPlan::new(opts, 16, 1).err(),
        Some(DsdPcmError::UnsupportedInputRate(44_100))
    );
    let opts = DsdPcmOptions { filter_type: FilterType::Dsd2Pcm, ..DsdPcmOptions::sacd(2) };
    assert_eq!(
        ConverterPlan::new(opts, 16, 1).err(),
        Some(DsdPcmError::UnsupportedConversion {
            input_sample_rate: 2_822_400,
            output_sample_rate: 176_400,
            filter_type: FilterType::Dsd2Pcm,
        })
    );
}

#[test]
fn plan_paths() {
    let plan = ConverterPlan::new(DsdPcmOptions::sacd(2), 16, 1).unwrap();
    assert_eq!(plan.kind(), ProcessorKind::Integer(PrecalcTaps::Dsd64Eq16To1));
    assert_eq!(plan.input_sample_rate(), 2_822_400);
    assert_eq!(plan.output_sample_rate(), 176_400);
    assert_eq!(plan.channels(), 2);
    let opts = DsdPcmOptions { output_sample_rate: 96_000, ..DsdPcmOptions::sacd(2) };
    let plan = ConverterPlan::new(opts, 147, 5).unwrap();
    assert_eq!(plan.kind(), ProcessorKind::Rational);
}

#[test]
fn max_output_frames_values() {
    let plan = ConverterPlan::new(DsdPcmOptions::sacd(2), 16, 1).unwrap();
    assert_eq!(plan.max_output_frames(2 * 4704), 2352);
    assert_eq!(plan.max_output_frames(2 * 4705), 2353);
    assert_eq!(plan.max_output_frames(0), 0);
    let opts = DsdPcmOptions { output_sample_rate: 96_000, ..DsdPcmOptions::sacd(2) };
    let plan = ConverterPlan::new(opts, 147, 5).unwrap();
    // ceil(4704 * 8 * 5 / 147) = 1280, plus 16 frames of slack.
    assert_eq!(plan.max_output_frames(2 * 4704), 1296);
    let plan = ConverterPlan::new(DsdPcmOptions::sacd(2), -16, 1).unwrap_err();
    assert_eq!(plan, DsdPcmError::UnsupportedConversion {
        input_sample_rate: 2_822_400,
        output_sample_rate: 176_400,
        filter_type: FilterType::Equiripple,
    });
}

#[test]
fn split_channels_deinterleaves() {
    let input = [0x01u8, 0x02, 0x03, 0x04, 0x05, 0x06];
    let out = split_channels(&input, 2, DsdBitOrder::LsbFirst).unwrap();
    assert_eq!(out, vec![vec![1, 3, 5], vec![2, 4, 6]]);
    let out = split_channels(&input, 3, DsdBitOrder::MsbFirst).unwrap();
    assert_eq!(out, vec![vec![0x80, 0x20], vec![0x40, 0xa0], vec![0xc0, 0x60]]);
    assert_eq!(split_channels(&input, 4, DsdBitOrder::LsbFirst), Err(DsdPcmError::InvalidInputLength));
    assert_eq!(split_channels(&[], 2, DsdBitOrder::LsbFirst), Ok(vec![vec![], vec![]]));
}

fn sacd_decimators(channels: usize) -> ChannelDecimators {
    let plan = ConverterPlan::new(DsdPcmOptions::sacd(channels), 16, 1).unwrap();
    ChannelDecimators::new(plan, 32).unwrap()
}

#[test]
fn rejects_channel_misaligned_input() {
    let mut converter = sacd_decimators(2);
    assert_eq!(
        converter.planar_lookups(&[0, 1, 2], 16).unwrap_err(),
        DsdPcmError::InvalidInputLength
    );
    assert_eq!(
        converter.direct_lookups(&[0, 1, 2], 16).unwrap_err(),
        DsdPcmError::InvalidInputLength
    );
}

#[test]
fn sacd_frame_yields_2352_outputs_per_channel() {
    let plan = ConverterPlan::new(DsdPcmOptions::sacd(2), 16, 1).unwrap();
    let cap = plan.max_output_frames(2 * 4704);
    let mut converter = ChannelDecimators::new(plan, 32).unwrap();
    let input = vec![0x69; 2 * 4704];
    let outs = converter.planar_lookups(&input, cap).unwrap();
    assert_eq!(outs.len(), 2);
    assert_eq!(outs[0].len(), 2352);
    assert_eq!(outs[1].len(), 2352);
    assert!(outs[0].iter().all(|o| o.len() == 4));
}

#[test]
fn direct_lookups_match_planar_lookups() {
    let input = (0..2 * 4704).map(|idx| (idx as u8).wrapping_mul(37)).collect::<Vec<_>>();
    let mut planar = sacd_decimators(2);
    let mut direct = sacd_decimators(2);
    let a = planar.planar_lookups(&input, 2352).unwrap();
    let b = direct.direct_lookups(&input, 2352).unwrap();
    assert_eq!(a, b);
    assert_eq!(a[0].len(), 2352);
    // Both paths leave the same history behind.
    let tail = [1u8, 2, 3, 4];
    assert_eq!(planar.planar_lookups(&tail, 8).unwrap(), direct.direct_lookups(&tail, 8).unwrap());
}

#[test]
fn direct_pcm24_frame_size() {
    let mut converter = sacd_decimators(2);
    let input = vec![0x69; 2 * 4704];
    let outs = converter.direct_lookups(&input, 2352).unwrap();
    let frames = outs[0].len();
    assert_eq!(frames, 2352);
    // Interleave one 24-bit sample per channel and frame, as the byte path
    // does; silence stands in for the filtered value.
    let mut bytes = Vec::new();
    for _frame in 0..frames {
        for _channel in 0..2 {
            bytes.extend_from_slice(&pcm24_le_bytes(0));
        }
    }
    assert!(bytes.iter().all(|&b| b == 0));
    assert_eq!(bytes.len(), frames * 2 * PcmOutputEncoding::Pcm24Le.bytes_per_sample());
    assert_eq!(bytes.len(), 2352 * 2 * 3);
}

#[test]
fn bit_orders_agree() {
    let x = (0..2 * 64).map(|i| (i as u8).wrapping_mul(19)).collect::<Vec<_>>();
    let y = x.iter().map(|b| b.reverse_bits()).collect::<Vec<_>>();
    let msb = ConverterPlan::new(DsdPcmOptions::sacd(2), 16, 1).unwrap();
    let lsb_opts = DsdPcmOptions { bit_order: DsdBitOrder::LsbFirst, ..DsdPcmOptions::sacd(2) };
    let lsb = ConverterPlan::new(lsb_opts, 16, 1).unwrap();
    let mut a = ChannelDecimators::new(msb, 32).unwrap();
    let mut b = ChannelDecimators::new(lsb, 32).unwrap();
    assert_eq!(a.planar_lookups(&x, 64).unwrap(), b.planar_lookups(&y, 64).unwrap());
    assert_eq!(a.direct_lookups(&x, 64).unwrap(), b.direct_lookups(&y, 64).unwrap());
}

#[test]
fn each_channel_depends_only_on_its_lane() {
    let x = (0..3 * 40).map(|i| (i as u8).wrapping_mul(23)).collect::<Vec<_>>();
    let mut all = ChannelDecimators::new(ConverterPlan::new(DsdPcmOptions::sacd(3), 16, 1).unwrap(), 32).unwrap();
    let outs = all.planar_lookups(&x, 100).unwrap();
    for k in 0..3 {
        let lane = x.iter().skip(k).step_by(3).copied().collect::<Vec<_>>();
        let mut one =
            ChannelDecimators::new(ConverterPlan::new(DsdPcmOptions::sacd(1), 16, 1).unwrap(), 32).unwrap();
        assert_eq!(one.planar_lookups(&lane, 100).unwrap(), vec![outs[k].clone()]);
    }
}

#[test]
fn converters_built_alike_stay_in_step() {
    let inputs = [vec![0x69u8; 2 * 30], (0..2 * 17).map(|i| i as u8).collect::<Vec<_>>(), vec![0xffu8; 2 * 9]];
    let mut a = sacd_decimators(2);
    let mut b = sacd_decimators(2);
    for x in inputs.iter() {
        assert_eq!(a.planar_lookups(x, 50), b.planar_lookups(x, 50));
        assert_eq!(a.direct_lookups(x, 50), b.direct_lookups(x, 50));
    }
    assert_eq!(a.planar_lookups(&[1, 2, 3], 50), b.planar_lookups(&[1, 2, 3], 50));
}

#[test]
fn capacity_is_monotone() {
    let plan = ConverterPlan::new(DsdPcmOptions::sacd(2), 16, 1).unwrap();
    let mut last = 0;
    for n in 0..200 {
        let cap = plan.max_output_frames(n);
        assert!(cap >= last);
        last = cap;
    }
    assert!(plan.max_output_frames(9408) >= 2352);
}

#[test]
fn empty_filter_gives_no_decimators() {
    let plan = ConverterPlan::new(DsdPcmOptions::sacd(2), 16, 1).unwrap();
    assert!(ChannelDecimators::new(plan, 0).is_none());
}

#[test]
fn pcm24_bytes_are_low_three_little_endian_bytes() {
    for v in [0i32, 1, -1, 8_388_607, -8_388_608, 0x12_3456, -2] {
        assert_eq!(pcm24_le_bytes(v), [v.to_le_bytes()[0], v.to_le_bytes()[1], v.to_le_bytes()[2]]);
    }
    assert_eq!(pcm24_le_bytes(8_388_607), [0xff, 0xff, 0x7f]);
    assert_eq!(pcm24_le_bytes(-8_388_608), [0x00, 0x00, 0x80]);
}

#[test]
fn convert_with_own_capacity_yields_exact_frames() {
    let mut planar = sacd_decimators(2);
    let mut direct = sacd_decimators(2);
    let input = (0..2 * 4704).map(|idx| (idx as u8).wrapping_mul(37)).collect::<Vec<_>>();
    let a = planar.convert_interleaved(&input).unwrap();
    let b = direct.convert_interleaved_direct(&input).unwrap();
    assert_eq!(a.len(), 2);
    assert_eq!(a[0].len(), 2352);
    assert_eq!(a[1].len(), 2352);
    assert_eq!(a, b);
    // 4705 bytes per channel: 2352 whole outputs, the partial one dropped.
    let input = vec![0x69u8; 2 * 4705];
    let a = planar.convert_interleaved(&input).unwrap();
    assert_eq!(a[0].len(), 2352);
    assert_eq!(planar.convert_interleaved(&[1, 2, 3]).unwrap_err(), DsdPcmError::InvalidInputLength);
}
