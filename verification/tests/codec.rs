use rdsd2pcm::buffer::{DsdBitOrder, DsdPcmError, DsdPcmOptions, FilterType};
use rdsd2pcm::codec::{
    decoded_frame_len, default_output_sample_rate, dsd_converter_plan, dsd_decoder_options, dst_default_output_sample_rate,
    dst_pcm_options, dst_stream_config, packet_input_bytes, DecoderSetupError,
};
use rdsd2pcm::dst::{DstDecodeError, DstDsdDecoder};

#[test]
fn default_output_rates() {
    for f in [default_output_sample_rate, dst_default_output_sample_rate] {
        assert_eq!(f(2_822_400), 176_400);
        assert_eq!(f(5_644_800), 176_400);
        assert_eq!(f(11_289_600), 176_400);
        assert_eq!(f(22_579_200), 352_800);
        assert_eq!(f(44_100), 176_400);
    }
}

#[test]
fn dsd_decoder_options_for_sacd_stream() {
    let o = dsd_decoder_options(true, Some(2), Some(2_822_400)).unwrap();
    assert_eq!(o.input_sample_rate, 2_822_400);
    assert_eq!(o.output_sample_rate, 176_400);
    assert_eq!(o.channels, 2);
    assert_eq!(o.filter_type, FilterType::Equiripple);
    assert_eq!(o.bit_order, DsdBitOrder::MsbFirst);
    let o = dsd_decoder_options(true, Some(6), None).unwrap();
    assert_eq!(o.input_sample_rate, 2_822_400);
    let o = dsd_decoder_options(true, Some(1), Some(22_579_200)).unwrap();
    assert_eq!(o.output_sample_rate, 352_800);
}

#[test]
fn dsd_decoder_setup_errors() {
    assert_eq!(dsd_decoder_options(false, Some(2), None).unwrap_err(), DecoderSetupError::CodecMismatch);
    assert_eq!(dsd_decoder_options(true, None, None).unwrap_err(), DecoderSetupError::MissingChannelCount);
    assert_eq!(dsd_decoder_options(true, Some(0), None).unwrap_err(), DecoderSetupError::ZeroChannelCount);
    assert_eq!(dst_stream_config(false, Some(2), None).unwrap_err(), DecoderSetupError::CodecMismatch);
    assert_eq!(dst_stream_config(true, None, None).unwrap_err(), DecoderSetupError::MissingChannelCount);
    assert_eq!(dst_stream_config(true, Some(0), None).unwrap_err(), DecoderSetupError::ZeroChannelCount);
}

#[test]
fn packet_sizes() {
    assert_eq!(packet_input_bytes(Some(4704), 2), Some(9408));
    assert_eq!(packet_input_bytes(None, 2), Some(9408));
    assert_eq!(packet_input_bytes(Some(10), 6), Some(60));
    assert_eq!(packet_input_bytes(Some(u64::MAX / 2), 4), None);
}

#[test]
fn dst_decoder_geometry() {
    let (channels, rate) = dst_stream_config(true, Some(2), None).unwrap();
    assert_eq!((channels, rate), (2, 2_822_400));
    let d = DstDsdDecoder::new(channels, rate).unwrap();
    assert_eq!(d.channel_count(), 2);
    assert_eq!(d.sample_rate(), 2_822_400);
    assert_eq!(d.dsd_frame_bytes(), 9408);
    let o = dst_pcm_options(&d);
    assert_eq!(o.input_sample_rate, 2_822_400);
    assert_eq!(o.output_sample_rate, 176_400);
    assert_eq!(o.channels, 2);
    let d = DstDsdDecoder::new(6, 11_289_600).unwrap();
    assert_eq!(d.dsd_frame_bytes(), 6 * 18_816);
}

#[test]
fn dst_decoder_errors() {
    assert_eq!(DstDsdDecoder::new(0, 2_822_400).err(), Some(DstDecodeError::InvalidChannelCount(0)));
    assert_eq!(DstDsdDecoder::new(7, 2_822_400).err(), Some(DstDecodeError::InvalidChannelCount(7)));
    assert_eq!(DstDsdDecoder::new(2, 44_100).err(), Some(DstDecodeError::UnsupportedSampleRate(44_100)));
}

#[test]
fn decoded_frame_alignment() {
    assert_eq!(decoded_frame_len(9408, 9408, 2), Some(9408));
    assert_eq!(decoded_frame_len(9407, 9408, 2), None);
    assert_eq!(decoded_frame_len(9410, 9408, 2), None);
    assert_eq!(decoded_frame_len(0, 9408, 2), Some(0));
}

#[test]
fn decode_error_keeps_converter_error_as_source() {
    let opts = dsd_decoder_options(true, Some(2), Some(44_100)).unwrap();
    let err = dsd_converter_plan(opts, 16, 1).unwrap_err();
    assert_eq!(err.source, DsdPcmError::UnsupportedInputRate(44_100));
    let err = dsd_converter_plan(DsdPcmOptions::sacd(2), 12, 1).unwrap_err();
    assert_eq!(
        err.source,
        DsdPcmError::UnsupportedConversion {
            input_sample_rate: 2_822_400,
            output_sample_rate: 176_400,
            filter_type: FilterType::Equiripple,
        }
    );
    assert!(dsd_converter_plan(DsdPcmOptions::sacd(2), 16, 1).is_ok());
}
