use rdsd2pcm::dsd_file::{DsdFileFormat, DsdFileInfo, FormatExtensions, DFF_BLOCK_SIZE, DSF_BLOCK_SIZE};

#[test]
fn format_from_extension() {
    assert_eq!(DsdFileFormat::from_extension(Some(&b"dsf"[..])), DsdFileFormat::Dsf);
    assert_eq!(DsdFileFormat::from_extension(Some(&b"DSF"[..])), DsdFileFormat::Dsf);
    assert_eq!(DsdFileFormat::from_extension(Some(&b"DfF"[..])), DsdFileFormat::Dsdiff);
    assert_eq!(DsdFileFormat::from_extension(Some(&b"dsd"[..])), DsdFileFormat::Raw);
    assert_eq!(DsdFileFormat::from_extension(Some(&b"dsff"[..])), DsdFileFormat::Raw);
    assert_eq!(DsdFileFormat::from_extension(Some(&b""[..])), DsdFileFormat::Raw);
    assert_eq!(DsdFileFormat::from_extension(None), DsdFileFormat::Raw);
}

#[test]
fn containers() {
    assert!(DsdFileFormat::Dsf.is_container());
    assert!(DsdFileFormat::Dsdiff.is_container());
    assert!(!DsdFileFormat::Raw.is_container());
}

#[test]
fn file_info_from_headers() {
    let dsf = DsdFileInfo::from_dsf(2_822_400, 2, 1, 2_822_400 * 10, 92);
    assert_eq!(dsf.audio_length(), 2_822_400 * 10 / 8 * 2);
    assert_eq!(dsf.audio_pos(), 92);
    assert_eq!(dsf.channel_count(), Some(2));
    assert_eq!(dsf.is_lsb(), Some(true));
    assert_eq!(dsf.block_size(), Some(DSF_BLOCK_SIZE));
    assert_eq!(dsf.sample_rate(), Some(2_822_400));
    assert_eq!(dsf.container_format(), DsdFileFormat::Dsf);
    let dsf = DsdFileInfo::from_dsf(5_644_800, 6, 8, 17, 92);
    assert_eq!(dsf.is_lsb(), Some(false));
    assert_eq!(dsf.audio_length(), 12);

    let dff = DsdFileInfo::from_dff(2_822_400, 2, 1000, 256);
    assert_eq!(dff.is_lsb(), Some(false));
    assert_eq!(dff.block_size(), Some(DFF_BLOCK_SIZE));
    assert_eq!(dff.audio_length(), 1000);
    assert_eq!(dff.audio_pos(), 256);
    assert_eq!(dff.container_format(), DsdFileFormat::Dsdiff);

    let raw = DsdFileInfo::raw(4096);
    assert_eq!(raw.audio_length(), 4096);
    assert_eq!(raw.audio_pos(), 0);
    assert_eq!(raw.channel_count(), None);
    assert_eq!(raw.sample_rate(), None);
    assert_eq!(raw.is_lsb(), None);
    assert_eq!(raw.block_size(), None);
    assert_eq!(raw.container_format(), DsdFileFormat::Raw);
}
