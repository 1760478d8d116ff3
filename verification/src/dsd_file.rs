//! DSD container formats and what a DSD file's headers say about its audio.
use vstd::prelude::*;

verus! {

/// Container format of a DSD file.
#[derive(Debug, Clone, Copy, PartialEq, Eq, Structural)]
pub enum DsdFileFormat {
    Dsdiff,
    Dsf,
    Raw,
}

/// Properties of a file format.
pub trait FormatExtensions {
    /// Whether the format wraps the audio in a container with headers.
    fn is_container(&self) -> bool;
}

impl FormatExtensions for DsdFileFormat {
    fn is_container(&self) -> (r: bool)
        ensures
            r <==> (*self == DsdFileFormat::Dsf || *self == DsdFileFormat::Dsdiff),
    {
        match self {
            DsdFileFormat::Dsf | DsdFileFormat::Dsdiff => true,
            DsdFileFormat::Raw => false,
        }
    }
}

/// An ASCII byte in lower case; other bytes unchanged.
pub open spec fn ascii_lower(b: u8) -> u8 {
    if 65 <= b <= 90 {
        (b + 32) as u8
    } else {
        b
    }
}

/// Whether `ext`, with ASCII letters lowered, is `lower`.
pub open spec fn matches_ignoring_case(ext: Seq<u8>, lower: Seq<u8>) -> bool {
    &&& ext.len() == lower.len()
    &&& forall|i: int| 0 <= i < ext.len() ==> ascii_lower(#[trigger] ext[i]) == lower[i]
}

/// The format a file extension names: `dsf` and `dff` in any letter case,
/// raw DSD for anything else or no extension.
pub open spec fn spec_format_of_extension(ext: Option<Seq<u8>>) -> DsdFileFormat {
    match ext {
        Some(e) => if matches_ignoring_case(e, seq![100u8, 115u8, 102u8]) {
            DsdFileFormat::Dsf
        } else if matches_ignoring_case(e, seq![100u8, 102u8, 102u8]) {
            DsdFileFormat::Dsdiff
        } else {
            DsdFileFormat::Raw
        },
        None => DsdFileFormat::Raw,
    }
}

/// `dsf` in any letter case names a DSF file, `dff` in any letter case a
/// DSDIFF file; an extension of any other length, or none, names raw DSD.
pub proof fn lemma_extension_names(e: Seq<u8>)
    ensures
        spec_format_of_extension(Some(seq![0x64u8, 0x73u8, 0x66u8])) == DsdFileFormat::Dsf,
        spec_format_of_extension(Some(seq![0x44u8, 0x53u8, 0x46u8])) == DsdFileFormat::Dsf,
        spec_format_of_extension(Some(seq![0x64u8, 0x66u8, 0x66u8])) == DsdFileFormat::Dsdiff,
        spec_format_of_extension(Some(seq![0x44u8, 0x46u8, 0x46u8])) == DsdFileFormat::Dsdiff,
        spec_format_of_extension(None) == DsdFileFormat::Raw,
        e.len() != 3 ==> spec_format_of_extension(Some(e)) == DsdFileFormat::Raw,
{
    let l1 = seq![0x64u8, 0x73u8, 0x66u8];
    let u1 = seq![0x44u8, 0x53u8, 0x46u8];
    let l2 = seq![0x64u8, 0x66u8, 0x66u8];
    let u2 = seq![0x44u8, 0x46u8, 0x46u8];
    assert(l1[0] == 0x64u8 && l1[1] == 0x73u8 && l1[2] == 0x66u8);
    assert(u1[0] == 0x44u8 && u1[1] == 0x53u8 && u1[2] == 0x46u8);
    assert(l2[0] == 0x64u8 && l2[1] == 0x66u8 && l2[2] == 0x66u8);
    assert(u2[0] == 0x44u8 && u2[1] == 0x46u8 && u2[2] == 0x46u8);
    assert(matches_ignoring_case(u2, seq![100u8, 102u8, 102u8]));
    assert(!matches_ignoring_case(u2, seq![100u8, 115u8, 102u8])) by {
        assert(ascii_lower(u2[1]) != 115u8);
    }
    assert(!matches_ignoring_case(l2, seq![100u8, 115u8, 102u8])) by {
        assert(ascii_lower(l2[1]) != 115u8);
    }
}

/// Whether `ext` spells the lower-case ASCII word `lower` in any letter case.
fn ext_is(ext: &[u8], lower: &[u8]) -> (r: bool)
    ensures
        r == matches_ignoring_case(ext@, lower@),
{
    if ext.len() != lower.len() {
        return false;
    }
    let mut i: usize = 0;
    while i < ext.len()
        invariant
            ext.len() == lower.len(),
            i <= ext.len(),
            forall|j: int| 0 <= j < i ==> ascii_lower(#[trigger] ext@[j]) == lower@[j],
        decreases ext.len() - i,
    {
        let b = ext[i];
        let l = if 65 <= b && b <= 90 {
            b + 32
        } else {
            b
        };
        if l != lower[i] {
            return false;
        }
        i = i + 1;
    }
    true
}

impl DsdFileFormat {
    /// The format named by a file extension (its bytes, without the dot).
    pub fn from_extension(ext: Option<&[u8]>) -> (r: DsdFileFormat)
        ensures
            r == spec_format_of_extension(
                match ext {
                    Some(e) => Some(e@),
                    None => None,
                },
            ),
    {
        match ext {
            Some(e) => {
                let dsf: [u8; 3] = [100u8, 115u8, 102u8];
                let dff: [u8; 3] = [100u8, 102u8, 102u8];
                assert(dsf@ =~= seq![100u8, 115u8, 102u8]);
                assert(dff@ =~= seq![100u8, 102u8, 102u8]);
                if ext_is(e, dsf.as_slice()) {
                    DsdFileFormat::Dsf
                } else if ext_is(e, dff.as_slice()) {
                    DsdFileFormat::Dsdiff
                } else {
                    DsdFileFormat::Raw
                }
            },
            None => DsdFileFormat::Raw,
        }
    }
}

/// Base DSD rate.
pub const DSD_64_RATE: u32 = 2822400u32;

/// Bytes per channel block in DSDIFF audio data.
pub const DFF_BLOCK_SIZE: u32 = 1u32;

/// Bytes per channel block in DSF audio data.
pub const DSF_BLOCK_SIZE: u32 = 4096u32;

/// What a DSD file's headers say about its audio: where it starts, how long
/// it is, and its layout where the container records one.
#[derive(Debug, Clone, Copy)]
pub struct DsdFileInfo {
    audio_length: u64,
    audio_pos: u64,
    channel_count: Option<usize>,
    is_lsb: Option<bool>,
    block_size: Option<u32>,
    sample_rate: Option<u32>,
    container_format: DsdFileFormat,
}

impl DsdFileInfo {
    pub closed spec fn spec_audio_length(&self) -> u64 {
        self.audio_length
    }

    pub closed spec fn spec_audio_pos(&self) -> u64 {
        self.audio_pos
    }

    pub closed spec fn spec_channel_count(&self) -> Option<usize> {
        self.channel_count
    }

    pub closed spec fn spec_is_lsb(&self) -> Option<bool> {
        self.is_lsb
    }

    pub closed spec fn spec_block_size(&self) -> Option<u32> {
        self.block_size
    }

    pub closed spec fn spec_sample_rate(&self) -> Option<u32> {
        self.sample_rate
    }

    pub closed spec fn spec_container_format(&self) -> DsdFileFormat {
        self.container_format
    }

    /// From a DSF `fmt ` chunk: the audio holds `sample_count / 8` bytes per
    /// channel, is LSB-first exactly when samples are stored one bit each,
    /// comes in 4096-byte blocks, and starts at `sample_data_offset`.
    pub fn from_dsf(
        sampling_frequency: u32,
        channel_num: u32,
        bits_per_sample: u32,
        sample_count: u64,
        sample_data_offset: u64,
    ) -> (r: Self)
        requires
            (sample_count / 8) * channel_num <= u64::MAX,
        ensures
            r.spec_sample_rate() == Some(sampling_frequency),
            r.spec_container_format() == DsdFileFormat::Dsf,
            r.spec_channel_count() == Some(channel_num as usize),
            r.spec_is_lsb() == Some(bits_per_sample == 1),
            r.spec_block_size() == Some(DSF_BLOCK_SIZE),
            r.spec_audio_length() == (sample_count / 8) * channel_num,
            r.spec_audio_pos() == sample_data_offset,
    {
        DsdFileInfo {
            sample_rate: Some(sampling_frequency),
            container_format: DsdFileFormat::Dsf,
            channel_count: Some(channel_num as usize),
            is_lsb: Some(bits_per_sample == 1),
            block_size: Some(DSF_BLOCK_SIZE),
            audio_length: sample_count / 8 * (channel_num as u64),
            audio_pos: sample_data_offset,
        }
    }

    /// From DSDIFF headers: MSB-first audio in one-byte blocks.
    pub fn from_dff(sample_rate: u32, num_channels: usize, audio_length: u64, dsd_data_offset: u64) -> (r:
        Self)
        ensures
            r.spec_sample_rate() == Some(sample_rate),
            r.spec_container_format() == DsdFileFormat::Dsdiff,
            r.spec_channel_count() == Some(num_channels),
            r.spec_is_lsb() == Some(false),
            r.spec_block_size() == Some(DFF_BLOCK_SIZE),
            r.spec_audio_length() == audio_length,
            r.spec_audio_pos() == dsd_data_offset,
    {
        DsdFileInfo {
            sample_rate: Some(sample_rate),
            container_format: DsdFileFormat::Dsdiff,
            channel_count: Some(num_channels),
            is_lsb: Some(false),
            block_size: Some(DFF_BLOCK_SIZE),
            audio_length,
            audio_pos: dsd_data_offset,
        }
    }

    /// For a headerless file of `file_len` bytes: all of it is audio and
    /// nothing about its layout is known.
    pub fn raw(file_len: u64) -> (r: Self)
        ensures
            r.spec_sample_rate() is None,
            r.spec_container_format() == DsdFileFormat::Raw,
            r.spec_channel_count() is None,
            r.spec_is_lsb() is None,
            r.spec_block_size() is None,
            r.spec_audio_length() == file_len,
            r.spec_audio_pos() == 0,
    {
        DsdFileInfo {
            sample_rate: None,
            container_format: DsdFileFormat::Raw,
            channel_count: None,
            is_lsb: None,
            block_size: None,
            audio_length: file_len,
            audio_pos: 0,
        }
    }

    pub fn audio_length(&self) -> (r: u64)
        ensures
            r == self.spec_audio_length(),
    {
        self.audio_length
    }

    pub fn audio_pos(&self) -> (r: u64)
        ensures
            r == self.spec_audio_pos(),
    {
        self.audio_pos
    }

    pub fn channel_count(&self) -> (r: Option<usize>)
        ensures
            r == self.spec_channel_count(),
    {
        self.channel_count
    }

    pub fn is_lsb(&self) -> (r: Option<bool>)
        ensures
            r == self.spec_is_lsb(),
    {
        self.is_lsb
    }

    pub fn block_size(&self) -> (r: Option<u32>)
        ensures
            r == self.spec_block_size(),
    {
        self.block_size
    }

    pub fn sample_rate(&self) -> (r: Option<u32>)
        ensures
            r == self.spec_sample_rate(),
    {
        self.sample_rate
    }

    pub fn container_format(&self) -> (r: DsdFileFormat)
        ensures
            r == self.spec_container_format(),
    {
        self.container_format
    }
}

} // verus!
