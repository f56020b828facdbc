//! Pure decoders for the RIFF/AVI binary layout.
//!
//! Every decoder is a pure function from a byte window to one of three
//! outcomes: `Success(value, consumed)`, `Malformed` (the bytes cannot be
//! this record), or `Insufficient` (more bytes are needed; retrying on a
//! longer window is safe). All multi-byte integers are little-endian.

use vstd::prelude::*;

verus! {

broadcast use vstd::slice::axiom_spec_len;

/// Outcome of one decode attempt.
#[derive(Debug, Clone, PartialEq)]
pub enum Decoded<T> {
    /// The record and how many bytes of the window it took.
    Success(T, usize),
    /// The window cannot begin with this record.
    Malformed,
    /// The window is too short to decide; retry once it has grown.
    Insufficient,
}

/// Container header: a 4-byte magic, a declared file size, and a type tag
/// constrained by the magic. Four-byte tags are carried as their
/// little-endian `u32` reading.
#[derive(Debug, Clone, PartialEq)]
pub struct Header {
    pub magic1: u32,
    pub file_size: u32,
    pub magic2: u32,
}

/// One chunk header: 4 raw tag bytes (as their little-endian `u32` reading)
/// and the declared payload size, which excludes the 8 header bytes.
#[derive(Debug, Clone, PartialEq)]
pub struct BlockHeader {
    pub tag: u32,
    pub size: u32,
}

// Four-byte tags, read as little-endian u32 values.
pub const FCC_RIFF: u32 = 0x4646_4952;
pub const FCC_ON2: u32 = 0x2032_4E4F;
pub const FCC_AVI: u32 = 0x2049_5641;
pub const FCC_AVIX: u32 = 0x5849_5641;
pub const FCC_AVI19: u32 = 0x1949_5641;
pub const FCC_AMV: u32 = 0x2056_4D41;
pub const FCC_ON2F: u32 = 0x6632_4E4F;
pub const FCC_LIST: u32 = 0x5453_494C;
pub const FCC_INFO: u32 = 0x4F46_4E49;
pub const FCC_NCDT: u32 = 0x7464_636E;
pub const FCC_MOVI: u32 = 0x6976_6F6D;
pub const FCC_HDRL: u32 = 0x6C72_6468;
pub const FCC_IDIT: u32 = 0x5449_4449;
pub const FCC_DMLH: u32 = 0x686C_6D64;
pub const FCC_AMVH: u32 = 0x6876_6D61;
pub const FCC_AVIH: u32 = 0x6869_7661;
pub const FCC_STRH: u32 = 0x6872_7473;
pub const FCC_STRF: u32 = 0x6672_7473;
pub const FCC_INDX: u32 = 0x7864_6E69;
pub const FCC_VPRP: u32 = 0x7072_7076;
pub const FCC_STRN: u32 = 0x6E72_7473;
pub const FCC_VIDS: u32 = 0x7364_6976;
pub const FCC_AUDS: u32 = 0x7364_7561;
pub const FCC_TXTS: u32 = 0x7374_7874;
pub const FCC_JUNK: u32 = 0x4B4E_554A;

/// The little-endian reading of the four bytes of `s` starting at `i`.
pub open spec fn le32_at(s: Seq<u8>, i: int) -> int
    recommends
        0 <= i,
        i + 4 <= s.len(),
{
    s[i] + 0x100 * s[i + 1] + 0x1_0000 * s[i + 2] + 0x100_0000 * s[i + 3]
}

/// The little-endian reading of the two bytes of `s` starting at `i`.
pub open spec fn le16_at(s: Seq<u8>, i: int) -> int
    recommends
        0 <= i,
        i + 2 <= s.len(),
{
    s[i] + 0x100 * s[i + 1]
}

/// Two's-complement reinterpretation of a 16-bit unsigned reading.
pub open spec fn sign16(v: int) -> int {
    if v >= 0x8000 {
        v - 0x1_0000
    } else {
        v
    }
}

/// Two's-complement reinterpretation of a 32-bit unsigned reading.
pub open spec fn sign32(v: int) -> int {
    if v >= 0x8000_0000 {
        v - 0x1_0000_0000
    } else {
        v
    }
}

/// Reads the little-endian `u32` at offset `i`.
pub fn le_u32_at(input: &[u8], i: usize) -> (r: u32)
    requires
        i + 4 <= input@.len(),
    ensures
        r == le32_at(input@, i as int),
{
    proof {
        assert(vstd::slice::spec_slice_len(input) == input@.len());
    }
    let b0 = *vstd::slice::slice_index_get(input, i) as u32;
    let b1 = *vstd::slice::slice_index_get(input, i + 1) as u32;
    let b2 = *vstd::slice::slice_index_get(input, i + 2) as u32;
    let b3 = *vstd::slice::slice_index_get(input, i + 3) as u32;
    b0 + 0x100 * b1 + 0x1_0000 * b2 + 0x100_0000 * b3
}

/// Reads the little-endian `u16` at offset `i`.
pub fn le_u16_at(input: &[u8], i: usize) -> (r: u16)
    requires
        i + 2 <= input@.len(),
    ensures
        r == le16_at(input@, i as int),
{
    proof {
        assert(vstd::slice::spec_slice_len(input) == input@.len());
    }
    let b0 = *vstd::slice::slice_index_get(input, i) as u16;
    let b1 = *vstd::slice::slice_index_get(input, i + 1) as u16;
    b0 + 0x100 * b1
}

/// Reads the little-endian `i16` at offset `i`.
pub fn le_i16_at(input: &[u8], i: usize) -> (r: i16)
    requires
        i + 2 <= input@.len(),
    ensures
        r == sign16(le16_at(input@, i as int)),
{
    let v = le_u16_at(input, i);
    if v >= 0x8000 {
        let w = v - 0x8000;
        (-0x8000i16 + (w as i16)) as i16
    } else {
        v as i16
    }
}

/// Reads the little-endian `i32` at offset `i`.
pub fn le_i32_at(input: &[u8], i: usize) -> (r: i32)
    requires
        i + 4 <= input@.len(),
    ensures
        r == sign32(le32_at(input@, i as int)),
{
    let v = le_u32_at(input, i);
    if v >= 0x8000_0000 {
        let w = v - 0x8000_0000;
        (-0x7FFF_FFFFi32 - 1) + (w as i32)
    } else {
        v as i32
    }
}

/// Whether a RIFF container may carry this type tag.
pub open spec fn riff_type_ok(t: int) -> bool {
    t == FCC_AVI || t == FCC_AVIX || t == FCC_AVI19 || t == FCC_AMV
}

/// What `header` returns on the window `s`.
pub open spec fn spec_header(s: Seq<u8>) -> Decoded<Header> {
    if s.len() < 4 {
        Decoded::Insufficient
    } else if le32_at(s, 0) == FCC_RIFF {
        if s.len() < 12 {
            Decoded::Insufficient
        } else if riff_type_ok(le32_at(s, 8)) {
            Decoded::Success(
                Header {
                    magic1: FCC_RIFF,
                    file_size: le32_at(s, 4) as u32,
                    magic2: le32_at(s, 8) as u32,
                },
                12,
            )
        } else {
            Decoded::Malformed
        }
    } else if le32_at(s, 0) == FCC_ON2 {
        if s.len() < 12 {
            Decoded::Insufficient
        } else if le32_at(s, 8) == FCC_ON2F {
            Decoded::Success(
                Header {
                    magic1: FCC_ON2,
                    file_size: le32_at(s, 4) as u32,
                    magic2: FCC_ON2F,
                },
                12,
            )
        } else {
            Decoded::Malformed
        }
    } else {
        Decoded::Malformed
    }
}

/// Decodes the container header: `"RIFF"` or `"ON2 "`, a declared file
/// size, and a type tag constrained by the magic. Twelve bytes.
pub fn header(input: &[u8]) -> (r: Decoded<Header>)
    ensures
        r == spec_header(input@),
{
    if input.len() < 4 {
        return Decoded::Insufficient;
    }
    let m1 = le_u32_at(input, 0);
    if m1 == FCC_RIFF {
        if input.len() < 12 {
            return Decoded::Insufficient;
        }
        let m2 = le_u32_at(input, 8);
        if m2 == FCC_AVI || m2 == FCC_AVIX || m2 == FCC_AVI19 || m2 == FCC_AMV {
            Decoded::Success(Header { magic1: m1, file_size: le_u32_at(input, 4), magic2: m2 }, 12)
        } else {
            Decoded::Malformed
        }
    } else if m1 == FCC_ON2 {
        if input.len() < 12 {
            return Decoded::Insufficient;
        }
        let m2 = le_u32_at(input, 8);
        if m2 == FCC_ON2F {
            Decoded::Success(Header { magic1: m1, file_size: le_u32_at(input, 4), magic2: m2 }, 12)
        } else {
            Decoded::Malformed
        }
    } else {
        Decoded::Malformed
    }
}

/// What `block_header` returns on the window `s`.
pub open spec fn spec_block_header(s: Seq<u8>) -> Decoded<BlockHeader> {
    if s.len() < 8 {
        Decoded::Insufficient
    } else {
        Decoded::Success(
            BlockHeader { tag: le32_at(s, 0) as u32, size: le32_at(s, 4) as u32 },
            8,
        )
    }
}

/// Decodes one chunk header: 4 raw tag bytes and a declared payload size.
/// Always exactly eight bytes when present.
pub fn block_header(input: &[u8]) -> (r: Decoded<BlockHeader>)
    ensures
        r == spec_block_header(input@),
{
    if input.len() < 8 {
        return Decoded::Insufficient;
    }
    Decoded::Success(BlockHeader { tag: le_u32_at(input, 0), size: le_u32_at(input, 4) }, 8)
}

/// One decoded top-level content unit.
#[derive(Debug, Clone, PartialEq)]
pub enum Block {
    /// A `LIST` chunk: declared payload size and its classified kind.
    List(usize, List),
    /// The main AVI header chunk.
    Avih(MainAVIHeader),
    /// One stream-description chunk.
    Strh(AVIStreamHeader),
    /// A chunk in the known-but-undecoded vocabulary.
    Unimplemented,
    /// Any chunk outside the known vocabulary.
    Default,
}

/// Classification of a `LIST` chunk by its inner type tag.
#[derive(Debug, Clone, PartialEq)]
pub enum List {
    /// The header list.
    Hdrl,
    /// The movie-data region; carries its absolute end offset.
    Movi(usize),
    /// An ignorable list (`INFO`, `ncdt`).
    Default,
    /// Any other list type, carried as its raw tag reading.
    Unknown(u32),
}

/// The ten ordered fields of the main AVI header; 16 trailing reserved
/// bytes are consumed and discarded.
#[derive(Debug, Clone, PartialEq)]
pub struct MainAVIHeader {
    pub microsec_per_frame: u32,
    pub max_bytes_per_sec: u32,
    pub padding_granularity: u32,
    pub flags: u32,
    pub total_frames: u32,
    pub initial_frames: u32,
    pub streams: u32,
    pub suggested_buffer_size: u32,
    pub width: u32,
    pub height: u32,
}

/// A signed 16-bit bounding rectangle.
#[derive(Debug, Clone, PartialEq)]
pub struct Rect {
    pub left: i16,
    pub top: i16,
    pub right: i16,
    pub bottom: i16,
}

/// One stream's description: its media kind, handler, timing and buffering
/// fields, and a bounding rectangle.
#[derive(Debug, Clone, PartialEq)]
pub struct AVIStreamHeader {
    pub fcc_type: FccType,
    pub fcc_handler: u32,
    pub flags: u32,
    pub priority: u16,
    pub language: u16,
    pub initial_frames: u32,
    pub scale: u32,
    pub rate: u32,
    pub start: u32,
    pub length: u32,
    pub suggested_buffer_size: u32,
    pub quality: u32,
    pub sample_size: u32,
    pub frame: Rect,
}

/// Media kind of a stream.
#[derive(Debug, Clone, PartialEq)]
pub enum FccType {
    Video,
    Audio,
    Subtitle,
}

/// Bitmap metadata, accepted only when its self-reported size equals 40.
#[derive(Debug, Clone, PartialEq)]
pub struct BitmapInfoHeader {
    pub size: u32,
    pub width: i32,
    pub height: i32,
    pub planes: u16,
    pub bit_count: u16,
    pub compression: u32,
    pub size_image: u32,
    pub xpels_per_meter: i32,
    pub ypels_per_meter: i32,
    pub clr_used: u32,
    pub clr_important: u32,
}

/// Room above `off` for the largest offset the decoders ever compute: a
/// declared 32-bit size plus its chunk header and padding byte.
pub open spec fn offset_headroom(off: int) -> bool {
    off + 0x2_0000_0000 <= usize::MAX
}

/// What `list` returns on the window `s`. The carried end offset of a
/// `movi` list follows the even-padding rule of the container: for a
/// nonzero declared size `S` seen at absolute offset `O`, the region ends
/// at `O + 8 + S + (S % 2)`; for `S == 0` it is bounded only by the
/// declared file size.
pub open spec fn spec_list(s: Seq<u8>, stream_offset: int, file_size: u32, list_size: u32) -> Decoded<
    List,
> {
    if s.len() < 4 {
        Decoded::Insufficient
    } else {
        let t = le32_at(s, 0);
        if t == FCC_INFO || t == FCC_NCDT {
            Decoded::Success(List::Default, 4)
        } else if t == FCC_MOVI {
            if list_size != 0 {
                Decoded::Success(
                    List::Movi((stream_offset + 8 + list_size + (list_size % 2)) as usize),
                    4,
                )
            } else {
                Decoded::Success(List::Movi(file_size as usize), 4)
            }
        } else if t == FCC_HDRL {
            Decoded::Success(List::Hdrl, 4)
        } else {
            Decoded::Success(List::Unknown(t as u32), 4)
        }
    }
}

/// Classifies a `LIST` chunk by the 4-byte type tag that opens its
/// payload. `stream_offset` is the absolute offset of the enclosing `LIST`
/// chunk header; `list_size` is its declared payload size.
pub fn list(input: &[u8], stream_offset: usize, file_size: u32, list_size: u32) -> (r: Decoded<
    List,
>)
    requires
        offset_headroom(stream_offset as int),
    ensures
        r == spec_list(input@, stream_offset as int, file_size, list_size),
{
    if input.len() < 4 {
        return Decoded::Insufficient;
    }
    let t = le_u32_at(input, 0);
    if t == FCC_INFO || t == FCC_NCDT {
        Decoded::Success(List::Default, 4)
    } else if t == FCC_MOVI {
        if list_size != 0 {
            let end = stream_offset + 8 + (list_size as usize) + ((list_size % 2) as usize);
            Decoded::Success(List::Movi(end), 4)
        } else {
            Decoded::Success(List::Movi(file_size as usize), 4)
        }
    } else if t == FCC_HDRL {
        Decoded::Success(List::Hdrl, 4)
    } else {
        Decoded::Success(List::Unknown(t), 4)
    }
}

/// What `avih` returns on the window `s`.
pub open spec fn spec_avih(s: Seq<u8>) -> Decoded<MainAVIHeader> {
    if s.len() < 56 {
        Decoded::Insufficient
    } else {
        Decoded::Success(
            MainAVIHeader {
                microsec_per_frame: le32_at(s, 0) as u32,
                max_bytes_per_sec: le32_at(s, 4) as u32,
                padding_granularity: le32_at(s, 8) as u32,
                flags: le32_at(s, 12) as u32,
                total_frames: le32_at(s, 16) as u32,
                initial_frames: le32_at(s, 20) as u32,
                streams: le32_at(s, 24) as u32,
                suggested_buffer_size: le32_at(s, 28) as u32,
                width: le32_at(s, 32) as u32,
                height: le32_at(s, 36) as u32,
            },
            56,
        )
    }
}

/// Decodes the main AVI header: ten 32-bit fields in fixed order, then 16
/// reserved bytes consumed and discarded. 56 bytes.
pub fn avih(input: &[u8]) -> (r: Decoded<MainAVIHeader>)
    ensures
        r == spec_avih(input@),
{
    if input.len() < 56 {
        return Decoded::Insufficient;
    }
    Decoded::Success(
        MainAVIHeader {
            microsec_per_frame: le_u32_at(input, 0),
            max_bytes_per_sec: le_u32_at(input, 4),
            padding_granularity: le_u32_at(input, 8),
            flags: le_u32_at(input, 12),
            total_frames: le_u32_at(input, 16),
            initial_frames: le_u32_at(input, 20),
            streams: le_u32_at(input, 24),
            suggested_buffer_size: le_u32_at(input, 28),
            width: le_u32_at(input, 32),
            height: le_u32_at(input, 36),
        },
        56,
    )
}

/// What `fcc_type` returns on the window `s`.
pub open spec fn spec_fcc_type(s: Seq<u8>) -> Decoded<FccType> {
    if s.len() < 4 {
        Decoded::Insufficient
    } else {
        let t = le32_at(s, 0);
        if t == FCC_VIDS {
            Decoded::Success(FccType::Video, 4)
        } else if t == FCC_AUDS {
            Decoded::Success(FccType::Audio, 4)
        } else if t == FCC_TXTS {
            Decoded::Success(FccType::Subtitle, 4)
        } else {
            Decoded::Malformed
        }
    }
}

/// Decodes the media-kind tag of a stream header: exactly one of `vids`,
/// `auds` or `txts`; any other value is malformed, since the tag comes
/// from untrusted input.
pub fn fcc_type(input: &[u8]) -> (r: Decoded<FccType>)
    ensures
        r == spec_fcc_type(input@),
{
    if input.len() < 4 {
        return Decoded::Insufficient;
    }
    let t = le_u32_at(input, 0);
    if t == FCC_VIDS {
        Decoded::Success(FccType::Video, 4)
    } else if t == FCC_AUDS {
        Decoded::Success(FccType::Audio, 4)
    } else if t == FCC_TXTS {
        Decoded::Success(FccType::Subtitle, 4)
    } else {
        Decoded::Malformed
    }
}

/// What `strh` returns on the window `s`.
pub open spec fn spec_strh(s: Seq<u8>) -> Decoded<AVIStreamHeader> {
    match spec_fcc_type(s) {
        Decoded::Insufficient => Decoded::Insufficient,
        Decoded::Malformed => Decoded::Malformed,
        Decoded::Success(ft, _) => if s.len() < 56 {
            Decoded::Insufficient
        } else {
            Decoded::Success(
                AVIStreamHeader {
                    fcc_type: ft,
                    fcc_handler: le32_at(s, 4) as u32,
                    flags: le32_at(s, 8) as u32,
                    priority: le16_at(s, 12) as u16,
                    language: le16_at(s, 14) as u16,
                    initial_frames: le32_at(s, 16) as u32,
                    scale: le32_at(s, 20) as u32,
                    rate: le32_at(s, 24) as u32,
                    start: le32_at(s, 28) as u32,
                    length: le32_at(s, 32) as u32,
                    suggested_buffer_size: le32_at(s, 36) as u32,
                    quality: le32_at(s, 40) as u32,
                    sample_size: le32_at(s, 44) as u32,
                    frame: Rect {
                        left: sign16(le16_at(s, 48)) as i16,
                        top: sign16(le16_at(s, 50)) as i16,
                        right: sign16(le16_at(s, 52)) as i16,
                        bottom: sign16(le16_at(s, 54)) as i16,
                    },
                },
                56,
            )
        },
    }
}

/// Decodes one stream header: the media kind, handler, flags, priority,
/// language, nine more 32-bit fields and a signed bounding rectangle.
/// 56 bytes.
pub fn strh(input: &[u8]) -> (r: Decoded<AVIStreamHeader>)
    ensures
        r == spec_strh(input@),
{
    let ft = match fcc_type(input) {
        Decoded::Insufficient => {
            return Decoded::Insufficient;
        },
        Decoded::Malformed => {
            return Decoded::Malformed;
        },
        Decoded::Success(ft, _) => ft,
    };
    if input.len() < 56 {
        return Decoded::Insufficient;
    }
    Decoded::Success(
        AVIStreamHeader {
            fcc_type: ft,
            fcc_handler: le_u32_at(input, 4),
            flags: le_u32_at(input, 8),
            priority: le_u16_at(input, 12),
            language: le_u16_at(input, 14),
            initial_frames: le_u32_at(input, 16),
            scale: le_u32_at(input, 20),
            rate: le_u32_at(input, 24),
            start: le_u32_at(input, 28),
            length: le_u32_at(input, 32),
            suggested_buffer_size: le_u32_at(input, 36),
            quality: le_u32_at(input, 40),
            sample_size: le_u32_at(input, 44),
            frame: Rect {
                left: le_i16_at(input, 48),
                top: le_i16_at(input, 50),
                right: le_i16_at(input, 52),
                bottom: le_i16_at(input, 54),
            },
        },
        56,
    )
}

/// What `bitmap_info_header` returns on the window `s`.
pub open spec fn spec_bitmap_info_header(s: Seq<u8>) -> Decoded<BitmapInfoHeader> {
    if s.len() < 40 {
        Decoded::Insufficient
    } else {
        Decoded::Success(
            BitmapInfoHeader {
                size: le32_at(s, 0) as u32,
                width: sign32(le32_at(s, 4)) as i32,
                height: sign32(le32_at(s, 8)) as i32,
                planes: le16_at(s, 12) as u16,
                bit_count: le16_at(s, 14) as u16,
                compression: le32_at(s, 16) as u32,
                size_image: le32_at(s, 20) as u32,
                xpels_per_meter: sign32(le32_at(s, 24)) as i32,
                ypels_per_meter: sign32(le32_at(s, 28)) as i32,
                clr_used: le32_at(s, 32) as u32,
                clr_important: le32_at(s, 36) as u32,
            },
            40,
        )
    }
}

/// Decodes the 40-byte bitmap metadata record: size, signed dimensions,
/// planes, bit depth, compression, image size, signed resolutions and
/// color-table sizes.
pub fn bitmap_info_header(input: &[u8]) -> (r: Decoded<BitmapInfoHeader>)
    ensures
        r == spec_bitmap_info_header(input@),
{
    if input.len() < 40 {
        return Decoded::Insufficient;
    }
    Decoded::Success(
        BitmapInfoHeader {
            size: le_u32_at(input, 0),
            width: le_i32_at(input, 4),
            height: le_i32_at(input, 8),
            planes: le_u16_at(input, 12),
            bit_count: le_u16_at(input, 14),
            compression: le_u32_at(input, 16),
            size_image: le_u32_at(input, 20),
            xpels_per_meter: le_i32_at(input, 24),
            ypels_per_meter: le_i32_at(input, 28),
            clr_used: le_u32_at(input, 32),
            clr_important: le_u32_at(input, 36),
        },
        40,
    )
}

/// What `strf` returns on the window `s`.
pub open spec fn spec_strf(s: Seq<u8>) -> Decoded<BitmapInfoHeader> {
    if s.len() < 4 {
        Decoded::Insufficient
    } else if le32_at(s, 0) != FCC_STRF {
        Decoded::Malformed
    } else if s.len() < 8 {
        Decoded::Insufficient
    } else if le32_at(s, 4) != 40 {
        Decoded::Malformed
    } else {
        match spec_bitmap_info_header(s.skip(8)) {
            Decoded::Insufficient => Decoded::Insufficient,
            Decoded::Malformed => Decoded::Malformed,
            Decoded::Success(b, n) => Decoded::Success(b, (8 + n) as usize),
        }
    }
}

/// Decodes a video stream-format chunk: the literal `strf` tag, a self
/// size that must equal 40, then the bitmap metadata. 48 bytes.
pub fn strf(input: &[u8]) -> (r: Decoded<BitmapInfoHeader>)
    ensures
        r == spec_strf(input@),
{
    if input.len() < 4 {
        return Decoded::Insufficient;
    }
    if le_u32_at(input, 0) != FCC_STRF {
        return Decoded::Malformed;
    }
    if input.len() < 8 {
        return Decoded::Insufficient;
    }
    if le_u32_at(input, 4) != 40 {
        return Decoded::Malformed;
    }
    let rest = vstd::slice::slice_subrange(input, 8, input.len());
    match bitmap_info_header(rest) {
        Decoded::Insufficient => Decoded::Insufficient,
        Decoded::Malformed => Decoded::Malformed,
        Decoded::Success(b, n) => Decoded::Success(b, 8 + n),
    }
}

/// What `block` returns on the window `s`.
pub open spec fn spec_block(s: Seq<u8>, stream_offset: int, file_size: u32) -> Decoded<Block> {
    if s.len() < 8 {
        Decoded::Insufficient
    } else {
        let tag = le32_at(s, 0);
        let size = le32_at(s, 4);
        if tag == FCC_LIST {
            match spec_list(s.skip(8), stream_offset, file_size, size as u32) {
                Decoded::Insufficient => Decoded::Insufficient,
                Decoded::Malformed => Decoded::Malformed,
                Decoded::Success(l, n) => Decoded::Success(
                    Block::List(size as usize, l),
                    (8 + n) as usize,
                ),
            }
        } else if tag == FCC_IDIT || tag == FCC_DMLH || tag == FCC_AMVH || tag == FCC_STRF || tag
            == FCC_INDX || tag == FCC_VPRP || tag == FCC_STRN {
            Decoded::Success(Block::Unimplemented, 8)
        } else if tag == FCC_AVIH {
            match spec_avih(s.skip(8)) {
                Decoded::Insufficient => Decoded::Insufficient,
                Decoded::Malformed => Decoded::Malformed,
                Decoded::Success(h, n) => Decoded::Success(Block::Avih(h), (8 + n) as usize),
            }
        } else if tag == FCC_STRH {
            match spec_strh(s.skip(8)) {
                Decoded::Insufficient => Decoded::Insufficient,
                Decoded::Malformed => Decoded::Malformed,
                Decoded::Success(h, n) => Decoded::Success(Block::Strh(h), (8 + n) as usize),
            }
        } else {
            Decoded::Success(Block::Default, 8)
        }
    }
}

/// Reads one 8-byte chunk header and dispatches on the tag. Only the
/// bytes this function itself decodes count as consumed: for `List`,
/// `Unimplemented` and `Default` blocks the caller owns skipping the
/// declared payload. `stream_offset` is the absolute offset of `input`
/// from the beginning of the stream.
pub fn block(input: &[u8], stream_offset: usize, file_size: u32) -> (r: Decoded<Block>)
    requires
        offset_headroom(stream_offset as int),
    ensures
        r == spec_block(input@, stream_offset as int, file_size),
{
    if input.len() < 8 {
        return Decoded::Insufficient;
    }
    let tag = le_u32_at(input, 0);
    let size = le_u32_at(input, 4);
    let rest = vstd::slice::slice_subrange(input, 8, input.len());
    if tag == FCC_LIST {
        match list(rest, stream_offset, file_size, size) {
            Decoded::Insufficient => Decoded::Insufficient,
            Decoded::Malformed => Decoded::Malformed,
            Decoded::Success(l, n) => Decoded::Success(Block::List(size as usize, l), 8 + n),
        }
    } else if tag == FCC_IDIT || tag == FCC_DMLH || tag == FCC_AMVH || tag == FCC_STRF || tag
        == FCC_INDX || tag == FCC_VPRP || tag == FCC_STRN {
        Decoded::Success(Block::Unimplemented, 8)
    } else if tag == FCC_AVIH {
        match avih(rest) {
            Decoded::Insufficient => Decoded::Insufficient,
            Decoded::Malformed => Decoded::Malformed,
            Decoded::Success(h, n) => Decoded::Success(Block::Avih(h), 8 + n),
        }
    } else if tag == FCC_STRH {
        match strh(rest) {
            Decoded::Insufficient => Decoded::Insufficient,
            Decoded::Malformed => Decoded::Malformed,
            Decoded::Success(h, n) => Decoded::Success(Block::Strh(h), 8 + n),
        }
    } else {
        Decoded::Success(Block::Default, 8)
    }
}

/// Every successful decode consumes no more than the window it was given.
pub proof fn lemma_block_consumed_bounded(s: Seq<u8>, stream_offset: int, file_size: u32)
    ensures
        spec_block(s, stream_offset, file_size) matches Decoded::Success(_, n) ==> 8 <= n <= s.len(),
{
}

/// Movi end-offset law: a `LIST` chunk typed `movi`, observed at absolute
/// offset `o` with nonzero declared size `s`, carries the end offset
/// `o + 8 + s + (s % 2)` — the declared payload plus the container's
/// even-padding byte; with `s == 0` the region is open-ended and carries
/// the declared total file size.
pub proof fn lemma_movi_end_offset(w: Seq<u8>, o: int, file_size: u32)
    requires
        w.len() >= 12,
        le32_at(w, 0) == FCC_LIST,
        le32_at(w, 8) == FCC_MOVI,
        0 <= o,
        offset_headroom(o),
    ensures
        ({
            let s = le32_at(w, 4);
            spec_block(w, o, file_size) == Decoded::<Block>::Success(
                Block::List(
                    s as usize,
                    List::Movi(
                        if s != 0 {
                            (o + 8 + s + (s % 2)) as usize
                        } else {
                            file_size as usize
                        },
                    ),
                ),
                12,
            )
        }),
{
    assert(le32_at(w.skip(8), 0) == le32_at(w, 8));
}

} // verus!
